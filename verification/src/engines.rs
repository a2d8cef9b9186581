//! The fixed, ordered registry of search engines: a name and a query
//! template (an absolute URL prefix to which the percent-encoded query is
//! appended) per engine, a search URL for a query, and the engine's home
//! page, obtained by stripping the template down to its authority.

use vstd::prelude::*;
use crate::ENGINE_COUNT;
use crate::encode::{encoded, percent_encode};

verus! {

/// Name of the engine at a registry index.
pub open spec fn spec_engine_name(i: int) -> Seq<char> {
    if i == 0 {
        "Ecosia"@
    } else if i == 1 {
        "DuckDuckGo"@
    } else if i == 2 {
        "Brave"@
    } else if i == 3 {
        "Google"@
    } else if i == 4 {
        "Bing"@
    } else if i == 5 {
        "Kagi"@
    } else {
        "Yahoo"@
    }
}

/// Query template of the engine at a registry index.
pub open spec fn spec_template(i: int) -> Seq<char> {
    if i == 0 {
        "https://ecosia.org/search?q="@
    } else if i == 1 {
        "https://duckduckgo.com/?q="@
    } else if i == 2 {
        "https://search.brave.com/search?q="@
    } else if i == 3 {
        "https://www.google.com/search?q="@
    } else if i == 4 {
        "https://www.bing.com/search?q="@
    } else if i == 5 {
        "https://kagi.com/search?q="@
    } else {
        "https://search.yahoo.com/search?q="@
    }
}

pub fn engine_name(i: usize) -> (r: String)
    requires
        i < ENGINE_COUNT,
    ensures
        r@ == spec_engine_name(i as int),
{
    let s: &str = if i == 0 {
        "Ecosia"
    } else if i == 1 {
        "DuckDuckGo"
    } else if i == 2 {
        "Brave"
    } else if i == 3 {
        "Google"
    } else if i == 4 {
        "Bing"
    } else if i == 5 {
        "Kagi"
    } else {
        "Yahoo"
    };
    s.to_owned()
}

pub fn template(i: usize) -> (r: String)
    requires
        i < ENGINE_COUNT,
    ensures
        r@ == spec_template(i as int),
{
    let s: &str = if i == 0 {
        "https://ecosia.org/search?q="
    } else if i == 1 {
        "https://duckduckgo.com/?q="
    } else if i == 2 {
        "https://search.brave.com/search?q="
    } else if i == 3 {
        "https://www.google.com/search?q="
    } else if i == 4 {
        "https://www.bing.com/search?q="
    } else if i == 5 {
        "https://kagi.com/search?q="
    } else {
        "https://search.yahoo.com/search?q="
    };
    s.to_owned()
}

/// Search URL of an engine for a query: the template followed by the
/// percent-encoded query text.
pub fn query_url(i: usize, text: &str) -> (r: String)
    requires
        i < ENGINE_COUNT,
    ensures
        r@ == spec_template(i as int) + encoded(text@),
{
    let mut r = template(i);
    let q = percent_encode(text);
    r.append(q.as_str());
    r
}

/// Characters that end the authority part of a URL.
pub open spec fn is_authority_end(c: char) -> bool {
    c == '/' || c == '?' || c == '#'
}

/// What follows the first `://` of a URL; empty when there is none.
pub open spec fn after_scheme(s: Seq<char>) -> Seq<char>
    decreases s.len(),
{
    if s.len() < 3 {
        Seq::empty()
    } else if s[0] == ':' && s[1] == '/' && s[2] == '/' {
        s.skip(3)
    } else {
        after_scheme(s.drop_first())
    }
}

/// Leading run of characters up to the end of the authority.
pub open spec fn authority_of(s: Seq<char>) -> Seq<char>
    decreases s.len(),
{
    if s.len() == 0 || is_authority_end(s[0]) {
        Seq::empty()
    } else {
        seq![s[0]] + authority_of(s.drop_first())
    }
}

/// The host of a URL: the authority that follows its scheme.
pub open spec fn spec_host(s: Seq<char>) -> Seq<char> {
    authority_of(after_scheme(s))
}

/// Home page of the engine at a registry index: `https://` followed by the
/// host of its template.
pub open spec fn spec_home_page(i: int) -> Seq<char> {
    "https://"@ + spec_host(spec_template(i))
}

fn authority_end_char(c: char) -> (r: bool)
    ensures
        r == is_authority_end(c),
{
    c == '/' || c == '?' || c == '#'
}

proof fn lemma_after_scheme_step(s: Seq<char>, p: int)
    requires
        0 <= p,
        p + 3 <= s.len(),
        !(s[p] == ':' && s[p + 1] == '/' && s[p + 2] == '/'),
    ensures
        after_scheme(s.skip(p)) == after_scheme(s.skip(p + 1)),
{
    let t = s.skip(p);
    assert(t[0] == s[p] && t[1] == s[p + 1] && t[2] == s[p + 2]);
    assert(t.drop_first() =~= s.skip(p + 1));
}

proof fn lemma_authority_of_range(t: Seq<char>, m: int)
    requires
        0 <= m <= t.len(),
        forall|k: int| 0 <= k < m ==> !is_authority_end(#[trigger] t[k]),
        m == t.len() || is_authority_end(t[m]),
    ensures
        authority_of(t) == t.subrange(0, m),
    decreases m,
{
    if m == 0 {
        assert(t.subrange(0, 0) =~= Seq::<char>::empty());
    } else {
        lemma_authority_of_range(t.drop_first(), m - 1);
        assert(authority_of(t) == seq![t[0]] + t.drop_first().subrange(0, m - 1));
        assert(seq![t[0]] + t.drop_first().subrange(0, m - 1) =~= t.subrange(0, m));
    }
}

/// The host that `spec_host` extracts: everything between the first `://`
/// and the next `/`, `?` or `#`.
fn host_of(s: &str) -> (r: String)
    ensures
        r@ == spec_host(s@),
{
    let n = s.unicode_len();
    proof {
        assert(s@.skip(0) =~= s@);
    }
    let mut p: usize = 0;
    let mut found = false;
    while !found && p < n && n - p >= 3
        invariant
            0 <= p <= n,
            n == s@.len(),
            after_scheme(s@) == after_scheme(s@.skip(p as int)),
            found ==> p + 3 <= n && s@[p as int] == ':' && s@[p as int + 1] == '/' && s@[p as int
                + 2] == '/',
        decreases n - p + (if found { 0int } else { 1int }),
    {
        if s.get_char(p) == ':' && s.get_char(p + 1) == '/' && s.get_char(p + 2) == '/' {
            found = true;
        } else {
            proof {
                lemma_after_scheme_step(s@, p as int);
            }
            p = p + 1;
        }
    }
    if !found {
        proof {
            assert(s@.skip(p as int).len() < 3);
            assert(after_scheme(s@) =~= Seq::<char>::empty());
            assert(authority_of(after_scheme(s@)) =~= Seq::<char>::empty());
        }
        return String::new();
    }
    let start = p + 3;
    proof {
        let t = s@.skip(p as int);
        assert(t[0] == ':' && t[1] == '/' && t[2] == '/');
        assert(after_scheme(s@) == t.skip(3));
        assert(t.skip(3) =~= s@.skip(start as int));
    }
    let mut q = start;
    while q < n && !authority_end_char(s.get_char(q))
        invariant
            start <= q <= n,
            n == s@.len(),
            forall|k: int| start <= k < q ==> !is_authority_end(#[trigger] s@[k]),
        decreases n - q,
    {
        q = q + 1;
    }
    proof {
        let t = s@.skip(start as int);
        assert forall|k: int| 0 <= k < q - start implies !is_authority_end(#[trigger] t[k]) by {
            assert(t[k] == s@[start + k]);
        }
        if q < n {
            assert(t[q - start] == s@[q as int]);
        }
        lemma_authority_of_range(t, q - start);
        assert(t.subrange(0, q - start) =~= s@.subrange(start as int, q as int));
    }
    let h = s.substring_char(start, q);
    h.to_owned()
}

proof fn lemma_after_scheme_https(s: Seq<char>)
    requires
        s.len() >= 8,
        s.take(8) == "https://"@,
    ensures
        after_scheme(s) == s.skip(8),
{
    reveal_strlit("https://");
    assert forall|k: int| 0 <= k < 8 implies s[k] == "https://"@[k] by {
        assert(s.take(8)[k] == s[k]);
    }
    assert(s.skip(0) =~= s);
    lemma_after_scheme_step(s, 0);
    lemma_after_scheme_step(s, 1);
    lemma_after_scheme_step(s, 2);
    lemma_after_scheme_step(s, 3);
    lemma_after_scheme_step(s, 4);
    let t = s.skip(5);
    assert(t[0] == ':' && t[1] == '/' && t[2] == '/');
    assert(after_scheme(t) == t.skip(3));
    assert(t.skip(3) =~= s.skip(8));
}

proof fn lemma_authority_of_no_end(t: Seq<char>)
    ensures
        forall|j: int| 0 <= j < authority_of(t).len() ==> !is_authority_end(
            #[trigger] authority_of(t)[j],
        ),
    decreases t.len(),
{
    if t.len() > 0 && !is_authority_end(t[0]) {
        lemma_authority_of_no_end(t.drop_first());
        assert forall|j: int| 0 <= j < authority_of(t).len() implies !is_authority_end(
            #[trigger] authority_of(t)[j],
        ) by {
            if j == 0 {
                assert(authority_of(t)[0] == t[0]);
            } else {
                assert(authority_of(t)[j] == authority_of(t.drop_first())[j - 1]);
            }
        }
    }
}

/// The home page of every built-in engine is `https://` followed by a
/// non-empty host, with no path, query or fragment and no trailing slash:
/// no character after the scheme is `/`, `?` or `#`.
pub proof fn lemma_home_page_shape(i: int)
    requires
        0 <= i < ENGINE_COUNT,
    ensures
        spec_home_page(i).len() > 8,
        spec_home_page(i).take(8) == "https://"@,
        forall|j: int| 8 <= j < spec_home_page(i).len() ==> !is_authority_end(
            #[trigger] spec_home_page(i)[j],
        ),
{
    reveal_strlit("https://");
    reveal_strlit("https://ecosia.org/search?q=");
    reveal_strlit("https://duckduckgo.com/?q=");
    reveal_strlit("https://search.brave.com/search?q=");
    reveal_strlit("https://www.google.com/search?q=");
    reveal_strlit("https://www.bing.com/search?q=");
    reveal_strlit("https://kagi.com/search?q=");
    reveal_strlit("https://search.yahoo.com/search?q=");
    let t = spec_template(i);
    assert(t.len() >= 9);
    assert(t.take(8) =~= "https://"@);
    lemma_after_scheme_https(t);
    let u = t.skip(8);
    assert(u[0] == t[8]);
    assert(!is_authority_end(u[0]));
    let host = authority_of(u);
    assert(host[0] == u[0] && host.len() > 0);
    lemma_authority_of_no_end(u);
    let h = spec_home_page(i);
    assert(h.take(8) =~= "https://"@);
    assert forall|j: int| 8 <= j < h.len() implies !is_authority_end(#[trigger] h[j]) by {
        assert(h[j] == host[j - 8]);
    }
}

/// Home page of an engine: its template stripped to `https://` plus the
/// bare host, with no path, query or fragment.
pub fn home_page(i: usize) -> (r: String)
    requires
        i < ENGINE_COUNT,
    ensures
        r@ == spec_home_page(i as int),
{
    let t = template(i);
    let host = host_of(t.as_str());
    let mut r = String::new();
    r.append("https://");
    r.append(host.as_str());
    proof {
        assert(Seq::<char>::empty() + "https://"@ =~= "https://"@);
    }
    r
}

} // verus!
