//! Classification of address-bar input. Input that already carries an
//! `http://` or `https://` scheme is a URL and loads as it is; input with a
//! dot and no space is a bare host name and gets the `https://` scheme;
//! everything else is a search query for the selected engine.

use vstd::prelude::*;
use vstd::utf8::{decode_utf8, encode_utf8, encode_utf8_decode_utf8};
use crate::ENGINE_COUNT;
use crate::encode::{decode_chars, encoded, lemma_decode_encode_bytes, percent_encode};
use crate::engines::{spec_template, template};

verus! {

/// `p` begins `s`.
pub open spec fn spec_starts_with(s: Seq<char>, p: Seq<char>) -> bool {
    p.len() <= s.len() && s.take(p.len() as int) == p
}

/// Input already written as a URL: it carries a scheme the browser loads
/// directly.
pub open spec fn is_literal_url(s: Seq<char>) -> bool {
    spec_starts_with(s, "http://"@) || spec_starts_with(s, "https://"@)
}

/// Input taken for a bare host name: it has a dot and no space.
pub open spec fn is_bare_host(s: Seq<char>) -> bool {
    s.contains('.') && !s.contains(' ')
}

/// The URL loaded for address-bar input: the input itself when it is
/// already a URL; `https://` plus the input when it names a bare host;
/// otherwise the selected engine's template plus the percent-encoded input.
pub open spec fn spec_resolve(s: Seq<char>, i: int) -> Seq<char> {
    if is_literal_url(s) {
        s
    } else if is_bare_host(s) {
        "https://"@ + s
    } else {
        spec_template(i) + encoded(s)
    }
}

fn str_starts_with(s: &str, p: &str) -> (r: bool)
    ensures
        r == spec_starts_with(s@, p@),
{
    let n = s.unicode_len();
    let m = p.unicode_len();
    if m > n {
        return false;
    }
    let mut j: usize = 0;
    while j < m
        invariant
            j <= m <= n,
            n == s@.len(),
            m == p@.len(),
            forall|k: int| 0 <= k < j ==> s@[k] == p@[k],
        decreases m - j,
    {
        if s.get_char(j) != p.get_char(j) {
            assert(s@.take(m as int)[j as int] != p@[j as int]);
            return false;
        }
        j = j + 1;
    }
    assert(s@.take(m as int) =~= p@);
    true
}

fn contains_char(s: &str, c: char) -> (r: bool)
    ensures
        r == s@.contains(c),
{
    let n = s.unicode_len();
    let mut j: usize = 0;
    while j < n
        invariant
            j <= n,
            n == s@.len(),
            forall|k: int| 0 <= k < j ==> s@[k] != c,
        decreases n - j,
    {
        if s.get_char(j) == c {
            assert(s@.contains(c));
            return true;
        }
        j = j + 1;
    }
    assert(!s@.contains(c));
    false
}

/// Resolve address-bar input to the URL the current tab is told to load.
pub fn resolve(input: &str, engine_index: usize) -> (r: String)
    requires
        engine_index < ENGINE_COUNT,
    ensures
        r@ == spec_resolve(input@, engine_index as int),
{
    if str_starts_with(input, "http://") || str_starts_with(input, "https://") {
        input.to_owned()
    } else if contains_char(input, '.') && !contains_char(input, ' ') {
        let mut r = String::new();
        r.append("https://");
        r.append(input);
        proof {
            assert(Seq::<char>::empty() + "https://"@ =~= "https://"@);
        }
        r
    } else {
        let mut r = template(engine_index);
        let q = percent_encode(input);
        r.append(q.as_str());
        r
    }
}

/// Input that is already a URL resolves to itself, whatever engine is
/// selected.
pub proof fn lemma_resolve_url_unchanged(s: Seq<char>, i: int)
    requires
        is_literal_url(s),
    ensures
        spec_resolve(s, i) == s,
{
}

/// Input with a dot and no space, and no scheme of its own, resolves to
/// `https://` plus the input, whatever engine is selected.
pub proof fn lemma_resolve_bare_host(s: Seq<char>, i: int)
    requires
        !is_literal_url(s),
        is_bare_host(s),
    ensures
        spec_resolve(s, i) == "https://"@ + s,
{
}

/// Every other input resolves to the selected engine's template followed
/// by the percent-encoded input, and decoding that query part gives back
/// exactly the input: first its UTF-8 bytes, and from those the input
/// itself.
pub proof fn lemma_resolve_search_round_trip(s: Seq<char>, i: int)
    requires
        !is_literal_url(s),
        !is_bare_host(s),
    ensures
        spec_resolve(s, i) == spec_template(i) + encoded(s),
        spec_starts_with(spec_resolve(s, i), spec_template(i)),
        decode_chars(spec_resolve(s, i).skip(spec_template(i).len() as int)) == Some(
            encode_utf8(s),
        ),
        decode_utf8(encode_utf8(s)) == s,
{
    let t = spec_template(i);
    let r = spec_resolve(s, i);
    assert(r.take(t.len() as int) =~= t);
    assert(r.skip(t.len() as int) =~= encoded(s));
    lemma_decode_encode_bytes(encode_utf8(s));
    encode_utf8_decode_utf8(s);
}

} // verus!
