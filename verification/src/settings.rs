//! The settings codec. The one durable preference is the selected
//! search-engine index, stored as a decimal ASCII integer in a single text
//! file. Reading tolerates surrounding whitespace; an empty, malformed or
//! out-of-range value falls back to index 0. Reading and writing the file
//! itself happens outside; this module only interprets and renders the
//! file's text.

use vstd::prelude::*;
use crate::ENGINE_COUNT;
use crate::encode::ascii_to_string;

verus! {

/// ASCII whitespace tolerated around the stored number.
pub open spec fn is_space(c: char) -> bool {
    c == ' ' || c == '\t' || c == '\n' || c == '\r'
}

/// `s` without its leading whitespace.
pub open spec fn drop_leading_spaces(s: Seq<char>) -> Seq<char>
    decreases s.len(),
{
    if s.len() > 0 && is_space(s[0]) {
        drop_leading_spaces(s.drop_first())
    } else {
        s
    }
}

/// `s` without its trailing whitespace.
pub open spec fn drop_trailing_spaces(s: Seq<char>) -> Seq<char>
    decreases s.len(),
{
    if s.len() > 0 && is_space(s.last()) {
        drop_trailing_spaces(s.drop_last())
    } else {
        s
    }
}

/// `s` without surrounding whitespace.
pub open spec fn spec_trimmed(s: Seq<char>) -> Seq<char> {
    drop_trailing_spaces(drop_leading_spaces(s))
}

pub open spec fn is_digit(c: char) -> bool {
    0x30 <= c as u32 && c as u32 <= 0x39
}

pub open spec fn all_digits(s: Seq<char>) -> bool {
    forall|k: int| 0 <= k < s.len() ==> is_digit(#[trigger] s[k])
}

/// Value of a non-empty digit string.
pub open spec fn digits_value(s: Seq<char>) -> nat
    decreases s.len(),
{
    if s.len() == 0 {
        0
    } else {
        (digits_value(s.drop_last()) * 10 + (s.last() as u32 - 0x30)) as nat
    }
}

/// The engine index stored in settings-file text: its trimmed content read
/// as a decimal number, when that is all digits and in range; index 0 when
/// the file is empty, malformed or out of range.
pub open spec fn spec_parse_engine_index(s: Seq<char>) -> int {
    let t = spec_trimmed(s);
    if t.len() > 0 && all_digits(t) && digits_value(t) < ENGINE_COUNT {
        digits_value(t) as int
    } else {
        0
    }
}

/// The settings-file text written for an engine index: its single decimal
/// digit.
pub open spec fn spec_render_engine_index(i: int) -> Seq<char>
    recommends
        0 <= i < ENGINE_COUNT,
{
    seq![((0x30 + i) as u8) as char]
}

proof fn lemma_drop_leading_spaces_range(s: Seq<char>, a: int)
    requires
        0 <= a <= s.len(),
        forall|k: int| 0 <= k < a ==> is_space(#[trigger] s[k]),
        a == s.len() || !is_space(s[a]),
    ensures
        drop_leading_spaces(s) == s.skip(a),
    decreases a,
{
    if a == 0 {
        assert(s.skip(0) =~= s);
    } else {
        lemma_drop_leading_spaces_range(s.drop_first(), a - 1);
        assert(s.drop_first().skip(a - 1) =~= s.skip(a));
    }
}

proof fn lemma_drop_trailing_spaces_range(s: Seq<char>, b: int)
    requires
        0 <= b <= s.len(),
        forall|k: int| b <= k < s.len() ==> is_space(#[trigger] s[k]),
        b == 0 || !is_space(s[b - 1]),
    ensures
        drop_trailing_spaces(s) == s.take(b),
    decreases s.len(),
{
    if b == s.len() {
        if s.len() > 0 && is_space(s.last()) {
            assert(!is_space(s[b - 1]));
            assert(false);
        }
        assert(s.take(b) =~= s);
    } else {
        assert(is_space(s.last()));
        lemma_drop_trailing_spaces_range(s.drop_last(), b);
        assert(s.drop_last().take(b) =~= s.take(b));
    }
}

fn space_char(c: char) -> (r: bool)
    ensures
        r == is_space(c),
{
    c == ' ' || c == '\t' || c == '\n' || c == '\r'
}

/// Read the selected engine index out of settings-file text. Whitespace
/// around the number is ignored; anything but an in-range decimal number
/// gives index 0.
pub fn parse_engine_index(s: &str) -> (idx: usize)
    ensures
        idx == spec_parse_engine_index(s@),
        idx < ENGINE_COUNT,
{
    let n = s.unicode_len();
    let mut a: usize = 0;
    while a < n && space_char(s.get_char(a))
        invariant
            a <= n,
            n == s@.len(),
            forall|k: int| 0 <= k < a ==> is_space(#[trigger] s@[k]),
        decreases n - a,
    {
        a = a + 1;
    }
    proof {
        lemma_drop_leading_spaces_range(s@, a as int);
    }
    let mut b: usize = n;
    while b > a && space_char(s.get_char(b - 1))
        invariant
            a <= b <= n,
            n == s@.len(),
            forall|k: int| b <= k < n ==> is_space(#[trigger] s@[k]),
        decreases b,
    {
        b = b - 1;
    }
    let ghost u = s@.skip(a as int);
    proof {
        assert forall|k: int| b - a <= k < u.len() implies is_space(#[trigger] u[k]) by {
            assert(u[k] == s@[a + k]);
        }
        if b > a {
            assert(u[b - a - 1] == s@[b as int - 1]);
        }
        lemma_drop_trailing_spaces_range(u, b - a);
    }
    let ghost t = spec_trimmed(s@);
    if b == a {
        proof {
            assert(t =~= Seq::<char>::empty());
        }
        return 0;
    }
    // t == s@.subrange(a, b): a non-empty candidate number
    proof {
        assert(t =~= s@.subrange(a as int, b as int));
    }
    let mut acc: usize = 0;
    let mut j: usize = a;
    while j < b
        invariant
            a <= j <= b <= n,
            n == s@.len(),
            t == spec_trimmed(s@),
            t == s@.subrange(a as int, b as int),
            acc <= ENGINE_COUNT,
            forall|k: int| a <= k < j ==> is_digit(#[trigger] s@[k]),
            acc == if digits_value(t.take(j - a)) < ENGINE_COUNT {
                digits_value(t.take(j - a)) as int
            } else {
                ENGINE_COUNT as int
            },
        decreases b - j,
    {
        let c = s.get_char(j);
        let u32c = c as u32;
        if u32c < 0x30 || u32c > 0x39 {
            proof {
                assert(t[j - a] == s@[j as int]);
                assert(!is_digit(t[j - a]));
                assert(!all_digits(t));
            }
            return 0;
        }
        let d = (u32c - 0x30) as usize;
        let next = if acc > ENGINE_COUNT {
            ENGINE_COUNT
        } else if 10 * acc + d < ENGINE_COUNT {
            10 * acc + d
        } else {
            ENGINE_COUNT
        };
        proof {
            let p = t.take(j - a + 1);
            assert(p.drop_last() =~= t.take(j - a));
            assert(p.last() == s@[j as int]);
        }
        acc = next;
        j = j + 1;
    }
    proof {
        assert(t.take(b - a) =~= t);
        assert(all_digits(t)) by {
            assert forall|k: int| 0 <= k < t.len() implies is_digit(#[trigger] t[k]) by {
                assert(t[k] == s@[a + k]);
            }
        }
    }
    if acc < ENGINE_COUNT {
        acc
    } else {
        0
    }
}

/// Render an engine index as settings-file text: one decimal digit.
pub fn render_engine_index(i: usize) -> (r: String)
    requires
        i < ENGINE_COUNT,
    ensures
        r@ == spec_render_engine_index(i as int),
{
    let mut v: Vec<u8> = Vec::new();
    v.push(0x30 + (i as u8));
    let r = ascii_to_string(v);
    proof {
        assert(r@ =~= spec_render_engine_index(i as int));
    }
    r
}

/// Rendering an engine index and reading it back gives the index again.
pub proof fn lemma_settings_round_trip(i: int)
    requires
        0 <= i < ENGINE_COUNT,
    ensures
        spec_parse_engine_index(spec_render_engine_index(i)) == i,
{
    let s = spec_render_engine_index(i);
    let c = ((0x30 + i) as u8) as char;
    assert(s.len() == 1 && s[0] == c);
    assert(c as u32 == 0x30 + i);
    assert(digits_value(Seq::<char>::empty()) == 0);
    assert(!is_space(c));
    assert(drop_leading_spaces(s) == s);
    assert(s.last() == c);
    assert(drop_trailing_spaces(s) == s);
    assert(is_digit(c));
    assert(all_digits(s));
    assert(s.drop_last() =~= Seq::<char>::empty());
    assert(digits_value(s) == i);
}

} // verus!
