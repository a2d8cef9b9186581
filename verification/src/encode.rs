//! Percent-encoding of query text, as it is appended to a search-engine
//! template: every byte of the UTF-8 form of the text is kept if it is an
//! ASCII alphanumeric or one of `-`, `_`, `.`, `~`, and is written as `%XX`
//! (upper-case hexadecimal) otherwise. A decoder for the same escape form
//! is provided so that the encoding can be shown to lose nothing.

use vstd::prelude::*;
use vstd::utf8::encode_utf8;

verus! {

/// Bytes that percent-encoding leaves as they are: ASCII alphanumerics
/// and `-`, `_`, `.`, `~`.
pub open spec fn is_unreserved(b: u8) -> bool {
    ||| (0x41 <= b && b <= 0x5A)  // 'A'..='Z'
    ||| (0x61 <= b && b <= 0x7A)  // 'a'..='z'
    ||| (0x30 <= b && b <= 0x39)  // '0'..='9'
    ||| b == 0x2D  // '-'
    ||| b == 0x5F  // '_'
    ||| b == 0x2E  // '.'
    ||| b == 0x7E  // '~'
}

/// Upper-case hexadecimal digit for a value below 16.
pub open spec fn spec_hex_digit(n: u8) -> char
    recommends
        n < 16,
{
    if n < 10 {
        ((0x30 + n) as u8) as char
    } else {
        ((0x41 + (n - 10)) as u8) as char
    }
}

/// How one byte is written in a percent-encoded string.
pub open spec fn encode_byte(b: u8) -> Seq<char> {
    if is_unreserved(b) {
        seq![b as char]
    } else {
        seq!['%', spec_hex_digit(b / 16), spec_hex_digit(b % 16)]
    }
}

/// How a byte sequence is written in a percent-encoded string.
pub open spec fn encode_bytes(bs: Seq<u8>) -> Seq<char>
    decreases bs.len(),
{
    if bs.len() == 0 {
        Seq::empty()
    } else {
        encode_byte(bs[0]) + encode_bytes(bs.drop_first())
    }
}

/// What `percent_encode` returns: the percent-encoding of the UTF-8 bytes
/// of the string.
pub open spec fn encoded(s: Seq<char>) -> Seq<char> {
    encode_bytes(encode_utf8(s))
}

/// Characters accepted as hexadecimal digits in a `%XX` escape.
pub open spec fn is_hex_char(c: char) -> bool {
    ||| (0x30 <= c as u32 && c as u32 <= 0x39)  // '0'..='9'
    ||| (0x41 <= c as u32 && c as u32 <= 0x46)  // 'A'..='F'
    ||| (0x61 <= c as u32 && c as u32 <= 0x66)  // 'a'..='f'
}

/// Value of a hexadecimal digit character.
pub open spec fn hex_value(c: char) -> u8
    recommends
        is_hex_char(c),
{
    if 0x30 <= c as u32 && c as u32 <= 0x39 {
        (c as u32 - 0x30) as u8
    } else if 0x41 <= c as u32 && c as u32 <= 0x46 {
        (c as u32 - 0x41 + 10) as u8
    } else {
        (c as u32 - 0x61 + 10) as u8
    }
}

/// Percent-decoding of an ASCII character sequence: `%XX` becomes the byte
/// `XX`, any other ASCII character becomes its own byte; a malformed escape
/// or a character outside ASCII yields `None`.
pub open spec fn decode_chars(s: Seq<char>) -> Option<Seq<u8>>
    decreases s.len(),
{
    if s.len() == 0 {
        Some(Seq::empty())
    } else if s[0] == '%' {
        if s.len() >= 3 && is_hex_char(s[1]) && is_hex_char(s[2]) {
            match decode_chars(s.skip(3)) {
                Some(r) => Some(seq![(16 * hex_value(s[1]) + hex_value(s[2])) as u8] + r),
                None => None,
            }
        } else {
            None
        }
    } else if (s[0] as u32) < 0x80 {
        match decode_chars(s.drop_first()) {
            Some(r) => Some(seq![(s[0] as u32) as u8] + r),
            None => None,
        }
    } else {
        None
    }
}

proof fn lemma_hex_digit_value(n: u8)
    requires
        n < 16,
    ensures
        is_hex_char(spec_hex_digit(n)),
        hex_value(spec_hex_digit(n)) == n,
        spec_hex_digit(n) != '%',
        (spec_hex_digit(n) as u32) < 0x80,
{
}

/// Percent-decoding undoes percent-encoding on any byte sequence.
pub proof fn lemma_decode_encode_bytes(bs: Seq<u8>)
    ensures
        decode_chars(encode_bytes(bs)) == Some(bs),
    decreases bs.len(),
{
    if bs.len() == 0 {
        assert(encode_bytes(bs) =~= Seq::<char>::empty());
        assert(bs =~= Seq::<u8>::empty());
    } else {
        let b = bs[0];
        let rest = bs.drop_first();
        lemma_decode_encode_bytes(rest);
        let e = encode_bytes(bs);
        if is_unreserved(b) {
            assert(e[0] == b as char);
            assert((b as char) as u32 == b as u32);
            assert(e[0] != '%');
            assert(e.drop_first() =~= encode_bytes(rest));
            assert(decode_chars(e) == Some(seq![b] + rest));
            assert(seq![b] + rest =~= bs);
        } else {
            lemma_hex_digit_value(b / 16);
            lemma_hex_digit_value(b % 16);
            assert(e[0] == '%');
            assert(e[1] == spec_hex_digit(b / 16));
            assert(e[2] == spec_hex_digit(b % 16));
            assert(e.len() >= 3);
            assert(e.skip(3) =~= encode_bytes(rest));
            assert(16 * (b / 16) + b % 16 == b);
            assert(decode_chars(e) == Some(seq![b] + rest));
            assert(seq![b] + rest =~= bs);
        }
    }
}

fn hex_digit_byte(n: u8) -> (b: u8)
    requires
        n < 16,
    ensures
        b < 0x80,
        b as char == spec_hex_digit(n),
{
    if n < 10 {
        0x30 + n
    } else {
        0x41 + (n - 10)
    }
}

fn byte_unreserved(b: u8) -> (r: bool)
    ensures
        r == is_unreserved(b),
{
    (0x41 <= b && b <= 0x5A) || (0x61 <= b && b <= 0x7A) || (0x30 <= b && b <= 0x39) || b == 0x2D
        || b == 0x5F || b == 0x2E || b == 0x7E
}

/// Relies on `String::from_utf8`: bytes below 0x80 are valid UTF-8 and
/// decode to the characters with the same code points.
#[verifier::external_body]
pub(crate) fn ascii_to_string(v: Vec<u8>) -> (r: String)
    requires
        forall|i: int| 0 <= i < v@.len() ==> v@[i] < 0x80,
    ensures
        r@ == v@.map_values(|b: u8| b as char),
{
    match String::from_utf8(v) {
        Ok(s) => s,
        Err(_) => String::new(),
    }
}

/// Percent-encode a string: UTF-8 bytes of `s`, unreserved bytes kept,
/// every other byte written `%XX` with upper-case hexadecimal digits.
pub fn percent_encode(s: &str) -> (r: String)
    ensures
        r@ == encoded(s@),
{
    let bs = s.as_bytes_vec();
    let ghost all = bs@;
    let mut out: Vec<u8> = Vec::new();
    let mut i: usize = 0;
    while i < bs.len()
        invariant
            i <= bs.len(),
            bs@ == all,
            out@.map_values(|b: u8| b as char) == encode_bytes(all.take(i as int)),
            forall|k: int| 0 <= k < out@.len() ==> out@[k] < 0x80,
        decreases bs.len() - i,
    {
        let b = bs[i];
        let ghost prefix = all.take(i as int);
        let ghost out0 = out@;
        if byte_unreserved(b) {
            out.push(b);
            assert(out@.map_values(|x: u8| x as char) =~= out0.map_values(|x: u8| x as char)
                + seq![b as char]);
        } else {
            out.push(0x25);
            let h1 = hex_digit_byte(b / 16);
            out.push(h1);
            let h2 = hex_digit_byte(b % 16);
            out.push(h2);
            assert((0x25u8) as char == '%');
            assert(out@.map_values(|x: u8| x as char) =~= out0.map_values(|x: u8| x as char)
                + seq!['%', spec_hex_digit(b / 16), spec_hex_digit(b % 16)]);
        }
        proof {
            lemma_encode_bytes_snoc(all.take(i + 1));
            assert(all.take(i + 1).drop_last() =~= prefix);
            assert(all.take(i + 1).last() == b);
        }
        i = i + 1;
    }
    proof {
        assert(all.take(bs@.len() as int) =~= all);
    }
    ascii_to_string(out)
}

/// Unrolling `encode_bytes` at the end of a sequence.
proof fn lemma_encode_bytes_snoc(bs: Seq<u8>)
    requires
        bs.len() > 0,
    ensures
        encode_bytes(bs) == encode_bytes(bs.drop_last()) + encode_byte(bs.last()),
    decreases bs.len(),
{
    if bs.len() == 1 {
        assert(bs.drop_last() =~= Seq::<u8>::empty());
        assert(bs.drop_first() =~= Seq::<u8>::empty());
        assert(encode_bytes(bs.drop_last()) + encode_byte(bs.last()) =~= encode_byte(bs[0]));
        assert(encode_bytes(bs) =~= encode_byte(bs[0]));
    } else {
        let t = bs.drop_first();
        lemma_encode_bytes_snoc(t);
        assert(t.last() == bs.last());
        assert(bs.drop_last().drop_first() =~= t.drop_last());
        assert(bs.drop_last().len() > 0);
        assert(bs.drop_last()[0] == bs[0]);
        assert(encode_bytes(bs.drop_last()) == encode_byte(bs[0]) + encode_bytes(t.drop_last()));
        assert(encode_bytes(bs) == encode_byte(bs[0]) + encode_bytes(t));
        assert(encode_byte(bs[0]) + (encode_bytes(t.drop_last()) + encode_byte(t.last()))
            =~= (encode_byte(bs[0]) + encode_bytes(t.drop_last())) + encode_byte(t.last()));
    }
}

fn hex_char_value(c: char) -> (r: Option<u8>)
    ensures
        r.is_some() == is_hex_char(c),
        r.is_some() ==> r.unwrap() == hex_value(c) && r.unwrap() < 16,
{
    let u = c as u32;
    if 0x30 <= u && u <= 0x39 {
        Some((u - 0x30) as u8)
    } else if 0x41 <= u && u <= 0x46 {
        Some((u - 0x41 + 10) as u8)
    } else if 0x61 <= u && u <= 0x66 {
        Some((u - 0x61 + 10) as u8)
    } else {
        None
    }
}

/// Percent-decode a string of ASCII characters; `None` on a malformed
/// escape or a character outside ASCII.
pub fn percent_decode(s: &str) -> (r: Option<Vec<u8>>)
    ensures
        match r {
            Some(v) => decode_chars(s@) == Some(v@),
            None => decode_chars(s@) is None,
        },
{
    let n = s.unicode_len();
    let mut out: Vec<u8> = Vec::new();
    let mut i: usize = 0;
    proof {
        assert(s@.skip(0) =~= s@);
    }
    while i < n
        invariant
            i <= n,
            n == s@.len(),
            decode_chars(s@) == match decode_chars(s@.skip(i as int)) {
                Some(r2) => Some(out@ + r2),
                None => None::<Seq<u8>>,
            },
        decreases n - i,
    {
        let c = s.get_char(i);
        let ghost tail = s@.skip(i as int);
        assert(tail[0] == s@[i as int]);
        if c == '%' {
            if n - i < 3 {
                assert(tail.len() < 3);
                assert(decode_chars(tail) is None);
                return None;
            }
            let c1 = s.get_char(i + 1);
            let c2 = s.get_char(i + 2);
            assert(tail[1] == c1 && tail[2] == c2);
            let v1 = hex_char_value(c1);
            let v2 = hex_char_value(c2);
            match (v1, v2) {
                (Some(h1), Some(h2)) => {
                    let b: u8 = 16 * h1 + h2;
                    let ghost out0 = out@;
                    out.push(b);
                    proof {
                        assert(tail.skip(3) =~= s@.skip(i + 3));
                        assert(b == 16 * hex_value(c1) + hex_value(c2));
                        if decode_chars(s@.skip(i + 3)) is Some {
                            let r3 = decode_chars(s@.skip(i + 3)).unwrap();
                            assert(decode_chars(tail) == Some(seq![b] + r3));
                            assert(out0 + (seq![b] + r3) =~= (out0 + seq![b]) + r3);
                            assert(out@ =~= out0 + seq![b]);
                        }
                    }
                    i = i + 3;
                },
                _ => {
                    assert(decode_chars(tail) is None);
                    return None;
                },
            }
        } else {
            let u = c as u32;
            if u < 0x80 {
                let b: u8 = u as u8;
                let ghost out0 = out@;
                out.push(b);
                proof {
                    assert(tail.drop_first() =~= s@.skip(i + 1));
                    if decode_chars(s@.skip(i + 1)) is Some {
                        let r3 = decode_chars(s@.skip(i + 1)).unwrap();
                        assert(decode_chars(tail) == Some(seq![b] + r3));
                        assert(out0 + (seq![b] + r3) =~= (out0 + seq![b]) + r3);
                        assert(out@ =~= out0 + seq![b]);
                    }
                }
                i = i + 1;
            } else {
                assert(decode_chars(tail) is None);
                return None;
            }
        }
    }
    proof {
        assert(s@.skip(n as int) =~= Seq::<char>::empty());
        assert(decode_chars(s@.skip(n as int)) == Some(Seq::<u8>::empty()));
        assert(out@ + Seq::<u8>::empty() =~= out@);
    }
    Some(out)
}

} // verus!
