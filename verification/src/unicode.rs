//! UTF-16 and UTF-8 text inside save data.

use vstd::prelude::*;
use vstd::utf8::{char_is_scalar, char_u32_cast, decode_utf8, valid_utf8};
use crate::text::push_char;

verus! {

/// A Unicode scalar value: a code point that is not a surrogate.
pub open spec fn is_unicode_scalar(v: int) -> bool {
    (0 <= v <= 0xD7FF) || (0xE000 <= v <= 0x10FFFF)
}

/// The character with scalar value `v`: calls `char::from_u32`, which
/// returns `None` exactly for values that are not scalar values.
#[verifier::external_body]
pub fn char_from_u32(v: u32) -> (r: Option<char>)
    ensures
        match r {
            Some(c) => is_unicode_scalar(v as int) && c as u32 == v,
            None => !is_unicode_scalar(v as int),
        },
{
    char::from_u32(v)
}

/// Decodes UTF-8: calls `String::from_utf8`, which accepts exactly the valid
/// UTF-8 byte sequences and decodes them.
#[verifier::external_body]
pub fn string_from_utf8(bytes: Vec<u8>) -> (r: Option<String>)
    ensures
        match r {
            Some(s) => valid_utf8(bytes@) && s@ == decode_utf8(bytes@),
            None => !valid_utf8(bytes@),
        },
{
    String::from_utf8(bytes).ok()
}

/// What `String::from_utf8_lossy` gives for `b`.
pub uninterp spec fn utf8_lossy(b: Seq<u8>) -> Seq<char>;

/// Decodes UTF-8, replacing each invalid sequence by U+FFFD: calls
/// `String::from_utf8_lossy`. The result is named by `utf8_lossy`; valid
/// UTF-8 is decoded as it is.
#[verifier::external_body]
pub fn string_from_utf8_lossy(bytes: &[u8]) -> (r: String)
    ensures
        r@ == utf8_lossy(bytes@),
        valid_utf8(bytes@) ==> r@ == decode_utf8(bytes@),
{
    String::from_utf8_lossy(bytes).to_string()
}

/// The UTF-16 code units of one character.
pub open spec fn utf16_of_char(c: char) -> Seq<u16> {
    let v = c as u32;
    if v < 0x10000 {
        seq![v as u16]
    } else {
        let w = v - 0x10000;
        seq![(0xD800 + w / 1024) as u16, (0xDC00 + w % 1024) as u16]
    }
}

/// The UTF-16 code units of `s`.
pub open spec fn utf16_encode(s: Seq<char>) -> Seq<u16>
    decreases s.len(),
{
    if s.len() == 0 {
        Seq::empty()
    } else {
        utf16_encode(s.drop_last()) + utf16_of_char(s.last())
    }
}

/// A high (leading) surrogate.
pub open spec fn is_high_surrogate(u: u16) -> bool {
    0xD800 <= u <= 0xDBFF
}

/// A low (trailing) surrogate.
pub open spec fn is_low_surrogate(u: u16) -> bool {
    0xDC00 <= u <= 0xDFFF
}

/// The scalar value of a surrogate pair.
pub open spec fn pair_value(hi: u16, lo: u16) -> u32 {
    (0x10000 + (hi - 0xD800) * 1024 + (lo - 0xDC00)) as u32
}

/// The text of the UTF-16 code units `u`, if every surrogate is paired.
pub open spec fn utf16_decode(u: Seq<u16>) -> Option<Seq<char>>
    decreases u.len(),
{
    if u.len() == 0 {
        Some(Seq::empty())
    } else if is_high_surrogate(u[0]) {
        if u.len() >= 2 && is_low_surrogate(u[1]) {
            match utf16_decode(u.skip(2)) {
                Some(r) => Some(seq![pair_value(u[0], u[1]) as char] + r),
                None => None,
            }
        } else {
            None
        }
    } else if is_low_surrogate(u[0]) {
        None
    } else {
        match utf16_decode(u.skip(1)) {
            Some(r) => Some(seq![(u[0] as u32) as char] + r),
            None => None,
        }
    }
}

pub proof fn lemma_utf16_encode_append(a: Seq<char>, b: Seq<char>)
    ensures
        utf16_encode(a + b) == utf16_encode(a) + utf16_encode(b),
    decreases b.len(),
{
    if b.len() == 0 {
        assert(a + b =~= a);
        assert(utf16_encode(a) + utf16_encode(b) =~= utf16_encode(a));
    } else {
        lemma_utf16_encode_append(a, b.drop_last());
        assert((a + b).drop_last() =~= a + b.drop_last());
        assert(utf16_encode(a) + utf16_encode(b.drop_last()) + utf16_of_char(b.last()) =~= utf16_encode(
            a,
        ) + (utf16_encode(b.drop_last()) + utf16_of_char(b.last())));
    }
}

/// Decoding the UTF-16 encoding of a text gives the text back.
pub proof fn lemma_utf16_round_trip(s: Seq<char>)
    ensures
        utf16_decode(utf16_encode(s)) == Some(s),
    decreases s.len(),
{
    if s.len() > 0 {
        let c = s[0];
        let rest = s.drop_first();
        assert(s =~= seq![c] + rest);
        lemma_utf16_encode_append(seq![c], rest);
        assert(seq![c].drop_last() =~= Seq::<char>::empty());
        assert(utf16_encode(Seq::<char>::empty()) =~= Seq::<u16>::empty());
        assert(utf16_encode(seq![c]) =~= utf16_of_char(c));
        lemma_utf16_round_trip(rest);
        let u = utf16_encode(s);
        let v = c as u32;
        char_is_scalar(c);
        char_u32_cast(c, v);
        if v < 0x10000 {
            let x = v as u16;
            assert(x as u32 == v);
            assert(u =~= seq![x] + utf16_encode(rest));
            assert(u.skip(1) =~= utf16_encode(rest));
            assert(!is_high_surrogate(u[0]) && !is_low_surrogate(u[0]));
            assert(((u[0] as u32) as char) == c);
            assert(seq![(u[0] as u32) as char] + rest =~= s);
        } else {
            let w = v - 0x10000;
            assert(0 <= w < 0x100000);
            assert(0 <= w / 1024 < 1024) by (nonlinear_arith)
                requires
                    0 <= w < 0x100000,
            ;
            assert(0 <= w % 1024 < 1024) by (nonlinear_arith)
                requires
                    0 <= w,
            ;
            assert(w == (w / 1024) * 1024 + w % 1024) by (nonlinear_arith);
            let hi = (0xD800 + w / 1024) as u16;
            let lo = (0xDC00 + w % 1024) as u16;
            assert(hi as int == 0xD800 + w / 1024);
            assert(lo as int == 0xDC00 + w % 1024);
            assert(u =~= seq![hi, lo] + utf16_encode(rest));
            assert(u.skip(2) =~= utf16_encode(rest));
            assert(is_high_surrogate(u[0]) && is_low_surrogate(u[1]));
            assert(pair_value(u[0], u[1]) == v);
            assert((pair_value(u[0], u[1]) as char) == c);
            assert(seq![pair_value(u[0], u[1]) as char] + rest =~= s);
        }
    }
}

/// The UTF-16 code units of `s`.
pub fn encode_utf16(s: &str) -> (r: Vec<u16>)
    ensures
        r@ == utf16_encode(s@),
{
    let v = crate::text::chars_of(s);
    let mut out: Vec<u16> = Vec::new();
    let mut i: usize = 0;
    while i < v.len()
        invariant
            v@ == s@,
            i <= v@.len(),
            out@ == utf16_encode(v@.take(i as int)),
        decreases v@.len() - i,
    {
        assert(v@.take(i + 1).drop_last() =~= v@.take(i as int));
        let c = v[i] as u32;
        proof {
            char_is_scalar(v@[i as int]);
        }
        assert(v@.take(i + 1).last() == v@[i as int]);
        if c < 0x10000 {
            out.push(c as u16);
            assert(out@ =~= utf16_encode(v@.take(i + 1)));
        } else {
            let w = c - 0x10000;
            assert(w / 1024 < 1024) by (nonlinear_arith)
                requires
                    w < 0x100000,
            ;
            assert(w % 1024 < 1024) by (nonlinear_arith);
            out.push((0xD800 + w / 1024) as u16);
            out.push((0xDC00 + w % 1024) as u16);
            assert(out@ =~= utf16_encode(v@.take(i + 1)));
        }
        i = i + 1;
    }
    assert(v@.take(v@.len() as int) =~= v@);
    out
}

/// The text of UTF-16 code units, or `None` when a surrogate is unpaired.
pub fn decode_utf16(u: &[u16]) -> (r: Option<String>)
    ensures
        match utf16_decode(u@) {
            Some(t) => r matches Some(s) && s@ == t,
            None => r is None,
        },
{
    let n = u.len();
    let mut s = String::new();
    let mut i: usize = 0;
    assert(u@.skip(0) =~= u@);
    proof {
        match utf16_decode(u@) {
            Some(t) => {
                assert(s@ + t =~= t);
            },
            None => {},
        }
    }
    while i < n
        invariant
            n == u@.len(),
            i <= n,
            utf16_decode(u@) == match utf16_decode(u@.skip(i as int)) {
                Some(t) => Some(s@ + t),
                None => None::<Seq<char>>,
            },
        decreases n - i,
    {
        let ghost rest = u@.skip(i as int);
        let x = u[i];
        if 0xD800 <= x && x <= 0xDBFF {
            if i + 1 < n && 0xDC00 <= u[i + 1] && u[i + 1] <= 0xDFFF {
                let y = u[i + 1];
                let v: u32 = 0x10000 + ((x - 0xD800) as u32) * 1024 + ((y - 0xDC00) as u32);
                assert(v == pair_value(x, y));
                assert(rest.skip(2) =~= u@.skip(i + 2));
                match char_from_u32(v) {
                    Some(c) => {
                        let ghost before = s@;
                        push_char(&mut s, c);
                        proof {
                            char_u32_cast(c, v);
                        }
                        assert(c == (pair_value(x, y) as char));
                        proof {
                            match utf16_decode(u@.skip(i + 2)) {
                                Some(t) => {
                                    assert(seq![c] + t =~= seq![pair_value(x, y) as char] + t);
                                    assert(before + (seq![c] + t) =~= s@ + t);
                                },
                                None => {},
                            }
                        }
                    },
                    None => {
                        return None;
                    },
                }
                i = i + 2;
            } else {
                return None;
            }
        } else if 0xDC00 <= x && x <= 0xDFFF {
            return None;
        } else {
            assert(rest.skip(1) =~= u@.skip(i + 1));
            match char_from_u32(x as u32) {
                Some(c) => {
                    let ghost before = s@;
                    push_char(&mut s, c);
                    proof {
                        char_u32_cast(c, x as u32);
                    }
                    assert(c == ((x as u32) as char));
                    proof {
                        match utf16_decode(u@.skip(i + 1)) {
                            Some(t) => {
                                assert(before + (seq![c] + t) =~= s@ + t);
                            },
                            None => {},
                        }
                    }
                },
                None => {
                    return None;
                },
            }
            i = i + 1;
        }
    }
    assert(u@.skip(n as int) =~= Seq::<u16>::empty());
    assert(s@ + Seq::<char>::empty() =~= s@);
    Some(s)
}

} // verus!
