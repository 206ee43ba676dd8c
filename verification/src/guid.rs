//! Palworld player uids: their text form, their 16 raw bytes, and byte-level
//! search and replacement of a uid in a decompressed save.
//!
//! The 32-digit hexadecimal text of a uid is four `u32` values; the save holds
//! each of them little-endian. So the text `4E239D4F...` starts with the bytes
//! `4F 9D 23 4E`.

use vstd::prelude::*;
use vstd::string::StringSliceAdditionalSpecFns;
use vstd::utf8::{encode_utf8, is_ascii_chars, is_ascii_chars_encode_utf8};
use crate::guid_bytes::{guid_at, guid_eq, guid_matches, write16, write_guid};
use crate::text::push_char;

verus! {

/// An ASCII hexadecimal digit.
pub open spec fn is_hex_digit(c: u8) -> bool {
    (48 <= c <= 57) || (65 <= c <= 70) || (97 <= c <= 102)
}

/// The value of an ASCII hexadecimal digit.
pub open spec fn hex_value(c: u8) -> int {
    if c <= 57 {
        c - 48
    } else if c <= 70 {
        c - 55
    } else {
        c - 87
    }
}

/// A byte that uid text may hold between digits: `-` or ASCII whitespace.
pub open spec fn is_guid_separator(c: u8) -> bool {
    c == 45 || c == 32 || c == 9 || c == 10 || c == 12 || c == 13
}

/// The bytes of `t` without separators.
pub open spec fn guid_digits(t: Seq<u8>) -> Seq<u8>
    decreases t.len(),
{
    if t.len() == 0 {
        t
    } else if is_guid_separator(t.last()) {
        guid_digits(t.drop_last())
    } else {
        guid_digits(t.drop_last()).push(t.last())
    }
}

/// The byte written by the two hexadecimal digits at `q`.
pub open spec fn hex_byte(d: Seq<u8>, q: int) -> u8 {
    (16 * hex_value(d[q]) + hex_value(d[q + 1])) as u8
}

/// The four bytes of the `u32` written by the eight digits at `p`, little-endian.
pub open spec fn word_le(d: Seq<u8>, p: int) -> Seq<u8> {
    seq![hex_byte(d, p + 6), hex_byte(d, p + 4), hex_byte(d, p + 2), hex_byte(d, p)]
}

/// The uid whose text, without separators, is the 32 digits `d`.
pub open spec fn guid_of_digits(d: Seq<u8>) -> Seq<u8> {
    word_le(d, 0) + word_le(d, 8) + word_le(d, 16) + word_le(d, 24)
}

/// The uid written by the UTF-8 text `t`, if `t` holds exactly 32
/// hexadecimal digits besides separators.
pub open spec fn guid_of_text(t: Seq<u8>) -> Option<Seq<u8>> {
    let d = guid_digits(t);
    if d.len() == 32 && (forall|i: int| 0 <= i < 32 ==> is_hex_digit(#[trigger] d[i])) {
        Some(guid_of_digits(d))
    } else {
        None
    }
}

/// The digits of a concatenation are the digits of its parts.
proof fn lemma_digits_concat(a: Seq<u8>, b: Seq<u8>)
    ensures
        guid_digits(a + b) == guid_digits(a) + guid_digits(b),
    decreases b.len(),
{
    if b.len() == 0 {
        assert(a + b =~= a);
        assert(guid_digits(a) + guid_digits(b) =~= guid_digits(a));
    } else {
        assert((a + b).drop_last() =~= a + b.drop_last());
        assert((a + b).last() == b.last());
        lemma_digits_concat(a, b.drop_last());
        if !is_guid_separator(b.last()) {
            assert(guid_digits(a) + guid_digits(b.drop_last()).push(b.last()) =~= (guid_digits(a) + guid_digits(b.drop_last())).push(b.last()));
        }
    }
}

/// Separators alone hold no digits.
proof fn lemma_digits_of_separators(s: Seq<u8>)
    requires
        forall|i: int| 0 <= i < s.len() ==> is_guid_separator(#[trigger] s[i]),
    ensures
        guid_digits(s) == Seq::<u8>::empty(),
    decreases s.len(),
{
    if s.len() > 0 {
        assert(is_guid_separator(s[s.len() - 1]));
        lemma_digits_of_separators(s.drop_last());
    }
}

/// Separators (`-` and ASCII whitespace) put anywhere in uid text do not
/// change the uid it writes.
pub proof fn lemma_separators_do_not_matter(a: Seq<u8>, s: Seq<u8>, b: Seq<u8>)
    requires
        forall|i: int| 0 <= i < s.len() ==> is_guid_separator(#[trigger] s[i]),
    ensures
        guid_of_text(a + s + b) == guid_of_text(a + b),
{
    lemma_digits_concat(a + s, b);
    lemma_digits_concat(a, s);
    lemma_digits_concat(a, b);
    lemma_digits_of_separators(s);
    assert(guid_digits(a) + Seq::<u8>::empty() =~= guid_digits(a));
    assert(guid_digits(a + s + b) == guid_digits(a + b));
}

/// Digits of equal values write the same uid.
proof fn lemma_same_values_same_uid(d1: Seq<u8>, d2: Seq<u8>)
    requires
        d1.len() == 32,
        d2.len() == 32,
        forall|q: int| 0 <= q < 32 ==> hex_value(#[trigger] d1[q]) == hex_value(d2[q]),
    ensures
        guid_of_digits(d1) == guid_of_digits(d2),
{
    assert forall|q: int| 0 <= q < 31 implies hex_byte(d1, q) == hex_byte(d2, q) by {
        assert(hex_value(d1[q]) == hex_value(d2[q]));
        assert(hex_value(d1[q + 1]) == hex_value(d2[q + 1]));
    }
    assert(word_le(d1, 0) =~= word_le(d2, 0));
    assert(word_le(d1, 8) =~= word_le(d2, 8));
    assert(word_le(d1, 16) =~= word_le(d2, 16));
    assert(word_le(d1, 24) =~= word_le(d2, 24));
}

/// Writing a hexadecimal letter of uid text in upper case instead of lower
/// case does not change the uid it writes.
pub proof fn lemma_letter_case_does_not_matter(t: Seq<u8>, k: int)
    requires
        0 <= k < t.len(),
        97 <= t[k] <= 102,
    ensures
        guid_of_text(t.update(k, (t[k] - 32) as u8)) == guid_of_text(t),
{
    let up = (t[k] - 32) as u8;
    let t2 = t.update(k, up);
    let pre = t.take(k);
    let post = t.skip(k + 1);
    assert(t =~= pre + seq![t[k]] + post);
    assert(t2 =~= pre + seq![up] + post);
    lemma_digits_concat(pre + seq![t[k]], post);
    lemma_digits_concat(pre, seq![t[k]]);
    lemma_digits_concat(pre + seq![up], post);
    lemma_digits_concat(pre, seq![up]);
    assert(seq![t[k]].drop_last() =~= Seq::<u8>::empty());
    assert(seq![up].drop_last() =~= Seq::<u8>::empty());
    assert(guid_digits(Seq::<u8>::empty()) == Seq::<u8>::empty());
    assert(guid_digits(seq![t[k]]) =~= seq![t[k]]);
    assert(guid_digits(seq![up]) =~= seq![up]);
    let dp = guid_digits(pre);
    let dq = guid_digits(post);
    let d1 = guid_digits(t);
    let d2 = guid_digits(t2);
    assert(d1 =~= dp + seq![t[k]] + dq);
    assert(d2 =~= dp + seq![up] + dq);
    assert(d1.len() == d2.len());
    assert forall|q: int| 0 <= q < d1.len() implies hex_value(#[trigger] d1[q]) == hex_value(d2[q]) && (is_hex_digit(d1[q]) == is_hex_digit(d2[q])) by {
        if q != dp.len() {
            assert(d1[q] == d2[q]);
        }
    }
    if d1.len() == 32 {
        lemma_same_values_same_uid(d1, d2);
    }
}

/// The upper-case hexadecimal digit of `v < 16`.
pub open spec fn hex_upper(v: int) -> char {
    if v < 10 {
        (48 + v) as char
    } else {
        (55 + v) as char
    }
}

/// The two upper-case digits of a byte.
pub open spec fn byte_text(b: u8) -> Seq<char> {
    seq![hex_upper((b / 16) as int), hex_upper((b % 16) as int)]
}

/// The eight digits of the little-endian `u32` at `o`.
pub open spec fn word_text(g: Seq<u8>, o: int) -> Seq<char> {
    byte_text(g[o + 3]) + byte_text(g[o + 2]) + byte_text(g[o + 1]) + byte_text(g[o])
}

/// The 32-digit upper-case text of the uid `g`.
pub open spec fn guid_text(g: Seq<u8>) -> Seq<char> {
    word_text(g, 0) + word_text(g, 4) + word_text(g, 8) + word_text(g, 12)
}

fn is_separator(c: u8) -> (r: bool)
    ensures
        r == is_guid_separator(c),
{
    c == 45 || c == 32 || c == 9 || c == 10 || c == 12 || c == 13
}

fn is_hex(c: u8) -> (r: bool)
    ensures
        r == is_hex_digit(c),
{
    (48 <= c && c <= 57) || (65 <= c && c <= 70) || (97 <= c && c <= 102)
}

fn hex_val(c: u8) -> (r: u8)
    requires
        is_hex_digit(c),
    ensures
        r == hex_value(c),
        r < 16,
{
    if c <= 57 {
        c - 48
    } else if c <= 70 {
        c - 55
    } else {
        c - 87
    }
}

fn hex_pair(d: &Vec<u8>, q: usize) -> (r: u8)
    requires
        q + 1 < d@.len(),
        is_hex_digit(d@[q as int]),
        is_hex_digit(d@[q + 1]),
    ensures
        r == hex_byte(d@, q as int),
{
    let _n = d.len();
    let hi = hex_val(d[q]);
    let lo = hex_val(d[q + 1]);
    16 * hi + lo
}

/// The refusal of uid text that is not 32 hexadecimal digits.
fn invalid_guid_text(s: &str) -> (r: String)
    ensures
        r@ == "GUID 格式无效（需要 32 位十六进制）: "@ + s@,
{
    let mut m = String::from_str("GUID 格式无效（需要 32 位十六进制）: ");
    crate::text::push_str(&mut m, s);
    m
}

/// Parses the text of a uid into its 16 raw bytes. `-` and ASCII whitespace
/// may stand anywhere; what remains must be exactly 32 hexadecimal digits.
pub fn guid_bytes(s: &str) -> (r: Result<[u8; 16], String>)
    ensures
        match guid_of_text(s.spec_bytes()) {
            Some(g) => r matches Ok(a) && a@ == g,
            None => r matches Err(e) && e@ == "GUID 格式无效（需要 32 位十六进制）: "@ + s@,
        },
{
    let t = s.as_bytes();
    let mut d: Vec<u8> = Vec::new();
    let mut i: usize = 0;
    while i < t.len()
        invariant
            i <= t@.len(),
            d@ == guid_digits(t@.take(i as int)),
        decreases t@.len() - i,
    {
        assert(t@.take(i + 1).drop_last() =~= t@.take(i as int));
        if !is_separator(t[i]) {
            d.push(t[i]);
        }
        i = i + 1;
    }
    assert(t@.take(t@.len() as int) =~= t@);
    if d.len() != 32 {
        return Err(invalid_guid_text(s));
    }
    let mut k: usize = 0;
    while k < 32
        invariant
            d@.len() == 32,
            d@ == guid_digits(s.spec_bytes()),
            k <= 32,
            forall|j: int| 0 <= j < k ==> is_hex_digit(#[trigger] d@[j]),
        decreases 32 - k,
    {
        if !is_hex(d[k]) {
            return Err(invalid_guid_text(s));
        }
        k = k + 1;
    }
    let g = [
        hex_pair(&d, 6),
        hex_pair(&d, 4),
        hex_pair(&d, 2),
        hex_pair(&d, 0),
        hex_pair(&d, 14),
        hex_pair(&d, 12),
        hex_pair(&d, 10),
        hex_pair(&d, 8),
        hex_pair(&d, 22),
        hex_pair(&d, 20),
        hex_pair(&d, 18),
        hex_pair(&d, 16),
        hex_pair(&d, 30),
        hex_pair(&d, 28),
        hex_pair(&d, 26),
        hex_pair(&d, 24),
    ];
    assert(g@ =~= guid_of_digits(d@));
    Ok(g)
}

fn hex_char(v: u8) -> (c: char)
    requires
        v < 16,
    ensures
        c == hex_upper(v as int),
{
    if v < 10 {
        (48 + v) as char
    } else {
        (55 + v) as char
    }
}

fn push_byte_text(s: &mut String, b: u8)
    ensures
        final(s)@ == old(s)@ + byte_text(b),
{
    push_char(s, hex_char(b / 16));
    push_char(s, hex_char(b % 16));
    assert(final(s)@ =~= old(s)@ + byte_text(b));
}

/// The 32-digit upper-case text of a uid: its four little-endian `u32`
/// values, eight digits each. This is also the stem of the player's file
/// name, `Players/<text>.sav`.
pub fn format_guid(raw: &[u8; 16]) -> (r: String)
    ensures
        r@ == guid_text(raw@),
{
    let mut s = String::new();
    let mut w: usize = 0;
    while w < 4
        invariant
            w <= 4,
            s@ == (if w == 0 {
                Seq::empty()
            } else if w == 1 {
                word_text(raw@, 0)
            } else if w == 2 {
                word_text(raw@, 0) + word_text(raw@, 4)
            } else if w == 3 {
                word_text(raw@, 0) + word_text(raw@, 4) + word_text(raw@, 8)
            } else {
                guid_text(raw@)
            }),
        decreases 4 - w,
    {
        let o = 4 * w;
        let ghost before = s@;
        push_byte_text(&mut s, raw[o + 3]);
        push_byte_text(&mut s, raw[o + 2]);
        push_byte_text(&mut s, raw[o + 1]);
        push_byte_text(&mut s, raw[o]);
        assert(s@ =~= before + word_text(raw@, o as int));
        w = w + 1;
    }
    s
}

/// The uid text used for summaries and player file names; the same text as
/// [`format_guid`].
pub fn guid_std(raw: &[u8; 16]) -> (r: String)
    ensures
        r@ == guid_text(raw@),
{
    format_guid(raw)
}

/// The digit of a nibble is an ASCII hexadecimal digit of that value.
pub proof fn lemma_hex_upper_value(v: int)
    requires
        0 <= v < 16,
    ensures
        is_hex_digit(hex_upper(v) as u8),
        hex_value(hex_upper(v) as u8) == v,
        !is_guid_separator(hex_upper(v) as u8),
        '\0' <= hex_upper(v) <= '\u{7f}',
{
}

/// Each digit of a byte's text is a hexadecimal digit, and the two read back
/// as the byte.
pub proof fn lemma_byte_text(b: u8)
    ensures
        byte_text(b).len() == 2,
        forall|i: int|
            0 <= i < 2 ==> {
                &&& is_hex_digit(#[trigger] byte_text(b)[i] as u8)
                &&& !is_guid_separator(byte_text(b)[i] as u8)
                &&& '\0' <= byte_text(b)[i] <= '\u{7f}'
            },
        16 * hex_value(byte_text(b)[0] as u8) + hex_value(byte_text(b)[1] as u8) == b,
{
    lemma_hex_upper_value((b / 16) as int);
    lemma_hex_upper_value((b % 16) as int);
}

/// The same for the eight digits of a word.
pub proof fn lemma_word_text(g: Seq<u8>, o: int)
    requires
        0 <= o,
        o + 4 <= g.len(),
    ensures
        word_text(g, o).len() == 8,
        forall|i: int|
            0 <= i < 8 ==> {
                &&& is_hex_digit(#[trigger] word_text(g, o)[i] as u8)
                &&& !is_guid_separator(word_text(g, o)[i] as u8)
                &&& '\0' <= word_text(g, o)[i] <= '\u{7f}'
            },
        forall|q: int|
            0 <= q < 4 ==> 16 * hex_value(#[trigger] word_text(g, o)[6 - 2 * q] as u8) + hex_value(
                word_text(g, o)[7 - 2 * q] as u8,
            ) == g[o + q],
{
    lemma_byte_text(g[o]);
    lemma_byte_text(g[o + 1]);
    lemma_byte_text(g[o + 2]);
    lemma_byte_text(g[o + 3]);
    let w = word_text(g, o);
    assert(w[0] == byte_text(g[o + 3])[0] && w[1] == byte_text(g[o + 3])[1]);
    assert(w[2] == byte_text(g[o + 2])[0] && w[3] == byte_text(g[o + 2])[1]);
    assert(w[4] == byte_text(g[o + 1])[0] && w[5] == byte_text(g[o + 1])[1]);
    assert(w[6] == byte_text(g[o])[0] && w[7] == byte_text(g[o])[1]);
}

proof fn lemma_word_round(g: Seq<u8>, d: Seq<u8>, k: int)
    requires
        g.len() == 16,
        0 <= k < 4,
        d.len() == 32,
        forall|r: int| 0 <= r < 8 ==> d[8 * k + r] == (#[trigger] word_text(g, 4 * k)[r]) as u8,
    ensures
        word_le(d, 8 * k) == g.subrange(4 * k, 4 * k + 4),
{
    lemma_word_text(g, 4 * k);
    let w = word_text(g, 4 * k);
    assert(w[6] as u8 == d[8 * k + 6] && w[7] as u8 == d[8 * k + 7]);
    assert(w[4] as u8 == d[8 * k + 4] && w[5] as u8 == d[8 * k + 5]);
    assert(w[2] as u8 == d[8 * k + 2] && w[3] as u8 == d[8 * k + 3]);
    assert(w[0] as u8 == d[8 * k + 0] && w[1] as u8 == d[8 * k + 1]);
    assert(16 * hex_value(w[6 - 2 * 0] as u8) + hex_value(w[7 - 2 * 0] as u8) == g[4 * k + 0]);
    assert(16 * hex_value(w[6 - 2 * 1] as u8) + hex_value(w[7 - 2 * 1] as u8) == g[4 * k + 1]);
    assert(16 * hex_value(w[6 - 2 * 2] as u8) + hex_value(w[7 - 2 * 2] as u8) == g[4 * k + 2]);
    assert(16 * hex_value(w[6 - 2 * 3] as u8) + hex_value(w[7 - 2 * 3] as u8) == g[4 * k + 3]);
    assert(word_le(d, 8 * k) =~= g.subrange(4 * k, 4 * k + 4));
}

/// Reading back the text of a uid gives the uid: `guid_bytes(format_guid(g)) == g`.
pub proof fn lemma_guid_text_round_trip(g: Seq<u8>)
    requires
        g.len() == 16,
    ensures
        is_ascii_chars(guid_text(g)),
        guid_of_text(encode_utf8(guid_text(g))) == Some(g),
{
    let t = guid_text(g);
    lemma_word_text(g, 0);
    lemma_word_text(g, 4);
    lemma_word_text(g, 8);
    lemma_word_text(g, 12);
    let w0 = word_text(g, 0);
    let w1 = word_text(g, 4);
    let w2 = word_text(g, 8);
    let w3 = word_text(g, 12);
    assert(t.len() == 32);
    assert forall|r: int| 0 <= r < 8 implies {
        &&& t[r] == w0[r]
        &&& t[8 + r] == w1[r]
        &&& t[16 + r] == w2[r]
        &&& t[24 + r] == w3[r]
    } by {}
    assert forall|i: int| 0 <= i < 32 implies {
        &&& '\0' <= #[trigger] t[i] <= '\u{7f}'
        &&& is_hex_digit(t[i] as u8)
        &&& !is_guid_separator(t[i] as u8)
    } by {
        if i < 8 {
            assert(t[i] == w0[i]);
        } else if i < 16 {
            assert(t[i] == w1[i - 8]);
        } else if i < 24 {
            assert(t[i] == w2[i - 16]);
        } else {
            assert(t[i] == w3[i - 24]);
        }
    }
    assert(is_ascii_chars(t));
    is_ascii_chars_encode_utf8(t);
    let d = encode_utf8(t);
    assert(d.len() == 32);
    assert forall|i: int| 0 <= i < 32 implies d[i] == (#[trigger] t[i]) as u8 by {}
    assert forall|i: int| 0 <= i < 32 implies !is_guid_separator(#[trigger] d[i]) && is_hex_digit(d[i]) by {
        assert(d[i] == t[i] as u8);
    }
    lemma_digits_identity(d, 32);
    assert(d.take(32) =~= d);
    lemma_word_round(g, d, 0);
    lemma_word_round(g, d, 1);
    lemma_word_round(g, d, 2);
    lemma_word_round(g, d, 3);
    assert(guid_of_digits(d) =~= g);
}

proof fn lemma_digits_identity(t: Seq<u8>, n: nat)
    requires
        n <= t.len(),
        forall|i: int| 0 <= i < n ==> !is_guid_separator(#[trigger] t[i]),
    ensures
        guid_digits(t.take(n as int)) == t.take(n as int),
    decreases n,
{
    if n > 0 {
        lemma_digits_identity(t, (n - 1) as nat);
        assert(t.take(n as int).drop_last() =~= t.take(n - 1));
        assert(t.take(n - 1).push(t[n - 1]) =~= t.take(n as int));
    }
}

/// Whether the uid `g` occurs at some byte offset of `b`.
pub open spec fn contains_guid_spec(b: Seq<u8>, g: Seq<u8>) -> bool {
    exists|i: int| 0 <= i && i + 16 <= b.len() && #[trigger] guid_at(b, i) == g
}

/// Whether the 16 bytes of `g` occur anywhere in `raw`.
pub fn contains_guid(raw: &[u8], g: &[u8; 16]) -> (r: bool)
    ensures
        r == contains_guid_spec(raw@, g@),
{
    let n = raw.len();
    let mut i: usize = 0;
    while n >= 16 && i <= n - 16
        invariant
            n == raw@.len(),
            forall|j: int| 0 <= j < i && j + 16 <= n ==> #[trigger] guid_at(raw@, j) != g@,
        decreases n - i,
    {
        if guid_matches(raw, i, g) {
            return true;
        }
        i = i + 1;
    }
    proof {
        assert forall|j: int| 0 <= j && j + 16 <= raw@.len() implies #[trigger] guid_at(raw@, j)
            != g@ by {}
    }
    false
}

/// `b` after replacing, scanning left to right from `i`, every occurrence of
/// `from` by `to`; the scan resumes after each replaced field, so
/// occurrences never overlap.
pub open spec fn replace_from(b: Seq<u8>, i: int, from: Seq<u8>, to: Seq<u8>) -> Seq<u8>
    decreases b.len() - i,
{
    if i < 0 || i + 16 > b.len() || to.len() != 16 {
        b
    } else if guid_at(b, i) == from {
        replace_from(write16(b, i, to), i + 16, from, to)
    } else {
        replace_from(b, i + 1, from, to)
    }
}

/// `b` with every non-overlapping occurrence of `from`, scanned left to right,
/// replaced by `to`.
pub open spec fn replace_all_spec(b: Seq<u8>, from: Seq<u8>, to: Seq<u8>) -> Seq<u8> {
    replace_from(b, 0, from, to)
}

pub proof fn lemma_replace_from_len(b: Seq<u8>, i: int, from: Seq<u8>, to: Seq<u8>)
    ensures
        replace_from(b, i, from, to).len() == b.len(),
    decreases b.len() - i,
{
    if i < 0 || i + 16 > b.len() || to.len() != 16 {
    } else if guid_at(b, i) == from {
        lemma_replace_from_len(write16(b, i, to), i + 16, from, to);
    } else {
        lemma_replace_from_len(b, i + 1, from, to);
    }
}

/// The positions, in order, at which a left-to-right scan from `i` finds
/// `from` in `b`: after a find the scan goes on 16 bytes further, else one.
pub open spec fn scan_positions(b: Seq<u8>, i: int, from: Seq<u8>) -> Seq<int>
    decreases b.len() - i,
{
    if i < 0 || i + 16 > b.len() {
        Seq::empty()
    } else if guid_at(b, i) == from {
        seq![i] + scan_positions(b, i + 16, from)
    } else {
        scan_positions(b, i + 1, from)
    }
}

/// The byte at `k` once the 16-byte windows at the positions `ps` are
/// overwritten with `to`: a byte of `to` inside a window, the byte of `b`
/// elsewhere.
pub open spec fn windowed_byte(ps: Seq<int>, k: int, b: Seq<u8>, to: Seq<u8>) -> u8
    decreases ps.len(),
{
    if ps.len() == 0 {
        b[k]
    } else if ps[0] <= k < ps[0] + 16 {
        to[k - ps[0]]
    } else {
        windowed_byte(ps.drop_first(), k, b, to)
    }
}

/// Scan positions from `i` lie at or after `i`, with room for 16 bytes.
proof fn lemma_scan_positions_bounds(b: Seq<u8>, i: int, from: Seq<u8>)
    ensures
        forall|j: int| 0 <= j < scan_positions(b, i, from).len() ==> i <= #[trigger] scan_positions(b, i, from)[j]
            && scan_positions(b, i, from)[j] + 16 <= b.len(),
    decreases b.len() - i,
{
    if i < 0 || i + 16 > b.len() {
    } else if guid_at(b, i) == from {
        lemma_scan_positions_bounds(b, i + 16, from);
        let rest = scan_positions(b, i + 16, from);
        let ps = scan_positions(b, i, from);
        assert(ps == seq![i] + rest);
        assert forall|j: int| 0 <= j < ps.len() implies i <= #[trigger] ps[j] && ps[j] + 16 <= b.len() by {
            if j > 0 {
                assert(ps[j] == rest[j - 1]);
            }
        }
    } else {
        lemma_scan_positions_bounds(b, i + 1, from);
        let ps = scan_positions(b, i, from);
        assert(ps == scan_positions(b, i + 1, from));
        assert forall|j: int| 0 <= j < ps.len() implies i <= #[trigger] ps[j] && ps[j] + 16 <= b.len() by {
            assert(ps[j] == scan_positions(b, i + 1, from)[j]);
        }
    }
}

/// The scan from `i` reads only the bytes from `i` on.
proof fn lemma_scan_positions_frame(b1: Seq<u8>, b2: Seq<u8>, i: int, from: Seq<u8>)
    requires
        0 <= i,
        b1.len() == b2.len(),
        forall|k: int| i <= k < b1.len() ==> b1[k] == b2[k],
    ensures
        scan_positions(b1, i, from) == scan_positions(b2, i, from),
    decreases b1.len() - i,
{
    if i + 16 > b1.len() {
    } else {
        assert(guid_at(b1, i) =~= guid_at(b2, i));
        if guid_at(b1, i) == from {
            lemma_scan_positions_frame(b1, b2, i + 16, from);
        } else {
            lemma_scan_positions_frame(b1, b2, i + 1, from);
        }
    }
}

/// Windows that all start at or after `j` leave the bytes before `j` alone.
proof fn lemma_windowed_before(ps: Seq<int>, k: int, b: Seq<u8>, to: Seq<u8>, j: int)
    requires
        k < j,
        forall|x: int| 0 <= x < ps.len() ==> j <= #[trigger] ps[x],
    ensures
        windowed_byte(ps, k, b, to) == b[k],
    decreases ps.len(),
{
    if ps.len() > 0 {
        assert(j <= ps[0]);
        assert forall|x: int| 0 <= x < ps.drop_first().len() implies j <= #[trigger] ps.drop_first()[x] by {
            assert(ps.drop_first()[x] == ps[x + 1]);
        }
        lemma_windowed_before(ps.drop_first(), k, b, to, j);
    }
}

/// The windowed bytes depend on `b` only outside the windows.
proof fn lemma_windowed_frame(ps: Seq<int>, k: int, b1: Seq<u8>, b2: Seq<u8>, to: Seq<u8>)
    requires
        b1[k] == b2[k],
    ensures
        windowed_byte(ps, k, b1, to) == windowed_byte(ps, k, b2, to),
    decreases ps.len(),
{
    if ps.len() > 0 {
        lemma_windowed_frame(ps.drop_first(), k, b1, b2, to);
    }
}

/// Replacing from `i` overwrites exactly the windows at the scan positions
/// from `i` and keeps every other byte.
proof fn lemma_replace_from_windows(b: Seq<u8>, i: int, from: Seq<u8>, to: Seq<u8>)
    requires
        0 <= i,
        to.len() == 16,
    ensures
        replace_from(b, i, from, to).len() == b.len(),
        forall|k: int| 0 <= k < b.len() ==> #[trigger] replace_from(b, i, from, to)[k] == windowed_byte(scan_positions(b, i, from), k, b, to),
    decreases b.len() - i,
{
    lemma_replace_from_len(b, i, from, to);
    if i + 16 > b.len() {
    } else if guid_at(b, i) == from {
        let b2 = write16(b, i, to);
        assert(b2.len() == b.len());
        lemma_replace_from_windows(b2, i + 16, from, to);
        assert forall|k: int| i + 16 <= k < b.len() implies b2[k] == b[k] by {}
        lemma_scan_positions_frame(b2, b, i + 16, from);
        let rest = scan_positions(b, i + 16, from);
        let ps = scan_positions(b, i, from);
        assert(ps == seq![i] + rest);
        assert(ps.drop_first() =~= rest);
        lemma_scan_positions_bounds(b, i + 16, from);
        assert forall|k: int| 0 <= k < b.len() implies #[trigger] replace_from(b, i, from, to)[k] == windowed_byte(ps, k, b, to) by {
            if i <= k < i + 16 {
                lemma_windowed_before(rest, k, b2, to, i + 16);
                assert(b2[k] == to[k - i]);
            } else {
                assert(b2[k] == b[k]);
                lemma_windowed_frame(rest, k, b2, b, to);
            }
        }
    } else {
        lemma_replace_from_windows(b, i + 1, from, to);
    }
}

/// Replacing every occurrence of a uid by another, scanning left to right,
/// keeps the length, writes the new uid over the 16 bytes at each position
/// where the scan finds the old one, and keeps every other byte.
pub proof fn lemma_replace_all_positions(b: Seq<u8>, from: Seq<u8>, to: Seq<u8>)
    requires
        to.len() == 16,
    ensures
        replace_all_spec(b, from, to).len() == b.len(),
        forall|k: int| 0 <= k < b.len() ==> #[trigger] replace_all_spec(b, from, to)[k] == windowed_byte(scan_positions(b, 0, from), k, b, to),
{
    lemma_replace_from_windows(b, 0, from, to);
}

/// Windows at the positions `ps` do not overlap and come in order.
pub open spec fn windows_apart(ps: Seq<int>) -> bool {
    forall|x: int, y: int| 0 <= x < y < ps.len() ==> #[trigger] ps[x] + 16 <= #[trigger] ps[y]
}

proof fn lemma_scan_apart(b: Seq<u8>, i: int, from: Seq<u8>)
    ensures
        windows_apart(scan_positions(b, i, from)),
    decreases b.len() - i,
{
    if i < 0 || i + 16 > b.len() {
    } else if guid_at(b, i) == from {
        lemma_scan_apart(b, i + 16, from);
        lemma_scan_positions_bounds(b, i + 16, from);
        let rest = scan_positions(b, i + 16, from);
        let ps = scan_positions(b, i, from);
        assert(ps == seq![i] + rest);
        assert forall|x: int, y: int| 0 <= x < y < ps.len() implies #[trigger] ps[x] + 16 <= #[trigger] ps[y] by {
            assert(ps[y] == rest[y - 1]);
            if x > 0 {
                assert(ps[x] == rest[x - 1]);
            }
        }
    } else {
        lemma_scan_apart(b, i + 1, from);
    }
}

proof fn lemma_windowed_inside(ps: Seq<int>, k: int, b: Seq<u8>, to: Seq<u8>, j: int)
    requires
        windows_apart(ps),
        0 <= j < ps.len(),
        ps[j] <= k < ps[j] + 16,
    ensures
        windowed_byte(ps, k, b, to) == to[k - ps[j]],
    decreases ps.len(),
{
    if j > 0 {
        assert(ps[0] + 16 <= ps[j]);
        let t = ps.drop_first();
        assert(t[j - 1] == ps[j]);
        assert forall|x: int, y: int| 0 <= x < y < t.len() implies #[trigger] t[x] + 16 <= #[trigger] t[y] by {
            assert(t[x] == ps[x + 1] && t[y] == ps[y + 1]);
        }
        lemma_windowed_inside(t, k, b, to, j - 1);
    }
}

proof fn lemma_windowed_outside(ps: Seq<int>, k: int, b: Seq<u8>, to: Seq<u8>)
    requires
        forall|j: int| 0 <= j < ps.len() ==> !(#[trigger] ps[j] <= k < ps[j] + 16),
    ensures
        windowed_byte(ps, k, b, to) == b[k],
    decreases ps.len(),
{
    if ps.len() > 0 {
        assert(!(ps[0] <= k < ps[0] + 16));
        let t = ps.drop_first();
        assert forall|j: int| 0 <= j < t.len() implies !(#[trigger] t[j] <= k < t[j] + 16) by {
            assert(t[j] == ps[j + 1]);
        }
        lemma_windowed_outside(t, k, b, to);
    }
}

/// Replacing the uid `from` by `to` finds its occurrences in a left-to-right
/// scan that steps past each one found: the windows at those positions come
/// in order without overlapping, each holds `to` afterwards, the length is
/// kept, and every byte outside them is unchanged.
pub proof fn lemma_replace_windows(b: Seq<u8>, from: Seq<u8>, to: Seq<u8>)
    requires
        to.len() == 16,
    ensures
        ({
            let ps = scan_positions(b, 0, from);
            let r = replace_all_spec(b, from, to);
            &&& r.len() == b.len()
            &&& windows_apart(ps)
            &&& forall|j: int| 0 <= j < ps.len() ==> 0 <= #[trigger] ps[j] && ps[j] + 16 <= b.len() && r.subrange(ps[j], ps[j] + 16) == to
            &&& forall|k: int| 0 <= k < b.len() && (forall|j: int| 0 <= j < ps.len() ==> !(#[trigger] ps[j] <= k < ps[j] + 16)) ==> r[k] == b[k]
        }),
{
    let ps = scan_positions(b, 0, from);
    let r = replace_all_spec(b, from, to);
    lemma_replace_all_positions(b, from, to);
    lemma_scan_apart(b, 0, from);
    lemma_scan_positions_bounds(b, 0, from);
    assert forall|j: int| 0 <= j < ps.len() implies 0 <= #[trigger] ps[j] && ps[j] + 16 <= b.len() && r.subrange(ps[j], ps[j] + 16) == to by {
        assert forall|d: int| 0 <= d < 16 implies r.subrange(ps[j], ps[j] + 16)[d] == to[d] by {
            lemma_windowed_inside(ps, ps[j] + d, b, to, j);
            assert(r[ps[j] + d] == windowed_byte(ps, ps[j] + d, b, to));
        }
        assert(r.subrange(ps[j], ps[j] + 16) =~= to);
    }
    assert forall|k: int| 0 <= k < b.len() && (forall|j: int| 0 <= j < ps.len() ==> !(#[trigger] ps[j] <= k < ps[j] + 16)) implies r[k] == b[k] by {
        lemma_windowed_outside(ps, k, b, to);
    }
}

/// Replacing a uid that does not occur leaves the bytes unchanged.
pub proof fn lemma_replace_absent(b: Seq<u8>, i: int, from: Seq<u8>, to: Seq<u8>)
    requires
        0 <= i,
        !contains_guid_spec(b, from),
    ensures
        replace_from(b, i, from, to) == b,
    decreases b.len() - i,
{
    if i < 0 || i + 16 > b.len() || to.len() != 16 {
    } else {
        assert(guid_at(b, i) != from);
        lemma_replace_absent(b, i + 1, from, to);
    }
}

/// Replaces, scanning left to right, every non-overlapping occurrence of
/// `from` in `raw` by `to`.
pub fn replace_all(raw: &mut [u8], from: &[u8; 16], to: &[u8; 16])
    ensures
        final(raw)@ == replace_all_spec(old(raw)@, from@, to@),
{
    let ghost orig = raw@;
    let n = raw.len();
    let mut i: usize = 0;
    while n >= 16 && i <= n - 16
        invariant
            n == raw@.len(),
            replace_from(raw@, i as int, from@, to@) == replace_all_spec(orig, from@, to@),
        decreases n - i,
    {
        if guid_matches(raw, i, from) {
            write_guid(raw, i, to);
            i = i + 16;
        } else {
            i = i + 1;
        }
    }
}

/// The marker uid used by the swap: `old` with its last byte inverted.
pub open spec fn swap_temp(old_uid: Seq<u8>) -> Seq<u8> {
    old_uid.update(15, old_uid[15] ^ 0xFF)
}

/// The bytes after swapping `old_uid` and `new_uid` in three passes:
/// `old_uid` to the marker, `new_uid` to `old_uid`, the marker to `new_uid`.
pub open spec fn swap_spec(b: Seq<u8>, old_uid: Seq<u8>, new_uid: Seq<u8>) -> Seq<u8> {
    let t = swap_temp(old_uid);
    replace_all_spec(replace_all_spec(replace_all_spec(b, old_uid, t), new_uid, old_uid), t, new_uid)
}

/// Swaps the uids `old_uid` and `new_uid` everywhere in `raw`, through a
/// marker uid derived from `old_uid` (its last byte inverted). A no-op when
/// the two are equal. Refused, with `raw` unchanged, when the marker equals
/// `new_uid` or already occurs in `raw`.
pub fn swap_guids(raw: &mut [u8], old_uid: &[u8; 16], new_uid: &[u8; 16]) -> (r: Result<(), String>)
    ensures
        old_uid@ == new_uid@ ==> r is Ok && final(raw)@ == old(raw)@,
        old_uid@ != new_uid@ ==> {
            let t = swap_temp(old_uid@);
            &&& (r is Err <==> (t == new_uid@ || contains_guid_spec(old(raw)@, t)))
            &&& (r is Ok ==> final(raw)@ == swap_spec(old(raw)@, old_uid@, new_uid@))
            &&& (r is Err ==> final(raw)@ == old(raw)@)
        },
{
    if guid_eq(old_uid, new_uid) {
        return Ok(());
    }
    let mut temp = *old_uid;
    temp[15] = temp[15] ^ 0xFF;
    assert(temp@ =~= swap_temp(old_uid@));
    if guid_eq(&temp, new_uid) {
        return Err(String::from_str("派生 TEMP 哨兵与 new 相同，无法安全交换"));
    }
    if contains_guid(raw, &temp) {
        return Err(String::from_str("派生 TEMP 哨兵已存在于缓冲区内，无法安全交换"));
    }
    replace_all(raw, old_uid, &temp);
    replace_all(raw, new_uid, old_uid);
    replace_all(raw, &temp, new_uid);
    Ok(())
}

/// The increment of the splitmix64 generator.
pub const SPLITMIX_GAMMA: u64 = 0x9E37_79B9_7F4A_7C15;

/// The splitmix64 state after one step from `s`.
pub open spec fn splitmix_next(s: u64) -> u64 {
    s.wrapping_add(SPLITMIX_GAMMA)
}

/// The splitmix64 output for the state `z` reached by a step.
pub open spec fn splitmix_output(z: u64) -> u64 {
    let a = (z ^ (z >> 30u64)).wrapping_mul(0xBF58_476D_1CE4_E5B9);
    let b = (a ^ (a >> 27u64)).wrapping_mul(0x94D0_49BB_1331_11EB);
    b ^ (b >> 31u64)
}

/// One step of the splitmix64 generator: advances `state` by the gamma and
/// returns the mixed new state.
pub fn splitmix64(state: &mut u64) -> (r: u64)
    ensures
        *final(state) == splitmix_next(*old(state)),
        r == splitmix_output(*final(state)),
{
    *state = state.wrapping_add(SPLITMIX_GAMMA);
    let mut z = *state;
    z = (z ^ (z >> 30)).wrapping_mul(0xBF58_476D_1CE4_E5B9);
    z = (z ^ (z >> 27)).wrapping_mul(0x94D0_49BB_1331_11EB);
    z ^ (z >> 31)
}


/// The number that the eight hexadecimal digits at `p` write, most
/// significant first (what `u32::from_str_radix(.., 16)` reads).
pub open spec fn hex_word(d: Seq<u8>, p: int) -> int {
    hex_value(d[p]) * 0x10000000 + hex_value(d[p + 1]) * 0x1000000 + hex_value(d[p + 2]) * 0x100000
        + hex_value(d[p + 3]) * 0x10000 + hex_value(d[p + 4]) * 0x1000 + hex_value(d[p + 5]) * 0x100
        + hex_value(d[p + 6]) * 0x10 + hex_value(d[p + 7])
}

/// The four little-endian bytes of `x` (what `u32::to_le_bytes` gives).
pub open spec fn le_bytes_of(x: int) -> Seq<u8> {
    seq![(x % 0x100) as u8, (x / 0x100 % 0x100) as u8, (x / 0x10000 % 0x100) as u8, (x / 0x1000000 % 0x100) as u8]
}

proof fn lemma_word_bytes(v0: int, v1: int, v2: int, v3: int, v4: int, v5: int, v6: int, v7: int)
    requires
        0 <= v0 < 16, 0 <= v1 < 16, 0 <= v2 < 16, 0 <= v3 < 16,
        0 <= v4 < 16, 0 <= v5 < 16, 0 <= v6 < 16, 0 <= v7 < 16,
    ensures
        ({
            let x = v0 * 0x10000000 + v1 * 0x1000000 + v2 * 0x100000 + v3 * 0x10000 + v4 * 0x1000 + v5 * 0x100 + v6 * 0x10 + v7;
            &&& x % 0x100 == 16 * v6 + v7
            &&& x / 0x100 % 0x100 == 16 * v4 + v5
            &&& x / 0x10000 % 0x100 == 16 * v2 + v3
            &&& x / 0x1000000 % 0x100 == 16 * v0 + v1
        }),
{
    let b0 = 16 * v6 + v7;
    let b1 = 16 * v4 + v5;
    let b2 = 16 * v2 + v3;
    let b3 = 16 * v0 + v1;
    let x = v0 * 0x10000000 + v1 * 0x1000000 + v2 * 0x100000 + v3 * 0x10000 + v4 * 0x1000 + v5 * 0x100 + v6 * 0x10 + v7;
    assert(x == b3 * 0x1000000 + b2 * 0x10000 + b1 * 0x100 + b0);
    assert(0 <= b0 < 0x100 && 0 <= b1 < 0x100 && 0 <= b2 < 0x100 && 0 <= b3 < 0x100);
    let y1 = b3 * 0x10000 + b2 * 0x100 + b1;
    let y2 = b3 * 0x100 + b2;
    assert(x == y1 * 0x100 + b0);
    vstd::arithmetic::div_mod::lemma_fundamental_div_mod_converse(x, 0x100, y1, b0);
    vstd::arithmetic::div_mod::lemma_fundamental_div_mod_converse(y1, 0x100, y2, b1);
    vstd::arithmetic::div_mod::lemma_fundamental_div_mod_converse(y2, 0x100, b3, b2);
    vstd::arithmetic::div_mod::lemma_div_denominator(x, 0x100, 0x100);
    vstd::arithmetic::div_mod::lemma_div_denominator(x, 0x10000, 0x100);
    vstd::arithmetic::div_mod::lemma_small_mod(b3 as nat, 0x100);
}

/// The uid that 32 hexadecimal digits write holds, for each group of eight
/// digits, the number they write in hexadecimal, stored little-endian: what
/// `u32::from_str_radix` and `to_le_bytes` give for each group.
pub proof fn lemma_uid_words(d: Seq<u8>, k: int)
    requires
        d.len() == 32,
        forall|i: int| 0 <= i < 32 ==> is_hex_digit(#[trigger] d[i]),
        0 <= k < 4,
    ensures
        guid_of_digits(d).subrange(4 * k, 4 * k + 4) == le_bytes_of(hex_word(d, 8 * k)),
{
    let p = 8 * k;
    let g = guid_of_digits(d);
    assert forall|i: int| 0 <= i < 8 implies 0 <= #[trigger] hex_value(d[p + i]) < 16 by {
        assert(is_hex_digit(d[p + i]));
    }
    let v0 = hex_value(d[p]);
    let v1 = hex_value(d[p + 1]);
    let v2 = hex_value(d[p + 2]);
    let v3 = hex_value(d[p + 3]);
    let v4 = hex_value(d[p + 4]);
    let v5 = hex_value(d[p + 5]);
    let v6 = hex_value(d[p + 6]);
    let v7 = hex_value(d[p + 7]);
    assert(0 <= v0 < 16 && 0 <= v1 < 16 && 0 <= v2 < 16 && 0 <= v3 < 16);
    assert(0 <= v4 < 16 && 0 <= v5 < 16 && 0 <= v6 < 16 && 0 <= v7 < 16);
    lemma_word_bytes(v0, v1, v2, v3, v4, v5, v6, v7);
    assert(g.subrange(4 * k, 4 * k + 4) =~= word_le(d, p));
    assert(word_le(d, p) =~= le_bytes_of(hex_word(d, p)));
}

/// Reading uid text: refused exactly when the text without `-` and ASCII
/// whitespace is not 32 hexadecimal digits; otherwise the uid holds, for each
/// group of eight digits, the number they write in hexadecimal, stored
/// little-endian (see also `lemma_separators_do_not_matter` and
/// `lemma_letter_case_does_not_matter`).
pub proof fn lemma_guid_text(t: Seq<u8>)
    ensures
        guid_of_text(t) is None <==> (guid_digits(t).len() != 32 || exists|i: int| 0 <= i < 32 && !is_hex_digit(#[trigger] guid_digits(t)[i])),
        guid_of_text(t) matches Some(g) ==> forall|k: int| 0 <= k < 4 ==> #[trigger] g.subrange(4 * k, 4 * k + 4) == le_bytes_of(
            hex_word(guid_digits(t), 8 * k),
        ),
{
    if let Some(g) = guid_of_text(t) {
        assert forall|k: int| 0 <= k < 4 implies #[trigger] g.subrange(4 * k, 4 * k + 4) == le_bytes_of(hex_word(guid_digits(t), 8 * k)) by {
            lemma_uid_words(guid_digits(t), k);
        }
    }
}
} // verus!
