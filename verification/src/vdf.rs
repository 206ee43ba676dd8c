//! Steam library roots from the text of `libraryfolders.vdf`.
//!
//! Both layouts of the file are read: the current one, whose library entries
//! are blocks holding a `"path" "X:\\foo"` line, and the older flat one,
//! whose entries are lines `"1" "X:\\foo"` with a number as key. Escaped
//! backslashes `\\` in a path become single ones.

use vstd::prelude::*;
use crate::text::{
    chars_of, is_white_space, lemma_split_on_nonempty, push_char, split_on, split_ranges, string_of,
    trim, trim_range,
};

verus! {

/// The pieces of `ps` that hold something besides white space.
pub open spec fn nonblank(ps: Seq<Seq<char>>) -> Seq<Seq<char>>
    decreases ps.len(),
{
    if ps.len() == 0 {
        ps
    } else if trim(ps.last()).len() > 0 {
        nonblank(ps.drop_last()).push(ps.last())
    } else {
        nonblank(ps.drop_last())
    }
}

/// The key `path`.
pub open spec fn path_key() -> Seq<char> {
    seq!['p', 'a', 't', 'h']
}

/// An ASCII decimal digit.
pub open spec fn is_digit(c: char) -> bool {
    '0' <= c <= '9'
}

/// The value of a string of decimal digits.
pub open spec fn decimal_value(s: Seq<char>) -> nat
    decreases s.len(),
{
    if s.len() == 0 {
        0
    } else {
        10 * decimal_value(s.drop_last()) + (s.last() as nat - '0' as nat) as nat
    }
}

/// Text that `u32::from_str` accepts: an optional `+` and at least one
/// decimal digit, of value at most `u32::MAX`.
pub open spec fn is_u32_text(s: Seq<char>) -> bool {
    is_u32_digits(
        if s.len() > 0 && s[0] == '+' {
            s.drop_first()
        } else {
            s
        },
    )
}

/// At least one decimal digit, of value at most `u32::MAX`.
pub open spec fn is_u32_digits(d: Seq<char>) -> bool {
    d.len() > 0 && (forall|i: int| 0 <= i < d.len() ==> is_digit(#[trigger] d[i]))
        && decimal_value(d) <= u32::MAX
}

/// `s` with each pair of backslashes, read left to right, made one.
pub open spec fn collapse_backslashes(s: Seq<char>) -> Seq<char>
    decreases s.len(),
{
    if s.len() >= 2 && s[0] == '\\' && s[1] == '\\' {
        seq!['\\'] + collapse_backslashes(s.skip(2))
    } else if s.len() == 0 {
        s
    } else {
        seq![s[0]] + collapse_backslashes(s.skip(1))
    }
}

/// The library root named by one line of the file, if any: the trimmed line
/// starts with a quote, its first two quoted pieces that are not blank are a
/// key (`path` or a number) and a value, and the value, unescaped and
/// trimmed, is not empty.
pub open spec fn root_of_line(line: Seq<char>) -> Option<Seq<char>> {
    let l = trim(line);
    if l.len() == 0 || l[0] != '"' {
        None
    } else {
        let parts = nonblank(split_on(l, '"'));
        if parts.len() < 2 {
            None
        } else if !(parts[0] == path_key() || is_u32_text(parts[0])) {
            None
        } else {
            let v = trim(collapse_backslashes(parts[1]));
            if v.len() == 0 {
                None
            } else {
                Some(v)
            }
        }
    }
}

/// A line that holds a key alone (such as the block keys `"0"` or `"1"`),
/// with no second quoted piece, names no root; nor does a line whose first
/// piece is neither `path` nor a number.
pub proof fn lemma_lines_without_roots(line: Seq<char>)
    ensures
        nonblank(split_on(trim(line), '"')).len() < 2 ==> root_of_line(line) is None,
        ({
            let parts = nonblank(split_on(trim(line), '"'));
            parts.len() >= 2 && !(parts[0] == path_key() || is_u32_text(parts[0]))
        }) ==> root_of_line(line) is None,
{
}

/// The roots named by the lines `ls`, in order.
pub open spec fn roots_of_lines(ls: Seq<Seq<char>>) -> Seq<Seq<char>>
    decreases ls.len(),
{
    if ls.len() == 0 {
        Seq::empty()
    } else {
        roots_of_lines(ls.drop_last()) + match root_of_line(ls.last()) {
            Some(r) => seq![r],
            None => Seq::empty(),
        }
    }
}

/// The library roots named by the text of a `libraryfolders.vdf`, in order.
pub open spec fn library_roots(text: Seq<char>) -> Seq<Seq<char>> {
    roots_of_lines(split_on(text, '\n'))
}

fn is_path_key(v: &[char], a: usize, b: usize) -> (r: bool)
    requires
        a <= b <= v@.len(),
    ensures
        r == (v@.subrange(a as int, b as int) == path_key()),
{
    if b - a != 4 {
        assert(path_key().len() == 4);
        return false;
    }
    let r = v[a] == 'p' && v[a + 1] == 'a' && v[a + 2] == 't' && v[a + 3] == 'h';
    proof {
        if r {
            assert(v@.subrange(a as int, b as int) =~= path_key());
        } else if v@.subrange(a as int, b as int) == path_key() {
            assert(v@.subrange(a as int, b as int)[0] == v@[a as int]);
            assert(v@.subrange(a as int, b as int)[1] == v@[a + 1]);
            assert(v@.subrange(a as int, b as int)[2] == v@[a + 2]);
            assert(v@.subrange(a as int, b as int)[3] == v@[a + 3]);
        }
    }
    r
}

fn is_u32_key(v: &[char], a: usize, b: usize) -> (r: bool)
    requires
        a <= b <= v@.len(),
    ensures
        r == is_u32_text(v@.subrange(a as int, b as int)),
{
    let ghost s = v@.subrange(a as int, b as int);
    let start = if a < b && v[a] == '+' {
        a + 1
    } else {
        a
    };
    let ghost d = v@.subrange(start as int, b as int);
    assert(d =~= (if s.len() > 0 && s[0] == '+' {
        s.drop_first()
    } else {
        s
    }));
    assert(is_u32_text(s) == is_u32_digits(d));
    if start == b {
        return false;
    }
    let mut value: u64 = 0;
    let mut i = start;
    while i < b
        invariant
            start <= i <= b <= v@.len(),
            d == v@.subrange(start as int, b as int),
            is_u32_text(v@.subrange(a as int, b as int)) == is_u32_digits(d),
            forall|j: int| start <= j < i ==> is_digit(#[trigger] v@[j]),
            value == decimal_value(v@.subrange(start as int, i as int)),
            value <= u32::MAX,
        decreases b - i,
    {
        let c = v[i];
        if !('0' <= c && c <= '9') {
            assert(!is_digit(d[i - start]));
            return false;
        }
        assert(v@.subrange(start as int, i + 1).drop_last() =~= v@.subrange(start as int, i as int));
        value = 10 * value + (c as u64 - '0' as u64);
        if value > 0xFFFF_FFFF {
            proof {
                if forall|j: int| 0 <= j < d.len() ==> is_digit(#[trigger] d[j]) {
                    lemma_decimal_prefix_monotone(d, (i + 1 - start) as nat);
                    assert(d.take(i + 1 - start) =~= v@.subrange(start as int, i + 1));
                }
            }
            return false;
        }
        i = i + 1;
    }
    assert(d =~= v@.subrange(start as int, i as int));
    true
}

proof fn lemma_decimal_prefix_monotone(d: Seq<char>, n: nat)
    requires
        n <= d.len(),
        forall|i: int| 0 <= i < d.len() ==> is_digit(#[trigger] d[i]),
    ensures
        decimal_value(d.take(n as int)) <= decimal_value(d),
    decreases d.len() - n,
{
    if n < d.len() {
        lemma_decimal_prefix_monotone(d, n + 1);
        assert(d.take(n + 1 as int).drop_last() =~= d.take(n as int));
    } else {
        assert(d.take(n as int) =~= d);
    }
}

/// The characters of `v[a..b]` with each pair of backslashes made one.
fn collapse_range(v: &[char], a: usize, b: usize) -> (out: Vec<char>)
    requires
        a <= b <= v@.len(),
    ensures
        out@ == collapse_backslashes(v@.subrange(a as int, b as int)),
{
    let mut out: Vec<char> = Vec::new();
    let mut i = a;
    while i < b
        invariant
            a <= i <= b <= v@.len(),
            out@ + collapse_backslashes(v@.subrange(i as int, b as int)) == collapse_backslashes(
                v@.subrange(a as int, b as int),
            ),
        decreases b - i,
    {
        let ghost rest = v@.subrange(i as int, b as int);
        if i + 1 < b && v[i] == '\\' && v[i + 1] == '\\' {
            assert(rest.skip(2) =~= v@.subrange(i + 2, b as int));
            out.push('\\');
            assert(out@ + collapse_backslashes(v@.subrange(i + 2, b as int)) =~= collapse_backslashes(
                v@.subrange(a as int, b as int),
            ));
            i = i + 2;
        } else {
            assert(rest.skip(1) =~= v@.subrange(i + 1, b as int));
            out.push(v[i]);
            assert(out@ + collapse_backslashes(v@.subrange(i + 1, b as int)) =~= collapse_backslashes(
                v@.subrange(a as int, b as int),
            ));
            i = i + 1;
        }
    }
    assert(v@.subrange(b as int, b as int) =~= Seq::<char>::empty());
    out
}

/// The library root named by the line `v[a..b]`, if any.
fn line_root(v: &[char], a: usize, b: usize) -> (r: Option<String>)
    requires
        a <= b <= v@.len(),
    ensures
        match root_of_line(v@.subrange(a as int, b as int)) {
            Some(x) => r matches Some(s) && s@ == x,
            None => r is None,
        },
{
    let (la, lb) = trim_range(v, a, b);
    let ghost l = v@.subrange(la as int, lb as int);
    if la == lb || v[la] != '"' {
        return None;
    }
    let pieces = split_ranges(v, la, lb, '"');
    let ghost ps = split_on(l, '"');
    let mut parts: Vec<(usize, usize)> = Vec::new();
    let mut k: usize = 0;
    while k < pieces.len()
        invariant
            la <= lb <= v@.len(),
            l == v@.subrange(la as int, lb as int),
            ps == split_on(l, '"'),
            pieces@.len() == ps.len(),
            forall|m: int|
                0 <= m < pieces@.len() ==> {
                    &&& la <= (#[trigger] pieces@[m]).0 <= pieces@[m].1 <= lb
                    &&& v@.subrange(pieces@[m].0 as int, pieces@[m].1 as int) == ps[m]
                },
            k <= pieces@.len(),
            parts@.len() == nonblank(ps.take(k as int)).len(),
            forall|m: int|
                0 <= m < parts@.len() ==> {
                    &&& la <= (#[trigger] parts@[m]).0 <= parts@[m].1 <= lb
                    &&& v@.subrange(parts@[m].0 as int, parts@[m].1 as int) == nonblank(
                        ps.take(k as int),
                    )[m]
                },
        decreases pieces@.len() - k,
    {
        let (pa, pb) = pieces[k];
        let (ta, tb) = trim_range(v, pa, pb);
        assert(ps.take(k + 1).drop_last() =~= ps.take(k as int));
        assert(ps.take(k + 1).last() == ps[k as int]);
        if ta < tb {
            parts.push((pa, pb));
        }
        k = k + 1;
    }
    assert(ps.take(pieces@.len() as int) =~= ps);
    if parts.len() < 2 {
        return None;
    }
    let (ka, kb) = parts[0];
    let (va, vb) = parts[1];
    if !(is_path_key(v, ka, kb) || is_u32_key(v, ka, kb)) {
        return None;
    }
    let collapsed = collapse_range(v, va, vb);
    let (ca, cb) = trim_range(collapsed.as_slice(), 0, collapsed.len());
    assert(collapsed@.subrange(0, collapsed@.len() as int) =~= collapsed@);
    if ca == cb {
        return None;
    }
    Some(string_of(collapsed.as_slice(), ca, cb))
}

/// Extracts the Steam library roots named by the text of a
/// `libraryfolders.vdf`, in the order the file names them, duplicates kept.
pub fn parse_library_roots(vdf_text: &str) -> (roots: Vec<String>)
    ensures
        roots@.len() == library_roots(vdf_text@).len(),
        forall|i: int| 0 <= i < roots@.len() ==> (#[trigger] roots@[i])@ == library_roots(vdf_text@)[i],
{
    let v = chars_of(vdf_text);
    let lines = split_ranges(v.as_slice(), 0, v.len(), '\n');
    let ghost ls = split_on(v@.subrange(0, v@.len() as int), '\n');
    assert(v@.subrange(0, v@.len() as int) =~= vdf_text@);
    let mut roots: Vec<String> = Vec::new();
    let mut k: usize = 0;
    while k < lines.len()
        invariant
            v@ == vdf_text@,
            ls == split_on(vdf_text@, '\n'),
            lines@.len() == ls.len(),
            forall|m: int|
                0 <= m < lines@.len() ==> {
                    &&& 0 <= (#[trigger] lines@[m]).0 <= lines@[m].1 <= v@.len()
                    &&& v@.subrange(lines@[m].0 as int, lines@[m].1 as int) == ls[m]
                },
            k <= lines@.len(),
            roots@.len() == roots_of_lines(ls.take(k as int)).len(),
            forall|i: int|
                0 <= i < roots@.len() ==> (#[trigger] roots@[i])@ == roots_of_lines(
                    ls.take(k as int),
                )[i],
        decreases lines@.len() - k,
    {
        let (a, b) = lines[k];
        assert(ls.take(k + 1).drop_last() =~= ls.take(k as int));
        assert(ls.take(k + 1).last() == ls[k as int]);
        match line_root(v.as_slice(), a, b) {
            Some(r) => {
                roots.push(r);
            },
            None => {},
        }
        k = k + 1;
    }
    assert(ls.take(lines@.len() as int) =~= ls);
    roots
}

} // verus!
