//! Names that become path segments: world names, player file stems and
//! backup ids. Only ASCII letters and digits, `_`, `-` and `.` may reach a
//! path, so no input can climb out of the directory it names a child of.

use vstd::prelude::*;
use crate::text::{chars_of, string_of, trim, trim_range};
use vstd::string::StringSliceAdditionalSpecFns;

verus! {

/// A character allowed in a path segment.
pub open spec fn is_name_char(c: char) -> bool {
    ('a' <= c <= 'z') || ('A' <= c <= 'Z') || ('0' <= c <= '9') || c == '_' || c == '-' || c == '.'
}

/// Every character of `s` is allowed in a path segment.
pub open spec fn all_name_chars(s: Seq<char>) -> bool {
    forall|i: int| 0 <= i < s.len() ==> is_name_char(#[trigger] s[i])
}

/// A name that is a plain file name: non-empty, only allowed characters, and
/// neither `.` nor `..`.
pub open spec fn is_plain_name(s: Seq<char>) -> bool {
    s.len() > 0 && all_name_chars(s) && s != seq!['.'] && s != seq!['.', '.']
}

/// What follows the last `/` of `s` (all of `s` when it holds none).
pub open spec fn after_last_slash(s: Seq<char>) -> Seq<char>
    decreases s.len(),
{
    if s.len() == 0 {
        s
    } else if s.last() == '/' {
        Seq::empty()
    } else {
        after_last_slash(s.drop_last()).push(s.last())
    }
}

/// Path text whose components every platform splits the same way: no `\`
/// anywhere, and not starting with `//` (where a platform may read a
/// network or device prefix).
pub open spec fn portable_path_text(s: Seq<char>) -> bool {
    !s.contains('\\') && !(s.len() >= 2 && s[0] == '/' && s[1] == '/')
}

/// A last segment that is a normal component on every platform: not empty,
/// neither `.` nor `..`, and without `:` (which may start a drive prefix).
pub open spec fn normal_segment(b: Seq<char>) -> bool {
    b.len() > 0 && b != seq!['.'] && b != seq!['.', '.'] && !b.contains(':')
}

/// The text `..`.
pub open spec fn is_dot_dot(s: Seq<char>) -> bool {
    s == seq!['.', '.']
}

/// The last component of the path `s`, as text: calls
/// `std::path::Path::file_name` and converts the `OsStr` lossily. `/`
/// separates components on every platform, so for portable text (see
/// `portable_path_text`) a last segment after the last `/` that is a normal
/// component is the result, and a last segment `..` gives nothing. What else
/// separates components depends on the platform; beyond that only this is
/// stated: a plain file name is its own last component, empty text has none,
/// and what comes back is a normal component, so neither empty nor `.` nor
/// `..`.
#[verifier::external_body]
fn path_file_name(s: &str) -> (r: Option<String>)
    ensures
        match r {
            Some(b) => (is_plain_name(s@) ==> b@ == s@) && b@.len() > 0 && b@ != seq!['.'] && b@ != seq!['.', '.'],
            None => !is_plain_name(s@),
        },
        s@.len() == 0 ==> r is None,
        portable_path_text(s@) && normal_segment(after_last_slash(s@)) ==> r is Some && r->0@ == after_last_slash(s@),
        portable_path_text(s@) && is_dot_dot(after_last_slash(s@)) ==> r is None,
{
    std::path::Path::new(s).file_name().map(|n| n.to_string_lossy().to_string())
}

fn is_name_char_exec(c: char) -> (r: bool)
    ensures
        r == is_name_char(c),
{
    ('a' <= c && c <= 'z') || ('A' <= c && c <= 'Z') || ('0' <= c && c <= '9') || c == '_' || c
        == '-' || c == '.'
}

/// Keeps a last path component only when every character is allowed.
pub fn accept_name_segment(base: Option<String>) -> (r: Option<String>)
    ensures
        match base {
            Some(b) => if all_name_chars(b@) {
                r matches Some(x) && x@ == b@
            } else {
                r is None
            },
            None => r is None,
        },
{
    let b = match base {
        Some(b) => b,
        None => return None,
    };
    let v = chars_of(b.as_str());
    let mut i: usize = 0;
    while i < v.len()
        invariant
            v@ == b@,
            base matches Some(bb) && bb@ == b@,
            i <= v@.len(),
            forall|j: int| 0 <= j < i ==> is_name_char(#[trigger] v@[j]),
        decreases v@.len() - i,
    {
        if !is_name_char_exec(v[i]) {
            assert(b@[i as int] == v@[i as int]);
            return None;
        }
        i = i + 1;
    }
    Some(b)
}

/// The last path component of `s` when every one of its characters is
/// allowed; `None` for empty input. A plain file name is kept as it is; of
/// other input, only the last component survives: `foo/bar` gives `bar`,
/// `../etc` gives `etc`, and `a*b` gives nothing (see `path_file_name` for
/// what is known of every platform).
pub fn safe_name_segment(s: &str) -> (r: Option<String>)
    ensures
        s@.len() == 0 ==> r is None,
        is_plain_name(s@) ==> (r matches Some(b) && b@ == s@),
        r matches Some(b) ==> is_plain_name(b@),
        portable_path_text(s@) && normal_segment(after_last_slash(s@)) ==> if all_name_chars(after_last_slash(s@)) {
            r matches Some(b) && b@ == after_last_slash(s@)
        } else {
            r is None
        },
        portable_path_text(s@) && is_dot_dot(after_last_slash(s@)) ==> r is None,
{
    if s.is_empty() {
        return None;
    }
    accept_name_segment(path_file_name(s))
}

/// `s` ends with `.sav`.
pub open spec fn has_sav_suffix(s: Seq<char>) -> bool {
    s.len() >= 4 && s.subrange(s.len() - 4, s.len() as int) == seq!['.', 's', 'a', 'v']
}

/// A player file stem: the trimmed text without a final `.sav`.
pub open spec fn player_stem(s: Seq<char>) -> Seq<char> {
    let t = trim(s);
    if has_sav_suffix(t) {
        t.subrange(0, t.len() - 4)
    } else {
        t
    }
}

/// Holds `/` or `\`.
pub open spec fn has_separator(s: Seq<char>) -> bool {
    exists|i: int| 0 <= i < s.len() && (#[trigger] s[i] == '/' || s[i] == '\\')
}

/// The file stem of a player save named by `guid`: trimmed, without a final
/// `.sav`, and refused when it holds a path separator or a character not
/// allowed in a path segment.
pub fn normalize_player_guid(guid: &str) -> (r: Option<String>)
    ensures
        has_separator(trim(guid@)) ==> r is None,
        !has_separator(trim(guid@)) && is_plain_name(player_stem(guid@)) ==> (r matches Some(b)
            && b@ == player_stem(guid@)),
        r matches Some(b) ==> is_plain_name(b@),
{
    let v = chars_of(guid);
    let (a, b) = trim_range(v.as_slice(), 0, v.len());
    assert(v@.subrange(0, v@.len() as int) =~= guid@);
    let ghost t = v@.subrange(a as int, b as int);
    let mut i = a;
    while i < b
        invariant
            a <= i <= b <= v@.len(),
            t == v@.subrange(a as int, b as int),
            t == trim(guid@),
            forall|j: int| a <= j < i ==> v@[j] != '/' && v@[j] != '\\',
        decreases b - i,
    {
        if v[i] == '/' || v[i] == '\\' {
            assert(t[i - a] == v@[i as int]);
            return None;
        }
        i = i + 1;
    }
    assert(!has_separator(t)) by {
        assert forall|j: int| 0 <= j < t.len() implies !(#[trigger] t[j] == '/' || t[j] == '\\') by {
            assert(t[j] == v@[a + j]);
        }
    }
    let sav = b - a >= 4 && v[b - 4] == '.' && v[b - 3] == 's' && v[b - 2] == 'a' && v[b - 1] == 'v';
    proof {
        if b - a >= 4 {
            let suffix = t.subrange(t.len() - 4, t.len() as int);
            if sav {
                assert(suffix =~= seq!['.', 's', 'a', 'v']);
            } else if suffix == seq!['.', 's', 'a', 'v'] {
                assert(suffix[0] == v@[b - 4]);
                assert(suffix[1] == v@[b - 3]);
                assert(suffix[2] == v@[b - 2]);
                assert(suffix[3] == v@[b - 1]);
            }
        }
    }
    let end = if sav {
        b - 4
    } else {
        b
    };
    assert(v@.subrange(a as int, end as int) =~= player_stem(guid@));
    let base = string_of(v.as_slice(), a, end);
    safe_name_segment(base.as_str())
}

/// The trimmed text of `s` without a final `.sav` (see `player_stem`).
fn stem_of(s: &str) -> (r: String)
    ensures
        r@ == player_stem(s@),
{
    let v = chars_of(s);
    let (a, b) = trim_range(v.as_slice(), 0, v.len());
    assert(v@.subrange(0, v@.len() as int) =~= s@);
    let ghost t = v@.subrange(a as int, b as int);
    let sav = b - a >= 4 && v[b - 4] == '.' && v[b - 3] == 's' && v[b - 2] == 'a' && v[b - 1] == 'v';
    proof {
        if b - a >= 4 {
            let suffix = t.subrange(t.len() - 4, t.len() as int);
            if sav {
                assert(suffix =~= seq!['.', 's', 'a', 'v']);
            } else if suffix == seq!['.', 's', 'a', 'v'] {
                assert(suffix[0] == v@[b - 4]);
                assert(suffix[1] == v@[b - 3]);
                assert(suffix[2] == v@[b - 2]);
                assert(suffix[3] == v@[b - 1]);
            }
        }
    }
    let end = if sav {
        b - 4
    } else {
        b
    };
    assert(v@.subrange(a as int, end as int) =~= player_stem(s@));
    string_of(v.as_slice(), a, end)
}

/// A Steam id as a file stem: trimmed, without a final `.sav`, then passed
/// through `safe_name_segment`.
pub fn normalize_steam_id(steam_id: &str) -> (r: Option<String>)
    ensures
        player_stem(steam_id@).len() == 0 ==> r is None,
        is_plain_name(player_stem(steam_id@)) ==> (r matches Some(b) && b@ == player_stem(steam_id@)),
        r matches Some(b) ==> all_name_chars(b@),
{
    let base = stem_of(steam_id);
    safe_name_segment(base.as_str())
}

/// A player file stem: exactly 32 bytes, each an ASCII hexadecimal digit.
pub open spec fn is_player_file_stem(b: Seq<u8>) -> bool {
    b.len() == 32 && forall|i: int| 0 <= i < b.len() ==> crate::guid::is_hex_digit(#[trigger] b[i])
}

/// Refuses a player file stem that is not 32 hexadecimal digits.
pub fn validate_player_file_stem(value: &str) -> (r: Result<(), String>)
    ensures
        r is Ok <==> is_player_file_stem(value.spec_bytes()),
        r matches Err(e) ==> e@ == "角色文件标识必须是 32 位十六进制字符串"@,
{
    let b = value.as_bytes();
    if b.len() != 32 {
        return Err(String::from_str("角色文件标识必须是 32 位十六进制字符串"));
    }
    let mut i: usize = 0;
    while i < b.len()
        invariant
            b@ == value.spec_bytes(),
            i <= b@.len(),
            forall|j: int| 0 <= j < i ==> crate::guid::is_hex_digit(#[trigger] b@[j]),
        decreases b@.len() - i,
    {
        let c = b[i];
        if !((48 <= c && c <= 57) || (65 <= c && c <= 70) || (97 <= c && c <= 102)) {
            return Err(String::from_str("角色文件标识必须是 32 位十六进制字符串"));
        }
        i = i + 1;
    }
    Ok(())
}

} // verus!
