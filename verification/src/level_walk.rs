//! Finding the sub-fields of `worldSaveData` in a decompressed `Level.sav`
//! without parsing them all. Worlds hold huge fields (`MapObjectSaveData`
//! and others) whose nested structs a generic reader cannot parse; this walk
//! reads only property headers, passes each field by the length its header
//! gives, and lists where each sub-field lies, so that the caller parses the
//! few it needs.
//!
//! A property is its name and type (two FStrings), a length (`u32`), an array
//! index (`u32`), a header whose shape depends on the type, and a body of the
//! given length.

use vstd::prelude::*;
use vstd::bytes::u32_from_le_bytes;
use vstd::utf8::{decode_utf8, valid_utf8};
use crate::le::{i32_at, read_i32_at};
use crate::sav::u32_at;
use crate::world_copy::u16_at;
use crate::unicode::{decode_utf16, string_from_utf8, utf16_decode};
use crate::modifier::same_text;

verus! {

/// The FString at `p` and the offset just after it, as a GVAS reader reads a
/// name: an `i32` length `l` with `0 < |l| <= 131072`; for `l > 0`, `l - 1`
/// bytes of UTF-8 and a zero byte; for `l < 0`, `-l - 1` UTF-16 units and a
/// zero unit. Anything else (a zero length, a missing terminator, invalid
/// text, too few bytes) reads as nothing.
pub open spec fn fstring_at(b: Seq<u8>, p: int) -> Option<(Seq<char>, int)> {
    if p < 0 || p + 4 > b.len() {
        None
    } else {
        let len = i32_at(b, p) as int;
        if len < -131072 || len > 131072 || len == 0 {
            None
        } else if len > 0 {
            let e = p + 4 + len;
            if e > b.len() || b[e - 1] != 0 || !valid_utf8(b.subrange(p + 4, e - 1)) {
                None
            } else {
                Some((decode_utf8(b.subrange(p + 4, e - 1)), e))
            }
        } else {
            let e = p + 4 + 2 * (-len);
            if e > b.len() || u16_at(b, e - 2) != 0 {
                None
            } else {
                match utf16_decode(utf16_units(b, p + 4, -len - 1)) {
                    Some(s) => Some((s, e)),
                    None => None,
                }
            }
        }
    }
}

/// The `n` little-endian UTF-16 units from offset `p`.
pub open spec fn utf16_units(b: Seq<u8>, p: int, n: int) -> Seq<u16> {
    Seq::new(n as nat, |i: int| u16_at(b, p + 2 * i))
}

/// Where the header of a property of type `ty` whose length field stands at
/// `p` ends: after the length and the array index, a struct has a type name,
/// a 16-byte GUID and a terminator byte; a map has its key and value types
/// and a terminator; an array or a set has its element type and a
/// terminator; any other property only a terminator.
pub open spec fn header_end(b: Seq<u8>, p: int, ty: Seq<char>) -> Option<int> {
    let q = p + 8;
    if p < 0 || q > b.len() {
        None
    } else if ty == "StructProperty"@ {
        match fstring_at(b, q) {
            Some((_, q1)) => if q1 + 17 <= b.len() { Some(q1 + 17) } else { None },
            None => None,
        }
    } else if ty == "MapProperty"@ {
        match fstring_at(b, q) {
            Some((_, q1)) => match fstring_at(b, q1) {
                Some((_, q2)) => if q2 + 1 <= b.len() { Some(q2 + 1) } else { None },
                None => None,
            },
            None => None,
        }
    } else if ty == "ArrayProperty"@ || ty == "SetProperty"@ {
        match fstring_at(b, q) {
            Some((_, q1)) => if q1 + 1 <= b.len() { Some(q1 + 1) } else { None },
            None => None,
        }
    } else if q + 1 <= b.len() {
        Some(q + 1)
    } else {
        None
    }
}

/// Where the body of the property whose length field stands at `p` ends.
pub open spec fn body_end(b: Seq<u8>, p: int, ty: Seq<char>) -> Option<int> {
    match header_end(b, p, ty) {
        Some(h) => Some(h + u32_at(b, p) as int),
        None => None,
    }
}

/// The four sub-fields of `worldSaveData` that the world views need.
pub open spec fn is_wanted(name: Seq<char>) -> bool {
    ||| name == "CharacterSaveParameterMap"@
    ||| name == "GroupSaveDataMap"@
    ||| name == "CharacterContainerSaveData"@
    ||| name == "GameTimeSaveData"@
}

/// Which of the four wanted names `seen` covers, once `name` is added.
pub open spec fn seen_after(seen: (bool, bool, bool, bool), name: Seq<char>) -> (bool, bool, bool, bool) {
    (
        seen.0 || name == "CharacterSaveParameterMap"@,
        seen.1 || name == "GroupSaveDataMap"@,
        seen.2 || name == "CharacterContainerSaveData"@,
        seen.3 || name == "GameTimeSaveData"@,
    )
}

/// One sub-field: its name, its type, where its length field stands, and
/// where its body ends.
pub type FieldSpan = (Seq<char>, Seq<char>, int, int);

/// The sub-fields from offset `p` on, in order, given the wanted names
/// already listed in `seen`: the walk ends at the name `None`, at a header
/// it cannot read (keeping what it listed), and once all four wanted names
/// are listed; a name or type it cannot read, or a body that runs past the
/// end before the walk is over, makes the whole walk fail.
pub open spec fn fields_from(b: Seq<u8>, p: int, seen: (bool, bool, bool, bool)) -> Option<Seq<FieldSpan>>
    decreases b.len() - p,
{
    match fstring_at(b, p) {
        None => None,
        Some((name, p1)) => if name == "None"@ {
            Some(Seq::empty())
        } else {
            match fstring_at(b, p1) {
                None => None,
                Some((ty, p2)) => match body_end(b, p2, ty) {
                    None => Some(Seq::empty()),
                    Some(end) => {
                        let s = seen_after(seen, name);
                        let f: FieldSpan = (name, ty, p2, end);
                        if s.0 && s.1 && s.2 && s.3 {
                            Some(seq![f])
                        } else if end > b.len() || end <= p {
                            None
                        } else {
                            match fields_from(b, end, s) {
                                Some(rest) => Some(seq![f] + rest),
                                None => None,
                            }
                        }
                    },
                },
            }
        }
    }
}

/// The layout of `worldSaveData` in the top-level properties from offset
/// `p`: its struct type name and its sub-fields. Other top-level properties
/// are passed by their header's length; the name `None` before any
/// `worldSaveData` gives an empty layout.
pub open spec fn level_layout_from(b: Seq<u8>, p: int) -> Option<(Seq<char>, Seq<FieldSpan>)>
    decreases b.len() - p,
{
    match fstring_at(b, p) {
        None => None,
        Some((name, p1)) => if name == "None"@ {
            Some((Seq::empty(), Seq::empty()))
        } else {
            match fstring_at(b, p1) {
                None => None,
                Some((ty, p2)) => if name == "worldSaveData"@ {
                    if p2 + 8 > b.len() {
                        None
                    } else {
                        match fstring_at(b, p2 + 8) {
                            None => None,
                            Some((struct_name, p3)) => if p3 + 17 > b.len() {
                                None
                            } else {
                                match fields_from(b, p3 + 17, (false, false, false, false)) {
                                    Some(fs) => Some((struct_name, fs)),
                                    None => None,
                                }
                            },
                        }
                    }
                } else {
                    match body_end(b, p2, ty) {
                        Some(end) => if end > b.len() || end <= p {
                            None
                        } else {
                            level_layout_from(b, end)
                        },
                        None => None,
                    }
                },
            }
        }
    }
}

/// One sub-field of `worldSaveData`.
pub struct LevelField {
    pub name: String,
    pub kind: String,
    /// Where its length field stands: a property reader starts there once
    /// it knows the name and the type.
    pub header_pos: usize,
    /// Where its body ends.
    pub end: u64,
}

/// The layout of `worldSaveData`: its struct type name and its sub-fields.
pub struct LevelLayout {
    pub struct_type: String,
    pub fields: Vec<LevelField>,
}

pub open spec fn field_span(f: LevelField) -> FieldSpan {
    (f.name@, f.kind@, f.header_pos as int, f.end as int)
}

pub open spec fn field_spans(fs: Seq<LevelField>) -> Seq<FieldSpan> {
    Seq::new(fs.len(), |i: int| field_span(fs[i]))
}

/// Reads the little-endian `u32` at offset `p`.
fn read_u32_at(b: &[u8], p: usize) -> (r: u32)
    requires
        p + 4 <= b@.len(),
    ensures
        r == u32_at(b@, p as int),
{
    let _n = b.len();
    let s = &b[p..p + 4];
    assert(s@ =~= b@.subrange(p as int, p + 4));
    u32_from_le_bytes(s)
}

/// Reads the little-endian `u16` at offset `p`.
fn read_u16_at(b: &[u8], p: usize) -> (r: u16)
    requires
        p + 2 <= b@.len(),
    ensures
        r == u16_at(b@, p as int),
{
    let lo = b[p] as u16;
    let hi = b[p + 1] as u16;
    lo + 256 * hi
}

/// Reads the FString at `p` (see `fstring_at`).
pub fn read_fstring(b: &[u8], p: usize) -> (r: Option<(String, usize)>)
    ensures
        match fstring_at(b@, p as int) {
            Some((s, e)) => r matches Some((x, q)) && x@ == s && q == e,
            None => r is None,
        },
{
    if p > b.len() || b.len() - p < 4 {
        return None;
    }
    let len = read_i32_at(b, p);
    if len < -131072 || len > 131072 || len == 0 {
        return None;
    }
    if len > 0 {
        let l = len as usize;
        if b.len() - (p + 4) < l {
            return None;
        }
        let e = p + 4 + l;
        if b[e - 1] != 0 {
            return None;
        }
        let mut body: Vec<u8> = Vec::new();
        body.extend_from_slice(&b[p + 4..e - 1]);
        assert(body@ =~= b@.subrange(p + 4, e - 1));
        match string_from_utf8(body) {
            Some(s) => Some((s, e)),
            None => None,
        }
    } else {
        let n = (0 - len) as usize;
        if (b.len() - (p + 4)) / 2 < n {
            return None;
        }
        let e = p + 4 + 2 * n;
        if read_u16_at(b, e - 2) != 0 {
            return None;
        }
        let mut units: Vec<u16> = Vec::new();
        let mut i: usize = 0;
        let blen = b.len();
        while i < n - 1
            invariant
                blen == b@.len(),
                n >= 1,
                p + 4 + 2 * n <= b@.len(),
                i <= n - 1,
                units@ =~= utf16_units(b@, p + 4, i as int),
            decreases n - 1 - i,
        {
            let u = read_u16_at(b, p + 4 + 2 * i);
            units.push(u);
            i = i + 1;
        }
        assert(units@ =~= utf16_units(b@, p as int + 4, -(len as int) - 1));
        match decode_utf16(units.as_slice()) {
            Some(s) => Some((s, e)),
            None => None,
        }
    }
}

/// Reads where the header of a property of type `ty` whose length field
/// stands at `p` ends (see `header_end`).
fn read_header_end(b: &[u8], p: usize, ty: &String) -> (r: Option<usize>)
    ensures
        match header_end(b@, p as int, ty@) {
            Some(h) => r == Some(h as usize) && h <= b@.len(),
            None => r is None,
        },
{
    if p > b.len() || b.len() - p < 8 {
        return None;
    }
    let q = p + 8;
    if same_text(ty.as_str(), "StructProperty") {
        match read_fstring(b, q) {
            Some((_, q1)) => if q1 <= b.len() && b.len() - q1 >= 17 { Some(q1 + 17) } else { None },
            None => None,
        }
    } else if same_text(ty.as_str(), "MapProperty") {
        match read_fstring(b, q) {
            Some((_, q1)) => match read_fstring(b, q1) {
                Some((_, q2)) => if q2 < b.len() { Some(q2 + 1) } else { None },
                None => None,
            },
            None => None,
        }
    } else if same_text(ty.as_str(), "ArrayProperty") || same_text(ty.as_str(), "SetProperty") {
        match read_fstring(b, q) {
            Some((_, q1)) => if q1 < b.len() { Some(q1 + 1) } else { None },
            None => None,
        }
    } else if q < b.len() {
        Some(q + 1)
    } else {
        None
    }
}

/// Reads where the body of the property of type `ty` whose length field
/// stands at `p` ends, as a `u64` (see `body_end`).
fn read_body_end(b: &[u8], p: usize, ty: &String) -> (r: Option<u64>)
    requires
        b@.len() <= u32::MAX,
    ensures
        match body_end(b@, p as int, ty@) {
            Some(e) => r == Some(e as u64),
            None => r is None,
        },
{
    match read_header_end(b, p, ty) {
        Some(h) => {
            let length = read_u32_at(b, p);
            Some(h as u64 + length as u64)
        },
        None => None,
    }
}

fn is_named(s: &String, name: &str) -> (r: bool)
    ensures
        r == (s@ == name@),
{
    same_text(s.as_str(), name)
}

/// Lists the sub-fields from offset `p` on (see `fields_from`).
fn read_fields(b: &[u8], p: usize, seen: (bool, bool, bool, bool)) -> (r: Option<Vec<LevelField>>)
    requires
        b@.len() <= u32::MAX,
    ensures
        match fields_from(b@, p as int, seen) {
            Some(fs) => r matches Some(v) && field_spans(v@) == fs,
            None => r is None,
        },
    decreases b@.len() - p,
{
    let (name, p1) = match read_fstring(b, p) {
        Some(x) => x,
        None => return None,
    };
    if is_named(&name, "None") {
        let v: Vec<LevelField> = Vec::new();
        assert(field_spans(v@) =~= Seq::<FieldSpan>::empty());
        return Some(v);
    }
    let (ty, p2) = match read_fstring(b, p1) {
        Some(x) => x,
        None => return None,
    };
    let end = match read_body_end(b, p2, &ty) {
        Some(e) => e,
        None => {
            let v: Vec<LevelField> = Vec::new();
            assert(field_spans(v@) =~= Seq::<FieldSpan>::empty());
            return Some(v);
        },
    };
    let s = (
        seen.0 || is_named(&name, "CharacterSaveParameterMap"),
        seen.1 || is_named(&name, "GroupSaveDataMap"),
        seen.2 || is_named(&name, "CharacterContainerSaveData"),
        seen.3 || is_named(&name, "GameTimeSaveData"),
    );
    assert(s == seen_after(seen, name@));
    let ghost f: FieldSpan = (name@, ty@, p2 as int, end as int);
    if s.0 && s.1 && s.2 && s.3 {
        let mut v: Vec<LevelField> = Vec::new();
        v.push(LevelField { name, kind: ty, header_pos: p2, end });
        assert(field_spans(v@) =~= seq![f]);
        return Some(v);
    }
    if end > b.len() as u64 || end <= p as u64 {
        return None;
    }
    match read_fields(b, end as usize, s) {
        Some(mut rest) => {
            let ghost old_rest = rest@;
            rest.insert(0, LevelField { name, kind: ty, header_pos: p2, end });
            assert(field_spans(rest@) =~= seq![f] + field_spans(old_rest));
            Some(rest)
        },
        None => None,
    }
}

/// Finds the layout of `worldSaveData` in the top-level properties of a
/// decompressed `Level.sav` that start at `start`, the offset just after the
/// GVAS header (see `level_layout_from`).
pub fn level_layout(raw: &[u8], start: usize) -> (r: Option<LevelLayout>)
    requires
        raw@.len() <= u32::MAX,
    ensures
        match level_layout_from(raw@, start as int) {
            Some((t, fs)) => r matches Some(l) && l.struct_type@ == t && field_spans(l.fields@) == fs,
            None => r is None,
        },
    decreases raw@.len() - start,
{
    let b = raw;
    let (name, p1) = match read_fstring(b, start) {
        Some(x) => x,
        None => return None,
    };
    if is_named(&name, "None") {
        let v: Vec<LevelField> = Vec::new();
        assert(field_spans(v@) =~= Seq::<FieldSpan>::empty());
        return Some(LevelLayout { struct_type: String::new(), fields: v });
    }
    let (ty, p2) = match read_fstring(b, p1) {
        Some(x) => x,
        None => return None,
    };
    if is_named(&name, "worldSaveData") {
        if p2 > b.len() || b.len() - p2 < 8 {
            return None;
        }
        let (struct_name, p3) = match read_fstring(b, p2 + 8) {
            Some(x) => x,
            None => return None,
        };
        if p3 > b.len() || b.len() - p3 < 17 {
            return None;
        }
        return match read_fields(b, p3 + 17, (false, false, false, false)) {
            Some(fields) => Some(LevelLayout { struct_type: struct_name, fields }),
            None => None,
        };
    }
    match read_body_end(b, p2, &ty) {
        Some(end) => if end > b.len() as u64 || end <= start as u64 {
            None
        } else {
            level_layout(raw, end as usize)
        },
        None => None,
    }
}

} // verus!
