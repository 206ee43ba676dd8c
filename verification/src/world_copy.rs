//! World summaries: the entries shown for a world's players and guilds.

use vstd::prelude::*;
use crate::le::{i32_at, i32_le, read_i32_at};
use crate::guid::{byte_text, guid_std, guid_text};
use crate::identity::{any_struct_fields_of, field, field_value, raw_data, raw_data_bytes};
use crate::ownership::struct_guid;
use crate::prop_tree::{entries_model, fields_model, tree_model, trees_model, PropModel, PropTree, StructModel, StructNode};
use crate::models::{GuildEntry, PlayerEntry};
use crate::text::push_char;
use crate::unicode::{char_from_u32, is_unicode_scalar, string_from_utf8_lossy, utf8_lossy, utf16_encode};
use crate::guild_write::{fstr, fstring_fits, units_le};
use vstd::utf8::{decode_utf8, encode_utf8, is_ascii_chars, valid_utf8};

verus! {

/// The character a guild name's UTF-16 unit stands for on its own: the
/// unit's character, or U+FFFD for a surrogate.
pub open spec fn unit_char(u: u16) -> char {
    if is_unicode_scalar(u as int) {
        (u as u32) as char
    } else {
        '\u{FFFD}'
    }
}

/// The little-endian `u16` at offset `p`.
pub open spec fn u16_at(b: Seq<u8>, p: int) -> u16 {
    (b[p] as int + 256 * (b[p + 1] as int)) as u16
}

/// The guild name a guild blob shows in a summary: the FString after the
/// 16-byte group id, read leniently. A non-negative length `l` is `l` bytes of
/// UTF-8 (invalid sequences replaced); a negative length `l` is `-(l + 1)`
/// UTF-16 units, each read on its own. A blob too short for what it announces
/// gives the empty name.
pub open spec fn guild_name_text(b: Seq<u8>) -> Seq<char> {
    if b.len() < 20 {
        Seq::empty()
    } else {
        let l = i32_at(b, 16) as int;
        if l >= 0 {
            if 20 + l > b.len() {
                Seq::empty()
            } else {
                utf8_lossy(b.subrange(20, 20 + l))
            }
        } else {
            let units = -(l + 1);
            if 20 + 2 * units > b.len() {
                Seq::empty()
            } else {
                Seq::new(units as nat, |k: int| unit_char(u16_at(b, 20 + 2 * k)))
            }
        }
    }
}

/// Text whose characters each fit one UTF-16 unit.
pub open spec fn in_bmp(s: Seq<char>) -> bool {
    forall|i: int| 0 <= i < s.len() ==> (#[trigger] s[i] as u32) < 0x10000
}

proof fn lemma_bmp_units(s: Seq<char>)
    requires
        in_bmp(s),
    ensures
        utf16_encode(s) == Seq::new(s.len(), |i: int| (s[i] as u32) as u16),
    decreases s.len(),
{
    if s.len() > 0 {
        let d = s.drop_last();
        assert(in_bmp(d)) by {
            assert forall|i: int| 0 <= i < d.len() implies (#[trigger] d[i] as u32) < 0x10000 by {
                assert(d[i] == s[i]);
            }
        }
        lemma_bmp_units(d);
        assert((s.last() as u32) < 0x10000);
        assert(utf16_encode(s) =~= Seq::new(s.len(), |i: int| (s[i] as u32) as u16));
    }
}

/// A guild name written by the guild codec as UTF-16 (text that is not all
/// ASCII, each character one unit) is the name a summary shows: the units
/// are read little-endian, as they were written.
pub proof fn lemma_guild_name_reads_written_name(g: Seq<u8>, s: Seq<char>, rest: Seq<u8>)
    requires
        g.len() == 16,
        !is_ascii_chars(s),
        fstring_fits(s),
        in_bmp(s),
    ensures
        guild_name_text(g + fstr(s) + rest) == s,
{
    let u = utf16_encode(s);
    lemma_bmp_units(s);
    let n = u.len();
    let x = (-(n + 1)) as i32;
    assert(x == -(n + 1));
    let b = g + fstr(s) + rest;
    assert(fstr(s) == i32_le(x) + units_le(u) + seq![0u8, 0u8]);
    crate::le::lemma_i32_le(x);
    assert(b.subrange(16, 20) =~= i32_le(x));
    assert(i32_at(b, 16) == x);
    assert(b.len() >= 20 + 2 * n);
    assert forall|j: int| 0 <= j < 2 * n implies b[20 + j] == #[trigger] units_le(u)[j] by {
        assert(b[20 + j] == (g + fstr(s))[20 + j]);
        assert(fstr(s)[4 + j] == units_le(u)[j]);
    }
    let t = guild_name_text(b);
    assert forall|k: int| 0 <= k < n implies #[trigger] t[k] == s[k] by {
        let v = s[k] as u32;
        assert(v < 0x10000);
        let w = u[k];
        assert(w == v as u16);
        assert(w as int == v as int);
        assert(b[20 + 2 * k] == units_le(u)[2 * k]);
        assert(b[20 + 2 * k + 1] == units_le(u)[2 * k + 1]);
        assert(units_le(u)[2 * k] == (w % 256) as u8);
        assert(units_le(u)[2 * k + 1] == (w / 256) as u8);
        assert(u16_at(b, 20 + 2 * k) == w);
        vstd::utf8::char_is_scalar(s[k]);
        vstd::utf8::char_u32_cast(s[k], v);
        assert(is_unicode_scalar(w as int));
        assert(unit_char(w) == s[k]);
    }
    assert(t =~= s);
}

/// The bytes of a guild blob whose name the guild codec wrote as ASCII:
/// the length field counts the name and its NUL, and the name's bytes with
/// the NUL follow it.
pub proof fn lemma_ascii_name_bytes(g: Seq<u8>, s: Seq<char>, rest: Seq<u8>)
    requires
        g.len() == 16,
        is_ascii_chars(s),
        fstring_fits(s),
    ensures
        ({
            let b = g + fstr(s) + rest;
            &&& b.len() >= 21 + s.len()
            &&& i32_at(b, 16) == s.len() + 1
            &&& b.subrange(20, 21 + s.len() as int) == encode_utf8(s.push('\0'))
            &&& valid_utf8(encode_utf8(s.push('\0')))
            &&& decode_utf8(encode_utf8(s.push('\0'))) == s.push('\0')
        }),
{
    let b = g + fstr(s) + rest;
    let n = s.len();
    let x = (n + 1) as i32;
    let t = s.push('\0');
    vstd::utf8::is_ascii_chars_encode_utf8(s);
    assert(is_ascii_chars(t)) by {
        assert forall|i: int| 0 <= i < t.len() implies '\0' <= #[trigger] t[i] <= '\u{7f}' by {
            if i < n {
                assert(t[i] == s[i]);
            }
        }
    }
    vstd::utf8::is_ascii_chars_encode_utf8(t);
    assert(fstr(s) == i32_le(x) + encode_utf8(s) + seq![0u8]);
    crate::le::lemma_i32_le(x);
    assert(b.subrange(16, 20) =~= i32_le(x));
    assert(b.subrange(20, 21 + n as int) =~= encode_utf8(t)) by {
        assert forall|j: int| 0 <= j < n + 1 implies b.subrange(20, 21 + n as int)[j] == encode_utf8(t)[j] by {
            assert(b[20 + j] == fstr(s)[4 + j]);
            if j < n {
                assert(fstr(s)[4 + j] == encode_utf8(s)[j]);
                assert(t[j] == s[j]);
            } else {
                assert(fstr(s)[4 + j] == 0u8);
                assert(t[j] == '\0');
            }
        }
    }
    vstd::utf8::encode_utf8_valid_utf8(t);
    vstd::utf8::encode_utf8_decode_utf8(t);
}

/// The guild name a guild blob shows in a summary (see `guild_name_text`);
/// never fails, a malformed blob gives the empty name.
pub fn decode_guild_name(bytes: &[u8]) -> (r: String)
    ensures
        r@ == guild_name_text(bytes@),
        forall|g: Seq<u8>, s: Seq<char>, rest: Seq<u8>|
            #![trigger fstr(s), g + fstr(s) + rest]
            g.len() == 16 && !is_ascii_chars(s) && fstring_fits(s) && in_bmp(s) && bytes@ == g + fstr(s) + rest ==> r@ == s,
        forall|g: Seq<u8>, s: Seq<char>, rest: Seq<u8>|
            #![trigger fstr(s), g + fstr(s) + rest]
            g.len() == 16 && is_ascii_chars(s) && fstring_fits(s) && bytes@ == g + fstr(s) + rest ==> r@ == s.push('\0'),
{
    proof {
        assert forall|g: Seq<u8>, s: Seq<char>, rest: Seq<u8>|
            #![trigger fstr(s), g + fstr(s) + rest]
            g.len() == 16 && is_ascii_chars(s) && fstring_fits(s) && bytes@ == g + fstr(s) + rest implies {
                &&& bytes@.len() >= 21 + s.len()
                &&& i32_at(bytes@, 16) == s.len() + 1
                &&& bytes@.subrange(20, 21 + s.len() as int) == encode_utf8(s.push('\0'))
                &&& valid_utf8(encode_utf8(s.push('\0')))
                &&& decode_utf8(encode_utf8(s.push('\0'))) == s.push('\0')
            } by {
            lemma_ascii_name_bytes(g, s, rest);
        }
    }
    proof {
        assert forall|g: Seq<u8>, s: Seq<char>, rest: Seq<u8>|
            #![trigger fstr(s), g + fstr(s) + rest]
            g.len() == 16 && !is_ascii_chars(s) && fstring_fits(s) && in_bmp(s) && bytes@ == g + fstr(s) + rest implies guild_name_text(bytes@) == s by {
            lemma_guild_name_reads_written_name(g, s, rest);
        }
    }
    let n = bytes.len();
    if n < 20 {
        return String::new();
    }
    let l = read_i32_at(bytes, 16);
    if l >= 0 {
        let len = l as usize;
        if len > n - 20 {
            return String::new();
        }
        let slice = &bytes[20..20 + len];
        assert(slice@ =~= bytes@.subrange(20, 20 + len));
        return string_from_utf8_lossy(slice);
    }
    let units = (-(l as i64) - 1) as u64;
    if units > ((n - 20) / 2) as u64 {
        assert(20 + 2 * units > n) by (nonlinear_arith)
            requires
                units > (n - 20) / 2,
                n >= 20,
        ;
        return String::new();
    }
    assert(20 + 2 * units <= n) by (nonlinear_arith)
        requires
            units <= (n - 20) / 2,
            n >= 20,
    ;
    let units = units as usize;
    let mut s = String::new();
    let mut k: usize = 0;
    while k < units
        invariant
            n == bytes@.len(),
            20 + 2 * units <= n,
            k <= units,
            s@ == Seq::new(k as nat, |j: int| unit_char(u16_at(bytes@, 20 + 2 * j))),
        decreases units - k,
    {
        let p = 20 + 2 * k;
        let u: u16 = (bytes[p] as u16) + 256 * (bytes[p + 1] as u16);
        assert(u == u16_at(bytes@, p as int));
        let c = match char_from_u32(u as u32) {
            Some(c) => c,
            None => '\u{FFFD}',
        };
        proof {
            if is_unicode_scalar(u as int) {
                vstd::utf8::char_u32_cast(c, u as u32);
            }
        }
        assert(c == unit_char(u));
        push_char(&mut s, c);
        assert(s@ =~= Seq::new((k + 1) as nat, |j: int| unit_char(u16_at(bytes@, 20 + 2 * j))));
        k = k + 1;
    }
    s
}

/// The summary entry of a guild: its id and the name its blob shows, when
/// the guild has a blob.
pub fn guild_entry(guild_id: String, raw: Option<&[u8]>) -> (r: GuildEntry)
    ensures
        r.guild_id@ == guild_id@,
        r.name@ == match raw {
            Some(b) => guild_name_text(b@),
            None => Seq::empty(),
        },
        r.admin_player_uid@.len() == 0,
        r.players@.len() == 0,
        r.handle_ids@.len() == 0,
{
    let name = match raw {
        Some(b) => decode_guild_name(b),
        None => String::new(),
    };
    GuildEntry {
        guild_id,
        name,
        admin_player_uid: String::new(),
        players: Vec::new(),
        handle_ids: Vec::new(),
    }
}

/// The summary entry of a player read from the world: uid and instance id as
/// text, nickname and level; the rest is left empty.
pub fn player_entry(player_uid: &[u8; 16], instance_id: &[u8; 16], nickname: String, level: u32) -> (r: PlayerEntry)
    ensures
        r.player_uid@ == guid_text(player_uid@),
        r.instance_id@ == guid_text(instance_id@),
        r.guid@ == guid_text(player_uid@),
        r.nickname@ == nickname@,
        r.level == level,
        r.guild_id is None,
        r.pal_count == 0,
        r.last_online@.len() == 0,
        !r.is_host,
{
    PlayerEntry {
        player_uid: guid_std(player_uid),
        instance_id: guid_std(instance_id),
        guid: guid_std(player_uid),
        nickname,
        level,
        guild_id: None,
        pal_count: 0,
        last_online: String::new(),
        is_host: false,
    }
}

/// The text `gvas` shows for a GUID: `0` for the zero GUID, otherwise its
/// sixteen bytes in order as upper-case hexadecimal, grouped 4-2-2-2-6 with
/// hyphens.
pub open spec fn gvas_guid_text(g: Seq<u8>) -> Seq<char> {
    if g == Seq::new(16, |i: int| 0u8) {
        seq!['0']
    } else {
        byte_text(g[0]) + byte_text(g[1]) + byte_text(g[2]) + byte_text(g[3]) + seq!['-'] + byte_text(g[4])
            + byte_text(g[5]) + seq!['-'] + byte_text(g[6]) + byte_text(g[7]) + seq!['-'] + byte_text(g[8])
            + byte_text(g[9]) + seq!['-'] + byte_text(g[10]) + byte_text(g[11]) + byte_text(g[12]) + byte_text(
            g[13],
        ) + byte_text(g[14]) + byte_text(g[15])
    }
}

/// The text of a GUID as `gvas` shows it: calls `to_string` on
/// `gvas::types::Guid` (its `Display`), which writes `0` for the zero GUID
/// and otherwise the sixteen bytes as `{:02X}`, hyphens after the 4th, 6th,
/// 8th and 10th.
#[verifier::external_body]
fn guid_display(g: &[u8; 16]) -> (r: String)
    ensures
        r@ == gvas_guid_text(g@),
{
    gvas::types::Guid::from_u8(*g).to_string()
}

/// The struct value of a struct property or bare struct value.
pub open spec fn struct_of(m: PropModel) -> Option<StructModel> {
    match m {
        PropModel::Struct(_, _, v) => Some(v),
        PropModel::Value(v) => Some(v),
        _ => None,
    }
}

/// The GUID of the first field whose first property holds a GUID.
pub open spec fn first_guid_field(f: Seq<(Seq<char>, Seq<PropModel>)>) -> Option<Seq<u8>>
    decreases f.len(),
{
    if f.len() == 0 {
        None
    } else if f[0].1.len() > 0 && struct_guid(f[0].1[0]) is Some {
        struct_guid(f[0].1[0])
    } else {
        first_guid_field(f.subrange(1, f.len() as int))
    }
}

/// The GUID of the field `name`, when its first property holds one.
pub open spec fn named_guid(f: Seq<(Seq<char>, Seq<PropModel>)>, name: Seq<char>) -> Option<Seq<u8>> {
    match field_value(f, name) {
        Some(p) => struct_guid(p),
        None => None,
    }
}

/// The GUID a map key names: a GUID key itself; of a custom-struct key, its
/// `GroupId`, `InstanceId` or `PlayerUId` (the first present), else its
/// first field holding a GUID.
pub open spec fn key_guid_of(m: PropModel) -> Option<Seq<u8>> {
    match struct_of(m) {
        Some(StructModel::Guid(g)) => Some(g),
        Some(StructModel::Custom(f)) => if named_guid(f, "GroupId"@) is Some {
            named_guid(f, "GroupId"@)
        } else if named_guid(f, "InstanceId"@) is Some {
            named_guid(f, "InstanceId"@)
        } else if named_guid(f, "PlayerUId"@) is Some {
            named_guid(f, "PlayerUId"@)
        } else {
            first_guid_field(f)
        },
        _ => None,
    }
}

pub(crate) fn guid_of_prop(p: &PropTree) -> (r: Option<[u8; 16]>)
    ensures
        match struct_guid(tree_model(*p)) {
            Some(g) => r matches Some(x) && x@ == g,
            None => r is None,
        },
{
    match p {
        PropTree::Struct { value: StructNode::Guid(g), .. } => Some(*g),
        PropTree::Value(StructNode::Guid(g)) => Some(*g),
        _ => None,
    }
}

pub(crate) fn named_guid_of(f: &Vec<(String, Vec<PropTree>)>, name: &str) -> (r: Option<[u8; 16]>)
    ensures
        match named_guid(fields_model(f@), name@) {
            Some(g) => r matches Some(x) && x@ == g,
            None => r is None,
        },
{
    match field(f, name) {
        Some(p) => guid_of_prop(p),
        None => None,
    }
}

fn first_guid_field_of(f: &Vec<(String, Vec<PropTree>)>) -> (r: Option<[u8; 16]>)
    ensures
        match first_guid_field(fields_model(f@)) {
            Some(g) => r matches Some(x) && x@ == g,
            None => r is None,
        },
{
    let ghost m = fields_model(f@);
    let mut i: usize = 0;
    assert(m.subrange(0, m.len() as int) =~= m);
    while i < f.len()
        invariant
            m == fields_model(f@),
            i <= f@.len(),
            first_guid_field(m) == first_guid_field(m.subrange(i as int, m.len() as int)),
        decreases f@.len() - i,
    {
        let ghost rest = m.subrange(i as int, m.len() as int);
        assert(rest.subrange(1, rest.len() as int) =~= m.subrange(i + 1, m.len() as int));
        assert(rest[0] == (f@[i as int].0@, trees_model(f@[i as int].1@)));
        if f[i].1.len() > 0 {
            assert(rest[0].1[0] == tree_model(f@[i as int].1@[0]));
            match guid_of_prop(&f[i].1[0]) {
                Some(g) => return Some(g),
                None => {},
            }
        }
        i = i + 1;
    }
    None
}

/// The GUID text a map key names (see `key_guid_of`), as `gvas` shows GUIDs;
/// empty when it names none.
pub fn extract_key_guid(k: &PropTree) -> (r: String)
    ensures
        r@ == match key_guid_of(tree_model(*k)) {
            Some(g) => gvas_guid_text(g),
            None => Seq::empty(),
        },
{
    let g = match k {
        PropTree::Struct { value: StructNode::Guid(g), .. } => Some(*g),
        PropTree::Value(StructNode::Guid(g)) => Some(*g),
        _ => match any_struct_fields_of(k) {
            Some(f) => match named_guid_of(f, "GroupId") {
                Some(g) => Some(g),
                None => match named_guid_of(f, "InstanceId") {
                    Some(g) => Some(g),
                    None => match named_guid_of(f, "PlayerUId") {
                        Some(g) => Some(g),
                        None => first_guid_field_of(f),
                    },
                },
            },
            None => None,
        },
    };
    match g {
        Some(x) => guid_display(&x),
        None => String::new(),
    }
}

/// The guild entries of a world's group map, in order: each key's GUID text
/// and the name its `RawData` shows (see `guild_entry`).
pub fn read_guilds_from_map(entries: &Vec<(PropTree, PropTree)>) -> (r: Vec<GuildEntry>)
    ensures
        r@.len() == entries@.len(),
        forall|i: int|
            0 <= i < r@.len() ==> {
                let e = #[trigger] entries_model(entries@)[i];
                &&& r@[i].guild_id@ == match key_guid_of(e.0) {
                    Some(g) => gvas_guid_text(g),
                    None => Seq::empty(),
                }
                &&& r@[i].name@ == match raw_data(e.1) {
                    Some(b) => guild_name_text(b),
                    None => Seq::empty(),
                }
                &&& r@[i].admin_player_uid@.len() == 0
                &&& r@[i].players@.len() == 0
                &&& r@[i].handle_ids@.len() == 0
            },
{
    let ghost m = entries_model(entries@);
    let mut out: Vec<GuildEntry> = Vec::new();
    let mut i: usize = 0;
    while i < entries.len()
        invariant
            m == entries_model(entries@),
            i <= entries@.len(),
            out@.len() == i,
            forall|q: int|
                0 <= q < i ==> {
                    let e = #[trigger] m[q];
                    &&& out@[q].guild_id@ == match key_guid_of(e.0) {
                        Some(g) => gvas_guid_text(g),
                        None => Seq::empty(),
                    }
                    &&& out@[q].name@ == match raw_data(e.1) {
                        Some(b) => guild_name_text(b),
                        None => Seq::empty(),
                    }
                    &&& out@[q].admin_player_uid@.len() == 0
                    &&& out@[q].players@.len() == 0
                    &&& out@[q].handle_ids@.len() == 0
                },
        decreases entries@.len() - i,
    {
        assert(m[i as int] == (tree_model(entries@[i as int].0), tree_model(entries@[i as int].1)));
        let id = extract_key_guid(&entries[i].0);
        let raw = raw_data_bytes(&entries[i].1);
        let entry = match raw {
            Some(b) => guild_entry(id, Some(b.as_slice())),
            None => guild_entry(id, None),
        };
        out.push(entry);
        i = i + 1;
    }
    out
}

} // verus!
