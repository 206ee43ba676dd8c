//! Writing guild blobs, and the law that reading back what was written gives
//! the same guild.

use vstd::prelude::*;
use vstd::utf8::{decode_utf8, encode_utf8, encode_utf8_decode_utf8, encode_utf8_valid_utf8, is_ascii_chars, valid_utf8};
use crate::guild_raw::{
    le_units, rd_bytes, rd_count, rd_fstring, rd_guids, rd_handles, rd_i32, rd_markers, rd_perms,
    rd_players, rd_group, rd_bases, rd_naming, rd_tail, decode_spec, rd_head, rd_tail_any, strip_nul, strip_nul16,
    guids_view, handles_view, markers_view, perms_view, players_view, GuildModel, GuildRaw,
    MarkerModel, PermModel, PlayerModel, TailModel,
};
use crate::le::{i32_at, i32_le, i64_le, le_i32, le_i64, lemma_i32_le, lemma_i64_le, push_i32, push_i64};
use crate::unicode::{encode_utf16, lemma_utf16_round_trip, utf16_decode, utf16_encode};
use crate::world_copy::u16_at;

verus! {

/// The little-endian bytes of the UTF-16 units `u`.
pub open spec fn units_le(u: Seq<u16>) -> Seq<u8> {
    Seq::new(2 * u.len(), |i: int| if i % 2 == 0 { (u[i / 2] % 256) as u8 } else { (u[i / 2] / 256) as u8 })
}

/// Whether the FString of `s` can be written: its length fits in an `i32`.
pub open spec fn fstring_fits(s: Seq<char>) -> bool {
    if is_ascii_chars(s) {
        s.len() + 1 <= i32::MAX
    } else {
        utf16_encode(s).len() + 1 <= i32::MAX
    }
}

/// The FString of `s`: ASCII text as its bytes and a NUL after a positive
/// length, other text as UTF-16 units and a zero unit after a negative one.
pub open spec fn fstr(s: Seq<char>) -> Seq<u8> {
    if is_ascii_chars(s) {
        i32_le((s.len() + 1) as i32) + encode_utf8(s) + seq![0u8]
    } else {
        let u = utf16_encode(s);
        i32_le((-(u.len() + 1)) as i32) + units_le(u) + seq![0u8, 0u8]
    }
}

/// Reading `x + y` at `p` sees `x` first and `y` right after it.
pub proof fn lemma_split(b: Seq<u8>, p: int, x: Seq<u8>, y: Seq<u8>)
    requires
        0 <= p,
        p + x.len() + y.len() <= b.len(),
        b.subrange(p, p + x.len() + y.len()) == x + y,
    ensures
        b.subrange(p, p + x.len()) == x,
        b.subrange(p + x.len(), p + x.len() + y.len()) == y,
{
    assert(b.subrange(p, p + x.len()) =~= (x + y).subrange(0, x.len() as int));
    assert(b.subrange(p + x.len(), p + x.len() + y.len()) =~= (x + y).subrange(x.len() as int, (x.len() + y.len()) as int));
    assert((x + y).subrange(0, x.len() as int) =~= x);
    assert((x + y).subrange(x.len() as int, (x.len() + y.len()) as int) =~= y);
}

/// The `i32` written at `p` is read back.
pub proof fn lemma_rd_i32(b: Seq<u8>, p: int, v: i32)
    requires
        0 <= p,
        p + 4 <= b.len(),
        b.subrange(p, p + 4) == i32_le(v),
    ensures
        rd_i32(b, p) == Some((v, p + 4)),
{
    lemma_i32_le(v);
}

/// A count written at `p`, with at least that many bytes after it, is read back.
pub proof fn lemma_rd_count(b: Seq<u8>, p: int, n: nat)
    requires
        0 <= p,
        n <= i32::MAX,
        p + 4 + n <= b.len(),
        b.subrange(p, p + 4) == i32_le(n as i32),
    ensures
        rd_count(b, p) == Some((n, p + 4)),
{
    lemma_rd_i32(b, p, n as i32);
}

/// The little-endian units of written UTF-16 units are those units.
proof fn lemma_units_le(u: Seq<u16>)
    ensures
        le_units(units_le(u)) == u,
{
    let raw = units_le(u);
    assert forall|k: int| 0 <= k < u.len() implies #[trigger] le_units(raw)[k] == u[k] by {
        let x = u[k];
        assert(raw[2 * k] == (x % 256) as u8);
        assert(raw[2 * k + 1] == (x / 256) as u8);
        assert(x % 256 + 256 * (x / 256) == x);
    }
    assert(le_units(raw) =~= u);
}

/// An FString written at `p` is read back.
pub proof fn lemma_rd_fstring(b: Seq<u8>, p: int, s: Seq<char>)
    requires
        0 <= p,
        fstring_fits(s),
        p + fstr(s).len() <= b.len(),
        b.subrange(p, p + fstr(s).len()) == fstr(s),
    ensures
        rd_fstring(b, p) == Some((s, p + fstr(s).len())),
{
    if is_ascii_chars(s) {
        let l = (s.len() + 1) as i32;
        let body = encode_utf8(s) + seq![0u8];
        vstd::utf8::is_ascii_chars_encode_utf8(s);
        assert(fstr(s) =~= i32_le(l) + body);
        lemma_i32_le(l);
        lemma_split(b, p, i32_le(l), body);
        lemma_rd_i32(b, p, l);
        assert(body.len() == l);
        assert(strip_nul(body) =~= encode_utf8(s));
        encode_utf8_valid_utf8(s);
        encode_utf8_decode_utf8(s);
    } else {
        let u = utf16_encode(s);
        let l = (-(u.len() + 1)) as i32;
        let body = units_le(u) + seq![0u8, 0u8];
        assert(fstr(s) =~= i32_le(l) + body);
        lemma_i32_le(l);
        lemma_split(b, p, i32_le(l), body);
        lemma_rd_i32(b, p, l);
        assert(l != 0 && l < 0 && l != i32::MIN);
        assert(body.len() == -2 * (l as int));
        assert(units_le(u.push(0u16)) =~= body);
        lemma_units_le(u.push(0u16));
        assert(strip_nul16(u.push(0u16)) =~= u);
        lemma_utf16_round_trip(s);
    }
}

/// The GUIDs `gs`, one after another.
pub open spec fn enc_guids(gs: Seq<Seq<u8>>) -> Seq<u8>
    decreases gs.len(),
{
    if gs.len() == 0 {
        Seq::empty()
    } else {
        enc_guids(gs.drop_last()) + gs.last()
    }
}

/// The handles `hs`, one after another.
pub open spec fn enc_handles(hs: Seq<(Seq<u8>, Seq<u8>)>) -> Seq<u8>
    decreases hs.len(),
{
    if hs.len() == 0 {
        Seq::empty()
    } else {
        enc_handles(hs.drop_last()) + hs.last().0 + hs.last().1
    }
}

/// One marker.
pub open spec fn enc_marker(m: MarkerModel) -> Seq<u8> {
    m.id + m.location + i32_le(m.icon) + m.owner
}

/// The markers `ms`, one after another.
pub open spec fn enc_markers(ms: Seq<MarkerModel>) -> Seq<u8>
    decreases ms.len(),
{
    if ms.len() == 0 {
        Seq::empty()
    } else {
        enc_markers(ms.drop_last()) + enc_marker(ms.last())
    }
}

/// One member, with its role byte in the newer revision.
pub open spec fn enc_player(m: PlayerModel, v2: bool) -> Seq<u8> {
    let front = m.uid + i64_le(m.last_online) + fstr(m.name);
    if v2 {
        front + seq![m.role->0]
    } else {
        front
    }
}

/// The members `ps`, one after another.
pub open spec fn enc_players(ps: Seq<PlayerModel>, v2: bool) -> Seq<u8>
    decreases ps.len(),
{
    if ps.len() == 0 {
        Seq::empty()
    } else {
        enc_players(ps.drop_last(), v2) + enc_player(ps.last(), v2)
    }
}

/// One role's permissions.
pub open spec fn enc_perm(r: PermModel) -> Seq<u8> {
    seq![r.role] + i32_le(r.permissions.len() as i32) + r.permissions
}

/// The role permissions `rs`, one after another.
pub open spec fn enc_perms(rs: Seq<PermModel>) -> Seq<u8>
    decreases rs.len(),
{
    if rs.len() == 0 {
        Seq::empty()
    } else {
        enc_perms(rs.drop_last()) + enc_perm(rs.last())
    }
}

/// Every GUID is 16 bytes.
pub open spec fn guids_wf(gs: Seq<Seq<u8>>) -> bool {
    forall|i: int| 0 <= i < gs.len() ==> (#[trigger] gs[i]).len() == 16
}

/// Every handle is two 16-byte ids.
pub open spec fn handles_wf(hs: Seq<(Seq<u8>, Seq<u8>)>) -> bool {
    forall|i: int| 0 <= i < hs.len() ==> (#[trigger] hs[i]).0.len() == 16 && hs[i].1.len() == 16
}

/// Every marker has its fixed field sizes.
pub open spec fn markers_wf(ms: Seq<MarkerModel>) -> bool {
    forall|i: int|
        0 <= i < ms.len() ==> (#[trigger] ms[i]).id.len() == 16 && ms[i].location.len() == 24
            && ms[i].owner.len() == 16
}

/// Every member has a 16-byte uid and a writable name, and a role exactly in
/// the newer revision.
pub open spec fn players_wf(ps: Seq<PlayerModel>, v2: bool) -> bool {
    forall|i: int|
        0 <= i < ps.len() ==> (#[trigger] ps[i]).uid.len() == 16 && fstring_fits(ps[i].name) && (
        ps[i].role is Some <==> v2)
}

/// Every permission list has a count that fits in an `i32`.
pub open spec fn perms_wf(rs: Seq<PermModel>) -> bool {
    forall|i: int| 0 <= i < rs.len() ==> (#[trigger] rs[i]).permissions.len() <= i32::MAX
}

pub proof fn lemma_rd_guids(b: Seq<u8>, p: int, gs: Seq<Seq<u8>>)
    requires
        guids_wf(gs),
        0 <= p,
        p + enc_guids(gs).len() <= b.len(),
        b.subrange(p, p + enc_guids(gs).len()) == enc_guids(gs),
    ensures
        enc_guids(gs).len() == 16 * gs.len(),
        rd_guids(b, p, gs.len()) == Some((gs, p + enc_guids(gs).len())),
    decreases gs.len(),
{
    if gs.len() > 0 {
        let init = gs.drop_last();
        assert(guids_wf(init)) by {
            assert forall|i: int| 0 <= i < init.len() implies (#[trigger] init[i]).len() == 16 by {
                assert(init[i] == gs[i]);
            }
        }
        assert(gs.last() == gs[gs.len() - 1]);
        lemma_split(b, p, enc_guids(init), gs.last());
        lemma_rd_guids(b, p, init);
        assert(init.push(gs.last()) =~= gs);
    }
}

pub proof fn lemma_rd_handles(b: Seq<u8>, p: int, hs: Seq<(Seq<u8>, Seq<u8>)>)
    requires
        handles_wf(hs),
        0 <= p,
        p + enc_handles(hs).len() <= b.len(),
        b.subrange(p, p + enc_handles(hs).len()) == enc_handles(hs),
    ensures
        enc_handles(hs).len() == 32 * hs.len(),
        rd_handles(b, p, hs.len()) == Some((hs, p + enc_handles(hs).len())),
    decreases hs.len(),
{
    if hs.len() > 0 {
        let init = hs.drop_last();
        assert(handles_wf(init)) by {
            assert forall|i: int| 0 <= i < init.len() implies (#[trigger] init[i]).0.len() == 16 && init[i].1.len() == 16 by {
                assert(init[i] == hs[i]);
            }
        }
        let h = hs.last();
        assert(h == hs[hs.len() - 1]);
        let pair = h.0 + h.1;
        assert(enc_handles(hs) =~= enc_handles(init) + pair);
        lemma_split(b, p, enc_handles(init), pair);
        lemma_rd_handles(b, p, init);
        let q = p + enc_handles(init).len();
        assert(b.subrange(q, q + 32).subrange(0, 16) =~= h.0);
        assert(b.subrange(q, q + 32).subrange(16, 32) =~= h.1);
        assert(init.push(h) =~= hs);
    }
}

pub proof fn lemma_rd_markers(b: Seq<u8>, p: int, ms: Seq<MarkerModel>)
    requires
        markers_wf(ms),
        0 <= p,
        p + enc_markers(ms).len() <= b.len(),
        b.subrange(p, p + enc_markers(ms).len()) == enc_markers(ms),
    ensures
        enc_markers(ms).len() == 60 * ms.len(),
        rd_markers(b, p, ms.len()) == Some((ms, p + enc_markers(ms).len())),
    decreases ms.len(),
{
    if ms.len() > 0 {
        let init = ms.drop_last();
        assert(markers_wf(init)) by {
            assert forall|i: int| 0 <= i < init.len() implies (#[trigger] init[i]).id.len() == 16 && init[i].location.len() == 24 && init[i].owner.len() == 16 by {
                assert(init[i] == ms[i]);
            }
        }
        let m = ms.last();
        assert(m == ms[ms.len() - 1]);
        lemma_i32_le(m.icon);
        lemma_split(b, p, enc_markers(init), enc_marker(m));
        lemma_rd_markers(b, p, init);
        let q = p + enc_markers(init).len();
        lemma_split(b, q, m.id + m.location + i32_le(m.icon), m.owner);
        lemma_split(b, q, m.id + m.location, i32_le(m.icon));
        lemma_split(b, q, m.id, m.location);
        assert(init.push(m) =~= ms);
    }
}

pub proof fn lemma_rd_players(b: Seq<u8>, p: int, ps: Seq<PlayerModel>, v2: bool)
    requires
        players_wf(ps, v2),
        0 <= p,
        p + enc_players(ps, v2).len() <= b.len(),
        b.subrange(p, p + enc_players(ps, v2).len()) == enc_players(ps, v2),
    ensures
        enc_players(ps, v2).len() >= ps.len(),
        rd_players(b, p, ps.len(), v2) == Some((ps, p + enc_players(ps, v2).len())),
    decreases ps.len(),
{
    if ps.len() > 0 {
        let init = ps.drop_last();
        assert(players_wf(init, v2)) by {
            assert forall|i: int| 0 <= i < init.len() implies (#[trigger] init[i]).uid.len() == 16 && fstring_fits(init[i].name) && (init[i].role is Some <==> v2) by {
                assert(init[i] == ps[i]);
            }
        }
        let m = ps.last();
        assert(m == ps[ps.len() - 1]);
        lemma_split(b, p, enc_players(init, v2), enc_player(m, v2));
        lemma_rd_players(b, p, init, v2);
        let q = p + enc_players(init, v2).len();
        let front = m.uid + i64_le(m.last_online) + fstr(m.name);
        lemma_i64_le(m.last_online);
        if v2 {
            lemma_split(b, q, front, seq![m.role->0]);
        }
        lemma_split(b, q, m.uid + i64_le(m.last_online), fstr(m.name));
        lemma_split(b, q, m.uid, i64_le(m.last_online));
        lemma_rd_fstring(b, q + 24, m.name);
        assert(b.subrange(q + 16, q + 24).subrange(0, 8) =~= i64_le(m.last_online).subrange(0, 8));
        assert(i64_le(m.last_online).subrange(0, 8) =~= i64_le(m.last_online));
        assert(le_i64(b.subrange(q + 16, q + 24)) == m.last_online);
        if v2 {
            let r = q + front.len();
            assert(b[r] == b.subrange(r, r + 1)[0]);
            assert(b[r] == m.role->0);
        }
        assert(init.push(m) =~= ps);
    }
}

pub proof fn lemma_rd_perms(b: Seq<u8>, p: int, rs: Seq<PermModel>)
    requires
        perms_wf(rs),
        0 <= p,
        p + enc_perms(rs).len() <= b.len(),
        b.subrange(p, p + enc_perms(rs).len()) == enc_perms(rs),
    ensures
        enc_perms(rs).len() >= rs.len(),
        rd_perms(b, p, rs.len()) == Some((rs, p + enc_perms(rs).len())),
    decreases rs.len(),
{
    if rs.len() > 0 {
        let init = rs.drop_last();
        assert(perms_wf(init)) by {
            assert forall|i: int| 0 <= i < init.len() implies (#[trigger] init[i]).permissions.len() <= i32::MAX by {
                assert(init[i] == rs[i]);
            }
        }
        let m = rs.last();
        assert(m == rs[rs.len() - 1]);
        lemma_split(b, p, enc_perms(init), enc_perm(m));
        lemma_rd_perms(b, p, init);
        let q = p + enc_perms(init).len();
        let n = m.permissions.len();
        lemma_i32_le(n as i32);
        lemma_split(b, q, seq![m.role] + i32_le(n as i32), m.permissions);
        lemma_split(b, q, seq![m.role], i32_le(n as i32));
        lemma_rd_count(b, q + 1, n);
        assert(b[q] == b.subrange(q, q + 1)[0]);
        assert(init.push(m) =~= rs);
    }
}

/// The group part: group id, group name, handles, org type, leading bytes.
pub open spec fn enc_group(g: GuildModel) -> Seq<u8> {
    g.group_id + fstr(g.group_name) + i32_le(g.handles.len() as i32) + enc_handles(g.handles)
        + seq![g.org_type] + g.leading
}

/// The base part: base ids, reserved value, level, base point ids.
pub open spec fn enc_bases(g: GuildModel) -> Seq<u8> {
    i32_le(g.base_ids.len() as i32) + enc_guids(g.base_ids) + i32_le(g.unknown_1) + i32_le(g.level)
        + i32_le(g.base_points.len() as i32) + enc_guids(g.base_points)
}

/// The naming part: guild name, last modifier, markers.
pub open spec fn enc_naming(g: GuildModel) -> Seq<u8> {
    fstr(g.guild_name) + g.last_modifier + i32_le(g.markers.len() as i32) + enc_markers(g.markers)
}

/// The tail; it is of the newer revision exactly when it has chest roles.
pub open spec fn enc_tail(t: TailModel) -> Seq<u8> {
    let v2 = t.chest_roles is Some;
    let front = match t.chest_roles {
        Some(r) => i32_le(r.len() as i32) + r + i32_le(t.unknown_i32->0),
        None => Seq::empty(),
    };
    let back = if v2 {
        i32_le(t.perms.len() as i32) + enc_perms(t.perms)
    } else {
        Seq::empty()
    };
    front + t.admin + i32_le(t.players.len() as i32) + enc_players(t.players, v2) + back + t.trailing
}

/// The bytes of the guild `g`.
pub open spec fn enc_guild(g: GuildModel) -> Seq<u8> {
    enc_group(g) + enc_bases(g) + enc_naming(g) + enc_tail(g.tail)
}

/// Whether the group part of `g` can be written.
pub open spec fn group_writable(g: GuildModel) -> bool {
    fstring_fits(g.group_name) && g.handles.len() <= i32::MAX
}

/// Whether the base part of `g` can be written.
pub open spec fn bases_writable(g: GuildModel) -> bool {
    g.base_ids.len() <= i32::MAX && g.base_points.len() <= i32::MAX
}

/// Whether the naming part of `g` can be written.
pub open spec fn naming_writable(g: GuildModel) -> bool {
    fstring_fits(g.guild_name) && g.markers.len() <= i32::MAX
}

/// Whether the tail `t` can be written: counts and names fit, and in the
/// newer revision the reserved value and every member's role are present.
pub open spec fn tail_writable(t: TailModel) -> bool {
    let v2 = t.chest_roles is Some;
    &&& (t.chest_roles matches Some(r) ==> r.len() <= i32::MAX && t.unknown_i32 is Some)
    &&& t.players.len() <= i32::MAX
    &&& (forall|i: int| 0 <= i < t.players.len() ==> fstring_fits(#[trigger] t.players[i].name))
    &&& (v2 ==> forall|i: int| 0 <= i < t.players.len() ==> (#[trigger] t.players[i]).role is Some)
    &&& (v2 ==> t.perms.len() <= i32::MAX && perms_wf(t.perms))
}

/// Whether `g` can be written: every count and string length fits in an
/// `i32`, and a guild of the newer revision has its reserved value and a
/// role for every member.
pub open spec fn guild_writable(g: GuildModel) -> bool {
    group_writable(g) && bases_writable(g) && naming_writable(g) && tail_writable(g.tail)
}

/// The fixed field sizes of a guild: 16-byte ids, 4 leading and 4 trailing
/// bytes, 24-byte marker locations.
pub open spec fn guild_sizes(g: GuildModel) -> bool {
    &&& g.group_id.len() == 16
    &&& handles_wf(g.handles)
    &&& g.leading.len() == 4
    &&& guids_wf(g.base_ids)
    &&& guids_wf(g.base_points)
    &&& g.last_modifier.len() == 16
    &&& markers_wf(g.markers)
    &&& g.tail.admin.len() == 16
    &&& (forall|i: int| 0 <= i < g.tail.players.len() ==> (#[trigger] g.tail.players[i]).uid.len() == 16)
    &&& g.tail.trailing.len() == 4
}

/// The revision of the tail is consistent: the older revision has no
/// reserved value, no member roles and no role permissions.
pub open spec fn tail_consistent(t: TailModel) -> bool {
    t.chest_roles is None ==> (t.unknown_i32 is None && t.perms.len() == 0 && forall|i: int|
        0 <= i < t.players.len() ==> (#[trigger] t.players[i]).role is None)
}

pub proof fn lemma_rd_group(b: Seq<u8>, g: GuildModel)
    requires
        guild_sizes(g),
        guild_writable(g),
        enc_group(g).len() <= b.len(),
        b.subrange(0, enc_group(g).len() as int) == enc_group(g),
    ensures
        rd_group(b) == Some((g.group_id, g.group_name, g.handles, g.org_type, g.leading, enc_group(g).len() as int)),
{
    let fs = fstr(g.group_name);
    let cnt = i32_le(g.handles.len() as i32);
    let hs = enc_handles(g.handles);
    let org = seq![g.org_type];
    lemma_i32_le(g.handles.len() as i32);
    lemma_split(b, 0, g.group_id + fs + cnt + hs + org, g.leading);
    lemma_split(b, 0, g.group_id + fs + cnt + hs, org);
    lemma_split(b, 0, g.group_id + fs + cnt, hs);
    lemma_split(b, 0, g.group_id + fs, cnt);
    lemma_split(b, 0, g.group_id, fs);
    lemma_rd_fstring(b, 16, g.group_name);
    let p2: int = 16 + fs.len() as int;
    let p3: int = p2 + 4;
    lemma_rd_handles(b, p3, g.handles);
    lemma_rd_count(b, p2, g.handles.len());
    let p4: int = p3 + hs.len();
    assert(b.subrange(p4, p4 + 5) =~= org + g.leading);
    assert((org + g.leading)[0] == g.org_type);
    assert((org + g.leading).subrange(1, 5) =~= g.leading);
}

pub proof fn lemma_rd_bases(b: Seq<u8>, p: int, g: GuildModel)
    requires
        guild_sizes(g),
        guild_writable(g),
        0 <= p,
        p + enc_bases(g).len() <= b.len(),
        b.subrange(p, p + enc_bases(g).len()) == enc_bases(g),
    ensures
        rd_bases(b, p) == Some((g.base_ids, g.unknown_1, g.level, g.base_points, p + enc_bases(g).len())),
{
    let c1 = i32_le(g.base_ids.len() as i32);
    let ids = enc_guids(g.base_ids);
    let u = i32_le(g.unknown_1);
    let l = i32_le(g.level);
    let c2 = i32_le(g.base_points.len() as i32);
    let pts = enc_guids(g.base_points);
    lemma_i32_le(g.base_ids.len() as i32);
    lemma_i32_le(g.base_points.len() as i32);
    lemma_i32_le(g.unknown_1);
    lemma_i32_le(g.level);
    lemma_split(b, p, c1 + ids + u + l + c2, pts);
    lemma_split(b, p, c1 + ids + u + l, c2);
    lemma_split(b, p, c1 + ids + u, l);
    lemma_split(b, p, c1 + ids, u);
    lemma_split(b, p, c1, ids);
    lemma_rd_guids(b, p + 4, g.base_ids);
    lemma_rd_count(b, p, g.base_ids.len());
    let p7: int = p + 4 + ids.len();
    let ul = b.subrange(p7, p7 + 8);
    assert(ul =~= u + l);
    assert(ul.subrange(0, 4) =~= u);
    assert(ul.subrange(4, 8) =~= l);
    assert(i32_at(ul, 0) == g.unknown_1);
    assert(i32_at(ul, 4) == g.level);
    let p9: int = p7 + 12;
    lemma_rd_guids(b, p9, g.base_points);
    lemma_rd_count(b, p7 + 8, g.base_points.len());
}

pub proof fn lemma_rd_naming(b: Seq<u8>, p: int, g: GuildModel)
    requires
        guild_sizes(g),
        guild_writable(g),
        0 <= p,
        p + enc_naming(g).len() <= b.len(),
        b.subrange(p, p + enc_naming(g).len()) == enc_naming(g),
    ensures
        rd_naming(b, p) == Some((g.guild_name, g.last_modifier, g.markers, p + enc_naming(g).len())),
{
    let fs = fstr(g.guild_name);
    let c = i32_le(g.markers.len() as i32);
    let ms = enc_markers(g.markers);
    lemma_i32_le(g.markers.len() as i32);
    lemma_split(b, p, fs + g.last_modifier + c, ms);
    lemma_split(b, p, fs + g.last_modifier, c);
    lemma_split(b, p, fs, g.last_modifier);
    lemma_rd_fstring(b, p, g.guild_name);
    let p11: int = p + fs.len();
    lemma_rd_markers(b, p11 + 20, g.markers);
    lemma_rd_count(b, p11 + 16, g.markers.len());
}

pub proof fn lemma_rd_tail(b: Seq<u8>, p: int, g: GuildModel)
    requires
        guild_sizes(g),
        guild_writable(g),
        tail_consistent(g.tail),
        0 <= p,
        p + enc_tail(g.tail).len() == b.len(),
        b.subrange(p, b.len() as int) == enc_tail(g.tail),
    ensures
        rd_tail(b, p, g.tail.chest_roles is Some) == Some(g.tail),
{
    let t = g.tail;
    let v2 = t.chest_roles is Some;
    let front = match t.chest_roles {
        Some(r) => i32_le(r.len() as i32) + r + i32_le(t.unknown_i32->0),
        None => Seq::empty(),
    };
    let back = if v2 {
        i32_le(t.perms.len() as i32) + enc_perms(t.perms)
    } else {
        Seq::empty()
    };
    let cp = i32_le(t.players.len() as i32);
    let ps = enc_players(t.players, v2);
    assert(players_wf(t.players, v2)) by {
        assert forall|i: int| 0 <= i < t.players.len() implies (#[trigger] t.players[i]).uid.len() == 16 && fstring_fits(t.players[i].name) && (t.players[i].role is Some <==> v2) by {
            if v2 {
                assert(t.players[i].role is Some);
            }
        }
    }
    lemma_i32_le(t.players.len() as i32);
    assert(enc_tail(t) =~= front + t.admin + cp + ps + back + t.trailing);
    lemma_split(b, p, front + t.admin + cp + ps + back, t.trailing);
    lemma_split(b, p, front + t.admin + cp + ps, back);
    lemma_split(b, p, front + t.admin + cp, ps);
    lemma_split(b, p, front + t.admin, cp);
    lemma_split(b, p, front, t.admin);
    let a: int = p + front.len();
    if v2 {
        let r = t.chest_roles->0;
        lemma_i32_le(r.len() as i32);
        lemma_i32_le(t.unknown_i32->0);
        lemma_split(b, p, i32_le(r.len() as i32) + r, i32_le(t.unknown_i32->0));
        lemma_split(b, p, i32_le(r.len() as i32), r);
        lemma_rd_count(b, p, r.len());
        lemma_rd_i32(b, p + 4 + r.len(), t.unknown_i32->0);
    }
    let s: int = a + 16 + 4 + ps.len();
    lemma_rd_players(b, a + 20, t.players, v2);
    lemma_rd_count(b, a + 16, t.players.len());
    if v2 {
        lemma_i32_le(t.perms.len() as i32);
        lemma_split(b, s, i32_le(t.perms.len() as i32), enc_perms(t.perms));
        lemma_rd_perms(b, s + 4, t.perms);
        lemma_rd_count(b, s, t.perms.len());
    } else {
        assert(t.perms =~= Seq::<PermModel>::empty());
    }
}

/// The byte offset at which the tail of `g` starts once written.
pub open spec fn tail_offset(g: GuildModel) -> int {
    (enc_group(g).len() + enc_bases(g).len() + enc_naming(g).len()) as int
}

/// Reading back a written guild gives the same guild: for every guild with
/// its fixed field sizes that can be written and whose tail is consistent
/// with its revision, provided that, for the older revision, the written
/// tail does not also read as the newer one (the reader tries that first).
#[verifier::rlimit(40)]
pub proof fn lemma_guild_round_trip(g: GuildModel)
    requires
        guild_sizes(g),
        guild_writable(g),
        tail_consistent(g.tail),
        g.tail.chest_roles is Some || rd_tail(enc_guild(g), tail_offset(g), true) is None,
    ensures
        decode_spec(enc_guild(g)) == Some(g),
{
    let b = enc_guild(g);
    let eg = enc_group(g);
    let eb = enc_bases(g);
    let en = enc_naming(g);
    let et = enc_tail(g.tail);
    assert(b.subrange(0, b.len() as int) =~= eg + eb + en + et);
    lemma_split(b, 0, eg + eb + en, et);
    lemma_split(b, 0, eg + eb, en);
    lemma_split(b, 0, eg, eb);
    lemma_rd_group(b, g);
    lemma_rd_bases(b, eg.len() as int, g);
    lemma_rd_naming(b, (eg.len() + eb.len()) as int, g);
    lemma_rd_tail(b, tail_offset(g), g);
    let h = rd_head(b);
    assert(h is Some);
    assert(h->0.tail_start == tail_offset(g));
    assert(rd_tail_any(b, tail_offset(g)) == Some(g.tail));
}

/// Appends the bytes of `s`.
pub fn push_bytes(out: &mut Vec<u8>, s: &[u8])
    ensures
        final(out)@ == old(out)@ + s@,
{
    out.extend_from_slice(s);
    assert(out@ =~= old(out)@ + s@);
}

/// The error of a guild that cannot be written.
fn too_large() -> (r: String)
    ensures
        r@ == "公会数据过大，无法写入"@,
{
    String::from_str("公会数据过大，无法写入")
}

/// Appends a count as an `i32`; fails, leaving `bytes` as it was, when the
/// count does not fit.
pub fn write_count(bytes: &mut Vec<u8>, value: usize) -> (r: Result<(), String>)
    ensures
        match r {
            Ok(()) => value <= i32::MAX && final(bytes)@ == old(bytes)@ + i32_le(value as i32),
            Err(_) => value > i32::MAX && final(bytes)@ == old(bytes)@,
        },
{
    if value <= 0x7fff_ffff {
        push_i32(bytes, value as i32);
        Ok(())
    } else {
        Err(too_large())
    }
}

/// Appends the FString of `value` (see `fstr`); fails, leaving `bytes` as it
/// was, when its length does not fit in an `i32`.
pub fn write_fstring(bytes: &mut Vec<u8>, value: &str) -> (r: Result<(), String>)
    ensures
        match r {
            Ok(()) => fstring_fits(value@) && final(bytes)@ == old(bytes)@ + fstr(value@),
            Err(_) => !fstring_fits(value@) && final(bytes)@ == old(bytes)@,
        },
{
    if value.is_ascii() {
        proof {
            vstd::utf8::is_ascii_chars_encode_utf8(value@);
        }
        let vb = value.as_bytes();
        let len = vb.len();
        if len >= 0x7fff_ffff {
            return Err(too_large());
        }
        assert(is_ascii_chars(value@));
        assert(len == value@.len());
        let l = (len + 1) as i32;
        assert(l == (value@.len() + 1) as i32);
        push_i32(bytes, l);
        push_bytes(bytes, vb);
        bytes.push(0);
        assert(bytes@ =~= old(bytes)@ + fstr(value@));
        Ok(())
    } else {
        let utf16 = encode_utf16(value);
        let n = utf16.len();
        if n >= 0x7fff_ffff {
            return Err(too_large());
        }
        let count = (n + 1) as i32;
        push_i32(bytes, -count);
        let ghost start = bytes@;
        let mut k: usize = 0;
        while k < n
            invariant
                n == utf16@.len(),
                k <= n,
                bytes@ == start + units_le(utf16@.take(k as int)),
            decreases n - k,
        {
            let unit = utf16[k];
            let lo = (unit % 256) as u8;
            let hi = (unit / 256) as u8;
            bytes.push(lo);
            bytes.push(hi);
            assert(units_le(utf16@.take(k + 1)) =~= units_le(utf16@.take(k as int)) + seq![lo, hi]);
            k = k + 1;
        }
        assert(utf16@.take(n as int) =~= utf16@);
        bytes.push(0);
        bytes.push(0);
        assert(bytes@ =~= old(bytes)@ + fstr(value@));
        Ok(())
    }
}

/// Appends the GUIDs of `ids`.
fn write_guids(bytes: &mut Vec<u8>, ids: &Vec<[u8; 16]>)
    ensures
        final(bytes)@ == old(bytes)@ + enc_guids(guids_view(ids@)),
{
    let ghost start = bytes@;
    let ghost all = guids_view(ids@);
    let mut i: usize = 0;
    assert(enc_guids(all.take(0)) =~= Seq::<u8>::empty());
    while i < ids.len()
        invariant
            i <= ids@.len(),
            all == guids_view(ids@),
            bytes@ == start + enc_guids(all.take(i as int)),
        decreases ids@.len() - i,
    {
        let id = ids[i];
        push_bytes(bytes, id.as_slice());
        assert(all.take(i + 1).drop_last() =~= all.take(i as int));
        assert(all.take(i + 1).last() == id@);
        assert(bytes@ =~= start + enc_guids(all.take(i + 1)));
        i = i + 1;
    }
    assert(all.take(ids@.len() as int) =~= all);
}

/// Appends the group part of `g` (see `enc_group`).
fn write_group(bytes: &mut Vec<u8>, g: &GuildRaw) -> (r: Result<(), String>)
    ensures
        match r {
            Ok(()) => group_writable(g@) && final(bytes)@ == old(bytes)@ + enc_group(g@),
            Err(_) => !group_writable(g@),
        },
{
    push_bytes(bytes, g.group_id.as_slice());
    write_fstring(bytes, g.group_name.as_str())?;
    write_count(bytes, g.handles.len())?;
    let ghost start = bytes@;
    let ghost all = handles_view(g.handles@);
    let mut i: usize = 0;
    assert(enc_handles(all.take(0)) =~= Seq::<u8>::empty());
    while i < g.handles.len()
        invariant
            i <= g.handles@.len(),
            all == handles_view(g.handles@),
            bytes@ == start + enc_handles(all.take(i as int)),
        decreases g.handles@.len() - i,
    {
        let h = g.handles[i];
        push_bytes(bytes, h.player_uid.as_slice());
        push_bytes(bytes, h.instance_id.as_slice());
        assert(all.take(i + 1).drop_last() =~= all.take(i as int));
        assert(all.take(i + 1).last() == (h.player_uid@, h.instance_id@));
        assert(bytes@ =~= start + enc_handles(all.take(i + 1)));
        i = i + 1;
    }
    assert(all.take(g.handles@.len() as int) =~= all);
    bytes.push(g.org_type);
    push_bytes(bytes, g.leading_bytes.as_slice());
    assert(bytes@ =~= old(bytes)@ + enc_group(g@));
    Ok(())
}

/// Appends the base part of `g` (see `enc_bases`).
fn write_bases(bytes: &mut Vec<u8>, g: &GuildRaw) -> (r: Result<(), String>)
    ensures
        match r {
            Ok(()) => bases_writable(g@) && final(bytes)@ == old(bytes)@ + enc_bases(g@),
            Err(_) => !bases_writable(g@),
        },
{
    write_count(bytes, g.base_ids.len())?;
    write_guids(bytes, &g.base_ids);
    push_i32(bytes, g.unknown_1);
    push_i32(bytes, g.base_camp_level);
    write_count(bytes, g.base_point_ids.len())?;
    write_guids(bytes, &g.base_point_ids);
    assert(bytes@ =~= old(bytes)@ + enc_bases(g@));
    Ok(())
}

/// Appends the naming part of `g` (see `enc_naming`).
fn write_naming(bytes: &mut Vec<u8>, g: &GuildRaw) -> (r: Result<(), String>)
    ensures
        match r {
            Ok(()) => naming_writable(g@) && final(bytes)@ == old(bytes)@ + enc_naming(g@),
            Err(_) => !naming_writable(g@),
        },
{
    write_fstring(bytes, g.guild_name.as_str())?;
    push_bytes(bytes, g.last_modifier_player_uid.as_slice());
    write_count(bytes, g.markers.len())?;
    let ghost start = bytes@;
    let ghost all = markers_view(g.markers@);
    let mut i: usize = 0;
    assert(enc_markers(all.take(0)) =~= Seq::<u8>::empty());
    while i < g.markers.len()
        invariant
            i <= g.markers@.len(),
            all == markers_view(g.markers@),
            bytes@ == start + enc_markers(all.take(i as int)),
        decreases g.markers@.len() - i,
    {
        let m = g.markers[i];
        push_bytes(bytes, m.marker_id.as_slice());
        push_bytes(bytes, m.location.as_slice());
        push_i32(bytes, m.icon_type);
        push_bytes(bytes, m.owner_player_uid.as_slice());
        assert(all.take(i + 1).drop_last() =~= all.take(i as int));
        assert(all.take(i + 1).last() == m@);
        assert(bytes@ =~= start + enc_markers(all.take(i + 1)));
        i = i + 1;
    }
    assert(all.take(g.markers@.len() as int) =~= all);
    assert(bytes@ =~= old(bytes)@ + enc_naming(g@));
    Ok(())
}

/// Appends the tail of `g` (see `enc_tail`).
fn write_tail(bytes: &mut Vec<u8>, g: &GuildRaw) -> (r: Result<(), String>)
    ensures
        match r {
            Ok(()) => tail_writable(g@.tail) && final(bytes)@ == old(bytes)@ + enc_tail(g@.tail),
            Err(_) => !tail_writable(g@.tail),
        },
{
    let ghost t = g@.tail;
    let version_two = g.guild_chest_allowed_roles.is_some();
    if let Some(roles) = &g.guild_chest_allowed_roles {
        write_count(bytes, roles.len())?;
        push_bytes(bytes, roles.as_slice());
        match g.unknown_i32 {
            Some(u) => push_i32(bytes, u),
            None => {
                return Err(String::from_str("新版公会缺少保留值"));
            },
        }
    }
    let ghost front = bytes@.subrange(old(bytes)@.len() as int, bytes@.len() as int);
    assert(front =~= match t.chest_roles {
        Some(r) => i32_le(r.len() as i32) + r + i32_le(t.unknown_i32->0),
        None => Seq::<u8>::empty(),
    });
    push_bytes(bytes, g.admin_player_uid.as_slice());
    write_count(bytes, g.players.len())?;
    let ghost start = bytes@;
    let ghost all = players_view(g.players@);
    assert(all == t.players);
    let mut i: usize = 0;
    assert(enc_players(all.take(0), version_two) =~= Seq::<u8>::empty());
    while i < g.players.len()
        invariant
            i <= g.players@.len(),
            all == players_view(g.players@),
            t == g@.tail,
            version_two == (t.chest_roles is Some),
            all == t.players,
            forall|k: int| 0 <= k < i ==> fstring_fits(#[trigger] t.players[k].name),
            version_two ==> forall|k: int| 0 <= k < i ==> (#[trigger] t.players[k]).role is Some,
            bytes@ == start + enc_players(all.take(i as int), version_two),
        decreases g.players@.len() - i,
    {
        let player = &g.players[i];
        assert(all[i as int] == player@);
        push_bytes(bytes, player.player_uid.as_slice());
        push_i64(bytes, player.last_online_real_time);
        match write_fstring(bytes, player.player_name.as_str()) {
            Ok(()) => {},
            Err(e) => {
                assert(!fstring_fits(t.players[i as int].name));
                return Err(e);
            },
        }
        if version_two {
            match player.role {
                Some(role) => bytes.push(role),
                None => {
                    assert(t.players[i as int].role is None);
                    return Err(String::from_str("新版公会成员缺少身份"));
                },
            }
        }
        assert(all.take(i + 1).drop_last() =~= all.take(i as int));
        assert(all.take(i + 1).last() == player@);
        assert(bytes@ =~= start + enc_players(all.take(i + 1), version_two));
        i = i + 1;
    }
    assert(all.take(g.players@.len() as int) =~= all);
    assert(all == t.players);
    assert(forall|k: int| 0 <= k < t.players.len() ==> fstring_fits(#[trigger] t.players[k].name));
    let ghost mid = bytes@;
    if version_two {
        write_count(bytes, g.role_permissions.len())?;
        let ghost pstart = bytes@;
        let ghost perms = perms_view(g.role_permissions@);
        let mut j: usize = 0;
        assert(enc_perms(perms.take(0)) =~= Seq::<u8>::empty());
        while j < g.role_permissions.len()
            invariant
                j <= g.role_permissions@.len(),
                perms == perms_view(g.role_permissions@),
                t == g@.tail,
                version_two,
                t.chest_roles is Some,
                forall|k: int| 0 <= k < j ==> (#[trigger] perms[k]).permissions.len() <= i32::MAX,
                bytes@ == pstart + enc_perms(perms.take(j as int)),
            decreases g.role_permissions@.len() - j,
        {
            let perm = &g.role_permissions[j];
            assert(perms[j as int] == perm@);
            bytes.push(perm.role);
            write_count(bytes, perm.permissions.len())?;
            push_bytes(bytes, perm.permissions.as_slice());
            assert(perms.take(j + 1).drop_last() =~= perms.take(j as int));
            assert(perms.take(j + 1).last() == perm@);
            assert(bytes@ =~= pstart + enc_perms(perms.take(j + 1)));
            j = j + 1;
        }
        assert(perms.take(g.role_permissions@.len() as int) =~= perms);
    }
    push_bytes(bytes, g.trailing_bytes.as_slice());
    assert(bytes@ =~= old(bytes)@ + enc_tail(t));
    Ok(())
}

/// Encodes a guild. Fails exactly when `guild_writable` does not hold;
/// otherwise gives `enc_guild` of the guild.
pub fn encode_guild_raw(guild: &GuildRaw) -> (r: Result<Vec<u8>, String>)
    ensures
        match r {
            Ok(b) => guild_writable(guild@) && b@ == enc_guild(guild@),
            Err(_) => !guild_writable(guild@),
        },
{
    let mut bytes: Vec<u8> = Vec::new();
    write_group(&mut bytes, guild)?;
    write_bases(&mut bytes, guild)?;
    write_naming(&mut bytes, guild)?;
    write_tail(&mut bytes, guild)?;
    assert(bytes@ =~= enc_guild(guild@));
    Ok(bytes)
}

} // verus!
