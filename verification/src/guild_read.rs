//! Reading guild blobs. Each reader takes the blob and a position and gives
//! the value found there and the position after it, exactly as the `rd_*`
//! functions of `guild_raw` describe, or `None` where they give `None`.

use vstd::prelude::*;
use vstd::slice::slice_to_vec;
use crate::guid_bytes::guid_from;
use crate::guild_raw::{
    decode_spec, rd_bases, rd_group, rd_naming, GuildRaw,
    guids_view, handles_view, le_units, markers_view, perms_view, players_view, rd_bytes,
    rd_count, rd_fstring, rd_guids, rd_handles, rd_i32, rd_marker, rd_markers, rd_perm,
    rd_perms, rd_player, rd_players, rd_tail, roles_view, strip_nul, strip_nul16, GuildHandle,
    GuildMarker, GuildPlayer, PermModel, RolePermission, TailModel,
};
use crate::le::{i32_at, le_i64, read_i32_at, read_i64_at};
use crate::unicode::{decode_utf16, string_from_utf8, utf16_decode};
use crate::world_copy::u16_at;

verus! {

/// The `i32` at `p` and the position after it.
pub fn read_i32(b: &[u8], p: usize) -> (r: Option<(i32, usize)>)
    ensures
        match r {
            Some((v, q)) => rd_i32(b@, p as int) == Some((v, q as int)),
            None => rd_i32(b@, p as int) is None,
        },
{
    if p <= b.len() && 4 <= b.len() - p {
        Some((read_i32_at(b, p), p + 4))
    } else {
        None
    }
}

/// The element count at `p` and the position after it.
pub fn read_count(b: &[u8], p: usize) -> (r: Option<(usize, usize)>)
    ensures
        match r {
            Some((c, q)) => rd_count(b@, p as int) == Some((c as nat, q as int)),
            None => rd_count(b@, p as int) is None,
        },
{
    match read_i32(b, p) {
        None => None,
        Some((v, q)) => {
            if v >= 0 && (v as usize) <= b.len() - q {
                Some((v as usize, q))
            } else {
                None
            }
        },
    }
}

/// The FString at `p` and the position after it.
pub fn read_fstring(b: &[u8], p: usize) -> (r: Option<(String, usize)>)
    ensures
        match r {
            Some((t, q)) => rd_fstring(b@, p as int) == Some((t@, q as int)),
            None => rd_fstring(b@, p as int) is None,
        },
{
    let (l, q) = match read_i32(b, p) {
        None => {
            return None;
        },
        Some(x) => x,
    };
    if l == 0 {
        let e = String::new();
        assert(e@ =~= Seq::<char>::empty());
        return Some((e, q));
    }
    let n = b.len();
    if l > 0 {
        let len = l as usize;
        if len > n - q {
            return None;
        }
        let end = q + len;
        let cend = if b[end - 1] == 0 {
            end - 1
        } else {
            end
        };
        let content = slice_to_vec(&b[q..cend]);
        assert(content@ =~= strip_nul(b@.subrange(q as int, end as int)));
        match string_from_utf8(content) {
            Some(s) => Some((s, end)),
            None => None,
        }
    } else {
        if l == i32::MIN {
            return None;
        }
        let units = (-l) as usize;
        if units > (n - q) / 2 {
            return None;
        }
        let end = q + 2 * units;
        let ghost raw = b@.subrange(q as int, end as int);
        let mut w: Vec<u16> = Vec::new();
        let mut k: usize = 0;
        while k < units
            invariant
                n == b@.len(),
                q + 2 * units == end,
                end <= n,
                raw == b@.subrange(q as int, end as int),
                k <= units,
                w@.len() == k,
                forall|j: int| 0 <= j < k ==> #[trigger] w@[j] == u16_at(raw, 2 * j),
            decreases units - k,
        {
            let lo = b[q + 2 * k] as u16;
            let hi = b[q + 2 * k + 1] as u16;
            let unit: u16 = lo + 256 * hi;
            assert(raw[2 * k as int] == lo);
            assert(raw[2 * k + 1] == hi);
            assert(unit == u16_at(raw, 2 * k));
            w.push(unit);
            k = k + 1;
        }
        assert(w@ =~= le_units(raw));
        let wl = w.len();
        if wl > 0 && w[wl - 1] == 0 {
            w.pop();
        }
        assert(w@ =~= strip_nul16(le_units(raw)));
        match decode_utf16(w.as_slice()) {
            Some(s) => Some((s, end)),
            None => None,
        }
    }
}

/// Once a list cannot be read, no longer list can.
proof fn lemma_guids_none(b: Seq<u8>, p: int, i: nat, k: nat)
    requires
        i <= k,
        rd_guids(b, p, i) is None,
    ensures
        rd_guids(b, p, k) is None,
    decreases k,
{
    if i < k {
        lemma_guids_none(b, p, i, (k - 1) as nat);
    }
}

proof fn lemma_handles_none(b: Seq<u8>, p: int, i: nat, k: nat)
    requires
        i <= k,
        rd_handles(b, p, i) is None,
    ensures
        rd_handles(b, p, k) is None,
    decreases k,
{
    if i < k {
        lemma_handles_none(b, p, i, (k - 1) as nat);
    }
}

proof fn lemma_markers_none(b: Seq<u8>, p: int, i: nat, k: nat)
    requires
        i <= k,
        rd_markers(b, p, i) is None,
    ensures
        rd_markers(b, p, k) is None,
    decreases k,
{
    if i < k {
        lemma_markers_none(b, p, i, (k - 1) as nat);
    }
}

proof fn lemma_players_none(b: Seq<u8>, p: int, i: nat, k: nat, with_role: bool)
    requires
        i <= k,
        rd_players(b, p, i, with_role) is None,
    ensures
        rd_players(b, p, k, with_role) is None,
    decreases k,
{
    if i < k {
        lemma_players_none(b, p, i, (k - 1) as nat, with_role);
    }
}

proof fn lemma_perms_none(b: Seq<u8>, p: int, i: nat, k: nat)
    requires
        i <= k,
        rd_perms(b, p, i) is None,
    ensures
        rd_perms(b, p, k) is None,
    decreases k,
{
    if i < k {
        lemma_perms_none(b, p, i, (k - 1) as nat);
    }
}

/// `k` GUIDs at `p` and the position after them.
pub fn read_guids(b: &[u8], p: usize, k: usize) -> (r: Option<(Vec<[u8; 16]>, usize)>)
    ensures
        match r {
            Some((v, q)) => rd_guids(b@, p as int, k as nat) == Some((guids_view(v@), q as int)),
            None => rd_guids(b@, p as int, k as nat) is None,
        },
{
    let n = b.len();
    if p > n {
        proof {
            lemma_guids_none(b@, p as int, 0, k as nat);
        }
        return None;
    }
    let mut v: Vec<[u8; 16]> = Vec::new();
    let mut pos = p;
    let mut i: usize = 0;
    assert(guids_view(v@) =~= Seq::<Seq<u8>>::empty());
    while i < k
        invariant
            n == b@.len(),
            i <= k,
            pos <= n,
            rd_guids(b@, p as int, i as nat) == Some((guids_view(v@), pos as int)),
        decreases k - i,
    {
        if 16 > n - pos {
            assert(rd_guids(b@, p as int, (i + 1) as nat) is None);
            proof {
                lemma_guids_none(b@, p as int, (i + 1) as nat, k as nat);
            }
            return None;
        }
        let g = guid_from(b, pos);
        let ghost before = v@;
        v.push(g);
        assert(guids_view(v@) =~= guids_view(before).push(g@));
        assert(rd_guids(b@, p as int, (i + 1) as nat) == Some((guids_view(v@), pos + 16)));
        pos = pos + 16;
        i = i + 1;
    }
    Some((v, pos))
}

/// `k` character handles at `p` and the position after them.
pub fn read_handles(b: &[u8], p: usize, k: usize) -> (r: Option<(Vec<GuildHandle>, usize)>)
    ensures
        match r {
            Some((v, q)) => rd_handles(b@, p as int, k as nat) == Some((handles_view(v@), q as int)),
            None => rd_handles(b@, p as int, k as nat) is None,
        },
{
    let n = b.len();
    if p > n {
        proof {
            lemma_handles_none(b@, p as int, 0, k as nat);
        }
        return None;
    }
    let mut v: Vec<GuildHandle> = Vec::new();
    let mut pos = p;
    let mut i: usize = 0;
    assert(handles_view(v@) =~= Seq::<(Seq<u8>, Seq<u8>)>::empty());
    while i < k
        invariant
            n == b@.len(),
            i <= k,
            pos <= n,
            rd_handles(b@, p as int, i as nat) == Some((handles_view(v@), pos as int)),
        decreases k - i,
    {
        if 32 > n - pos {
            assert(rd_handles(b@, p as int, (i + 1) as nat) is None);
            proof {
                lemma_handles_none(b@, p as int, (i + 1) as nat, k as nat);
            }
            return None;
        }
        let h = GuildHandle { player_uid: guid_from(b, pos), instance_id: guid_from(b, pos + 16) };
        let ghost raw = b@.subrange(pos as int, pos + 32);
        assert(raw.subrange(0, 16) =~= h.player_uid@);
        assert(raw.subrange(16, 32) =~= h.instance_id@);
        let ghost before = v@;
        v.push(h);
        assert(handles_view(v@) =~= handles_view(before).push((h.player_uid@, h.instance_id@)));
        assert(rd_handles(b@, p as int, (i + 1) as nat) == Some((handles_view(v@), pos + 32)));
        pos = pos + 32;
        i = i + 1;
    }
    Some((v, pos))
}

/// Copies the 24 bytes at `o`.
fn bytes24(b: &[u8], o: usize) -> (r: [u8; 24])
    requires
        o + 24 <= b@.len(),
    ensures
        r@ == b@.subrange(o as int, o + 24),
{
    let r = [
        b[o], b[o + 1], b[o + 2], b[o + 3], b[o + 4], b[o + 5], b[o + 6], b[o + 7],
        b[o + 8], b[o + 9], b[o + 10], b[o + 11], b[o + 12], b[o + 13], b[o + 14], b[o + 15],
        b[o + 16], b[o + 17], b[o + 18], b[o + 19], b[o + 20], b[o + 21], b[o + 22], b[o + 23],
    ];
    assert(r@ =~= b@.subrange(o as int, o + 24));
    r
}

/// Copies the 4 bytes at `o`.
pub fn bytes4(b: &[u8], o: usize) -> (r: [u8; 4])
    requires
        o + 4 <= b@.len(),
    ensures
        r@ == b@.subrange(o as int, o + 4),
{
    let r = [b[o], b[o + 1], b[o + 2], b[o + 3]];
    assert(r@ =~= b@.subrange(o as int, o + 4));
    r
}

/// One marker at `q` and the position after it.
fn read_marker(b: &[u8], q: usize) -> (r: Option<(GuildMarker, usize)>)
    ensures
        match r {
            Some((m, e)) => rd_marker(b@, q as int) == Some((m@, e as int)),
            None => rd_marker(b@, q as int) is None,
        },
{
    let n = b.len();
    if q > n || 60 > n - q {
        return None;
    }
    let m = GuildMarker {
        marker_id: guid_from(b, q),
        location: bytes24(b, q + 16),
        icon_type: read_i32_at(b, q + 40),
        owner_player_uid: guid_from(b, q + 44),
    };
    Some((m, q + 60))
}

/// `k` markers at `p` and the position after them.
pub fn read_markers(b: &[u8], p: usize, k: usize) -> (r: Option<(Vec<GuildMarker>, usize)>)
    ensures
        match r {
            Some((v, q)) => rd_markers(b@, p as int, k as nat) == Some((markers_view(v@), q as int)),
            None => rd_markers(b@, p as int, k as nat) is None,
        },
{
    let n = b.len();
    if p > n {
        proof {
            lemma_markers_none(b@, p as int, 0, k as nat);
        }
        return None;
    }
    let mut v: Vec<GuildMarker> = Vec::new();
    let mut pos = p;
    let mut i: usize = 0;
    assert(markers_view(v@) =~= Seq::<crate::guild_raw::MarkerModel>::empty());
    while i < k
        invariant
            n == b@.len(),
            i <= k,
            pos <= n,
            rd_markers(b@, p as int, i as nat) == Some((markers_view(v@), pos as int)),
        decreases k - i,
    {
        match read_marker(b, pos) {
            None => {
                assert(rd_markers(b@, p as int, (i + 1) as nat) is None);
                proof {
                    lemma_markers_none(b@, p as int, (i + 1) as nat, k as nat);
                }
                return None;
            },
            Some((m, e)) => {
                let ghost before = v@;
                v.push(m);
                assert(markers_view(v@) =~= markers_view(before).push(m@));
                assert(rd_markers(b@, p as int, (i + 1) as nat) == Some((markers_view(v@), e as int)));
                pos = e;
            },
        }
        i = i + 1;
    }
    Some((v, pos))
}

/// One member at `q`, with a role byte when `has_role`, and the position
/// after it.
fn read_player(b: &[u8], q: usize, has_role: bool) -> (r: Option<(GuildPlayer, usize)>)
    ensures
        match r {
            Some((m, e)) => rd_player(b@, q as int, has_role) == Some((m@, e as int)),
            None => rd_player(b@, q as int, has_role) is None,
        },
{
    let n = b.len();
    if q > n || 24 > n - q {
        return None;
    }
    let uid = guid_from(b, q);
    let last = read_i64_at(b, q + 16);
    assert(b@.subrange(q + 16, n as int).subrange(0, 8) =~= b@.subrange(q + 16, q + 24).subrange(0, 8));
    assert(last == le_i64(b@.subrange(q + 16, q + 24)));
    match read_fstring(b, q + 24) {
        None => None,
        Some((name, e)) => {
            if has_role {
                if e < n {
                    let role = b[e];
                    Some((GuildPlayer { player_uid: uid, last_online_real_time: last, player_name: name, role: Some(role) }, e + 1))
                } else {
                    None
                }
            } else {
                Some((GuildPlayer { player_uid: uid, last_online_real_time: last, player_name: name, role: None }, e))
            }
        },
    }
}

/// The members at `p`: a count, then that many members, with a role byte
/// each when `has_role`.
pub fn decode_players(b: &[u8], p: usize, has_role: bool) -> (r: Option<(Vec<GuildPlayer>, usize)>)
    ensures
        match r {
            Some((v, q)) => match rd_count(b@, p as int) {
                Some((k, s)) => rd_players(b@, s, k, has_role) == Some((players_view(v@), q as int)),
                None => false,
            },
            None => match rd_count(b@, p as int) {
                Some((k, s)) => rd_players(b@, s, k, has_role) is None,
                None => true,
            },
        },
{
    let (k, s) = match read_count(b, p) {
        None => {
            return None;
        },
        Some(x) => x,
    };
    let n = b.len();
    let mut v: Vec<GuildPlayer> = Vec::new();
    let mut pos = s;
    let mut i: usize = 0;
    assert(players_view(v@) =~= Seq::<crate::guild_raw::PlayerModel>::empty());
    while i < k
        invariant
            n == b@.len(),
            i <= k,
            pos <= n,
            rd_players(b@, s as int, i as nat, has_role) == Some((players_view(v@), pos as int)),
            rd_count(b@, p as int) == Some((k as nat, s as int)),
        decreases k - i,
    {
        match read_player(b, pos, has_role) {
            None => {
                assert(rd_players(b@, s as int, (i + 1) as nat, has_role) is None);
                proof {
                    lemma_players_none(b@, s as int, (i + 1) as nat, k as nat, has_role);
                }
                return None;
            },
            Some((m, e)) => {
                let ghost before = v@;
                v.push(m);
                assert(players_view(v@) =~= players_view(before).push(m@));
                assert(rd_players(b@, s as int, (i + 1) as nat, has_role) == Some((players_view(v@), e as int)));
                pos = e;
            },
        }
        i = i + 1;
    }
    Some((v, pos))
}

/// One role's permissions at `q` and the position after them.
fn read_perm(b: &[u8], q: usize) -> (r: Option<(RolePermission, usize)>)
    ensures
        match r {
            Some((m, e)) => rd_perm(b@, q as int) == Some((m@, e as int)),
            None => rd_perm(b@, q as int) is None,
        },
{
    let n = b.len();
    if q >= n {
        return None;
    }
    let role = b[q];
    match read_count(b, q + 1) {
        None => None,
        Some((c, t)) => {
            let permissions = slice_to_vec(&b[t..t + c]);
            Some((RolePermission { role, permissions }, t + c))
        },
    }
}

/// `k` role permissions at `p` and the position after them.
pub fn read_perms(b: &[u8], p: usize, k: usize) -> (r: Option<(Vec<RolePermission>, usize)>)
    ensures
        match r {
            Some((v, q)) => rd_perms(b@, p as int, k as nat) == Some((perms_view(v@), q as int)),
            None => rd_perms(b@, p as int, k as nat) is None,
        },
{
    let n = b.len();
    if p > n {
        proof {
            lemma_perms_none(b@, p as int, 0, k as nat);
        }
        return None;
    }
    let mut v: Vec<RolePermission> = Vec::new();
    let mut pos = p;
    let mut i: usize = 0;
    assert(perms_view(v@) =~= Seq::<crate::guild_raw::PermModel>::empty());
    while i < k
        invariant
            n == b@.len(),
            i <= k,
            pos <= n,
            rd_perms(b@, p as int, i as nat) == Some((perms_view(v@), pos as int)),
        decreases k - i,
    {
        match read_perm(b, pos) {
            None => {
                assert(rd_perms(b@, p as int, (i + 1) as nat) is None);
                proof {
                    lemma_perms_none(b@, p as int, (i + 1) as nat, k as nat);
                }
                return None;
            },
            Some((m, e)) => {
                let ghost before = v@;
                v.push(m);
                assert(perms_view(v@) =~= perms_view(before).push(m@));
                assert(rd_perms(b@, p as int, (i + 1) as nat) == Some((perms_view(v@), e as int)));
                pos = e;
            },
        }
        i = i + 1;
    }
    Some((v, pos))
}

/// The parts of a guild tail: chest roles, reserved value, admin, members,
/// role permissions, and the four trailing bytes.
pub type GuildTailParts = (Option<Vec<u8>>, Option<i32>, [u8; 16], Vec<GuildPlayer>, Vec<RolePermission>, [u8; 4]);

/// The tail parts, as values.
pub open spec fn tail_parts_view(t: GuildTailParts) -> TailModel {
    TailModel {
        chest_roles: roles_view(t.0),
        unknown_i32: t.1,
        admin: t.2@,
        players: players_view(t.3@),
        perms: perms_view(t.4@),
        trailing: t.5@,
    }
}

/// The tail at `p` in the newer revision (`version_two`) or the older one; it
/// must end exactly at the end of the blob.
pub fn decode_guild_tail(b: &[u8], p: usize, version_two: bool) -> (r: Option<GuildTailParts>)
    ensures
        match r {
            Some(t) => rd_tail(b@, p as int, version_two) == Some(tail_parts_view(t)),
            None => rd_tail(b@, p as int, version_two) is None,
        },
{
    let n = b.len();
    let (chest, unknown, a) = if version_two {
        match read_count(b, p) {
            None => {
                return None;
            },
            Some((c, q)) => {
                let roles = slice_to_vec(&b[q..q + c]);
                match read_i32(b, q + c) {
                    None => {
                        return None;
                    },
                    Some((u, e)) => (Some(roles), Some(u), e),
                }
            },
        }
    } else {
        if p > n {
            return None;
        }
        (None, None, p)
    };
    if a > n || 16 > n - a {
        return None;
    }
    let admin = guid_from(b, a);
    let (players, s) = match decode_players(b, a + 16, version_two) {
        None => {
            return None;
        },
        Some(x) => x,
    };
    let (permissions, t) = if version_two {
        match read_count(b, s) {
            None => {
                return None;
            },
            Some((c, t0)) => match read_perms(b, t0, c) {
                None => {
                    return None;
                },
                Some(x) => x,
            },
        }
    } else {
        let e: Vec<RolePermission> = Vec::new();
        assert(perms_view(e@) =~= Seq::<PermModel>::empty());
        (e, s)
    };
    if t <= n && n - t == 4 {
        let trailing = bytes4(b, t);
        Some((chest, unknown, admin, players, permissions, trailing))
    } else {
        None
    }
}

/// The error of a guild blob that cannot be decoded.
fn malformed() -> (r: String)
    ensures
        r@ == "公会数据无法解析"@,
{
    String::from_str("公会数据无法解析")
}

/// The group part of a guild blob (see `rd_group`).
fn decode_group(b: &[u8]) -> (r: Option<([u8; 16], String, Vec<GuildHandle>, u8, [u8; 4], usize)>)
    ensures
        match r {
            Some((gid, name, handles, org, leading, q)) => rd_group(b@) == Some(
                (gid@, name@, handles_view(handles@), org, leading@, q as int),
            ),
            None => rd_group(b@) is None,
        },
{
    let n = b.len();
    if n < 16 {
        return None;
    }
    let group_id = guid_from(b, 0);
    let (group_name, p2) = match read_fstring(b, 16) {
        None => {
            return None;
        },
        Some(x) => x,
    };
    let (hc, p3) = match read_count(b, p2) {
        None => {
            return None;
        },
        Some(x) => x,
    };
    let (handles, p4) = match read_handles(b, p3, hc) {
        None => {
            return None;
        },
        Some(x) => x,
    };
    if 5 > n - p4 {
        return None;
    }
    let org_type = b[p4];
    let leading_bytes = bytes4(b, p4 + 1);
    assert(b@.subrange(p4 as int, p4 + 5).subrange(1, 5) =~= leading_bytes@);
    Some((group_id, group_name, handles, org_type, leading_bytes, p4 + 5))
}

/// The base part at `p` (see `rd_bases`).
fn decode_bases(b: &[u8], p: usize) -> (r: Option<(Vec<[u8; 16]>, i32, i32, Vec<[u8; 16]>, usize)>)
    ensures
        match r {
            Some((ids, u, level, points, q)) => rd_bases(b@, p as int) == Some(
                (guids_view(ids@), u, level, guids_view(points@), q as int),
            ),
            None => rd_bases(b@, p as int) is None,
        },
{
    let n = b.len();
    let (bc, p6) = match read_count(b, p) {
        None => {
            return None;
        },
        Some(x) => x,
    };
    let (base_ids, p7) = match read_guids(b, p6, bc) {
        None => {
            return None;
        },
        Some(x) => x,
    };
    if 8 > n - p7 {
        return None;
    }
    let unknown_1 = read_i32_at(b, p7);
    let base_camp_level = read_i32_at(b, p7 + 4);
    assert(b@.subrange(p7 as int, p7 + 8).subrange(0, 4) =~= b@.subrange(p7 as int, p7 + 4));
    assert(b@.subrange(p7 as int, p7 + 8).subrange(4, 8) =~= b@.subrange(p7 + 4, p7 + 8));
    let (pc, p9) = match read_count(b, p7 + 8) {
        None => {
            return None;
        },
        Some(x) => x,
    };
    let (base_point_ids, p10) = match read_guids(b, p9, pc) {
        None => {
            return None;
        },
        Some(x) => x,
    };
    Some((base_ids, unknown_1, base_camp_level, base_point_ids, p10))
}

/// The naming part at `p` (see `rd_naming`).
fn decode_naming(b: &[u8], p: usize) -> (r: Option<(String, [u8; 16], Vec<GuildMarker>, usize)>)
    ensures
        match r {
            Some((name, lm, markers, q)) => rd_naming(b@, p as int) == Some(
                (name@, lm@, markers_view(markers@), q as int),
            ),
            None => rd_naming(b@, p as int) is None,
        },
{
    let n = b.len();
    let (guild_name, p11) = match read_fstring(b, p) {
        None => {
            return None;
        },
        Some(x) => x,
    };
    if 16 > n - p11 {
        return None;
    }
    let last_modifier_player_uid = guid_from(b, p11);
    let (mc, p13) = match read_count(b, p11 + 16) {
        None => {
            return None;
        },
        Some(x) => x,
    };
    let (markers, p14) = match read_markers(b, p13, mc) {
        None => {
            return None;
        },
        Some(x) => x,
    };
    Some((guild_name, last_modifier_player_uid, markers, p14))
}

/// Decodes a guild blob. Fails exactly when `decode_spec` finds the blob
/// malformed; the tail is read as the newer revision first and, failing
/// that, as the older one.
pub fn decode_guild_raw(bytes: &[u8]) -> (r: Result<GuildRaw, String>)
    ensures
        match r {
            Ok(g) => decode_spec(bytes@) == Some(g@),
            Err(e) => decode_spec(bytes@) is None && e@ == "公会数据无法解析"@,
        },
{
    let b = bytes;
    let (group_id, group_name, handles, org_type, leading_bytes, p5) = match decode_group(b) {
        None => {
            return Err(malformed());
        },
        Some(x) => x,
    };
    let (base_ids, unknown_1, base_camp_level, base_point_ids, p10) = match decode_bases(b, p5) {
        None => {
            return Err(malformed());
        },
        Some(x) => x,
    };
    let (guild_name, last_modifier_player_uid, markers, p14) = match decode_naming(b, p10) {
        None => {
            return Err(malformed());
        },
        Some(x) => x,
    };
    let tail = match decode_guild_tail(b, p14, true) {
        Some(t) => t,
        None => match decode_guild_tail(b, p14, false) {
            Some(t) => t,
            None => {
                return Err(malformed());
            },
        },
    };
    let (chest, unknown, admin, players, permissions, trailing) = tail;
    let g = GuildRaw {
        group_id,
        group_name,
        handles,
        org_type,
        leading_bytes,
        base_ids,
        unknown_1,
        base_camp_level,
        base_point_ids,
        guild_name,
        last_modifier_player_uid,
        markers,
        guild_chest_allowed_roles: chest,
        unknown_i32: unknown,
        admin_player_uid: admin,
        players,
        role_permissions: permissions,
        trailing_bytes: trailing,
    };
    Ok(g)
}

} // verus!
