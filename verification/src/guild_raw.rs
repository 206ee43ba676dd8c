//! The guild `RawData` codec used by the modifier: a guild blob decoded into
//! its fields, edited, and encoded back.
//!
//! Strings are FStrings: an `i32` length, then either that many bytes of
//! UTF-8 ending in a NUL, or, for a negative length `-n`, `n` UTF-16 units
//! ending in a zero unit. Counts are non-negative `i32` values no larger than
//! the bytes that follow. The tail comes in two revisions; the newer one has
//! chest roles, a reserved value, a role per member, and role permissions.

use vstd::prelude::*;
use vstd::utf8::{decode_utf8, valid_utf8};
use crate::le::{i32_at, le_i64};
use crate::unicode::utf16_decode;
use crate::guid_bytes::guid_eq;
use crate::modifier::name_length_ok;
use crate::text::{chars_of, string_of, trim, trim_range};
use crate::world_copy::u16_at;

verus! {

/// A character handle: a player uid and an instance id.
#[derive(Debug, Clone, Copy, PartialEq, Eq)]
pub struct GuildHandle {
    pub player_uid: [u8; 16],
    pub instance_id: [u8; 16],
}

/// A map marker.
#[derive(Debug, Clone, Copy, PartialEq, Eq)]
pub struct GuildMarker {
    pub marker_id: [u8; 16],
    pub location: [u8; 24],
    pub icon_type: i32,
    pub owner_player_uid: [u8; 16],
}

/// A guild member.
#[derive(Debug, Clone, PartialEq, Eq)]
pub struct GuildPlayer {
    pub player_uid: [u8; 16],
    pub last_online_real_time: i64,
    pub player_name: String,
    pub role: Option<u8>,
}

/// The permissions of one role.
#[derive(Debug, Clone, PartialEq, Eq)]
pub struct RolePermission {
    pub role: u8,
    pub permissions: Vec<u8>,
}

/// A decoded guild blob.
#[derive(Debug, Clone, PartialEq, Eq)]
pub struct GuildRaw {
    pub group_id: [u8; 16],
    pub group_name: String,
    pub handles: Vec<GuildHandle>,
    pub org_type: u8,
    pub leading_bytes: [u8; 4],
    pub base_ids: Vec<[u8; 16]>,
    pub unknown_1: i32,
    pub base_camp_level: i32,
    pub base_point_ids: Vec<[u8; 16]>,
    pub guild_name: String,
    pub last_modifier_player_uid: [u8; 16],
    pub markers: Vec<GuildMarker>,
    pub guild_chest_allowed_roles: Option<Vec<u8>>,
    pub unknown_i32: Option<i32>,
    pub admin_player_uid: [u8; 16],
    pub players: Vec<GuildPlayer>,
    pub role_permissions: Vec<RolePermission>,
    pub trailing_bytes: [u8; 4],
}

/// A member, as values.
pub struct PlayerModel {
    pub uid: Seq<u8>,
    pub last_online: i64,
    pub name: Seq<char>,
    pub role: Option<u8>,
}

/// A marker, as values.
pub struct MarkerModel {
    pub id: Seq<u8>,
    pub location: Seq<u8>,
    pub icon: i32,
    pub owner: Seq<u8>,
}

/// A role's permissions, as values.
pub struct PermModel {
    pub role: u8,
    pub permissions: Seq<u8>,
}

/// The tail of a guild blob, as values.
pub struct TailModel {
    pub chest_roles: Option<Seq<u8>>,
    pub unknown_i32: Option<i32>,
    pub admin: Seq<u8>,
    pub players: Seq<PlayerModel>,
    pub perms: Seq<PermModel>,
    pub trailing: Seq<u8>,
}

/// A guild blob, as values.
pub struct GuildModel {
    pub group_id: Seq<u8>,
    pub group_name: Seq<char>,
    pub handles: Seq<(Seq<u8>, Seq<u8>)>,
    pub org_type: u8,
    pub leading: Seq<u8>,
    pub base_ids: Seq<Seq<u8>>,
    pub unknown_1: i32,
    pub level: i32,
    pub base_points: Seq<Seq<u8>>,
    pub guild_name: Seq<char>,
    pub last_modifier: Seq<u8>,
    pub markers: Seq<MarkerModel>,
    pub tail: TailModel,
}

impl View for GuildPlayer {
    type V = PlayerModel;

    open spec fn view(&self) -> PlayerModel {
        PlayerModel {
            uid: self.player_uid@,
            last_online: self.last_online_real_time,
            name: self.player_name@,
            role: self.role,
        }
    }
}

impl View for GuildMarker {
    type V = MarkerModel;

    open spec fn view(&self) -> MarkerModel {
        MarkerModel {
            id: self.marker_id@,
            location: self.location@,
            icon: self.icon_type,
            owner: self.owner_player_uid@,
        }
    }
}

impl View for RolePermission {
    type V = PermModel;

    open spec fn view(&self) -> PermModel {
        PermModel { role: self.role, permissions: self.permissions@ }
    }
}

/// The GUIDs of `v`, as byte sequences.
pub open spec fn guids_view(v: Seq<[u8; 16]>) -> Seq<Seq<u8>> {
    v.map_values(|g: [u8; 16]| g@)
}

/// The handles of `v`, as pairs of byte sequences.
pub open spec fn handles_view(v: Seq<GuildHandle>) -> Seq<(Seq<u8>, Seq<u8>)> {
    v.map_values(|h: GuildHandle| (h.player_uid@, h.instance_id@))
}

/// The markers of `v`, as values.
pub open spec fn markers_view(v: Seq<GuildMarker>) -> Seq<MarkerModel> {
    v.map_values(|m: GuildMarker| m@)
}

/// The members of `v`, as values.
pub open spec fn players_view(v: Seq<GuildPlayer>) -> Seq<PlayerModel> {
    v.map_values(|p: GuildPlayer| p@)
}

/// The role permissions of `v`, as values.
pub open spec fn perms_view(v: Seq<RolePermission>) -> Seq<PermModel> {
    v.map_values(|r: RolePermission| r@)
}

/// The chest roles, as values.
pub open spec fn roles_view(v: Option<Vec<u8>>) -> Option<Seq<u8>> {
    match v {
        Some(r) => Some(r@),
        None => None,
    }
}

impl View for GuildRaw {
    type V = GuildModel;

    open spec fn view(&self) -> GuildModel {
        GuildModel {
            group_id: self.group_id@,
            group_name: self.group_name@,
            handles: handles_view(self.handles@),
            org_type: self.org_type,
            leading: self.leading_bytes@,
            base_ids: guids_view(self.base_ids@),
            unknown_1: self.unknown_1,
            level: self.base_camp_level,
            base_points: guids_view(self.base_point_ids@),
            guild_name: self.guild_name@,
            last_modifier: self.last_modifier_player_uid@,
            markers: markers_view(self.markers@),
            tail: TailModel {
                chest_roles: roles_view(self.guild_chest_allowed_roles),
                unknown_i32: self.unknown_i32,
                admin: self.admin_player_uid@,
                players: players_view(self.players@),
                perms: perms_view(self.role_permissions@),
                trailing: self.trailing_bytes@,
            },
        }
    }
}

// ---------------------------------------------------------------- reading

/// `n` bytes at `p`, and the position after them.
pub open spec fn rd_bytes(b: Seq<u8>, p: int, n: int) -> Option<(Seq<u8>, int)> {
    if 0 <= p && 0 <= n && p + n <= b.len() {
        Some((b.subrange(p, p + n), p + n))
    } else {
        None
    }
}

/// The `i32` at `p`.
pub open spec fn rd_i32(b: Seq<u8>, p: int) -> Option<(i32, int)> {
    if 0 <= p && p + 4 <= b.len() {
        Some((i32_at(b, p), p + 4))
    } else {
        None
    }
}

/// A count at `p`: non-negative and no larger than the bytes after it.
pub open spec fn rd_count(b: Seq<u8>, p: int) -> Option<(nat, int)> {
    match rd_i32(b, p) {
        None => None,
        Some((v, q)) => if 0 <= v && v <= b.len() - q {
            Some((v as nat, q))
        } else {
            None
        },
    }
}

/// `raw` without one final NUL byte.
pub open spec fn strip_nul(raw: Seq<u8>) -> Seq<u8> {
    if raw.len() > 0 && raw.last() == 0 {
        raw.drop_last()
    } else {
        raw
    }
}

/// `u` without one final zero unit.
pub open spec fn strip_nul16(u: Seq<u16>) -> Seq<u16> {
    if u.len() > 0 && u.last() == 0 {
        u.drop_last()
    } else {
        u
    }
}

/// The little-endian UTF-16 units of `raw` (of even length).
pub open spec fn le_units(raw: Seq<u8>) -> Seq<u16> {
    Seq::new(raw.len() / 2, |k: int| u16_at(raw, 2 * k))
}

/// The FString at `p`.
pub open spec fn rd_fstring(b: Seq<u8>, p: int) -> Option<(Seq<char>, int)> {
    match rd_i32(b, p) {
        None => None,
        Some((l, q)) => if l == 0 {
            Some((Seq::empty(), q))
        } else if l > 0 {
            match rd_bytes(b, q, l as int) {
                None => None,
                Some((raw, r)) => if valid_utf8(strip_nul(raw)) {
                    Some((decode_utf8(strip_nul(raw)), r))
                } else {
                    None
                },
            }
        } else if l == i32::MIN {
            None
        } else {
            match rd_bytes(b, q, -2 * (l as int)) {
                None => None,
                Some((raw, r)) => match utf16_decode(strip_nul16(le_units(raw))) {
                    None => None,
                    Some(s) => Some((s, r)),
                },
            }
        },
    }
}

/// `k` GUIDs at `p`.
pub open spec fn rd_guids(b: Seq<u8>, p: int, k: nat) -> Option<(Seq<Seq<u8>>, int)>
    decreases k,
{
    if k == 0 {
        if 0 <= p <= b.len() {
            Some((Seq::empty(), p))
        } else {
            None
        }
    } else {
        match rd_guids(b, p, (k - 1) as nat) {
            None => None,
            Some((gs, q)) => match rd_bytes(b, q, 16) {
                None => None,
                Some((g, r)) => Some((gs.push(g), r)),
            },
        }
    }
}

/// `k` character handles at `p`.
pub open spec fn rd_handles(b: Seq<u8>, p: int, k: nat) -> Option<(Seq<(Seq<u8>, Seq<u8>)>, int)>
    decreases k,
{
    if k == 0 {
        if 0 <= p <= b.len() {
            Some((Seq::empty(), p))
        } else {
            None
        }
    } else {
        match rd_handles(b, p, (k - 1) as nat) {
            None => None,
            Some((hs, q)) => match rd_bytes(b, q, 32) {
                None => None,
                Some((h, r)) => Some((hs.push((h.subrange(0, 16), h.subrange(16, 32))), r)),
            },
        }
    }
}

/// One marker at `q`.
pub open spec fn rd_marker(b: Seq<u8>, q: int) -> Option<(MarkerModel, int)> {
    if 0 <= q && q + 60 <= b.len() {
        Some(
            (
                MarkerModel {
                    id: b.subrange(q, q + 16),
                    location: b.subrange(q + 16, q + 40),
                    icon: i32_at(b, q + 40),
                    owner: b.subrange(q + 44, q + 60),
                },
                q + 60,
            ),
        )
    } else {
        None
    }
}

/// `k` markers at `p`.
pub open spec fn rd_markers(b: Seq<u8>, p: int, k: nat) -> Option<(Seq<MarkerModel>, int)>
    decreases k,
{
    if k == 0 {
        if 0 <= p <= b.len() {
            Some((Seq::empty(), p))
        } else {
            None
        }
    } else {
        match rd_markers(b, p, (k - 1) as nat) {
            None => None,
            Some((ms, q)) => match rd_marker(b, q) {
                None => None,
                Some((m, r)) => Some((ms.push(m), r)),
            },
        }
    }
}

/// One member at `q`, with a role byte when `with_role`.
pub open spec fn rd_player(b: Seq<u8>, q: int, with_role: bool) -> Option<(PlayerModel, int)> {
    if 0 <= q && q + 24 <= b.len() {
        match rd_fstring(b, q + 24) {
            None => None,
            Some((name, r)) => if with_role {
                if r + 1 <= b.len() {
                    Some(
                        (
                            PlayerModel {
                                uid: b.subrange(q, q + 16),
                                last_online: le_i64(b.subrange(q + 16, q + 24)),
                                name,
                                role: Some(b[r]),
                            },
                            r + 1,
                        ),
                    )
                } else {
                    None
                }
            } else {
                Some(
                    (
                        PlayerModel {
                            uid: b.subrange(q, q + 16),
                            last_online: le_i64(b.subrange(q + 16, q + 24)),
                            name,
                            role: None,
                        },
                        r,
                    ),
                )
            },
        }
    } else {
        None
    }
}

/// `k` members at `p`.
pub open spec fn rd_players(b: Seq<u8>, p: int, k: nat, with_role: bool) -> Option<(Seq<PlayerModel>, int)>
    decreases k,
{
    if k == 0 {
        if 0 <= p <= b.len() {
            Some((Seq::empty(), p))
        } else {
            None
        }
    } else {
        match rd_players(b, p, (k - 1) as nat, with_role) {
            None => None,
            Some((ps, q)) => match rd_player(b, q, with_role) {
                None => None,
                Some((m, r)) => Some((ps.push(m), r)),
            },
        }
    }
}

/// One role's permissions at `q`.
pub open spec fn rd_perm(b: Seq<u8>, q: int) -> Option<(PermModel, int)> {
    if 0 <= q && q + 1 <= b.len() {
        match rd_count(b, q + 1) {
            None => None,
            Some((c, r)) => Some((PermModel { role: b[q], permissions: b.subrange(r, r + c) }, r + c)),
        }
    } else {
        None
    }
}

/// `k` role permissions at `p`.
pub open spec fn rd_perms(b: Seq<u8>, p: int, k: nat) -> Option<(Seq<PermModel>, int)>
    decreases k,
{
    if k == 0 {
        if 0 <= p <= b.len() {
            Some((Seq::empty(), p))
        } else {
            None
        }
    } else {
        match rd_perms(b, p, (k - 1) as nat) {
            None => None,
            Some((rs, q)) => match rd_perm(b, q) {
                None => None,
                Some((m, r)) => Some((rs.push(m), r)),
            },
        }
    }
}

/// The tail at `p` in one revision; it must end at the end of the blob.
pub open spec fn rd_tail(b: Seq<u8>, p: int, v2: bool) -> Option<TailModel> {
    let front: Option<(Option<Seq<u8>>, Option<i32>, int)> = if v2 {
        match rd_count(b, p) {
            None => None,
            Some((c, q)) => match rd_i32(b, q + c) {
                None => None,
                Some((u, r)) => Some((Some(b.subrange(q, q + c)), Some(u), r)),
            },
        }
    } else {
        if 0 <= p <= b.len() {
            Some((None, None, p))
        } else {
            None
        }
    };
    match front {
        None => None,
        Some((chest, unk, a)) => match rd_bytes(b, a, 16) {
            None => None,
            Some((admin, q)) => match rd_count(b, q) {
                None => None,
                Some((k, r)) => match rd_players(b, r, k, v2) {
                    None => None,
                    Some((players, s)) => {
                        let back: Option<(Seq<PermModel>, int)> = if v2 {
                            match rd_count(b, s) {
                                None => None,
                                Some((c, t)) => rd_perms(b, t, c),
                            }
                        } else {
                            Some((Seq::empty(), s))
                        };
                        match back {
                            None => None,
                            Some((perms, t)) => if t + 4 == b.len() {
                                Some(
                                    TailModel {
                                        chest_roles: chest,
                                        unknown_i32: unk,
                                        admin,
                                        players,
                                        perms,
                                        trailing: b.subrange(t, t + 4),
                                    },
                                )
                            } else {
                                None
                            },
                        }
                    },
                },
            },
        },
    }
}

/// The head of a guild blob, up to the tail, and where the tail starts.
pub struct HeadModel {
    pub group_id: Seq<u8>,
    pub group_name: Seq<char>,
    pub handles: Seq<(Seq<u8>, Seq<u8>)>,
    pub org_type: u8,
    pub leading: Seq<u8>,
    pub base_ids: Seq<Seq<u8>>,
    pub unknown_1: i32,
    pub level: i32,
    pub base_points: Seq<Seq<u8>>,
    pub guild_name: Seq<char>,
    pub last_modifier: Seq<u8>,
    pub markers: Seq<MarkerModel>,
    pub tail_start: int,
}

/// The group part of a guild blob: group id, group name, handles, org type
/// and the four leading bytes, and the position after them.
pub open spec fn rd_group(b: Seq<u8>) -> Option<(Seq<u8>, Seq<char>, Seq<(Seq<u8>, Seq<u8>)>, u8, Seq<u8>, int)> {
    match rd_bytes(b, 0, 16) {
        None => None,
        Some((gid, p1)) => match rd_fstring(b, p1) {
            None => None,
            Some((gname, p2)) => match rd_count(b, p2) {
                None => None,
                Some((h, p3)) => match rd_handles(b, p3, h) {
                    None => None,
                    Some((handles, p4)) => match rd_bytes(b, p4, 5) {
                        None => None,
                        Some((ol, p5)) => Some((gid, gname, handles, ol[0], ol.subrange(1, 5), p5)),
                    },
                },
            },
        },
    }
}

/// The base part at `p`: base ids, the reserved value, the level and the
/// base point ids, and the position after them.
pub open spec fn rd_bases(b: Seq<u8>, p: int) -> Option<(Seq<Seq<u8>>, i32, i32, Seq<Seq<u8>>, int)> {
    match rd_count(b, p) {
        None => None,
        Some((g, p6)) => match rd_guids(b, p6, g) {
            None => None,
            Some((base_ids, p7)) => match rd_bytes(b, p7, 8) {
                None => None,
                Some((ul, p8)) => match rd_count(b, p8) {
                    None => None,
                    Some((o, p9)) => match rd_guids(b, p9, o) {
                        None => None,
                        Some((points, p10)) => Some((base_ids, i32_at(ul, 0), i32_at(ul, 4), points, p10)),
                    },
                },
            },
        },
    }
}

/// The naming part at `p`: guild name, last modifier and markers, and the
/// position after them.
pub open spec fn rd_naming(b: Seq<u8>, p: int) -> Option<(Seq<char>, Seq<u8>, Seq<MarkerModel>, int)> {
    match rd_fstring(b, p) {
        None => None,
        Some((name, p11)) => match rd_bytes(b, p11, 16) {
            None => None,
            Some((lm, p12)) => match rd_count(b, p12) {
                None => None,
                Some((m, p13)) => match rd_markers(b, p13, m) {
                    None => None,
                    Some((markers, p14)) => Some((name, lm, markers, p14)),
                },
            },
        },
    }
}

/// The head of the guild blob `b`.
pub open spec fn rd_head(b: Seq<u8>) -> Option<HeadModel> {
    match rd_group(b) {
        None => None,
        Some((gid, gname, handles, org, leading, p5)) => match rd_bases(b, p5) {
            None => None,
            Some((base_ids, unknown_1, level, points, p10)) => match rd_naming(b, p10) {
                None => None,
                Some((name, lm, markers, p14)) => Some(
                    HeadModel {
                        group_id: gid,
                        group_name: gname,
                        handles,
                        org_type: org,
                        leading,
                        base_ids,
                        unknown_1,
                        level,
                        base_points: points,
                        guild_name: name,
                        last_modifier: lm,
                        markers,
                        tail_start: p14,
                    },
                ),
            },
        },
    }
}

/// The tail at `p`, read as the newer revision or else as the older one.
pub open spec fn rd_tail_any(b: Seq<u8>, p: int) -> Option<TailModel> {
    match rd_tail(b, p, true) {
        Some(t) => Some(t),
        None => rd_tail(b, p, false),
    }
}

/// The guild a blob holds, if it is well formed.
pub open spec fn decode_spec(b: Seq<u8>) -> Option<GuildModel> {
    match rd_head(b) {
        None => None,
        Some(h) => match rd_tail_any(b, h.tail_start) {
            None => None,
            Some(t) => Some(
                GuildModel {
                    group_id: h.group_id,
                    group_name: h.group_name,
                    handles: h.handles,
                    org_type: h.org_type,
                    leading: h.leading,
                    base_ids: h.base_ids,
                    unknown_1: h.unknown_1,
                    level: h.level,
                    base_points: h.base_points,
                    guild_name: h.guild_name,
                    last_modifier: h.last_modifier,
                    markers: h.markers,
                    tail: t,
                },
            ),
        },
    }
}

// ---------------------------------------------------------------- editing

/// The guild renamed to `name`.
pub open spec fn renamed(g: GuildModel, name: Seq<char>) -> GuildModel {
    GuildModel { guild_name: name, ..g }
}

/// Renames a guild to `name` without its surrounding white space; refused,
/// with the guild unchanged, unless that has 1 to 50 characters. Nothing but
/// the guild name changes.
pub fn rename_guild_raw(guild: &mut GuildRaw, name: &str) -> (r: Result<(), String>)
    ensures
        name_length_ok(trim(name@)) <==> r is Ok,
        r is Ok ==> final(guild)@ == renamed(old(guild)@, trim(name@)),
        r matches Err(e) ==> final(guild)@ == old(guild)@ && e@ == "名称必须为 1–50 个字符"@,
{
    let v = chars_of(name);
    let (a, b) = trim_range(v.as_slice(), 0, v.len());
    assert(v@.subrange(0, v@.len() as int) =~= v@);
    if a == b || b - a > 50 {
        return Err(String::from_str("名称必须为 1–50 个字符"));
    }
    guild.guild_name = string_of(v.as_slice(), a, b);
    Ok(())
}

/// Whether some member has the uid `uid`.
pub open spec fn has_member(players: Seq<PlayerModel>, uid: Seq<u8>) -> bool {
    exists|i: int| 0 <= i < players.len() && (#[trigger] players[i]).uid == uid
}

/// A member's role once `uid` leads in place of `previous`: the new leader
/// gets role 1; the previous leader, if it had role 1, gets role 2.
pub open spec fn role_after_leader_change(p: PlayerModel, uid: Seq<u8>, previous: Seq<u8>) -> PlayerModel {
    if p.uid == uid {
        PlayerModel { role: Some(1u8), ..p }
    } else if p.uid == previous && p.role == Some(1u8) {
        PlayerModel { role: Some(2u8), ..p }
    } else {
        p
    }
}

/// The guild once `uid` leads it: the admin is `uid`, and in the newer
/// revision the members' roles change as `role_after_leader_change` says.
pub open spec fn led_by(g: GuildModel, uid: Seq<u8>) -> GuildModel {
    let t = g.tail;
    let players = if t.chest_roles is Some {
        t.players.map_values(|p: PlayerModel| role_after_leader_change(p, uid, t.admin))
    } else {
        t.players
    };
    GuildModel { tail: TailModel { admin: uid, players, ..t }, ..g }
}

/// Makes the member `player_uid` the guild's leader; refused, with the guild
/// unchanged, when no member has that uid.
pub fn make_guild_leader_raw(guild: &mut GuildRaw, player_uid: &[u8; 16]) -> (r: Result<(), String>)
    ensures
        has_member(old(guild)@.tail.players, player_uid@) <==> r is Ok,
        r is Ok ==> final(guild)@ == led_by(old(guild)@, player_uid@),
        r matches Err(e) ==> final(guild)@ == old(guild)@ && e@ == "所选玩家不属于该公会"@,
{
    let ghost start = guild@;
    let n = guild.players.len();
    let mut found = false;
    let mut i: usize = 0;
    while i < n
        invariant
            n == guild.players@.len(),
            guild@ == start,
            i <= n,
            found <==> exists|k: int| 0 <= k < i && (#[trigger] guild.players@[k]).player_uid@ == player_uid@,
        decreases n - i,
    {
        if guid_eq(&guild.players[i].player_uid, player_uid) {
            found = true;
        }
        i = i + 1;
    }
    proof {
        if found {
            let k = choose|k: int| 0 <= k < n && (#[trigger] guild.players@[k]).player_uid@ == player_uid@;
            assert(players_view(guild.players@)[k].uid == player_uid@);
        }
        if has_member(start.tail.players, player_uid@) {
            let k = choose|k: int| 0 <= k < start.tail.players.len() && (#[trigger] start.tail.players[k]).uid == player_uid@;
            assert(guild.players@[k].player_uid@ == player_uid@);
        }
    }
    if !found {
        return Err(String::from_str("所选玩家不属于该公会"));
    }
    let previous_admin = guild.admin_player_uid;
    guild.admin_player_uid = *player_uid;
    if guild.guild_chest_allowed_roles.is_some() {
        let ghost target = start.tail.players.map_values(
            |p: PlayerModel| role_after_leader_change(p, player_uid@, previous_admin@),
        );
        let mut j: usize = 0;
        while j < n
            invariant
                n == guild.players@.len(),
                j <= n,
                target.len() == n,
                start.tail.players.len() == n,
                target == start.tail.players.map_values(
                    |p: PlayerModel| role_after_leader_change(p, player_uid@, previous_admin@),
                ),
                forall|k: int| 0 <= k < j ==> (#[trigger] guild.players@[k])@ == target[k],
                forall|k: int| j <= k < n ==> (#[trigger] guild.players@[k])@ == start.tail.players[k],
                guild.admin_player_uid@ == player_uid@,
                guild.guild_chest_allowed_roles is Some,
                guild@ == (GuildModel { tail: TailModel { admin: player_uid@, players: guild@.tail.players, ..start.tail }, ..start }),
            decreases n - j,
        {
            assert(guild.players@[j as int]@ == start.tail.players[j as int]);
            if guid_eq(&guild.players[j].player_uid, player_uid) {
                guild.players[j].role = Some(1);
            } else if guid_eq(&guild.players[j].player_uid, &previous_admin) && guild.players[j].role == Some(1u8) {
                guild.players[j].role = Some(2);
            }
            assert(guild.players@[j as int]@ == target[j as int]);
            j = j + 1;
        }
        assert(players_view(guild.players@) =~= target);
    } else {
        assert(players_view(guild.players@) =~= start.tail.players);
    }
    Ok(())
}

} // verus!
