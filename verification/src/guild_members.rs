//! Removing members from a decoded guild: the members and character handles
//! of removed players go, and a guild that loses its leader passes to its
//! first remaining member.

use vstd::prelude::*;
use crate::guid_bytes::guid_eq;
use crate::guild_raw::{handles_view, players_view, GuildHandle, GuildModel, GuildPlayer, GuildRaw, PlayerModel, TailModel};
use crate::ownership::ids;

verus! {

/// The members of `ps` whose uid is none of `u`, in order.
pub open spec fn players_without(ps: Seq<PlayerModel>, u: Seq<Seq<u8>>) -> Seq<PlayerModel>
    decreases ps.len(),
{
    if ps.len() == 0 {
        Seq::empty()
    } else {
        let r = players_without(ps.drop_last(), u);
        if u.contains(ps.last().uid) {
            r
        } else {
            r.push(ps.last())
        }
    }
}

/// The handles of `hs` whose player uid is none of `u`, in order.
pub open spec fn handles_without(hs: Seq<(Seq<u8>, Seq<u8>)>, u: Seq<Seq<u8>>) -> Seq<(Seq<u8>, Seq<u8>)>
    decreases hs.len(),
{
    if hs.len() == 0 {
        Seq::empty()
    } else {
        let r = handles_without(hs.drop_last(), u);
        if u.contains(hs.last().0) {
            r
        } else {
            r.push(hs.last())
        }
    }
}

/// The guild without the members and handles of the players `u`.
pub open spec fn without_players(g: GuildModel, u: Seq<Seq<u8>>) -> GuildModel {
    GuildModel {
        handles: handles_without(g.handles, u),
        tail: TailModel { players: players_without(g.tail.players, u), ..g.tail },
        ..g
    }
}

/// A member's role once `admin` leads: 1 for the leader, 3 for the others.
pub open spec fn role_under(p: PlayerModel, admin: Seq<u8>) -> PlayerModel {
    PlayerModel { role: Some(if p.uid == admin { 1u8 } else { 3u8 }), ..p }
}

/// The guild once the player `uid` leaves it: its member and handles go;
/// when it led a guild that keeps members, the first remaining member leads,
/// and in the newer revision the leader gets role 1 and the others role 3.
pub open spec fn member_removed(g: GuildModel, uid: Seq<u8>) -> GuildModel {
    let h = without_players(g, seq![uid]);
    let ps = h.tail.players;
    if ps.len() > 0 && g.tail.admin == uid {
        let admin = ps[0].uid;
        let players = if g.tail.chest_roles is Some {
            ps.map_values(|p: PlayerModel| role_under(p, admin))
        } else {
            ps
        };
        GuildModel { tail: TailModel { admin, players, ..h.tail }, ..h }
    } else {
        h
    }
}

/// What removing a player did to a guild.
#[derive(Debug, Clone, Copy, PartialEq, Eq)]
pub enum MemberRemoval {
    /// The player was no member; the guild is unchanged.
    NotMember,
    /// The player left; other members remain.
    Removed,
    /// The player was the last member.
    Emptied,
}

fn drop_players(players: Vec<GuildPlayer>, uids: &Vec<[u8; 16]>) -> (r: Vec<GuildPlayer>)
    ensures
        players_view(r@) == players_without(players_view(players@), ids(uids@)),
{
    let ghost orig = players@;
    let ghost m = players_view(orig);
    let ghost u = ids(uids@);
    let len = players.len();
    let mut rest = players;
    let mut out: Vec<GuildPlayer> = Vec::new();
    let mut i: usize = 0;
    assert(m.take(0) =~= Seq::<PlayerModel>::empty());
    assert(players_view(out@) =~= Seq::<PlayerModel>::empty());
    while i < len
        invariant
            len == orig.len(),
            m == players_view(orig),
            u == ids(uids@),
            i <= len,
            rest@ == orig.subrange(i as int, len as int),
            players_view(out@) == players_without(m.take(i as int), u),
        decreases len - i,
    {
        let p = rest.remove(0);
        assert(p == orig[i as int]);
        assert(m[i as int] == p@);
        assert(m.take(i + 1).drop_last() =~= m.take(i as int));
        assert(m.take(i + 1).last() == m[i as int]);
        if !crate::deletion::id_listed(uids, &p.player_uid) {
            let ghost before = out@;
            out.push(p);
            assert(players_view(out@) =~= players_view(before).push(m[i as int]));
        }
        i = i + 1;
    }
    assert(m.take(len as int) =~= m);
    out
}

fn drop_handles(handles: &Vec<GuildHandle>, uids: &Vec<[u8; 16]>) -> (r: Vec<GuildHandle>)
    ensures
        handles_view(r@) == handles_without(handles_view(handles@), ids(uids@)),
{
    let ghost m = handles_view(handles@);
    let ghost u = ids(uids@);
    let mut out: Vec<GuildHandle> = Vec::new();
    let mut i: usize = 0;
    assert(m.take(0) =~= Seq::<(Seq<u8>, Seq<u8>)>::empty());
    assert(handles_view(out@) =~= Seq::<(Seq<u8>, Seq<u8>)>::empty());
    while i < handles.len()
        invariant
            m == handles_view(handles@),
            u == ids(uids@),
            i <= handles@.len(),
            handles_view(out@) == handles_without(m.take(i as int), u),
        decreases handles@.len() - i,
    {
        let h = handles[i];
        assert(m[i as int] == (h.player_uid@, h.instance_id@));
        assert(m.take(i + 1).drop_last() =~= m.take(i as int));
        assert(m.take(i + 1).last() == m[i as int]);
        if !crate::deletion::id_listed(uids, &h.player_uid) {
            let ghost before = out@;
            out.push(h);
            assert(handles_view(out@) =~= handles_view(before).push(m[i as int]));
        }
        i = i + 1;
    }
    assert(m.take(handles@.len() as int) =~= m);
    out
}

/// Removes the members and handles of the players `uids`; returns whether a
/// member or a handle went (see `without_players`).
pub fn remove_members_raw(guild: &mut GuildRaw, uids: &Vec<[u8; 16]>) -> (changed: bool)
    ensures
        final(guild)@ == without_players(old(guild)@, ids(uids@)),
        changed == (players_without(old(guild)@.tail.players, ids(uids@)).len() != old(guild)@.tail.players.len()
            || handles_without(old(guild)@.handles, ids(uids@)).len() != old(guild)@.handles.len()),
{
    let mut players: Vec<GuildPlayer> = Vec::new();
    std::mem::swap(&mut players, &mut guild.players);
    let n_players = players.len();
    let kept = drop_players(players, uids);
    let n_handles = guild.handles.len();
    let handles = drop_handles(&guild.handles, uids);
    let changed = kept.len() != n_players || handles.len() != n_handles;
    guild.players = kept;
    guild.handles = handles;
    assert(final(guild)@ =~= without_players(old(guild)@, ids(uids@)));
    changed
}

/// Removes the player `player_uid` from the guild (see `member_removed`):
/// nothing changes when it is no member; when it leaves the last member
/// behind, its member and handles are gone and `Emptied` says so.
pub fn remove_member_raw(guild: &mut GuildRaw, player_uid: &[u8; 16]) -> (r: MemberRemoval)
    ensures
        ({
            let ps = players_without(old(guild)@.tail.players, seq![player_uid@]);
            &&& (r is NotMember <==> ps.len() == old(guild)@.tail.players.len())
            &&& (r is NotMember ==> final(guild)@ == old(guild)@)
            &&& (r is Emptied <==> (ps.len() != old(guild)@.tail.players.len() && ps.len() == 0))
            &&& (!(r is NotMember) ==> final(guild)@ == member_removed(old(guild)@, player_uid@))
        }),
{
    let ghost start = guild@;
    let mut one: Vec<[u8; 16]> = Vec::new();
    one.push(*player_uid);
    assert(ids(one@) =~= seq![player_uid@]);
    let mut players: Vec<GuildPlayer> = Vec::new();
    std::mem::swap(&mut players, &mut guild.players);
    let n_players = players.len();
    let kept = drop_players(players, &one);
    if kept.len() == n_players {
        proof {
            lemma_nothing_dropped(start.tail.players, seq![player_uid@]);
        }
        guild.players = kept;
        assert(guild@ =~= start);
        return MemberRemoval::NotMember;
    }
    let handles = drop_handles(&guild.handles, &one);
    guild.players = kept;
    guild.handles = handles;
    assert(guild@ =~= without_players(start, seq![player_uid@]));
    if guild.players.len() == 0 {
        return MemberRemoval::Emptied;
    }
    if guid_eq(&guild.admin_player_uid, player_uid) {
        let admin = guild.players[0].player_uid;
        guild.admin_player_uid = admin;
        let ghost h = without_players(start, seq![player_uid@]);
        if guild.guild_chest_allowed_roles.is_some() {
            let n = guild.players.len();
            let ghost target = h.tail.players.map_values(|p: PlayerModel| role_under(p, admin@));
            let mut j: usize = 0;
            while j < n
                invariant
                    n == guild.players@.len(),
                    j <= n,
                    h.tail.players.len() == n,
                    target == h.tail.players.map_values(|p: PlayerModel| role_under(p, admin@)),
                    forall|k: int| 0 <= k < j ==> (#[trigger] guild.players@[k])@ == target[k],
                    forall|k: int| j <= k < n ==> (#[trigger] guild.players@[k])@ == h.tail.players[k],
                    guild@ == (GuildModel { tail: TailModel { admin: admin@, players: guild@.tail.players, ..h.tail }, ..h }),
                decreases n - j,
            {
                if guid_eq(&guild.players[j].player_uid, &admin) {
                    guild.players[j].role = Some(1);
                } else {
                    guild.players[j].role = Some(3);
                }
                assert(guild.players@[j as int]@ == target[j as int]);
                j = j + 1;
            }
            assert(players_view(guild.players@) =~= target);
        }
        assert(guild@ =~= member_removed(start, player_uid@));
    } else {
        assert(guild@ =~= member_removed(start, player_uid@));
    }
    MemberRemoval::Removed
}

proof fn lemma_nothing_dropped(ps: Seq<PlayerModel>, u: Seq<Seq<u8>>)
    requires
        players_without(ps, u).len() == ps.len(),
    ensures
        players_without(ps, u) == ps,
    decreases ps.len(),
{
    if ps.len() > 0 {
        lemma_without_shorter(ps.drop_last(), u);
        if u.contains(ps.last().uid) {
            assert(false);
        } else {
            lemma_nothing_dropped(ps.drop_last(), u);
            assert(ps.drop_last().push(ps.last()) =~= ps);
        }
    }
}

proof fn lemma_without_shorter(ps: Seq<PlayerModel>, u: Seq<Seq<u8>>)
    ensures
        players_without(ps, u).len() <= ps.len(),
    decreases ps.len(),
{
    if ps.len() > 0 {
        lemma_without_shorter(ps.drop_last(), u);
    }
}

} // verus!
