//! Renaming a player inside a world: the nickname in the `SaveParameter` of
//! its character stream, and its name in the member list of its guild.

use vstd::prelude::*;
use crate::identity::{field_index, lemma_field_index};
use crate::prop_tree::{fields_model, props_model, tree_model, trees_model, PropModel, PropTree, StructModel, StructNode};
use crate::tech_points::{find_top, top_index, with_save_data};
use crate::world_delete::find_field;
use crate::identity::{guild_group, is_guild_group, raw_data, raw_data_bytes};
use crate::guild_raw::{decode_spec, GuildModel, GuildRaw, PlayerModel, TailModel};
use crate::guild_read::decode_guild_raw;
use crate::guild_write::{enc_guild, encode_guild_raw, guild_writable};
use crate::deletion::{set_raw_data, with_raw};
use crate::prop_tree::entries_model;
use crate::guid_bytes::guid_eq;
use crate::ownership::{key_guid, key_guid_spec};

verus! {

/// The position, type name, header and fields of the stream's first
/// `SaveParameter` property, when it is a custom struct property.
pub open spec fn save_parameter_fields(ps: Seq<(Seq<char>, PropModel)>) -> Option<(int, Seq<char>, u64, Seq<(Seq<char>, Seq<PropModel>)>)> {
    match top_index(ps, "SaveParameter"@) {
        Some(i) => match ps[i].1 {
            PropModel::Struct(t, h, StructModel::Custom(f)) => Some((i, t, h, f)),
            _ => None,
        },
        None => None,
    }
}

/// Whether the fields hold a `NickName` field whose first property is a
/// string.
pub open spec fn nickname_writable(f: Seq<(Seq<char>, Seq<PropModel>)>) -> bool {
    field_index(f, "NickName"@) matches Some(j) && f[j].1.len() > 0 && f[j].1[0] is Str
}

/// The fields with the first property of `NickName` set to `name`.
pub open spec fn with_nickname(f: Seq<(Seq<char>, Seq<PropModel>)>, name: Seq<char>) -> Seq<(Seq<char>, Seq<PropModel>)> {
    let j = field_index(f, "NickName"@)->0;
    f.update(j, (f[j].0, f[j].1.update(0, PropModel::Str(Some(name)))))
}

/// Renames the player of a character stream: sets the string of its
/// `SaveParameter`'s `NickName` to `name`. Refused, with the stream
/// unchanged, when there is no `SaveParameter` struct or no string
/// `NickName` in it.
pub fn rename_in_player_stream(props: &mut Vec<(String, PropTree)>, name: &str) -> (r: Result<(), String>)
    ensures
        match save_parameter_fields(props_model(old(props)@)) {
            None => r matches Err(e) && e@ == "玩家记录缺少 SaveParameter"@ && final(props)@ == old(props)@,
            Some((i, t, h, f)) => if nickname_writable(f) {
                r is Ok && props_model(final(props)@) == with_save_data(props_model(old(props)@), i, t, h, with_nickname(f, name@))
            } else {
                r matches Err(e) && e@ == "玩家记录缺少可写的 NickName"@ && final(props)@ == old(props)@
            },
        },
{
    let ghost m = props_model(props@);
    let i = match find_top(props, "SaveParameter") {
        Some(i) => i,
        None => return Err(String::from_str("玩家记录缺少 SaveParameter")),
    };
    let ghost before = props@;
    assert(m[i as int] == (before[i as int].0@, tree_model(before[i as int].1)));
    let (pname, t) = props.remove(i);
    match t {
        PropTree::Struct { struct_type, header, value: StructNode::Custom(mut fields) } => {
            let ghost f = fields_model(fields@);
            let ghost fb = fields@;
            match find_field(&fields, "NickName") {
                Some(j) => {
                    proof {
                        lemma_field_index(f, "NickName"@);
                    }
                    assert(f[j as int] == (fb[j as int].0@, trees_model(fb[j as int].1@)));
                    let writable = fields[j].1.len() > 0 && match &fields[j].1[0] {
                        PropTree::Str(_) => true,
                        _ => false,
                    };
                    if fields[j].1.len() > 0 {
                        assert(f[j as int].1[0] == tree_model(fb[j as int].1@[0]));
                    }
                    if !writable {
                        let t0 = PropTree::Struct { struct_type, header, value: StructNode::Custom(fields) };
                        props.insert(i, (pname, t0));
                        assert(props@ =~= before);
                        return Err(String::from_str("玩家记录缺少可写的 NickName"));
                    }
                    let (fname, mut fprops) = fields.remove(j);
                    let ghost pb = fprops@;
                    let _old = fprops.remove(0);
                    let nv = PropTree::Str(Some(String::from_str(name)));
                    fprops.insert(0, nv);
                    assert(fprops@ =~= pb.update(0, nv));
                    assert(trees_model(fprops@) =~= trees_model(pb).update(0, PropModel::Str(Some(name@))));
                    fields.insert(j, (fname, fprops));
                    assert(fields@ =~= fb.update(j as int, (fname, fprops)));
                    assert(fields_model(fields@) =~= with_nickname(f, name@));
                    let t2 = PropTree::Struct { struct_type, header, value: StructNode::Custom(fields) };
                    props.insert(i, (pname, t2));
                    assert(props@ =~= before.update(i as int, (pname, t2)));
                    proof {
                        let (_, st, sh, sf) = save_parameter_fields(m)->0;
                        assert(props_model(props@) =~= with_save_data(m, i as int, st, sh, with_nickname(sf, name@)));
                    }
                    Ok(())
                },
                None => {
                    let t0 = PropTree::Struct { struct_type, header, value: StructNode::Custom(fields) };
                    props.insert(i, (pname, t0));
                    assert(props@ =~= before);
                    Err(String::from_str("玩家记录缺少可写的 NickName"))
                },
            }
        },
        other => {
            props.insert(i, (pname, other));
            assert(props@ =~= before);
            Err(String::from_str("玩家记录缺少 SaveParameter"))
        },
    }
}


/// The position of the first member with uid `uid`.
pub open spec fn member_index(ps: Seq<PlayerModel>, uid: Seq<u8>) -> Option<int>
    decreases ps.len(),
{
    if ps.len() == 0 {
        None
    } else if ps[0].uid == uid {
        Some(0)
    } else {
        match member_index(ps.skip(1), uid) {
            Some(j) => Some(j + 1),
            None => None,
        }
    }
}

/// The guild with its member `uid` named `name`; `None` when `uid` is no
/// member.
pub open spec fn member_renamed(g: GuildModel, uid: Seq<u8>, name: Seq<char>) -> Option<GuildModel> {
    match member_index(g.tail.players, uid) {
        Some(j) => {
            let p = g.tail.players[j];
            Some(GuildModel {
                tail: TailModel { players: g.tail.players.update(j, PlayerModel { name, ..p }), ..g.tail },
                ..g
            })
        },
        None => None,
    }
}

/// What renaming the player `uid` does to one group record: `Some(Some(v))`
/// when it is a guild whose blob holds the player as a member, with the
/// blob rewritten; `Some(None)` when the record is left alone (no guild, no
/// `RawData`, or the player is no member); `None` when the blob cannot be
/// decoded, or the renamed guild cannot be encoded.
pub open spec fn group_member_renamed(v: PropModel, uid: Seq<u8>, name: Seq<char>) -> Option<Option<PropModel>> {
    if !guild_group(v) {
        Some(None)
    } else {
        match raw_data(v) {
            None => Some(None),
            Some(b) => match decode_spec(b) {
                None => None,
                Some(g) => match member_renamed(g, uid, name) {
                    None => Some(None),
                    Some(g2) => if guild_writable(g2) {
                        Some(Some(with_raw(v, enc_guild(g2))))
                    } else {
                        None
                    },
                },
            },
        }
    }
}

/// The group map after renaming the player `uid` in the first guild, in
/// map order, that holds it as a member, and whether one did; `None` when a
/// guild before it, or that one, fails (see `group_member_renamed`).
pub open spec fn groups_member_renamed(es: Seq<(PropModel, PropModel)>, uid: Seq<u8>, name: Seq<char>) -> Option<(Seq<(PropModel, PropModel)>, bool)>
    decreases es.len(),
{
    if es.len() == 0 {
        Some((es, false))
    } else {
        match group_member_renamed(es[0].1, uid, name) {
            None => None,
            Some(Some(v2)) => Some((es.update(0, (es[0].0, v2)), true)),
            Some(None) => match groups_member_renamed(es.skip(1), uid, name) {
                None => None,
                Some((rest, f)) => Some((seq![es[0]] + rest, f)),
            },
        }
    }
}

/// Gives the member `uid` of the guild the name `name` (see `member_renamed`);
/// returns whether it is a member.
fn rename_member(guild: &mut GuildRaw, uid: &[u8; 16], name: &str) -> (found: bool)
    ensures
        match member_renamed(old(guild)@, uid@, name@) {
            Some(g2) => found && final(guild)@ == g2,
            None => !found && final(guild)@ == old(guild)@,
        },
{
    let ghost ps = guild@.tail.players;
    let mut j: usize = 0;
    while j < guild.players.len()
        invariant
            ps == guild@.tail.players,
            guild@ == old(guild)@,
            j <= ps.len(),
            forall|k: int| 0 <= k < j ==> (#[trigger] ps[k]).uid != uid@,
        decreases guild.players.len() - j,
    {
        assert(ps[j as int] == guild.players@[j as int]@);
        if guid_eq(&guild.players[j].player_uid, uid) {
            proof {
                lemma_member_index(ps, uid@, j as int);
            }
            let mut p = guild.players.remove(j);
            p.player_name = String::from_str(name);
            guild.players.insert(j, p);
            assert(guild@.tail.players =~= ps.update(j as int, PlayerModel { name: name@, ..ps[j as int] }));
            assert(guild@ =~= member_renamed(old(guild)@, uid@, name@)->0);
            return true;
        }
        j = j + 1;
    }
    proof {
        lemma_member_index_none(ps, uid@);
    }
    false
}

proof fn lemma_member_index(ps: Seq<PlayerModel>, uid: Seq<u8>, j: int)
    requires
        0 <= j < ps.len(),
        ps[j].uid == uid,
        forall|k: int| 0 <= k < j ==> (#[trigger] ps[k]).uid != uid,
    ensures
        member_index(ps, uid) == Some(j),
    decreases j,
{
    if j > 0 {
        assert(ps[0].uid != uid);
        let t = ps.skip(1);
        assert forall|k: int| 0 <= k < j - 1 implies (#[trigger] t[k]).uid != uid by {
            assert(t[k] == ps[k + 1]);
        }
        lemma_member_index(t, uid, j - 1);
    }
}

proof fn lemma_member_index_none(ps: Seq<PlayerModel>, uid: Seq<u8>)
    requires
        forall|k: int| 0 <= k < ps.len() ==> (#[trigger] ps[k]).uid != uid,
    ensures
        member_index(ps, uid) is None,
    decreases ps.len(),
{
    if ps.len() > 0 {
        let t = ps.skip(1);
        assert forall|k: int| 0 <= k < t.len() implies (#[trigger] t[k]).uid != uid by {
            assert(t[k] == ps[k + 1]);
        }
        lemma_member_index_none(t, uid);
    }
}

/// The new record of one group after renaming the player (see
/// `group_member_renamed`).
fn renamed_group_record(v: &PropTree, uid: &[u8; 16], name: &str) -> (r: Result<Option<Vec<u8>>, String>)
    ensures
        match group_member_renamed(tree_model(*v), uid@, name@) {
            None => r is Err,
            Some(None) => r == Ok::<Option<Vec<u8>>, String>(None),
            Some(Some(v2)) => r matches Ok(Some(b)) && v2 == with_raw(tree_model(*v), b@),
        },
{
    if !is_guild_group(v) {
        return Ok(None);
    }
    let bytes = match raw_data_bytes(v) {
        Some(b) => b,
        None => return Ok(None),
    };
    let mut guild = match decode_guild_raw(bytes.as_slice()) {
        Ok(g) => g,
        Err(e) => return Err(e),
    };
    if !rename_member(&mut guild, uid, name) {
        return Ok(None);
    }
    match encode_guild_raw(&guild) {
        Ok(b) => Ok(Some(b)),
        Err(e) => Err(e),
    }
}

/// The group map renamed from position `i` on, behind the entries before it.
pub open spec fn renamed_from(m: Seq<(PropModel, PropModel)>, i: int, uid: Seq<u8>, name: Seq<char>) -> Option<(Seq<(PropModel, PropModel)>, bool)> {
    match groups_member_renamed(m.skip(i), uid, name) {
        Some((rest, f)) => Some((m.take(i) + rest, f)),
        None => None,
    }
}

#[verifier::spinoff_prover]
#[verifier::rlimit(40)]
proof fn lemma_renamed_step(m: Seq<(PropModel, PropModel)>, i: int, uid: Seq<u8>, name: Seq<char>)
    requires
        0 <= i < m.len(),
    ensures
        renamed_from(m, i, uid, name) == match group_member_renamed(m[i].1, uid, name) {
            None => None,
            Some(Some(v2)) => Some((m.update(i, (m[i].0, v2)), true)),
            Some(None) => renamed_from(m, i + 1, uid, name),
        },
{
    let t = m.skip(i);
    assert(t[0] == m[i]);
    assert(t.skip(1) =~= m.skip(i + 1));
    match group_member_renamed(m[i].1, uid, name) {
        None => {},
        Some(Some(v2)) => {
            assert(m.take(i) + t.update(0, (t[0].0, v2)) =~= m.update(i, (m[i].0, v2)));
        },
        Some(None) => {
            match groups_member_renamed(m.skip(i + 1), uid, name) {
                Some((rest, f)) => {
                    assert(m.take(i) + (seq![m[i]] + rest) =~= m.take(i + 1) + rest);
                },
                None => {},
            }
        },
    }
}

/// Renames the player `uid` in the member list of the first guild of the
/// group map that holds it (see `groups_member_renamed`); returns whether
/// one did. On an error the map is as it was.
#[verifier::spinoff_prover]
#[verifier::rlimit(40)]
pub fn rename_member_in_groups(entries: &mut Vec<(PropTree, PropTree)>, uid: &[u8; 16], name: &str) -> (r: Result<bool, String>)
    ensures
        match groups_member_renamed(entries_model(old(entries)@), uid@, name@) {
            Some((es, f)) => r == Ok::<bool, String>(f) && entries_model(final(entries)@) == es,
            None => r is Err && final(entries)@ == old(entries)@,
        },
{
    let ghost m = entries_model(entries@);
    let len = entries.len();
    let mut i: usize = 0;
    assert(m.skip(0) =~= m);
    assert(m.take(0) + m =~= m);
    while i < len
        invariant
            len == entries@.len(),
            m == entries_model(entries@),
            entries@ == old(entries)@,
            i <= len,
            groups_member_renamed(m, uid@, name@) == renamed_from(m, i as int, uid@, name@),
        decreases len - i,
    {
        assert(m[i as int] == (tree_model(entries@[i as int].0), tree_model(entries@[i as int].1)));
        proof {
            lemma_renamed_step(m, i as int, uid@, name@);
        }
        match renamed_group_record(&entries[i].1, uid, name) {
            Err(e) => {
                return Err(e);
            },
            Ok(None) => {},
            Ok(Some(b)) => {
                let ghost before = entries@;
                let (k, mut v) = entries.remove(i);
                set_raw_data(&mut v, b);
                entries.insert(i, (k, v));
                assert(entries@ =~= before.update(i as int, (k, v)));
                assert(entries_model(entries@) =~= m.update(i as int, (m[i as int].0, tree_model(v))));
                return Ok(true);
            },
        }
        i = i + 1;
    }
    assert(m.skip(len as int) =~= Seq::<(PropModel, PropModel)>::empty());
    assert(m.take(len as int) + m.skip(len as int) =~= m);
    Ok(false)
}


/// The character stream `ps` with its player renamed `name`, when it can be
/// (see `rename_in_player_stream`).
pub open spec fn stream_renamed(ps: Seq<(Seq<char>, PropModel)>, name: Seq<char>) -> Option<Seq<(Seq<char>, PropModel)>> {
    match save_parameter_fields(ps) {
        Some((i, t, h, f)) => if nickname_writable(f) {
            Some(with_save_data(ps, i, t, h, with_nickname(f, name)))
        } else {
            None
        },
        None => None,
    }
}

/// The position of the first character-map entry whose key names the
/// player `uid`.
pub open spec fn player_entry_index(es: Seq<(PropModel, PropModel)>, uid: Seq<u8>) -> Option<int>
    decreases es.len(),
{
    if es.len() == 0 {
        None
    } else {
        match player_entry_index(es.drop_last(), uid) {
            Some(i) => Some(i),
            None => if key_guid_spec(es.last().0, "PlayerUId"@) == Some(uid) {
                Some(es.len() - 1)
            } else {
                None
            },
        }
    }
}

/// The player's record after its stream `b` was renamed into `out`: what
/// `read_stream` read of `b`, renamed, and written back by `write_stream`.
pub open spec fn renamed_through<R, W>(read_stream: R, write_stream: W, b: Seq<u8>, name: Seq<char>, out: Seq<u8>) -> bool where
    R: Fn(Vec<u8>) -> Result<(Vec<(String, PropTree)>, Vec<u8>), String>,
    W: Fn(Vec<(String, PropTree)>, Vec<u8>) -> Result<Vec<u8>, String>,
{
    exists|v: Vec<u8>, ps: Vec<(String, PropTree)>, tail: Vec<u8>, ps2: Vec<(String, PropTree)>, o: Vec<u8>|
        {
            &&& v@ == b
            &&& #[trigger] call_ensures(read_stream, (v,), Ok::<(Vec<(String, PropTree)>, Vec<u8>), String>((ps, tail)))
            &&& stream_renamed(props_model(ps@), name) == Some(props_model(ps2@))
            &&& #[trigger] call_ensures(write_stream, (ps2, tail), Ok::<Vec<u8>, String>(o))
            &&& o@ == out
        }
}

/// The refusal of `rename_in_player_stream` for the stream `ps`.
pub open spec fn rename_refusal(ps: Seq<(Seq<char>, PropModel)>) -> Seq<char> {
    if save_parameter_fields(ps) is None {
        "玩家记录缺少 SaveParameter"@
    } else {
        "玩家记录缺少可写的 NickName"@
    }
}

/// Where an error of renaming through the stream `b` comes from: the
/// reader, the rename's own refusal of what was read, or the writer.
pub open spec fn rename_error_from<R, W>(read_stream: R, write_stream: W, b: Seq<u8>, name: Seq<char>, e: String) -> bool where
    R: Fn(Vec<u8>) -> Result<(Vec<(String, PropTree)>, Vec<u8>), String>,
    W: Fn(Vec<(String, PropTree)>, Vec<u8>) -> Result<Vec<u8>, String>,
{
    ||| exists|v: Vec<u8>| v@ == b && #[trigger] call_ensures(read_stream, (v,), Err::<(Vec<(String, PropTree)>, Vec<u8>), String>(e))
    ||| exists|v: Vec<u8>, ps: Vec<(String, PropTree)>, tail: Vec<u8>|
        v@ == b && #[trigger] call_ensures(read_stream, (v,), Ok::<(Vec<(String, PropTree)>, Vec<u8>), String>((ps, tail)))
        && stream_renamed(props_model(ps@), name) is None && e@ == rename_refusal(props_model(ps@))
    ||| exists|ps2: Vec<(String, PropTree)>, tail: Vec<u8>| #[trigger] call_ensures(write_stream, (ps2, tail), Err::<Vec<u8>, String>(e))
}

/// Renaming through the stream `b` cannot fail: every read of it gives a
/// stream whose nickname can be set, and every write succeeds.
pub open spec fn rename_owed<R, W>(read_stream: R, write_stream: W, b: Seq<u8>, name: Seq<char>) -> bool where
    R: Fn(Vec<u8>) -> Result<(Vec<(String, PropTree)>, Vec<u8>), String>,
    W: Fn(Vec<(String, PropTree)>, Vec<u8>) -> Result<Vec<u8>, String>,
{
    &&& forall|v: Vec<u8>, res: Result<(Vec<(String, PropTree)>, Vec<u8>), String>|
        v@ == b && #[trigger] call_ensures(read_stream, (v,), res) ==> (res matches Ok((ps, _)) && stream_renamed(props_model(ps@), name) is Some)
    &&& forall|ps2: Vec<(String, PropTree)>, t: Vec<u8>, res: Result<Vec<u8>, String>|
        #[trigger] call_ensures(write_stream, (ps2, t), res) ==> res is Ok
}

/// Renames the player `uid` in its own record of a world's character map:
/// the first entry whose key names the player has its `RawData` stream read
/// by `read_stream`, its nickname set (see `rename_in_player_stream`), and
/// written back by `write_stream`. Refused, with the map unchanged, when no
/// entry names the player (`所选玩家不存在`), when its record has no
/// `RawData`, or when reading, renaming or writing the stream fails.
#[verifier::spinoff_prover]
pub fn rename_player_record<R, W>(
    entries: &mut Vec<(PropTree, PropTree)>,
    uid: &[u8; 16],
    name: &str,
    read_stream: R,
    write_stream: W,
) -> (r: Result<(), String>) where
    R: Fn(Vec<u8>) -> Result<(Vec<(String, PropTree)>, Vec<u8>), String>,
    W: Fn(Vec<(String, PropTree)>, Vec<u8>) -> Result<Vec<u8>, String>,

    requires
        forall|v: Vec<u8>| call_requires(read_stream, (v,)),
        forall|ps: Vec<(String, PropTree)>, t: Vec<u8>| call_requires(write_stream, (ps, t)),
    ensures
        r is Err ==> final(entries)@ == old(entries)@,
        match player_entry_index(entries_model(old(entries)@), uid@) {
            None => r matches Err(e) && e@ == "所选玩家不存在"@,
            Some(i) => match raw_data(entries_model(old(entries)@)[i].1) {
                None => r matches Err(e) && e@ == "玩家记录缺少 RawData"@,
                Some(b) => {
                    &&& r is Ok ==> exists|out: Seq<u8>| #[trigger] renamed_through(read_stream, write_stream, b, name@, out)
                        && entries_model(final(entries)@) == entries_model(old(entries)@).update(i, (entries_model(old(entries)@)[i].0,
                        with_raw(entries_model(old(entries)@)[i].1, out)))
                    &&& r is Err ==> rename_error_from(read_stream, write_stream, b, name@, r->Err_0)
                    &&& rename_owed(read_stream, write_stream, b, name@) ==> r is Ok
                },
            },
        },
{
    let ghost m = entries_model(entries@);
    let len = entries.len();
    let mut i: usize = 0;
    assert(m.take(0) =~= Seq::<(PropModel, PropModel)>::empty());
    while i < len
        invariant
            len == entries@.len(),
            m == entries_model(entries@),
            entries@ == old(entries)@,
            i <= len,
            player_entry_index(m.take(i as int), uid@) is None,
            forall|v: Vec<u8>| call_requires(read_stream, (v,)),
            forall|ps: Vec<(String, PropTree)>, t: Vec<u8>| call_requires(write_stream, (ps, t)),
        decreases len - i,
    {
        assert(m[i as int] == (tree_model(entries@[i as int].0), tree_model(entries@[i as int].1)));
        assert(m.take(i + 1).drop_last() =~= m.take(i as int));
        assert(m.take(i + 1).last() == m[i as int]);
        let found = match key_guid(&entries[i].0, "PlayerUId") {
            Some(g) => guid_eq(&g, uid),
            None => false,
        };
        if found {
            proof {
                lemma_entry_index_prefix(m, i as int + 1, uid@);
            }
            let bytes = match raw_data_bytes(&entries[i].1) {
                Some(b) => {
                    let mut v: Vec<u8> = Vec::new();
                    v.extend_from_slice(b.as_slice());
                    assert(v@ =~= b@);
                    v
                },
                None => return Err(String::from_str("玩家记录缺少 RawData")),
            };
            let ghost bv = bytes;
            let (mut props, tail) = match read_stream(bytes) {
                Ok(x) => x,
                Err(e) => {
                    assert(call_ensures(read_stream, (bv,), Err::<(Vec<(String, PropTree)>, Vec<u8>), String>(e)));
                    return Err(e);
                },
            };
            let ghost ps = props;
            let ghost tl = tail;
            assert(call_ensures(read_stream, (bv,), Ok::<(Vec<(String, PropTree)>, Vec<u8>), String>((ps, tl))));
            match rename_in_player_stream(&mut props, name) {
                Ok(()) => {},
                Err(e) => {
                    assert(stream_renamed(props_model(ps@), name@) is None && e@ == rename_refusal(props_model(ps@)));
                    return Err(e);
                },
            }
            let ghost ps2 = props;
            let out = match write_stream(props, tail) {
                Ok(o) => o,
                Err(e) => {
                    assert(call_ensures(write_stream, (ps2, tl), Err::<Vec<u8>, String>(e)));
                    return Err(e);
                },
            };
            assert(stream_renamed(props_model(ps@), name@) == Some(props_model(ps2@)));
            assert(renamed_through(read_stream, write_stream, bv@, name@, out@));
            let ghost before = entries@;
            let (k, mut v) = entries.remove(i);
            set_raw_data(&mut v, out);
            entries.insert(i, (k, v));
            assert(entries@ =~= before.update(i as int, (k, v)));
            assert(entries_model(entries@) =~= m.update(i as int, (m[i as int].0, tree_model(v))));
            return Ok(());
        }
        i = i + 1;
    }
    assert(m.take(len as int) =~= m);
    Err(String::from_str("所选玩家不存在"))
}

proof fn lemma_entry_index_prefix(m: Seq<(PropModel, PropModel)>, n: int, uid: Seq<u8>)
    requires
        0 < n <= m.len(),
        player_entry_index(m.take(n - 1), uid) is None,
        key_guid_spec(m[n - 1].0, "PlayerUId"@) == Some(uid),
    ensures
        player_entry_index(m, uid) == Some(n - 1),
    decreases m.len() - n,
{
    assert(m.take(n).drop_last() =~= m.take(n - 1));
    assert(m.take(n).last() == m[n - 1]);
    assert(player_entry_index(m.take(n), uid) == Some(n - 1));
    if n < m.len() {
        lemma_entry_index_grow(m, n, uid);
    } else {
        assert(m.take(n) =~= m);
    }
}

proof fn lemma_entry_index_grow(m: Seq<(PropModel, PropModel)>, n: int, uid: Seq<u8>)
    requires
        0 < n <= m.len(),
        player_entry_index(m.take(n), uid) is Some,
    ensures
        player_entry_index(m, uid) == player_entry_index(m.take(n), uid),
    decreases m.len() - n,
{
    if n < m.len() {
        assert(m.take(n + 1).drop_last() =~= m.take(n));
        lemma_entry_index_grow(m, n + 1, uid);
    } else {
        assert(m.take(n) =~= m);
    }
}
} // verus!
