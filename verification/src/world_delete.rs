//! Deleting a player or a guild from a world's `worldSaveData` fields: the
//! character map, the character containers, the group map and the maps
//! keyed by guild or base, edited together.

use vstd::prelude::*;
use crate::deletion::{
    clear_deleted_character_slots_in_property, clr_pm, deleted_instances, find_guild, find_guild_raw, guild_groups,
    kept_by_guid, kept_characters, kept_groups, names_player, owners_view, player_groups, remove_entries_by_guid,
    remove_members_from_groups, remove_player_from_groups, removed_insts, retain_characters, retain_groups,
    CharacterOwner,
};
use crate::identity::{field_index, lemma_field_index, text_is};
use crate::ownership::{
    build_container_ownership, chars_view, container_pairs, ids, key_guid, key_guid_spec, lookup, opt_id, owner_of,
};
use crate::prop_tree::{entries_model, fields_model, tree_model, trees_model, PropModel, PropTree};
use crate::guild_raw::{GuildModel, GuildRaw, PlayerModel};

verus! {

/// The map in the first property of the field `name`: the field's index, the
/// map's header and its entries.
pub open spec fn map_at(f: Seq<(Seq<char>, Seq<PropModel>)>, name: Seq<char>) -> Option<(int, u64, Seq<(PropModel, PropModel)>)> {
    match field_index(f, name) {
        Some(j) => if 0 <= j < f.len() && f[j].1.len() > 0 {
            match f[j].1[0] {
                PropModel::MapProp(h, es) => Some((j, h, es)),
                _ => None,
            }
        } else {
            None
        },
        None => None,
    }
}

/// The fields `f` with the first property of field `j` set to `p`.
pub open spec fn set_first(f: Seq<(Seq<char>, Seq<PropModel>)>, j: int, p: PropModel) -> Seq<(Seq<char>, Seq<PropModel>)> {
    f.update(j, (f[j].0, f[j].1.update(0, p)))
}

/// The first property of the field `name`, with the field's index.
pub open spec fn first_at(f: Seq<(Seq<char>, Seq<PropModel>)>, name: Seq<char>) -> Option<(int, PropModel)> {
    match field_index(f, name) {
        Some(j) => if 0 <= j < f.len() && f[j].1.len() > 0 {
            Some((j, f[j].1[0]))
        } else {
            None
        },
        None => None,
    }
}

/// The fields `f` without the entries of the map `name` that name one of
/// the ids `rm` (see `kept_by_guid`).
pub open spec fn drop_by_guid(f: Seq<(Seq<char>, Seq<PropModel>)>, name: Seq<char>, rm: Seq<Seq<u8>>) -> Seq<(Seq<char>, Seq<PropModel>)> {
    match map_at(f, name) {
        Some((j, h, es)) => set_first(f, j, PropModel::MapProp(h, kept_by_guid(es, rm))),
        None => f,
    }
}

pub(crate) fn find_field(fields: &Vec<(String, Vec<PropTree>)>, name: &str) -> (r: Option<usize>)
    ensures
        match r {
            Some(k) => field_index(fields_model(fields@), name@) == Some(k as int) && k < fields@.len(),
            None => field_index(fields_model(fields@), name@) is None,
        },
{
    let ghost m = fields_model(fields@);
    proof {
        lemma_field_index(m, name@);
    }
    let mut i: usize = 0;
    while i < fields.len()
        invariant
            m == fields_model(fields@),
            i <= fields@.len(),
            forall|k: int| 0 <= k < i ==> (#[trigger] m[k]).0 != name@,
            match field_index(m, name@) {
                Some(j) => 0 <= j < m.len() && m[j].0 == name@ && forall|k: int| 0 <= k < j ==> (#[trigger] m[k]).0 != name@,
                None => forall|k: int| 0 <= k < m.len() ==> (#[trigger] m[k]).0 != name@,
            },
        decreases fields@.len() - i,
    {
        assert(m[i as int].0 == fields@[i as int].0@);
        if text_is(&fields[i].0, name) {
            proof {
                match field_index(m, name@) {
                    Some(j) => {
                        if j > i {
                            assert(m[i as int].0 == name@);
                        }
                    },
                    None => {
                        assert(m[i as int].0 == name@);
                    },
                }
            }
            return Some(i);
        }
        i = i + 1;
    }
    None
}

/// Takes the entries out of the map in the first property of the field
/// `name`, leaving the map empty in place.
pub(crate) fn take_map(fields: &mut Vec<(String, Vec<PropTree>)>, name: &str) -> (r: Option<(usize, u64, Vec<(PropTree, PropTree)>)>)
    ensures
        match map_at(fields_model(old(fields)@), name@) {
            Some((j, h, es)) => r matches Some((rj, rh, re)) && rj == j && rh == h && entries_model(re@) == es
                && fields_model(final(fields)@) == set_first(fields_model(old(fields)@), j, PropModel::MapProp(h, Seq::empty())),
            None => r is None && final(fields)@ == old(fields)@,
        },
{
    let ghost m = fields_model(fields@);
    let j = match find_field(fields, name) {
        Some(j) => j,
        None => {
            assert(map_at(m, name@) is None);
            return None;
        },
    };
    assert(field_index(m, name@) == Some(j as int));
    let ghost fj = fields@[j as int];
    assert(m[j as int] == (fj.0@, trees_model(fj.1@)));
    if fields[j].1.len() == 0 {
        assert(m[j as int].1.len() == 0);
        assert(map_at(m, name@) is None);
        return None;
    }
    assert(m[j as int].1[0] == tree_model(fj.1@[0]));
    match &fields[j].1[0] {
        PropTree::MapProp { .. } => {},
        _ => {
            assert(!(m[j as int].1[0] is MapProp));
            assert(map_at(m, name@) is None);
            return None;
        },
    }
    let ghost before = fields@;
    let (fname, mut props) = fields.remove(j);
    assert((fname, props) == fj);
    let ghost pbefore = props@;
    let first = props.remove(0);
    assert(first == fj.1@[0]);
    match first {
        PropTree::MapProp { header, entries } => {
            let emptied = PropTree::MapProp { header, entries: Vec::new() };
            props.insert(0, emptied);
            assert(props@ =~= pbefore.update(0, emptied));
            assert(trees_model(props@) =~= trees_model(pbefore).update(0, tree_model(emptied)));
            fields.insert(j, (fname, props));
            assert(fields@ =~= before.update(j as int, (fname, props)));
            assert(entries_model(Seq::<(PropTree, PropTree)>::empty()) =~= Seq::<(PropModel, PropModel)>::empty());
            assert(fields_model(fields@) =~= set_first(m, j as int, PropModel::MapProp(header, Seq::empty())));
            Some((j, header, entries))
        },
        other => {
            proof {
                assert(false);
            }
            props.insert(0, other);
            fields.insert(j, (fname, props));
            None
        },
    }
}

/// Sets the first property of field `j` to the map `header`, `entries`.
pub(crate) fn put_map(fields: &mut Vec<(String, Vec<PropTree>)>, j: usize, header: u64, entries: Vec<(PropTree, PropTree)>)
    requires
        j < old(fields)@.len(),
        old(fields)@[j as int].1@.len() > 0,
    ensures
        fields_model(final(fields)@) == set_first(fields_model(old(fields)@), j as int, PropModel::MapProp(header, entries_model(entries@))),
{
    let ghost m = fields_model(fields@);
    let ghost before = fields@;
    let (fname, mut props) = fields.remove(j);
    let ghost pbefore = props@;
    let _old = props.remove(0);
    let p = PropTree::MapProp { header, entries };
    props.insert(0, p);
    assert(props@ =~= pbefore.update(0, p));
    assert(trees_model(props@) =~= trees_model(pbefore).update(0, tree_model(p)));
    fields.insert(j, (fname, props));
    assert(fields@ =~= before.update(j as int, (fname, props)));
    assert(m[j as int] == (before[j as int].0@, trees_model(pbefore)));
    assert(fields_model(fields@) =~= set_first(m, j as int, tree_model(p)));
}

/// Empties the removed slots in the first property of the field `name`
/// (see `clr_pm`), when the field has one.
fn clear_slots_at(fields: &mut Vec<(String, Vec<PropTree>)>, name: &str, uids: &Vec<[u8; 16]>, insts: &Vec<[u8; 16]>)
    ensures
        fields_model(final(fields)@) == match first_at(fields_model(old(fields)@), name@) {
            Some((j, p)) => set_first(fields_model(old(fields)@), j, clr_pm(p, ids(uids@), ids(insts@))),
            None => fields_model(old(fields)@),
        },
{
    let ghost m = fields_model(fields@);
    let j = match find_field(fields, name) {
        Some(j) => j,
        None => return,
    };
    assert(m[j as int] == (fields@[j as int].0@, trees_model(fields@[j as int].1@)));
    if fields[j].1.len() == 0 {
        return;
    }
    assert(m[j as int].1[0] == tree_model(fields@[j as int].1@[0]));
    let ghost before = fields@;
    let (fname, mut props) = fields.remove(j);
    let ghost pbefore = props@;
    let mut first = props.remove(0);
    clear_deleted_character_slots_in_property(&mut first, uids, insts);
    props.insert(0, first);
    assert(props@ =~= pbefore.update(0, first));
    assert(trees_model(props@) =~= trees_model(pbefore).update(0, tree_model(first)));
    fields.insert(j, (fname, props));
    assert(fields@ =~= before.update(j as int, (fname, props)));
    assert(fields_model(fields@) =~= set_first(m, j as int, tree_model(first)));
}

/// Removes the entries of the map `name` that name one of the ids
/// `removed` (see `drop_by_guid`).
fn drop_entries_at(fields: &mut Vec<(String, Vec<PropTree>)>, name: &str, removed: &Vec<[u8; 16]>)
    ensures
        fields_model(final(fields)@) == drop_by_guid(fields_model(old(fields)@), name@, ids(removed@)),
{
    let ghost m = fields_model(fields@);
    match take_map(fields, name) {
        Some((j, h, mut es)) => {
            let ghost es0 = entries_model(es@);
            proof {
                assert(map_at(m, name@) is Some);
                let t = map_at(m, name@)->0;
                let jj = t.0;
                assert(jj == j as int);
                assert(0 <= jj < m.len());
                assert(m.len() == old(fields)@.len());
            }
            remove_entries_by_guid(&mut es, removed);
            let ghost mid = fields_model(fields@);
            assert(mid.len() == fields@.len());
            assert(mid[j as int] == (fields@[j as int].0@, trees_model(fields@[j as int].1@)));
            assert(mid[j as int].1.len() == m[j as int].1.len());
            put_map(fields, j, h, es);
            assert(m[j as int].1.update(0, PropModel::MapProp(h, Seq::empty())).update(0, PropModel::MapProp(h, entries_model(es@))) =~= m[j as int].1.update(0, PropModel::MapProp(h, entries_model(es@))));
            assert(fields_model(fields@) =~= drop_by_guid(m, name@, ids(removed@)));
        },
        None => {},
    }
}

/// The entries of the map in the first property of the field `name`.
pub(crate) fn map_entries_ref<'a>(fields: &'a Vec<(String, Vec<PropTree>)>, name: &str) -> (r: Option<&'a Vec<(PropTree, PropTree)>>)
    ensures
        match map_at(fields_model(fields@), name@) {
            Some((_, _, es)) => r matches Some(v) && entries_model(v@) == es,
            None => r is None,
        },
{
    let ghost m = fields_model(fields@);
    let j = match find_field(fields, name) {
        Some(j) => j,
        None => {
            return None;
        },
    };
    let ghost fj = fields@[j as int];
    assert(m[j as int] == (fj.0@, trees_model(fj.1@)));
    if fields[j].1.len() == 0 {
        return None;
    }
    assert(m[j as int].1[0] == tree_model(fj.1@[0]));
    match &fields[j].1[0] {
        PropTree::MapProp { entries, .. } => Some(entries),
        _ => None,
    }
}

/// (instance, owner) of each character-map entry whose save `cs` reads,
/// in order: what the container owner votes count.
pub open spec fn chars_of_map(es: Seq<(PropModel, PropModel)>, cs: Seq<Option<(bool, Option<Seq<u8>>)>>) -> Seq<(Option<Seq<u8>>, Option<Seq<u8>>)>
    decreases es.len(),
{
    if es.len() == 0 || cs.len() != es.len() {
        Seq::empty()
    } else {
        let r = chars_of_map(es.drop_last(), cs.drop_last());
        match cs.last() {
            Some((_, owner)) => r.push((key_guid_spec(es.last().0, "InstanceId"@), owner)),
            None => r,
        }
    }
}

fn character_pairs(entries: &Vec<(PropTree, PropTree)>, characters: &Vec<Option<CharacterOwner>>) -> (r: Vec<(Option<[u8; 16]>, Option<[u8; 16]>)>)
    requires
        characters@.len() == entries@.len(),
    ensures
        chars_view(r@) == chars_of_map(entries_model(entries@), owners_view(characters@)),
{
    let ghost m = entries_model(entries@);
    let ghost cs = owners_view(characters@);
    let mut out: Vec<(Option<[u8; 16]>, Option<[u8; 16]>)> = Vec::new();
    let mut i: usize = 0;
    assert(chars_view(out@) =~= Seq::<(Option<Seq<u8>>, Option<Seq<u8>>)>::empty());
    while i < entries.len()
        invariant
            m == entries_model(entries@),
            cs == owners_view(characters@),
            characters@.len() == entries@.len(),
            i <= entries@.len(),
            chars_view(out@) == chars_of_map(m.take(i as int), cs.take(i as int)),
        decreases entries@.len() - i,
    {
        assert(m.take(i + 1).drop_last() =~= m.take(i as int));
        assert(cs.take(i + 1).drop_last() =~= cs.take(i as int));
        assert(m.take(i + 1).last() == m[i as int]);
        assert(cs.take(i + 1).last() == cs[i as int]);
        assert(m[i as int].0 == tree_model(entries@[i as int].0));
        match characters[i] {
            Some(c) => {
                let inst = key_guid(&entries[i].0, "InstanceId");
                let ghost before = chars_view(out@);
                out.push((inst, c.owner));
                assert(chars_view(out@) =~= before.push((opt_id(inst), opt_id(c.owner))));
            },
            None => {},
        }
        i = i + 1;
    }
    assert(m.take(entries@.len() as int) =~= m);
    assert(cs.take(entries@.len() as int) =~= cs);
    out
}

/// The (instance, container) pairs of the world's containers map, if any.
pub open spec fn world_containers(f: Seq<(Seq<char>, Seq<PropModel>)>) -> Seq<(Seq<u8>, Seq<u8>)> {
    match map_at(f, "CharacterContainerSaveData"@) {
        Some((_, _, ces)) => container_pairs(ces),
        None => Seq::empty(),
    }
}

/// The characters that go with the players `u` in the world `f` (see
/// `removed_insts`): containers go to their majority owners (see
/// `owner_of`), counted over the character map.
pub open spec fn world_removed_insts(
    f: Seq<(Seq<char>, Seq<PropModel>)>,
    es: Seq<(PropModel, PropModel)>,
    cs: Seq<Option<(bool, Option<Seq<u8>>)>>,
    u: Seq<Seq<u8>>,
) -> Seq<Seq<u8>> {
    let ic = world_containers(f);
    let chars = chars_of_map(es, cs);
    removed_insts(es, cs, ic, |c: Seq<u8>| owner_of(chars, ic, c), u)
}

/// Whether the character map `es` names one of the players `u`.
pub open spec fn map_names(es: Seq<(PropModel, PropModel)>, u: Seq<Seq<u8>>) -> bool {
    exists|k: int| 0 <= k < es.len() && names_player(#[trigger] es[k].0, u)
}

/// Which characters go with the players `uids` (see `world_removed_insts`),
/// and whether the character map names one of them; `None` when the world
/// has no character map.
fn removal_plan(world: &Vec<(String, Vec<PropTree>)>, uids: &Vec<[u8; 16]>, characters: &Vec<Option<CharacterOwner>>) -> (r: Option<(bool, Vec<[u8; 16]>)>)
    requires
        map_at(fields_model(world@), "CharacterSaveParameterMap"@) matches Some((_, _, es)) ==> characters@.len() == es.len(),
    ensures
        match map_at(fields_model(world@), "CharacterSaveParameterMap"@) {
            None => r is None,
            Some((_, _, es)) => r matches Some((found, insts)) && found == map_names(es, ids(uids@)) && ids(insts@)
                == world_removed_insts(fields_model(world@), es, owners_view(characters@), ids(uids@)),
        },
{
    let ghost f = fields_model(world@);
    let cspm = match map_entries_ref(world, "CharacterSaveParameterMap") {
        Some(c) => c,
        None => {
            return None;
        },
    };
    let ghost es = entries_model(cspm@);
    let empty: Vec<(PropTree, PropTree)> = Vec::new();
    let containers: &Vec<(PropTree, PropTree)> = match map_entries_ref(world, "CharacterContainerSaveData") {
        Some(c) => c,
        None => &empty,
    };
    assert(entries_model(empty@) =~= Seq::<(PropModel, PropModel)>::empty());
    let ghost ic = world_containers(f);
    assert(container_pairs(entries_model(containers@)) == ic);
    let chars = character_pairs(cspm, characters);
    let index = build_container_ownership(containers, &chars);
    let ghost cs = owners_view(characters@);
    let ghost chs = chars_of_map(es, cs);
    assert((|c: Seq<u8>| lookup(pairs_of(&index), c)) =~= (|c: Seq<u8>| owner_of(chs, ic, c)));
    let (found, insts) = deleted_instances(cspm, characters, &index, uids);
    Some((found, insts))
}

spec fn pairs_of(index: &crate::ownership::ContainerOwnershipIndex) -> Seq<(Seq<u8>, Seq<u8>)> {
    crate::ownership::pairs(index.container_owners@)
}

/// The world without the characters `insts` and the players `u` in the
/// character map, and with their container slots emptied.
pub open spec fn characters_stripped(
    f: Seq<(Seq<char>, Seq<PropModel>)>,
    u: Seq<Seq<u8>>,
    insts: Seq<Seq<u8>>,
) -> Seq<(Seq<char>, Seq<PropModel>)> {
    match map_at(f, "CharacterSaveParameterMap"@) {
        None => f,
        Some((j, h, es)) => {
            let f1 = set_first(f, j, PropModel::MapProp(h, kept_characters(es, u, insts)));
            match first_at(f1, "CharacterContainerSaveData"@) {
                Some((jc, p)) => set_first(f1, jc, clr_pm(p, u, insts)),
                None => f1,
            }
        },
    }
}

/// The world once the player `uid`'s characters are gone: its own and
/// those it owns leave the character map, and their container slots are
/// emptied; `None` when the character map is missing or names no such
/// player.
pub open spec fn player_characters_removed(
    f: Seq<(Seq<char>, Seq<PropModel>)>,
    uid: Seq<u8>,
    cs: Seq<Option<(bool, Option<Seq<u8>>)>>,
) -> Option<Seq<(Seq<char>, Seq<PropModel>)>> {
    match map_at(f, "CharacterSaveParameterMap"@) {
        None => None,
        Some((j, h, es)) => {
            let u = seq![uid];
            if !map_names(es, u) {
                None
            } else {
                Some(characters_stripped(f, u, world_removed_insts(f, es, cs, u)))
            }
        },
    }
}

fn strip_characters(world: &mut Vec<(String, Vec<PropTree>)>, uids: &Vec<[u8; 16]>, insts: &Vec<[u8; 16]>)
    ensures
        fields_model(final(world)@) == characters_stripped(fields_model(old(world)@), ids(uids@), ids(insts@)),
{
    let ghost f0 = fields_model(world@);
    let (j, h, mut cspm) = match take_map(world, "CharacterSaveParameterMap") {
        Some(x) => x,
        None => return,
    };
    proof {
        assert(map_at(f0, "CharacterSaveParameterMap"@) is Some);
        let t = map_at(f0, "CharacterSaveParameterMap"@)->0;
        assert(t.0 == j as int);
        assert(0 <= t.0 < f0.len());
    }
    retain_characters(&mut cspm, uids, insts);
    let ghost mid = fields_model(world@);
    assert(mid.len() == world@.len());
    assert(mid[j as int] == (world@[j as int].0@, trees_model(world@[j as int].1@)));
    assert(f0[j as int].1.len() > 0);
    assert(mid[j as int].1.len() == f0[j as int].1.len());
    put_map(world, j, h, cspm);
    assert(f0[j as int].1.update(0, PropModel::MapProp(h, Seq::empty())).update(0, PropModel::MapProp(h, entries_model(cspm@))) =~= f0[j as int].1.update(0, PropModel::MapProp(h, entries_model(cspm@))));
    assert(fields_model(world@) =~= set_first(f0, j as int, PropModel::MapProp(h, entries_model(cspm@))));
    clear_slots_at(world, "CharacterContainerSaveData", uids, insts);
}

fn remove_player_characters(world: &mut Vec<(String, Vec<PropTree>)>, player_uid: &[u8; 16], characters: &Vec<Option<CharacterOwner>>) -> (r: Result<(), String>)
    requires
        map_at(fields_model(old(world)@), "CharacterSaveParameterMap"@) matches Some((_, _, es)) ==> characters@.len() == es.len(),
    ensures
        match player_characters_removed(fields_model(old(world)@), player_uid@, owners_view(characters@)) {
            Some(f) => r is Ok && fields_model(final(world)@) == f,
            None => r is Err,
        },
        map_at(fields_model(old(world)@), "CharacterSaveParameterMap"@) is None ==> (r matches Err(e) && e@ == "世界存档缺少 CharacterSaveParameterMap"@),
{
    let mut one: Vec<[u8; 16]> = Vec::new();
    one.push(*player_uid);
    assert(ids(one@) =~= seq![player_uid@]);
    let (found, insts) = match removal_plan(world, &one, characters) {
        Some(p) => p,
        None => return Err(String::from_str("世界存档缺少 CharacterSaveParameterMap")),
    };
    if !found {
        return Err(String::from_str("所选玩家不存在"));
    }
    strip_characters(world, &one, &insts);
    Ok(())
}

/// The world once the player `uid` leaves its guilds: guilds it leaves
/// empty go, with their records and bases; `None` when the group map is
/// missing or a guild blob fails.
pub open spec fn player_guilds_removed(f: Seq<(Seq<char>, Seq<PropModel>)>, uid: Seq<u8>) -> Option<Seq<(Seq<char>, Seq<PropModel>)>> {
    match map_at(f, "GroupSaveDataMap"@) {
        None => None,
        Some((jg, hg, ges)) => match player_groups(ges, uid) {
            None => None,
            Some((ges2, rg, rb)) => {
                let f3 = set_first(f, jg, PropModel::MapProp(hg, kept_groups(ges2, rg)));
                let f4 = drop_by_guid(f3, "GuildExtraSaveDataMap"@, rg);
                let f5 = drop_by_guid(f4, "BaseCampSaveData"@, rb);
                Some(drop_by_guid(f5, "InvaderSaveData"@, rb))
            },
        },
    }
}

/// The world once the player `uid` is deleted (see
/// `player_characters_removed` and `player_guilds_removed`).
pub open spec fn player_deleted(
    f: Seq<(Seq<char>, Seq<PropModel>)>,
    uid: Seq<u8>,
    cs: Seq<Option<(bool, Option<Seq<u8>>)>>,
) -> Option<Seq<(Seq<char>, Seq<PropModel>)>> {
    match player_characters_removed(f, uid, cs) {
        None => None,
        Some(f2) => player_guilds_removed(f2, uid),
    }
}

fn remove_player_guilds(world: &mut Vec<(String, Vec<PropTree>)>, player_uid: &[u8; 16]) -> (r: Result<(), String>)
    ensures
        match player_guilds_removed(fields_model(old(world)@), player_uid@) {
            Some(f) => r is Ok && fields_model(final(world)@) == f,
            None => r is Err,
        },
        map_at(fields_model(old(world)@), "GroupSaveDataMap"@) is None ==> (r matches Err(e) && e@ == "世界存档缺少 GroupSaveDataMap"@),
{
    let ghost f0 = fields_model(world@);
    let (j, h, mut groups) = match take_map(world, "GroupSaveDataMap") {
        Some(x) => x,
        None => return Err(String::from_str("世界存档缺少 GroupSaveDataMap")),
    };
    proof {
        assert(map_at(f0, "GroupSaveDataMap"@) is Some);
        let t = map_at(f0, "GroupSaveDataMap"@)->0;
        assert(t.0 == j as int);
        assert(0 <= t.0 < f0.len());
    }
    let (removed_guilds, removed_bases) = remove_player_from_groups(&mut groups, player_uid)?;
    retain_groups(&mut groups, &removed_guilds);
    let ghost mid = fields_model(world@);
    assert(mid.len() == world@.len());
    assert(mid[j as int] == (world@[j as int].0@, trees_model(world@[j as int].1@)));
    assert(f0[j as int].1.len() > 0);
    assert(mid[j as int].1.len() == f0[j as int].1.len());
    put_map(world, j, h, groups);
    assert(f0[j as int].1.update(0, PropModel::MapProp(h, Seq::empty())).update(0, PropModel::MapProp(h, entries_model(groups@))) =~= f0[j as int].1.update(0, PropModel::MapProp(h, entries_model(groups@))));
    assert(fields_model(world@) =~= set_first(f0, j as int, PropModel::MapProp(h, entries_model(groups@))));
    drop_entries_at(world, "GuildExtraSaveDataMap", &removed_guilds);
    drop_entries_at(world, "BaseCampSaveData", &removed_bases);
    drop_entries_at(world, "InvaderSaveData", &removed_bases);
    Ok(())
}

/// Deletes the player `player_uid` from a world's `worldSaveData` fields
/// (see `player_deleted`): its character and the characters it owns leave
/// the character map and their container slots; it leaves every guild, and
/// a guild it leaves empty goes with its record and bases. `characters`
/// holds, for each character-map entry in order, what its save says of its
/// owner, when it says.
pub fn delete_player_from_world(
    world: &mut Vec<(String, Vec<PropTree>)>,
    player_uid: &[u8; 16],
    characters: &Vec<Option<CharacterOwner>>,
) -> (r: Result<(), String>)
    requires
        map_at(fields_model(old(world)@), "CharacterSaveParameterMap"@) matches Some((_, _, es)) ==> characters@.len() == es.len(),
    ensures
        match player_deleted(fields_model(old(world)@), player_uid@, owners_view(characters@)) {
            Some(f) => r is Ok && fields_model(final(world)@) == f,
            None => r is Err,
        },
        map_at(fields_model(old(world)@), "CharacterSaveParameterMap"@) is None ==> (r matches Err(e) && e@ == "世界存档缺少 CharacterSaveParameterMap"@),
{
    remove_player_characters(world, player_uid, characters)?;
    remove_player_guilds(world, player_uid)
}

/// The player uids of a guild's members, in order.
pub open spec fn member_uids(g: GuildModel) -> Seq<Seq<u8>> {
    g.tail.players.map_values(|p: PlayerModel| p.uid)
}

/// The world once the guild `target` is deleted: its members' characters
/// and the characters they own leave the character map and their container
/// slots; the members leave every other guild; the guild's record goes with
/// its extra data and its bases. `None` when the character map or the group
/// map is missing, no guild `target` is found, or a guild blob fails.
pub open spec fn guild_deleted(
    f: Seq<(Seq<char>, Seq<PropModel>)>,
    target: Seq<u8>,
    cs: Seq<Option<(bool, Option<Seq<u8>>)>>,
) -> Option<Seq<(Seq<char>, Seq<PropModel>)>> {
    match map_at(f, "CharacterSaveParameterMap"@) {
        None => None,
        Some((j, h, es)) => match map_at(f, "GroupSaveDataMap"@) {
            None => None,
            Some((_, _, ges)) => match find_guild(ges, target) {
                None => None,
                Some(g) => {
                    let u = member_uids(g);
                    let f2 = characters_stripped(f, u, world_removed_insts(f, es, cs, u));
                    match map_at(f2, "GroupSaveDataMap"@) {
                        None => None,
                        Some((jg, hg, ges2)) => match guild_groups(ges2, target, u) {
                            None => None,
                            Some(ges3) => {
                                let f3 = set_first(f2, jg, PropModel::MapProp(hg, kept_groups(ges3, seq![target])));
                                let f4 = drop_by_guid(f3, "GuildExtraSaveDataMap"@, seq![target]);
                                let f5 = drop_by_guid(f4, "BaseCampSaveData"@, g.base_ids);
                                Some(drop_by_guid(f5, "InvaderSaveData"@, g.base_ids))
                            },
                        },
                    }
                },
            },
        },
    }
}

fn member_uid_list(g: &GuildRaw) -> (r: Vec<[u8; 16]>)
    ensures
        ids(r@) == member_uids(g@),
{
    let mut out: Vec<[u8; 16]> = Vec::new();
    let mut i: usize = 0;
    while i < g.players.len()
        invariant
            i <= g.players@.len(),
            ids(out@) == member_uids(g@).take(i as int),
        decreases g.players@.len() - i,
    {
        let ghost before = ids(out@);
        out.push(g.players[i].player_uid);
        assert(ids(out@) =~= before.push(g.players@[i as int].player_uid@));
        assert(member_uids(g@).take(i + 1) =~= member_uids(g@).take(i as int).push(member_uids(g@)[i as int]));
        i = i + 1;
    }
    assert(member_uids(g@).take(g.players@.len() as int) =~= member_uids(g@));
    out
}

fn remove_guild_records(world: &mut Vec<(String, Vec<PropTree>)>, target: &GuildRaw, uids: &Vec<[u8; 16]>) -> (r: Result<(), String>)
    ensures
        match map_at(fields_model(old(world)@), "GroupSaveDataMap"@) {
            None => r is Err,
            Some((jg, hg, ges2)) => match guild_groups(ges2, target@.group_id, ids(uids@)) {
                None => r is Err,
                Some(ges3) => r is Ok && fields_model(final(world)@) == {
                    let f3 = set_first(fields_model(old(world)@), jg, PropModel::MapProp(hg, kept_groups(ges3, seq![target@.group_id])));
                    let f4 = drop_by_guid(f3, "GuildExtraSaveDataMap"@, seq![target@.group_id]);
                    let f5 = drop_by_guid(f4, "BaseCampSaveData"@, target@.base_ids);
                    drop_by_guid(f5, "InvaderSaveData"@, target@.base_ids)
                },
            },
        },
{
    let ghost f0 = fields_model(world@);
    let (j, h, mut groups) = match take_map(world, "GroupSaveDataMap") {
        Some(x) => x,
        None => return Err(String::from_str("世界存档缺少 GroupSaveDataMap")),
    };
    proof {
        assert(map_at(f0, "GroupSaveDataMap"@) is Some);
        let t = map_at(f0, "GroupSaveDataMap"@)->0;
        assert(t.0 == j as int);
        assert(0 <= t.0 < f0.len());
    }
    remove_members_from_groups(&mut groups, &target.group_id, uids)?;
    let mut gone: Vec<[u8; 16]> = Vec::new();
    gone.push(target.group_id);
    assert(ids(gone@) =~= seq![target@.group_id]);
    retain_groups(&mut groups, &gone);
    let ghost mid = fields_model(world@);
    assert(mid.len() == world@.len());
    assert(mid[j as int] == (world@[j as int].0@, trees_model(world@[j as int].1@)));
    assert(f0[j as int].1.len() > 0);
    assert(mid[j as int].1.len() == f0[j as int].1.len());
    put_map(world, j, h, groups);
    assert(f0[j as int].1.update(0, PropModel::MapProp(h, Seq::empty())).update(0, PropModel::MapProp(h, entries_model(groups@))) =~= f0[j as int].1.update(0, PropModel::MapProp(h, entries_model(groups@))));
    assert(fields_model(world@) =~= set_first(f0, j as int, PropModel::MapProp(h, entries_model(groups@))));
    drop_entries_at(world, "GuildExtraSaveDataMap", &gone);
    assert(ids(target.base_ids@) =~= target@.base_ids);
    drop_entries_at(world, "BaseCampSaveData", &target.base_ids);
    drop_entries_at(world, "InvaderSaveData", &target.base_ids);
    Ok(())
}

proof fn lemma_found_guild_id(es: Seq<(PropModel, PropModel)>, id: Seq<u8>)
    ensures
        find_guild(es, id) matches Some(g) ==> g.group_id == id,
    decreases es.len(),
{
    if es.len() > 0 {
        lemma_found_guild_id(es.subrange(1, es.len() as int), id);
    }
}

/// Deletes the guild `guild_id` from a world's `worldSaveData` fields (see
/// `guild_deleted`). `characters` holds, for each character-map entry in
/// order, what its save says of its owner, when it says.
#[verifier::rlimit(60)]
pub fn delete_guild_from_world(
    world: &mut Vec<(String, Vec<PropTree>)>,
    guild_id: &[u8; 16],
    characters: &Vec<Option<CharacterOwner>>,
) -> (r: Result<(), String>)
    requires
        map_at(fields_model(old(world)@), "CharacterSaveParameterMap"@) matches Some((_, _, es)) ==> characters@.len() == es.len(),
    ensures
        match guild_deleted(fields_model(old(world)@), guild_id@, owners_view(characters@)) {
            Some(f) => r is Ok && fields_model(final(world)@) == f,
            None => r is Err,
        },
        map_at(fields_model(old(world)@), "CharacterSaveParameterMap"@) is None ==> (r matches Err(e) && e@ == "世界存档缺少 CharacterSaveParameterMap"@),
        map_at(fields_model(old(world)@), "CharacterSaveParameterMap"@) is Some && map_at(fields_model(old(world)@), "GroupSaveDataMap"@) is None
            ==> (r matches Err(e) && e@ == "世界存档缺少 GroupSaveDataMap"@),
{
    let ghost f0 = fields_model(world@);
    if map_entries_ref(world, "CharacterSaveParameterMap").is_none() {
        return Err(String::from_str("世界存档缺少 CharacterSaveParameterMap"));
    }
    let target = {
        let groups = match map_entries_ref(world, "GroupSaveDataMap") {
            Some(g) => g,
            None => return Err(String::from_str("世界存档缺少 GroupSaveDataMap")),
        };
        match find_guild_raw(groups, guild_id) {
            Some(g) => g,
            None => return Err(String::from_str("所选公会不存在")),
        }
    };
    proof {
        let tg = map_at(f0, "GroupSaveDataMap"@)->0;
        let ges = tg.2;
        lemma_found_guild_id(ges, guild_id@);
        assert(target@.group_id == guild_id@);
    }
    let uids = member_uid_list(&target);
    let (_, insts) = match removal_plan(world, &uids, characters) {
        Some(p) => p,
        None => return Err(String::from_str("世界存档缺少 CharacterSaveParameterMap")),
    };
    strip_characters(world, &uids, &insts);
    remove_guild_records(world, &target, &uids)
}

} // verus!
