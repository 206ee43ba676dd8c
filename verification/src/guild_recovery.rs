//! Finding the guild a moved character belonged to in its original world,
//! and whether it led that guild, from the world's group map.

use vstd::prelude::*;
use crate::guid_bytes::guid_eq;
use crate::guild_patch::{guild_contains_handle, guild_has_handle, guild_restore, patch_original_guild_rawdata};
use crate::identity::{any_struct_fields, any_struct_fields_of, raw_data, raw_data_bytes};
use crate::ownership::struct_guid;
use crate::prop_tree::{entries_model, fields_model, tree_model, PropModel, PropTree};
use crate::text::{decimal_text, push_decimal, push_str};
use crate::world_copy::guid_of_prop;
use crate::world_delete::{map_at, map_entries_ref};

verus! {

/// The guild a character belonged to, and whether it led it.
pub struct OriginalGuildIdentity {
    pub group_id: [u8; 16],
    pub was_admin: bool,
}

/// Sixteen bytes of `v`.
pub open spec fn filled(v: u8) -> Seq<u8> {
    Seq::new(16, |i: int| v)
}

/// The group id and `RawData` of a group record, when its key is a GUID and
/// it holds `RawData` bytes.
pub open spec fn group_and_raw(e: (PropModel, PropModel)) -> Option<(Seq<u8>, Seq<u8>)> {
    match (struct_guid(e.0), raw_data(e.1)) {
        (Some(g), Some(b)) => Some((g, b)),
        _ => None,
    }
}

/// The group records, in order, whose guild blob lists the handle
/// (`uid`, `instance`).
pub open spec fn handle_matches(es: Seq<(PropModel, PropModel)>, uid: Seq<u8>, instance: Seq<u8>) -> Seq<(Seq<u8>, Seq<u8>)>
    decreases es.len(),
{
    if es.len() == 0 {
        Seq::empty()
    } else {
        let r = handle_matches(es.drop_last(), uid, instance);
        match group_and_raw(es.last()) {
            Some((g, b)) => if guild_has_handle(b, uid, instance) == Some(true) {
                r.push((g, b))
            } else {
                r
            },
            None => r,
        }
    }
}

/// The `RawData` of the first record keyed by the group `id`: refused with
/// a text when there is none, its record is no struct, or it holds no
/// `RawData`.
pub open spec fn group_raw_for(es: Seq<(PropModel, PropModel)>, id: Seq<u8>) -> Result<Seq<u8>, Seq<char>>
    decreases es.len(),
{
    if es.len() == 0 {
        Err("找不到原单机主角色所属公会"@)
    } else if struct_guid(es[0].0) == Some(id) {
        if any_struct_fields(es[0].1) is None {
            Err("公会记录结构无效"@)
        } else {
            match raw_data(es[0].1) {
                Some(b) => Ok(b),
                None => Err("公会记录缺少 RawData"@),
            }
        }
    } else {
        group_raw_for(es.subrange(1, es.len() as int), id)
    }
}

/// Whether the character (`uid`, `instance`) led the guild whose blob is
/// `b`: read off by the restore patch towards placeholder identities; `None`
/// when the blob does not take that patch.
pub open spec fn was_admin_in(b: Seq<u8>, uid: Seq<u8>, instance: Seq<u8>) -> Option<bool> {
    match guild_restore(b, uid, filled(0xFE), instance, filled(0xFD), false) {
        Some((_, a)) => Some(a),
        None => None,
    }
}

/// Whether the character led the guild `id` of the world fields `f`:
/// `Err(Some(text))` for a refusal with that text, `Err(None)` for one whose
/// text comes from the guild patch.
pub open spec fn admin_lookup(f: Seq<(Seq<char>, Seq<PropModel>)>, id: Seq<u8>, uid: Seq<u8>, instance: Seq<u8>) -> Result<bool, Option<Seq<char>>> {
    if id == filled(0) {
        Ok(false)
    } else {
        match map_at(f, "GroupSaveDataMap"@) {
            None => Err(Some("Level.sav 缺少 GroupSaveDataMap"@)),
            Some((_, _, es)) => match group_raw_for(es, id) {
                Err(m) => Err(Some(m)),
                Ok(b) => match was_admin_in(b, uid, instance) {
                    Some(a) => Ok(a),
                    None => Err(None),
                },
            },
        }
    }
}

/// The refusal when the guild cannot be told from the records.
pub open spec fn ambiguous_message(n: nat) -> Seq<char> {
    "无法从 Level.sav 唯一识别原单机主角色所属公会，匹配到 "@ + decimal_text(n) + " 个"@
}

/// The guild the character belonged to: the declared one when there is
/// one, else the only guild whose blob lists the character's handle.
pub open spec fn identity_lookup(
    f: Seq<(Seq<char>, Seq<PropModel>)>,
    declared: Seq<u8>,
    uid: Seq<u8>,
    instance: Seq<u8>,
) -> Result<(Seq<u8>, bool), Option<Seq<char>>> {
    if declared != filled(0) {
        match admin_lookup(f, declared, uid, instance) {
            Ok(a) => Ok((declared, a)),
            Err(m) => Err(m),
        }
    } else {
        match map_at(f, "GroupSaveDataMap"@) {
            None => Err(Some("Level.sav 缺少 GroupSaveDataMap"@)),
            Some((_, _, es)) => {
                let ms = handle_matches(es, uid, instance);
                if ms.len() != 1 {
                    Err(Some(ambiguous_message(ms.len())))
                } else {
                    match was_admin_in(ms[0].1, uid, instance) {
                        Some(a) => Ok((ms[0].0, a)),
                        None => Err(None),
                    }
                }
            },
        }
    }
}

fn copy_bytes(b: &Vec<u8>) -> (r: Vec<u8>)
    ensures
        r@ == b@,
{
    let mut v: Vec<u8> = Vec::new();
    v.extend_from_slice(b.as_slice());
    assert(v@ =~= b@);
    v
}

/// Whether the character led the guild whose blob is `raw` (see
/// `was_admin_in`).
fn admin_in(raw: &Vec<u8>, uid: &[u8; 16], instance: &[u8; 16]) -> (r: Result<bool, String>)
    ensures
        match was_admin_in(raw@, uid@, instance@) {
            Some(a) => r == Ok::<bool, String>(a),
            None => r is Err,
        },
{
    let mut copy = copy_bytes(raw);
    let fe: [u8; 16] = [0xFEu8; 16];
    let fd: [u8; 16] = [0xFDu8; 16];
    assert(fe@ =~= filled(0xFE));
    assert(fd@ =~= filled(0xFD));
    let result = patch_original_guild_rawdata(&mut copy, uid, &fe, instance, &fd, false)?;
    Ok(result.source_was_admin)
}

/// Finds the `RawData` of the first record keyed by the group `id` (see
/// `group_raw_for`).
fn find_group_raw<'a>(entries: &'a Vec<(PropTree, PropTree)>, id: &[u8; 16]) -> (r: Result<&'a Vec<u8>, String>)
    ensures
        match group_raw_for(entries_model(entries@), id@) {
            Ok(b) => r matches Ok(v) && v@ == b,
            Err(m) => r matches Err(e) && e@ == m,
        },
{
    let ghost m = entries_model(entries@);
    let mut i: usize = 0;
    assert(m.subrange(0, m.len() as int) =~= m);
    while i < entries.len()
        invariant
            m == entries_model(entries@),
            i <= entries@.len(),
            group_raw_for(m, id@) == group_raw_for(m.subrange(i as int, m.len() as int), id@),
        decreases entries@.len() - i,
    {
        let ghost rest = m.subrange(i as int, m.len() as int);
        assert(rest.subrange(1, rest.len() as int) =~= m.subrange(i + 1, m.len() as int));
        assert(rest[0] == m[i as int]);
        assert(m[i as int] == (tree_model(entries@[i as int].0), tree_model(entries@[i as int].1)));
        let key = guid_of_prop(&entries[i].0);
        let hit = match key {
            Some(g) => guid_eq(&g, id),
            None => false,
        };
        if hit {
            if any_struct_fields_of(&entries[i].1).is_none() {
                return Err(String::from_str("公会记录结构无效"));
            }
            return match raw_data_bytes(&entries[i].1) {
                Some(b) => Ok(b),
                None => Err(String::from_str("公会记录缺少 RawData")),
            };
        }
        i = i + 1;
    }
    Err(String::from_str("找不到原单机主角色所属公会"))
}

/// Whether the character (`source_uid`, `source_instance`) led the guild
/// `group_id` of the world fields `world` (see `admin_lookup`); `false`
/// for the zero id.
pub fn inspect_original_guild_admin(
    world: &Vec<(String, Vec<PropTree>)>,
    group_id: &[u8; 16],
    source_uid: &[u8; 16],
    source_instance: &[u8; 16],
) -> (r: Result<bool, String>)
    ensures
        match admin_lookup(fields_model(world@), group_id@, source_uid@, source_instance@) {
            Ok(a) => r == Ok::<bool, String>(a),
            Err(Some(m)) => r matches Err(e) && e@ == m,
            Err(None) => r is Err,
        },
{
    let zero: [u8; 16] = [0u8; 16];
    assert(zero@ =~= filled(0));
    if guid_eq(group_id, &zero) {
        return Ok(false);
    }
    let entries = match map_entries_ref(world, "GroupSaveDataMap") {
        Some(e) => e,
        None => return Err(String::from_str("Level.sav 缺少 GroupSaveDataMap")),
    };
    let raw = find_group_raw(entries, group_id)?;
    admin_in(raw, source_uid, source_instance)
}

/// Collects the group records whose guild blob lists the handle (see
/// `handle_matches`).
fn collect_handle_matches(entries: &Vec<(PropTree, PropTree)>, uid: &[u8; 16], instance: &[u8; 16]) -> (r: Vec<([u8; 16], Vec<u8>)>)
    ensures
        r@.len() == handle_matches(entries_model(entries@), uid@, instance@).len(),
        forall|k: int| 0 <= k < r@.len() ==> (#[trigger] r@[k]).0@ == handle_matches(entries_model(entries@), uid@, instance@)[k].0
            && r@[k].1@ == handle_matches(entries_model(entries@), uid@, instance@)[k].1,
{
    let ghost m = entries_model(entries@);
    let mut out: Vec<([u8; 16], Vec<u8>)> = Vec::new();
    let mut i: usize = 0;
    assert(m.take(0) =~= Seq::<(PropModel, PropModel)>::empty());
    while i < entries.len()
        invariant
            m == entries_model(entries@),
            i <= entries@.len(),
            out@.len() == handle_matches(m.take(i as int), uid@, instance@).len(),
            forall|k: int| 0 <= k < out@.len() ==> (#[trigger] out@[k]).0@ == handle_matches(m.take(i as int), uid@, instance@)[k].0
                && out@[k].1@ == handle_matches(m.take(i as int), uid@, instance@)[k].1,
        decreases entries@.len() - i,
    {
        assert(m.take(i + 1).drop_last() =~= m.take(i as int));
        assert(m.take(i + 1).last() == m[i as int]);
        assert(m[i as int] == (tree_model(entries@[i as int].0), tree_model(entries@[i as int].1)));
        let key = guid_of_prop(&entries[i].0);
        if let Some(g) = key {
            if let Some(b) = raw_data_bytes(&entries[i].1) {
                let has = match guild_contains_handle(b.as_slice(), uid, instance) {
                    Ok(x) => x,
                    Err(_) => false,
                };
                if has {
                    out.push((g, copy_bytes(b)));
                }
            }
        }
        i = i + 1;
    }
    assert(m.take(entries@.len() as int) =~= m);
    out
}

/// The guild the character (`source_uid`, `source_instance`) belonged to in
/// the world fields `world`, and whether it led it (see
/// `identity_lookup`): the declared guild when `declared_group_id` is not
/// zero, else the only guild whose blob lists the character's handle.
pub fn inspect_original_guild_identity(
    world: &Vec<(String, Vec<PropTree>)>,
    declared_group_id: &[u8; 16],
    source_uid: &[u8; 16],
    source_instance: &[u8; 16],
) -> (r: Result<OriginalGuildIdentity, String>)
    ensures
        match identity_lookup(fields_model(world@), declared_group_id@, source_uid@, source_instance@) {
            Ok((g, a)) => r matches Ok(o) && o.group_id@ == g && o.was_admin == a,
            Err(Some(m)) => r matches Err(e) && e@ == m,
            Err(None) => r is Err,
        },
{
    let zero: [u8; 16] = [0u8; 16];
    assert(zero@ =~= filled(0));
    if !guid_eq(declared_group_id, &zero) {
        let was_admin = inspect_original_guild_admin(world, declared_group_id, source_uid, source_instance)?;
        return Ok(OriginalGuildIdentity { group_id: *declared_group_id, was_admin });
    }
    let entries = match map_entries_ref(world, "GroupSaveDataMap") {
        Some(e) => e,
        None => return Err(String::from_str("Level.sav 缺少 GroupSaveDataMap")),
    };
    let matches = collect_handle_matches(entries, source_uid, source_instance);
    if matches.len() != 1 {
        let mut msg = String::from_str("无法从 Level.sav 唯一识别原单机主角色所属公会，匹配到 ");
        push_decimal(&mut msg, matches.len() as u64);
        push_str(&mut msg, " 个");
        return Err(msg);
    }
    let was_admin = admin_in(&matches[0].1, source_uid, source_instance)?;
    Ok(OriginalGuildIdentity { group_id: matches[0].0, was_admin })
}

} // verus!
