//! Removing players and guilds from a world: which characters go with them,
//! and the edits to the character map, the character containers, the guild
//! records and the maps keyed by guild or base.

use vstd::prelude::*;
use crate::guid_bytes::{guid_at, guid_matches};
use crate::ownership::{ids, key_guid, key_guid_spec, lookup, opt_id, pairs, ContainerOwnershipIndex};
use crate::world_copy::{named_guid, named_guid_of, struct_of};
use crate::identity::{field_index, guild_group, is_guild_group, lemma_field_index, raw_data, raw_data_bytes, text_is};
use crate::guild_raw::{decode_spec, GuildModel};
use crate::guild_read::decode_guild_raw;
use crate::guild_write::{enc_guild, encode_guild_raw, guild_writable};
use crate::guild_members::{
    handles_without, member_removed, players_without, remove_member_raw, remove_members_raw, without_players, MemberRemoval,
};
use crate::guild_raw::GuildRaw;
use crate::prop_tree::{
    entries_model, fields_model, struct_model, structs_model, tree_model, trees_model, PropModel, PropTree,
    StructModel, StructNode,
};

verus! {

/// Whether one of the ids `v` is the 16 bytes of `b` at `o`.
pub fn id_listed_at(v: &Vec<[u8; 16]>, b: &[u8], o: usize) -> (r: bool)
    requires
        o + 16 <= b@.len(),
    ensures
        r == ids(v@).contains(guid_at(b@, o as int)),
{
    let mut k: usize = 0;
    while k < v.len()
        invariant
            o + 16 <= b@.len(),
            k <= v@.len(),
            forall|q: int| 0 <= q < k ==> (#[trigger] v@[q])@ != guid_at(b@, o as int),
        decreases v@.len() - k,
    {
        if guid_matches(b, o, &v[k]) {
            assert(ids(v@)[k as int] == v@[k as int]@);
            return true;
        }
        k = k + 1;
    }
    proof {
        if ids(v@).contains(guid_at(b@, o as int)) {
            let q = choose|q: int| 0 <= q < ids(v@).len() && ids(v@)[q] == guid_at(b@, o as int);
            assert(ids(v@)[q] == v@[q]@);
        }
    }
    false
}

/// Whether one of the ids `v` is `g`.
pub fn id_listed(v: &Vec<[u8; 16]>, g: &[u8; 16]) -> (r: bool)
    ensures
        r == ids(v@).contains(g@),
{
    let s = g.as_slice();
    assert(guid_at(s@, 0) =~= g@);
    id_listed_at(v, s, 0)
}

/// Whether a container slot's blob names a removed player (bytes 0 to 16)
/// or a removed character (bytes 16 to 32).
pub open spec fn slot_removed(b: Seq<u8>, uids: Seq<Seq<u8>>, insts: Seq<Seq<u8>>) -> bool {
    b.len() >= 32 && (uids.contains(b.subrange(0, 16)) || insts.contains(b.subrange(16, 32)))
}

/// The property `m` with the `RawData` blobs of removed slots emptied, at
/// any depth (map keys are left alone).
pub open spec fn clr_pm(m: PropModel, u: Seq<Seq<u8>>, i: Seq<Seq<u8>>) -> PropModel
    decreases m,
{
    match m {
        PropModel::Struct(tn, h, v) => PropModel::Struct(tn, h, clr_sm(v, u, i)),
        PropModel::Value(v) => PropModel::Value(clr_sm(v, u, i)),
        PropModel::StructArray(h, s) => PropModel::StructArray(h, clr_sms(s, u, i)),
        PropModel::PropArray(h, s) => PropModel::PropArray(h, clr_pms(s, u, i)),
        PropModel::MapProp(h, es) => PropModel::MapProp(h, clr_ems(es, u, i)),
        PropModel::SetProp(h, s) => PropModel::SetProp(h, clr_pms(s, u, i)),
        _ => m,
    }
}

/// The struct value `v` with removed slots emptied.
pub open spec fn clr_sm(v: StructModel, u: Seq<Seq<u8>>, i: Seq<Seq<u8>>) -> StructModel
    decreases v,
{
    match v {
        StructModel::Custom(f) => StructModel::Custom(clr_fms(f, u, i)),
        _ => v,
    }
}

/// The properties `s` with removed slots emptied.
pub open spec fn clr_pms(s: Seq<PropModel>, u: Seq<Seq<u8>>, i: Seq<Seq<u8>>) -> Seq<PropModel>
    decreases s,
{
    Seq::new(s.len(), |k: int| if 0 <= k < s.len() { clr_pm(s[k], u, i) } else { PropModel::Opaque(0) })
}

/// The struct values `s` with removed slots emptied.
pub open spec fn clr_sms(s: Seq<StructModel>, u: Seq<Seq<u8>>, i: Seq<Seq<u8>>) -> Seq<StructModel>
    decreases s,
{
    Seq::new(s.len(), |k: int| if 0 <= k < s.len() { clr_sm(s[k], u, i) } else { StructModel::Opaque(0) })
}

/// The properties `s` of a field named `name`, with removed slots emptied:
/// a byte array of a `RawData` field is emptied when its slot is removed.
pub open spec fn clr_field(name: Seq<char>, s: Seq<PropModel>, u: Seq<Seq<u8>>, i: Seq<Seq<u8>>) -> Seq<PropModel>
    decreases s,
{
    Seq::new(
        s.len(),
        |k: int|
            if 0 <= k < s.len() {
                match s[k] {
                    PropModel::Bytes(b) => if name == "RawData"@ && slot_removed(b, u, i) {
                        PropModel::Bytes(Seq::empty())
                    } else {
                        s[k]
                    },
                    _ => clr_pm(s[k], u, i),
                }
            } else {
                PropModel::Opaque(0)
            },
    )
}

/// The fields `f` with removed slots emptied.
pub open spec fn clr_fms(f: Seq<(Seq<char>, Seq<PropModel>)>, u: Seq<Seq<u8>>, i: Seq<Seq<u8>>) -> Seq<(Seq<char>, Seq<PropModel>)>
    decreases f,
{
    Seq::new(f.len(), |k: int| if 0 <= k < f.len() { (f[k].0, clr_field(f[k].0, f[k].1, u, i)) } else { (Seq::empty(), Seq::empty()) })
}

/// The map entries `es` with removed slots emptied in their values.
pub open spec fn clr_ems(es: Seq<(PropModel, PropModel)>, u: Seq<Seq<u8>>, i: Seq<Seq<u8>>) -> Seq<(PropModel, PropModel)>
    decreases es,
{
    Seq::new(es.len(), |k: int| if 0 <= k < es.len() { (es[k].0, clr_pm(es[k].1, u, i)) } else { (PropModel::Opaque(0), PropModel::Opaque(0)) })
}

fn clear_owned(t: PropTree, uids: &Vec<[u8; 16]>, insts: &Vec<[u8; 16]>) -> (r: PropTree)
    ensures
        tree_model(r) == clr_pm(tree_model(t), ids(uids@), ids(insts@)),
    decreases tree_model(t),
{
    match t {
        PropTree::Struct { struct_type, header, value } => {
            PropTree::Struct { struct_type, header, value: clear_in_struct(value, uids, insts) }
        },
        PropTree::Value(v) => PropTree::Value(clear_in_struct(v, uids, insts)),
        PropTree::StructArray { header, items } => PropTree::StructArray { header, items: clear_in_structs(items, uids, insts) },
        PropTree::PropArray { header, items } => PropTree::PropArray { header, items: clear_in_trees(items, uids, insts) },
        PropTree::MapProp { header, entries } => PropTree::MapProp { header, entries: clear_in_entries(entries, uids, insts) },
        PropTree::SetProp { header, items } => PropTree::SetProp { header, items: clear_in_trees(items, uids, insts) },
        other => other,
    }
}

fn clear_in_struct(v: StructNode, uids: &Vec<[u8; 16]>, insts: &Vec<[u8; 16]>) -> (r: StructNode)
    ensures
        struct_model(r) == clr_sm(struct_model(v), ids(uids@), ids(insts@)),
    decreases struct_model(v),
{
    match v {
        StructNode::Custom(f) => StructNode::Custom(clear_in_fields(f, uids, insts)),
        other => other,
    }
}

fn clear_in_trees(items: Vec<PropTree>, uids: &Vec<[u8; 16]>, insts: &Vec<[u8; 16]>) -> (r: Vec<PropTree>)
    ensures
        trees_model(r@) == clr_pms(trees_model(items@), ids(uids@), ids(insts@)),
    decreases trees_model(items@),
{
    let ghost orig = items@;
    let ghost m = trees_model(orig);
    let ghost u = ids(uids@);
    let ghost ii = ids(insts@);
    let len = items.len();
    let mut rest = items;
    let mut out: Vec<PropTree> = Vec::new();
    let mut i: usize = 0;
    while i < len
        invariant
            len == orig.len(),
            orig == items@,
            m == trees_model(orig),
            u == ids(uids@),
            ii == ids(insts@),
            i <= len,
            rest@ == orig.subrange(i as int, len as int),
            trees_model(out@) == clr_pms(m, u, ii).take(i as int),
        decreases len - i,
    {
        let x = rest.remove(0);
        assert(x == orig[i as int]);
        proof {
            vstd::seq::axiom_seq_index_decreases(m, i as int);
        }
        assert(m[i as int] == tree_model(x));
        let y = clear_owned(x, uids, insts);
        let ghost before = out@;
        out.push(y);
        assert(trees_model(out@) =~= trees_model(before).push(tree_model(y)));
        assert(clr_pms(m, u, ii).take(i + 1) =~= clr_pms(m, u, ii).take(i as int).push(clr_pm(m[i as int], u, ii)));
        i = i + 1;
    }
    assert(clr_pms(m, u, ii).take(len as int) =~= clr_pms(m, u, ii));
    out
}

fn clear_in_structs(items: Vec<StructNode>, uids: &Vec<[u8; 16]>, insts: &Vec<[u8; 16]>) -> (r: Vec<StructNode>)
    ensures
        structs_model(r@) == clr_sms(structs_model(items@), ids(uids@), ids(insts@)),
    decreases structs_model(items@),
{
    let ghost orig = items@;
    let ghost m = structs_model(orig);
    let ghost u = ids(uids@);
    let ghost ii = ids(insts@);
    let len = items.len();
    let mut rest = items;
    let mut out: Vec<StructNode> = Vec::new();
    let mut i: usize = 0;
    while i < len
        invariant
            len == orig.len(),
            orig == items@,
            m == structs_model(orig),
            u == ids(uids@),
            ii == ids(insts@),
            i <= len,
            rest@ == orig.subrange(i as int, len as int),
            structs_model(out@) == clr_sms(m, u, ii).take(i as int),
        decreases len - i,
    {
        let x = rest.remove(0);
        assert(x == orig[i as int]);
        proof {
            vstd::seq::axiom_seq_index_decreases(m, i as int);
        }
        assert(m[i as int] == struct_model(x));
        let y = clear_in_struct(x, uids, insts);
        let ghost before = out@;
        out.push(y);
        assert(structs_model(out@) =~= structs_model(before).push(struct_model(y)));
        assert(clr_sms(m, u, ii).take(i + 1) =~= clr_sms(m, u, ii).take(i as int).push(clr_sm(m[i as int], u, ii)));
        i = i + 1;
    }
    assert(clr_sms(m, u, ii).take(len as int) =~= clr_sms(m, u, ii));
    out
}

fn clear_in_field(name: &String, items: Vec<PropTree>, uids: &Vec<[u8; 16]>, insts: &Vec<[u8; 16]>) -> (r: Vec<PropTree>)
    ensures
        trees_model(r@) == clr_field(name@, trees_model(items@), ids(uids@), ids(insts@)),
    decreases trees_model(items@),
{
    let ghost orig = items@;
    let ghost m = trees_model(orig);
    let ghost u = ids(uids@);
    let ghost ii = ids(insts@);
    let raw = crate::identity::text_is(name, "RawData");
    let len = items.len();
    let mut rest = items;
    let mut out: Vec<PropTree> = Vec::new();
    let mut i: usize = 0;
    while i < len
        invariant
            len == orig.len(),
            orig == items@,
            m == trees_model(orig),
            u == ids(uids@),
            ii == ids(insts@),
            raw == (name@ == "RawData"@),
            i <= len,
            rest@ == orig.subrange(i as int, len as int),
            trees_model(out@) == clr_field(name@, m, u, ii).take(i as int),
        decreases len - i,
    {
        let x = rest.remove(0);
        assert(x == orig[i as int]);
        proof {
            vstd::seq::axiom_seq_index_decreases(m, i as int);
        }
        assert(m[i as int] == tree_model(x));
        let y = match x {
            PropTree::Bytes(b) => {
                let removed = raw && b.len() >= 32 && (id_listed_at(uids, b.as_slice(), 0) || id_listed_at(
                    insts,
                    b.as_slice(),
                    16,
                ));
                proof {
                    if b@.len() >= 32 {
                        assert(guid_at(b@, 0) =~= b@.subrange(0, 16));
                        assert(guid_at(b@, 16) =~= b@.subrange(16, 32));
                    }
                }
                if removed {
                    PropTree::Bytes(Vec::new())
                } else {
                    PropTree::Bytes(b)
                }
            },
            other => clear_owned(other, uids, insts),
        };
        let ghost before = out@;
        out.push(y);
        assert(trees_model(out@) =~= trees_model(before).push(tree_model(y)));
        assert(clr_field(name@, m, u, ii).take(i + 1) =~= clr_field(name@, m, u, ii).take(i as int).push(clr_field(name@, m, u, ii)[i as int]));
        i = i + 1;
    }
    assert(clr_field(name@, m, u, ii).take(len as int) =~= clr_field(name@, m, u, ii));
    out
}

fn clear_in_fields(fields: Vec<(String, Vec<PropTree>)>, uids: &Vec<[u8; 16]>, insts: &Vec<[u8; 16]>) -> (r: Vec<(String, Vec<PropTree>)>)
    ensures
        fields_model(r@) == clr_fms(fields_model(fields@), ids(uids@), ids(insts@)),
    decreases fields_model(fields@),
{
    let ghost orig = fields@;
    let ghost m = fields_model(orig);
    let ghost u = ids(uids@);
    let ghost ii = ids(insts@);
    let len = fields.len();
    let mut rest = fields;
    let mut out: Vec<(String, Vec<PropTree>)> = Vec::new();
    let mut i: usize = 0;
    while i < len
        invariant
            len == orig.len(),
            orig == fields@,
            m == fields_model(orig),
            u == ids(uids@),
            ii == ids(insts@),
            i <= len,
            rest@ == orig.subrange(i as int, len as int),
            fields_model(out@) == clr_fms(m, u, ii).take(i as int),
        decreases len - i,
    {
        let (name, props) = rest.remove(0);
        assert((name, props) == orig[i as int]);
        proof {
            vstd::seq::axiom_seq_index_decreases(m, i as int);
        }
        assert(m[i as int] == (name@, trees_model(props@)));
        assert(decreases_to!(m[i as int] => m[i as int].1));
        let props2 = clear_in_field(&name, props, uids, insts);
        let ghost before = out@;
        out.push((name, props2));
        assert(fields_model(out@) =~= fields_model(before).push((name@, trees_model(props2@))));
        assert(clr_fms(m, u, ii).take(i + 1) =~= clr_fms(m, u, ii).take(i as int).push((m[i as int].0, clr_field(m[i as int].0, m[i as int].1, u, ii))));
        i = i + 1;
    }
    assert(clr_fms(m, u, ii).take(len as int) =~= clr_fms(m, u, ii));
    out
}

fn clear_in_entries(entries: Vec<(PropTree, PropTree)>, uids: &Vec<[u8; 16]>, insts: &Vec<[u8; 16]>) -> (r: Vec<(PropTree, PropTree)>)
    ensures
        entries_model(r@) == clr_ems(entries_model(entries@), ids(uids@), ids(insts@)),
    decreases entries_model(entries@),
{
    let ghost orig = entries@;
    let ghost m = entries_model(orig);
    let ghost u = ids(uids@);
    let ghost ii = ids(insts@);
    let len = entries.len();
    let mut rest = entries;
    let mut out: Vec<(PropTree, PropTree)> = Vec::new();
    let mut i: usize = 0;
    while i < len
        invariant
            len == orig.len(),
            orig == entries@,
            m == entries_model(orig),
            u == ids(uids@),
            ii == ids(insts@),
            i <= len,
            rest@ == orig.subrange(i as int, len as int),
            entries_model(out@) == clr_ems(m, u, ii).take(i as int),
        decreases len - i,
    {
        let (k, v) = rest.remove(0);
        assert((k, v) == orig[i as int]);
        proof {
            vstd::seq::axiom_seq_index_decreases(m, i as int);
        }
        assert(m[i as int] == (tree_model(k), tree_model(v)));
        assert(decreases_to!(m[i as int] => m[i as int].1));
        let v2 = clear_owned(v, uids, insts);
        let ghost before = out@;
        out.push((k, v2));
        assert(entries_model(out@) =~= entries_model(before).push((tree_model(k), tree_model(v2))));
        assert(clr_ems(m, u, ii).take(i + 1) =~= clr_ems(m, u, ii).take(i as int).push((m[i as int].0, clr_pm(m[i as int].1, u, ii))));
        i = i + 1;
    }
    assert(clr_ems(m, u, ii).take(len as int) =~= clr_ems(m, u, ii));
    out
}

/// Empties, at any depth of a property, the `RawData` blob of every
/// container slot that names one of the players `uids` or one of the
/// characters `insts` (see `clr_pm`).
pub fn clear_deleted_character_slots_in_property(p: &mut PropTree, uids: &Vec<[u8; 16]>, insts: &Vec<[u8; 16]>)
    ensures
        tree_model(*final(p)) == clr_pm(tree_model(*old(p)), ids(uids@), ids(insts@)),
{
    let mut t = PropTree::Opaque(0);
    std::mem::swap(&mut t, p);
    *p = clear_owned(t, uids, insts);
}

/// Whether a character-map entry with key `k` stays: its key names none
/// of the players `u` and none of the characters `i`.
pub open spec fn character_kept(k: PropModel, u: Seq<Seq<u8>>, i: Seq<Seq<u8>>) -> bool {
    &&& !(key_guid_spec(k, "PlayerUId"@) matches Some(p) && u.contains(p))
    &&& !(key_guid_spec(k, "InstanceId"@) matches Some(x) && i.contains(x))
}

/// The entries of `es` that stay (see `character_kept`), in order.
pub open spec fn kept_characters(es: Seq<(PropModel, PropModel)>, u: Seq<Seq<u8>>, i: Seq<Seq<u8>>) -> Seq<(PropModel, PropModel)>
    decreases es.len(),
{
    if es.len() == 0 {
        Seq::empty()
    } else {
        let r = kept_characters(es.drop_last(), u, i);
        if character_kept(es.last().0, u, i) {
            r.push(es.last())
        } else {
            r
        }
    }
}

/// Removes from the character map every entry whose key names one of the
/// players `uids` or one of the characters `insts` (see `kept_characters`).
pub fn retain_characters(entries: &mut Vec<(PropTree, PropTree)>, uids: &Vec<[u8; 16]>, insts: &Vec<[u8; 16]>)
    ensures
        entries_model(final(entries)@) == kept_characters(entries_model(old(entries)@), ids(uids@), ids(insts@)),
{
    let mut rest: Vec<(PropTree, PropTree)> = Vec::new();
    std::mem::swap(&mut rest, entries);
    let ghost orig = rest@;
    let ghost m = entries_model(orig);
    let ghost u = ids(uids@);
    let ghost ii = ids(insts@);
    let len = rest.len();
    let mut i: usize = 0;
    assert(m.take(0) =~= Seq::<(PropModel, PropModel)>::empty());
    assert(entries_model(entries@) =~= Seq::<(PropModel, PropModel)>::empty());
    while i < len
        invariant
            len == orig.len(),
            m == entries_model(orig),
            u == ids(uids@),
            ii == ids(insts@),
            i <= len,
            rest@ == orig.subrange(i as int, len as int),
            entries_model(entries@) == kept_characters(m.take(i as int), u, ii),
        decreases len - i,
    {
        let (k, v) = rest.remove(0);
        assert((k, v) == orig[i as int]);
        assert(m[i as int] == (tree_model(k), tree_model(v)));
        assert(m.take(i + 1).drop_last() =~= m.take(i as int));
        assert(m.take(i + 1).last() == m[i as int]);
        let by_player = match key_guid(&k, "PlayerUId") {
            Some(p) => id_listed(uids, &p),
            None => false,
        };
        let by_instance = match key_guid(&k, "InstanceId") {
            Some(x) => id_listed(insts, &x),
            None => false,
        };
        if !by_player && !by_instance {
            let ghost before = entries@;
            entries.push((k, v));
            assert(entries_model(entries@) =~= entries_model(before).push(m[i as int]));
        }
        i = i + 1;
    }
    assert(m.take(len as int) =~= m);
}

/// The GUID a map key names for removal: a GUID key itself, or the `ID`,
/// `GroupId` or `BaseCampId` (the first present) of a custom-struct key.
pub open spec fn guid_id(m: PropModel) -> Option<Seq<u8>> {
    match struct_of(m) {
        Some(StructModel::Guid(g)) => Some(g),
        Some(StructModel::Custom(f)) => if named_guid(f, "ID"@) is Some {
            named_guid(f, "ID"@)
        } else if named_guid(f, "GroupId"@) is Some {
            named_guid(f, "GroupId"@)
        } else {
            named_guid(f, "BaseCampId"@)
        },
        _ => None,
    }
}

/// The GUID a map key names for removal (see `guid_id`).
pub fn property_guid_id(k: &PropTree) -> (r: Option<[u8; 16]>)
    ensures
        opt_id(r) == guid_id(tree_model(*k)),
{
    match k {
        PropTree::Struct { value: StructNode::Guid(g), .. } => Some(*g),
        PropTree::Value(StructNode::Guid(g)) => Some(*g),
        PropTree::Struct { value: StructNode::Custom(f), .. } | PropTree::Value(StructNode::Custom(f)) => {
            match named_guid_of(f, "ID") {
                Some(g) => Some(g),
                None => match named_guid_of(f, "GroupId") {
                    Some(g) => Some(g),
                    None => named_guid_of(f, "BaseCampId"),
                },
            }
        },
        _ => None,
    }
}

/// The entries of `es` whose key names none of the ids `rm` (see
/// `guid_id`), in order.
pub open spec fn kept_by_guid(es: Seq<(PropModel, PropModel)>, rm: Seq<Seq<u8>>) -> Seq<(PropModel, PropModel)>
    decreases es.len(),
{
    if es.len() == 0 {
        Seq::empty()
    } else {
        let r = kept_by_guid(es.drop_last(), rm);
        if guid_id(es.last().0) matches Some(g) && rm.contains(g) {
            r
        } else {
            r.push(es.last())
        }
    }
}

/// Removes the map entries whose key names one of the ids `removed` (see
/// `kept_by_guid`).
pub fn remove_entries_by_guid(entries: &mut Vec<(PropTree, PropTree)>, removed: &Vec<[u8; 16]>)
    ensures
        entries_model(final(entries)@) == kept_by_guid(entries_model(old(entries)@), ids(removed@)),
{
    let mut rest: Vec<(PropTree, PropTree)> = Vec::new();
    std::mem::swap(&mut rest, entries);
    let ghost orig = rest@;
    let ghost m = entries_model(orig);
    let ghost rm = ids(removed@);
    let len = rest.len();
    let mut i: usize = 0;
    assert(m.take(0) =~= Seq::<(PropModel, PropModel)>::empty());
    assert(entries_model(entries@) =~= Seq::<(PropModel, PropModel)>::empty());
    while i < len
        invariant
            len == orig.len(),
            m == entries_model(orig),
            rm == ids(removed@),
            i <= len,
            rest@ == orig.subrange(i as int, len as int),
            entries_model(entries@) == kept_by_guid(m.take(i as int), rm),
        decreases len - i,
    {
        let (k, v) = rest.remove(0);
        assert((k, v) == orig[i as int]);
        assert(m[i as int] == (tree_model(k), tree_model(v)));
        assert(m.take(i + 1).drop_last() =~= m.take(i as int));
        assert(m.take(i + 1).last() == m[i as int]);
        let gone = match property_guid_id(&k) {
            Some(g) => id_listed(removed, &g),
            None => false,
        };
        if !gone {
            let ghost before = entries@;
            entries.push((k, v));
            assert(entries_model(entries@) =~= entries_model(before).push(m[i as int]));
        }
        i = i + 1;
    }
    assert(m.take(len as int) =~= m);
}

/// What a character's save says of it: the owner it names, and whether it
/// is a player.
#[derive(Debug, Clone, Copy, PartialEq, Eq)]
pub struct CharacterOwner {
    pub owner: Option<[u8; 16]>,
    pub is_player: bool,
}

/// Character owners, as values.
pub open spec fn owners_view(v: Seq<Option<CharacterOwner>>) -> Seq<Option<(bool, Option<Seq<u8>>)>> {
    v.map_values(|c: Option<CharacterOwner>| match c {
        Some(x) => Some((x.is_player, opt_id(x.owner))),
        None => None,
    })
}

/// Whether an entry's key names one of the players `u`.
pub open spec fn names_player(k: PropModel, u: Seq<Seq<u8>>) -> bool {
    key_guid_spec(k, "PlayerUId"@) matches Some(p) && u.contains(p)
}

/// The owner a character counts for: the owner `own` gives the container
/// its instance sits in (by `ic`), else `fallback`.
pub open spec fn effective_by(
    ic: Seq<(Seq<u8>, Seq<u8>)>,
    own: spec_fn(Seq<u8>) -> Option<Seq<u8>>,
    inst: Option<Seq<u8>>,
    fallback: Option<Seq<u8>>,
) -> Option<Seq<u8>> {
    match inst {
        Some(i) => match lookup(ic, i) {
            Some(c) => match own(c) {
                Some(o) => Some(o),
                None => fallback,
            },
            None => fallback,
        },
        None => fallback,
    }
}

/// The characters that go with the players `u`, in the order of the
/// character map `es`: each player's own character, and each non-player
/// character whose effective owner (see `effective_by`) is one of them;
/// `cs` holds, for each entry, what its save says of its owner.
pub open spec fn removed_insts(
    es: Seq<(PropModel, PropModel)>,
    cs: Seq<Option<(bool, Option<Seq<u8>>)>>,
    ic: Seq<(Seq<u8>, Seq<u8>)>,
    co: spec_fn(Seq<u8>) -> Option<Seq<u8>>,
    u: Seq<Seq<u8>>,
) -> Seq<Seq<u8>>
    decreases es.len(),
{
    if es.len() == 0 || cs.len() != es.len() {
        Seq::empty()
    } else {
        let prev = removed_insts(es.drop_last(), cs.drop_last(), ic, co, u);
        let k = es.last().0;
        let inst = key_guid_spec(k, "InstanceId"@);
        let goes = if names_player(k, u) {
            true
        } else {
            match cs.last() {
                None => false,
                Some((is_player, owner)) => !is_player && (effective_by(ic, co, inst, owner) matches Some(o) && u.contains(o)),
            }
        };
        if goes && inst is Some {
            prev.push(inst->0)
        } else {
            prev
        }
    }
}

/// The characters that go with the players `uids` (see `removed_insts`),
/// and whether the character map names one of the players.
pub fn deleted_instances(
    entries: &Vec<(PropTree, PropTree)>,
    characters: &Vec<Option<CharacterOwner>>,
    index: &ContainerOwnershipIndex,
    uids: &Vec<[u8; 16]>,
) -> (r: (bool, Vec<[u8; 16]>))
    requires
        characters@.len() == entries@.len(),
    ensures
        r.0 == exists|j: int| 0 <= j < entries@.len() && names_player(#[trigger] entries_model(entries@)[j].0, ids(uids@)),
        ids(r.1@) == removed_insts(
            entries_model(entries@),
            owners_view(characters@),
            pairs(index.instance_containers@),
            |c: Seq<u8>| lookup(pairs(index.container_owners@), c),
            ids(uids@),
        ),
{
    let ghost m = entries_model(entries@);
    let ghost cs = owners_view(characters@);
    let ghost ic = pairs(index.instance_containers@);
    let ghost co = |c: Seq<u8>| lookup(pairs(index.container_owners@), c);
    let ghost u = ids(uids@);
    let mut found = false;
    let mut out: Vec<[u8; 16]> = Vec::new();
    let mut i: usize = 0;
    assert(ids(out@) =~= Seq::<Seq<u8>>::empty());
    while i < entries.len()
        invariant
            m == entries_model(entries@),
            cs == owners_view(characters@),
            ic == pairs(index.instance_containers@),
            co == (|c: Seq<u8>| lookup(pairs(index.container_owners@), c)),
            u == ids(uids@),
            characters@.len() == entries@.len(),
            i <= entries@.len(),
            found == exists|j: int| 0 <= j < i && names_player(#[trigger] m[j].0, u),
            ids(out@) == removed_insts(m.take(i as int), cs.take(i as int), ic, co, u),
        decreases entries@.len() - i,
    {
        assert(m.take(i + 1).drop_last() =~= m.take(i as int));
        assert(cs.take(i + 1).drop_last() =~= cs.take(i as int));
        assert(m.take(i + 1).last() == m[i as int]);
        assert(cs.take(i + 1).last() == cs[i as int]);
        assert(m[i as int].0 == tree_model(entries@[i as int].0));
        let key = &entries[i].0;
        let inst = key_guid(key, "InstanceId");
        let named = match key_guid(key, "PlayerUId") {
            Some(p) => id_listed(uids, &p),
            None => false,
        };
        let goes = if named {
            found = true;
            true
        } else {
            match characters[i] {
                None => false,
                Some(c) => {
                    if c.is_player {
                        false
                    } else {
                        match index.effective_owner(inst, c.owner) {
                            Some(o) => id_listed(uids, &o),
                            None => false,
                        }
                    }
                },
            }
        };
        let ghost before = out@;
        match inst {
            Some(x) => {
                if goes {
                    out.push(x);
                    assert(ids(out@) =~= ids(before).push(x@));
                }
            },
            None => {},
        }
        i = i + 1;
    }
    assert(m.take(entries@.len() as int) =~= m);
    assert(cs.take(entries@.len() as int) =~= cs);
    (found, out)
}

/// The fields `f` with the first property of the `RawData` field set to the
/// bytes `b`, when it is a byte array.
pub open spec fn with_raw_fields(f: Seq<(Seq<char>, Seq<PropModel>)>, b: Seq<u8>) -> Seq<(Seq<char>, Seq<PropModel>)> {
    match field_index(f, "RawData"@) {
        Some(j) => if 0 <= j < f.len() && f[j].1.len() > 0 && f[j].1[0] is Bytes {
            f.update(j, (f[j].0, f[j].1.update(0, PropModel::Bytes(b))))
        } else {
            f
        },
        None => f,
    }
}

/// A record with its `RawData` bytes set to `b` (see `with_raw_fields`).
pub open spec fn with_raw(m: PropModel, b: Seq<u8>) -> PropModel {
    match m {
        PropModel::Struct(tn, h, StructModel::Custom(f)) => PropModel::Struct(tn, h, StructModel::Custom(with_raw_fields(f, b))),
        PropModel::Value(StructModel::Custom(f)) => PropModel::Value(StructModel::Custom(with_raw_fields(f, b))),
        _ => m,
    }
}

fn set_raw_in_fields(fields: Vec<(String, Vec<PropTree>)>, b: Vec<u8>) -> (r: Vec<(String, Vec<PropTree>)>)
    ensures
        fields_model(r@) == with_raw_fields(fields_model(fields@), b@),
{
    let ghost m = fields_model(fields@);
    let ghost orig = fields@;
    let mut fs = fields;
    let mut i: usize = 0;
    while i < fs.len()
        invariant
            m == fields_model(fs@),
            fs@ == orig,
            orig == fields@,
            i <= fs@.len(),
            forall|k: int| 0 <= k < i ==> (#[trigger] m[k]).0 != "RawData"@,
        decreases fs@.len() - i,
    {
        if text_is(&fs[i].0, "RawData") {
            proof {
                lemma_field_index(m, "RawData"@);
                match field_index(m, "RawData"@) {
                    Some(j) => {
                        if j < i {
                            assert(m[j].0 != "RawData"@);
                        } else if j > i {
                            assert(m[i as int].0 == "RawData"@);
                        }
                    },
                    None => {
                        assert(m[i as int].0 == "RawData"@);
                    },
                }
            }
            assert(field_index(m, "RawData"@) == Some(i as int));
            assert(m[i as int].1 == trees_model(fs@[i as int].1@));
            if fs[i].1.len() == 0 {
                return fs;
            }
            let is_bytes = match &fs[i].1[0] {
                PropTree::Bytes(_) => true,
                _ => false,
            };
            assert(trees_model(fs@[i as int].1@)[0] == tree_model(fs@[i as int].1@[0]));
            if !is_bytes {
                return fs;
            }
            let ghost before = fs@;
            let (fname, mut props) = fs.remove(i);
            let ghost pbefore = props@;
            let _old = props.remove(0);
            let replaced = PropTree::Bytes(b);
            props.insert(0, replaced);
            assert(props@ =~= pbefore.update(0, replaced));
            assert(trees_model(props@) =~= trees_model(pbefore).update(0, tree_model(replaced)));
            fs.insert(i, (fname, props));
            assert(fs@ =~= before.update(i as int, (fname, props)));
            assert(fields_model(fs@) =~= m.update(i as int, (m[i as int].0, m[i as int].1.update(0, tree_model(replaced)))));
            return fs;
        }
        i = i + 1;
    }
    proof {
        lemma_field_index(m, "RawData"@);
    }
    fs
}

/// Sets a record's `RawData` bytes to `b` (see `with_raw`).
pub fn set_raw_data(p: &mut PropTree, b: Vec<u8>)
    ensures
        tree_model(*final(p)) == with_raw(tree_model(*old(p)), b@),
{
    let mut t = PropTree::Opaque(0);
    std::mem::swap(&mut t, p);
    *p = match t {
        PropTree::Struct { struct_type, header, value: StructNode::Custom(f) } => PropTree::Struct {
            struct_type,
            header,
            value: StructNode::Custom(set_raw_in_fields(f, b)),
        },
        PropTree::Value(StructNode::Custom(f)) => PropTree::Value(StructNode::Custom(set_raw_in_fields(f, b))),
        other => other,
    };
}

/// One group-map entry once the player `uid` leaves: `None` when its guild
/// blob does not decode, or cannot be encoded again; otherwise the entry,
/// and, when the player was the guild's last member, the guild's id and its
/// bases' ids.
pub open spec fn player_group_step(e: (PropModel, PropModel), uid: Seq<u8>) -> Option<((PropModel, PropModel), Seq<Seq<u8>>, Seq<Seq<u8>>)> {
    let none: Seq<Seq<u8>> = Seq::empty();
    if !guild_group(e.1) {
        Some((e, none, none))
    } else {
        match raw_data(e.1) {
            None => Some((e, none, none)),
            Some(b) => match decode_spec(b) {
                None => None,
                Some(g) => {
                    let ps = players_without(g.tail.players, seq![uid]);
                    if ps.len() == g.tail.players.len() {
                        Some((e, none, none))
                    } else if ps.len() == 0 {
                        Some((e, seq![g.group_id], g.base_ids))
                    } else if guild_writable(member_removed(g, uid)) {
                        Some(((e.0, with_raw(e.1, enc_guild(member_removed(g, uid)))), none, none))
                    } else {
                        None
                    }
                },
            },
        }
    }
}

/// The group map once the player `uid` leaves every guild (see
/// `player_group_step`), with the ids of the guilds it leaves empty and of
/// their bases; `None` when a guild blob fails.
pub open spec fn player_groups(es: Seq<(PropModel, PropModel)>, uid: Seq<u8>) -> Option<(Seq<(PropModel, PropModel)>, Seq<Seq<u8>>, Seq<Seq<u8>>)>
    decreases es.len(),
{
    if es.len() == 0 {
        Some((Seq::empty(), Seq::empty(), Seq::empty()))
    } else {
        match player_groups(es.drop_last(), uid) {
            None => None,
            Some((r, g, b)) => match player_group_step(es.last(), uid) {
                None => None,
                Some((e2, g2, b2)) => Some((r.push(e2), g + g2, b + b2)),
            },
        }
    }
}

fn push_ids(out: &mut Vec<[u8; 16]>, more: &Vec<[u8; 16]>)
    ensures
        ids(final(out)@) == ids(old(out)@) + ids(more@),
{
    let mut q: usize = 0;
    let ghost start = ids(out@);
    assert(ids(more@).take(0) =~= Seq::<Seq<u8>>::empty());
    while q < more.len()
        invariant
            q <= more@.len(),
            ids(out@) == start + ids(more@).take(q as int),
        decreases more@.len() - q,
    {
        let ghost before = ids(out@);
        out.push(more[q]);
        assert(ids(out@) =~= before.push(more@[q as int]@));
        assert(ids(more@).take(q + 1) =~= ids(more@).take(q as int).push(more@[q as int]@));
        q = q + 1;
    }
    assert(ids(more@).take(more@.len() as int) =~= ids(more@));
}

fn player_group_entry(k: PropTree, v: PropTree, player_uid: &[u8; 16]) -> (r: Result<((PropTree, PropTree), Vec<[u8; 16]>, Vec<[u8; 16]>), String>)
    ensures
        match player_group_step((tree_model(k), tree_model(v)), player_uid@) {
            Some((e2, g2, b2)) => r matches Ok((e, rg, rb)) && (tree_model(e.0), tree_model(e.1)) == e2 && ids(rg@) == g2 && ids(rb@) == b2,
            None => r is Err,
        },
{
    let mut v = v;
    let none: Vec<[u8; 16]> = Vec::new();
    assert(ids(none@) =~= Seq::<Seq<u8>>::empty());
    if !is_guild_group(&v) {
        return Ok(((k, v), Vec::new(), Vec::new()));
    }
    let decoded = match raw_data_bytes(&v) {
        Some(b) => Some(decode_guild_raw(b.as_slice())),
        None => None,
    };
    match decoded {
        None => Ok(((k, v), Vec::new(), Vec::new())),
        Some(Err(err)) => Err(err),
        Some(Ok(mut g)) => {
            let ghost g0 = g@;
            match remove_member_raw(&mut g, player_uid) {
                MemberRemoval::NotMember => Ok(((k, v), Vec::new(), Vec::new())),
                MemberRemoval::Emptied => {
                    let mut guilds: Vec<[u8; 16]> = Vec::new();
                    guilds.push(g.group_id);
                    assert(ids(guilds@) =~= seq![g0.group_id]);
                    let mut bases: Vec<[u8; 16]> = Vec::new();
                    push_ids(&mut bases, &g.base_ids);
                    assert(ids(g.base_ids@) =~= crate::guild_raw::guids_view(g.base_ids@));
                    assert(ids(bases@) =~= g0.base_ids);
                    Ok(((k, v), guilds, bases))
                },
                MemberRemoval::Removed => {
                    let bytes = match encode_guild_raw(&g) {
                        Ok(b) => b,
                        Err(err) => {
                            return Err(err);
                        },
                    };
                    set_raw_data(&mut v, bytes);
                    Ok(((k, v), Vec::new(), Vec::new()))
                },
            }
        },
    }
}

proof fn lemma_player_groups_stuck(es: Seq<(PropModel, PropModel)>, n: int, uid: Seq<u8>)
    requires
        0 <= n <= es.len(),
        player_groups(es.take(n), uid) is None,
    ensures
        player_groups(es, uid) is None,
    decreases es.len() - n,
{
    if n < es.len() {
        assert(es.take(n + 1).drop_last() =~= es.take(n));
        lemma_player_groups_stuck(es, n + 1, uid);
    } else {
        assert(es.take(n) =~= es);
    }
}

/// Takes the player `player_uid` out of every guild of the group map (see
/// `player_groups`); returns the ids of the guilds it leaves empty and of
/// their bases.
pub fn remove_player_from_groups(entries: &mut Vec<(PropTree, PropTree)>, player_uid: &[u8; 16]) -> (r: Result<(Vec<[u8; 16]>, Vec<[u8; 16]>), String>)
    ensures
        match player_groups(entries_model(old(entries)@), player_uid@) {
            Some((es, g, b)) => r matches Ok((rg, rb)) && entries_model(final(entries)@) == es && ids(rg@) == g && ids(rb@) == b,
            None => r is Err,
        },
{
    let mut rest: Vec<(PropTree, PropTree)> = Vec::new();
    std::mem::swap(&mut rest, entries);
    let ghost orig = rest@;
    let ghost m = entries_model(orig);
    let len = rest.len();
    let mut guilds: Vec<[u8; 16]> = Vec::new();
    let mut bases: Vec<[u8; 16]> = Vec::new();
    let mut i: usize = 0;
    assert(m.take(0) =~= Seq::<(PropModel, PropModel)>::empty());
    assert(entries_model(entries@) =~= Seq::<(PropModel, PropModel)>::empty());
    assert(ids(guilds@) =~= Seq::<Seq<u8>>::empty());
    assert(ids(bases@) =~= Seq::<Seq<u8>>::empty());
    while i < len
        invariant
            len == orig.len(),
            m == entries_model(orig),
            m == entries_model(old(entries)@),
            i <= len,
            rest@ == orig.subrange(i as int, len as int),
            player_groups(m.take(i as int), player_uid@) == Some((entries_model(entries@), ids(guilds@), ids(bases@))),
        decreases len - i,
    {
        let (k, v) = rest.remove(0);
        assert((k, v) == orig[i as int]);
        assert(m[i as int] == (tree_model(k), tree_model(v)));
        assert(m.take(i + 1).drop_last() =~= m.take(i as int));
        assert(m.take(i + 1).last() == m[i as int]);
        let ghost before = entries@;
        match player_group_entry(k, v, player_uid) {
            Ok((e, g2, b2)) => {
                entries.push(e);
                assert(entries_model(entries@) =~= entries_model(before).push((tree_model(e.0), tree_model(e.1))));
                push_ids(&mut guilds, &g2);
                push_ids(&mut bases, &b2);
            },
            Err(err) => {
                proof {
                    lemma_player_groups_stuck(m, i + 1, player_uid@);
                }
                return Err(err);
            },
        }
        i = i + 1;
    }
    assert(m.take(len as int) =~= m);
    Ok((guilds, bases))
}

/// Whether a group-map entry stays once the guilds `rm` are removed: its
/// blob does not decode to one of them.
pub open spec fn group_kept(e: (PropModel, PropModel), rm: Seq<Seq<u8>>) -> bool {
    !(raw_data(e.1) matches Some(b) && decode_spec(b) matches Some(g) && rm.contains(g.group_id))
}

/// The group-map entries that stay once the guilds `rm` are removed.
pub open spec fn kept_groups(es: Seq<(PropModel, PropModel)>, rm: Seq<Seq<u8>>) -> Seq<(PropModel, PropModel)>
    decreases es.len(),
{
    if es.len() == 0 {
        Seq::empty()
    } else {
        let r = kept_groups(es.drop_last(), rm);
        if group_kept(es.last(), rm) {
            r.push(es.last())
        } else {
            r
        }
    }
}

/// Removes from the group map the records of the guilds `removed` (see
/// `kept_groups`).
pub fn retain_groups(entries: &mut Vec<(PropTree, PropTree)>, removed: &Vec<[u8; 16]>)
    ensures
        entries_model(final(entries)@) == kept_groups(entries_model(old(entries)@), ids(removed@)),
{
    let mut rest: Vec<(PropTree, PropTree)> = Vec::new();
    std::mem::swap(&mut rest, entries);
    let ghost orig = rest@;
    let ghost m = entries_model(orig);
    let ghost rm = ids(removed@);
    let len = rest.len();
    let mut i: usize = 0;
    assert(m.take(0) =~= Seq::<(PropModel, PropModel)>::empty());
    assert(entries_model(entries@) =~= Seq::<(PropModel, PropModel)>::empty());
    while i < len
        invariant
            len == orig.len(),
            m == entries_model(orig),
            rm == ids(removed@),
            i <= len,
            rest@ == orig.subrange(i as int, len as int),
            entries_model(entries@) == kept_groups(m.take(i as int), rm),
        decreases len - i,
    {
        let (k, v) = rest.remove(0);
        assert((k, v) == orig[i as int]);
        assert(m[i as int] == (tree_model(k), tree_model(v)));
        assert(m.take(i + 1).drop_last() =~= m.take(i as int));
        assert(m.take(i + 1).last() == m[i as int]);
        let gone = match raw_data_bytes(&v) {
            Some(b) => match decode_guild_raw(b.as_slice()) {
                Ok(g) => id_listed(removed, &g.group_id),
                Err(_) => false,
            },
            None => false,
        };
        if !gone {
            let ghost before = entries@;
            entries.push((k, v));
            assert(entries_model(entries@) =~= entries_model(before).push(m[i as int]));
        }
        i = i + 1;
    }
    assert(m.take(len as int) =~= m);
}

/// The decoded guild of a guild record whose blob decodes.
pub open spec fn guild_of_entry(e: (PropModel, PropModel)) -> Option<GuildModel> {
    if guild_group(e.1) {
        match raw_data(e.1) {
            Some(b) => decode_spec(b),
            None => None,
        }
    } else {
        None
    }
}

/// The decoded guild of the first guild record of `es` that decodes to the
/// guild `id`.
pub open spec fn find_guild(es: Seq<(PropModel, PropModel)>, id: Seq<u8>) -> Option<GuildModel>
    decreases es.len(),
{
    if es.len() == 0 {
        None
    } else {
        match guild_of_entry(es[0]) {
            Some(g) => if g.group_id == id {
                Some(g)
            } else {
                find_guild(es.subrange(1, es.len() as int), id)
            },
            None => find_guild(es.subrange(1, es.len() as int), id),
        }
    }
}

/// The decoded guild `id` of the group map (see `find_guild`).
pub fn find_guild_raw(entries: &Vec<(PropTree, PropTree)>, id: &[u8; 16]) -> (r: Option<GuildRaw>)
    ensures
        match find_guild(entries_model(entries@), id@) {
            Some(g) => r matches Some(x) && x@ == g,
            None => r is None,
        },
{
    let ghost m = entries_model(entries@);
    let mut i: usize = 0;
    assert(m.subrange(0, m.len() as int) =~= m);
    while i < entries.len()
        invariant
            m == entries_model(entries@),
            i <= entries@.len(),
            find_guild(m, id@) == find_guild(m.subrange(i as int, m.len() as int), id@),
        decreases entries@.len() - i,
    {
        let ghost rest = m.subrange(i as int, m.len() as int);
        assert(rest.subrange(1, rest.len() as int) =~= m.subrange(i + 1, m.len() as int));
        assert(rest[0] == m[i as int]);
        assert(m[i as int].1 == tree_model(entries@[i as int].1));
        let v = &entries[i].1;
        if is_guild_group(v) {
            match raw_data_bytes(v) {
                Some(b) => match decode_guild_raw(b.as_slice()) {
                    Ok(g) => {
                        if crate::guid_bytes::guid_eq(&g.group_id, id) {
                            return Some(g);
                        }
                    },
                    Err(_) => {},
                },
                None => {},
            }
        }
        i = i + 1;
    }
    None
}

/// One group-map entry once the players `u` of the removed guild `target`
/// go: other guilds lose their members and handles, and are encoded again
/// when that changed them; `None` when a blob does not decode or cannot be
/// encoded again.
pub open spec fn guild_group_step(e: (PropModel, PropModel), target: Seq<u8>, u: Seq<Seq<u8>>) -> Option<(PropModel, PropModel)> {
    if !guild_group(e.1) {
        Some(e)
    } else {
        match raw_data(e.1) {
            None => Some(e),
            Some(b) => match decode_spec(b) {
                None => None,
                Some(g) => if g.group_id == target {
                    Some(e)
                } else {
                    let g2 = without_players(g, u);
                    let changed = players_without(g.tail.players, u).len() != g.tail.players.len()
                        || handles_without(g.handles, u).len() != g.handles.len();
                    if !changed {
                        Some(e)
                    } else if guild_writable(g2) {
                        Some((e.0, with_raw(e.1, enc_guild(g2))))
                    } else {
                        None
                    }
                },
            },
        }
    }
}

/// The group map once the members `u` of the removed guild `target` leave
/// the other guilds (see `guild_group_step`); `None` when a blob fails.
pub open spec fn guild_groups(es: Seq<(PropModel, PropModel)>, target: Seq<u8>, u: Seq<Seq<u8>>) -> Option<Seq<(PropModel, PropModel)>>
    decreases es.len(),
{
    if es.len() == 0 {
        Some(Seq::empty())
    } else {
        match guild_groups(es.drop_last(), target, u) {
            None => None,
            Some(r) => match guild_group_step(es.last(), target, u) {
                None => None,
                Some(e2) => Some(r.push(e2)),
            },
        }
    }
}

fn guild_group_entry(k: PropTree, v: PropTree, target: &[u8; 16], uids: &Vec<[u8; 16]>) -> (r: Result<(PropTree, PropTree), String>)
    ensures
        match guild_group_step((tree_model(k), tree_model(v)), target@, ids(uids@)) {
            Some(e2) => r matches Ok(e) && (tree_model(e.0), tree_model(e.1)) == e2,
            None => r is Err,
        },
{
    let mut v = v;
    if !is_guild_group(&v) {
        return Ok((k, v));
    }
    let decoded = match raw_data_bytes(&v) {
        Some(b) => Some(decode_guild_raw(b.as_slice())),
        None => None,
    };
    match decoded {
        None => Ok((k, v)),
        Some(Err(err)) => Err(err),
        Some(Ok(mut g)) => {
            if crate::guid_bytes::guid_eq(&g.group_id, target) {
                return Ok((k, v));
            }
            if remove_members_raw(&mut g, uids) {
                let bytes = match encode_guild_raw(&g) {
                    Ok(b) => b,
                    Err(err) => {
                        return Err(err);
                    },
                };
                set_raw_data(&mut v, bytes);
            }
            Ok((k, v))
        },
    }
}

proof fn lemma_guild_groups_stuck(es: Seq<(PropModel, PropModel)>, n: int, target: Seq<u8>, u: Seq<Seq<u8>>)
    requires
        0 <= n <= es.len(),
        guild_groups(es.take(n), target, u) is None,
    ensures
        guild_groups(es, target, u) is None,
    decreases es.len() - n,
{
    if n < es.len() {
        assert(es.take(n + 1).drop_last() =~= es.take(n));
        lemma_guild_groups_stuck(es, n + 1, target, u);
    } else {
        assert(es.take(n) =~= es);
    }
}

/// Takes the members `uids` of the removed guild `target` out of every other
/// guild of the group map (see `guild_groups`).
pub fn remove_members_from_groups(entries: &mut Vec<(PropTree, PropTree)>, target: &[u8; 16], uids: &Vec<[u8; 16]>) -> (r: Result<(), String>)
    ensures
        match guild_groups(entries_model(old(entries)@), target@, ids(uids@)) {
            Some(es) => r is Ok && entries_model(final(entries)@) == es,
            None => r is Err,
        },
{
    let mut rest: Vec<(PropTree, PropTree)> = Vec::new();
    std::mem::swap(&mut rest, entries);
    let ghost orig = rest@;
    let ghost m = entries_model(orig);
    let ghost u = ids(uids@);
    let len = rest.len();
    let mut i: usize = 0;
    assert(m.take(0) =~= Seq::<(PropModel, PropModel)>::empty());
    assert(entries_model(entries@) =~= Seq::<(PropModel, PropModel)>::empty());
    while i < len
        invariant
            len == orig.len(),
            m == entries_model(orig),
            m == entries_model(old(entries)@),
            u == ids(uids@),
            i <= len,
            rest@ == orig.subrange(i as int, len as int),
            guild_groups(m.take(i as int), target@, u) == Some(entries_model(entries@)),
        decreases len - i,
    {
        let (k, v) = rest.remove(0);
        assert((k, v) == orig[i as int]);
        assert(m[i as int] == (tree_model(k), tree_model(v)));
        assert(m.take(i + 1).drop_last() =~= m.take(i as int));
        assert(m.take(i + 1).last() == m[i as int]);
        let ghost before = entries@;
        match guild_group_entry(k, v, target, uids) {
            Ok(e) => {
                entries.push(e);
                assert(entries_model(entries@) =~= entries_model(before).push((tree_model(e.0), tree_model(e.1))));
            },
            Err(err) => {
                proof {
                    lemma_guild_groups_stuck(m, i + 1, target@, u);
                }
                return Err(err);
            },
        }
        i = i + 1;
    }
    assert(m.take(len as int) =~= m);
    Ok(())
}

} // verus!
