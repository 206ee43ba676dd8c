//! Which player owns a pal: the container the pal sits in, and the owner
//! that most of that container's pals name.

use vstd::prelude::*;
use crate::identity::{any_struct_fields, any_struct_fields_of, field, field_value};
use crate::prop_tree::{
    entries_model, fields_model, struct_model, structs_model, tree_model, trees_model, PropModel, PropTree,
    StructModel, StructNode,
};

verus! {

/// The instance id that a character blob names: its bytes 16 to 32, when
/// the blob is that long and they are not all zero.
pub open spec fn blob_instance(b: Seq<u8>) -> Seq<Seq<u8>> {
    if b.len() >= 32 && b.subrange(16, 32) != Seq::new(16, |i: int| 0u8) {
        seq![b.subrange(16, 32)]
    } else {
        Seq::empty()
    }
}

/// The instance ids in the property `m`, in order: those of `RawData` byte
/// arrays of custom structs, at any depth.
pub open spec fn inst_pm(m: PropModel) -> Seq<Seq<u8>>
    decreases m,
{
    match m {
        PropModel::Struct(_, _, v) => inst_sm(v),
        PropModel::Value(v) => inst_sm(v),
        PropModel::StructArray(_, s) => inst_sms(s),
        PropModel::PropArray(_, s) => inst_pms(s),
        PropModel::MapProp(_, es) => inst_ems(es),
        PropModel::SetProp(_, s) => inst_pms(s),
        _ => Seq::empty(),
    }
}

/// The instance ids in the struct value `v`.
pub open spec fn inst_sm(v: StructModel) -> Seq<Seq<u8>>
    decreases v,
{
    match v {
        StructModel::Custom(f) => inst_fm(f),
        _ => Seq::empty(),
    }
}

/// The instance ids in the properties `s`.
pub open spec fn inst_pms(s: Seq<PropModel>) -> Seq<Seq<u8>>
    decreases s,
{
    if s.len() == 0 {
        Seq::empty()
    } else {
        inst_pm(s[0]) + inst_pms(s.subrange(1, s.len() as int))
    }
}

/// The instance ids in the struct values `s`.
pub open spec fn inst_sms(s: Seq<StructModel>) -> Seq<Seq<u8>>
    decreases s,
{
    if s.len() == 0 {
        Seq::empty()
    } else {
        inst_sm(s[0]) + inst_sms(s.subrange(1, s.len() as int))
    }
}

/// The instance ids in the properties `s` of a field named `name`: a byte
/// array of a `RawData` field names one (see `blob_instance`).
pub open spec fn inst_field(name: Seq<char>, s: Seq<PropModel>) -> Seq<Seq<u8>>
    decreases s,
{
    if s.len() == 0 {
        Seq::empty()
    } else {
        let here = match s[0] {
            PropModel::Bytes(b) => if name == "RawData"@ {
                blob_instance(b)
            } else {
                Seq::empty()
            },
            _ => inst_pm(s[0]),
        };
        here + inst_field(name, s.subrange(1, s.len() as int))
    }
}

/// The instance ids in the fields `f`.
pub open spec fn inst_fm(f: Seq<(Seq<char>, Seq<PropModel>)>) -> Seq<Seq<u8>>
    decreases f,
{
    if f.len() == 0 {
        Seq::empty()
    } else {
        inst_field(f[0].0, f[0].1) + inst_fm(f.subrange(1, f.len() as int))
    }
}

/// The instance ids in the keys and values of `es`.
pub open spec fn inst_ems(es: Seq<(PropModel, PropModel)>) -> Seq<Seq<u8>>
    decreases es,
{
    if es.len() == 0 {
        Seq::empty()
    } else {
        inst_pm(es[0].0) + inst_pm(es[0].1) + inst_ems(es.subrange(1, es.len() as int))
    }
}

/// The ids held in `v`, as values.
pub open spec fn ids(v: Seq<[u8; 16]>) -> Seq<Seq<u8>> {
    v.map_values(|a: [u8; 16]| a@)
}

fn push_blob_instance(b: &Vec<u8>, out: &mut Vec<[u8; 16]>)
    ensures
        ids(final(out)@) == ids(old(out)@) + blob_instance(b@),
{
    if b.len() < 32 {
        assert(ids(out@) =~= ids(old(out)@) + blob_instance(b@));
        return;
    }
    let mut id: [u8; 16] = [0u8; 16];
    let mut zero = true;
    let mut i: usize = 0;
    while i < 16
        invariant
            b@.len() >= 32,
            i <= 16,
            forall|j: int| 0 <= j < i ==> #[trigger] id@[j] == b@[16 + j],
            zero == forall|k: int| 16 <= k < 16 + i ==> #[trigger] b@[k] == 0,
        decreases 16 - i,
    {
        id[i] = b[16 + i];
        if b[16 + i] != 0 {
            zero = false;
        }
        i = i + 1;
    }
    assert(id@ =~= b@.subrange(16, 32));
    if zero {
        assert(b@.subrange(16, 32) =~= Seq::new(16, |i: int| 0u8));
        assert(ids(out@) =~= ids(old(out)@) + blob_instance(b@));
    } else {
        assert(b@.subrange(16, 32) != Seq::new(16, |i: int| 0u8)) by {
            if b@.subrange(16, 32) == Seq::new(16, |i: int| 0u8) {
                assert forall|k: int| 16 <= k < 32 implies #[trigger] b@[k] == 0 by {
                    assert(b@.subrange(16, 32)[k - 16] == b@[k]);
                }
            }
        }
        out.push(id);
        assert(ids(out@) =~= ids(old(out)@) + blob_instance(b@));
    }
}

/// Appends the instance ids in a property (see `inst_pm`).
pub fn collect_container_instances_in_property(p: &PropTree, out: &mut Vec<[u8; 16]>)
    ensures
        ids(final(out)@) == ids(old(out)@) + inst_pm(tree_model(*p)),
    decreases p,
{
    match p {
        PropTree::Struct { value, .. } => collect_container_instances_in_struct(value, out),
        PropTree::Value(v) => collect_container_instances_in_struct(v, out),
        PropTree::StructArray { items, .. } => collect_container_instances_in_structs(items, out),
        PropTree::PropArray { items, .. } => collect_container_instances_in_trees(items, out),
        PropTree::MapProp { entries, .. } => collect_container_instances_in_entries(entries, out),
        PropTree::SetProp { items, .. } => collect_container_instances_in_trees(items, out),
        _ => {
            assert(ids(out@) =~= ids(old(out)@) + inst_pm(tree_model(*p)));
        },
    }
}

/// Appends the instance ids in a struct value (see `inst_sm`).
pub fn collect_container_instances_in_struct(v: &StructNode, out: &mut Vec<[u8; 16]>)
    ensures
        ids(final(out)@) == ids(old(out)@) + inst_sm(struct_model(*v)),
    decreases v,
{
    match v {
        StructNode::Custom(fields) => collect_container_instances_in_fields(fields, out),
        _ => {
            assert(ids(out@) =~= ids(old(out)@) + inst_sm(struct_model(*v)));
        },
    }
}

/// Appends the instance ids in the properties `items` (see `inst_pms`).
pub fn collect_container_instances_in_trees(items: &Vec<PropTree>, out: &mut Vec<[u8; 16]>)
    ensures
        ids(final(out)@) == ids(old(out)@) + inst_pms(trees_model(items@)),
    decreases items,
{
    let len = items.len();
    let ghost all = trees_model(items@);
    let ghost start = ids(out@);
    let mut i: usize = 0;
    assert(all.subrange(0, len as int) =~= all);
    assert(ids(out@) =~= start);
    while i < len
        invariant
            len == items@.len(),
            all == trees_model(items@),
            i <= len,
            ids(out@) + inst_pms(all.subrange(i as int, len as int)) == start + inst_pms(all),
        decreases len - i,
    {
        let ghost rest = all.subrange(i as int, len as int);
        let ghost before = ids(out@);
        assert(rest.subrange(1, rest.len() as int) =~= all.subrange(i + 1, len as int));
        collect_container_instances_in_property(&items[i], out);
        assert(ids(out@) + inst_pms(all.subrange(i + 1, len as int)) =~= before + inst_pms(rest));
        i = i + 1;
    }
    assert(inst_pms(all.subrange(len as int, len as int)) =~= Seq::<Seq<u8>>::empty());
    assert(ids(out@) =~= ids(out@) + Seq::<Seq<u8>>::empty());
}

/// Appends the instance ids in the struct values `items` (see `inst_sms`).
pub fn collect_container_instances_in_structs(items: &Vec<StructNode>, out: &mut Vec<[u8; 16]>)
    ensures
        ids(final(out)@) == ids(old(out)@) + inst_sms(structs_model(items@)),
    decreases items,
{
    let len = items.len();
    let ghost all = structs_model(items@);
    let ghost start = ids(out@);
    let mut i: usize = 0;
    assert(all.subrange(0, len as int) =~= all);
    assert(ids(out@) =~= start);
    while i < len
        invariant
            len == items@.len(),
            all == structs_model(items@),
            i <= len,
            ids(out@) + inst_sms(all.subrange(i as int, len as int)) == start + inst_sms(all),
        decreases len - i,
    {
        let ghost rest = all.subrange(i as int, len as int);
        let ghost before = ids(out@);
        assert(rest.subrange(1, rest.len() as int) =~= all.subrange(i + 1, len as int));
        collect_container_instances_in_struct(&items[i], out);
        assert(ids(out@) + inst_sms(all.subrange(i + 1, len as int)) =~= before + inst_sms(rest));
        i = i + 1;
    }
    assert(inst_sms(all.subrange(len as int, len as int)) =~= Seq::<Seq<u8>>::empty());
    assert(ids(out@) =~= ids(out@) + Seq::<Seq<u8>>::empty());
}

/// Appends the instance ids in the properties of one field (see
/// `inst_field`).
fn collect_container_instances_in_field(name: &String, items: &Vec<PropTree>, out: &mut Vec<[u8; 16]>)
    ensures
        ids(final(out)@) == ids(old(out)@) + inst_field(name@, trees_model(items@)),
    decreases items,
{
    let raw = crate::identity::text_is(name, "RawData");
    let len = items.len();
    let ghost all = trees_model(items@);
    let ghost start = ids(out@);
    let mut i: usize = 0;
    assert(all.subrange(0, len as int) =~= all);
    assert(ids(out@) =~= start);
    while i < len
        invariant
            len == items@.len(),
            all == trees_model(items@),
            raw == (name@ == "RawData"@),
            i <= len,
            ids(out@) + inst_field(name@, all.subrange(i as int, len as int)) == start + inst_field(name@, all),
        decreases len - i,
    {
        let ghost rest = all.subrange(i as int, len as int);
        let ghost before = ids(out@);
        assert(rest.subrange(1, rest.len() as int) =~= all.subrange(i + 1, len as int));
        assert(rest[0] == tree_model(items@[i as int]));
        match &items[i] {
            PropTree::Bytes(b) => {
                if raw {
                    push_blob_instance(b, out);
                } else {
                    assert(ids(out@) =~= ids(out@) + Seq::<Seq<u8>>::empty());
                }
            },
            other => collect_container_instances_in_property(other, out),
        }
        assert(ids(out@) + inst_field(name@, all.subrange(i + 1, len as int)) =~= before + inst_field(name@, rest));
        i = i + 1;
    }
    assert(inst_field(name@, all.subrange(len as int, len as int)) =~= Seq::<Seq<u8>>::empty());
    assert(ids(out@) =~= ids(out@) + Seq::<Seq<u8>>::empty());
}

/// Appends the instance ids in the fields `fields` (see `inst_fm`).
pub fn collect_container_instances_in_fields(fields: &Vec<(String, Vec<PropTree>)>, out: &mut Vec<[u8; 16]>)
    ensures
        ids(final(out)@) == ids(old(out)@) + inst_fm(fields_model(fields@)),
    decreases fields,
{
    let len = fields.len();
    let ghost all = fields_model(fields@);
    let ghost start = ids(out@);
    let mut i: usize = 0;
    assert(all.subrange(0, len as int) =~= all);
    assert(ids(out@) =~= start);
    while i < len
        invariant
            len == fields@.len(),
            all == fields_model(fields@),
            i <= len,
            ids(out@) + inst_fm(all.subrange(i as int, len as int)) == start + inst_fm(all),
        decreases len - i,
    {
        let ghost rest = all.subrange(i as int, len as int);
        let ghost before = ids(out@);
        assert(rest.subrange(1, rest.len() as int) =~= all.subrange(i + 1, len as int));
        collect_container_instances_in_field(&fields[i].0, &fields[i].1, out);
        assert(ids(out@) + inst_fm(all.subrange(i + 1, len as int)) =~= before + inst_fm(rest));
        i = i + 1;
    }
    assert(inst_fm(all.subrange(len as int, len as int)) =~= Seq::<Seq<u8>>::empty());
    assert(ids(out@) =~= ids(out@) + Seq::<Seq<u8>>::empty());
}

/// Appends the instance ids in the keys and values of `entries` (see
/// `inst_ems`).
pub fn collect_container_instances_in_entries(entries: &Vec<(PropTree, PropTree)>, out: &mut Vec<[u8; 16]>)
    ensures
        ids(final(out)@) == ids(old(out)@) + inst_ems(entries_model(entries@)),
    decreases entries,
{
    let len = entries.len();
    let ghost all = entries_model(entries@);
    let ghost start = ids(out@);
    let mut i: usize = 0;
    assert(all.subrange(0, len as int) =~= all);
    assert(ids(out@) =~= start);
    while i < len
        invariant
            len == entries@.len(),
            all == entries_model(entries@),
            i <= len,
            ids(out@) + inst_ems(all.subrange(i as int, len as int)) == start + inst_ems(all),
        decreases len - i,
    {
        let ghost rest = all.subrange(i as int, len as int);
        let ghost before = ids(out@);
        assert(rest.subrange(1, rest.len() as int) =~= all.subrange(i + 1, len as int));
        collect_container_instances_in_property(&entries[i].0, out);
        collect_container_instances_in_property(&entries[i].1, out);
        assert(ids(out@) + inst_ems(all.subrange(i + 1, len as int)) =~= before + inst_ems(rest));
        i = i + 1;
    }
    assert(inst_ems(all.subrange(len as int, len as int)) =~= Seq::<Seq<u8>>::empty());
    assert(ids(out@) =~= ids(out@) + Seq::<Seq<u8>>::empty());
}

/// The GUID of a struct property or bare struct value holding a GUID.
pub open spec fn struct_guid(m: PropModel) -> Option<Seq<u8>> {
    match m {
        PropModel::Struct(_, _, StructModel::Guid(x)) => Some(x),
        PropModel::Value(StructModel::Guid(x)) => Some(x),
        _ => None,
    }
}

/// The GUID in the field `name` of a map key's custom struct.
pub open spec fn key_guid_spec(m: PropModel, name: Seq<char>) -> Option<Seq<u8>> {
    match any_struct_fields(m) {
        Some(f) => match field_value(f, name) {
            Some(x) => struct_guid(x),
            None => None,
        },
        None => None,
    }
}

/// The GUID in the field `name` of a map key's custom struct (see
/// `key_guid_spec`): `ID` for a container key, `InstanceId` for a
/// character key.
pub fn key_guid(key: &PropTree, name: &str) -> (r: Option<[u8; 16]>)
    ensures
        match key_guid_spec(tree_model(*key), name@) {
            Some(g) => r matches Some(x) && x@ == g,
            None => r is None,
        },
{
    let f = match any_struct_fields_of(key) {
        Some(f) => f,
        None => return None,
    };
    match field(f, name) {
        Some(PropTree::Struct { value: StructNode::Guid(g), .. }) => Some(*g),
        Some(PropTree::Value(StructNode::Guid(g))) => Some(*g),
        _ => None,
    }
}

/// Key-value pairs, as values.
pub open spec fn pairs(v: Seq<([u8; 16], [u8; 16])>) -> Seq<(Seq<u8>, Seq<u8>)> {
    v.map_values(|e: ([u8; 16], [u8; 16])| (e.0@, e.1@))
}

/// The value that the pairs `es` give the key `k`, as a hash map filled with
/// them in order holds it: the last pair with that key wins.
pub open spec fn lookup(es: Seq<(Seq<u8>, Seq<u8>)>, k: Seq<u8>) -> Option<Seq<u8>>
    decreases es.len(),
{
    if es.len() == 0 {
        None
    } else if es.last().0 == k {
        Some(es.last().1)
    } else {
        lookup(es.drop_last(), k)
    }
}

/// The pairs (pal instance, container) that the containers map gives, in
/// order: each instance id found in a container's value, with the
/// container's `ID`; containers whose key has no `ID` are skipped.
pub open spec fn container_pairs(cs: Seq<(PropModel, PropModel)>) -> Seq<(Seq<u8>, Seq<u8>)>
    decreases cs.len(),
{
    if cs.len() == 0 {
        Seq::empty()
    } else {
        let prev = container_pairs(cs.drop_last());
        match key_guid_spec(cs.last().0, "ID"@) {
            Some(c) => prev + inst_pm(cs.last().1).map_values(|i: Seq<u8>| (i, c)),
            None => prev,
        }
    }
}

/// The index of the first vote for `o`.
pub open spec fn vote_index(v: Seq<(Seq<u8>, nat)>, o: Seq<u8>) -> Option<int>
    decreases v.len(),
{
    if v.len() == 0 {
        None
    } else if v[0].0 == o {
        Some(0)
    } else {
        match vote_index(v.subrange(1, v.len() as int), o) {
            Some(j) => Some(j + 1),
            None => None,
        }
    }
}

/// The votes `v` with one more for `o`: owners in the order of their first
/// vote, each with its count.
pub open spec fn tally(v: Seq<(Seq<u8>, nat)>, o: Seq<u8>) -> Seq<(Seq<u8>, nat)> {
    match vote_index(v, o) {
        Some(j) => v.update(j, (o, v[j].1 + 1)),
        None => v.push((o, 1)),
    }
}

/// The owner votes for the container `c`: each character, in order, whose
/// instance sits in `c` (by `ic`) and that names an owner votes for it.
pub open spec fn votes(chars: Seq<(Option<Seq<u8>>, Option<Seq<u8>>)>, ic: Seq<(Seq<u8>, Seq<u8>)>, c: Seq<u8>) -> Seq<(Seq<u8>, nat)>
    decreases chars.len(),
{
    if chars.len() == 0 {
        Seq::empty()
    } else {
        let prev = votes(chars.drop_last(), ic, c);
        match chars.last() {
            (Some(i), Some(o)) => if lookup(ic, i) == Some(c) {
                tally(prev, o)
            } else {
                prev
            },
            _ => prev,
        }
    }
}

/// The index of the winning vote: the greatest count, the later owner on a
/// tie.
pub open spec fn best(v: Seq<(Seq<u8>, nat)>) -> int
    decreases v.len(),
{
    if v.len() <= 1 {
        0
    } else {
        let b = best(v.drop_last());
        if v.last().1 >= v[b].1 {
            v.len() - 1
        } else {
            b
        }
    }
}

/// The owner of the container `c`: the winner of its votes, if any.
pub open spec fn owner_of(chars: Seq<(Option<Seq<u8>>, Option<Seq<u8>>)>, ic: Seq<(Seq<u8>, Seq<u8>)>, c: Seq<u8>) -> Option<Seq<u8>> {
    let v = votes(chars, ic, c);
    if v.len() == 0 {
        None
    } else {
        Some(v[best(v)].0)
    }
}

/// The owner a pal counts for: the owner of the container its instance sits
/// in, else `fallback`.
pub open spec fn effective(ic: Seq<(Seq<u8>, Seq<u8>)>, co: Seq<(Seq<u8>, Seq<u8>)>, inst: Option<Seq<u8>>, fallback: Option<Seq<u8>>) -> Option<Seq<u8>> {
    match inst {
        Some(i) => match lookup(ic, i) {
            Some(c) => match lookup(co, c) {
                Some(o) => Some(o),
                None => fallback,
            },
            None => fallback,
        },
        None => fallback,
    }
}

/// An optional id, as a value.
pub open spec fn opt_id(g: Option<[u8; 16]>) -> Option<Seq<u8>> {
    match g {
        Some(x) => Some(x@),
        None => None,
    }
}

/// Characters as (instance, owner) values.
pub open spec fn chars_view(v: Seq<(Option<[u8; 16]>, Option<[u8; 16]>)>) -> Seq<(Option<Seq<u8>>, Option<Seq<u8>>)> {
    v.map_values(|e: (Option<[u8; 16]>, Option<[u8; 16]>)| (opt_id(e.0), opt_id(e.1)))
}

/// Which container each pal instance sits in, and which player owns each
/// container.
pub struct ContainerOwnershipIndex {
    /// (instance, container) pairs; the last pair for an instance wins.
    pub instance_containers: Vec<([u8; 16], [u8; 16])>,
    /// (container, owner) pairs; the last pair for a container wins.
    pub container_owners: Vec<([u8; 16], [u8; 16])>,
}

fn lookup_exec(es: &Vec<([u8; 16], [u8; 16])>, k: &[u8; 16]) -> (r: Option<[u8; 16]>)
    ensures
        opt_id(r) == lookup(pairs(es@), k@),
{
    let mut i: usize = es.len();
    assert(pairs(es@).take(i as int) =~= pairs(es@));
    while i > 0
        invariant
            i <= es@.len(),
            lookup(pairs(es@), k@) == lookup(pairs(es@).take(i as int), k@),
        decreases i,
    {
        let ghost p = pairs(es@).take(i as int);
        assert(p.drop_last() =~= pairs(es@).take(i - 1));
        if crate::guid_bytes::guid_eq(&es[i - 1].0, k) {
            return Some(es[i - 1].1);
        }
        i = i - 1;
    }
    None
}

impl ContainerOwnershipIndex {
    /// The owner a pal counts for (see `effective`): the owner of the
    /// container that its instance sits in, else `fallback`.
    pub fn effective_owner(&self, instance_id: Option<[u8; 16]>, fallback: Option<[u8; 16]>) -> (r: Option<[u8; 16]>)
        ensures
            opt_id(r) == effective(pairs(self.instance_containers@), pairs(self.container_owners@), opt_id(instance_id), opt_id(fallback)),
    {
        let i = match instance_id {
            Some(i) => i,
            None => return fallback,
        };
        let c = match lookup_exec(&self.instance_containers, &i) {
            Some(c) => c,
            None => return fallback,
        };
        match lookup_exec(&self.container_owners, &c) {
            Some(o) => Some(o),
            None => fallback,
        }
    }
}

/// The (instance, container) pairs of a containers map, in order (see
/// `container_pairs`).
pub fn build_instance_containers(containers: &Vec<(PropTree, PropTree)>) -> (r: Vec<([u8; 16], [u8; 16])>)
    ensures
        pairs(r@) == container_pairs(entries_model(containers@)),
{
    let ghost cs = entries_model(containers@);
    let mut out: Vec<([u8; 16], [u8; 16])> = Vec::new();
    let mut i: usize = 0;
    assert(cs.take(0) =~= Seq::<(PropModel, PropModel)>::empty());
    assert(pairs(out@) =~= Seq::<(Seq<u8>, Seq<u8>)>::empty());
    while i < containers.len()
        invariant
            cs == entries_model(containers@),
            i <= containers@.len(),
            pairs(out@) == container_pairs(cs.take(i as int)),
        decreases containers@.len() - i,
    {
        assert(cs.take(i + 1).drop_last() =~= cs.take(i as int));
        assert(cs.take(i + 1).last() == cs[i as int]);
        assert(cs[i as int] == (tree_model(containers@[i as int].0), tree_model(containers@[i as int].1)));
        match key_guid(&containers[i].0, "ID") {
            Some(c) => {
                let mut found: Vec<[u8; 16]> = Vec::new();
                collect_container_instances_in_property(&containers[i].1, &mut found);
                assert(ids(found@) =~= inst_pm(cs[i as int].1)) by {
                    assert(ids(Seq::<[u8; 16]>::empty()) =~= Seq::<Seq<u8>>::empty());
                }
                let ghost base = pairs(out@);
                let mut m: usize = 0;
                while m < found.len()
                    invariant
                        m <= found@.len(),
                        pairs(out@) == base + ids(found@).take(m as int).map_values(|x: Seq<u8>| (x, c@)),
                    decreases found@.len() - m,
                {
                    let ghost before = pairs(out@);
                    let ghost f = ids(found@);
                    out.push((found[m], c));
                    assert(f[m as int] == found@[m as int]@);
                    assert(pairs(out@) =~= before.push((found@[m as int]@, c@)));
                    assert(f.take(m + 1).map_values(|x: Seq<u8>| (x, c@)) =~= f.take(m as int).map_values(|x: Seq<u8>| (x, c@)).push((f[m as int], c@)));
                    assert(pairs(out@) =~= base + ids(found@).take(m + 1).map_values(|x: Seq<u8>| (x, c@)));
                    m = m + 1;
                }
                assert(ids(found@).take(found@.len() as int) =~= ids(found@));
            },
            None => {},
        }
        i = i + 1;
    }
    assert(cs.take(containers@.len() as int) =~= cs);
    out
}

proof fn lemma_vote_index(v: Seq<(Seq<u8>, nat)>, o: Seq<u8>)
    ensures
        match vote_index(v, o) {
            Some(j) => 0 <= j < v.len() && v[j].0 == o && forall|k: int| 0 <= k < j ==> (#[trigger] v[k]).0 != o,
            None => forall|k: int| 0 <= k < v.len() ==> (#[trigger] v[k]).0 != o,
        },
    decreases v.len(),
{
    if v.len() > 0 {
        let r = v.subrange(1, v.len() as int);
        lemma_vote_index(r, o);
        if v[0].0 != o {
            match vote_index(r, o) {
                Some(j) => {
                    assert forall|k: int| 0 <= k < j + 1 implies (#[trigger] v[k]).0 != o by {
                        if k > 0 {
                            assert(v[k] == r[k - 1]);
                        }
                    }
                    assert(v[j + 1] == r[j]);
                },
                None => {
                    assert forall|k: int| 0 <= k < v.len() implies (#[trigger] v[k]).0 != o by {
                        if k > 0 {
                            assert(v[k] == r[k - 1]);
                        }
                    }
                },
            }
        }
    }
}

/// Votes, as values.
pub open spec fn votes_view(v: Seq<([u8; 16], usize)>) -> Seq<(Seq<u8>, nat)> {
    v.map_values(|e: ([u8; 16], usize)| (e.0@, e.1 as nat))
}

fn add_vote(v: &mut Vec<([u8; 16], usize)>, o: &[u8; 16], Ghost(bound): Ghost<nat>)
    requires
        bound < usize::MAX,
        forall|m: int| 0 <= m < old(v)@.len() ==> (#[trigger] old(v)@[m]).1 <= bound,
    ensures
        votes_view(final(v)@) == tally(votes_view(old(v)@), o@),
        forall|m: int| 0 <= m < final(v)@.len() ==> (#[trigger] final(v)@[m]).1 <= bound + 1,
{
    let ghost vv = votes_view(v@);
    proof {
        lemma_vote_index(vv, o@);
    }
    let mut m: usize = 0;
    while m < v.len()
        invariant
            vv == votes_view(v@),
            v@ == old(v)@,
            m <= v@.len(),
            bound < usize::MAX,
            forall|k: int| 0 <= k < v@.len() ==> (#[trigger] v@[k]).1 <= bound,
            forall|k: int| 0 <= k < m ==> (#[trigger] vv[k]).0 != o@,
        decreases v@.len() - m,
    {
        if crate::guid_bytes::guid_eq(&v[m].0, o) {
            assert(vv[m as int].0 == o@);
            assert(vote_index(vv, o@) == Some(m as int)) by {
                lemma_vote_index(vv, o@);
                match vote_index(vv, o@) {
                    Some(j) => {
                        if j < m {
                            assert(vv[j].0 != o@);
                        } else if j > m {
                            assert(vv[m as int].0 == o@);
                        }
                    },
                    None => {
                        assert(vv[m as int].0 != o@);
                    },
                }
            }
            let n = v[m].1;
            v.set(m, (*o, n + 1));
            assert(votes_view(v@) =~= vv.update(m as int, (o@, vv[m as int].1 + 1)));
            return;
        }
        assert(vv[m as int].0 != o@);
        m = m + 1;
    }
    proof {
        lemma_vote_index(vv, o@);
        if vote_index(vv, o@) is Some {
            let j = vote_index(vv, o@)->0;
            assert(vv[j].0 != o@);
        }
    }
    v.push((*o, 1));
    assert(votes_view(v@) =~= vv.push((o@, 1)));
}

/// A table of containers with their votes, as values.
pub open spec fn table_view(t: Seq<([u8; 16], Vec<([u8; 16], usize)>)>) -> Seq<(Seq<u8>, Seq<(Seq<u8>, nat)>)> {
    t.map_values(|e: ([u8; 16], Vec<([u8; 16], usize)>)| (e.0@, votes_view(e.1@)))
}

/// The table `tv` holds, once each, every container with votes from the
/// characters `cs`, with those votes.
pub open spec fn table_holds(tv: Seq<(Seq<u8>, Seq<(Seq<u8>, nat)>)>, cs: Seq<(Option<Seq<u8>>, Option<Seq<u8>>)>, ic: Seq<(Seq<u8>, Seq<u8>)>) -> bool {
    &&& forall|a: int, b: int| 0 <= a < b < tv.len() ==> (#[trigger] tv[a]).0 != (#[trigger] tv[b]).0
    &&& forall|j: int| 0 <= j < tv.len() ==> (#[trigger] tv[j]).1 == votes(cs, ic, tv[j].0) && tv[j].1.len() > 0
    &&& forall|c: Seq<u8>| (#[trigger] votes(cs, ic, c)).len() > 0 ==> exists|j: int| 0 <= j < tv.len() && (#[trigger] tv[j]).0 == c
}

proof fn lemma_votes_step(cs: Seq<(Option<Seq<u8>>, Option<Seq<u8>>)>, k: int, ic: Seq<(Seq<u8>, Seq<u8>)>, c: Seq<u8>)
    requires
        0 <= k < cs.len(),
    ensures
        votes(cs.take(k + 1), ic, c) == (match cs[k] {
            (Some(i), Some(o)) => if lookup(ic, i) == Some(c) {
                tally(votes(cs.take(k), ic, c), o)
            } else {
                votes(cs.take(k), ic, c)
            },
            _ => votes(cs.take(k), ic, c),
        }),
{
    assert(cs.take(k + 1).drop_last() =~= cs.take(k));
    assert(cs.take(k + 1).last() == cs[k]);
}

fn find_container(t: &Vec<([u8; 16], Vec<([u8; 16], usize)>)>, c: &[u8; 16]) -> (r: Option<usize>)
    ensures
        match r {
            Some(j) => j < t@.len() && table_view(t@)[j as int].0 == c@,
            None => forall|j: int| 0 <= j < t@.len() ==> (#[trigger] table_view(t@)[j]).0 != c@,
        },
{
    let mut j: usize = 0;
    while j < t.len()
        invariant
            j <= t@.len(),
            forall|q: int| 0 <= q < j ==> (#[trigger] table_view(t@)[q]).0 != c@,
        decreases t@.len() - j,
    {
        if crate::guid_bytes::guid_eq(&t[j].0, c) {
            return Some(j);
        }
        j = j + 1;
    }
    None
}

/// Counts, per container, the owner votes of the characters (see `votes`):
/// each character whose instance sits in a container and that names an
/// owner votes for that owner.
pub fn tally_votes(
    characters: &Vec<(Option<[u8; 16]>, Option<[u8; 16]>)>,
    ic: &Vec<([u8; 16], [u8; 16])>,
) -> (t: Vec<([u8; 16], Vec<([u8; 16], usize)>)>)
    ensures
        table_holds(table_view(t@), chars_view(characters@), pairs(ic@)),
{
    let ghost cs = chars_view(characters@);
    let ghost icv = pairs(ic@);
    let mut t: Vec<([u8; 16], Vec<([u8; 16], usize)>)> = Vec::new();
    let mut k: usize = 0;
    assert(table_view(t@) =~= Seq::<(Seq<u8>, Seq<(Seq<u8>, nat)>)>::empty());
    assert forall|c: Seq<u8>| (#[trigger] votes(cs.take(0), icv, c)).len() == 0 by {
        assert(cs.take(0).len() == 0);
    }
    while k < characters.len()
        invariant
            cs == chars_view(characters@),
            icv == pairs(ic@),
            k <= characters@.len(),
            table_holds(table_view(t@), cs.take(k as int), icv),
            forall|j: int, m: int| 0 <= j < t@.len() && 0 <= m < t@[j].1@.len() ==> (#[trigger] t@[j].1@[m]).1 <= k,
        decreases characters@.len() - k,
    {
        let ghost tv = table_view(t@);
        let ghost pre = cs.take(k as int);
        assert(cs[k as int] == (opt_id(characters@[k as int].0), opt_id(characters@[k as int].1)));
        let (inst, owner) = characters[k];
        let target = match (inst, owner) {
            (Some(i), Some(o)) => match lookup_exec(ic, &i) {
                Some(c) => Some((c, o)),
                None => None,
            },
            _ => None,
        };
        match target {
            None => {
                assert forall|c: Seq<u8>| #[trigger] votes(cs.take(k + 1), icv, c) == votes(pre, icv, c) by {
                    lemma_votes_step(cs, k as int, icv, c);
                }
                assert forall|q: int| 0 <= q < tv.len() implies (#[trigger] tv[q]).1 == votes(cs.take(k + 1), icv, tv[q].0) && tv[q].1.len() > 0 by {
                    assert(votes(cs.take(k + 1), icv, tv[q].0) == votes(pre, icv, tv[q].0));
                }
                assert forall|c2: Seq<u8>| (#[trigger] votes(cs.take(k + 1), icv, c2)).len() > 0 implies exists|q: int| 0 <= q < tv.len() && (#[trigger] tv[q]).0 == c2 by {
                    assert(votes(pre, icv, c2).len() > 0);
                }
                assert(table_holds(table_view(t@), cs.take(k + 1), icv));
            },
            Some((c, o)) => {
                assert forall|c2: Seq<u8>| c2 != c@ implies votes(cs.take(k + 1), icv, c2) == votes(pre, icv, c2) by {
                    lemma_votes_step(cs, k as int, icv, c2);
                }
                assert(votes(cs.take(k + 1), icv, c@) == tally(votes(pre, icv, c@), o@)) by {
                    lemma_votes_step(cs, k as int, icv, c@);
                }
                match find_container(&t, &c) {
                    Some(j) => {
                        let ghost old_t = t@;
                        let (key, mut inner) = t.remove(j);
                        assert(old_t[j as int] == (key, inner));
                        assert forall|m: int| 0 <= m < inner@.len() implies (#[trigger] inner@[m]).1 <= k by {
                            assert(old_t[j as int].1@[m] == inner@[m]);
                        }
                        add_vote(&mut inner, &o, Ghost(k as nat));
                        t.insert(j, (key, inner));
                        assert(t@ =~= old_t.update(j as int, (key, inner)));
                        assert(table_view(t@) =~= tv.update(j as int, (c@, tally(votes(pre, icv, c@), o@))));
                        let ghost nv = table_view(t@);
                        assert forall|c2: Seq<u8>| (#[trigger] votes(cs.take(k + 1), icv, c2)).len() > 0 implies exists|q: int| 0 <= q < nv.len() && (#[trigger] nv[q]).0 == c2 by {
                            if c2 == c@ {
                                assert(nv[j as int].0 == c2);
                            } else {
                                assert(votes(pre, icv, c2).len() > 0);
                                let q = choose|q: int| 0 <= q < tv.len() && (#[trigger] tv[q]).0 == c2;
                                assert(nv[q].0 == c2);
                            }
                        }
                        assert forall|q: int| 0 <= q < nv.len() implies (#[trigger] nv[q]).1 == votes(cs.take(k + 1), icv, nv[q].0) && nv[q].1.len() > 0 by {
                            if q != j {
                                assert(nv[q] == tv[q]);
                                assert(tv[q].0 != tv[j as int].0 || q == j);
                                if q < j {
                                    assert(tv[q].0 != tv[j as int].0);
                                } else {
                                    assert(tv[j as int].0 != tv[q].0);
                                }
                            } else {
                                lemma_vote_index(votes(pre, icv, c@), o@);
                            }
                        }
                        assert forall|a: int, b: int| 0 <= a < b < nv.len() implies (#[trigger] nv[a]).0 != (#[trigger] nv[b]).0 by {
                            assert(nv[a].0 == tv[a].0);
                            assert(nv[b].0 == tv[b].0);
                        }
                        assert forall|q: int, m: int| 0 <= q < t@.len() && 0 <= m < t@[q].1@.len() implies (#[trigger] t@[q].1@[m]).1 <= k + 1 by {
                            if q != j {
                                assert(t@[q] == old_t[q]);
                            }
                        }
                    },
                    None => {
                        assert(votes(pre, icv, c@).len() == 0) by {
                            if votes(pre, icv, c@).len() > 0 {
                                let q = choose|q: int| 0 <= q < tv.len() && (#[trigger] tv[q]).0 == c@;
                                assert(tv[q].0 != c@);
                            }
                        }
                        assert(votes(pre, icv, c@) =~= Seq::<(Seq<u8>, nat)>::empty());
                        let ghost old_t = t@;
                        let mut inner: Vec<([u8; 16], usize)> = Vec::new();
                        inner.push((o, 1));
                        t.push((c, inner));
                        assert(votes_view(inner@) =~= seq![(o@, 1nat)]);
                        assert(tally(Seq::<(Seq<u8>, nat)>::empty(), o@) =~= seq![(o@, 1nat)]);
                        assert(table_view(t@) =~= tv.push((c@, seq![(o@, 1nat)])));
                        let ghost nv = table_view(t@);
                        assert forall|c2: Seq<u8>| (#[trigger] votes(cs.take(k + 1), icv, c2)).len() > 0 implies exists|q: int| 0 <= q < nv.len() && (#[trigger] nv[q]).0 == c2 by {
                            if c2 == c@ {
                                assert(nv[tv.len() as int].0 == c2);
                            } else {
                                assert(votes(pre, icv, c2).len() > 0);
                                let q = choose|q: int| 0 <= q < tv.len() && (#[trigger] tv[q]).0 == c2;
                                assert(nv[q].0 == c2);
                            }
                        }
                        assert forall|q: int| 0 <= q < nv.len() implies (#[trigger] nv[q]).1 == votes(cs.take(k + 1), icv, nv[q].0) && nv[q].1.len() > 0 by {
                            if q < tv.len() {
                                assert(nv[q] == tv[q]);
                                assert(tv[q].0 != c@);
                            }
                        }
                        assert forall|a: int, b: int| 0 <= a < b < nv.len() implies (#[trigger] nv[a]).0 != (#[trigger] nv[b]).0 by {
                            if b == tv.len() {
                                assert(nv[a] == tv[a]);
                                assert(tv[a].0 != c@);
                            } else {
                                assert(nv[a] == tv[a]);
                                assert(nv[b] == tv[b]);
                            }
                        }
                        assert forall|q: int, m: int| 0 <= q < t@.len() && 0 <= m < t@[q].1@.len() implies (#[trigger] t@[q].1@[m]).1 <= k + 1 by {
                            if q < old_t.len() {
                                assert(t@[q] == old_t[q]);
                            }
                        }
                    },
                }
            },
        }
        k = k + 1;
    }
    assert(cs.take(characters@.len() as int) =~= cs);
    t
}

fn best_vote(v: &Vec<([u8; 16], usize)>) -> (b: usize)
    requires
        v@.len() > 0,
    ensures
        b < v@.len(),
        b == best(votes_view(v@)),
{
    let ghost vv = votes_view(v@);
    let mut b: usize = 0;
    let mut m: usize = 1;
    assert(best(vv.take(1)) == 0);
    while m < v.len()
        invariant
            vv == votes_view(v@),
            1 <= m <= v@.len(),
            b < m,
            b == best(vv.take(m as int)),
        decreases v@.len() - m,
    {
        assert(vv.take(m + 1).drop_last() =~= vv.take(m as int));
        assert(vv.take(m + 1).last() == vv[m as int]);
        assert(vv.take(m + 1)[b as int] == vv[b as int]);
        if v[m].1 >= v[b].1 {
            b = m;
        }
        m = m + 1;
    }
    assert(vv.take(v@.len() as int) =~= vv);
    b
}

proof fn lemma_lookup_distinct(es: Seq<(Seq<u8>, Seq<u8>)>, k: Seq<u8>)
    requires
        forall|a: int, b: int| 0 <= a < b < es.len() ==> (#[trigger] es[a]).0 != (#[trigger] es[b]).0,
    ensures
        forall|j: int| 0 <= j < es.len() && (#[trigger] es[j]).0 == k ==> lookup(es, k) == Some(es[j].1),
        (forall|j: int| 0 <= j < es.len() ==> (#[trigger] es[j]).0 != k) ==> lookup(es, k) is None,
    decreases es.len(),
{
    if es.len() > 0 {
        let d = es.drop_last();
        assert forall|a: int, b: int| 0 <= a < b < d.len() implies (#[trigger] d[a]).0 != (#[trigger] d[b]).0 by {
            assert(d[a] == es[a]);
            assert(d[b] == es[b]);
        }
        lemma_lookup_distinct(d, k);
        assert forall|j: int| 0 <= j < es.len() && (#[trigger] es[j]).0 == k implies lookup(es, k) == Some(es[j].1) by {
            if j < es.len() - 1 {
                assert(d[j] == es[j]);
                assert(es[j].0 != es[es.len() - 1].0);
            }
        }
        if forall|j: int| 0 <= j < es.len() ==> (#[trigger] es[j]).0 != k {
            assert(es[es.len() - 1].0 != k);
            assert forall|j: int| 0 <= j < d.len() implies (#[trigger] d[j]).0 != k by {
                assert(d[j] == es[j]);
            }
        }
    }
}

/// Which container each pal sits in, and who owns each container: the
/// owner that most of the container's pals name, the later named on a tie
/// (see `owner_of`). `containers` is the containers map; `characters` holds,
/// for each character in the character map, its key's instance id and the
/// owner its save names.
pub fn build_container_ownership(
    containers: &Vec<(PropTree, PropTree)>,
    characters: &Vec<(Option<[u8; 16]>, Option<[u8; 16]>)>,
) -> (r: ContainerOwnershipIndex)
    ensures
        pairs(r.instance_containers@) == container_pairs(entries_model(containers@)),
        forall|c: Seq<u8>| #[trigger] lookup(pairs(r.container_owners@), c) == owner_of(chars_view(characters@), pairs(r.instance_containers@), c),
{
    let ic = build_instance_containers(containers);
    let t = tally_votes(characters, &ic);
    let ghost tv = table_view(t@);
    let ghost cs = chars_view(characters@);
    let ghost icv = pairs(ic@);
    let mut owners: Vec<([u8; 16], [u8; 16])> = Vec::new();
    let mut j: usize = 0;
    while j < t.len()
        invariant
            tv == table_view(t@),
            table_holds(tv, cs, icv),
            j <= t@.len(),
            owners@.len() == j,
            forall|q: int| 0 <= q < j ==> (#[trigger] pairs(owners@)[q]) == (tv[q].0, tv[q].1[best(tv[q].1)].0),
        decreases t@.len() - j,
    {
        assert(tv[j as int].1.len() > 0);
        let b = best_vote(&t[j].1);
        let ghost before = owners@;
        owners.push((t[j].0, t[j].1[b].0));
        assert forall|q: int| 0 <= q < j + 1 implies (#[trigger] pairs(owners@)[q]) == (tv[q].0, tv[q].1[best(tv[q].1)].0) by {
            if q < j {
                assert(owners@[q] == before[q]);
                assert(pairs(before)[q] == pairs(owners@)[q]);
            } else {
                assert(tv[q] == (t@[q].0@, votes_view(t@[q].1@)));
                assert(pairs(owners@)[q] == (owners@[q].0@, owners@[q].1@));
                assert(tv[q].1 == votes_view(t@[q].1@));
                assert(votes_view(t@[q].1@)[b as int].0 == t@[q].1@[b as int].0@);
                assert(owners@[q] == (t@[q].0, t@[q].1@[b as int].0));
            }
        }
        j = j + 1;
    }
    let ghost ov = pairs(owners@);
    assert forall|a: int, b: int| 0 <= a < b < ov.len() implies (#[trigger] ov[a]).0 != (#[trigger] ov[b]).0 by {
        assert(ov[a].0 == tv[a].0);
        assert(ov[b].0 == tv[b].0);
    }
    assert forall|c: Seq<u8>| #[trigger] lookup(ov, c) == owner_of(cs, icv, c) by {
        lemma_lookup_distinct(ov, c);
        if exists|q: int| 0 <= q < tv.len() && (#[trigger] tv[q]).0 == c {
            let q = choose|q: int| 0 <= q < tv.len() && (#[trigger] tv[q]).0 == c;
            assert(ov[q].0 == c);
        } else {
            assert forall|q: int| 0 <= q < ov.len() implies (#[trigger] ov[q]).0 != c by {
                assert(ov[q].0 == tv[q].0);
            }
            if votes(cs, icv, c).len() > 0 {
                assert(exists|q: int| 0 <= q < tv.len() && (#[trigger] tv[q]).0 == c);
            }
        }
    }
    ContainerOwnershipIndex { instance_containers: ic, container_owners: owners }
}

/// The winning vote has the greatest count, and every later owner has
/// fewer votes: a container goes to its majority owner, the later named on a
/// tie.
pub proof fn lemma_winner_has_most_votes(v: Seq<(Seq<u8>, nat)>)
    requires
        v.len() > 0,
    ensures
        0 <= best(v) < v.len(),
        forall|m: int| 0 <= m < v.len() ==> (#[trigger] v[m]).1 <= v[best(v)].1,
        forall|m: int| best(v) < m < v.len() ==> (#[trigger] v[m]).1 < v[best(v)].1,
    decreases v.len(),
{
    if v.len() > 1 {
        let d = v.drop_last();
        lemma_winner_has_most_votes(d);
        let b = best(d);
        assert forall|m: int| 0 <= m < d.len() implies (#[trigger] v[m]) == d[m] by {}
        if v.last().1 >= v[b].1 {
            assert forall|m: int| 0 <= m < v.len() implies (#[trigger] v[m]).1 <= v[best(v)].1 by {
                if m < d.len() {
                    assert(d[m].1 <= d[b].1);
                }
            }
        } else {
            assert forall|m: int| 0 <= m < v.len() implies (#[trigger] v[m]).1 <= v[best(v)].1 by {
                if m < d.len() {
                    assert(d[m].1 <= d[b].1);
                }
            }
            assert forall|m: int| best(v) < m < v.len() implies (#[trigger] v[m]).1 < v[best(v)].1 by {
                if m < d.len() {
                    assert(d[m].1 < d[b].1);
                }
            }
        }
    }
}

} // verus!
