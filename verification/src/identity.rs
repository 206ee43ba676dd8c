//! Reading and rewriting the identity fields of parsed saves: a player's
//! container and instance ids, guild records, and the player keys of the
//! character map.

use vstd::prelude::*;
use crate::prop_tree::{
    entries_model, fields_model, insert_all, props_model, struct_model, tree_model,
    trees_model, PropModel, PropTree, StructModel, StructNode,
};

verus! {

/// The first property of the first field named `name` in the fields `f`.
pub open spec fn field_value(f: Seq<(Seq<char>, Seq<PropModel>)>, name: Seq<char>) -> Option<PropModel>
    decreases f.len(),
{
    if f.len() == 0 {
        None
    } else if f[0].0 == name {
        if f[0].1.len() > 0 {
            Some(f[0].1[0])
        } else {
            None
        }
    } else {
        field_value(f.subrange(1, f.len() as int), name)
    }
}

/// The first top-level property named `name`.
pub open spec fn top_value(ps: Seq<(Seq<char>, PropModel)>, name: Seq<char>) -> Option<PropModel>
    decreases ps.len(),
{
    if ps.len() == 0 {
        None
    } else if ps[0].0 == name {
        Some(ps[0].1)
    } else {
        top_value(ps.subrange(1, ps.len() as int), name)
    }
}

/// The custom fields of a struct property.
pub open spec fn struct_fields(m: PropModel) -> Option<Seq<(Seq<char>, Seq<PropModel>)>> {
    match m {
        PropModel::Struct(_, _, StructModel::Custom(f)) => Some(f),
        _ => None,
    }
}

/// The custom fields of a struct property or of a bare struct value.
pub open spec fn any_struct_fields(m: PropModel) -> Option<Seq<(Seq<char>, Seq<PropModel>)>> {
    match m {
        PropModel::Struct(_, _, StructModel::Custom(f)) => Some(f),
        PropModel::Value(StructModel::Custom(f)) => Some(f),
        _ => None,
    }
}

/// The GUID of a GUID struct property.
pub open spec fn guid_value(m: PropModel) -> Option<Seq<u8>> {
    match m {
        PropModel::Struct(tn, _, StructModel::Guid(x)) => if tn == crate::prop_tree::guid_struct_type() {
            Some(x)
        } else {
            None
        },
        _ => None,
    }
}

/// The GUID at `outer.inner` of the struct property `m`.
pub open spec fn nested_guid(m: Option<PropModel>, outer: Seq<char>, inner: Seq<char>) -> Option<Seq<u8>> {
    match m {
        None => None,
        Some(p) => match struct_fields(p) {
            None => None,
            Some(f) => match field_value(f, outer) {
                None => None,
                Some(o) => match struct_fields(o) {
                    None => None,
                    Some(g) => match field_value(g, inner) {
                        None => None,
                        Some(x) => guid_value(x),
                    },
                },
            },
        },
    }
}

/// Whether the text `s` is `lit`.
pub fn text_is(s: &String, lit: &str) -> (r: bool)
    ensures
        r == (s@ == lit@),
{
    let v = crate::text::chars_of(s.as_str());
    let w = crate::text::chars_of(lit);
    if v.len() != w.len() {
        return false;
    }
    let mut i: usize = 0;
    while i < v.len()
        invariant
            v@ == s@,
            w@ == lit@,
            v@.len() == w@.len(),
            i <= v@.len(),
            forall|j: int| 0 <= j < i ==> v@[j] == w@[j],
        decreases v@.len() - i,
    {
        if v[i] != w[i] {
            return false;
        }
        i = i + 1;
    }
    assert(v@ =~= w@);
    true
}

/// The first top-level property named `name`.
pub fn top_field<'a>(props: &'a Vec<(String, PropTree)>, name: &str) -> (r: Option<&'a PropTree>)
    ensures
        match top_value(props_model(props@), name@) {
            Some(m) => r matches Some(t) && tree_model(*t) == m,
            None => r is None,
        },
{
    let ghost m = props_model(props@);
    let mut i: usize = 0;
    assert(m.subrange(0, m.len() as int) =~= m);
    while i < props.len()
        invariant
            m == props_model(props@),
            i <= props@.len(),
            top_value(m, name@) == top_value(m.subrange(i as int, m.len() as int), name@),
        decreases props@.len() - i,
    {
        let ghost rest = m.subrange(i as int, m.len() as int);
        assert(rest.subrange(1, rest.len() as int) =~= m.subrange(i + 1, m.len() as int));
        if text_is(&props[i].0, name) {
            return Some(&props[i].1);
        }
        i = i + 1;
    }
    None
}

/// The first property of the first field named `name`.
pub fn field<'a>(fields: &'a Vec<(String, Vec<PropTree>)>, name: &str) -> (r: Option<&'a PropTree>)
    ensures
        match field_value(fields_model(fields@), name@) {
            Some(m) => r matches Some(t) && tree_model(*t) == m,
            None => r is None,
        },
{
    let ghost m = fields_model(fields@);
    let mut i: usize = 0;
    assert(m.subrange(0, m.len() as int) =~= m);
    while i < fields.len()
        invariant
            m == fields_model(fields@),
            i <= fields@.len(),
            field_value(m, name@) == field_value(m.subrange(i as int, m.len() as int), name@),
        decreases fields@.len() - i,
    {
        let ghost rest = m.subrange(i as int, m.len() as int);
        assert(rest.subrange(1, rest.len() as int) =~= m.subrange(i + 1, m.len() as int));
        if text_is(&fields[i].0, name) {
            if fields[i].1.len() > 0 {
                assert(trees_model(fields@[i as int].1@)[0] == tree_model(fields@[i as int].1@[0]));
                return Some(&fields[i].1[0]);
            } else {
                return None;
            }
        }
        i = i + 1;
    }
    None
}

/// The custom fields of a struct property.
pub fn struct_fields_of(p: &PropTree) -> (r: Option<&Vec<(String, Vec<PropTree>)>>)
    ensures
        match struct_fields(tree_model(*p)) {
            Some(f) => r matches Some(v) && fields_model(v@) == f,
            None => r is None,
        },
{
    match p {
        PropTree::Struct { value: StructNode::Custom(f), .. } => Some(f),
        _ => None,
    }
}

/// The custom fields of a struct property or of a bare struct value.
pub fn any_struct_fields_of(p: &PropTree) -> (r: Option<&Vec<(String, Vec<PropTree>)>>)
    ensures
        match any_struct_fields(tree_model(*p)) {
            Some(f) => r matches Some(v) && fields_model(v@) == f,
            None => r is None,
        },
{
    match p {
        PropTree::Struct { value: StructNode::Custom(f), .. } => Some(f),
        PropTree::Value(StructNode::Custom(f)) => Some(f),
        _ => None,
    }
}

/// The GUID of a GUID struct property.
pub fn as_guid(p: &PropTree) -> (r: Option<[u8; 16]>)
    ensures
        match guid_value(tree_model(*p)) {
            Some(x) => r matches Some(g) && g@ == x,
            None => r is None,
        },
{
    match p {
        PropTree::Struct { struct_type, value: StructNode::Guid(g), .. } => {
            if crate::prop_tree::is_guid_type(struct_type) {
                Some(*g)
            } else {
                None
            }
        },
        _ => None,
    }
}

fn nested_guid_of(p: Option<&PropTree>, outer: &str, inner: &str) -> (r: Option<[u8; 16]>)
    ensures
        match nested_guid(
            match p {
                Some(t) => Some(tree_model(*t)),
                None => None,
            },
            outer@,
            inner@,
        ) {
            Some(x) => r matches Some(g) && g@ == x,
            None => r is None,
        },
{
    let p = match p {
        Some(t) => t,
        None => {
            return None;
        },
    };
    let f = match struct_fields_of(p) {
        Some(f) => f,
        None => {
            return None;
        },
    };
    let o = match field(f, outer) {
        Some(o) => o,
        None => {
            return None;
        },
    };
    let g = match struct_fields_of(o) {
        Some(g) => g,
        None => {
            return None;
        },
    };
    match field(g, inner) {
        Some(x) => as_guid(x),
        None => None,
    }
}

/// A player's `PalStorageContainerId.ID` and `IndividualId.InstanceId`, each
/// when the save's `SaveData` holds it.
pub fn extract_player_uids(props: &Vec<(String, PropTree)>) -> (r: (Option<[u8; 16]>, Option<[u8; 16]>))
    ensures
        ({
            let save_data = top_value(props_model(props@), "SaveData"@);
            &&& match nested_guid(save_data, "PalStorageContainerId"@, "ID"@) {
                Some(x) => r.0 matches Some(g) && g@ == x,
                None => r.0 is None,
            }
            &&& match nested_guid(save_data, "IndividualId"@, "InstanceId"@) {
                Some(x) => r.1 matches Some(g) && g@ == x,
                None => r.1 is None,
            }
        }),
{
    let save_data = top_field(props, "SaveData");
    (nested_guid_of(save_data, "PalStorageContainerId", "ID"), nested_guid_of(save_data, "IndividualId", "InstanceId"))
}

/// Whether a group record is a guild: its `GroupType` is the enum value
/// `EPalGroupType::Guild`.
pub open spec fn guild_group(m: PropModel) -> bool {
    match any_struct_fields(m) {
        Some(f) => match field_value(f, "GroupType"@) {
            Some(PropModel::Enum(_, v)) => v == "EPalGroupType::Guild"@,
            _ => false,
        },
        None => false,
    }
}

/// Whether a group record is a guild (see `guild_group`).
pub fn is_guild_group(p: &PropTree) -> (r: bool)
    ensures
        r == guild_group(tree_model(*p)),
{
    match any_struct_fields_of(p) {
        Some(f) => match field(f, "GroupType") {
            Some(PropTree::Enum { value, .. }) => text_is(value, "EPalGroupType::Guild"),
            _ => false,
        },
        None => false,
    }
}

/// The `RawData` bytes of a record.
pub open spec fn raw_data(m: PropModel) -> Option<Seq<u8>> {
    match any_struct_fields(m) {
        Some(f) => match field_value(f, "RawData"@) {
            Some(PropModel::Bytes(b)) => Some(b),
            _ => None,
        },
        None => None,
    }
}

/// The `RawData` bytes of a record (see `raw_data`).
pub fn raw_data_bytes(p: &PropTree) -> (r: Option<&Vec<u8>>)
    ensures
        match raw_data(tree_model(*p)) {
            Some(b) => r matches Some(v) && v@ == b,
            None => r is None,
        },
{
    match any_struct_fields_of(p) {
        Some(f) => match field(f, "RawData") {
            Some(PropTree::Bytes(b)) => Some(b),
            _ => None,
        },
        None => None,
    }
}

/// A GUID struct property with its value set to `g`; `None` for any other
/// property.
pub open spec fn with_guid(m: PropModel, g: Seq<u8>) -> Option<PropModel> {
    match m {
        PropModel::Struct(tn, h, StructModel::Guid(_)) => if tn == crate::prop_tree::guid_struct_type() {
            Some(PropModel::Struct(tn, h, StructModel::Guid(g)))
        } else {
            None
        },
        _ => None,
    }
}

/// Sets the value of a GUID struct property to `value`; anything else is
/// left as it is. Returns whether the property was set.
pub fn set_guid_property(prop: &mut PropTree, value: &[u8; 16]) -> (r: bool)
    ensures
        match with_guid(tree_model(*old(prop)), value@) {
            Some(m) => r && tree_model(*final(prop)) == m,
            None => !r && *final(prop) == *old(prop),
        },
{
    let is_guid = match &*prop {
        PropTree::Struct { struct_type, value: StructNode::Guid(_), .. } => crate::prop_tree::is_guid_type(struct_type),
        _ => false,
    };
    if !is_guid {
        return false;
    }
    let mut t = PropTree::Opaque(0);
    std::mem::swap(&mut t, prop);
    match t {
        PropTree::Struct { struct_type, header, .. } => {
            *prop = PropTree::Struct { struct_type, header, value: StructNode::Guid(*value) };
        },
        other => {
            *prop = other;
        },
    }
    true
}

/// The index of the first field named `name`.
pub open spec fn field_index(f: Seq<(Seq<char>, Seq<PropModel>)>, name: Seq<char>) -> Option<int>
    decreases f.len(),
{
    if f.len() == 0 {
        None
    } else if f[0].0 == name {
        Some(0)
    } else {
        match field_index(f.subrange(1, f.len() as int), name) {
            Some(j) => Some(j + 1),
            None => None,
        }
    }
}

/// The fields `f` with the first property of the field `name` set to the
/// GUID `g`, when that property is a GUID struct property.
pub open spec fn with_field_guid(f: Seq<(Seq<char>, Seq<PropModel>)>, name: Seq<char>, g: Seq<u8>) -> Option<Seq<(Seq<char>, Seq<PropModel>)>> {
    match field_index(f, name) {
        Some(j) => if 0 <= j < f.len() && f[j].1.len() > 0 {
            match with_guid(f[j].1[0], g) {
                Some(p) => Some(f.update(j, (f[j].0, f[j].1.update(0, p)))),
                None => None,
            }
        } else {
            None
        },
        None => None,
    }
}

pub proof fn lemma_field_index(f: Seq<(Seq<char>, Seq<PropModel>)>, name: Seq<char>)
    ensures
        match field_index(f, name) {
            Some(j) => 0 <= j < f.len() && f[j].0 == name && forall|k: int| 0 <= k < j ==> (#[trigger] f[k]).0 != name,
            None => forall|k: int| 0 <= k < f.len() ==> (#[trigger] f[k]).0 != name,
        },
        match field_index(f, name) {
            Some(j) => field_value(f, name) == (if f[j].1.len() > 0 { Some(f[j].1[0]) } else { None::<PropModel> }),
            None => field_value(f, name) is None,
        },
    decreases f.len(),
{
    if f.len() > 0 {
        let r = f.subrange(1, f.len() as int);
        lemma_field_index(r, name);
        if f[0].0 != name {
            match field_index(r, name) {
                Some(j) => {
                    assert forall|k: int| 0 <= k < j + 1 implies (#[trigger] f[k]).0 != name by {
                        if k > 0 {
                            assert(f[k] == r[k - 1]);
                        }
                    }
                    assert(f[j + 1] == r[j]);
                },
                None => {
                    assert forall|k: int| 0 <= k < f.len() implies (#[trigger] f[k]).0 != name by {
                        if k > 0 {
                            assert(f[k] == r[k - 1]);
                        }
                    }
                },
            }
        }
    }
}

/// Sets the first property of the field `name` to the GUID `g`, when it is a
/// GUID struct property (see `with_field_guid`); otherwise the fields are
/// given back as they were. Also returns whether it was set.
fn set_field_guid(fields: Vec<(String, Vec<PropTree>)>, name: &str, g: &[u8; 16]) -> (r: (Vec<(String, Vec<PropTree>)>, bool))
    ensures
        match with_field_guid(fields_model(fields@), name@, g@) {
            Some(f2) => r.1 && fields_model(r.0@) == f2,
            None => !r.1 && r.0@ == fields@,
        },
{
    let ghost m = fields_model(fields@);
    let ghost orig = fields@;
    let mut fs = fields;
    let mut i: usize = 0;
    while i < fs.len()
        invariant
            m == fields_model(fs@),
            fs@ == orig,
            orig == fields@,
            i <= fs@.len(),
            forall|k: int| 0 <= k < i ==> (#[trigger] m[k]).0 != name@,
        decreases fs@.len() - i,
    {
        if text_is(&fs[i].0, name) {
            proof {
                lemma_field_index(m, name@);
                match field_index(m, name@) {
                    Some(j) => {
                        if j < i {
                            assert(m[j].0 != name@);
                        } else if j > i {
                            assert(m[i as int].0 == name@);
                        }
                    },
                    None => {
                        assert(m[i as int].0 == name@);
                    },
                }
            }
            assert(field_index(m, name@) == Some(i as int));
            assert(m[i as int].1 == trees_model(fs@[i as int].1@));
            assert(m[i as int].1.len() == fs@[i as int].1@.len());
            if fs[i].1.len() == 0 {
                return (fs, false);
            }
            let is_guid = match &fs[i].1[0] {
                PropTree::Struct { struct_type, value: StructNode::Guid(_), .. } => crate::prop_tree::is_guid_type(struct_type),
                _ => false,
            };
            if !is_guid {
                assert(trees_model(fs@[i as int].1@)[0] == tree_model(fs@[i as int].1@[0]));
                assert(with_guid(tree_model(fs@[i as int].1@[0]), g@) is None);
                assert(with_guid(m[i as int].1[0], g@) is None);
                return (fs, false);
            }
            let ghost before = fs@;
            let (fname, mut props) = fs.remove(i);
            let ghost pbefore = props@;
            let first = props.remove(0);
            let replaced = match first {
                PropTree::Struct { struct_type, header, .. } => PropTree::Struct { struct_type, header, value: StructNode::Guid(*g) },
                other => other,
            };
            props.insert(0, replaced);
            assert(props@ =~= pbefore.update(0, replaced));
            assert(trees_model(props@) =~= trees_model(pbefore).update(0, tree_model(replaced)));
            fs.insert(i, (fname, props));
            assert(fs@ =~= before.update(i as int, (fname, props)));
            assert(fields_model(fs@) =~= m.update(i as int, (m[i as int].0, m[i as int].1.update(0, tree_model(replaced)))));
            return (fs, true);
        }
        i = i + 1;
    }
    proof {
        lemma_field_index(m, name@);
    }
    (fs, false)
}

/// A struct property or bare struct value with its custom fields replaced.
pub open spec fn with_fields(m: PropModel, f: Seq<(Seq<char>, Seq<PropModel>)>) -> PropModel {
    match m {
        PropModel::Struct(tn, h, StructModel::Custom(_)) => PropModel::Struct(tn, h, StructModel::Custom(f)),
        PropModel::Value(StructModel::Custom(_)) => PropModel::Value(StructModel::Custom(f)),
        _ => m,
    }
}

/// An optional GUID, as values.
pub open spec fn opt_guid(g: Option<&[u8; 16]>) -> Option<Seq<u8>> {
    match g {
        Some(x) => Some(x@),
        None => None,
    }
}

/// A character-map key with its player uid exchanged: a key whose
/// `InstanceId` is `oi` gets `new` as `PlayerUId`, one whose `InstanceId`
/// is `ni` gets `old`; also whether the uid was set.
pub open spec fn cspm_key(m: PropModel, old: Seq<u8>, new: Seq<u8>, oi: Option<Seq<u8>>, ni: Option<Seq<u8>>) -> (PropModel, bool) {
    match any_struct_fields(m) {
        None => (m, false),
        Some(f) => {
            let inst = match field_value(f, "InstanceId"@) {
                Some(x) => guid_value(x),
                None => None,
            };
            let rep = if inst == oi {
                Some(new)
            } else if inst == ni {
                Some(old)
            } else {
                None::<Seq<u8>>
            };
            match rep {
                None => (m, false),
                Some(g) => match with_field_guid(f, "PlayerUId"@, g) {
                    Some(f2) => (with_fields(m, f2), true),
                    None => (m, false),
                },
            }
        },
    }
}

/// The character-map entries with their keys' player uids exchanged.
pub open spec fn cspm_entries(es: Seq<(PropModel, PropModel)>, old: Seq<u8>, new: Seq<u8>, oi: Option<Seq<u8>>, ni: Option<Seq<u8>>) -> Seq<(PropModel, PropModel)> {
    Seq::new(es.len(), |i: int| (cspm_key(es[i].0, old, new, oi, ni).0, es[i].1))
}

/// How many keys of `es` get their player uid set.
pub open spec fn cspm_count(es: Seq<(PropModel, PropModel)>, old: Seq<u8>, new: Seq<u8>, oi: Option<Seq<u8>>, ni: Option<Seq<u8>>) -> nat
    decreases es.len(),
{
    if es.len() == 0 {
        0
    } else {
        cspm_count(es.drop_last(), old, new, oi, ni) + if cspm_key(es.last().0, old, new, oi, ni).1 {
            1nat
        } else {
            0nat
        }
    }
}

fn same_opt_guid(a: Option<[u8; 16]>, b: Option<&[u8; 16]>) -> (r: bool)
    ensures
        r == ((match a {
            Some(x) => Some(x@),
            None => None::<Seq<u8>>,
        }) == opt_guid(b)),
{
    match (a, b) {
        (Some(x), Some(y)) => crate::guid_bytes::guid_eq(&x, y),
        (None, None) => true,
        _ => false,
    }
}

fn patch_key_fields(
    fields: Vec<(String, Vec<PropTree>)>,
    old: &[u8; 16],
    new: &[u8; 16],
    old_instance: Option<&[u8; 16]>,
    new_instance: Option<&[u8; 16]>,
) -> (r: (Vec<(String, Vec<PropTree>)>, bool))
    ensures
        ({
            let f = fields_model(fields@);
            let inst = match field_value(f, "InstanceId"@) {
                Some(x) => guid_value(x),
                None => None,
            };
            let rep = if inst == opt_guid(old_instance) {
                Some(new@)
            } else if inst == opt_guid(new_instance) {
                Some(old@)
            } else {
                None::<Seq<u8>>
            };
            match rep {
                None => !r.1 && r.0@ == fields@,
                Some(g) => match with_field_guid(f, "PlayerUId"@, g) {
                    Some(f2) => r.1 && fields_model(r.0@) == f2,
                    None => !r.1 && r.0@ == fields@,
                },
            }
        }),
{
    let inst = match field(&fields, "InstanceId") {
        Some(x) => as_guid(x),
        None => None,
    };
    if same_opt_guid(inst, old_instance) {
        set_field_guid(fields, "PlayerUId", new)
    } else if same_opt_guid(inst, new_instance) {
        set_field_guid(fields, "PlayerUId", old)
    } else {
        (fields, false)
    }
}

fn patch_key(
    key: PropTree,
    old: &[u8; 16],
    new: &[u8; 16],
    old_instance: Option<&[u8; 16]>,
    new_instance: Option<&[u8; 16]>,
) -> (r: (PropTree, bool))
    ensures
        ({
            let c = cspm_key(tree_model(key), old@, new@, opt_guid(old_instance), opt_guid(new_instance));
            tree_model(r.0) == c.0 && r.1 == c.1
        }),
{
    match key {
        PropTree::Struct { struct_type, header, value: StructNode::Custom(fields) } => {
            let ghost f = fields_model(fields@);
            let (fields2, set) = patch_key_fields(fields, old, new, old_instance, new_instance);
            (PropTree::Struct { struct_type, header, value: StructNode::Custom(fields2) }, set)
        },
        PropTree::Value(StructNode::Custom(fields)) => {
            let (fields2, set) = patch_key_fields(fields, old, new, old_instance, new_instance);
            (PropTree::Value(StructNode::Custom(fields2)), set)
        },
        other => (other, false),
    }
}

/// Exchanges the player uids in the keys of the character map: see
/// `cspm_key`. The map is rebuilt in order, as an insertion-ordered map is
/// (an entry whose new key is already present gives that entry its value).
/// Returns how many keys had their uid set.
pub fn patch_cspm_player_keys(
    entries: &mut Vec<(PropTree, PropTree)>,
    old_id: &[u8; 16],
    new_id: &[u8; 16],
    old_instance: Option<&[u8; 16]>,
    new_instance: Option<&[u8; 16]>,
) -> (n: usize)
    ensures
        entries_model(final(entries)@) == insert_all(
            Seq::empty(),
            cspm_entries(entries_model(old(entries)@), old_id@, new_id@, opt_guid(old_instance), opt_guid(new_instance)),
        ),
        n == crate::prop_tree::capped(cspm_count(entries_model(old(entries)@), old_id@, new_id@, opt_guid(old_instance), opt_guid(new_instance))),
{
    let ghost m = entries_model(entries@);
    let ghost oi = opt_guid(old_instance);
    let ghost ni = opt_guid(new_instance);
    let ghost c = cspm_entries(m, old_id@, new_id@, oi, ni);
    let mut original: Vec<(PropTree, PropTree)> = Vec::new();
    std::mem::swap(&mut original, entries);
    let ghost orig = original@;
    let len = original.len();
    let mut changed: usize = 0;
    let mut i: usize = 0;
    assert(c.take(0) =~= Seq::<(PropModel, PropModel)>::empty());
    assert(entries_model(entries@) =~= Seq::<(PropModel, PropModel)>::empty());
    while i < len
        invariant
            len == orig.len(),
            m == entries_model(orig),
            c == cspm_entries(m, old_id@, new_id@, oi, ni),
            oi == opt_guid(old_instance),
            ni == opt_guid(new_instance),
            i <= len,
            original@ == orig.subrange(i as int, len as int),
            entries_model(entries@) == insert_all(Seq::empty(), c.take(i as int)),
            changed == crate::prop_tree::capped(cspm_count(m.take(i as int), old_id@, new_id@, oi, ni)),
        decreases len - i,
    {
        let (key, value) = original.remove(0);
        assert((key, value) == orig[i as int]);
        assert(m[i as int] == (tree_model(key), tree_model(value)));
        let (key2, set) = patch_key(key, old_id, new_id, old_instance, new_instance);
        let ghost x = (tree_model(key2), tree_model(value));
        assert(x == c[i as int]);
        let ghost e1 = entries_model(entries@);
        proof {
            crate::prop_tree::lemma_key_index(e1, tree_model(key2));
        }
        let _current_len = entries.len();
        match crate::prop_tree::find_key(&*entries, &key2) {
            Some(j) => {
                assert(crate::prop_tree::key_index(e1, x.0) == Some(j as int));
                let (kj, _previous) = entries.remove(j);
                entries.insert(j, (kj, value));
                assert(entries_model(entries@) =~= e1.update(j as int, (e1[j as int].0, x.1)));
                assert(entries_model(entries@) == crate::prop_tree::map_insert(e1, x));
            },
            None => {
                entries.push((key2, value));
                assert(entries_model(entries@) =~= e1.push(x));
                assert(crate::prop_tree::key_index(e1, x.0) is None);
                assert(entries_model(entries@) == crate::prop_tree::map_insert(e1, x));
            },
        }
        assert(entries_model(entries@) == crate::prop_tree::map_insert(e1, x));
        assert(c.take(i + 1).drop_last() =~= c.take(i as int));
        assert(c.take(i + 1).last() == x);
        assert(insert_all(Seq::empty(), c.take(i + 1)) == crate::prop_tree::map_insert(insert_all(Seq::empty(), c.take(i as int)), x));
        assert(m.take(i + 1).drop_last() =~= m.take(i as int));
        assert(m.take(i + 1).last() == m[i as int]);
        proof {
            crate::prop_tree::lemma_capped_add(cspm_count(m.take(i as int), old_id@, new_id@, oi, ni), if set { 1nat } else { 0nat });
        }
        changed = changed.saturating_add(if set { 1 } else { 0 });
        i = i + 1;
    }
    assert(c.take(len as int) =~= c);
    assert(m.take(len as int) =~= m);
    changed
}

/// The fields `f` with the GUID at the field path `path` set to `g`: each
/// name but the last leads into the struct property that is the first value
/// of that field; the last names a GUID struct property. `None` when the path
/// does not lead to one.
pub open spec fn with_path_guid(f: Seq<(Seq<char>, Seq<PropModel>)>, path: Seq<Seq<char>>, g: Seq<u8>) -> Option<Seq<(Seq<char>, Seq<PropModel>)>>
    decreases path.len(),
{
    if path.len() == 0 {
        None
    } else if path.len() == 1 {
        with_field_guid(f, path[0], g)
    } else {
        match field_index(f, path[0]) {
            Some(j) => if 0 <= j < f.len() && f[j].1.len() > 0 {
                match f[j].1[0] {
                    PropModel::Struct(tn, h, StructModel::Custom(sub)) => match with_path_guid(sub, path.skip(1), g) {
                        Some(sub2) => Some(f.update(j, (f[j].0, f[j].1.update(0, PropModel::Struct(tn, h, StructModel::Custom(sub2)))))),
                        None => None,
                    },
                    _ => None,
                }
            } else {
                None
            },
            None => None,
        }
    }
}

/// The names of `path`, as values.
pub open spec fn path_view(path: Seq<&str>) -> Seq<Seq<char>> {
    path.map_values(|s: &str| s@)
}

/// Sets the GUID at the field path `path[k..]` (see `with_path_guid`); when
/// the path leads to none, the fields keep their value. Also returns whether
/// it was set.
fn set_path_guid(fields: Vec<(String, Vec<PropTree>)>, path: &[&str], k: usize, g: &[u8; 16]) -> (r: (Vec<(String, Vec<PropTree>)>, bool))
    requires
        k < path@.len(),
    ensures
        match with_path_guid(fields_model(fields@), path_view(path@).skip(k as int), g@) {
            Some(f2) => r.1 && fields_model(r.0@) == f2,
            None => !r.1 && fields_model(r.0@) == fields_model(fields@),
        },
    decreases path@.len() - k,
{
    let ghost pv = path_view(path@).skip(k as int);
    assert(pv[0] == path@[k as int]@);
    let path_len = path.len();
    if k + 1 == path_len {
        assert(pv.len() == 1);
        return set_field_guid(fields, path[k], g);
    }
    assert(pv.skip(1) =~= path_view(path@).skip(k + 1));
    let name = path[k];
    assert(pv[0] == name@);
    let ghost m = fields_model(fields@);
    let ghost orig = fields@;
    let mut fs = fields;
    let mut i: usize = 0;
    while i < fs.len()
        invariant
            m == fields_model(fs@),
            fs@ == orig,
            orig == fields@,
            i <= fs@.len(),
            pv == path_view(path@).skip(k as int),
            pv.len() > 1,
            pv[0] == name@,
            pv.skip(1) == path_view(path@).skip(k + 1),
            k + 1 < path@.len(),
            path@.len() == path_len,
            forall|q: int| 0 <= q < i ==> (#[trigger] m[q]).0 != name@,
        decreases fs@.len() - i,
    {
        if text_is(&fs[i].0, name) {
            proof {
                lemma_field_index(m, name@);
                match field_index(m, name@) {
                    Some(j) => {
                        if j < i {
                            assert(m[j].0 != name@);
                        } else if j > i {
                            assert(m[i as int].0 == name@);
                        }
                    },
                    None => {
                        assert(m[i as int].0 == name@);
                    },
                }
            }
            assert(field_index(m, name@) == Some(i as int));
            assert(m[i as int].1 == trees_model(fs@[i as int].1@));
            if fs[i].1.len() == 0 {
                return (fs, false);
            }
            assert(m[i as int].1[0] == tree_model(fs@[i as int].1@[0]));
            let is_custom = match &fs[i].1[0] {
                PropTree::Struct { value: StructNode::Custom(_), .. } => true,
                _ => false,
            };
            if !is_custom {
                return (fs, false);
            }
            let ghost before = fs@;
            let (fname, mut props) = fs.remove(i);
            let ghost pbefore = props@;
            let first = props.remove(0);
            match first {
                PropTree::Struct { struct_type, header, value: StructNode::Custom(sub) } => {
                    let ghost sub_m = fields_model(sub@);
                    let (sub2, ok) = set_path_guid(sub, path, k + 1, g);
                    let rebuilt = PropTree::Struct { struct_type, header, value: StructNode::Custom(sub2) };
                    props.insert(0, rebuilt);
                    assert(props@ =~= pbefore.update(0, rebuilt));
                    assert(trees_model(props@) =~= trees_model(pbefore).update(0, tree_model(rebuilt)));
                    fs.insert(i, (fname, props));
                    assert(fs@ =~= before.update(i as int, (fname, props)));
                    assert(fields_model(fs@) =~= m.update(i as int, (m[i as int].0, m[i as int].1.update(0, tree_model(rebuilt)))));
                    if !ok {
                        assert(tree_model(rebuilt) == m[i as int].1[0]);
                        assert(m[i as int].1.update(0, m[i as int].1[0]) =~= m[i as int].1);
                        assert(m.update(i as int, (m[i as int].0, m[i as int].1)) =~= m);
                    }
                    return (fs, ok);
                },
                other => {
                    props.insert(0, other);
                    fs.insert(i, (fname, props));
                    return (fs, false);
                },
            }
        }
        i = i + 1;
    }
    proof {
        lemma_field_index(m, name@);
    }
    (fs, false)
}

/// One entry of a player's pal storage with its owner set to `uid` and, when
/// given, its slot's container set to `c`; also how many of the two were set.
pub open spec fn dps_item(s: StructModel, uid: Seq<u8>, c: Option<Seq<u8>>) -> (StructModel, nat) {
    match s {
        StructModel::Custom(f) => {
            let owner_path = seq!["SaveParameter"@, "OwnerPlayerUId"@];
            let slot_path = seq!["SaveParameter"@, "SlotId"@, "ContainerId"@, "ID"@];
            let (f1, c1) = match with_path_guid(f, owner_path, uid) {
                Some(x) => (x, 1nat),
                None => (f, 0nat),
            };
            let (f2, c2) = match c {
                Some(cg) => match with_path_guid(f1, slot_path, cg) {
                    Some(x) => (x, 1nat),
                    None => (f1, 0nat),
                },
                None => (f1, 0nat),
            };
            (StructModel::Custom(f2), c1 + c2)
        },
        _ => (s, 0),
    }
}

/// How many fields `dps_item` sets over the entries `s`.
pub open spec fn dps_count(s: Seq<StructModel>, uid: Seq<u8>, c: Option<Seq<u8>>) -> nat
    decreases s.len(),
{
    if s.len() == 0 {
        0
    } else {
        dps_count(s.drop_last(), uid, c) + dps_item(s.last(), uid, c).1
    }
}

/// The index of the first top-level property named `name`.
pub open spec fn top_index(ps: Seq<(Seq<char>, PropModel)>, name: Seq<char>) -> Option<int>
    decreases ps.len(),
{
    if ps.len() == 0 {
        None
    } else if ps[0].0 == name {
        Some(0)
    } else {
        match top_index(ps.subrange(1, ps.len() as int), name) {
            Some(j) => Some(j + 1),
            None => None,
        }
    }
}

proof fn lemma_top_index(ps: Seq<(Seq<char>, PropModel)>, name: Seq<char>)
    ensures
        match top_index(ps, name) {
            Some(j) => 0 <= j < ps.len() && ps[j].0 == name && forall|k: int| 0 <= k < j ==> (#[trigger] ps[k]).0 != name,
            None => forall|k: int| 0 <= k < ps.len() ==> (#[trigger] ps[k]).0 != name,
        },
    decreases ps.len(),
{
    if ps.len() > 0 {
        let r = ps.subrange(1, ps.len() as int);
        lemma_top_index(r, name);
        if ps[0].0 != name {
            match top_index(r, name) {
                Some(j) => {
                    assert forall|k: int| 0 <= k < j + 1 implies (#[trigger] ps[k]).0 != name by {
                        if k > 0 {
                            assert(ps[k] == r[k - 1]);
                        }
                    }
                    assert(ps[j + 1] == r[j]);
                },
                None => {
                    assert forall|k: int| 0 <= k < ps.len() implies (#[trigger] ps[k]).0 != name by {
                        if k > 0 {
                            assert(ps[k] == r[k - 1]);
                        }
                    }
                },
            }
        }
    }
}

/// The save `ps` of a player's pal storage with every entry's owner set to
/// `uid` and, when given, every slot's container set to `c` (see
/// `dps_item`); unchanged when its first `SaveParameterArray` is not an
/// array of structs.
pub open spec fn dps_patched(ps: Seq<(Seq<char>, PropModel)>, uid: Seq<u8>, c: Option<Seq<u8>>) -> (Seq<(Seq<char>, PropModel)>, nat) {
    match top_index(ps, "SaveParameterArray"@) {
        Some(j) => match ps[j].1 {
            PropModel::StructArray(h, items) => (
                ps.update(j, (ps[j].0, PropModel::StructArray(h, Seq::new(items.len(), |i: int| dps_item(items[i], uid, c).0)))),
                dps_count(items, uid, c),
            ),
            _ => (ps, 0),
        },
        None => (ps, 0),
    }
}

fn patch_dps_item(item: StructNode, target_uid: &[u8; 16], target_container: Option<&[u8; 16]>) -> (r: (StructNode, usize))
    ensures
        ({
            let d = dps_item(struct_model(item), target_uid@, opt_guid(target_container));
            struct_model(r.0) == d.0 && r.1 == d.1
        }),
{
    match item {
        StructNode::Custom(fields) => {
            let owner_path: [&str; 2] = ["SaveParameter", "OwnerPlayerUId"];
            let slot_path: [&str; 4] = ["SaveParameter", "SlotId", "ContainerId", "ID"];
            assert(path_view(owner_path@).skip(0) =~= seq!["SaveParameter"@, "OwnerPlayerUId"@]);
            assert(path_view(slot_path@).skip(0) =~= seq!["SaveParameter"@, "SlotId"@, "ContainerId"@, "ID"@]);
            let (f1, set_owner) = set_path_guid(fields, owner_path.as_slice(), 0, target_uid);
            let (f2, set_slot) = match target_container {
                Some(c) => set_path_guid(f1, slot_path.as_slice(), 0, c),
                None => (f1, false),
            };
            let n: usize = (if set_owner { 1 } else { 0 }) + (if set_slot { 1 } else { 0 });
            (StructNode::Custom(f2), n)
        },
        other => (other, 0),
    }
}

/// Sets, in a player's pal storage, every entry's owner to `target_uid` and,
/// when given, every slot's container to `target_container` (see
/// `dps_patched`); returns how many fields were set.
pub fn patch_dps(props: &mut Vec<(String, PropTree)>, target_uid: &[u8; 16], target_container: Option<&[u8; 16]>) -> (n: usize)
    ensures
        ({
            let d = dps_patched(props_model(old(props)@), target_uid@, opt_guid(target_container));
            props_model(final(props)@) == d.0 && n == crate::prop_tree::capped(d.1)
        }),
{
    let ghost m = props_model(props@);
    proof {
        lemma_top_index(m, "SaveParameterArray"@);
    }
    let mut j: usize = 0;
    while j < props.len()
        invariant
            m == props_model(props@),
            j <= props@.len(),
            forall|k: int| 0 <= k < j ==> (#[trigger] m[k]).0 != "SaveParameterArray"@,
        ensures
            m == props_model(props@),
            j <= props@.len(),
            forall|k: int| 0 <= k < j ==> (#[trigger] m[k]).0 != "SaveParameterArray"@,
            j < props@.len() ==> m[j as int].0 == "SaveParameterArray"@,
        decreases props@.len() - j,
    {
        if text_is(&props[j].0, "SaveParameterArray") {
            assert(m[j as int].0 == props@[j as int].0@);
            break;
        }
        j = j + 1;
    }
    proof {
        lemma_top_index(m, "SaveParameterArray"@);
    }
    if j == props.len() {
        return 0;
    }
    assert(top_index(m, "SaveParameterArray"@) == Some(j as int));
    let is_array = match &props[j].1 {
        PropTree::StructArray { .. } => true,
        _ => false,
    };
    if !is_array {
        return 0;
    }
    let ghost before = props@;
    let (name, tree) = props.remove(j);
    match tree {
        PropTree::StructArray { header, items } => {
            let ghost im = crate::prop_tree::structs_model(items@);
            let ghost uid = target_uid@;
            let ghost c = opt_guid(target_container);
            let ghost orig = items@;
            let len = items.len();
            let mut rest = items;
            let mut out: Vec<StructNode> = Vec::new();
            let mut total: usize = 0;
            let mut i: usize = 0;
            while i < len
                invariant
                    len == orig.len(),
                    im == crate::prop_tree::structs_model(orig),
                    uid == target_uid@,
                    c == opt_guid(target_container),
                    i <= len,
                    rest@ == orig.subrange(i as int, len as int),
                    out@.len() == i,
                    forall|q: int| 0 <= q < i ==> struct_model(#[trigger] out@[q]) == dps_item(im[q], uid, c).0,
                    total == crate::prop_tree::capped(dps_count(im.take(i as int), uid, c)),
                decreases len - i,
            {
                let x = rest.remove(0);
                assert(x == orig[i as int]);
                assert(im[i as int] == struct_model(x));
                let (y, k) = patch_dps_item(x, target_uid, target_container);
                out.push(y);
                assert(im.take(i + 1).drop_last() =~= im.take(i as int));
                assert(im.take(i + 1).last() == im[i as int]);
                proof {
                    crate::prop_tree::lemma_capped_add(dps_count(im.take(i as int), uid, c), dps_item(im[i as int], uid, c).1);
                    crate::prop_tree::lemma_capped_add(0, dps_item(im[i as int], uid, c).1);
                }
                total = total.saturating_add(k);
                i = i + 1;
            }
            assert(im.take(len as int) =~= im);
            let rebuilt = PropTree::StructArray { header, items: out };
            assert(crate::prop_tree::structs_model(out@) =~= Seq::new(im.len(), |q: int| dps_item(im[q], uid, c).0));
            props.insert(j, (name, rebuilt));
            assert(props@ =~= before.update(j as int, (name, rebuilt)));
            assert(props_model(props@) =~= m.update(j as int, (m[j as int].0, tree_model(rebuilt))));
            total
        },
        other => {
            props.insert(j, (name, other));
            0
        },
    }
}

} // verus!
