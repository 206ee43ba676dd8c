//! Save-file property trees, as far as the GUID logic reads them, and the
//! typed-GUID edits on them.
//!
//! A tree holds what the edits look at: struct properties with their type
//! name and value, GUID values, custom structs with their named fields,
//! arrays, maps and sets of properties. Everything else is an opaque handle
//! that the caller resolves; equal handles stand for equal values.

use vstd::prelude::*;

verus! {

/// The value of a struct property.
#[derive(Debug, PartialEq, Eq)]
pub enum StructNode {
    /// A GUID value.
    Guid([u8; 16]),
    /// A custom struct: named fields, each with its properties, in order.
    Custom(Vec<(String, Vec<PropTree>)>),
    /// Any other struct value.
    Opaque(u64),
}

/// A property.
#[derive(Debug, PartialEq, Eq)]
pub enum PropTree {
    /// A struct property: type name, a handle for its header, and its value.
    Struct { struct_type: String, header: u64, value: StructNode },
    /// A bare struct value.
    Value(StructNode),
    /// An array of struct values.
    StructArray { header: u64, items: Vec<StructNode> },
    /// An array of properties.
    PropArray { header: u64, items: Vec<PropTree> },
    /// A map of properties, entries in order.
    MapProp { header: u64, entries: Vec<(PropTree, PropTree)> },
    /// A set of properties.
    SetProp { header: u64, items: Vec<PropTree> },
    /// An array of bytes.
    Bytes(Vec<u8>),
    /// An enum property: a handle for its header, and its value.
    Enum { header: u64, value: String },
    /// An array of names or strings, each of which may be absent.
    Names { header: u64, names: Vec<Option<String>> },
    /// An integer property.
    Int(i32),
    /// A string property, which may be absent.
    Str(Option<String>),
    /// Any other property.
    Opaque(u64),
}

/// The type name of GUID structs.
pub open spec fn guid_struct_type() -> Seq<char> {
    seq!['G', 'u', 'i', 'd']
}

/// `x`, or the largest `usize` when it does not fit.
pub open spec fn capped(x: nat) -> usize {
    if x > usize::MAX {
        usize::MAX
    } else {
        x as usize
    }
}

/// Adding capped counts with a saturating add caps the sum.
pub proof fn lemma_capped_add(a: nat, b: nat)
    ensures
        (if capped(a) + capped(b) > usize::MAX { usize::MAX } else { (capped(a) + capped(b)) as usize }) == capped(a + b),
{
}

/// Whether `name` is the GUID struct type name.
pub fn is_guid_type(name: &String) -> (r: bool)
    ensures
        r == (name@ == guid_struct_type()),
{
    let v = crate::text::chars_of(name.as_str());
    let r = v.len() == 4 && v[0] == 'G' && v[1] == 'u' && v[2] == 'i' && v[3] == 'd';
    proof {
        if r {
            assert(v@ =~= guid_struct_type());
        }
    }
    r
}

/// Counts the typed GUIDs equal to `target` in a property: the values of
/// GUID structs, of GUID struct values, and those inside custom structs,
/// struct arrays, property arrays, map keys and values, and sets.
pub fn count_guid_in_property(p: &PropTree, target: &[u8; 16]) -> (n: usize)
    ensures
        n == capped(count_pm(tree_model(*p), target@)),
    decreases p,
{
    match p {
        PropTree::Struct { struct_type, value, .. } => {
            if is_guid_type(struct_type) {
                match value {
                    StructNode::Guid(x) => {
                        if crate::guid_bytes::guid_eq(x, target) {
                            1
                        } else {
                            0
                        }
                    },
                    _ => 0,
                }
            } else {
                match value {
                    StructNode::Custom(fields) => count_guid_in_fields(fields, target),
                    _ => 0,
                }
            }
        },
        PropTree::Value(v) => count_guid_in_struct(v, target),
        PropTree::StructArray { items, .. } => count_guid_in_structs(items, target),
        PropTree::PropArray { items, .. } => count_guid_in_trees(items, target),
        PropTree::MapProp { entries, .. } => count_guid_in_entries(entries, target),
        PropTree::SetProp { items, .. } => count_guid_in_trees(items, target),
        PropTree::Bytes(_) => 0,
        PropTree::Enum { .. } => 0,
        PropTree::Names { .. } => 0,
        PropTree::Int(_) => 0,
        PropTree::Str(_) => 0,
        PropTree::Opaque(_) => 0,
    }
}

/// Counts the typed GUIDs equal to `target` in a struct value.
pub fn count_guid_in_struct(v: &StructNode, target: &[u8; 16]) -> (n: usize)
    ensures
        n == capped(count_sm(struct_model(*v), target@)),
    decreases v,
{
    match v {
        StructNode::Guid(x) => {
            if crate::guid_bytes::guid_eq(x, target) {
                1
            } else {
                0
            }
        },
        StructNode::Custom(fields) => count_guid_in_fields(fields, target),
        StructNode::Opaque(_) => 0,
    }
}

/// Counts the typed GUIDs equal to `target` in the properties `items`.
pub fn count_guid_in_trees(items: &Vec<PropTree>, target: &[u8; 16]) -> (n: usize)
    ensures
        n == capped(count_pms(trees_model(items@), target@)),
    decreases items,
{
    let len = items.len();
    let mut n: usize = 0;
    let ghost mut done: nat = 0;
    let mut i: usize = 0;
    assert(trees_model(items@).subrange(0, len as int) =~= trees_model(items@));
    while i < len
        invariant
            len == items@.len(),
            i <= len,
            n == capped(done),
            done + count_pms(trees_model(items@).subrange(i as int, len as int), target@) == count_pms(trees_model(items@), target@),
        decreases len - i,
    {
        let ghost rest = trees_model(items@).subrange(i as int, len as int);
        assert(rest.subrange(1, rest.len() as int) =~= trees_model(items@).subrange(i + 1, len as int));
        let c = count_guid_in_property(&items[i], target);
        proof {
            lemma_capped_add(done, count_pm(rest[0], target@));
            done = done + count_pm(rest[0], target@);
        }
        n = n.saturating_add(c);
        i = i + 1;
    }
    n
}

/// Counts the typed GUIDs equal to `target` in the struct values `items`.
pub fn count_guid_in_structs(items: &Vec<StructNode>, target: &[u8; 16]) -> (n: usize)
    ensures
        n == capped(count_sms(structs_model(items@), target@)),
    decreases items,
{
    let len = items.len();
    let mut n: usize = 0;
    let ghost mut done: nat = 0;
    let mut i: usize = 0;
    assert(structs_model(items@).subrange(0, len as int) =~= structs_model(items@));
    while i < len
        invariant
            len == items@.len(),
            i <= len,
            n == capped(done),
            done + count_sms(structs_model(items@).subrange(i as int, len as int), target@) == count_sms(structs_model(items@), target@),
        decreases len - i,
    {
        let ghost rest = structs_model(items@).subrange(i as int, len as int);
        assert(rest.subrange(1, rest.len() as int) =~= structs_model(items@).subrange(i + 1, len as int));
        let c = count_guid_in_struct(&items[i], target);
        proof {
            lemma_capped_add(done, count_sm(rest[0], target@));
            done = done + count_sm(rest[0], target@);
        }
        n = n.saturating_add(c);
        i = i + 1;
    }
    n
}

/// Counts the typed GUIDs equal to `target` in the fields `fields`.
pub fn count_guid_in_fields(fields: &Vec<(String, Vec<PropTree>)>, target: &[u8; 16]) -> (n: usize)
    ensures
        n == capped(count_fm(fields_model(fields@), target@)),
    decreases fields,
{
    let len = fields.len();
    let mut n: usize = 0;
    let ghost mut done: nat = 0;
    let mut i: usize = 0;
    assert(fields_model(fields@).subrange(0, len as int) =~= fields_model(fields@));
    while i < len
        invariant
            len == fields@.len(),
            i <= len,
            n == capped(done),
            done + count_fm(fields_model(fields@).subrange(i as int, len as int), target@) == count_fm(fields_model(fields@), target@),
        decreases len - i,
    {
        let ghost rest = fields_model(fields@).subrange(i as int, len as int);
        assert(rest.subrange(1, rest.len() as int) =~= fields_model(fields@).subrange(i + 1, len as int));
        let c = count_guid_in_trees(&fields[i].1, target);
        proof {
            lemma_capped_add(done, count_pms(rest[0].1, target@));
            done = done + count_pms(rest[0].1, target@);
        }
        n = n.saturating_add(c);
        i = i + 1;
    }
    n
}

/// Counts the typed GUIDs equal to `target` in the keys and values of `entries`.
pub fn count_guid_in_entries(entries: &Vec<(PropTree, PropTree)>, target: &[u8; 16]) -> (n: usize)
    ensures
        n == capped(count_ems(entries_model(entries@), target@)),
    decreases entries,
{
    let len = entries.len();
    let mut n: usize = 0;
    let ghost mut done: nat = 0;
    let mut i: usize = 0;
    assert(entries_model(entries@).subrange(0, len as int) =~= entries_model(entries@));
    while i < len
        invariant
            len == entries@.len(),
            i <= len,
            n == capped(done),
            done + count_ems(entries_model(entries@).subrange(i as int, len as int), target@) == count_ems(entries_model(entries@), target@),
        decreases len - i,
    {
        let ghost rest = entries_model(entries@).subrange(i as int, len as int);
        assert(rest.subrange(1, rest.len() as int) =~= entries_model(entries@).subrange(i + 1, len as int));
        let a = count_guid_in_property(&entries[i].0, target);
        let b = count_guid_in_property(&entries[i].1, target);
        proof {
            lemma_capped_add(count_pm(rest[0].0, target@), count_pm(rest[0].1, target@));
        }
        let c = a.saturating_add(b);
        proof {
            lemma_capped_add(done, count_pm(rest[0].0, target@) + count_pm(rest[0].1, target@));
            done = done + count_pm(rest[0].0, target@) + count_pm(rest[0].1, target@);
        }
        n = n.saturating_add(c);
        i = i + 1;
    }
    n
}

/// A struct value, as values.
pub enum StructModel {
    Guid(Seq<u8>),
    Custom(Seq<(Seq<char>, Seq<PropModel>)>),
    Opaque(u64),
}

/// A property, as values.
pub enum PropModel {
    Struct(Seq<char>, u64, StructModel),
    Value(StructModel),
    StructArray(u64, Seq<StructModel>),
    PropArray(u64, Seq<PropModel>),
    MapProp(u64, Seq<(PropModel, PropModel)>),
    SetProp(u64, Seq<PropModel>),
    Bytes(Seq<u8>),
    Enum(u64, Seq<char>),
    Names(u64, Seq<Option<Seq<char>>>),
    Int(i32),
    Str(Option<Seq<char>>),
    Opaque(u64),
}

/// The values of a list of names.
pub open spec fn names_model(s: Seq<Option<String>>) -> Seq<Option<Seq<char>>> {
    Seq::new(s.len(), |i: int| match s[i] {
        Some(n) => Some(n@),
        None => None,
    })
}

/// The text of an optional string.
pub open spec fn opt_text(s: Option<String>) -> Option<Seq<char>> {
    match s {
        Some(n) => Some(n@),
        None => None,
    }
}

/// The value of a property tree.
pub open spec fn tree_model(t: PropTree) -> PropModel
    decreases t,
{
    match t {
        PropTree::Struct { struct_type, header, value } => PropModel::Struct(struct_type@, header, struct_model(value)),
        PropTree::Value(v) => PropModel::Value(struct_model(v)),
        PropTree::StructArray { header, items } => PropModel::StructArray(header, structs_model(items@)),
        PropTree::PropArray { header, items } => PropModel::PropArray(header, trees_model(items@)),
        PropTree::MapProp { header, entries } => PropModel::MapProp(header, entries_model(entries@)),
        PropTree::SetProp { header, items } => PropModel::SetProp(header, trees_model(items@)),
        PropTree::Bytes(b) => PropModel::Bytes(b@),
        PropTree::Enum { header, value } => PropModel::Enum(header, value@),
        PropTree::Names { header, names } => PropModel::Names(header, names_model(names@)),
        PropTree::Int(v) => PropModel::Int(v),
        PropTree::Str(v) => PropModel::Str(opt_text(v)),
        PropTree::Opaque(x) => PropModel::Opaque(x),
    }
}

/// The value of a struct value.
pub open spec fn struct_model(v: StructNode) -> StructModel
    decreases v,
{
    match v {
        StructNode::Guid(x) => StructModel::Guid(x@),
        StructNode::Custom(fields) => StructModel::Custom(fields_model(fields@)),
        StructNode::Opaque(x) => StructModel::Opaque(x),
    }
}

/// The values of the properties `s`.
pub open spec fn trees_model(s: Seq<PropTree>) -> Seq<PropModel>
    decreases s,
{
    Seq::new(s.len(), |i: int| if 0 <= i < s.len() { tree_model(s[i]) } else { PropModel::Opaque(0) })
}

/// The values of the struct values `s`.
pub open spec fn structs_model(s: Seq<StructNode>) -> Seq<StructModel>
    decreases s,
{
    Seq::new(s.len(), |i: int| if 0 <= i < s.len() { struct_model(s[i]) } else { StructModel::Opaque(0) })
}

/// The values of the fields `f`.
pub open spec fn fields_model(f: Seq<(String, Vec<PropTree>)>) -> Seq<(Seq<char>, Seq<PropModel>)>
    decreases f,
{
    Seq::new(f.len(), |i: int| if 0 <= i < f.len() { (f[i].0@, trees_model(f[i].1@)) } else { (Seq::empty(), Seq::empty()) })
}

/// The values of the map entries `es`.
pub open spec fn entries_model(es: Seq<(PropTree, PropTree)>) -> Seq<(PropModel, PropModel)>
    decreases es,
{
    Seq::new(es.len(), |i: int| if 0 <= i < es.len() { (tree_model(es[i].0), tree_model(es[i].1)) } else { (PropModel::Opaque(0), PropModel::Opaque(0)) })
}

/// The typed GUIDs equal to `g` in the property `m`.
pub open spec fn count_pm(m: PropModel, g: Seq<u8>) -> nat
    decreases m,
{
    match m {
        PropModel::Struct(tn, h, v) => if tn == guid_struct_type() {
            match v {
                StructModel::Guid(x) => if x == g {
                    1
                } else {
                    0
                },
                _ => 0,
            }
        } else {
            match v {
                StructModel::Custom(f) => count_fm(f, g),
                _ => 0,
            }
        },
        PropModel::Value(v) => count_sm(v, g),
        PropModel::StructArray(h, s) => count_sms(s, g),
        PropModel::PropArray(h, s) => count_pms(s, g),
        PropModel::MapProp(h, es) => count_ems(es, g),
        PropModel::SetProp(h, s) => count_pms(s, g),
        PropModel::Bytes(_) => 0,
        PropModel::Enum(_, _) => 0,
        PropModel::Names(..) => 0,
        PropModel::Int(_) => 0,
        PropModel::Str(_) => 0,
        PropModel::Opaque(_) => 0,
    }
}

/// The typed GUIDs equal to `g` in the struct value `v`.
pub open spec fn count_sm(v: StructModel, g: Seq<u8>) -> nat
    decreases v,
{
    match v {
        StructModel::Guid(x) => if x == g {
            1
        } else {
            0
        },
        StructModel::Custom(f) => count_fm(f, g),
        StructModel::Opaque(_) => 0,
    }
}

/// The typed GUIDs equal to `g` in the properties `s`.
pub open spec fn count_pms(s: Seq<PropModel>, g: Seq<u8>) -> nat
    decreases s,
{
    if s.len() == 0 {
        0
    } else {
        count_pm(s[0], g) + count_pms(s.subrange(1, s.len() as int), g)
    }
}

/// The typed GUIDs equal to `g` in the struct values `s`.
pub open spec fn count_sms(s: Seq<StructModel>, g: Seq<u8>) -> nat
    decreases s,
{
    if s.len() == 0 {
        0
    } else {
        count_sm(s[0], g) + count_sms(s.subrange(1, s.len() as int), g)
    }
}

/// The typed GUIDs equal to `g` in the fields `f`.
pub open spec fn count_fm(f: Seq<(Seq<char>, Seq<PropModel>)>, g: Seq<u8>) -> nat
    decreases f,
{
    if f.len() == 0 {
        0
    } else {
        count_pms(f[0].1, g) + count_fm(f.subrange(1, f.len() as int), g)
    }
}

/// The typed GUIDs equal to `g` in the keys and values of `es`.
pub open spec fn count_ems(es: Seq<(PropModel, PropModel)>, g: Seq<u8>) -> nat
    decreases es,
{
    if es.len() == 0 {
        0
    } else {
        count_pm(es[0].0, g) + count_pm(es[0].1, g) + count_ems(es.subrange(1, es.len() as int), g)
    }
}

/// `x`, or `n` in its place when it is `o`.
pub open spec fn sub_guid(x: Seq<u8>, o: Seq<u8>, n: Seq<u8>) -> Seq<u8> {
    if x == o {
        n
    } else {
        x
    }
}

/// The index of the first entry of `es` whose key is `k`.
pub open spec fn key_index(es: Seq<(PropModel, PropModel)>, k: PropModel) -> Option<int>
    decreases es.len(),
{
    if es.len() == 0 {
        None
    } else if es[0].0 == k {
        Some(0)
    } else {
        match key_index(es.subrange(1, es.len() as int), k) {
            Some(j) => Some(j + 1),
            None => None,
        }
    }
}

/// `es` after inserting the entry `e` the way an insertion-ordered map
/// does: the value of an entry with an equal key is replaced in place (the
/// key stays), otherwise the entry goes at the end.
pub open spec fn map_insert(es: Seq<(PropModel, PropModel)>, e: (PropModel, PropModel)) -> Seq<(PropModel, PropModel)> {
    match key_index(es, e.0) {
        Some(j) => es.update(j, (es[j].0, e.1)),
        None => es.push(e),
    }
}

/// `acc` after inserting the entries `bs` in order.
pub open spec fn insert_all(acc: Seq<(PropModel, PropModel)>, bs: Seq<(PropModel, PropModel)>) -> Seq<(PropModel, PropModel)>
    decreases bs.len(),
{
    if bs.len() == 0 {
        acc
    } else {
        map_insert(insert_all(acc, bs.drop_last()), bs.last())
    }
}

/// The property `m` with every typed GUID `o` replaced by `n`.
pub open spec fn rep_pm(m: PropModel, o: Seq<u8>, n: Seq<u8>) -> PropModel
    decreases m,
{
    match m {
        PropModel::Struct(tn, h, v) => PropModel::Struct(
            tn,
            h,
            if tn == guid_struct_type() {
                match v {
                    StructModel::Guid(x) => StructModel::Guid(sub_guid(x, o, n)),
                    _ => v,
                }
            } else {
                match v {
                    StructModel::Custom(f) => StructModel::Custom(rep_fms(f, o, n)),
                    _ => v,
                }
            },
        ),
        PropModel::Value(v) => PropModel::Value(rep_sm(v, o, n)),
        PropModel::StructArray(h, s) => PropModel::StructArray(h, rep_sms(s, o, n)),
        PropModel::PropArray(h, s) => PropModel::PropArray(h, rep_pms(s, o, n)),
        PropModel::MapProp(h, es) => PropModel::MapProp(h, insert_all(kept_entries(es, o, n), moved_entries(es, o, n))),
        PropModel::SetProp(h, s) => PropModel::SetProp(h, rep_pms(s, o, n)),
        PropModel::Bytes(b) => PropModel::Bytes(b),
        PropModel::Enum(h, v) => PropModel::Enum(h, v),
        PropModel::Names(h, ns) => PropModel::Names(h, ns),
        PropModel::Int(v) => PropModel::Int(v),
        PropModel::Str(v) => PropModel::Str(v),
        PropModel::Opaque(x) => PropModel::Opaque(x),
    }
}

/// The struct value `v` with every typed GUID `o` replaced by `n`.
pub open spec fn rep_sm(v: StructModel, o: Seq<u8>, n: Seq<u8>) -> StructModel
    decreases v,
{
    match v {
        StructModel::Guid(x) => StructModel::Guid(sub_guid(x, o, n)),
        StructModel::Custom(f) => StructModel::Custom(rep_fms(f, o, n)),
        StructModel::Opaque(x) => StructModel::Opaque(x),
    }
}

/// The properties `s` with every typed GUID `o` replaced by `n`.
pub open spec fn rep_pms(s: Seq<PropModel>, o: Seq<u8>, n: Seq<u8>) -> Seq<PropModel>
    decreases s,
{
    Seq::new(s.len(), |i: int| if 0 <= i < s.len() { rep_pm(s[i], o, n) } else { PropModel::Opaque(0) })
}

/// The struct values `s` with every typed GUID `o` replaced by `n`.
pub open spec fn rep_sms(s: Seq<StructModel>, o: Seq<u8>, n: Seq<u8>) -> Seq<StructModel>
    decreases s,
{
    Seq::new(s.len(), |i: int| if 0 <= i < s.len() { rep_sm(s[i], o, n) } else { StructModel::Opaque(0) })
}

/// The fields `f` with every typed GUID `o` replaced by `n`.
pub open spec fn rep_fms(f: Seq<(Seq<char>, Seq<PropModel>)>, o: Seq<u8>, n: Seq<u8>) -> Seq<(Seq<char>, Seq<PropModel>)>
    decreases f,
{
    Seq::new(f.len(), |i: int| if 0 <= i < f.len() { (f[i].0, rep_pms(f[i].1, o, n)) } else { (Seq::empty(), Seq::empty()) })
}

/// The entries of `es` whose key holds no `o`, in order, with `o` replaced
/// in their values.
pub open spec fn kept_entries(es: Seq<(PropModel, PropModel)>, o: Seq<u8>, n: Seq<u8>) -> Seq<(PropModel, PropModel)>
    decreases es,
{
    if es.len() == 0 {
        Seq::empty()
    } else {
        let rest = kept_entries(es.subrange(0, es.len() - 1), o, n);
        let e = es[es.len() - 1];
        if count_pm(e.0, o) == 0 {
            rest.push((e.0, rep_pm(e.1, o, n)))
        } else {
            rest
        }
    }
}

/// The entries of `es` whose key holds `o`, in order, with `o` replaced in
/// their keys and values.
pub open spec fn moved_entries(es: Seq<(PropModel, PropModel)>, o: Seq<u8>, n: Seq<u8>) -> Seq<(PropModel, PropModel)>
    decreases es,
{
    if es.len() == 0 {
        Seq::empty()
    } else {
        let rest = moved_entries(es.subrange(0, es.len() - 1), o, n);
        let e = es[es.len() - 1];
        if count_pm(e.0, o) == 0 {
            rest
        } else {
            rest.push((rep_pm(e.0, o, n), rep_pm(e.1, o, n)))
        }
    }
}

/// Whether two texts are the same.
fn same_text(a: &String, b: &String) -> (r: bool)
    ensures
        r == (a@ == b@),
{
    let x = crate::text::chars_of(a.as_str());
    let y = crate::text::chars_of(b.as_str());
    if x.len() != y.len() {
        return false;
    }
    let mut i: usize = 0;
    while i < x.len()
        invariant
            x@ == a@,
            y@ == b@,
            x@.len() == y@.len(),
            i <= x@.len(),
            forall|j: int| 0 <= j < i ==> x@[j] == y@[j],
        decreases x@.len() - i,
    {
        if x[i] != y[i] {
            return false;
        }
        i = i + 1;
    }
    assert(x@ =~= y@);
    true
}

/// Whether two byte arrays hold the same bytes.
fn bytes_equal(a: &Vec<u8>, b: &Vec<u8>) -> (r: bool)
    ensures
        r == (a@ == b@),
{
    if a.len() != b.len() {
        return false;
    }
    let mut i: usize = 0;
    while i < a.len()
        invariant
            a@.len() == b@.len(),
            i <= a@.len(),
            forall|j: int| 0 <= j < i ==> a@[j] == b@[j],
        decreases a@.len() - i,
    {
        if a[i] != b[i] {
            return false;
        }
        i = i + 1;
    }
    assert(a@ =~= b@);
    true
}

/// Whether two lists of names have the same value.
pub fn names_equal(a: &Vec<Option<String>>, b: &Vec<Option<String>>) -> (r: bool)
    ensures
        r == (names_model(a@) == names_model(b@)),
{
    if a.len() != b.len() {
        proof {
            assert(names_model(a@).len() != names_model(b@).len());
        }
        return false;
    }
    let mut i: usize = 0;
    while i < a.len()
        invariant
            a.len() == b.len(),
            i <= a.len(),
            forall|k: int| 0 <= k < i ==> names_model(a@)[k] == names_model(b@)[k],
        decreases a.len() - i,
    {
        let same = match (&a[i], &b[i]) {
            (Some(x), Some(y)) => same_text(x, y),
            (None, None) => true,
            _ => false,
        };
        if !same {
            assert(names_model(a@)[i as int] != names_model(b@)[i as int]);
            return false;
        }
        i = i + 1;
    }
    assert(names_model(a@) =~= names_model(b@));
    true
}

/// Whether two optional strings are equal.
fn same_opt_text(a: &Option<String>, b: &Option<String>) -> (r: bool)
    ensures
        r == (opt_text(*a) == opt_text(*b)),
{
    match (a, b) {
        (Some(x), Some(y)) => same_text(x, y),
        (None, None) => true,
        _ => false,
    }
}

/// Whether two properties have the same value.
pub fn trees_equal(a: &PropTree, b: &PropTree) -> (r: bool)
    ensures
        r == (tree_model(*a) == tree_model(*b)),
    decreases a,
{
    match (a, b) {
        (
            PropTree::Struct { struct_type: t1, header: h1, value: v1 },
            PropTree::Struct { struct_type: t2, header: h2, value: v2 },
        ) => *h1 == *h2 && same_text(t1, t2) && structs_equal(v1, v2),
        (PropTree::Value(v1), PropTree::Value(v2)) => structs_equal(v1, v2),
        (PropTree::StructArray { header: h1, items: i1 }, PropTree::StructArray { header: h2, items: i2 }) => {
            *h1 == *h2 && struct_lists_equal(i1, i2)
        },
        (PropTree::PropArray { header: h1, items: i1 }, PropTree::PropArray { header: h2, items: i2 }) => {
            *h1 == *h2 && tree_lists_equal(i1, i2)
        },
        (PropTree::MapProp { header: h1, entries: e1 }, PropTree::MapProp { header: h2, entries: e2 }) => {
            *h1 == *h2 && entry_lists_equal(e1, e2)
        },
        (PropTree::SetProp { header: h1, items: i1 }, PropTree::SetProp { header: h2, items: i2 }) => {
            *h1 == *h2 && tree_lists_equal(i1, i2)
        },
        (PropTree::Bytes(x), PropTree::Bytes(y)) => bytes_equal(x, y),
        (PropTree::Enum { header: h1, value: v1 }, PropTree::Enum { header: h2, value: v2 }) => {
            *h1 == *h2 && same_text(v1, v2)
        },
        (PropTree::Names { header: h1, names: n1 }, PropTree::Names { header: h2, names: n2 }) => *h1 == *h2 && names_equal(n1, n2),
        (PropTree::Int(x), PropTree::Int(y)) => *x == *y,
        (PropTree::Str(x), PropTree::Str(y)) => same_opt_text(x, y),
        (PropTree::Opaque(x), PropTree::Opaque(y)) => *x == *y,
        _ => false,
    }
}

/// Whether two struct values have the same value.
pub fn structs_equal(a: &StructNode, b: &StructNode) -> (r: bool)
    ensures
        r == (struct_model(*a) == struct_model(*b)),
    decreases a,
{
    match (a, b) {
        (StructNode::Guid(x), StructNode::Guid(y)) => crate::guid_bytes::guid_eq(x, y),
        (StructNode::Custom(f1), StructNode::Custom(f2)) => field_lists_equal(f1, f2),
        (StructNode::Opaque(x), StructNode::Opaque(y)) => *x == *y,
        _ => false,
    }
}

fn tree_lists_equal(a: &Vec<PropTree>, b: &Vec<PropTree>) -> (r: bool)
    ensures
        r == (trees_model(a@) == trees_model(b@)),
    decreases a,
{
    if a.len() != b.len() {
        assert(trees_model(a@).len() != trees_model(b@).len());
        return false;
    }
    let mut i: usize = 0;
    while i < a.len()
        invariant
            a@.len() == b@.len(),
            i <= a@.len(),
            forall|j: int| 0 <= j < i ==> tree_model(#[trigger] a@[j]) == tree_model(b@[j]),
        decreases a@.len() - i,
    {
        if !trees_equal(&a[i], &b[i]) {
            assert(trees_model(a@)[i as int] != trees_model(b@)[i as int]);
            return false;
        }
        i = i + 1;
    }
    assert(trees_model(a@) =~= trees_model(b@));
    true
}

fn struct_lists_equal(a: &Vec<StructNode>, b: &Vec<StructNode>) -> (r: bool)
    ensures
        r == (structs_model(a@) == structs_model(b@)),
    decreases a,
{
    if a.len() != b.len() {
        assert(structs_model(a@).len() != structs_model(b@).len());
        return false;
    }
    let mut i: usize = 0;
    while i < a.len()
        invariant
            a@.len() == b@.len(),
            i <= a@.len(),
            forall|j: int| 0 <= j < i ==> struct_model(#[trigger] a@[j]) == struct_model(b@[j]),
        decreases a@.len() - i,
    {
        if !structs_equal(&a[i], &b[i]) {
            assert(structs_model(a@)[i as int] != structs_model(b@)[i as int]);
            return false;
        }
        i = i + 1;
    }
    assert(structs_model(a@) =~= structs_model(b@));
    true
}

fn field_lists_equal(a: &Vec<(String, Vec<PropTree>)>, b: &Vec<(String, Vec<PropTree>)>) -> (r: bool)
    ensures
        r == (fields_model(a@) == fields_model(b@)),
    decreases a,
{
    if a.len() != b.len() {
        assert(fields_model(a@).len() != fields_model(b@).len());
        return false;
    }
    let mut i: usize = 0;
    while i < a.len()
        invariant
            a@.len() == b@.len(),
            i <= a@.len(),
            forall|j: int| 0 <= j < i ==> fields_model(a@)[j] == fields_model(b@)[j],
        decreases a@.len() - i,
    {
        let same = same_text(&a[i].0, &b[i].0) && tree_lists_equal(&a[i].1, &b[i].1);
        if !same {
            assert(fields_model(a@)[i as int] != fields_model(b@)[i as int]);
            return false;
        }
        i = i + 1;
    }
    assert(fields_model(a@) =~= fields_model(b@));
    true
}

fn entry_lists_equal(a: &Vec<(PropTree, PropTree)>, b: &Vec<(PropTree, PropTree)>) -> (r: bool)
    ensures
        r == (entries_model(a@) == entries_model(b@)),
    decreases a,
{
    if a.len() != b.len() {
        assert(entries_model(a@).len() != entries_model(b@).len());
        return false;
    }
    let mut i: usize = 0;
    while i < a.len()
        invariant
            a@.len() == b@.len(),
            i <= a@.len(),
            forall|j: int| 0 <= j < i ==> entries_model(a@)[j] == entries_model(b@)[j],
        decreases a@.len() - i,
    {
        let same = trees_equal(&a[i].0, &b[i].0) && trees_equal(&a[i].1, &b[i].1);
        if !same {
            assert(entries_model(a@)[i as int] != entries_model(b@)[i as int]);
            return false;
        }
        i = i + 1;
    }
    assert(entries_model(a@) =~= entries_model(b@));
    true
}

/// No key or value of `es` holds the typed GUID `g`.
pub open spec fn entries_clear(es: Seq<(PropModel, PropModel)>, g: Seq<u8>) -> bool {
    forall|j: int| #![trigger es[j]] 0 <= j < es.len() ==> count_pm(es[j].0, g) == 0 && count_pm(es[j].1, g) == 0
}

proof fn lemma_clear_count(es: Seq<(PropModel, PropModel)>, g: Seq<u8>)
    requires
        entries_clear(es, g),
    ensures
        count_ems(es, g) == 0,
    decreases es.len(),
{
    if es.len() > 0 {
        let r = es.subrange(1, es.len() as int);
        assert(entries_clear(r, g)) by {
            assert forall|j: int| #![trigger r[j]] 0 <= j < r.len() implies count_pm(r[j].0, g) == 0 && count_pm(r[j].1, g) == 0 by {
                assert(r[j] == es[j + 1]);
                assert(count_pm(es[j + 1].0, g) == 0 && count_pm(es[j + 1].1, g) == 0);
            }
        }
        assert(count_pm(es[0].0, g) == 0 && count_pm(es[0].1, g) == 0);
        lemma_clear_count(r, g);
    }
}

pub proof fn lemma_key_index(es: Seq<(PropModel, PropModel)>, k: PropModel)
    ensures
        match key_index(es, k) {
            Some(j) => 0 <= j < es.len() && es[j].0 == k && forall|j2: int| 0 <= j2 < j ==> (#[trigger] es[j2]).0 != k,
            None => forall|j: int| 0 <= j < es.len() ==> (#[trigger] es[j]).0 != k,
        },
    decreases es.len(),
{
    if es.len() > 0 {
        let r = es.subrange(1, es.len() as int);
        lemma_key_index(r, k);
        if es[0].0 != k {
            match key_index(r, k) {
                Some(j) => {
                    assert forall|j2: int| 0 <= j2 < j + 1 implies (#[trigger] es[j2]).0 != k by {
                        if j2 > 0 {
                            assert(es[j2] == r[j2 - 1]);
                        }
                    }
                },
                None => {
                    assert forall|j: int| 0 <= j < es.len() implies (#[trigger] es[j]).0 != k by {
                        if j > 0 {
                            assert(es[j] == r[j - 1]);
                        }
                    }
                },
            }
        }
    }
}

proof fn lemma_insert_all_clear(acc: Seq<(PropModel, PropModel)>, bs: Seq<(PropModel, PropModel)>, g: Seq<u8>)
    requires
        entries_clear(acc, g),
        entries_clear(bs, g),
    ensures
        entries_clear(insert_all(acc, bs), g),
    decreases bs.len(),
{
    if bs.len() > 0 {
        let init = bs.drop_last();
        assert(entries_clear(init, g)) by {
            assert forall|j: int| #![trigger init[j]] 0 <= j < init.len() implies count_pm(init[j].0, g) == 0 && count_pm(init[j].1, g) == 0 by {
                assert(init[j] == bs[j]);
            }
        }
        lemma_insert_all_clear(acc, init, g);
        let a = insert_all(acc, init);
        let e = bs.last();
        assert(e == bs[bs.len() - 1]);
        lemma_key_index(a, e.0);
        let r = map_insert(a, e);
        assert forall|j: int| #![trigger r[j]] 0 <= j < r.len() implies count_pm(r[j].0, g) == 0 && count_pm(r[j].1, g) == 0 by {
            match key_index(a, e.0) {
                Some(i) => {
                    if j != i {
                        assert(r[j] == a[j]);
                    }
                },
                None => {
                    if j < a.len() {
                        assert(r[j] == a[j]);
                    }
                },
            }
        }
    }
}

/// After replacing `o` by another GUID, no typed GUID `o` is left.
pub proof fn lemma_rep_clears(m: PropModel, o: Seq<u8>, n: Seq<u8>)
    requires
        o != n,
    ensures
        count_pm(rep_pm(m, o, n), o) == 0,
    decreases m,
{
    match m {
        PropModel::Struct(tn, h, v) => {
            if tn != guid_struct_type() {
                match v {
                    StructModel::Custom(f) => lemma_rep_clears_fms(f, o, n),
                    _ => {},
                }
            }
        },
        PropModel::Value(v) => lemma_rep_clears_sm(v, o, n),
        PropModel::StructArray(h, s) => lemma_rep_clears_sms(s, o, n),
        PropModel::PropArray(h, s) => lemma_rep_clears_pms(s, o, n),
        PropModel::MapProp(h, es) => {
            lemma_kept_clear(es, o, n);
            lemma_moved_clear(es, o, n);
            lemma_insert_all_clear(kept_entries(es, o, n), moved_entries(es, o, n), o);
            lemma_clear_count(insert_all(kept_entries(es, o, n), moved_entries(es, o, n)), o);
        },
        PropModel::SetProp(h, s) => lemma_rep_clears_pms(s, o, n),
        PropModel::Bytes(_) => {},
        PropModel::Enum(_, _) => {},
        PropModel::Names(..) => {},
        PropModel::Int(_) => {},
        PropModel::Str(_) => {},
        PropModel::Opaque(_) => {},
    }
}

proof fn lemma_rep_clears_sm(v: StructModel, o: Seq<u8>, n: Seq<u8>)
    requires
        o != n,
    ensures
        count_sm(rep_sm(v, o, n), o) == 0,
    decreases v,
{
    match v {
        StructModel::Custom(f) => lemma_rep_clears_fms(f, o, n),
        _ => {},
    }
}

proof fn lemma_rep_clears_pms(s: Seq<PropModel>, o: Seq<u8>, n: Seq<u8>)
    requires
        o != n,
    ensures
        count_pms(rep_pms(s, o, n), o) == 0,
    decreases s,
{
    if s.len() > 0 {
        lemma_rep_clears(s[0], o, n);
        lemma_rep_clears_pms(s.subrange(1, s.len() as int), o, n);
        assert(rep_pms(s, o, n).subrange(1, s.len() as int) =~= rep_pms(s.subrange(1, s.len() as int), o, n));
    }
}

proof fn lemma_rep_clears_sms(s: Seq<StructModel>, o: Seq<u8>, n: Seq<u8>)
    requires
        o != n,
    ensures
        count_sms(rep_sms(s, o, n), o) == 0,
    decreases s,
{
    if s.len() > 0 {
        lemma_rep_clears_sm(s[0], o, n);
        lemma_rep_clears_sms(s.subrange(1, s.len() as int), o, n);
        assert(rep_sms(s, o, n).subrange(1, s.len() as int) =~= rep_sms(s.subrange(1, s.len() as int), o, n));
    }
}

proof fn lemma_rep_clears_fms(f: Seq<(Seq<char>, Seq<PropModel>)>, o: Seq<u8>, n: Seq<u8>)
    requires
        o != n,
    ensures
        count_fm(rep_fms(f, o, n), o) == 0,
    decreases f,
{
    if f.len() > 0 {
        lemma_rep_clears_pms(f[0].1, o, n);
        lemma_rep_clears_fms(f.subrange(1, f.len() as int), o, n);
        assert(rep_fms(f, o, n).subrange(1, f.len() as int) =~= rep_fms(f.subrange(1, f.len() as int), o, n));
    }
}

proof fn lemma_kept_clear(es: Seq<(PropModel, PropModel)>, o: Seq<u8>, n: Seq<u8>)
    requires
        o != n,
    ensures
        entries_clear(kept_entries(es, o, n), o),
    decreases es,
{
    if es.len() > 0 {
        let init = es.subrange(0, es.len() - 1);
        lemma_kept_clear(init, o, n);
        let e = es[es.len() - 1];
        lemma_rep_clears(e.1, o, n);
        let rest = kept_entries(init, o, n);
        assert(entries_clear(rest, o));
        if count_pm(e.0, o) == 0 {
            let r = rest.push((e.0, rep_pm(e.1, o, n)));
            assert forall|j: int| #![trigger r[j]] 0 <= j < r.len() implies count_pm(r[j].0, o) == 0 && count_pm(r[j].1, o) == 0 by {
                if j < rest.len() {
                    assert(r[j] == rest[j]);
                    assert(count_pm(rest[j].0, o) == 0 && count_pm(rest[j].1, o) == 0);
                }
            }
        }
    }
}

proof fn lemma_moved_clear(es: Seq<(PropModel, PropModel)>, o: Seq<u8>, n: Seq<u8>)
    requires
        o != n,
    ensures
        entries_clear(moved_entries(es, o, n), o),
    decreases es,
{
    if es.len() > 0 {
        let init = es.subrange(0, es.len() - 1);
        lemma_moved_clear(init, o, n);
        let e = es[es.len() - 1];
        lemma_rep_clears(e.0, o, n);
        lemma_rep_clears(e.1, o, n);
        let rest = moved_entries(init, o, n);
        if count_pm(e.0, o) != 0 {
            let r = rest.push((rep_pm(e.0, o, n), rep_pm(e.1, o, n)));
            assert forall|j: int| #![trigger r[j]] 0 <= j < r.len() implies count_pm(r[j].0, o) == 0 && count_pm(r[j].1, o) == 0 by {
                if j < rest.len() {
                    assert(r[j] == rest[j]);
                    assert(count_pm(rest[j].0, o) == 0 && count_pm(rest[j].1, o) == 0);
                }
            }
        }
    }
}

/// No key of `es` holds the typed GUID `g`.
pub open spec fn keys_clear(es: Seq<(PropModel, PropModel)>, g: Seq<u8>) -> bool {
    forall|j: int| 0 <= j < es.len() ==> count_pm(#[trigger] es[j].0, g) == 0
}

proof fn lemma_map_insert_remove(x: Seq<(PropModel, PropModel)>, e: (PropModel, PropModel), p: int)
    requires
        0 <= p < x.len(),
        x[p].0 != e.0,
    ensures
        map_insert(x.remove(p), e) == map_insert(x, e).remove(p),
{
    let y = x.remove(p);
    lemma_key_index(x, e.0);
    lemma_key_index(y, e.0);
    match key_index(x, e.0) {
        Some(j) => {
            assert(j != p);
            let jy = if j < p { j } else { j - 1 };
            assert(y[jy] == x[j]);
            match key_index(y, e.0) {
                Some(k) => {
                    let kx = if k < p { k } else { k + 1 };
                    assert(y[k] == x[kx]);
                    assert(k == jy);
                },
                None => {
                    assert(y[jy].0 == e.0);
                },
            }
            assert(map_insert(y, e) =~= map_insert(x, e).remove(p));
        },
        None => {
            match key_index(y, e.0) {
                Some(k) => {
                    let kx = if k < p { k } else { k + 1 };
                    assert(y[k] == x[kx]);
                },
                None => {},
            }
            assert(map_insert(y, e) =~= map_insert(x, e).remove(p));
        },
    }
}

proof fn lemma_insert_all_shape(acc: Seq<(PropModel, PropModel)>, bs: Seq<(PropModel, PropModel)>, g: Seq<u8>)
    requires
        keys_clear(bs, g),
    ensures
        insert_all(acc, bs).len() >= acc.len(),
        forall|j: int| 0 <= j < acc.len() ==> (#[trigger] insert_all(acc, bs)[j]).0 == acc[j].0,
        forall|j: int| 0 <= j < acc.len() && count_pm(acc[j].0, g) > 0 ==> #[trigger] insert_all(acc, bs)[j] == acc[j],
        forall|j: int| acc.len() <= j < insert_all(acc, bs).len() ==> count_pm((#[trigger] insert_all(acc, bs)[j]).0, g) == 0,
    decreases bs.len(),
{
    if bs.len() > 0 {
        let init = bs.drop_last();
        assert(keys_clear(init, g)) by {
            assert forall|j: int| 0 <= j < init.len() implies count_pm(#[trigger] init[j].0, g) == 0 by {
                assert(init[j] == bs[j]);
            }
        }
        lemma_insert_all_shape(acc, init, g);
        let a = insert_all(acc, init);
        let e = bs.last();
        assert(e == bs[bs.len() - 1]);
        lemma_key_index(a, e.0);
        let r = map_insert(a, e);
        assert(r == insert_all(acc, bs));
        assert forall|j: int| 0 <= j < acc.len() implies (#[trigger] r[j]).0 == acc[j].0 by {
            assert(a[j].0 == acc[j].0);
        }
        assert forall|j: int| 0 <= j < acc.len() && count_pm(acc[j].0, g) > 0 implies #[trigger] r[j] == acc[j] by {
            assert(a[j] == acc[j]);
            match key_index(a, e.0) {
                Some(i) => {
                    if i == j {
                        assert(a[j].0 == e.0);
                    }
                },
                None => {},
            }
        }
        assert forall|j: int| acc.len() <= j < r.len() implies count_pm((#[trigger] r[j]).0, g) == 0 by {
            match key_index(a, e.0) {
                Some(i) => {},
                None => {
                    if j < a.len() {
                        assert(r[j] == a[j]);
                    }
                },
            }
        }
    }
}

proof fn lemma_insert_all_remove(acc: Seq<(PropModel, PropModel)>, bs: Seq<(PropModel, PropModel)>, p: int, g: Seq<u8>)
    requires
        keys_clear(bs, g),
        0 <= p < acc.len(),
        count_pm(acc[p].0, g) > 0,
    ensures
        insert_all(acc.remove(p), bs) == insert_all(acc, bs).remove(p),
    decreases bs.len(),
{
    if bs.len() > 0 {
        let init = bs.drop_last();
        assert(keys_clear(init, g)) by {
            assert forall|j: int| 0 <= j < init.len() implies count_pm(#[trigger] init[j].0, g) == 0 by {
                assert(init[j] == bs[j]);
            }
        }
        lemma_insert_all_remove(acc, init, p, g);
        lemma_insert_all_shape(acc, init, g);
        let a = insert_all(acc, init);
        let e = bs.last();
        assert(e == bs[bs.len() - 1]);
        assert(a[p] == acc[p]);
        assert(a[p].0 != e.0);
        lemma_map_insert_remove(a, e, p);
    } else {
        assert(insert_all(acc.remove(p), bs) == acc.remove(p));
    }
}

/// The typed GUIDs equal to `g` in the keys of `es`.
pub open spec fn count_keys(es: Seq<(PropModel, PropModel)>, g: Seq<u8>) -> nat
    decreases es.len(),
{
    if es.len() == 0 {
        0
    } else {
        count_pm(es[0].0, g) + count_keys(es.subrange(1, es.len() as int), g)
    }
}

/// The typed GUIDs equal to `g` in the values of `es`.
pub open spec fn count_values(es: Seq<(PropModel, PropModel)>, g: Seq<u8>) -> nat
    decreases es.len(),
{
    if es.len() == 0 {
        0
    } else {
        count_pm(es[0].1, g) + count_values(es.subrange(1, es.len() as int), g)
    }
}

proof fn lemma_count_split(es: Seq<(PropModel, PropModel)>, g: Seq<u8>)
    ensures
        count_ems(es, g) == count_keys(es, g) + count_values(es, g),
    decreases es.len(),
{
    if es.len() > 0 {
        lemma_count_split(es.subrange(1, es.len() as int), g);
    }
}

/// The index of the first entry whose key has the value of `k`.
pub fn find_key(entries: &Vec<(PropTree, PropTree)>, k: &PropTree) -> (r: Option<usize>)
    ensures
        match key_index(entries_model(entries@), tree_model(*k)) {
            Some(j) => r == Some(j as usize),
            None => r is None,
        },
{
    let ghost m = entries_model(entries@);
    proof {
        lemma_key_index(m, tree_model(*k));
    }
    let mut i: usize = 0;
    while i < entries.len()
        invariant
            i <= entries@.len(),
            m == entries_model(entries@),
            forall|j: int| 0 <= j < i ==> (#[trigger] m[j]).0 != tree_model(*k),
        decreases entries@.len() - i,
    {
        if trees_equal(&entries[i].0, k) {
            assert(m[i as int].0 == tree_model(*k));
            proof {
                lemma_key_index(m, tree_model(*k));
                match key_index(m, tree_model(*k)) {
                    Some(j) => {
                        if j < i {
                            assert(m[j].0 != tree_model(*k));
                        } else if j > i {
                            assert(m[i as int].0 != tree_model(*k));
                        }
                    },
                    None => {
                        assert(m[i as int].0 != tree_model(*k));
                    },
                }
            }
            return Some(i);
        }
        i = i + 1;
    }
    proof {
        match key_index(m, tree_model(*k)) {
            Some(j) => {
                assert(m[j].0 != tree_model(*k));
            },
            None => {},
        }
    }
    None
}

/// Replaces every typed GUID `old` by `new` in a property it takes, giving
/// the property back with the number of GUIDs replaced (see `rep_pm`).
fn replace_owned(t: PropTree, old: &[u8; 16], new: &[u8; 16]) -> (r: (PropTree, usize))
    requires
        old@ != new@,
    ensures
        tree_model(r.0) == rep_pm(tree_model(t), old@, new@),
        r.1 == capped(count_pm(tree_model(t), old@)),
    decreases tree_model(t),
{
    let ghost m = tree_model(t);
    match t {
        PropTree::Struct { struct_type, header, value } => {
            if is_guid_type(&struct_type) {
                match value {
                    StructNode::Guid(x) => {
                        if crate::guid_bytes::guid_eq(&x, old) {
                            (PropTree::Struct { struct_type, header, value: StructNode::Guid(*new) }, 1)
                        } else {
                            (PropTree::Struct { struct_type, header, value: StructNode::Guid(x) }, 0)
                        }
                    },
                    other => (PropTree::Struct { struct_type, header, value: other }, 0),
                }
            } else {
                match value {
                    StructNode::Custom(f) => {
                        let (f2, c) = replace_in_fields(f, old, new);
                        (PropTree::Struct { struct_type, header, value: StructNode::Custom(f2) }, c)
                    },
                    other => (PropTree::Struct { struct_type, header, value: other }, 0),
                }
            }
        },
        PropTree::Value(v) => {
            let (v2, c) = replace_in_struct(v, old, new);
            (PropTree::Value(v2), c)
        },
        PropTree::StructArray { header, items } => {
            let (items2, c) = replace_in_structs(items, old, new);
            (PropTree::StructArray { header, items: items2 }, c)
        },
        PropTree::PropArray { header, items } => {
            let (items2, c) = replace_in_trees(items, old, new);
            (PropTree::PropArray { header, items: items2 }, c)
        },
        PropTree::MapProp { header, entries } => {
            let (entries2, c) = replace_in_entries(entries, old, new);
            (PropTree::MapProp { header, entries: entries2 }, c)
        },
        PropTree::SetProp { header, items } => {
            let (items2, c) = replace_in_trees(items, old, new);
            (PropTree::SetProp { header, items: items2 }, c)
        },
        PropTree::Bytes(b) => (PropTree::Bytes(b), 0),
        PropTree::Enum { header, value } => (PropTree::Enum { header, value }, 0),
        PropTree::Names { header, names } => (PropTree::Names { header, names }, 0),
        PropTree::Int(v) => (PropTree::Int(v), 0),
        PropTree::Str(v) => (PropTree::Str(v), 0),
        PropTree::Opaque(x) => (PropTree::Opaque(x), 0),
    }
}

fn replace_in_struct(v: StructNode, old: &[u8; 16], new: &[u8; 16]) -> (r: (StructNode, usize))
    requires
        old@ != new@,
    ensures
        struct_model(r.0) == rep_sm(struct_model(v), old@, new@),
        r.1 == capped(count_sm(struct_model(v), old@)),
    decreases struct_model(v),
{
    match v {
        StructNode::Guid(x) => {
            if crate::guid_bytes::guid_eq(&x, old) {
                (StructNode::Guid(*new), 1)
            } else {
                (StructNode::Guid(x), 0)
            }
        },
        StructNode::Custom(f) => {
            let (f2, c) = replace_in_fields(f, old, new);
            (StructNode::Custom(f2), c)
        },
        StructNode::Opaque(x) => (StructNode::Opaque(x), 0),
    }
}

fn replace_in_trees(items: Vec<PropTree>, old: &[u8; 16], new: &[u8; 16]) -> (r: (Vec<PropTree>, usize))
    requires
        old@ != new@,
    ensures
        trees_model(r.0@) == rep_pms(trees_model(items@), old@, new@),
        r.1 == capped(count_pms(trees_model(items@), old@)),
    decreases trees_model(items@),
{
    let ghost orig = items@;
    let ghost m = trees_model(orig);
    let len = items.len();
    let mut rest = items;
    let mut out: Vec<PropTree> = Vec::new();
    let mut total: usize = 0;
    let ghost mut done: nat = 0;
    let mut i: usize = 0;
    assert(m.subrange(0, len as int) =~= m);
    while i < len
        invariant
            len == orig.len(),
            orig == items@,
            m == trees_model(orig),
            i <= len,
            rest@ == orig.subrange(i as int, len as int),
            trees_model(out@) == rep_pms(m, old@, new@).take(i as int),
            total == capped(done),
            done + count_pms(m.subrange(i as int, len as int), old@) == count_pms(m, old@),
            old@ != new@,
        decreases len - i,
    {
        let ghost tail = m.subrange(i as int, len as int);
        assert(tail.subrange(1, tail.len() as int) =~= m.subrange(i + 1, len as int));
        let x = rest.remove(0);
        assert(x == orig[i as int]);
        proof {
            vstd::seq::axiom_seq_index_decreases(m, i as int);
        }
        assert(m[i as int] == tree_model(x));
        let (y, c) = replace_owned(x, old, new);
        let ghost before = out@;
        out.push(y);
        assert(trees_model(out@) =~= trees_model(before).push(tree_model(y)));
        assert(rep_pms(m, old@, new@).take(i + 1) =~= rep_pms(m, old@, new@).take(i as int).push(rep_pm(m[i as int], old@, new@)));
        proof {
            lemma_capped_add(done, count_pm(m[i as int], old@));
            done = done + count_pm(m[i as int], old@);
        }
        total = total.saturating_add(c);
        i = i + 1;
    }
    assert(rep_pms(m, old@, new@).take(len as int) =~= rep_pms(m, old@, new@));
    (out, total)
}

fn replace_in_structs(items: Vec<StructNode>, old: &[u8; 16], new: &[u8; 16]) -> (r: (Vec<StructNode>, usize))
    requires
        old@ != new@,
    ensures
        structs_model(r.0@) == rep_sms(structs_model(items@), old@, new@),
        r.1 == capped(count_sms(structs_model(items@), old@)),
    decreases structs_model(items@),
{
    let ghost orig = items@;
    let ghost m = structs_model(orig);
    let len = items.len();
    let mut rest = items;
    let mut out: Vec<StructNode> = Vec::new();
    let mut total: usize = 0;
    let ghost mut done: nat = 0;
    let mut i: usize = 0;
    assert(m.subrange(0, len as int) =~= m);
    while i < len
        invariant
            len == orig.len(),
            orig == items@,
            m == structs_model(orig),
            i <= len,
            rest@ == orig.subrange(i as int, len as int),
            structs_model(out@) == rep_sms(m, old@, new@).take(i as int),
            total == capped(done),
            done + count_sms(m.subrange(i as int, len as int), old@) == count_sms(m, old@),
            old@ != new@,
        decreases len - i,
    {
        let ghost tail = m.subrange(i as int, len as int);
        assert(tail.subrange(1, tail.len() as int) =~= m.subrange(i + 1, len as int));
        let x = rest.remove(0);
        assert(x == orig[i as int]);
        proof {
            vstd::seq::axiom_seq_index_decreases(m, i as int);
        }
        assert(m[i as int] == struct_model(x));
        let (y, c) = replace_in_struct(x, old, new);
        let ghost before = out@;
        out.push(y);
        assert(structs_model(out@) =~= structs_model(before).push(struct_model(y)));
        assert(rep_sms(m, old@, new@).take(i + 1) =~= rep_sms(m, old@, new@).take(i as int).push(rep_sm(m[i as int], old@, new@)));
        proof {
            lemma_capped_add(done, count_sm(m[i as int], old@));
            done = done + count_sm(m[i as int], old@);
        }
        total = total.saturating_add(c);
        i = i + 1;
    }
    assert(rep_sms(m, old@, new@).take(len as int) =~= rep_sms(m, old@, new@));
    (out, total)
}

fn replace_in_fields(fields: Vec<(String, Vec<PropTree>)>, old: &[u8; 16], new: &[u8; 16]) -> (r: (Vec<(String, Vec<PropTree>)>, usize))
    requires
        old@ != new@,
    ensures
        fields_model(r.0@) == rep_fms(fields_model(fields@), old@, new@),
        r.1 == capped(count_fm(fields_model(fields@), old@)),
    decreases fields_model(fields@),
{
    let ghost orig = fields@;
    let ghost m = fields_model(orig);
    let len = fields.len();
    let mut rest = fields;
    let mut out: Vec<(String, Vec<PropTree>)> = Vec::new();
    let mut total: usize = 0;
    let ghost mut done: nat = 0;
    let mut i: usize = 0;
    assert(m.subrange(0, len as int) =~= m);
    while i < len
        invariant
            len == orig.len(),
            orig == fields@,
            m == fields_model(orig),
            i <= len,
            rest@ == orig.subrange(i as int, len as int),
            fields_model(out@) == rep_fms(m, old@, new@).take(i as int),
            total == capped(done),
            done + count_fm(m.subrange(i as int, len as int), old@) == count_fm(m, old@),
            old@ != new@,
        decreases len - i,
    {
        let ghost tail = m.subrange(i as int, len as int);
        assert(tail.subrange(1, tail.len() as int) =~= m.subrange(i + 1, len as int));
        let (name, props) = rest.remove(0);
        assert((name, props) == orig[i as int]);
        proof {
            vstd::seq::axiom_seq_index_decreases(m, i as int);
        }
        assert(m[i as int] == (name@, trees_model(props@)));
        assert(decreases_to!(m[i as int] => m[i as int].1));
        let (props2, c) = replace_in_trees(props, old, new);
        let ghost before = out@;
        out.push((name, props2));
        assert(fields_model(out@) =~= fields_model(before).push((name@, trees_model(props2@))));
        assert(rep_fms(m, old@, new@).take(i + 1) =~= rep_fms(m, old@, new@).take(i as int).push((m[i as int].0, rep_pms(m[i as int].1, old@, new@))));
        proof {
            lemma_capped_add(done, count_pms(m[i as int].1, old@));
            done = done + count_pms(m[i as int].1, old@);
        }
        total = total.saturating_add(c);
        i = i + 1;
    }
    assert(rep_fms(m, old@, new@).take(len as int) =~= rep_fms(m, old@, new@));
    (out, total)
}

/// The map entries while their keys are being replaced: the kept entries
/// among the first `k`, then the entries from `k` on with replaced values,
/// and the moved entries among the first `k` inserted.
pub open spec fn rekey_state(m: Seq<(PropModel, PropModel)>, k: int, o: Seq<u8>, n: Seq<u8>) -> Seq<(PropModel, PropModel)> {
    let e = Seq::new(m.len(), |j: int| (m[j].0, rep_pm(m[j].1, o, n)));
    insert_all(kept_entries(m.take(k), o, n) + e.skip(k), moved_entries(m.take(k), o, n))
}

fn replace_in_entries(entries: Vec<(PropTree, PropTree)>, old: &[u8; 16], new: &[u8; 16]) -> (r: (Vec<(PropTree, PropTree)>, usize))
    requires
        old@ != new@,
    ensures
        entries_model(r.0@) == insert_all(
            kept_entries(entries_model(entries@), old@, new@),
            moved_entries(entries_model(entries@), old@, new@),
        ),
        r.1 == capped(count_ems(entries_model(entries@), old@)),
    decreases entries_model(entries@),
{
    let ghost orig = entries@;
    let ghost m = entries_model(orig);
    let ghost o = old@;
    let ghost nw = new@;
    let ghost e = Seq::new(m.len(), |j: int| (m[j].0, rep_pm(m[j].1, o, nw)));
    proof {
        lemma_count_split(m, o);
    }
    let len = entries.len();
    let mut rest = entries;
    let mut cur: Vec<(PropTree, PropTree)> = Vec::new();
    let mut total: usize = 0;
    let ghost mut done: nat = 0;
    let mut i: usize = 0;
    assert(m.subrange(0, len as int) =~= m);
    while i < len
        invariant
            len == orig.len(),
            orig == entries@,
            m == entries_model(orig),
            e.len() == m.len(),
            forall|j: int| 0 <= j < m.len() ==> #[trigger] e[j] == (m[j].0, rep_pm(m[j].1, o, nw)),
            i <= len,
            rest@ == orig.subrange(i as int, len as int),
            entries_model(cur@) == e.take(i as int),
            total == capped(done),
            done + count_values(m.subrange(i as int, len as int), o) == count_values(m, o),
            o == old@,
            nw == new@,
            o != nw,
        decreases len - i,
    {
        let ghost tail = m.subrange(i as int, len as int);
        assert(tail.subrange(1, tail.len() as int) =~= m.subrange(i + 1, len as int));
        let (k, v) = rest.remove(0);
        assert((k, v) == orig[i as int]);
        proof {
            vstd::seq::axiom_seq_index_decreases(m, i as int);
        }
        assert(m[i as int] == (tree_model(k), tree_model(v)));
        assert(decreases_to!(m[i as int] => m[i as int].1));
        let (v2, c) = replace_owned(v, old, new);
        let ghost before = cur@;
        cur.push((k, v2));
        assert(entries_model(cur@) =~= entries_model(before).push((tree_model(k), tree_model(v2))));
        assert(e.take(i + 1) =~= e.take(i as int).push(e[i as int]));
        proof {
            lemma_capped_add(done, count_pm(m[i as int].1, o));
            done = done + count_pm(m[i as int].1, o);
        }
        total = total.saturating_add(c);
        i = i + 1;
    }
    assert(e.take(len as int) =~= e);
    assert(m.subrange(len as int, len as int) =~= Seq::<(PropModel, PropModel)>::empty());
    // Keys: move the entries whose key holds `old`, in order.
    let ghost mut k: int = 0;
    assert(m.take(0) =~= Seq::<(PropModel, PropModel)>::empty());
    assert(e.skip(0) =~= e);
    assert(rekey_state(m, 0, o, nw) =~= e);
    let mut i: usize = 0;
    while i < cur.len()
        invariant
            len == m.len(),
            orig == entries@,
            m == entries_model(orig),
            e.len() == m.len(),
            forall|j: int| 0 <= j < m.len() ==> #[trigger] e[j] == (m[j].0, rep_pm(m[j].1, o, nw)),
            e == Seq::new(m.len(), |j: int| (m[j].0, rep_pm(m[j].1, o, nw))),
            0 <= k <= len,
            i <= cur@.len(),
            entries_model(cur@) == rekey_state(m, k, o, nw),
            k < len ==> i == kept_entries(m.take(k), o, nw).len(),
            k == len ==> kept_entries(m, o, nw).len() <= i && forall|j: int| i <= j < cur@.len() ==> count_pm((#[trigger] entries_model(cur@)[j]).0, o) == 0,
            total == capped(done),
            done + count_keys(m.subrange(k, len as int), o) == count_keys(m, o) + count_values(m, o),
            o == old@,
            nw == new@,
            o != nw,
        decreases 2 * (len - k) + (cur@.len() - i),
    {
        let ghost kp = kept_entries(m.take(k), o, nw);
        let ghost mp = moved_entries(m.take(k), o, nw);
        let ghost base = kp + e.skip(k);
        proof {
            lemma_moved_clear(m.take(k), o, nw);
            lemma_insert_all_shape(base, mp, o);
        }
        let ghost cm = entries_model(cur@);
        assert(cm[i as int].0 == tree_model(cur@[i as int].0));
        assert(count_pm(cm[i as int].0, o) <= count_keys(m, o) + count_values(m, o)) by {
            if k < len {
                assert(base[i as int] == e[k]);
                assert(cm[i as int].0 == m[k].0);
                let tl = m.subrange(k, len as int);
                assert(tl[0] == m[k]);
            }
        }
        let c0 = count_guid_in_property(&cur[i].0, old);
        if c0 > 0 {
            assert(k < len);
            assert(base[i as int] == e[k]);
            assert(cm[i as int] == e[k]);
            let ghost tl = m.subrange(k, len as int);
            assert(tl[0] == m[k]);
            assert(tl.subrange(1, tl.len() as int) =~= m.subrange(k + 1, len as int));
            assert(m.take(k + 1).subrange(0, k) =~= m.take(k));
            assert(m.take(k + 1)[k] == m[k]);
            assert(kept_entries(m.take(k + 1), o, nw) == kp);
            assert(moved_entries(m.take(k + 1), o, nw) == mp.push((rep_pm(m[k].0, o, nw), rep_pm(m[k].1, o, nw))));
            proof {
                lemma_insert_all_remove(base, mp, i as int, o);
            }
            let (key, value) = cur.remove(i);
            assert(base.remove(i as int) =~= kp + e.skip(k + 1));
            proof {
                vstd::seq::axiom_seq_index_decreases(m, k);
            }
            assert(tree_model(key) == m[k].0);
            assert(decreases_to!(m[k] => m[k].0));
            let (key2, c) = replace_owned(key, old, new);
            let ghost pushed = mp.push((rep_pm(m[k].0, o, nw), rep_pm(m[k].1, o, nw)));
            assert(pushed.drop_last() =~= mp);
            proof {
                lemma_key_index(entries_model(cur@), tree_model(key2));
            }
            let ghost c1 = entries_model(cur@);
            let ghost x = (rep_pm(m[k].0, o, nw), rep_pm(m[k].1, o, nw));
            assert(tree_model(value) == rep_pm(m[k].1, o, nw));
            assert(tree_model(key2) == x.0);
            match find_key(&cur, &key2) {
                Some(j) => {
                    let (kj, _previous) = cur.remove(j);
                    cur.insert(j, (kj, value));
                    assert(entries_model(cur@) =~= c1.update(j as int, (c1[j as int].0, x.1)));
                },
                None => {
                    cur.push((key2, value));
                    assert(entries_model(cur@) =~= c1.push(x));
                },
            }
            assert(entries_model(cur@) == map_insert(c1, x));
            assert(c1 == insert_all(kp + e.skip(k + 1), mp));
            assert(insert_all(kp + e.skip(k + 1), pushed) == map_insert(insert_all(kp + e.skip(k + 1), mp), x));
            proof {
                lemma_capped_add(done, count_pm(m[k].0, o));
                done = done + count_pm(m[k].0, o);
            }
            total = total.saturating_add(c);
            proof {
                k = k + 1;
                lemma_moved_clear(m.take(k), o, nw);
                lemma_insert_all_shape(kept_entries(m.take(k), o, nw) + e.skip(k), moved_entries(m.take(k), o, nw), o);
            }
            assert(entries_model(cur@) =~= rekey_state(m, k, o, nw));
        } else {
            proof {
                if k < len {
                    assert(base[i as int] == e[k]);
                    let tl = m.subrange(k, len as int);
                    assert(tl[0] == m[k]);
                    assert(tl.subrange(1, tl.len() as int) =~= m.subrange(k + 1, len as int));
                    assert(m.take(k + 1).subrange(0, k) =~= m.take(k));
                    assert(m.take(k + 1)[k] == m[k]);
                    assert(kept_entries(m.take(k + 1), o, nw) == kp.push((m[k].0, rep_pm(m[k].1, o, nw))));
                    assert(moved_entries(m.take(k + 1), o, nw) == mp);
                    assert(kp.push(e[k]) + e.skip(k + 1) =~= base);
                    k = k + 1;
                    assert(rekey_state(m, k, o, nw) == entries_model(cur@));
                    if k == len {
                        assert(m.take(k) =~= m);
                        lemma_moved_clear(m.take(k), o, nw);
                        lemma_insert_all_shape(kept_entries(m.take(k), o, nw) + e.skip(k), moved_entries(m.take(k), o, nw), o);
                    }
                }
            }
            i = i + 1;
        }
    }
    proof {
        if k < len {
            let kp = kept_entries(m.take(k), o, nw);
            lemma_moved_clear(m.take(k), o, nw);
            lemma_insert_all_shape(kp + e.skip(k), moved_entries(m.take(k), o, nw), o);
        }
    }
    assert(k == len);
    assert(m.take(len as int) =~= m);
    assert(e.skip(len as int) =~= Seq::<(PropModel, PropModel)>::empty());
    assert(kept_entries(m, o, nw) + e.skip(len as int) =~= kept_entries(m, o, nw));
    assert(m.subrange(len as int, len as int) =~= Seq::<(PropModel, PropModel)>::empty());
    (cur, total)
}

/// Replaces every typed GUID `old` by `new` in a property, in place (see
/// `rep_pm`: struct GUID values, and inside custom structs, arrays, sets and
/// map keys and values; a map entry whose key changes moves to the end, or,
/// when the new key is already present, gives that entry its value). Returns
/// the number of GUIDs replaced.
pub fn replace_guid_in_property(p: &mut PropTree, old_id: &[u8; 16], new_id: &[u8; 16]) -> (n: usize)
    requires
        old_id@ != new_id@,
    ensures
        tree_model(*final(p)) == rep_pm(tree_model(*old(p)), old_id@, new_id@),
        n == capped(count_pm(tree_model(*old(p)), old_id@)),
{
    let mut t = PropTree::Opaque(0);
    std::mem::swap(&mut t, p);
    let (t2, n) = replace_owned(t, old_id, new_id);
    *p = t2;
    n
}

/// The top-level properties of a save, as values.
pub open spec fn props_model(v: Seq<(String, PropTree)>) -> Seq<(Seq<char>, PropModel)> {
    Seq::new(v.len(), |i: int| (v[i].0@, tree_model(v[i].1)))
}

/// The typed GUIDs equal to `g` in the top-level properties `ps`.
pub open spec fn count_props(ps: Seq<(Seq<char>, PropModel)>, g: Seq<u8>) -> nat
    decreases ps.len(),
{
    if ps.len() == 0 {
        0
    } else {
        count_props(ps.drop_last(), g) + count_pm(ps.last().1, g)
    }
}

/// The top-level properties `ps` with every typed GUID `o` replaced by `n`.
pub open spec fn rep_props(ps: Seq<(Seq<char>, PropModel)>, o: Seq<u8>, n: Seq<u8>) -> Seq<(Seq<char>, PropModel)> {
    Seq::new(ps.len(), |i: int| (ps[i].0, rep_pm(ps[i].1, o, n)))
}

/// Counts the typed GUIDs equal to `target` in a save's top-level properties.
pub fn count_guid_in_gvas(properties: &Vec<(String, PropTree)>, target: &[u8; 16]) -> (n: usize)
    ensures
        n == capped(count_props(props_model(properties@), target@)),
{
    let ghost m = props_model(properties@);
    let mut n: usize = 0;
    let mut i: usize = 0;
    while i < properties.len()
        invariant
            m == props_model(properties@),
            i <= properties@.len(),
            n == capped(count_props(m.take(i as int), target@)),
        decreases properties@.len() - i,
    {
        assert(m.take(i + 1).drop_last() =~= m.take(i as int));
        let c = count_guid_in_property(&properties[i].1, target);
        proof {
            lemma_capped_add(count_props(m.take(i as int), target@), count_pm(m[i as int].1, target@));
        }
        n = n.saturating_add(c);
        i = i + 1;
    }
    assert(m.take(properties@.len() as int) =~= m);
    n
}

/// Replaces every typed GUID `old` by `new` in a save's top-level
/// properties; returns the number replaced.
pub fn replace_guid_in_gvas(properties: &mut Vec<(String, PropTree)>, old_id: &[u8; 16], new_id: &[u8; 16]) -> (n: usize)
    requires
        old_id@ != new_id@,
    ensures
        props_model(final(properties)@) == rep_props(props_model(old(properties)@), old_id@, new_id@),
        n == capped(count_props(props_model(old(properties)@), old_id@)),
{
    let ghost m = props_model(properties@);
    let len = properties.len();
    let mut n: usize = 0;
    let mut i: usize = 0;
    while i < len
        invariant
            len == properties@.len(),
            len == m.len(),
            i <= len,
            old_id@ != new_id@,
            forall|j: int| 0 <= j < i ==> #[trigger] props_model(properties@)[j] == rep_props(m, old_id@, new_id@)[j],
            forall|j: int| i <= j < len ==> #[trigger] props_model(properties@)[j] == m[j],
            n == capped(count_props(m.take(i as int), old_id@)),
        decreases len - i,
    {
        assert(m.take(i + 1).drop_last() =~= m.take(i as int));
        assert(props_model(properties@)[i as int] == m[i as int]);
        let ghost before = properties@;
        let (name, mut t) = properties.remove(i);
        let c = replace_guid_in_property(&mut t, old_id, new_id);
        properties.insert(i, (name, t));
        assert(properties@ =~= before.update(i as int, (name, t)));
        assert forall|j: int| 0 <= j < len implies #[trigger] props_model(properties@)[j] == (if j == i { rep_props(m, old_id@, new_id@)[j] } else { props_model(before)[j] }) by {
            if j == i {
                assert(props_model(before)[j] == m[j]);
            }
        }
        proof {
            lemma_capped_add(count_props(m.take(i as int), old_id@), count_pm(m[i as int].1, old_id@));
        }
        n = n.saturating_add(c);
        i = i + 1;
    }
    assert(props_model(properties@) =~= rep_props(m, old_id@, new_id@));
    assert(m.take(len as int) =~= m);
    n
}

/// The temporary GUID tried for `marker`: `old` with its bytes 0, 7 and 15
/// XOR-ed with `0xA5`, `marker` and `0x5A`.
pub open spec fn temp_candidate(old: Seq<u8>, marker: int) -> Seq<u8> {
    old.update(0, old[0] ^ 0xA5u8).update(7, old[7] ^ (marker as u8)).update(15, old[15] ^ 0x5Au8)
}

/// The temporary GUID tried for `marker`, as an array (see `temp_candidate`).
pub open spec fn temp_array(old: [u8; 16], marker: int) -> [u8; 16] {
    [
        old[0] ^ 0xA5u8, old[1], old[2], old[3], old[4], old[5], old[6], old[7] ^ (marker as u8),
        old[8], old[9], old[10], old[11], old[12], old[13], old[14], old[15] ^ 0x5Au8,
    ]
}

fn candidate_guid(old: &[u8; 16], marker: u8) -> (c: [u8; 16])
    ensures
        c@ == temp_candidate(old@, marker as int),
        c == temp_array(*old, marker as int),
{
    let c = [
        old[0] ^ 0xA5, old[1], old[2], old[3], old[4], old[5], old[6], old[7] ^ marker,
        old[8], old[9], old[10], old[11], old[12], old[13], old[14], old[15] ^ 0x5A,
    ];
    assert(c@ =~= temp_candidate(old@, marker as int));
    c
}

/// The temporary GUID `a` was turned down: it is `old` or `new`, or
/// `is_unused` answered no for it.
pub open spec fn rejected_candidate<F: Fn(&[u8; 16]) -> bool>(is_unused: F, old: Seq<u8>, new: Seq<u8>, a: [u8; 16]) -> bool {
    a@ == old || a@ == new || is_unused.ensures((&a,), false)
}

/// Finds a temporary GUID that `is_unused` accepts: the first of the
/// candidates for markers 1 to 255 (see `temp_candidate`) that differs from
/// `old` and `new` and that `is_unused` accepts; fails when there is none.
pub fn find_unused_typed_guid<F: Fn(&[u8; 16]) -> bool>(is_unused: F, old: &[u8; 16], new: &[u8; 16]) -> (r: Result<[u8; 16], String>)
    requires
        forall|a: &[u8; 16]| is_unused.requires((a,)),
    ensures
        match r {
            Ok(c) => c@ != old@ && c@ != new@ && is_unused.ensures((&c,), true) && exists|k: int|
                1 <= k <= 255 && c == temp_array(*old, k) && c@ == temp_candidate(old@, k) && forall|k2: int|
                    1 <= k2 < k ==> rejected_candidate(is_unused, old@, new@, #[trigger] temp_array(*old, k2)),
            Err(_) => forall|k: int|
                1 <= k <= 255 ==> rejected_candidate(is_unused, old@, new@, #[trigger] temp_array(*old, k)),
        },
{
    let mut marker: u16 = 1;
    while marker <= 255
        invariant
            1 <= marker <= 256,
            forall|a: &[u8; 16]| is_unused.requires((a,)),
            forall|k2: int|
                1 <= k2 < marker ==> rejected_candidate(is_unused, old@, new@, #[trigger] temp_array(*old, k2)),
        decreases 256 - marker,
    {
        let candidate = candidate_guid(old, marker as u8);
        let differs = !crate::guid_bytes::guid_eq(&candidate, old) && !crate::guid_bytes::guid_eq(&candidate, new);
        if differs {
            if is_unused(&candidate) {
                return Ok(candidate);
            }
        }
        assert(rejected_candidate(is_unused, old@, new@, temp_array(*old, marker as int)));
        marker = marker + 1;
    }
    Err(String::from_str("无法生成安全的临时 GUID，已取消身份交换"))
}

proof fn lemma_temp_array_view(old: [u8; 16], k: int)
    ensures
        temp_array(old, k)@ == temp_candidate(old@, k),
{
    assert(temp_array(old, k)@ =~= temp_candidate(old@, k));
}

/// A marker whose temporary GUID is neither `old` nor `new` and occurs
/// nowhere in `ps` as a typed GUID.
pub open spec fn free_marker(ps: Seq<(Seq<char>, PropModel)>, old: Seq<u8>, new: Seq<u8>, k: int) -> bool {
    let c = temp_candidate(old, k);
    c != old && c != new && count_props(ps, c) == 0
}

/// The first free marker from `k` to 255.
pub open spec fn first_free_marker(ps: Seq<(Seq<char>, PropModel)>, old: Seq<u8>, new: Seq<u8>, k: int) -> Option<int>
    decreases 256 - k,
{
    if k < 1 || k > 255 {
        None
    } else if free_marker(ps, old, new, k) {
        Some(k)
    } else {
        first_free_marker(ps, old, new, k + 1)
    }
}

proof fn lemma_first_free_some(ps: Seq<(Seq<char>, PropModel)>, old: Seq<u8>, new: Seq<u8>, j: int, k: int)
    requires
        1 <= j <= k <= 255,
        free_marker(ps, old, new, k),
        forall|k2: int| j <= k2 < k ==> !free_marker(ps, old, new, k2),
    ensures
        first_free_marker(ps, old, new, j) == Some(k),
    decreases k - j,
{
    if j < k {
        lemma_first_free_some(ps, old, new, j + 1, k);
    }
}

proof fn lemma_first_free_none(ps: Seq<(Seq<char>, PropModel)>, old: Seq<u8>, new: Seq<u8>, j: int)
    requires
        1 <= j <= 256,
        forall|k2: int| j <= k2 <= 255 ==> !free_marker(ps, old, new, k2),
    ensures
        first_free_marker(ps, old, new, j) is None,
    decreases 256 - j,
{
    if j <= 255 {
        lemma_first_free_none(ps, old, new, j + 1);
    }
}

/// `ps` with the typed GUIDs `old` and `new` exchanged through the
/// temporary GUID `t`: `old` becomes `t`, then `new` becomes `old`, then `t`
/// becomes `new`.
pub open spec fn swapped_props(ps: Seq<(Seq<char>, PropModel)>, old: Seq<u8>, new: Seq<u8>, t: Seq<u8>) -> Seq<(Seq<char>, PropModel)> {
    rep_props(rep_props(rep_props(ps, old, t), new, old), t, new)
}

/// Exchanges the typed GUIDs `old_id` and `new_id` in a save's top-level
/// properties, through the first free temporary GUID (see
/// `first_free_marker`); returns how many of the two occurred. Nothing
/// changes when the two are equal, and the exchange is refused, with
/// nothing changed, when no temporary GUID is free.
pub fn swap_guids_in_gvas(properties: &mut Vec<(String, PropTree)>, old_id: &[u8; 16], new_id: &[u8; 16]) -> (r: Result<usize, String>)
    ensures
        old_id@ == new_id@ ==> r == Ok::<usize, String>(0) && final(properties)@ == old(properties)@,
        old_id@ != new_id@ ==> match first_free_marker(props_model(old(properties)@), old_id@, new_id@, 1) {
            Some(k) => r == Ok::<usize, String>(capped(
                count_props(props_model(old(properties)@), old_id@) + count_props(props_model(old(properties)@), new_id@),
            )) && props_model(final(properties)@) == swapped_props(
                props_model(old(properties)@),
                old_id@,
                new_id@,
                temp_candidate(old_id@, k),
            ),
            None => r is Err && final(properties)@ == old(properties)@,
        },
{
    if crate::guid_bytes::guid_eq(old_id, new_id) {
        return Ok(0);
    }
    let ghost m = props_model(properties@);
    let a = count_guid_in_gvas(properties, old_id);
    let b = count_guid_in_gvas(properties, new_id);
    proof {
        lemma_capped_add(count_props(m, old_id@), count_props(m, new_id@));
    }
    let changed = a.saturating_add(b);
    let snapshot: &Vec<(String, PropTree)> = properties;
    let is_unused = |c: &[u8; 16]| -> (u: bool)
        ensures
            u == (count_props(props_model(snapshot@), c@) == 0),
        { count_guid_in_gvas(snapshot, c) == 0 };
    let temp = match find_unused_typed_guid(is_unused, old_id, new_id) {
        Ok(t) => t,
        Err(e) => {
            proof {
                assert forall|k2: int| 1 <= k2 <= 255 implies !free_marker(m, old_id@, new_id@, k2) by {
                    lemma_temp_array_view(*old_id, k2);
                    assert(rejected_candidate(is_unused, old_id@, new_id@, temp_array(*old_id, k2)));
                }
                lemma_first_free_none(m, old_id@, new_id@, 1);
            }
            return Err(e);
        },
    };
    proof {
        let k = choose|k: int| 1 <= k <= 255 && temp == temp_array(*old_id, k) && temp@ == temp_candidate(old_id@, k) && forall|k2: int|
            1 <= k2 < k ==> rejected_candidate(is_unused, old_id@, new_id@, #[trigger] temp_array(*old_id, k2));
        assert forall|k2: int| 1 <= k2 < k implies !free_marker(m, old_id@, new_id@, k2) by {
            lemma_temp_array_view(*old_id, k2);
            assert(rejected_candidate(is_unused, old_id@, new_id@, temp_array(*old_id, k2)));
        }
        lemma_first_free_some(m, old_id@, new_id@, 1, k);
    }
    replace_guid_in_gvas(properties, old_id, &temp);
    replace_guid_in_gvas(properties, new_id, old_id);
    replace_guid_in_gvas(properties, &temp, new_id);
    Ok(changed)
}

/// A field whose value names the owner of something: its GUIDs are the
/// ones an owner exchange changes.
pub open spec fn owner_field(name: Seq<char>) -> bool {
    name == "OwnerPlayerUId"@ || name == "owner_player_uid"@ || name == "build_player_uid"@
        || name == "private_lock_player_uid"@
}

/// Whether `name` is that of an owner field (see `owner_field`).
pub fn is_owner_uid_field(name: &String) -> (r: bool)
    ensures
        r == owner_field(name@),
{
    let v = crate::text::chars_of(name.as_str());
    text_is(&v, "OwnerPlayerUId") || text_is(&v, "owner_player_uid") || text_is(&v, "build_player_uid")
        || text_is(&v, "private_lock_player_uid")
}

fn text_is(v: &Vec<char>, lit: &str) -> (r: bool)
    ensures
        r == (v@ == lit@),
{
    let w = crate::text::chars_of(lit);
    if v.len() != w.len() {
        return false;
    }
    let mut i: usize = 0;
    while i < v.len()
        invariant
            v@.len() == w@.len(),
            w@ == lit@,
            i <= v@.len(),
            forall|j: int| 0 <= j < i ==> v@[j] == w@[j],
        decreases v@.len() - i,
    {
        if v[i] != w[i] {
            return false;
        }
        i = i + 1;
    }
    assert(v@ =~= w@);
    true
}

/// The typed GUIDs equal to `g` under owner fields of the property `m`,
/// itself named `name`: all of them when `name` is an owner field, else
/// those under owner fields of its custom structs, arrays, sets, and map
/// keys and values.
pub open spec fn count_owner_pm(name: Seq<char>, m: PropModel, g: Seq<u8>) -> nat
    decreases m,
{
    if owner_field(name) {
        count_pm(m, g)
    } else {
        match m {
            PropModel::Struct(tn, h, v) => match v {
                StructModel::Custom(f) => count_owner_fm(f, g),
                _ => 0,
            },
            PropModel::Value(v) => match v {
                StructModel::Custom(f) => count_owner_fm(f, g),
                _ => 0,
            },
            PropModel::StructArray(h, s) => count_owner_sms(s, g),
            PropModel::PropArray(h, s) => count_owner_pms(Seq::empty(), s, g),
            PropModel::MapProp(h, es) => count_owner_ems(es, g),
            PropModel::SetProp(h, s) => count_owner_pms(Seq::empty(), s, g),
            PropModel::Bytes(_) => 0,
        PropModel::Enum(_, _) => 0,
        PropModel::Names(..) => 0,
        PropModel::Int(_) => 0,
        PropModel::Str(_) => 0,
        PropModel::Opaque(_) => 0,
        }
    }
}

/// Owner GUIDs equal to `g` in the properties `s`, each named `name`.
pub open spec fn count_owner_pms(name: Seq<char>, s: Seq<PropModel>, g: Seq<u8>) -> nat
    decreases s,
{
    if s.len() == 0 {
        0
    } else {
        count_owner_pm(name, s[0], g) + count_owner_pms(name, s.subrange(1, s.len() as int), g)
    }
}

/// Owner GUIDs equal to `g` in the fields `f`.
pub open spec fn count_owner_fm(f: Seq<(Seq<char>, Seq<PropModel>)>, g: Seq<u8>) -> nat
    decreases f,
{
    if f.len() == 0 {
        0
    } else {
        count_owner_pms(f[0].0, f[0].1, g) + count_owner_fm(f.subrange(1, f.len() as int), g)
    }
}

/// Owner GUIDs equal to `g` in the custom struct values of `s`.
pub open spec fn count_owner_sms(s: Seq<StructModel>, g: Seq<u8>) -> nat
    decreases s,
{
    if s.len() == 0 {
        0
    } else {
        (match s[0] {
            StructModel::Custom(f) => count_owner_fm(f, g),
            _ => 0,
        }) + count_owner_sms(s.subrange(1, s.len() as int), g)
    }
}

/// Owner GUIDs equal to `g` in the keys and values of `es`.
pub open spec fn count_owner_ems(es: Seq<(PropModel, PropModel)>, g: Seq<u8>) -> nat
    decreases es,
{
    if es.len() == 0 {
        0
    } else {
        count_owner_pm(Seq::empty(), es[0].0, g) + count_owner_pm(Seq::empty(), es[0].1, g)
            + count_owner_ems(es.subrange(1, es.len() as int), g)
    }
}

/// The property `m`, named `name`, with the typed GUIDs `o` under owner
/// fields replaced by `n`; map keys are left as they are.
pub open spec fn rep_owner_pm(name: Seq<char>, m: PropModel, o: Seq<u8>, n: Seq<u8>) -> PropModel
    decreases m,
{
    if owner_field(name) {
        rep_pm(m, o, n)
    } else {
        match m {
            PropModel::Struct(tn, h, v) => PropModel::Struct(tn, h, rep_owner_sm(v, o, n)),
            PropModel::Value(v) => PropModel::Value(rep_owner_sm(v, o, n)),
            PropModel::StructArray(h, s) => PropModel::StructArray(h, rep_owner_sms(s, o, n)),
            PropModel::PropArray(h, s) => PropModel::PropArray(h, rep_owner_pms(Seq::empty(), s, o, n)),
            PropModel::MapProp(h, es) => PropModel::MapProp(h, rep_owner_ems(es, o, n)),
            PropModel::SetProp(h, s) => PropModel::SetProp(h, rep_owner_pms(Seq::empty(), s, o, n)),
            PropModel::Bytes(b) => PropModel::Bytes(b),
        PropModel::Enum(h, v) => PropModel::Enum(h, v),
        PropModel::Names(h, ns) => PropModel::Names(h, ns),
        PropModel::Int(v) => PropModel::Int(v),
        PropModel::Str(v) => PropModel::Str(v),
        PropModel::Opaque(x) => PropModel::Opaque(x),
        }
    }
}

/// A struct value with the owner GUIDs of its custom fields replaced.
pub open spec fn rep_owner_sm(v: StructModel, o: Seq<u8>, n: Seq<u8>) -> StructModel
    decreases v,
{
    match v {
        StructModel::Custom(f) => StructModel::Custom(rep_owner_fms(f, o, n)),
        _ => v,
    }
}

pub open spec fn rep_owner_pms(name: Seq<char>, s: Seq<PropModel>, o: Seq<u8>, n: Seq<u8>) -> Seq<PropModel>
    decreases s,
{
    Seq::new(s.len(), |i: int| if 0 <= i < s.len() { rep_owner_pm(name, s[i], o, n) } else { PropModel::Opaque(0) })
}

pub open spec fn rep_owner_sms(s: Seq<StructModel>, o: Seq<u8>, n: Seq<u8>) -> Seq<StructModel>
    decreases s,
{
    Seq::new(s.len(), |i: int| if 0 <= i < s.len() { rep_owner_sm(s[i], o, n) } else { StructModel::Opaque(0) })
}

pub open spec fn rep_owner_fms(f: Seq<(Seq<char>, Seq<PropModel>)>, o: Seq<u8>, n: Seq<u8>) -> Seq<(Seq<char>, Seq<PropModel>)>
    decreases f,
{
    Seq::new(f.len(), |i: int| if 0 <= i < f.len() { (f[i].0, rep_owner_pms(f[i].0, f[i].1, o, n)) } else { (Seq::empty(), Seq::empty()) })
}

pub open spec fn rep_owner_ems(es: Seq<(PropModel, PropModel)>, o: Seq<u8>, n: Seq<u8>) -> Seq<(PropModel, PropModel)>
    decreases es,
{
    Seq::new(es.len(), |i: int| if 0 <= i < es.len() { (es[i].0, rep_owner_pm(Seq::empty(), es[i].1, o, n)) } else { (PropModel::Opaque(0), PropModel::Opaque(0)) })
}

/// The owner GUIDs `o` that `rep_owner_pm` replaces in `m`: those of
/// `count_owner_pm` outside map keys.
pub open spec fn owner_hits_pm(name: Seq<char>, m: PropModel, o: Seq<u8>) -> nat
    decreases m,
{
    if owner_field(name) {
        count_pm(m, o)
    } else {
        match m {
            PropModel::Struct(tn, h, v) => owner_hits_sm(v, o),
            PropModel::Value(v) => owner_hits_sm(v, o),
            PropModel::StructArray(h, s) => owner_hits_sms(s, o),
            PropModel::PropArray(h, s) => owner_hits_pms(Seq::empty(), s, o),
            PropModel::MapProp(h, es) => owner_hits_ems(es, o),
            PropModel::SetProp(h, s) => owner_hits_pms(Seq::empty(), s, o),
            PropModel::Bytes(_) => 0,
        PropModel::Enum(_, _) => 0,
        PropModel::Names(..) => 0,
        PropModel::Int(_) => 0,
        PropModel::Str(_) => 0,
        PropModel::Opaque(_) => 0,
        }
    }
}

pub open spec fn owner_hits_sm(v: StructModel, o: Seq<u8>) -> nat
    decreases v,
{
    match v {
        StructModel::Custom(f) => owner_hits_fm(f, o),
        _ => 0,
    }
}

pub open spec fn owner_hits_pms(name: Seq<char>, s: Seq<PropModel>, o: Seq<u8>) -> nat
    decreases s,
{
    if s.len() == 0 {
        0
    } else {
        owner_hits_pm(name, s[0], o) + owner_hits_pms(name, s.subrange(1, s.len() as int), o)
    }
}

pub open spec fn owner_hits_sms(s: Seq<StructModel>, o: Seq<u8>) -> nat
    decreases s,
{
    if s.len() == 0 {
        0
    } else {
        owner_hits_sm(s[0], o) + owner_hits_sms(s.subrange(1, s.len() as int), o)
    }
}

pub open spec fn owner_hits_fm(f: Seq<(Seq<char>, Seq<PropModel>)>, o: Seq<u8>) -> nat
    decreases f,
{
    if f.len() == 0 {
        0
    } else {
        owner_hits_pms(f[0].0, f[0].1, o) + owner_hits_fm(f.subrange(1, f.len() as int), o)
    }
}

pub open spec fn owner_hits_ems(es: Seq<(PropModel, PropModel)>, o: Seq<u8>) -> nat
    decreases es,
{
    if es.len() == 0 {
        0
    } else {
        owner_hits_pm(Seq::empty(), es[0].1, o) + owner_hits_ems(es.subrange(1, es.len() as int), o)
    }
}

/// Counts the typed GUIDs equal to `target` under owner fields of a
/// property named `name` (see `count_owner_pm`).
pub fn count_owner_guids_in_property(name: &String, p: &PropTree, target: &[u8; 16]) -> (n: usize)
    ensures
        n == capped(count_owner_pm(name@, tree_model(*p), target@)),
    decreases p,
{
    if is_owner_uid_field(name) {
        return count_guid_in_property(p, target);
    }
    let empty = String::new();
    match p {
        PropTree::Struct { value, .. } => match value {
            StructNode::Custom(f) => count_owner_in_fields(f, target),
            _ => 0,
        },
        PropTree::Value(value) => match value {
            StructNode::Custom(f) => count_owner_in_fields(f, target),
            _ => 0,
        },
        PropTree::StructArray { items, .. } => count_owner_in_structs(items, target),
        PropTree::PropArray { items, .. } => count_owner_in_trees(&empty, items, target),
        PropTree::MapProp { entries, .. } => count_owner_in_entries(entries, target),
        PropTree::SetProp { items, .. } => count_owner_in_trees(&empty, items, target),
        PropTree::Bytes(_) => 0,
        PropTree::Enum { .. } => 0,
        PropTree::Names { .. } => 0,
        PropTree::Int(_) => 0,
        PropTree::Str(_) => 0,
        PropTree::Opaque(_) => 0,
    }
}

fn count_owner_in_trees(name: &String, items: &Vec<PropTree>, target: &[u8; 16]) -> (n: usize)
    ensures
        n == capped(count_owner_pms(name@, trees_model(items@), target@)),
    decreases items,
{
    let len = items.len();
    let ghost m = trees_model(items@);
    let mut n: usize = 0;
    let ghost mut done: nat = 0;
    let mut i: usize = 0;
    assert(m.subrange(0, len as int) =~= m);
    while i < len
        invariant
            len == items@.len(),
            m == trees_model(items@),
            i <= len,
            n == capped(done),
            done + count_owner_pms(name@, m.subrange(i as int, len as int), target@) == count_owner_pms(name@, m, target@),
        decreases len - i,
    {
        let ghost rest = m.subrange(i as int, len as int);
        assert(rest.subrange(1, rest.len() as int) =~= m.subrange(i + 1, len as int));
        let c = count_owner_guids_in_property(name, &items[i], target);
        proof {
            lemma_capped_add(done, count_owner_pm(name@, rest[0], target@));
            done = done + count_owner_pm(name@, rest[0], target@);
        }
        n = n.saturating_add(c);
        i = i + 1;
    }
    n
}

fn count_owner_in_structs(items: &Vec<StructNode>, target: &[u8; 16]) -> (n: usize)
    ensures
        n == capped(count_owner_sms(structs_model(items@), target@)),
    decreases items,
{
    let len = items.len();
    let ghost m = structs_model(items@);
    let mut n: usize = 0;
    let ghost mut done: nat = 0;
    let mut i: usize = 0;
    assert(m.subrange(0, len as int) =~= m);
    while i < len
        invariant
            len == items@.len(),
            m == structs_model(items@),
            i <= len,
            n == capped(done),
            done + count_owner_sms(m.subrange(i as int, len as int), target@) == count_owner_sms(m, target@),
        decreases len - i,
    {
        let ghost rest = m.subrange(i as int, len as int);
        assert(rest.subrange(1, rest.len() as int) =~= m.subrange(i + 1, len as int));
        let ghost here: nat = match rest[0] {
            StructModel::Custom(f) => count_owner_fm(f, target@),
            _ => 0,
        };
        let c = match &items[i] {
            StructNode::Custom(f) => count_owner_in_fields(f, target),
            _ => 0,
        };
        proof {
            lemma_capped_add(done, here);
            done = done + here;
        }
        n = n.saturating_add(c);
        i = i + 1;
    }
    n
}

fn count_owner_in_fields(fields: &Vec<(String, Vec<PropTree>)>, target: &[u8; 16]) -> (n: usize)
    ensures
        n == capped(count_owner_fm(fields_model(fields@), target@)),
    decreases fields,
{
    let len = fields.len();
    let ghost m = fields_model(fields@);
    let mut n: usize = 0;
    let ghost mut done: nat = 0;
    let mut i: usize = 0;
    assert(m.subrange(0, len as int) =~= m);
    while i < len
        invariant
            len == fields@.len(),
            m == fields_model(fields@),
            i <= len,
            n == capped(done),
            done + count_owner_fm(m.subrange(i as int, len as int), target@) == count_owner_fm(m, target@),
        decreases len - i,
    {
        let ghost rest = m.subrange(i as int, len as int);
        assert(rest.subrange(1, rest.len() as int) =~= m.subrange(i + 1, len as int));
        let c = count_owner_in_trees(&fields[i].0, &fields[i].1, target);
        proof {
            lemma_capped_add(done, count_owner_pms(rest[0].0, rest[0].1, target@));
            done = done + count_owner_pms(rest[0].0, rest[0].1, target@);
        }
        n = n.saturating_add(c);
        i = i + 1;
    }
    n
}

fn count_owner_in_entries(entries: &Vec<(PropTree, PropTree)>, target: &[u8; 16]) -> (n: usize)
    ensures
        n == capped(count_owner_ems(entries_model(entries@), target@)),
    decreases entries,
{
    let len = entries.len();
    let ghost m = entries_model(entries@);
    let empty = String::new();
    let mut n: usize = 0;
    let ghost mut done: nat = 0;
    let mut i: usize = 0;
    assert(m.subrange(0, len as int) =~= m);
    while i < len
        invariant
            len == entries@.len(),
            m == entries_model(entries@),
            empty@ == Seq::<char>::empty(),
            i <= len,
            n == capped(done),
            done + count_owner_ems(m.subrange(i as int, len as int), target@) == count_owner_ems(m, target@),
        decreases len - i,
    {
        let ghost rest = m.subrange(i as int, len as int);
        assert(rest.subrange(1, rest.len() as int) =~= m.subrange(i + 1, len as int));
        let a = count_owner_guids_in_property(&empty, &entries[i].0, target);
        let b = count_owner_guids_in_property(&empty, &entries[i].1, target);
        let ghost here: nat = count_owner_pm(Seq::empty(), rest[0].0, target@) + count_owner_pm(Seq::empty(), rest[0].1, target@);
        proof {
            lemma_capped_add(count_owner_pm(Seq::empty(), rest[0].0, target@), count_owner_pm(Seq::empty(), rest[0].1, target@));
        }
        let c = a.saturating_add(b);
        proof {
            lemma_capped_add(done, here);
            done = done + here;
        }
        n = n.saturating_add(c);
        i = i + 1;
    }
    n
}

/// Replaces the typed GUIDs `old` under owner fields of a property named
/// `name` it takes (see `rep_owner_pm`); gives the property back with the
/// number replaced.
fn replace_owner_owned(name: &String, t: PropTree, old: &[u8; 16], new: &[u8; 16]) -> (r: (PropTree, usize))
    requires
        old@ != new@,
    ensures
        tree_model(r.0) == rep_owner_pm(name@, tree_model(t), old@, new@),
        r.1 == capped(owner_hits_pm(name@, tree_model(t), old@)),
    decreases tree_model(t),
{
    if is_owner_uid_field(name) {
        return replace_owned(t, old, new);
    }
    let empty = String::new();
    match t {
        PropTree::Struct { struct_type, header, value } => {
            let (v2, c) = replace_owner_in_struct(value, old, new);
            (PropTree::Struct { struct_type, header, value: v2 }, c)
        },
        PropTree::Value(v) => {
            let (v2, c) = replace_owner_in_struct(v, old, new);
            (PropTree::Value(v2), c)
        },
        PropTree::StructArray { header, items } => {
            let (items2, c) = replace_owner_in_structs(items, old, new);
            (PropTree::StructArray { header, items: items2 }, c)
        },
        PropTree::PropArray { header, items } => {
            let (items2, c) = replace_owner_in_trees(&empty, items, old, new);
            (PropTree::PropArray { header, items: items2 }, c)
        },
        PropTree::MapProp { header, entries } => {
            let (entries2, c) = replace_owner_in_entries(entries, old, new);
            (PropTree::MapProp { header, entries: entries2 }, c)
        },
        PropTree::SetProp { header, items } => {
            let (items2, c) = replace_owner_in_trees(&empty, items, old, new);
            (PropTree::SetProp { header, items: items2 }, c)
        },
        PropTree::Bytes(b) => (PropTree::Bytes(b), 0),
        PropTree::Enum { header, value } => (PropTree::Enum { header, value }, 0),
        PropTree::Names { header, names } => (PropTree::Names { header, names }, 0),
        PropTree::Int(v) => (PropTree::Int(v), 0),
        PropTree::Str(v) => (PropTree::Str(v), 0),
        PropTree::Opaque(x) => (PropTree::Opaque(x), 0),
    }
}

fn replace_owner_in_struct(v: StructNode, old: &[u8; 16], new: &[u8; 16]) -> (r: (StructNode, usize))
    requires
        old@ != new@,
    ensures
        struct_model(r.0) == rep_owner_sm(struct_model(v), old@, new@),
        r.1 == capped(owner_hits_sm(struct_model(v), old@)),
    decreases struct_model(v),
{
    match v {
        StructNode::Custom(f) => {
            let (f2, c) = replace_owner_in_fields(f, old, new);
            (StructNode::Custom(f2), c)
        },
        other => (other, 0),
    }
}

fn replace_owner_in_trees(name: &String, items: Vec<PropTree>, old: &[u8; 16], new: &[u8; 16]) -> (r: (Vec<PropTree>, usize))
    requires
        old@ != new@,
    ensures
        trees_model(r.0@) == rep_owner_pms(name@, trees_model(items@), old@, new@),
        r.1 == capped(owner_hits_pms(name@, trees_model(items@), old@)),
    decreases trees_model(items@),
{
    let ghost orig = items@;
    let ghost m = trees_model(orig);
    let len = items.len();
    let mut rest = items;
    let mut out: Vec<PropTree> = Vec::new();
    let mut total: usize = 0;
    let ghost mut done: nat = 0;
    let mut i: usize = 0;
    assert(m.subrange(0, len as int) =~= m);
    while i < len
        invariant
            len == orig.len(),
            orig == items@,
            m == trees_model(orig),
            i <= len,
            rest@ == orig.subrange(i as int, len as int),
            trees_model(out@) == rep_owner_pms(name@, m, old@, new@).take(i as int),
            total == capped(done),
            done + owner_hits_pms(name@, m.subrange(i as int, len as int), old@) == owner_hits_pms(name@, m, old@),
            old@ != new@,
        decreases len - i,
    {
        let ghost tail = m.subrange(i as int, len as int);
        assert(tail.subrange(1, tail.len() as int) =~= m.subrange(i + 1, len as int));
        let x = rest.remove(0);
        assert(x == orig[i as int]);
        proof {
            vstd::seq::axiom_seq_index_decreases(m, i as int);
        }
        assert(m[i as int] == tree_model(x));
        let (y, c) = replace_owner_owned(name, x, old, new);
        let ghost before = out@;
        out.push(y);
        assert(trees_model(out@) =~= trees_model(before).push(tree_model(y)));
        assert(rep_owner_pms(name@, m, old@, new@).take(i + 1) =~= rep_owner_pms(name@, m, old@, new@).take(i as int).push(rep_owner_pm(name@, m[i as int], old@, new@)));
        proof {
            lemma_capped_add(done, owner_hits_pm(name@, m[i as int], old@));
            done = done + owner_hits_pm(name@, m[i as int], old@);
        }
        total = total.saturating_add(c);
        i = i + 1;
    }
    assert(rep_owner_pms(name@, m, old@, new@).take(len as int) =~= rep_owner_pms(name@, m, old@, new@));
    (out, total)
}

fn replace_owner_in_structs(items: Vec<StructNode>, old: &[u8; 16], new: &[u8; 16]) -> (r: (Vec<StructNode>, usize))
    requires
        old@ != new@,
    ensures
        structs_model(r.0@) == rep_owner_sms(structs_model(items@), old@, new@),
        r.1 == capped(owner_hits_sms(structs_model(items@), old@)),
    decreases structs_model(items@),
{
    let ghost orig = items@;
    let ghost m = structs_model(orig);
    let len = items.len();
    let mut rest = items;
    let mut out: Vec<StructNode> = Vec::new();
    let mut total: usize = 0;
    let ghost mut done: nat = 0;
    let mut i: usize = 0;
    assert(m.subrange(0, len as int) =~= m);
    while i < len
        invariant
            len == orig.len(),
            orig == items@,
            m == structs_model(orig),
            i <= len,
            rest@ == orig.subrange(i as int, len as int),
            structs_model(out@) == rep_owner_sms(m, old@, new@).take(i as int),
            total == capped(done),
            done + owner_hits_sms(m.subrange(i as int, len as int), old@) == owner_hits_sms(m, old@),
            old@ != new@,
        decreases len - i,
    {
        let ghost tail = m.subrange(i as int, len as int);
        assert(tail.subrange(1, tail.len() as int) =~= m.subrange(i + 1, len as int));
        let x = rest.remove(0);
        assert(x == orig[i as int]);
        proof {
            vstd::seq::axiom_seq_index_decreases(m, i as int);
        }
        assert(m[i as int] == struct_model(x));
        let (y, c) = replace_owner_in_struct(x, old, new);
        let ghost before = out@;
        out.push(y);
        assert(structs_model(out@) =~= structs_model(before).push(struct_model(y)));
        assert(rep_owner_sms(m, old@, new@).take(i + 1) =~= rep_owner_sms(m, old@, new@).take(i as int).push(rep_owner_sm(m[i as int], old@, new@)));
        proof {
            lemma_capped_add(done, owner_hits_sm(m[i as int], old@));
            done = done + owner_hits_sm(m[i as int], old@);
        }
        total = total.saturating_add(c);
        i = i + 1;
    }
    assert(rep_owner_sms(m, old@, new@).take(len as int) =~= rep_owner_sms(m, old@, new@));
    (out, total)
}

fn replace_owner_in_fields(fields: Vec<(String, Vec<PropTree>)>, old: &[u8; 16], new: &[u8; 16]) -> (r: (Vec<(String, Vec<PropTree>)>, usize))
    requires
        old@ != new@,
    ensures
        fields_model(r.0@) == rep_owner_fms(fields_model(fields@), old@, new@),
        r.1 == capped(owner_hits_fm(fields_model(fields@), old@)),
    decreases fields_model(fields@),
{
    let ghost orig = fields@;
    let ghost m = fields_model(orig);
    let len = fields.len();
    let mut rest = fields;
    let mut out: Vec<(String, Vec<PropTree>)> = Vec::new();
    let mut total: usize = 0;
    let ghost mut done: nat = 0;
    let mut i: usize = 0;
    assert(m.subrange(0, len as int) =~= m);
    while i < len
        invariant
            len == orig.len(),
            orig == fields@,
            m == fields_model(orig),
            i <= len,
            rest@ == orig.subrange(i as int, len as int),
            fields_model(out@) == rep_owner_fms(m, old@, new@).take(i as int),
            total == capped(done),
            done + owner_hits_fm(m.subrange(i as int, len as int), old@) == owner_hits_fm(m, old@),
            old@ != new@,
        decreases len - i,
    {
        let ghost tail = m.subrange(i as int, len as int);
        assert(tail.subrange(1, tail.len() as int) =~= m.subrange(i + 1, len as int));
        let (name, props) = rest.remove(0);
        assert((name, props) == orig[i as int]);
        proof {
            vstd::seq::axiom_seq_index_decreases(m, i as int);
        }
        assert(m[i as int] == (name@, trees_model(props@)));
        assert(decreases_to!(m[i as int] => m[i as int].1));
        let (props2, c) = replace_owner_in_trees(&name, props, old, new);
        let ghost before = out@;
        out.push((name, props2));
        assert(fields_model(out@) =~= fields_model(before).push((name@, trees_model(props2@))));
        assert(rep_owner_fms(m, old@, new@).take(i + 1) =~= rep_owner_fms(m, old@, new@).take(i as int).push((m[i as int].0, rep_owner_pms(m[i as int].0, m[i as int].1, old@, new@))));
        proof {
            lemma_capped_add(done, owner_hits_pms(m[i as int].0, m[i as int].1, old@));
            done = done + owner_hits_pms(m[i as int].0, m[i as int].1, old@);
        }
        total = total.saturating_add(c);
        i = i + 1;
    }
    assert(rep_owner_fms(m, old@, new@).take(len as int) =~= rep_owner_fms(m, old@, new@));
    (out, total)
}

fn replace_owner_in_entries(entries: Vec<(PropTree, PropTree)>, old: &[u8; 16], new: &[u8; 16]) -> (r: (Vec<(PropTree, PropTree)>, usize))
    requires
        old@ != new@,
    ensures
        entries_model(r.0@) == rep_owner_ems(entries_model(entries@), old@, new@),
        r.1 == capped(owner_hits_ems(entries_model(entries@), old@)),
    decreases entries_model(entries@),
{
    let ghost orig = entries@;
    let ghost m = entries_model(orig);
    let len = entries.len();
    let empty = String::new();
    let mut rest = entries;
    let mut out: Vec<(PropTree, PropTree)> = Vec::new();
    let mut total: usize = 0;
    let ghost mut done: nat = 0;
    let mut i: usize = 0;
    assert(m.subrange(0, len as int) =~= m);
    while i < len
        invariant
            len == orig.len(),
            orig == entries@,
            m == entries_model(orig),
            empty@ == Seq::<char>::empty(),
            i <= len,
            rest@ == orig.subrange(i as int, len as int),
            entries_model(out@) == rep_owner_ems(m, old@, new@).take(i as int),
            total == capped(done),
            done + owner_hits_ems(m.subrange(i as int, len as int), old@) == owner_hits_ems(m, old@),
            old@ != new@,
        decreases len - i,
    {
        let ghost tail = m.subrange(i as int, len as int);
        assert(tail.subrange(1, tail.len() as int) =~= m.subrange(i + 1, len as int));
        let (k, v) = rest.remove(0);
        assert((k, v) == orig[i as int]);
        proof {
            vstd::seq::axiom_seq_index_decreases(m, i as int);
        }
        assert(m[i as int] == (tree_model(k), tree_model(v)));
        assert(decreases_to!(m[i as int] => m[i as int].1));
        let (v2, c) = replace_owner_owned(&empty, v, old, new);
        let ghost before = out@;
        out.push((k, v2));
        assert(entries_model(out@) =~= entries_model(before).push((tree_model(k), tree_model(v2))));
        assert(rep_owner_ems(m, old@, new@).take(i + 1) =~= rep_owner_ems(m, old@, new@).take(i as int).push((m[i as int].0, rep_owner_pm(Seq::empty(), m[i as int].1, old@, new@))));
        proof {
            lemma_capped_add(done, owner_hits_pm(Seq::empty(), m[i as int].1, old@));
            done = done + owner_hits_pm(Seq::empty(), m[i as int].1, old@);
        }
        total = total.saturating_add(c);
        i = i + 1;
    }
    assert(rep_owner_ems(m, old@, new@).take(len as int) =~= rep_owner_ems(m, old@, new@));
    (out, total)
}

/// Replaces the typed GUIDs `old_id` under owner fields of a property named
/// `name` by `new_id`, in place (see `rep_owner_pm`); returns the number
/// replaced.
pub fn replace_owner_guids_in_property(name: &String, p: &mut PropTree, old_id: &[u8; 16], new_id: &[u8; 16]) -> (n: usize)
    requires
        old_id@ != new_id@,
    ensures
        tree_model(*final(p)) == rep_owner_pm(name@, tree_model(*old(p)), old_id@, new_id@),
        n == capped(owner_hits_pm(name@, tree_model(*old(p)), old_id@)),
{
    let mut t = PropTree::Opaque(0);
    std::mem::swap(&mut t, p);
    let (t2, n) = replace_owner_owned(name, t, old_id, new_id);
    *p = t2;
    n
}

/// The owner GUIDs equal to `g` in the top-level properties `ps`.
pub open spec fn count_owner_props(ps: Seq<(Seq<char>, PropModel)>, g: Seq<u8>) -> nat
    decreases ps.len(),
{
    if ps.len() == 0 {
        0
    } else {
        count_owner_props(ps.drop_last(), g) + count_owner_pm(ps.last().0, ps.last().1, g)
    }
}

/// Counts the owner GUIDs equal to `target` in a save's top-level properties.
pub fn count_owner_guids_in_gvas(properties: &Vec<(String, PropTree)>, target: &[u8; 16]) -> (n: usize)
    ensures
        n == capped(count_owner_props(props_model(properties@), target@)),
{
    let ghost m = props_model(properties@);
    let mut n: usize = 0;
    let mut i: usize = 0;
    while i < properties.len()
        invariant
            m == props_model(properties@),
            i <= properties@.len(),
            n == capped(count_owner_props(m.take(i as int), target@)),
        decreases properties@.len() - i,
    {
        assert(m.take(i + 1).drop_last() =~= m.take(i as int));
        let c = count_owner_guids_in_property(&properties[i].0, &properties[i].1, target);
        proof {
            lemma_capped_add(count_owner_props(m.take(i as int), target@), count_owner_pm(m[i as int].0, m[i as int].1, target@));
        }
        n = n.saturating_add(c);
        i = i + 1;
    }
    assert(m.take(properties@.len() as int) =~= m);
    n
}

/// A marker whose temporary GUID is neither `old` nor `new` and occurs
/// under no owner field of `ps`.
pub open spec fn free_owner_marker(ps: Seq<(Seq<char>, PropModel)>, old: Seq<u8>, new: Seq<u8>, k: int) -> bool {
    let c = temp_candidate(old, k);
    c != old && c != new && count_owner_props(ps, c) == 0
}

/// The first free owner marker from `k` to 255.
pub open spec fn first_free_owner_marker(ps: Seq<(Seq<char>, PropModel)>, old: Seq<u8>, new: Seq<u8>, k: int) -> Option<int>
    decreases 256 - k,
{
    if k < 1 || k > 255 {
        None
    } else if free_owner_marker(ps, old, new, k) {
        Some(k)
    } else {
        first_free_owner_marker(ps, old, new, k + 1)
    }
}

proof fn lemma_first_free_owner_some(ps: Seq<(Seq<char>, PropModel)>, old: Seq<u8>, new: Seq<u8>, j: int, k: int)
    requires
        1 <= j <= k <= 255,
        free_owner_marker(ps, old, new, k),
        forall|k2: int| j <= k2 < k ==> !free_owner_marker(ps, old, new, k2),
    ensures
        first_free_owner_marker(ps, old, new, j) == Some(k),
    decreases k - j,
{
    if j < k {
        lemma_first_free_owner_some(ps, old, new, j + 1, k);
    }
}

proof fn lemma_first_free_owner_none(ps: Seq<(Seq<char>, PropModel)>, old: Seq<u8>, new: Seq<u8>, j: int)
    requires
        1 <= j <= 256,
        forall|k2: int| j <= k2 <= 255 ==> !free_owner_marker(ps, old, new, k2),
    ensures
        first_free_owner_marker(ps, old, new, j) is None,
    decreases 256 - j,
{
    if j <= 255 {
        lemma_first_free_owner_none(ps, old, new, j + 1);
    }
}

/// One top-level property with its owner GUIDs `old` and `new` exchanged
/// through `t`.
pub open spec fn owner_swapped(name: Seq<char>, m: PropModel, old: Seq<u8>, new: Seq<u8>, t: Seq<u8>) -> PropModel {
    rep_owner_pm(name, rep_owner_pm(name, rep_owner_pm(name, m, old, t), new, old), t, new)
}

/// The top-level properties with their owner GUIDs `old` and `new`
/// exchanged through `t`.
pub open spec fn owner_swapped_props(ps: Seq<(Seq<char>, PropModel)>, old: Seq<u8>, new: Seq<u8>, t: Seq<u8>) -> Seq<(Seq<char>, PropModel)> {
    Seq::new(ps.len(), |i: int| (ps[i].0, owner_swapped(ps[i].0, ps[i].1, old, new, t)))
}

/// Exchanges the owner GUIDs `old_id` and `new_id` (those under owner fields,
/// see `owner_field`) in a save's top-level properties, through the first
/// free temporary GUID; returns how many of the two occurred there. Nothing
/// changes when neither occurs, and the exchange is refused, with nothing
/// changed, when no temporary GUID is free.
pub fn swap_owner_guids_in_gvas(properties: &mut Vec<(String, PropTree)>, old_id: &[u8; 16], new_id: &[u8; 16]) -> (r: Result<usize, String>)
    ensures
        ({
            let m = props_model(old(properties)@);
            let changed = count_owner_props(m, old_id@) + count_owner_props(m, new_id@);
            if changed == 0 {
                r == Ok::<usize, String>(0) && final(properties)@ == old(properties)@
            } else {
                match first_free_owner_marker(m, old_id@, new_id@, 1) {
                    Some(k) => r == Ok::<usize, String>(capped(changed)) && if old_id@ == new_id@ {
                        final(properties)@ == old(properties)@
                    } else {
                        props_model(final(properties)@) == owner_swapped_props(m, old_id@, new_id@, temp_candidate(old_id@, k))
                    },
                    None => r is Err && final(properties)@ == old(properties)@,
                }
            }
        }),
{
    let ghost m = props_model(properties@);
    let a = count_owner_guids_in_gvas(properties, old_id);
    let b = count_owner_guids_in_gvas(properties, new_id);
    proof {
        lemma_capped_add(count_owner_props(m, old_id@), count_owner_props(m, new_id@));
    }
    let changed = a.saturating_add(b);
    if changed == 0 {
        return Ok(0);
    }
    let snapshot: &Vec<(String, PropTree)> = properties;
    let is_unused = |c: &[u8; 16]| -> (u: bool)
        ensures
            u == (count_owner_props(props_model(snapshot@), c@) == 0),
        { count_owner_guids_in_gvas(snapshot, c) == 0 };
    let temp = match find_unused_typed_guid(is_unused, old_id, new_id) {
        Ok(t) => t,
        Err(e) => {
            proof {
                assert forall|k2: int| 1 <= k2 <= 255 implies !free_owner_marker(m, old_id@, new_id@, k2) by {
                    lemma_temp_array_view(*old_id, k2);
                    assert(rejected_candidate(is_unused, old_id@, new_id@, temp_array(*old_id, k2)));
                }
                lemma_first_free_owner_none(m, old_id@, new_id@, 1);
            }
            return Err(e);
        },
    };
    proof {
        let k = choose|k: int| 1 <= k <= 255 && temp == temp_array(*old_id, k) && temp@ == temp_candidate(old_id@, k) && forall|k2: int|
            1 <= k2 < k ==> rejected_candidate(is_unused, old_id@, new_id@, #[trigger] temp_array(*old_id, k2));
        assert forall|k2: int| 1 <= k2 < k implies !free_owner_marker(m, old_id@, new_id@, k2) by {
            lemma_temp_array_view(*old_id, k2);
            assert(rejected_candidate(is_unused, old_id@, new_id@, temp_array(*old_id, k2)));
        }
        lemma_first_free_owner_some(m, old_id@, new_id@, 1, k);
    }
    if crate::guid_bytes::guid_eq(old_id, new_id) {
        return Ok(changed);
    }
    let len = properties.len();
    let mut i: usize = 0;
    while i < len
        invariant
            len == properties@.len(),
            len == m.len(),
            i <= len,
            old_id@ != new_id@,
            temp@ != old_id@,
            temp@ != new_id@,
            forall|j: int| 0 <= j < i ==> #[trigger] props_model(properties@)[j] == owner_swapped_props(m, old_id@, new_id@, temp@)[j],
            forall|j: int| i <= j < len ==> #[trigger] props_model(properties@)[j] == m[j],
        decreases len - i,
    {
        assert(props_model(properties@)[i as int] == m[i as int]);
        let ghost before = properties@;
        let (name, mut t) = properties.remove(i);
        replace_owner_guids_in_property(&name, &mut t, old_id, &temp);
        replace_owner_guids_in_property(&name, &mut t, new_id, old_id);
        replace_owner_guids_in_property(&name, &mut t, &temp, new_id);
        properties.insert(i, (name, t));
        assert(properties@ =~= before.update(i as int, (name, t)));
        assert forall|j: int| 0 <= j < len implies #[trigger] props_model(properties@)[j] == (if j == i { owner_swapped_props(m, old_id@, new_id@, temp@)[j] } else { props_model(before)[j] }) by {
            if j == i {
                assert(props_model(before)[j] == m[j]);
            }
        }
        i = i + 1;
    }
    assert(props_model(properties@) =~= owner_swapped_props(m, old_id@, new_id@, temp@));
    Ok(changed)
}


/// A copy of the bytes `b`.
fn copy_bytes(b: &[u8]) -> (r: Vec<u8>)
    ensures
        r@ == b@,
{
    let mut v: Vec<u8> = Vec::new();
    v.extend_from_slice(b);
    assert(v@ =~= b@);
    v
}

/// What a swap of the owner GUIDs `o` and `n` that changed `c` of them did:
/// the properties `m2` are `m` with the two exchanged through the first free
/// temporary marker, and `c` counts the owner GUIDs `o` and `n` of `m`.
pub open spec fn owner_swap_done(m: Seq<(Seq<char>, PropModel)>, m2: Seq<(Seq<char>, PropModel)>, o: Seq<u8>, n: Seq<u8>, c: usize) -> bool {
    let changed = count_owner_props(m, o) + count_owner_props(m, n);
    &&& changed > 0
    &&& c == capped(changed)
    &&& first_free_owner_marker(m, o, n, 1) matches Some(k) && m2 == owner_swapped_props(m, o, n, temp_candidate(o, k))
}

/// Where an error of an owner swap in a property stream comes from: the
/// reader, the swap's own refusal, or the writer.
pub open spec fn stream_error_from<R, W>(bytes: Seq<u8>, o: Seq<u8>, n: Seq<u8>, read_stream: R, write_stream: W, e: String) -> bool where
    R: FnOnce(Vec<u8>) -> Result<(Vec<(String, PropTree)>, Vec<u8>), String>,
    W: FnOnce(Vec<(String, PropTree)>, Vec<u8>) -> Result<Vec<u8>, String>,
{
    ||| exists|v: Vec<u8>| v@ == bytes && #[trigger] call_ensures(read_stream, (v,), Err::<(Vec<(String, PropTree)>, Vec<u8>), String>(e))
    ||| exists|v: Vec<u8>, ps: Vec<(String, PropTree)>, tail: Vec<u8>|
        v@ == bytes && #[trigger] call_ensures(read_stream, (v,), Ok::<(Vec<(String, PropTree)>, Vec<u8>), String>((ps, tail)))
        && owner_swap_refused(props_model(ps@), o, n)
    ||| exists|ps2: Vec<(String, PropTree)>, tail: Vec<u8>| #[trigger] call_ensures(write_stream, (ps2, tail), Err::<Vec<u8>, String>(e))
}

/// A swap of the owner GUIDs `o` and `n` in `m` is refused: there is
/// something to swap, and no temporary marker is free.
pub open spec fn owner_swap_refused(m: Seq<(Seq<char>, PropModel)>, o: Seq<u8>, n: Seq<u8>) -> bool {
    count_owner_props(m, o) + count_owner_props(m, n) > 0 && first_free_owner_marker(m, o, n, 1) is None
}

/// Exchanges the owner GUIDs `old_id` and `new_id` inside a character's
/// property stream `bytes` (see `swap_owner_guids_in_gvas`): `read_stream`
/// reads the stream into its properties and the bytes after them, and
/// `write_stream` writes them back. Equal ids, or a stream holding neither,
/// give the bytes back as they were, with a count of 0.
pub fn swap_owner_guids_in_character_property_stream<R, W>(
    bytes: &[u8],
    old_id: &[u8; 16],
    new_id: &[u8; 16],
    read_stream: R,
    write_stream: W,
) -> (r: Result<(Vec<u8>, usize), String>) where
    R: FnOnce(Vec<u8>) -> Result<(Vec<(String, PropTree)>, Vec<u8>), String>,
    W: FnOnce(Vec<(String, PropTree)>, Vec<u8>) -> Result<Vec<u8>, String>,

    requires
        forall|v: Vec<u8>| call_requires(read_stream, (v,)),
        forall|ps: Vec<(String, PropTree)>, t: Vec<u8>| call_requires(write_stream, (ps, t)),
    ensures
        old_id@ == new_id@ ==> (r matches Ok((b, c)) && b@ == bytes@ && c == 0),
        r matches Ok((b, c)) ==> (c == 0 ==> b@ == bytes@),
        old_id@ != new_id@ ==> (r matches Ok((_, c)) ==> (c == 0 ==> exists|v: Vec<u8>, ps: Vec<(String, PropTree)>, tail: Vec<u8>|
            {
                &&& v@ == bytes@
                &&& #[trigger] call_ensures(read_stream, (v,), Ok::<(Vec<(String, PropTree)>, Vec<u8>), String>((ps, tail)))
                &&& count_owner_props(props_model(ps@), old_id@) + count_owner_props(props_model(ps@), new_id@) == 0
            })),
        r matches Ok((b, c)) ==> (c > 0 ==> exists|v: Vec<u8>, ps: Vec<(String, PropTree)>, tail: Vec<u8>, ps2: Vec<(String, PropTree)>|
            {
                &&& v@ == bytes@
                &&& call_ensures(read_stream, (v,), Ok::<(Vec<(String, PropTree)>, Vec<u8>), String>((ps, tail)))
                &&& owner_swap_done(props_model(ps@), props_model(ps2@), old_id@, new_id@, c)
                &&& call_ensures(write_stream, (ps2, tail), Ok::<Vec<u8>, String>(b))
            }),
        r is Err ==> stream_error_from(bytes@, old_id@, new_id@, read_stream, write_stream, r->Err_0),
{
    if crate::guid_bytes::guid_eq(old_id, new_id) {
        let out = copy_bytes(bytes);
        return Ok((out, 0));
    }
    let v = copy_bytes(bytes);
    let ghost vg = v;
    let (mut props, tail) = match read_stream(v) {
        Ok(x) => x,
        Err(e) => {
            proof {
                assert(call_ensures(read_stream, (vg,), Err::<(Vec<(String, PropTree)>, Vec<u8>), String>(e)));
                assert(exists|v: Vec<u8>| v@ == bytes@ && #[trigger] call_ensures(read_stream, (v,), Err::<(Vec<(String, PropTree)>, Vec<u8>), String>(e)));
            }
            return Err(e);
        },
    };
    let ghost ps0 = props;
    let ghost tailg = tail;
    proof {
        assert(call_ensures(read_stream, (vg,), Ok::<(Vec<(String, PropTree)>, Vec<u8>), String>((ps0, tailg))));
    }
    let swapped = swap_owner_guids_in_gvas(&mut props, old_id, new_id);
    let changed = match swapped {
        Ok(c) => c,
        Err(e) => {
            proof {
                assert(owner_swap_refused(props_model(ps0@), old_id@, new_id@));
                assert(exists|v: Vec<u8>, ps: Vec<(String, PropTree)>, tail: Vec<u8>|
                    v@ == bytes@ && #[trigger] call_ensures(read_stream, (v,), Ok::<(Vec<(String, PropTree)>, Vec<u8>), String>((ps, tail)))
                    && owner_swap_refused(props_model(ps@), old_id@, new_id@));
            }
            return Err(e);
        },
    };
    if changed == 0 {
        proof {
            let m = props_model(ps0@);
            assert(count_owner_props(m, old_id@) + count_owner_props(m, new_id@) == 0);
        }
        let out = copy_bytes(bytes);
        return Ok((out, 0));
    }
    let ghost ps2 = props;
    let written = write_stream(props, tail);
    match written {
        Ok(b) => {
            proof {
                assert(call_ensures(read_stream, (vg,), Ok::<(Vec<(String, PropTree)>, Vec<u8>), String>((ps0, tailg))));
                assert(call_ensures(write_stream, (ps2, tailg), Ok::<Vec<u8>, String>(b)));
            }
            Ok((b, changed))
        },
        Err(e) => {
            proof {
                assert(call_ensures(write_stream, (ps2, tailg), Err::<Vec<u8>, String>(e)));
                assert(exists|p2: Vec<(String, PropTree)>, t2: Vec<u8>| #[trigger] call_ensures(write_stream, (p2, t2), Err::<Vec<u8>, String>(e)));
            }
            Err(e)
        },
    }
}

} // verus!
