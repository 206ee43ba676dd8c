//! Unlocking every technology of a player: each reference asset that the
//! player's `UnlockedRecipeTechnologyNames` lists lack is appended to them,
//! wherever such a list stands in the player's properties.

use vstd::prelude::*;
use crate::identity::text_is;
use crate::prop_tree::{
    capped, entries_model, fields_model, lemma_capped_add, names_model, props_model, struct_model, structs_model,
    tree_model, trees_model, PropModel, PropTree, StructModel, StructNode,
};

verus! {

/// The name of the field that lists a player's unlocked technologies.
pub open spec fn unlock_field() -> Seq<char> {
    "UnlockedRecipeTechnologyNames"@
}

/// The texts of a list of assets.
pub open spec fn assets_model(a: Seq<String>) -> Seq<Seq<char>> {
    Seq::new(a.len(), |i: int| a[i]@)
}

/// `names` with the asset `x` appended unless it is already listed.
pub open spec fn with_asset(names: Seq<Option<Seq<char>>>, x: Seq<char>) -> Seq<Option<Seq<char>>> {
    if names.contains(Some(x)) {
        names
    } else {
        names.push(Some(x))
    }
}

/// `names` with the assets `a` appended in order, each unless it is listed
/// by then.
pub open spec fn merged(names: Seq<Option<Seq<char>>>, a: Seq<Seq<char>>) -> Seq<Option<Seq<char>>>
    decreases a.len(),
{
    if a.len() == 0 {
        names
    } else {
        with_asset(merged(names, a.drop_last()), a.last())
    }
}

/// The property `m` after the merge; `named` tells whether it is a value
/// of the field `UnlockedRecipeTechnologyNames`. Only a name or string
/// array standing there changes; the merge goes on into struct fields
/// (under their own names), arrays, map values and sets.
pub open spec fn unlock_pm(named: bool, m: PropModel, a: Seq<Seq<char>>) -> PropModel
    decreases m,
{
    match m {
        PropModel::Struct(tn, h, v) => PropModel::Struct(tn, h, unlock_sm(v, a)),
        PropModel::Value(v) => PropModel::Value(unlock_sm(v, a)),
        PropModel::StructArray(h, s) => PropModel::StructArray(h, unlock_sms(s, a)),
        PropModel::PropArray(h, s) => PropModel::PropArray(h, unlock_pms(false, s, a)),
        PropModel::MapProp(h, es) => PropModel::MapProp(h, unlock_ems(es, a)),
        PropModel::SetProp(h, s) => PropModel::SetProp(h, unlock_pms(false, s, a)),
        PropModel::Names(h, ns) => if named {
            PropModel::Names(h, merged(ns, a))
        } else {
            PropModel::Names(h, ns)
        },
        _ => m,
    }
}

/// The struct value `v` after the merge.
pub open spec fn unlock_sm(v: StructModel, a: Seq<Seq<char>>) -> StructModel
    decreases v,
{
    match v {
        StructModel::Custom(f) => StructModel::Custom(unlock_fms(f, a)),
        _ => v,
    }
}

/// The properties `s` after the merge.
pub open spec fn unlock_pms(named: bool, s: Seq<PropModel>, a: Seq<Seq<char>>) -> Seq<PropModel>
    decreases s,
{
    Seq::new(s.len(), |i: int| if 0 <= i < s.len() { unlock_pm(named, s[i], a) } else { PropModel::Opaque(0) })
}

/// The struct values `s` after the merge.
pub open spec fn unlock_sms(s: Seq<StructModel>, a: Seq<Seq<char>>) -> Seq<StructModel>
    decreases s,
{
    Seq::new(s.len(), |i: int| if 0 <= i < s.len() { unlock_sm(s[i], a) } else { StructModel::Opaque(0) })
}

/// The fields `f` after the merge.
pub open spec fn unlock_fms(f: Seq<(Seq<char>, Seq<PropModel>)>, a: Seq<Seq<char>>) -> Seq<(Seq<char>, Seq<PropModel>)>
    decreases f,
{
    Seq::new(
        f.len(),
        |i: int| if 0 <= i < f.len() { (f[i].0, unlock_pms(f[i].0 == unlock_field(), f[i].1, a)) } else { (Seq::empty(), Seq::empty()) },
    )
}

/// The map entries `es` after the merge: keys as they were, values merged.
pub open spec fn unlock_ems(es: Seq<(PropModel, PropModel)>, a: Seq<Seq<char>>) -> Seq<(PropModel, PropModel)>
    decreases es,
{
    Seq::new(
        es.len(),
        |i: int| if 0 <= i < es.len() { (es[i].0, unlock_pm(false, es[i].1, a)) } else { (PropModel::Opaque(0), PropModel::Opaque(0)) },
    )
}

/// How many name or string arrays of `UnlockedRecipeTechnologyNames` the
/// property `m` holds.
pub open spec fn hits_pm(named: bool, m: PropModel) -> nat
    decreases m,
{
    match m {
        PropModel::Struct(tn, h, v) => hits_sm(v),
        PropModel::Value(v) => hits_sm(v),
        PropModel::StructArray(h, s) => hits_sms(s),
        PropModel::PropArray(h, s) => hits_pms(false, s),
        PropModel::MapProp(h, es) => hits_ems(es),
        PropModel::SetProp(h, s) => hits_pms(false, s),
        PropModel::Names(h, ns) => if named {
            1
        } else {
            0
        },
        _ => 0,
    }
}

/// The hits in the struct value `v`.
pub open spec fn hits_sm(v: StructModel) -> nat
    decreases v,
{
    match v {
        StructModel::Custom(f) => hits_fms(f),
        _ => 0,
    }
}

/// The hits in the properties `s`.
pub open spec fn hits_pms(named: bool, s: Seq<PropModel>) -> nat
    decreases s,
{
    if s.len() == 0 {
        0
    } else {
        hits_pm(named, s[0]) + hits_pms(named, s.subrange(1, s.len() as int))
    }
}

/// The hits in the struct values `s`.
pub open spec fn hits_sms(s: Seq<StructModel>) -> nat
    decreases s,
{
    if s.len() == 0 {
        0
    } else {
        hits_sm(s[0]) + hits_sms(s.subrange(1, s.len() as int))
    }
}

/// The hits in the fields `f`.
pub open spec fn hits_fms(f: Seq<(Seq<char>, Seq<PropModel>)>) -> nat
    decreases f,
{
    if f.len() == 0 {
        0
    } else {
        hits_pms(f[0].0 == unlock_field(), f[0].1) + hits_fms(f.subrange(1, f.len() as int))
    }
}

/// The hits in the values of the map entries `es`.
pub open spec fn hits_ems(es: Seq<(PropModel, PropModel)>) -> nat
    decreases es,
{
    if es.len() == 0 {
        0
    } else {
        hits_pm(false, es[0].1) + hits_ems(es.subrange(1, es.len() as int))
    }
}

/// Whether `names` lists the asset `x`.
fn lists(names: &Vec<Option<String>>, x: &String) -> (r: bool)
    ensures
        r == names_model(names@).contains(Some(x@)),
{
    let ghost m = names_model(names@);
    let mut i: usize = 0;
    while i < names.len()
        invariant
            m == names_model(names@),
            i <= names@.len(),
            forall|k: int| 0 <= k < i ==> m[k] != Some(x@),
        decreases names@.len() - i,
    {
        match &names[i] {
            Some(n) => {
                if *n == *x {
                    assert(m[i as int] == Some(x@));
                    return true;
                }
            },
            None => {},
        }
        assert(m[i as int] != Some(x@));
        i = i + 1;
    }
    proof {
        if m.contains(Some(x@)) {
            let k = choose|k: int| 0 <= k < m.len() && m[k] == Some(x@);
            assert(m[k] != Some(x@));
        }
    }
    false
}

/// Appends to `names`, in order, each asset of `assets` that it does not
/// list by then.
pub fn merge_names(names: &mut Vec<Option<String>>, assets: &[String])
    ensures
        names_model(final(names)@) == merged(names_model(old(names)@), assets_model(assets@)),
{
    let ghost n0 = names_model(names@);
    let ghost a = assets_model(assets@);
    let mut i: usize = 0;
    assert(a.take(0) =~= Seq::<Seq<char>>::empty());
    while i < assets.len()
        invariant
            i <= assets@.len(),
            a == assets_model(assets@),
            names_model(names@) == merged(n0, a.take(i as int)),
        decreases assets@.len() - i,
    {
        assert(a.take(i + 1).drop_last() =~= a.take(i as int));
        assert(a.take(i + 1).last() == assets@[i as int]@);
        let ghost before = names@;
        if !lists(names, &assets[i]) {
            names.push(Some(assets[i].clone()));
            assert(names_model(names@) =~= names_model(before).push(Some(assets@[i as int]@)));
        }
        i = i + 1;
    }
    assert(a.take(assets@.len() as int) =~= a);
}

/// Merges the assets into a property it takes, giving it back with the
/// number of technology lists it met (see `unlock_pm`, `hits_pm`).
fn unlock_owned(named: bool, t: PropTree, assets: &[String]) -> (r: (PropTree, usize))
    ensures
        tree_model(r.0) == unlock_pm(named, tree_model(t), assets_model(assets@)),
        r.1 == capped(hits_pm(named, tree_model(t))),
    decreases tree_model(t),
{
    match t {
        PropTree::Struct { struct_type, header, value } => {
            let (v2, c) = unlock_in_struct(value, assets);
            (PropTree::Struct { struct_type, header, value: v2 }, c)
        },
        PropTree::Value(v) => {
            let (v2, c) = unlock_in_struct(v, assets);
            (PropTree::Value(v2), c)
        },
        PropTree::StructArray { header, items } => {
            let (items2, c) = unlock_in_structs(items, assets);
            (PropTree::StructArray { header, items: items2 }, c)
        },
        PropTree::PropArray { header, items } => {
            let (items2, c) = unlock_in_trees(false, items, assets);
            (PropTree::PropArray { header, items: items2 }, c)
        },
        PropTree::MapProp { header, entries } => {
            let (entries2, c) = unlock_in_entries(entries, assets);
            (PropTree::MapProp { header, entries: entries2 }, c)
        },
        PropTree::SetProp { header, items } => {
            let (items2, c) = unlock_in_trees(false, items, assets);
            (PropTree::SetProp { header, items: items2 }, c)
        },
        PropTree::Names { header, names } => {
            if named {
                let mut names = names;
                merge_names(&mut names, assets);
                (PropTree::Names { header, names }, 1)
            } else {
                (PropTree::Names { header, names }, 0)
            }
        },
        PropTree::Bytes(b) => (PropTree::Bytes(b), 0),
        PropTree::Enum { header, value } => (PropTree::Enum { header, value }, 0),
        PropTree::Int(v) => (PropTree::Int(v), 0),
        PropTree::Str(v) => (PropTree::Str(v), 0),
        PropTree::Opaque(x) => (PropTree::Opaque(x), 0),
    }
}

fn unlock_in_struct(v: StructNode, assets: &[String]) -> (r: (StructNode, usize))
    ensures
        struct_model(r.0) == unlock_sm(struct_model(v), assets_model(assets@)),
        r.1 == capped(hits_sm(struct_model(v))),
    decreases struct_model(v),
{
    match v {
        StructNode::Custom(f) => {
            let (f2, c) = unlock_in_fields(f, assets);
            (StructNode::Custom(f2), c)
        },
        other => (other, 0),
    }
}

fn unlock_in_structs(items: Vec<StructNode>, assets: &[String]) -> (r: (Vec<StructNode>, usize))
    ensures
        structs_model(r.0@) == unlock_sms(structs_model(items@), assets_model(assets@)),
        r.1 == capped(hits_sms(structs_model(items@))),
    decreases structs_model(items@),
{
    let ghost orig = items@;
    let ghost m = structs_model(orig);
    let ghost a = assets_model(assets@);
    let len = items.len();
    let mut rest = items;
    let mut out: Vec<StructNode> = Vec::new();
    let mut total: usize = 0;
    let ghost mut done: nat = 0;
    let mut i: usize = 0;
    assert(m.subrange(0, len as int) =~= m);
    while i < len
        invariant
            len == orig.len(),
            orig == items@,
            m == structs_model(orig),
            a == assets_model(assets@),
            i <= len,
            rest@ == orig.subrange(i as int, len as int),
            structs_model(out@) == unlock_sms(m, a).take(i as int),
            total == capped(done),
            done + hits_sms(m.subrange(i as int, len as int)) == hits_sms(m),
        decreases len - i,
    {
        let ghost tail = m.subrange(i as int, len as int);
        assert(tail.subrange(1, tail.len() as int) =~= m.subrange(i + 1, len as int));
        let x = rest.remove(0);
        assert(x == orig[i as int]);
        proof {
            vstd::seq::axiom_seq_index_decreases(m, i as int);
        }
        assert(m[i as int] == struct_model(x));
        let (y, c) = unlock_in_struct(x, assets);
        let ghost before = out@;
        out.push(y);
        assert(structs_model(out@) =~= structs_model(before).push(struct_model(y)));
        assert(unlock_sms(m, a).take(i + 1) =~= unlock_sms(m, a).take(i as int).push(unlock_sm(m[i as int], a)));
        proof {
            lemma_capped_add(done, hits_sm(m[i as int]));
            done = done + hits_sm(m[i as int]);
        }
        total = total.saturating_add(c);
        i = i + 1;
    }
    assert(unlock_sms(m, a).take(len as int) =~= unlock_sms(m, a));
    (out, total)
}

fn unlock_in_trees(named: bool, items: Vec<PropTree>, assets: &[String]) -> (r: (Vec<PropTree>, usize))
    ensures
        trees_model(r.0@) == unlock_pms(named, trees_model(items@), assets_model(assets@)),
        r.1 == capped(hits_pms(named, trees_model(items@))),
    decreases trees_model(items@),
{
    let ghost orig = items@;
    let ghost m = trees_model(orig);
    let ghost a = assets_model(assets@);
    let len = items.len();
    let mut rest = items;
    let mut out: Vec<PropTree> = Vec::new();
    let mut total: usize = 0;
    let ghost mut done: nat = 0;
    let mut i: usize = 0;
    assert(m.subrange(0, len as int) =~= m);
    while i < len
        invariant
            len == orig.len(),
            orig == items@,
            m == trees_model(orig),
            a == assets_model(assets@),
            i <= len,
            rest@ == orig.subrange(i as int, len as int),
            trees_model(out@) == unlock_pms(named, m, a).take(i as int),
            total == capped(done),
            done + hits_pms(named, m.subrange(i as int, len as int)) == hits_pms(named, m),
        decreases len - i,
    {
        let ghost tail = m.subrange(i as int, len as int);
        assert(tail.subrange(1, tail.len() as int) =~= m.subrange(i + 1, len as int));
        let x = rest.remove(0);
        assert(x == orig[i as int]);
        proof {
            vstd::seq::axiom_seq_index_decreases(m, i as int);
        }
        assert(m[i as int] == tree_model(x));
        let (y, c) = unlock_owned(named, x, assets);
        let ghost before = out@;
        out.push(y);
        assert(trees_model(out@) =~= trees_model(before).push(tree_model(y)));
        assert(unlock_pms(named, m, a).take(i + 1) =~= unlock_pms(named, m, a).take(i as int).push(unlock_pm(named, m[i as int], a)));
        proof {
            lemma_capped_add(done, hits_pm(named, m[i as int]));
            done = done + hits_pm(named, m[i as int]);
        }
        total = total.saturating_add(c);
        i = i + 1;
    }
    assert(unlock_pms(named, m, a).take(len as int) =~= unlock_pms(named, m, a));
    (out, total)
}

fn unlock_in_fields(fields: Vec<(String, Vec<PropTree>)>, assets: &[String]) -> (r: (Vec<(String, Vec<PropTree>)>, usize))
    ensures
        fields_model(r.0@) == unlock_fms(fields_model(fields@), assets_model(assets@)),
        r.1 == capped(hits_fms(fields_model(fields@))),
    decreases fields_model(fields@),
{
    let ghost orig = fields@;
    let ghost m = fields_model(orig);
    let ghost a = assets_model(assets@);
    let len = fields.len();
    let mut rest = fields;
    let mut out: Vec<(String, Vec<PropTree>)> = Vec::new();
    let mut total: usize = 0;
    let ghost mut done: nat = 0;
    let mut i: usize = 0;
    assert(m.subrange(0, len as int) =~= m);
    while i < len
        invariant
            len == orig.len(),
            orig == fields@,
            m == fields_model(orig),
            a == assets_model(assets@),
            i <= len,
            rest@ == orig.subrange(i as int, len as int),
            fields_model(out@) == unlock_fms(m, a).take(i as int),
            total == capped(done),
            done + hits_fms(m.subrange(i as int, len as int)) == hits_fms(m),
        decreases len - i,
    {
        let ghost tail = m.subrange(i as int, len as int);
        assert(tail.subrange(1, tail.len() as int) =~= m.subrange(i + 1, len as int));
        let (name, props) = rest.remove(0);
        assert((name, props) == orig[i as int]);
        proof {
            vstd::seq::axiom_seq_index_decreases(m, i as int);
        }
        assert(m[i as int] == (name@, trees_model(props@)));
        assert(decreases_to!(m[i as int] => m[i as int].1));
        let named = text_is(&name, "UnlockedRecipeTechnologyNames");
        let (props2, c) = unlock_in_trees(named, props, assets);
        let ghost before = out@;
        out.push((name, props2));
        assert(fields_model(out@) =~= fields_model(before).push((name@, trees_model(props2@))));
        assert(unlock_fms(m, a).take(i + 1) =~= unlock_fms(m, a).take(i as int).push(
            (m[i as int].0, unlock_pms(m[i as int].0 == unlock_field(), m[i as int].1, a)),
        ));
        proof {
            lemma_capped_add(done, hits_pms(m[i as int].0 == unlock_field(), m[i as int].1));
            done = done + hits_pms(m[i as int].0 == unlock_field(), m[i as int].1);
        }
        total = total.saturating_add(c);
        i = i + 1;
    }
    assert(unlock_fms(m, a).take(len as int) =~= unlock_fms(m, a));
    (out, total)
}

fn unlock_in_entries(entries: Vec<(PropTree, PropTree)>, assets: &[String]) -> (r: (Vec<(PropTree, PropTree)>, usize))
    ensures
        entries_model(r.0@) == unlock_ems(entries_model(entries@), assets_model(assets@)),
        r.1 == capped(hits_ems(entries_model(entries@))),
    decreases entries_model(entries@),
{
    let ghost orig = entries@;
    let ghost m = entries_model(orig);
    let ghost a = assets_model(assets@);
    let len = entries.len();
    let mut rest = entries;
    let mut out: Vec<(PropTree, PropTree)> = Vec::new();
    let mut total: usize = 0;
    let ghost mut done: nat = 0;
    let mut i: usize = 0;
    assert(m.subrange(0, len as int) =~= m);
    while i < len
        invariant
            len == orig.len(),
            orig == entries@,
            m == entries_model(orig),
            a == assets_model(assets@),
            i <= len,
            rest@ == orig.subrange(i as int, len as int),
            entries_model(out@) == unlock_ems(m, a).take(i as int),
            total == capped(done),
            done + hits_ems(m.subrange(i as int, len as int)) == hits_ems(m),
        decreases len - i,
    {
        let ghost tail = m.subrange(i as int, len as int);
        assert(tail.subrange(1, tail.len() as int) =~= m.subrange(i + 1, len as int));
        let (k, v) = rest.remove(0);
        assert((k, v) == orig[i as int]);
        proof {
            vstd::seq::axiom_seq_index_decreases(m, i as int);
        }
        assert(m[i as int] == (tree_model(k), tree_model(v)));
        assert(decreases_to!(m[i as int] => m[i as int].1));
        let (v2, c) = unlock_owned(false, v, assets);
        let ghost before = out@;
        out.push((k, v2));
        assert(entries_model(out@) =~= entries_model(before).push((tree_model(k), tree_model(v2))));
        assert(unlock_ems(m, a).take(i + 1) =~= unlock_ems(m, a).take(i as int).push((m[i as int].0, unlock_pm(false, m[i as int].1, a))));
        proof {
            lemma_capped_add(done, hits_pm(false, m[i as int].1));
            done = done + hits_pm(false, m[i as int].1);
        }
        total = total.saturating_add(c);
        i = i + 1;
    }
    assert(unlock_ems(m, a).take(len as int) =~= unlock_ems(m, a));
    (out, total)
}

/// Merges the assets into every technology list of the property `property`
/// named `name` (see `unlock_pm`); returns how many lists it met.
pub fn merge_technology_in_property(name: &str, property: &mut PropTree, assets: &[String]) -> (n: usize)
    ensures
        tree_model(*final(property)) == unlock_pm(name@ == unlock_field(), tree_model(*old(property)), assets_model(assets@)),
        n == capped(hits_pm(name@ == unlock_field(), tree_model(*old(property)))),
{
    let named = crate::modifier::same_text(name, "UnlockedRecipeTechnologyNames");
    let mut t = PropTree::Opaque(0);
    std::mem::swap(&mut t, property);
    let (t2, n) = unlock_owned(named, t, assets);
    *property = t2;
    n
}

/// Merges the assets into every technology list among the fields `fields`
/// (see `unlock_fms`); returns how many lists it met.
pub fn merge_technology_in_fields(fields: &mut Vec<(String, Vec<PropTree>)>, assets: &[String]) -> (n: usize)
    ensures
        fields_model(final(fields)@) == unlock_fms(fields_model(old(fields)@), assets_model(assets@)),
        n == capped(hits_fms(fields_model(old(fields)@))),
{
    let mut f: Vec<(String, Vec<PropTree>)> = Vec::new();
    std::mem::swap(&mut f, fields);
    let (f2, n) = unlock_in_fields(f, assets);
    *fields = f2;
    n
}

/// A save's top-level properties after the merge.
pub open spec fn unlock_props(ps: Seq<(Seq<char>, PropModel)>, a: Seq<Seq<char>>) -> Seq<(Seq<char>, PropModel)> {
    Seq::new(ps.len(), |i: int| (ps[i].0, unlock_pm(ps[i].0 == unlock_field(), ps[i].1, a)))
}

/// The technology lists among a save's top-level properties.
pub open spec fn hits_props(ps: Seq<(Seq<char>, PropModel)>) -> nat
    decreases ps.len(),
{
    if ps.len() == 0 {
        0
    } else {
        hits_props(ps.drop_last()) + hits_pm(ps.last().0 == unlock_field(), ps.last().1)
    }
}

/// Unlocks every technology in a player's save: merges the assets into each
/// technology list among its top-level properties (see `unlock_props`).
/// Refused when the save holds no such list.
pub fn unlock_all_technologies(properties: &mut Vec<(String, PropTree)>, assets: &[String]) -> (r: Result<(), String>)
    ensures
        props_model(final(properties)@) == unlock_props(props_model(old(properties)@), assets_model(assets@)),
        r is Ok <==> hits_props(props_model(old(properties)@)) > 0,
        r matches Err(e) ==> e@ == "玩家存档缺少 UnlockedRecipeTechnologyNames"@,
{
    let ghost m = props_model(properties@);
    let ghost a = assets_model(assets@);
    let len = properties.len();
    let mut n: usize = 0;
    let mut i: usize = 0;
    while i < len
        invariant
            len == properties@.len(),
            len == m.len(),
            a == assets_model(assets@),
            i <= len,
            forall|j: int| 0 <= j < i ==> #[trigger] props_model(properties@)[j] == unlock_props(m, a)[j],
            forall|j: int| i <= j < len ==> #[trigger] props_model(properties@)[j] == m[j],
            n == capped(hits_props(m.take(i as int))),
        decreases len - i,
    {
        assert(m.take(i + 1).drop_last() =~= m.take(i as int));
        assert(props_model(properties@)[i as int] == m[i as int]);
        let ghost before = properties@;
        let (name, mut t) = properties.remove(i);
        let c = merge_technology_in_property(name.as_str(), &mut t, assets);
        properties.insert(i, (name, t));
        assert(properties@ =~= before.update(i as int, (name, t)));
        assert forall|j: int| 0 <= j < len implies #[trigger] props_model(properties@)[j] == (if j == i {
            unlock_props(m, a)[j]
        } else {
            props_model(before)[j]
        }) by {
            if j == i {
                assert(props_model(before)[j] == m[j]);
            }
        }
        proof {
            lemma_capped_add(hits_props(m.take(i as int)), hits_pm(m[i as int].0 == unlock_field(), m[i as int].1));
        }
        n = n.saturating_add(c);
        i = i + 1;
    }
    assert(props_model(properties@) =~= unlock_props(m, a));
    assert(m.take(len as int) =~= m);
    if n == 0 {
        return Err(String::from_str("玩家存档缺少 UnlockedRecipeTechnologyNames"));
    }
    Ok(())
}

/// Whether no asset is listed twice.
pub open spec fn distinct_assets(a: Seq<Seq<char>>) -> bool {
    forall|i: int, j: int| 0 <= i < j < a.len() ==> a[i] != a[j]
}

/// Checks a technology table: refused when an asset is listed twice.
pub fn check_technology_assets(assets: &[String]) -> (r: Result<(), String>)
    ensures
        r is Ok <==> distinct_assets(assets_model(assets@)),
        r matches Err(e) ==> e@ == "同行科技表存在重复 asset"@,
{
    let ghost a = assets_model(assets@);
    let mut j: usize = 0;
    while j < assets.len()
        invariant
            a == assets_model(assets@),
            j <= assets@.len(),
            forall|x: int, y: int| 0 <= x < y < j ==> a[x] != a[y],
        decreases assets@.len() - j,
    {
        let mut i: usize = 0;
        while i < j
            invariant
                a == assets_model(assets@),
                i <= j < assets@.len(),
                forall|x: int, y: int| 0 <= x < y < j ==> a[x] != a[y],
                forall|x: int| 0 <= x < i ==> a[x] != a[j as int],
            decreases j - i,
        {
            if assets[i] == assets[j] {
                assert(a[i as int] == a[j as int]);
                return Err(String::from_str("同行科技表存在重复 asset"));
            }
            i = i + 1;
        }
        j = j + 1;
    }
    Ok(())
}

/// What `with_asset` leaves listed stays listed.
proof fn lemma_with_asset_keeps(names: Seq<Option<Seq<char>>>, x: Seq<char>, y: Option<Seq<char>>)
    requires
        names.contains(y),
    ensures
        with_asset(names, x).contains(y),
{
    if !names.contains(Some(x)) {
        let k = choose|k: int| 0 <= k < names.len() && names[k] == y;
        assert(names.push(Some(x))[k] == y);
    }
}

/// `with_asset` lists the asset.
proof fn lemma_with_asset_lists(names: Seq<Option<Seq<char>>>, x: Seq<char>)
    ensures
        with_asset(names, x).contains(Some(x)),
{
    if !names.contains(Some(x)) {
        assert(names.push(Some(x))[names.len() as int] == Some(x));
    }
}

/// What `merged` leaves listed stays listed.
proof fn lemma_merged_keeps(names: Seq<Option<Seq<char>>>, a: Seq<Seq<char>>, y: Option<Seq<char>>)
    requires
        names.contains(y),
    ensures
        merged(names, a).contains(y),
    decreases a.len(),
{
    if a.len() > 0 {
        lemma_merged_keeps(names, a.drop_last(), y);
        lemma_with_asset_keeps(merged(names, a.drop_last()), a.last(), y);
    }
}

/// After the merge every asset is listed.
pub proof fn lemma_merged_lists_every_asset(names: Seq<Option<Seq<char>>>, a: Seq<Seq<char>>)
    ensures
        forall|k: int| 0 <= k < a.len() ==> #[trigger] merged(names, a).contains(Some(a[k])),
    decreases a.len(),
{
    if a.len() > 0 {
        let init = a.drop_last();
        lemma_merged_lists_every_asset(names, init);
        lemma_with_asset_lists(merged(names, init), a.last());
        assert forall|k: int| 0 <= k < a.len() implies #[trigger] merged(names, a).contains(Some(a[k])) by {
            if k < a.len() - 1 {
                assert(init[k] == a[k]);
                assert(merged(names, init).contains(Some(init[k])));
                lemma_with_asset_keeps(merged(names, init), a.last(), Some(a[k]));
            }
        }
    }
}

/// The merge keeps the names it was given, in order, in front, and adds
/// only assets.
pub proof fn lemma_merged_extends(names: Seq<Option<Seq<char>>>, a: Seq<Seq<char>>)
    ensures
        names.len() <= merged(names, a).len() <= names.len() + a.len(),
        merged(names, a).subrange(0, names.len() as int) == names,
        forall|j: int| names.len() <= j < merged(names, a).len() ==> exists|k: int| 0 <= k < a.len() && #[trigger] merged(names, a)[j] == Some(a[k]),
    decreases a.len(),
{
    if a.len() > 0 {
        let init = a.drop_last();
        lemma_merged_extends(names, init);
        let m = merged(names, init);
        assert forall|j: int| names.len() <= j < merged(names, a).len() implies exists|k: int| 0 <= k < a.len() && #[trigger] merged(names, a)[j] == Some(a[k]) by {
            if j < m.len() {
                let k = choose|k: int| 0 <= k < init.len() && #[trigger] m[j] == Some(init[k]);
                assert(merged(names, a)[j] == m[j]);
                assert(a[k] == init[k]);
            } else {
                assert(merged(names, a)[j] == Some(a[a.len() - 1]));
            }
        }
        assert(merged(names, a).subrange(0, names.len() as int) =~= m.subrange(0, names.len() as int));
    } else {
        assert(names.subrange(0, names.len() as int) =~= names);
    }
}

/// Merging into a list that lists every asset leaves it as it is.
proof fn lemma_merged_listed(names: Seq<Option<Seq<char>>>, a: Seq<Seq<char>>)
    requires
        forall|k: int| 0 <= k < a.len() ==> #[trigger] names.contains(Some(a[k])),
    ensures
        merged(names, a) == names,
    decreases a.len(),
{
    if a.len() > 0 {
        let init = a.drop_last();
        assert forall|k: int| 0 <= k < init.len() implies #[trigger] names.contains(Some(init[k])) by {
            assert(init[k] == a[k]);
        }
        lemma_merged_listed(names, init);
        assert(names.contains(Some(a[a.len() - 1])));
    }
}

/// Unlocking twice is unlocking once.
pub proof fn lemma_merged_idempotent(names: Seq<Option<Seq<char>>>, a: Seq<Seq<char>>)
    ensures
        merged(merged(names, a), a) == merged(names, a),
{
    lemma_merged_lists_every_asset(names, a);
    lemma_merged_listed(merged(names, a), a);
}

} // verus!
