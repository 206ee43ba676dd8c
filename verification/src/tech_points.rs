//! The technology points of a player's save: `SaveData.TechnologyPoint`
//! (ordinary) and `SaveData.bossTechnologyPoint` (ancient), read from and
//! written into the save's top-level properties.

use vstd::prelude::*;
use crate::identity::{field_index, lemma_field_index, text_is};
use crate::models::PlayerTechnologyPoints;
use crate::prop_tree::{fields_model, props_model, tree_model, trees_model, PropModel, PropTree, StructModel, StructNode};
use crate::text::push_str;
use crate::world_delete::find_field;

verus! {

/// The index of the first top-level property named `name`.
pub open spec fn top_index(ps: Seq<(Seq<char>, PropModel)>, name: Seq<char>) -> Option<int>
    decreases ps.len(),
{
    if ps.len() == 0 {
        None
    } else if ps[0].0 == name {
        Some(0)
    } else {
        match top_index(ps.subrange(1, ps.len() as int), name) {
            Some(j) => Some(j + 1),
            None => None,
        }
    }
}

/// `top_index` is the first index holding the name.
proof fn lemma_top_index(ps: Seq<(Seq<char>, PropModel)>, name: Seq<char>)
    ensures
        match top_index(ps, name) {
            Some(j) => 0 <= j < ps.len() && ps[j].0 == name && forall|k: int| 0 <= k < j ==> (#[trigger] ps[k]).0 != name,
            None => forall|k: int| 0 <= k < ps.len() ==> (#[trigger] ps[k]).0 != name,
        },
    decreases ps.len(),
{
    if ps.len() > 0 {
        let r = ps.subrange(1, ps.len() as int);
        lemma_top_index(r, name);
        if ps[0].0 != name {
            assert forall|k: int| 0 < k < ps.len() implies ps[k] == r[k - 1] by {}
        }
    }
}

/// A field index is the first index holding the name.
proof fn lemma_field_index_at(f: Seq<(Seq<char>, Seq<PropModel>)>, name: Seq<char>, j: int)
    requires
        0 <= j < f.len(),
        f[j].0 == name,
        forall|k: int| 0 <= k < j ==> (#[trigger] f[k]).0 != name,
    ensures
        field_index(f, name) == Some(j),
{
    lemma_field_index(f, name);
    match field_index(f, name) {
        Some(i) => {
            if i < j {
                assert(f[i].0 != name);
            } else if i > j {
                assert(f[j].0 != name);
            }
        },
        None => {
            assert(f[j].0 != name);
        },
    }
}

/// A field name that no field holds has no index.
proof fn lemma_field_index_none(f: Seq<(Seq<char>, Seq<PropModel>)>, name: Seq<char>)
    requires
        forall|k: int| 0 <= k < f.len() ==> (#[trigger] f[k]).0 != name,
    ensures
        field_index(f, name) is None,
{
    lemma_field_index(f, name);
    if let Some(i) = field_index(f, name) {
        assert(f[i].0 != name);
    }
}

/// The position, type name, header and fields of the save's `SaveData`
/// struct, when its first `SaveData` property is a custom struct property.
pub open spec fn save_data_fields(ps: Seq<(Seq<char>, PropModel)>) -> Option<(int, Seq<char>, u64, Seq<(Seq<char>, Seq<PropModel>)>)> {
    match top_index(ps, "SaveData"@) {
        Some(i) => match ps[i].1 {
            PropModel::Struct(t, h, StructModel::Custom(f)) => Some((i, t, h, f)),
            _ => None,
        },
        None => None,
    }
}

/// The points held by the field `name`: 0 when the field is missing or has
/// no property, the value of an integer property, and `None` when its first
/// property is not an integer.
pub open spec fn points_field(f: Seq<(Seq<char>, Seq<PropModel>)>, name: Seq<char>) -> Option<i32> {
    match field_index(f, name) {
        Some(j) => if f[j].1.len() > 0 {
            match f[j].1[0] {
                PropModel::Int(v) => Some(v),
                _ => None,
            }
        } else {
            Some(0)
        },
        None => Some(0),
    }
}

/// The fields with the field `name` set to the integer `v`: its first
/// property replaced, a property given to a field that has none, or the
/// field added at the end.
pub open spec fn with_points(f: Seq<(Seq<char>, Seq<PropModel>)>, name: Seq<char>, v: i32) -> Seq<(Seq<char>, Seq<PropModel>)> {
    match field_index(f, name) {
        Some(j) => if f[j].1.len() > 0 {
            f.update(j, (f[j].0, f[j].1.update(0, PropModel::Int(v))))
        } else {
            f.update(j, (f[j].0, seq![PropModel::Int(v)]))
        },
        None => f.push((name, seq![PropModel::Int(v)])),
    }
}

/// The save's properties with the `SaveData` fields `f2` in place of its
/// fields.
pub open spec fn with_save_data(
    ps: Seq<(Seq<char>, PropModel)>,
    i: int,
    t: Seq<char>,
    h: u64,
    f2: Seq<(Seq<char>, Seq<PropModel>)>,
) -> Seq<(Seq<char>, PropModel)> {
    ps.update(i, (ps[i].0, PropModel::Struct(t, h, StructModel::Custom(f2))))
}

/// The refusal for a field that is not an integer.
pub open spec fn not_int_message(name: Seq<char>) -> Seq<char> {
    "玩家存档中的 "@ + name + " 不是整数"@
}

/// Finds the first top-level property named `name`.
pub(crate) fn find_top(props: &Vec<(String, PropTree)>, name: &str) -> (r: Option<usize>)
    ensures
        match r {
            Some(k) => top_index(props_model(props@), name@) == Some(k as int) && k < props@.len(),
            None => top_index(props_model(props@), name@) is None,
        },
{
    let ghost m = props_model(props@);
    proof {
        lemma_top_index(m, name@);
    }
    let mut i: usize = 0;
    while i < props.len()
        invariant
            m == props_model(props@),
            i <= props@.len(),
            forall|k: int| 0 <= k < i ==> (#[trigger] m[k]).0 != name@,
            match top_index(m, name@) {
                Some(j) => 0 <= j < m.len() && m[j].0 == name@ && forall|k: int| 0 <= k < j ==> (#[trigger] m[k]).0 != name@,
                None => forall|k: int| 0 <= k < m.len() ==> (#[trigger] m[k]).0 != name@,
            },
        decreases props@.len() - i,
    {
        assert(m[i as int].0 == props@[i as int].0@);
        if text_is(&props[i].0, name) {
            proof {
                match top_index(m, name@) {
                    Some(j) => {
                        if j < i {
                            assert(m[j].0 != name@);
                        } else if j > i {
                            assert(m[i as int].0 != name@);
                        }
                    },
                    None => {
                        assert(m[i as int].0 != name@);
                    },
                }
            }
            return Some(i);
        }
        i = i + 1;
    }
    proof {
        if let Some(j) = top_index(m, name@) {
            assert(m[j].0 != name@);
        }
    }
    None
}

/// The refusal text for a field that is not an integer.
fn not_int(name: &str) -> (r: String)
    ensures
        r@ == not_int_message(name@),
{
    let mut s = String::from_str("玩家存档中的 ");
    push_str(&mut s, name);
    push_str(&mut s, " 不是整数");
    s
}

/// Reads the points field `field_name` of the save's `SaveData` struct (see
/// `points_field`); refused when there is no such struct, or the field is
/// not an integer.
pub fn read_points_field(props: &Vec<(String, PropTree)>, field_name: &str) -> (r: Result<i32, String>)
    ensures
        match save_data_fields(props_model(props@)) {
            None => r matches Err(e) && e@ == "玩家存档缺少 SaveData 结构"@,
            Some((_, _, _, f)) => match points_field(f, field_name@) {
                Some(v) => r == Ok::<i32, String>(v),
                None => r matches Err(e) && e@ == not_int_message(field_name@),
            },
        },
{
    let ghost m = props_model(props@);
    let i = match find_top(props, "SaveData") {
        Some(i) => i,
        None => return Err(String::from_str("玩家存档缺少 SaveData 结构")),
    };
    assert(m[i as int] == (props@[i as int].0@, tree_model(props@[i as int].1)));
    match &props[i].1 {
        PropTree::Struct { value: StructNode::Custom(fields), .. } => {
            let ghost f = fields_model(fields@);
            match find_field(fields, field_name) {
                Some(j) => {
                    proof {
                        lemma_field_index(f, field_name@);
                    }
                    assert(f[j as int] == (fields@[j as int].0@, trees_model(fields@[j as int].1@)));
                    if fields[j].1.len() == 0 {
                        return Ok(0);
                    }
                    assert(f[j as int].1[0] == tree_model(fields@[j as int].1@[0]));
                    match &fields[j].1[0] {
                        PropTree::Int(v) => Ok(*v),
                        _ => Err(not_int(field_name)),
                    }
                },
                None => Ok(0),
            }
        },
        _ => Err(String::from_str("玩家存档缺少 SaveData 结构")),
    }
}

/// Sets the field `name` to the integer `value` in fields whose field
/// `name`, when present with a property, holds an integer first.
fn set_points_in_fields(fields: &mut Vec<(String, Vec<PropTree>)>, name: &str, value: i32)
    requires
        points_field(fields_model(old(fields)@), name@) is Some,
    ensures
        fields_model(final(fields)@) == with_points(fields_model(old(fields)@), name@, value),
{
    let ghost f = fields_model(fields@);
    let ghost before = fields@;
    match find_field(fields, name) {
        Some(j) => {
            assert(f[j as int] == (before[j as int].0@, trees_model(before[j as int].1@)));
            let (fname, mut fprops) = fields.remove(j);
            let ghost pb = fprops@;
            if fprops.len() > 0 {
                let _old = fprops.remove(0);
                fprops.insert(0, PropTree::Int(value));
                assert(fprops@ =~= pb.update(0, PropTree::Int(value)));
                assert(trees_model(fprops@) =~= trees_model(pb).update(0, PropModel::Int(value)));
            } else {
                fprops.push(PropTree::Int(value));
                assert(trees_model(fprops@) =~= seq![PropModel::Int(value)]);
            }
            fields.insert(j, (fname, fprops));
            assert(fields@ =~= before.update(j as int, (fname, fprops)));
            assert(fields_model(fields@) =~= with_points(f, name@, value));
        },
        None => {
            let mut ps: Vec<PropTree> = Vec::new();
            ps.push(PropTree::Int(value));
            assert(trees_model(ps@) =~= seq![PropModel::Int(value)]);
            let n = String::from_str(name);
            fields.push((n, ps));
            assert(fields@ =~= before.push((n, ps)));
            assert(fields_model(fields@) =~= with_points(f, name@, value));
        },
    }
}

/// Writes the integer `value` into the points field `field_name` of the
/// save's `SaveData` struct (see `with_points`); refused, with the save
/// unchanged, when there is no such struct or the field holds something
/// other than an integer.
pub fn write_points_field(props: &mut Vec<(String, PropTree)>, field_name: &str, value: i32) -> (r: Result<(), String>)
    ensures
        match save_data_fields(props_model(old(props)@)) {
            None => r matches Err(e) && e@ == "玩家存档缺少 SaveData 结构"@ && final(props)@ == old(props)@,
            Some((i, t, h, f)) => match points_field(f, field_name@) {
                Some(_) => r is Ok && props_model(final(props)@) == with_save_data(
                    props_model(old(props)@),
                    i,
                    t,
                    h,
                    with_points(f, field_name@, value),
                ),
                None => r matches Err(e) && e@ == not_int_message(field_name@) && final(props)@ == old(props)@,
            },
        },
{
    let ghost m = props_model(props@);
    match read_points_field(props, field_name) {
        Ok(_) => {},
        Err(e) => return Err(e),
    }
    let i = match find_top(props, "SaveData") {
        Some(i) => i,
        None => return Err(String::from_str("玩家存档缺少 SaveData 结构")),
    };
    let ghost before = props@;
    assert(m[i as int] == (before[i as int].0@, tree_model(before[i as int].1)));
    let (name, t) = props.remove(i);
    match t {
        PropTree::Struct { struct_type, header, value: StructNode::Custom(mut fields) } => {
            set_points_in_fields(&mut fields, field_name, value);
            let t2 = PropTree::Struct { struct_type, header, value: StructNode::Custom(fields) };
            props.insert(i, (name, t2));
            assert(props@ =~= before.update(i as int, (name, t2)));
            proof {
                let (_, st, sh, sf) = save_data_fields(m)->0;
                assert(props_model(props@) =~= with_save_data(m, i as int, st, sh, with_points(sf, field_name@, value)));
            }
            Ok(())
        },
        other => {
            props.insert(i, (name, other));
            assert(props@ =~= before);
            Err(String::from_str("玩家存档缺少 SaveData 结构"))
        },
    }
}

/// The ordinary and ancient technology points of the save, when both fields
/// can be read.
pub open spec fn points_of(ps: Seq<(Seq<char>, PropModel)>) -> Option<(i32, i32)> {
    match save_data_fields(ps) {
        Some((_, _, _, f)) => match (points_field(f, "TechnologyPoint"@), points_field(f, "bossTechnologyPoint"@)) {
            (Some(a), Some(b)) => Some((a, b)),
            _ => None,
        },
        None => None,
    }
}

/// Reads a player's technology points from its save: `TechnologyPoint`, then
/// `bossTechnologyPoint` (see `read_points_field`).
pub fn technology_points_of(props: &Vec<(String, PropTree)>) -> (r: Result<PlayerTechnologyPoints, String>)
    ensures
        match points_of(props_model(props@)) {
            Some((a, b)) => r matches Ok(p) && p.technology_points == a && p.ancient_technology_points == b,
            None => r is Err,
        },
{
    let technology_points = read_points_field(props, "TechnologyPoint")?;
    let ancient_technology_points = read_points_field(props, "bossTechnologyPoint")?;
    Ok(PlayerTechnologyPoints { technology_points, ancient_technology_points })
}

/// Sets a player's technology points in its save: `TechnologyPoint`, then
/// `bossTechnologyPoint` (see `write_points_field`). The first refusal
/// stops the rest.
pub fn set_technology_points(props: &mut Vec<(String, PropTree)>, technology_points: i32, ancient_technology_points: i32) -> (r: Result<(), String>)
    ensures
        points_of(props_model(old(props)@)) is Some ==> r is Ok,
        r is Ok ==> points_of(props_model(final(props)@)) == Some((technology_points, ancient_technology_points)),
        match save_data_fields(props_model(old(props)@)) {
            None => r is Err && final(props)@ == old(props)@,
            Some((i, t, h, f)) => if points_field(f, "TechnologyPoint"@) is None {
                r is Err && final(props)@ == old(props)@
            } else if points_field(f, "bossTechnologyPoint"@) is None {
                r is Err && props_model(final(props)@) == with_save_data(props_model(old(props)@), i, t, h, with_points(
                    f,
                    "TechnologyPoint"@,
                    technology_points,
                ))
            } else {
                r is Ok && props_model(final(props)@) == with_save_data(props_model(old(props)@), i, t, h, with_points(
                    with_points(f, "TechnologyPoint"@, technology_points),
                    "bossTechnologyPoint"@,
                    ancient_technology_points,
                ))
            },
        },
{
    let ghost m0 = props_model(props@);
    write_points_field(props, "TechnologyPoint", technology_points)?;
    let ghost m1 = props_model(props@);
    proof {
        lemma_point_names_differ();
        let (i, t, h, f) = save_data_fields(m0)->0;
        lemma_save_data_kept(m0, i, t, h, with_points(f, "TechnologyPoint"@, technology_points));
        lemma_points_after_write(f, "TechnologyPoint"@, technology_points, "bossTechnologyPoint"@);
    }
    write_points_field(props, "bossTechnologyPoint", ancient_technology_points)?;
    proof {
        let (i0, t0, h0, f0) = save_data_fields(m0)->0;
        let f1 = with_points(f0, "TechnologyPoint"@, technology_points);
        assert(m1 == with_save_data(m0, i0, t0, h0, f1));
        lemma_top_index(m0, "SaveData"@);
        assert(0 <= i0 < m0.len());
        assert(with_save_data(m1, i0, t0, h0, with_points(f1, "bossTechnologyPoint"@, ancient_technology_points)) =~= with_save_data(
            m0, i0, t0, h0, with_points(f1, "bossTechnologyPoint"@, ancient_technology_points)));
        let (i, t, h, f) = save_data_fields(m1)->0;
        lemma_save_data_kept(m1, i, t, h, with_points(f, "bossTechnologyPoint"@, ancient_technology_points));
        lemma_points_after_write(f, "bossTechnologyPoint"@, ancient_technology_points, "TechnologyPoint"@);
    }
    Ok(())
}

/// The two field names differ.
proof fn lemma_point_names_differ()
    ensures
        "TechnologyPoint"@ != "bossTechnologyPoint"@,
{
    reveal_strlit("TechnologyPoint");
    reveal_strlit("bossTechnologyPoint");
    assert("TechnologyPoint"@.len() != "bossTechnologyPoint"@.len());
}

/// Putting new fields into the `SaveData` struct keeps it where it was.
proof fn lemma_save_data_kept(
    ps: Seq<(Seq<char>, PropModel)>,
    i: int,
    t: Seq<char>,
    h: u64,
    f2: Seq<(Seq<char>, Seq<PropModel>)>,
)
    requires
        save_data_fields(ps) matches Some((i0, t0, h0, _)) && i0 == i && t0 == t && h0 == h,
    ensures
        save_data_fields(with_save_data(ps, i, t, h, f2)) == Some((i, t, h, f2)),
{
    let ps2 = with_save_data(ps, i, t, h, f2);
    lemma_top_index(ps, "SaveData"@);
    assert forall|k: int| 0 <= k < ps2.len() implies #[trigger] ps2[k].0 == ps[k].0 by {}
    lemma_top_index(ps2, "SaveData"@);
    match top_index(ps2, "SaveData"@) {
        Some(j) => {
            if j < i {
                assert(ps[j].0 == ps2[j].0);
            } else if j > i {
                assert(ps2[i].0 == ps[i].0);
            }
        },
        None => {
            assert(ps2[i].0 == ps[i].0);
        },
    }
}

/// A write of a points field is read back, and leaves every other field
/// as it reads.
pub proof fn lemma_points_after_write(f: Seq<(Seq<char>, Seq<PropModel>)>, name: Seq<char>, v: i32, other: Seq<char>)
    requires
        points_field(f, name) is Some,
        other != name,
    ensures
        points_field(with_points(f, name, v), name) == Some(v),
        points_field(with_points(f, name, v), other) == points_field(f, other),
{
    let f2 = with_points(f, name, v);
    lemma_field_index(f, name);
    lemma_field_index(f, other);
    match field_index(f, name) {
        Some(j) => {
            assert forall|k: int| 0 <= k < f2.len() implies #[trigger] f2[k].0 == f[k].0 by {}
            lemma_field_index_at(f2, name, j);
            match field_index(f, other) {
                Some(o) => {
                    lemma_field_index_at(f2, other, o);
                },
                None => {
                    lemma_field_index_none(f2, other);
                },
            }
        },
        None => {
            assert(f2.len() == f.len() + 1);
            assert forall|k: int| 0 <= k < f.len() implies #[trigger] f2[k] == f[k] by {}
            lemma_field_index_at(f2, name, f.len() as int);
            match field_index(f, other) {
                Some(o) => {
                    lemma_field_index_at(f2, other, o);
                },
                None => {
                    assert forall|k: int| 0 <= k < f2.len() implies (#[trigger] f2[k]).0 != other by {
                        if k < f.len() {
                            assert(f2[k] == f[k]);
                        }
                    }
                    lemma_field_index_none(f2, other);
                },
            }
        },
    }
}

/// Setting the points and reading them back gives what was set.
pub proof fn lemma_technology_points_round_trip(ps: Seq<(Seq<char>, PropModel)>, a: i32, b: i32)
    requires
        points_of(ps) is Some,
    ensures
        ({
            let (i, t, h, f) = save_data_fields(ps)->0;
            let f2 = with_points(with_points(f, "TechnologyPoint"@, a), "bossTechnologyPoint"@, b);
            points_of(with_save_data(ps, i, t, h, f2)) == Some((a, b))
        }),
{
    lemma_point_names_differ();
    let (i, t, h, f) = save_data_fields(ps)->0;
    let f1 = with_points(f, "TechnologyPoint"@, a);
    lemma_points_after_write(f, "TechnologyPoint"@, a, "bossTechnologyPoint"@);
    let f2 = with_points(f1, "bossTechnologyPoint"@, b);
    lemma_points_after_write(f1, "bossTechnologyPoint"@, b, "TechnologyPoint"@);
    lemma_save_data_kept(ps, i, t, h, f2);
}

} // verus!
