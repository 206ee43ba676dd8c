use palsave::prop_tree::{PropTree, StructNode};
use palsave::tech_points::{read_points_field, set_technology_points, technology_points_of, write_points_field};

fn save(fields: Vec<(&str, Vec<PropTree>)>) -> Vec<(String, PropTree)> {
    vec![(
        "SaveData".to_string(),
        PropTree::Struct {
            struct_type: "PalPlayerSaveData".to_string(),
            header: 0,
            value: StructNode::Custom(fields.into_iter().map(|(n, v)| (n.to_string(), v)).collect()),
        },
    )]
}

#[test]
fn missing_points_read_as_zero() {
    let props = save(vec![("Other", vec![PropTree::Int(5)])]);
    assert_eq!(read_points_field(&props, "TechnologyPoint"), Ok(0));
    let p = technology_points_of(&props).unwrap();
    assert_eq!((p.technology_points, p.ancient_technology_points), (0, 0));
}

#[test]
fn points_are_read_back_after_writing() {
    let mut props = save(vec![("TechnologyPoint", vec![PropTree::Int(3)])]);
    set_technology_points(&mut props, 777, 31).unwrap();
    let p = technology_points_of(&props).unwrap();
    assert_eq!((p.technology_points, p.ancient_technology_points), (777, 31));
    let PropTree::Struct { value: StructNode::Custom(f), .. } = &props[0].1 else { panic!() };
    assert_eq!(f.len(), 2);
    assert_eq!(f[1].0, "bossTechnologyPoint");
}

#[test]
fn points_refusals() {
    let mut none: Vec<(String, PropTree)> = vec![("Other".to_string(), PropTree::Opaque(1))];
    assert_eq!(read_points_field(&none, "TechnologyPoint"), Err("玩家存档缺少 SaveData 结构".to_string()));
    assert_eq!(write_points_field(&mut none, "TechnologyPoint", 1), Err("玩家存档缺少 SaveData 结构".to_string()));
    let mut props = save(vec![("TechnologyPoint", vec![PropTree::Opaque(2)])]);
    let before = save(vec![("TechnologyPoint", vec![PropTree::Opaque(2)])]);
    assert_eq!(
        write_points_field(&mut props, "TechnologyPoint", 1),
        Err("玩家存档中的 TechnologyPoint 不是整数".to_string())
    );
    assert_eq!(props, before);
}
