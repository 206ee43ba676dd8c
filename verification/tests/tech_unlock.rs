use palsave::gvas_io::palworld_hints;
use palsave::prop_tree::{PropTree, StructNode};
use palsave::tech_unlock::{
    check_technology_assets, merge_names, merge_technology_in_fields, merge_technology_in_property,
    unlock_all_technologies,
};

fn some(s: &str) -> Option<String> {
    Some(s.to_string())
}

fn assets(v: &[&str]) -> Vec<String> {
    v.iter().map(|s| s.to_string()).collect()
}

fn tech_list(names: Vec<Option<String>>) -> PropTree {
    PropTree::Names { header: 1, names }
}

#[test]
fn merging_appends_only_missing_assets_in_order() {
    let mut names = vec![some("A"), None, some("C")];
    merge_names(&mut names, &assets(&["C", "B", "A", "D", "B"]));
    assert_eq!(names, vec![some("A"), None, some("C"), some("B"), some("D")]);
}

#[test]
fn merging_twice_changes_nothing_more() {
    let a = assets(&["X", "Y"]);
    let mut names = vec![some("Y")];
    merge_names(&mut names, &a);
    let once = names.clone();
    merge_names(&mut names, &a);
    assert_eq!(names, once);
    assert_eq!(once, vec![some("Y"), some("X")]);
}

#[test]
fn only_the_named_field_is_merged() {
    let a = assets(&["T1"]);
    let mut p = tech_list(vec![]);
    assert_eq!(merge_technology_in_property("Other", &mut p, &a), 0);
    assert_eq!(p, tech_list(vec![]));
    assert_eq!(merge_technology_in_property("UnlockedRecipeTechnologyNames", &mut p, &a), 1);
    assert_eq!(p, tech_list(vec![some("T1")]));
}

#[test]
fn nested_lists_are_found() {
    let a = assets(&["T1", "T2"]);
    let inner = vec![("UnlockedRecipeTechnologyNames".to_string(), vec![tech_list(vec![some("T2")])])];
    let mut fields = vec![(
        "SaveData".to_string(),
        vec![PropTree::Struct { struct_type: "PalPlayerSaveData".to_string(), header: 0, value: StructNode::Custom(inner) }],
    )];
    assert_eq!(merge_technology_in_fields(&mut fields, &a), 1);
    let PropTree::Struct { value: StructNode::Custom(f), .. } = &fields[0].1[0] else { panic!() };
    assert_eq!(f[0].1[0], tech_list(vec![some("T2"), some("T1")]));
}

#[test]
fn unlocking_a_save_without_a_list_is_refused() {
    let a = assets(&["T1"]);
    let mut props = vec![("SaveData".to_string(), PropTree::Opaque(3))];
    assert_eq!(
        unlock_all_technologies(&mut props, &a),
        Err("玩家存档缺少 UnlockedRecipeTechnologyNames".to_string())
    );
    let mut props = vec![("UnlockedRecipeTechnologyNames".to_string(), tech_list(vec![]))];
    assert_eq!(unlock_all_technologies(&mut props, &a), Ok(()));
    assert_eq!(props[0].1, tech_list(vec![some("T1")]));
}

#[test]
fn duplicate_assets_are_refused() {
    assert_eq!(check_technology_assets(&assets(&["A", "B"])), Ok(()));
    assert_eq!(check_technology_assets(&assets(&["A", "B", "A"])), Err("同行科技表存在重复 asset".to_string()));
}

#[test]
fn palworld_hints_name_group_keys_as_guids() {
    let hints = palworld_hints();
    assert_eq!(hints.len(), 46);
    assert_eq!(
        hints.get("worldSaveData.StructProperty.GroupSaveDataMap.MapProperty.Key.StructProperty").map(String::as_str),
        Some("Guid")
    );
    assert_eq!(
        hints.get("worldSaveData.StructProperty.CharacterSaveParameterMap.MapProperty.Value.StructProperty").map(String::as_str),
        Some("StructProperty")
    );
}
