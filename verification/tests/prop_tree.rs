use palsave::prop_tree::{
    count_guid_in_gvas, count_guid_in_property, count_owner_guids_in_gvas, find_unused_typed_guid,
    is_owner_uid_field, replace_guid_in_gvas, replace_guid_in_property, swap_guids_in_gvas,
    swap_owner_guids_in_gvas, trees_equal, PropTree, StructNode,
};

fn guid(b: u8) -> [u8; 16] {
    [b; 16]
}

fn guid_prop(g: [u8; 16]) -> PropTree {
    PropTree::Struct { struct_type: "Guid".to_string(), header: 0, value: StructNode::Guid(g) }
}

fn custom(fields: Vec<(&str, Vec<PropTree>)>) -> PropTree {
    PropTree::Struct {
        struct_type: "Custom".to_string(),
        header: 1,
        value: StructNode::Custom(fields.into_iter().map(|(n, v)| (n.to_string(), v)).collect()),
    }
}

#[test]
fn counts_typed_guids_everywhere_but_opaque_values() {
    let tree = custom(vec![
        ("A", vec![guid_prop(guid(1))]),
        ("B", vec![PropTree::PropArray { header: 2, items: vec![guid_prop(guid(1)), guid_prop(guid(2))] }]),
        ("C", vec![PropTree::Opaque(7)]),
        ("D", vec![PropTree::StructArray { header: 3, items: vec![StructNode::Guid(guid(1)), StructNode::Opaque(4)] }]),
    ]);
    assert_eq!(count_guid_in_property(&tree, &guid(1)), 3);
    assert_eq!(count_guid_in_property(&tree, &guid(2)), 1);
    assert_eq!(count_guid_in_property(&tree, &guid(3)), 0);
}

#[test]
fn a_guid_struct_of_another_type_is_not_counted() {
    let tree = PropTree::Struct { struct_type: "Other".to_string(), header: 0, value: StructNode::Guid(guid(1)) };
    assert_eq!(count_guid_in_property(&tree, &guid(1)), 0);
    let bare = PropTree::Value(StructNode::Guid(guid(1)));
    assert_eq!(count_guid_in_property(&bare, &guid(1)), 1);
}

#[test]
fn replacing_moves_changed_map_keys_to_the_end() {
    let mut map = PropTree::MapProp {
        header: 5,
        entries: vec![
            (guid_prop(guid(1)), guid_prop(guid(9))),
            (guid_prop(guid(2)), guid_prop(guid(1))),
            (guid_prop(guid(3)), PropTree::Opaque(0)),
        ],
    };
    let n = replace_guid_in_property(&mut map, &guid(1), &guid(4));
    assert_eq!(n, 2);
    let expected = PropTree::MapProp {
        header: 5,
        entries: vec![
            (guid_prop(guid(2)), guid_prop(guid(4))),
            (guid_prop(guid(3)), PropTree::Opaque(0)),
            (guid_prop(guid(4)), guid_prop(guid(9))),
        ],
    };
    assert!(trees_equal(&map, &expected));
    assert_eq!(count_guid_in_property(&map, &guid(1)), 0);
}

#[test]
fn replacing_onto_an_existing_key_overwrites_its_value() {
    let mut map = PropTree::MapProp {
        header: 5,
        entries: vec![
            (guid_prop(guid(2)), PropTree::Opaque(20)),
            (guid_prop(guid(1)), PropTree::Opaque(10)),
        ],
    };
    let n = replace_guid_in_property(&mut map, &guid(1), &guid(2));
    assert_eq!(n, 1);
    let expected = PropTree::MapProp { header: 5, entries: vec![(guid_prop(guid(2)), PropTree::Opaque(10))] };
    assert!(trees_equal(&map, &expected));
}

#[test]
fn swapping_exchanges_two_guids_in_top_level_properties() {
    let mut props = vec![
        ("X".to_string(), guid_prop(guid(1))),
        ("Y".to_string(), PropTree::PropArray { header: 0, items: vec![guid_prop(guid(2)), guid_prop(guid(1))] }),
    ];
    let changed = swap_guids_in_gvas(&mut props, &guid(1), &guid(2)).unwrap();
    assert_eq!(changed, 3);
    assert!(trees_equal(&props[0].1, &guid_prop(guid(2))));
    assert!(trees_equal(
        &props[1].1,
        &PropTree::PropArray { header: 0, items: vec![guid_prop(guid(1)), guid_prop(guid(2))] }
    ));
    assert_eq!(swap_guids_in_gvas(&mut props, &guid(5), &guid(5)), Ok(0));
    assert_eq!(count_guid_in_gvas(&props, &guid(1)), 1);
    assert_eq!(replace_guid_in_gvas(&mut props, &guid(1), &guid(3)), 1);
    assert_eq!(count_guid_in_gvas(&props, &guid(3)), 1);
}

#[test]
fn owner_swap_touches_only_owner_fields() {
    let mut props = vec![(
        "SaveParameter".to_string(),
        custom(vec![
            ("OwnerPlayerUId", vec![guid_prop(guid(1))]),
            ("PlayerUId", vec![guid_prop(guid(1))]),
            ("build_player_uid", vec![guid_prop(guid(2))]),
        ]),
    )];
    assert_eq!(count_owner_guids_in_gvas(&props, &guid(1)), 1);
    let changed = swap_owner_guids_in_gvas(&mut props, &guid(1), &guid(2)).unwrap();
    assert_eq!(changed, 2);
    let expected = custom(vec![
        ("OwnerPlayerUId", vec![guid_prop(guid(2))]),
        ("PlayerUId", vec![guid_prop(guid(1))]),
        ("build_player_uid", vec![guid_prop(guid(1))]),
    ]);
    assert!(trees_equal(&props[0].1, &expected));
    assert_eq!(swap_owner_guids_in_gvas(&mut props, &guid(7), &guid(8)), Ok(0));
    assert_eq!(swap_owner_guids_in_gvas(&mut props, &guid(2), &guid(2)), Ok(2));
    assert!(trees_equal(&props[0].1, &expected));
}

#[test]
fn owner_field_names_are_recognised() {
    assert!(is_owner_uid_field(&"OwnerPlayerUId".to_string()));
    assert!(is_owner_uid_field(&"private_lock_player_uid".to_string()));
    assert!(!is_owner_uid_field(&"PlayerUId".to_string()));
}

#[test]
fn the_first_usable_temporary_guid_is_chosen() {
    let old = guid(0);
    let new = guid(1);
    let t = find_unused_typed_guid(|c: &[u8; 16]| c[7] != 1, &old, &new).unwrap();
    let mut expected = old;
    expected[0] ^= 0xA5;
    expected[7] ^= 2;
    expected[15] ^= 0x5A;
    assert_eq!(t, expected);
    assert!(find_unused_typed_guid(|_c: &[u8; 16]| false, &old, &new).is_err());
}
