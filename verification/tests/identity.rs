use palsave::identity::{
    extract_player_uids, is_guild_group, patch_cspm_player_keys, patch_dps, raw_data_bytes, set_guid_property,
};
use palsave::prop_tree::{PropTree, StructNode};

fn guid(b: u8) -> [u8; 16] {
    [b; 16]
}

fn guid_prop(g: [u8; 16]) -> PropTree {
    PropTree::Struct { struct_type: "Guid".to_string(), header: 0, value: StructNode::Guid(g) }
}

fn fields(fs: Vec<(&str, Vec<PropTree>)>) -> Vec<(String, Vec<PropTree>)> {
    fs.into_iter().map(|(n, v)| (n.to_string(), v)).collect()
}

fn custom(fs: Vec<(&str, Vec<PropTree>)>) -> PropTree {
    PropTree::Struct { struct_type: "Custom".to_string(), header: 1, value: StructNode::Custom(fields(fs)) }
}

fn player_save(container: [u8; 16], instance: [u8; 16]) -> Vec<(String, PropTree)> {
    vec![(
        "SaveData".to_string(),
        custom(vec![
            ("PalStorageContainerId", vec![custom(vec![("ID", vec![guid_prop(container)])])]),
            ("IndividualId", vec![custom(vec![("PlayerUId", vec![guid_prop(guid(0))]), ("InstanceId", vec![guid_prop(instance)])])]),
        ]),
    )]
}

#[test]
fn extracts_container_and_instance_ids() {
    let save = player_save(guid(7), guid(8));
    assert_eq!(extract_player_uids(&save), (Some(guid(7)), Some(guid(8))));
}

#[test]
fn missing_ids_are_none() {
    let save = vec![("SaveData".to_string(), custom(vec![("Other", vec![PropTree::Opaque(1)])]))];
    assert_eq!(extract_player_uids(&save), (None, None));
    let empty: Vec<(String, PropTree)> = Vec::new();
    assert_eq!(extract_player_uids(&empty), (None, None));
}

fn group(kind: &str, raw: Vec<u8>) -> PropTree {
    PropTree::Value(StructNode::Custom(fields(vec![
        ("GroupType", vec![PropTree::Enum { header: 3, value: kind.to_string() }]),
        ("RawData", vec![PropTree::Bytes(raw)]),
    ])))
}

#[test]
fn recognises_guild_groups_and_their_raw_data() {
    let g = group("EPalGroupType::Guild", vec![1, 2, 3]);
    assert!(is_guild_group(&g));
    assert_eq!(raw_data_bytes(&g), Some(&vec![1u8, 2, 3]));
    let other = group("EPalGroupType::Neutral", vec![]);
    assert!(!is_guild_group(&other));
    assert!(!is_guild_group(&PropTree::Opaque(0)));
    assert_eq!(raw_data_bytes(&PropTree::Opaque(0)), None);
}

#[test]
fn sets_only_guid_struct_properties() {
    let mut p = guid_prop(guid(1));
    assert!(set_guid_property(&mut p, &guid(2)));
    assert_eq!(p, guid_prop(guid(2)));
    let mut q = PropTree::Struct { struct_type: "Vector".to_string(), header: 0, value: StructNode::Guid(guid(1)) };
    assert!(!set_guid_property(&mut q, &guid(2)));
    assert_eq!(q, PropTree::Struct { struct_type: "Vector".to_string(), header: 0, value: StructNode::Guid(guid(1)) });
}

fn cspm_key(player: [u8; 16], instance: [u8; 16]) -> PropTree {
    PropTree::Value(StructNode::Custom(fields(vec![
        ("PlayerUId", vec![guid_prop(player)]),
        ("InstanceId", vec![guid_prop(instance)]),
    ])))
}

#[test]
fn exchanges_player_uids_in_character_keys() {
    let (old, new) = (guid(1), guid(2));
    let (oi, ni) = (guid(11), guid(12));
    let mut entries = vec![
        (cspm_key(old, oi), PropTree::Opaque(100)),
        (cspm_key(new, ni), PropTree::Opaque(200)),
        (cspm_key(guid(3), guid(13)), PropTree::Opaque(300)),
    ];
    let n = patch_cspm_player_keys(&mut entries, &old, &new, Some(&oi), Some(&ni));
    assert_eq!(n, 2);
    assert_eq!(
        entries,
        vec![
            (cspm_key(new, oi), PropTree::Opaque(100)),
            (cspm_key(old, ni), PropTree::Opaque(200)),
            (cspm_key(guid(3), guid(13)), PropTree::Opaque(300)),
        ]
    );
}

#[test]
fn a_rewritten_key_equal_to_a_later_one_merges_with_it() {
    let (old, new) = (guid(1), guid(2));
    let oi = guid(11);
    // The first key becomes (new, oi), which the second entry already holds.
    let mut entries = vec![(cspm_key(old, oi), PropTree::Opaque(100)), (cspm_key(new, oi), PropTree::Opaque(200))];
    let n = patch_cspm_player_keys(&mut entries, &old, &new, Some(&oi), None);
    assert_eq!(n, 2);
    assert_eq!(entries, vec![(cspm_key(new, oi), PropTree::Opaque(200))]);
}

fn pal_entry(owner: [u8; 16], container: [u8; 16]) -> StructNode {
    StructNode::Custom(fields(vec![(
        "SaveParameter",
        vec![custom(vec![
            ("OwnerPlayerUId", vec![guid_prop(owner)]),
            ("SlotId", vec![custom(vec![("ContainerId", vec![custom(vec![("ID", vec![guid_prop(container)])])])])]),
        ])],
    )]))
}

#[test]
fn pal_storage_gets_the_new_owner_and_container() {
    let mut props = vec![
        ("Version".to_string(), PropTree::Opaque(1)),
        (
            "SaveParameterArray".to_string(),
            PropTree::StructArray { header: 4, items: vec![pal_entry(guid(1), guid(5)), pal_entry(guid(2), guid(6))] },
        ),
    ];
    let n = patch_dps(&mut props, &guid(9), Some(&guid(10)));
    assert_eq!(n, 4);
    assert_eq!(
        props[1].1,
        PropTree::StructArray { header: 4, items: vec![pal_entry(guid(9), guid(10)), pal_entry(guid(9), guid(10))] }
    );
    let n2 = patch_dps(&mut props, &guid(3), None);
    assert_eq!(n2, 2);
    assert_eq!(
        props[1].1,
        PropTree::StructArray { header: 4, items: vec![pal_entry(guid(3), guid(10)), pal_entry(guid(3), guid(10))] }
    );
}

#[test]
fn pal_storage_without_the_array_is_left_alone() {
    let mut props = vec![("Other".to_string(), PropTree::Opaque(1))];
    assert_eq!(patch_dps(&mut props, &guid(9), Some(&guid(10))), 0);
    assert_eq!(props, vec![("Other".to_string(), PropTree::Opaque(1))]);
}

fn stream_with_nickname(nick: Option<&str>) -> Vec<(String, PropTree)> {
    let mut fs = vec![("Level".to_string(), vec![PropTree::Int(3)])];
    if let Some(n) = nick {
        fs.push(("NickName".to_string(), vec![PropTree::Str(Some(n.to_string()))]));
    }
    vec![(
        "SaveParameter".to_string(),
        PropTree::Struct { struct_type: "PalIndividualCharacterSaveParameter".to_string(), header: 2, value: StructNode::Custom(fs) },
    )]
}

#[test]
fn renaming_sets_the_nickname_of_save_parameter() {
    let mut props = stream_with_nickname(Some("旧名"));
    assert_eq!(palsave::player_edit::rename_in_player_stream(&mut props, "新名"), Ok(()));
    assert_eq!(props, stream_with_nickname(Some("新名")));
    let mut missing = stream_with_nickname(None);
    assert_eq!(
        palsave::player_edit::rename_in_player_stream(&mut missing, "新名"),
        Err("玩家记录缺少可写的 NickName".to_string())
    );
    assert_eq!(missing, stream_with_nickname(None));
    let mut empty: Vec<(String, PropTree)> = Vec::new();
    assert_eq!(
        palsave::player_edit::rename_in_player_stream(&mut empty, "新名"),
        Err("玩家记录缺少 SaveParameter".to_string())
    );
}

#[test]
fn renaming_a_player_record_goes_through_its_stream() {
    let key = custom(vec![("PlayerUId", vec![guid_prop(guid(5))]), ("InstanceId", vec![guid_prop(guid(6))])]);
    let record = PropTree::Value(StructNode::Custom(fields(vec![("RawData", vec![PropTree::Bytes(vec![1])])])));
    let mut entries = vec![(key, record)];
    let read = |raw: Vec<u8>| -> Result<(Vec<(String, PropTree)>, Vec<u8>), String> {
        assert_eq!(raw, vec![1]);
        Ok((stream_with_nickname(Some("旧名")), vec![]))
    };
    let write = |props: Vec<(String, PropTree)>, _tail: Vec<u8>| -> Result<Vec<u8>, String> {
        assert_eq!(props, stream_with_nickname(Some("新名")));
        Ok(vec![2])
    };
    assert_eq!(palsave::player_edit::rename_player_record(&mut entries, &guid(5), "新名", read, write), Ok(()));
    assert_eq!(raw_data_bytes(&entries[0].1), Some(&vec![2u8]));
    assert_eq!(
        palsave::player_edit::rename_player_record(&mut entries, &guid(9), "新名", read, write),
        Err("所选玩家不存在".to_string())
    );
}
