use palsave::identity::patch_dps;
use palsave::ownership::{build_container_ownership, collect_container_instances_in_property, key_guid, ContainerOwnershipIndex};
use palsave::prop_tree::{PropTree, StructNode};
use palsave::world_copy::{extract_key_guid, read_guilds_from_map};

fn guid(b: u8) -> [u8; 16] {
    [b; 16]
}

fn guid_prop(g: [u8; 16]) -> PropTree {
    PropTree::Struct { struct_type: "Guid".to_string(), header: 0, value: StructNode::Guid(g) }
}

fn fields(fs: Vec<(&str, Vec<PropTree>)>) -> Vec<(String, Vec<PropTree>)> {
    fs.into_iter().map(|(n, v)| (n.to_string(), v)).collect()
}

fn custom(fs: Vec<(&str, Vec<PropTree>)>) -> PropTree {
    PropTree::Struct { struct_type: "StructProperty".to_string(), header: 1, value: StructNode::Custom(fields(fs)) }
}

fn blob(instance: [u8; 16]) -> Vec<u8> {
    let mut b = vec![0u8; 16];
    b.extend_from_slice(&instance);
    b.extend_from_slice(&[9, 9, 9]);
    b
}

fn slot(instance: [u8; 16]) -> StructNode {
    StructNode::Custom(fields(vec![("RawData", vec![PropTree::Bytes(blob(instance))])]))
}

#[test]
fn collects_instances_from_raw_data_at_any_depth() {
    let value = custom(vec![(
        "Slots",
        vec![PropTree::StructArray { header: 2, items: vec![slot(guid(1)), slot([0u8; 16]), slot(guid(2))] }],
    )]);
    let mut out = Vec::new();
    collect_container_instances_in_property(&value, &mut out);
    assert_eq!(out, vec![guid(1), guid(2)]);
    // A byte array under another name, or a short one, names no instance.
    let other = custom(vec![("Other", vec![PropTree::Bytes(blob(guid(3)))]), ("RawData", vec![PropTree::Bytes(vec![1; 20])])]);
    let mut none = Vec::new();
    collect_container_instances_in_property(&other, &mut none);
    assert!(none.is_empty());
}

fn container_key(id: [u8; 16]) -> PropTree {
    PropTree::Value(StructNode::Custom(fields(vec![("ID", vec![guid_prop(id)])])))
}

fn container_value(instances: &[[u8; 16]]) -> PropTree {
    custom(vec![(
        "Slots",
        vec![PropTree::StructArray { header: 2, items: instances.iter().map(|i| slot(*i)).collect() }],
    )])
}

#[test]
fn containers_go_to_their_majority_owner() {
    let (c1, c2) = (guid(0xC1), guid(0xC2));
    let (p1, p2, p3) = (guid(0xA1), guid(0xA2), guid(0xA3));
    let containers = vec![
        (container_key(c1), container_value(&[guid(1), guid(2), guid(3)])),
        (container_key(c2), container_value(&[guid(4), guid(5)])),
    ];
    assert_eq!(key_guid(&containers[0].0, "ID"), Some(c1));
    let characters = vec![
        (Some(guid(1)), Some(p1)),
        (Some(guid(2)), Some(p2)),
        (Some(guid(3)), Some(p1)),
        (Some(guid(4)), Some(p2)),
        (Some(guid(5)), Some(p3)),
        (Some(guid(9)), Some(p3)),
        (None, Some(p3)),
    ];
    let index = build_container_ownership(&containers, &characters);
    assert_eq!(index.instance_containers.len(), 5);
    // Container 1: p1 has two votes against one.
    assert_eq!(index.effective_owner(Some(guid(2)), None), Some(p1));
    // Container 2: a tie goes to the owner named later.
    assert_eq!(index.effective_owner(Some(guid(4)), Some(p1)), Some(p3));
    // An instance in no container keeps its own owner.
    assert_eq!(index.effective_owner(Some(guid(9)), Some(p2)), Some(p2));
    assert_eq!(index.effective_owner(None, None), None);
}

#[test]
fn effective_owner_reads_the_last_pair() {
    let index = ContainerOwnershipIndex {
        instance_containers: vec![(guid(1), guid(0xC1)), (guid(1), guid(0xC2))],
        container_owners: vec![(guid(0xC1), guid(0xA1)), (guid(0xC2), guid(0xA2))],
    };
    assert_eq!(index.effective_owner(Some(guid(1)), None), Some(guid(0xA2)));
}

#[test]
fn extract_key_guid_from_struct() {
    let g = gvas::types::Guid::from_u32([1, 2, 3, 4]);
    let p = PropTree::Struct { struct_type: "Guid".to_string(), header: 0, value: StructNode::Guid(g.to_u8()) };
    assert_eq!(extract_key_guid(&p), g.to_string());
}

#[test]
fn key_text_prefers_named_fields_and_shows_zero_as_0() {
    let key = PropTree::Value(StructNode::Custom(fields(vec![
        ("PlayerUId", vec![guid_prop(guid(0x11))]),
        ("InstanceId", vec![guid_prop(guid(0x22))]),
    ])));
    assert_eq!(extract_key_guid(&key), "22222222-2222-2222-2222-222222222222");
    let zero = PropTree::Value(StructNode::Guid([0u8; 16]));
    assert_eq!(extract_key_guid(&zero), "0");
    assert_eq!(extract_key_guid(&PropTree::Opaque(1)), "");
}

#[test]
fn guild_entries_from_the_group_map() {
    let mut raw = vec![0u8; 16];
    raw.extend_from_slice(&4i32.to_le_bytes());
    raw.extend_from_slice(b"Cat\0");
    let value = PropTree::Value(StructNode::Custom(fields(vec![("RawData", vec![PropTree::Bytes(raw)])])));
    let entries = vec![(PropTree::Value(StructNode::Guid(guid(0xAB))), value), (PropTree::Opaque(0), PropTree::Opaque(0))];
    let guilds = read_guilds_from_map(&entries);
    assert_eq!(guilds.len(), 2);
    assert_eq!(guilds[0].guild_id, "ABABABAB-ABAB-ABAB-ABAB-ABABABABABAB");
    assert_eq!(guilds[0].name, "Cat\0");
    assert_eq!(guilds[1].guild_id, "");
    assert_eq!(guilds[1].name, "");
}

#[test]
fn patch_dps_sets_owner_and_container() {
    let new_uid: [u8; 16] = [0xBBu8; 16];
    let container: [u8; 16] = [0xCCu8; 16];
    let old_uid: [u8; 16] = [0xAAu8; 16];
    let cid = custom(vec![("ID", vec![guid_prop([0u8; 16])])]);
    let slot_id = custom(vec![("ContainerId", vec![cid])]);
    let save_param = custom(vec![("OwnerPlayerUId", vec![guid_prop(old_uid)]), ("SlotId", vec![slot_id])]);
    let item = StructNode::Custom(fields(vec![("SaveParameter", vec![save_param])]));
    let mut props = vec![("SaveParameterArray".to_string(), PropTree::StructArray { header: 0, items: vec![item] })];

    let updated = patch_dps(&mut props, &new_uid, Some(&container));
    assert!(updated >= 2, "应更新 OwnerPlayerUId 与 ContainerId.ID，实际 {updated}");

    let expected_cid = custom(vec![("ID", vec![guid_prop(container)])]);
    let expected_slot = custom(vec![("ContainerId", vec![expected_cid])]);
    let expected_param = custom(vec![("OwnerPlayerUId", vec![guid_prop(new_uid)]), ("SlotId", vec![expected_slot])]);
    let expected = StructNode::Custom(fields(vec![("SaveParameter", vec![expected_param])]));
    match &props[0].1 {
        PropTree::StructArray { items, .. } => {
            assert_eq!(items[0], expected, "OwnerPlayerUId 应被设为 new_uid，ContainerId.ID 应被设为 container");
        }
        _ => panic!("SaveParameterArray 应仍是结构数组"),
    }
}
