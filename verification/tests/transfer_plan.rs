use palsave::transfer_plan::check_character_transfer;
use palsave::dynamic_items::plan_pal_mappings;
use palsave::fix_host::swap_owners_in_character_streams;
use palsave::identity::raw_data_bytes;
use palsave::prop_tree::{swap_owner_guids_in_character_property_stream, PropTree, StructNode};
use palsave::transfer_plan::{check_transfer_selection, transfer_identity_mappings, PlayerIdentitySummary};

fn identity(base: u8, inventory: &[(&str, u8)]) -> PlayerIdentitySummary {
    PlayerIdentitySummary {
        player_uid: [base; 16],
        instance_id: [base + 1; 16],
        group_id: [base + 2; 16],
        pal_storage_id: [base + 3; 16],
        otomo_container_id: [base + 4; 16],
        inventory: inventory.iter().map(|(n, b)| (n.to_string(), [*b; 16])).collect(),
    }
}

#[test]
fn transfer_maps_identities_then_inventory_in_order() {
    let s = identity(0x10, &[("CommonContainerId", 0x30), ("EssentialContainerId", 0x31)]);
    let t = identity(0x20, &[("CommonContainerId", 0x40), ("EssentialContainerId", 0x41)]);
    let m = transfer_identity_mappings(&s, &t).unwrap();
    assert_eq!(m.len(), 6);
    assert_eq!(m[0], ([0x10; 16], [0x20; 16]));
    assert_eq!(m[3], ([0x14; 16], [0x24; 16]));
    assert_eq!(m[5], ([0x31; 16], [0x41; 16]));
}

#[test]
fn transfer_refusals() {
    let s = identity(0x10, &[("A", 1)]);
    let t = identity(0x20, &[("B", 2)]);
    assert_eq!(
        transfer_identity_mappings(&s, &t),
        Err("源和目标 InventoryInfo 字段顺序不一致: A/B".to_string())
    );
    let t2 = identity(0x20, &[]);
    assert_eq!(transfer_identity_mappings(&s, &t2), Err("源和目标 InventoryInfo 容器集合不一致".to_string()));
    assert_eq!(
        check_transfer_selection(&[0x10; 16], &[0x10; 16], &s, &t),
        Err("源角色与目标角色 UID 相同，无需转移".to_string())
    );
    assert_eq!(
        check_transfer_selection(&[0x11; 16], &[0x20; 16], &s, &t),
        Err("源玩家文件 PlayerUId 与所选源角色不一致".to_string())
    );
    assert_eq!(check_transfer_selection(&[0x10; 16], &[0x20; 16], &s, &t), Ok(()));
}

#[test]
fn pal_instances_keep_free_ids_and_rederive_taken_ones() {
    let target = [0x20; 16];
    let m = plan_pal_mappings(&vec![[1; 16], [2; 16]], vec![[2; 16]], &target).unwrap();
    assert_eq!(m.len(), 1);
    assert_eq!(m[0].0, [2; 16]);
    assert_ne!(m[0].1, [2; 16]);
    assert_ne!(m[0].1, [1; 16]);
}

fn owner_props(owner: [u8; 16]) -> Vec<(String, PropTree)> {
    vec![(
        "SaveParameter".to_string(),
        PropTree::Value(StructNode::Custom(vec![(
            "OwnerPlayerUId".to_string(),
            vec![PropTree::Struct { struct_type: "Guid".to_string(), header: 0, value: StructNode::Guid(owner) }],
        )])),
    )]
}

#[test]
fn owner_stream_swap_reads_swaps_and_writes() {
    let bytes = vec![9u8, 9, 9];
    let (out, n) = swap_owner_guids_in_character_property_stream(
        &bytes,
        &[1; 16],
        &[2; 16],
        |_raw: Vec<u8>| Ok((owner_props([1; 16]), vec![7])),
        |props: Vec<(String, PropTree)>, tail: Vec<u8>| {
            let PropTree::Value(StructNode::Custom(f)) = &props[0].1 else { panic!() };
            let PropTree::Struct { value: StructNode::Guid(g), .. } = &f[0].1[0] else { panic!() };
            let mut out = g.to_vec();
            out.extend_from_slice(&tail);
            Ok(out)
        },
    )
    .unwrap();
    assert_eq!(n, 1);
    let mut expected = vec![2u8; 16];
    expected.push(7);
    assert_eq!(out, expected);
    let same = swap_owner_guids_in_character_property_stream(
        &bytes,
        &[1; 16],
        &[1; 16],
        |_raw: Vec<u8>| Err("never read".to_string()),
        |_p: Vec<(String, PropTree)>, _t: Vec<u8>| Err("never written".to_string()),
    );
    assert_eq!(same, Ok((bytes.clone(), 0)));
    let untouched = swap_owner_guids_in_character_property_stream(
        &bytes,
        &[5; 16],
        &[6; 16],
        |_raw: Vec<u8>| Ok((owner_props([1; 16]), vec![])),
        |_p: Vec<(String, PropTree)>, _t: Vec<u8>| Err("never written".to_string()),
    );
    assert_eq!(untouched, Ok((bytes.clone(), 0)));
}

fn character_record(raw: Option<Vec<u8>>) -> PropTree {
    let mut fields = vec![("Other".to_string(), vec![PropTree::Opaque(3)])];
    if let Some(r) = raw {
        fields.push(("RawData".to_string(), vec![PropTree::Bytes(r)]));
    }
    PropTree::Value(StructNode::Custom(fields))
}

/// Reads a stream whose first byte is its owner's fill byte; writes the
/// owner GUID back as its first byte.
fn read_owner(raw: Vec<u8>) -> Result<(Vec<(String, PropTree)>, Vec<u8>), String> {
    if raw.is_empty() {
        return Err("空流".to_string());
    }
    Ok((owner_props([raw[0]; 16]), raw[1..].to_vec()))
}

fn write_owner(props: Vec<(String, PropTree)>, tail: Vec<u8>) -> Result<Vec<u8>, String> {
    let PropTree::Value(StructNode::Custom(f)) = &props[0].1 else { panic!() };
    let PropTree::Struct { value: StructNode::Guid(g), .. } = &f[0].1[0] else { panic!() };
    let mut out = vec![g[0]];
    out.extend_from_slice(&tail);
    Ok(out)
}

#[test]
fn owner_swap_runs_over_every_character_stream() {
    let mut entries = vec![
        (PropTree::Opaque(1), character_record(Some(vec![1, 7]))),
        (PropTree::Opaque(2), character_record(None)),
        (PropTree::Opaque(3), character_record(Some(vec![2, 8]))),
        (PropTree::Opaque(4), character_record(Some(vec![5, 9]))),
    ];
    let n = swap_owners_in_character_streams(&mut entries, &[1; 16], &[2; 16], read_owner, write_owner).unwrap();
    assert_eq!(n, 2);
    assert_eq!(raw_data_bytes(&entries[0].1), Some(&vec![2u8, 7]));
    assert_eq!(raw_data_bytes(&entries[1].1), None);
    assert_eq!(raw_data_bytes(&entries[2].1), Some(&vec![1u8, 8]));
    assert_eq!(raw_data_bytes(&entries[3].1), Some(&vec![5u8, 9]));
    assert_eq!(entries[3].0, PropTree::Opaque(4));
}

#[test]
fn a_failed_stream_leaves_the_character_map_alone() {
    let mut entries = vec![
        (PropTree::Opaque(1), character_record(Some(vec![1, 7]))),
        (PropTree::Opaque(2), character_record(Some(vec![]))),
    ];
    let r = swap_owners_in_character_streams(&mut entries, &[1; 16], &[2; 16], read_owner, write_owner);
    assert_eq!(r, Err("空流".to_string()));
    assert_eq!(raw_data_bytes(&entries[0].1), Some(&vec![1u8, 7]));
}

#[test]
fn character_transfer_checks_its_files_first() {
    let a = "0123456789abcdef0123456789ABCDEF";
    let b = "FEDCBA98765432100123456789abcdef";
    assert_eq!(check_character_transfer(a, b, true), Ok(()));
    assert_eq!(
        check_character_transfer("xyz", b, true),
        Err("角色文件标识必须是 32 位十六进制字符串".to_string())
    );
    assert_eq!(
        check_character_transfer(a, &a.to_lowercase(), true),
        Err("源角色与目标服务器角色不能是同一个文件".to_string())
    );
    assert_eq!(
        check_character_transfer(a, b, false),
        Err("当前工作流阶段不允许转移角色，请先完成世界迁移并创建服务器角色".to_string())
    );
}
