use palsave::fix_host::patch_guild_groups;
use palsave::guild_patch::{
    guild_contains_handle, patch_guild_rawdata, patch_original_guild_rawdata,
    validate_target_group,
};
use palsave::identity::raw_data_bytes;
use palsave::prop_tree::{PropTree, StructNode};

fn push_i32(bytes: &mut Vec<u8>, value: i32) {
    bytes.extend_from_slice(&value.to_le_bytes());
}

fn push_guid(bytes: &mut Vec<u8>, value: &[u8; 16]) -> usize {
    let offset = bytes.len();
    bytes.extend_from_slice(value);
    offset
}

fn guid_at(bytes: &[u8], offset: usize) -> [u8; 16] {
    bytes[offset..offset + 16].try_into().unwrap()
}

#[test]
fn phase_c_swaps_guild_admin_members_handles_and_marker_owners() {
    let old = [0x11; 16];
    let new = [0x22; 16];
    let old_instance = [0xA1; 16];
    let new_instance = [0xB2; 16];
    let guild_id = [0x33; 16];
    let marker_id = [0x44; 16];
    let mut raw = Vec::new();

    push_guid(&mut raw, &guild_id);
    push_i32(&mut raw, 0);
    push_i32(&mut raw, 2);
    let old_handle_uid = push_guid(&mut raw, &old);
    push_guid(&mut raw, &old_instance);
    let new_handle_uid = push_guid(&mut raw, &new);
    push_guid(&mut raw, &new_instance);
    raw.push(0);
    push_i32(&mut raw, 0);
    push_i32(&mut raw, 0);
    raw.extend_from_slice(&[0; 8]);
    push_i32(&mut raw, 0);
    push_i32(&mut raw, 0);
    let last_modifier = push_guid(&mut raw, &old);
    push_i32(&mut raw, 1);
    push_guid(&mut raw, &marker_id);
    raw.extend_from_slice(&[0; 24]);
    push_i32(&mut raw, 0);
    let marker_owner = push_guid(&mut raw, &new);
    let administrator = push_guid(&mut raw, &old);
    push_i32(&mut raw, 2);
    let old_member = push_guid(&mut raw, &old);
    raw.extend_from_slice(&[0; 8]);
    push_i32(&mut raw, 0);
    let new_member = push_guid(&mut raw, &new);
    raw.extend_from_slice(&[0; 8]);
    push_i32(&mut raw, 0);
    push_i32(&mut raw, 0);

    let changed = patch_guild_rawdata(&mut raw, &old, &new, Some(&old_instance), Some(&new_instance))
        .expect("公会 RawData 应可解析并交换身份");

    assert_eq!(changed, 7);
    assert_eq!(guid_at(&raw, old_handle_uid), new);
    assert_eq!(guid_at(&raw, new_handle_uid), old);
    assert_eq!(guid_at(&raw, last_modifier), new);
    assert_eq!(guid_at(&raw, marker_owner), old);
    assert_eq!(guid_at(&raw, administrator), new);
    assert_eq!(guid_at(&raw, old_member), new);
    assert_eq!(guid_at(&raw, new_member), old);
}

#[test]
fn swap_patch_rejects_truncated_blob_without_writing() {
    let mut raw = vec![0x11u8; 16];
    push_i32(&mut raw, 0);
    push_i32(&mut raw, 3);
    raw.extend_from_slice(&[0x11u8; 40]);
    let before = raw.clone();
    assert!(patch_guild_rawdata(&mut raw, &[0x11; 16], &[0x22; 16], None, None).is_err());
    assert_eq!(raw, before);
}

#[test]
fn directional_guild_patch_rebinds_only_original_host_identity() {
    let source = [0x11; 16];
    let target = [0x22; 16];
    let other = [0x55; 16];
    let source_instance = [0xA1; 16];
    let target_instance = [0xB2; 16];
    let other_instance = [0xC3; 16];
    let mut raw = Vec::new();

    push_guid(&mut raw, &[0x33; 16]);
    push_i32(&mut raw, 0);
    push_i32(&mut raw, 2);
    let source_handle_uid = push_guid(&mut raw, &source);
    let source_handle_instance = push_guid(&mut raw, &source_instance);
    let other_handle_uid = push_guid(&mut raw, &other);
    let other_handle_instance_offset = push_guid(&mut raw, &other_instance);
    raw.push(0);
    push_i32(&mut raw, 0);
    push_i32(&mut raw, 1);
    let base_id = push_guid(&mut raw, &[0x66; 16]);
    raw.extend_from_slice(&[0x77; 8]);
    push_i32(&mut raw, 1);
    let base_object_id = push_guid(&mut raw, &[0x88; 16]);
    push_i32(&mut raw, 0);
    let last_modifier = push_guid(&mut raw, &source);
    push_i32(&mut raw, 1);
    push_guid(&mut raw, &[0x44; 16]);
    raw.extend_from_slice(&[0x99; 24]);
    push_i32(&mut raw, 0);
    let marker_owner = push_guid(&mut raw, &source);
    let administrator = push_guid(&mut raw, &source);
    push_i32(&mut raw, 2);
    let source_member = push_guid(&mut raw, &source);
    raw.extend_from_slice(&[0; 8]);
    push_i32(&mut raw, 0);
    let other_member = push_guid(&mut raw, &other);
    raw.extend_from_slice(&[0; 8]);
    push_i32(&mut raw, 0);
    push_i32(&mut raw, 0);
    let before = raw.clone();

    let result = patch_original_guild_rawdata(
        &mut raw,
        &source,
        &target,
        &source_instance,
        &target_instance,
        true,
    )
    .expect("应能按单向规则恢复原公会");

    assert!(result.source_was_admin);
    assert_eq!(guid_at(&raw, source_handle_uid), target);
    assert_eq!(guid_at(&raw, source_handle_instance), target_instance);
    assert_eq!(guid_at(&raw, last_modifier), target);
    assert_eq!(guid_at(&raw, marker_owner), target);
    assert_eq!(guid_at(&raw, administrator), target);
    assert_eq!(guid_at(&raw, source_member), target);
    for (offset, length) in [
        (other_handle_uid, 16),
        (other_handle_instance_offset, 16),
        (base_id, 16),
        (base_object_id, 16),
        (other_member, 16),
    ] {
        assert_eq!(&raw[offset..offset + length], &before[offset..offset + length]);
    }
}

fn minimal_guild_raw(member: [u8; 16], instance: [u8; 16], admin: [u8; 16]) -> Vec<u8> {
    let mut raw = Vec::new();
    push_guid(&mut raw, &[0x33; 16]);
    push_i32(&mut raw, 0);
    push_i32(&mut raw, 1);
    push_guid(&mut raw, &member);
    push_guid(&mut raw, &instance);
    raw.push(0);
    push_i32(&mut raw, 0);
    push_i32(&mut raw, 0);
    raw.extend_from_slice(&[0; 8]);
    push_i32(&mut raw, 0);
    push_i32(&mut raw, 0);
    push_guid(&mut raw, &member);
    push_i32(&mut raw, 0);
    push_guid(&mut raw, &admin);
    push_i32(&mut raw, 1);
    push_guid(&mut raw, &member);
    raw.extend_from_slice(&[0; 8]);
    push_i32(&mut raw, 0);
    push_i32(&mut raw, 0);
    raw
}

#[test]
fn admin_is_not_granted_when_original_host_was_not_admin() {
    let source = [0x11; 16];
    let target = [0x22; 16];
    let admin = [0x55; 16];
    let mut raw = minimal_guild_raw(source, [0xA1; 16], admin);

    let result = patch_original_guild_rawdata(&mut raw, &source, &target, &[0xA1; 16], &[0xB2; 16], false)
        .expect("非管理员主角色仍应能恢复成员和句柄");

    assert!(!result.source_was_admin);
    assert!(raw.windows(16).any(|window| window == admin));
}

#[test]
fn restore_refuses_same_identity_and_target_already_member() {
    let source = [0x11; 16];
    let mut raw = minimal_guild_raw(source, [0xA1; 16], [0x55; 16]);
    let before = raw.clone();
    assert!(patch_original_guild_rawdata(&mut raw, &source, &source, &[0xA1; 16], &[0xB2; 16], true).is_err());
    assert_eq!(raw, before);
    let target = [0x55; 16];
    let mut raw = minimal_guild_raw(source, [0xA1; 16], [0x55; 16]);
    let mut extra = minimal_guild_raw(source, [0xA1; 16], [0x55; 16]);
    // The target's instance already has a handle: refused.
    extra[40..56].copy_from_slice(&[0xB2; 16]);
    let before = extra.clone();
    assert!(patch_original_guild_rawdata(&mut extra, &[0x77; 16], &target, &[0x66; 16], &[0xB2; 16], true).is_err());
    assert_eq!(extra, before);
    assert!(patch_original_guild_rawdata(&mut raw, &source, &target, &[0xA1; 16], &[0xB2; 16], true).is_ok());
}

#[test]
fn contains_handle_matches_uid_and_instance_together() {
    let source = [0x11; 16];
    let raw = minimal_guild_raw(source, [0xA1; 16], [0x55; 16]);
    assert_eq!(guild_contains_handle(&raw, &source, &[0xA1; 16]), Ok(true));
    assert_eq!(guild_contains_handle(&raw, &source, &[0xA2; 16]), Ok(false));
    assert!(guild_contains_handle(&raw[..30], &source, &[0xA1; 16]).is_err());
}

#[test]
fn target_character_in_another_guild_is_rejected() {
    let source_group = [0x33; 16];
    assert!(validate_target_group(&[0; 16], &source_group).is_ok());
    assert!(validate_target_group(&source_group, &source_group).is_ok());
    let error = validate_target_group(&[0x44; 16], &source_group).expect_err("目标角色属于其他公会时必须拒绝恢复");
    assert!(error.contains("其他公会"));
}

fn group_record(kind: &str, raw: Vec<u8>) -> PropTree {
    PropTree::Value(StructNode::Custom(vec![
        ("GroupType".to_string(), vec![PropTree::Enum { header: 3, value: kind.to_string() }]),
        ("RawData".to_string(), vec![PropTree::Bytes(raw)]),
    ]))
}

#[test]
fn host_fix_patches_every_guild_of_the_group_map() {
    let old = [0x11; 16];
    let new = [0x22; 16];
    let raw = minimal_guild_raw(old, [0x44; 16], old);
    let mut expected = raw.clone();
    let writes = patch_guild_rawdata(&mut expected, &old, &new, None, None).unwrap();
    assert!(writes > 0);
    let mut entries = vec![
        (PropTree::Opaque(1), group_record("EPalGroupType::Guild", raw.clone())),
        (PropTree::Opaque(2), group_record("EPalGroupType::Neutral", vec![1, 2, 3])),
    ];
    assert_eq!(patch_guild_groups(&mut entries, &old, &new, None, None), Ok(writes));
    assert_eq!(raw_data_bytes(&entries[0].1), Some(&expected));
    assert_ne!(expected, raw);
    assert_eq!(raw_data_bytes(&entries[1].1), Some(&vec![1u8, 2, 3]));
}

#[test]
fn host_fix_leaves_the_group_map_alone_when_a_guild_is_unreadable() {
    let old = [0x11; 16];
    let new = [0x22; 16];
    let raw = minimal_guild_raw(old, [0x44; 16], old);
    let mut entries = vec![
        (PropTree::Opaque(1), group_record("EPalGroupType::Guild", raw.clone())),
        (PropTree::Opaque(2), group_record("EPalGroupType::Guild", vec![1, 2, 3])),
    ];
    assert!(patch_guild_groups(&mut entries, &old, &new, None, None).is_err());
    assert_eq!(raw_data_bytes(&entries[0].1), Some(&raw));
    let mut missing = vec![(PropTree::Opaque(1), PropTree::Value(StructNode::Custom(vec![(
        "GroupType".to_string(),
        vec![PropTree::Enum { header: 3, value: "EPalGroupType::Guild".to_string() }],
    )])))];
    assert_eq!(patch_guild_groups(&mut missing, &old, &new, None, None), Err("公会记录缺少 RawData".to_string()));
}

#[test]
fn renaming_a_member_rewrites_the_first_guild_that_holds_it() {
    let member = [0x11; 16];
    let raw = minimal_guild_raw(member, [0x44; 16], member);
    let mut entries = vec![
        (PropTree::Opaque(1), group_record("EPalGroupType::Neutral", vec![9])),
        (PropTree::Opaque(2), group_record("EPalGroupType::Guild", raw.clone())),
    ];
    assert_eq!(palsave::player_edit::rename_member_in_groups(&mut entries, &member, "新名"), Ok(true));
    let new_raw = raw_data_bytes(&entries[1].1).unwrap().clone();
    let guild = palsave::guild_read::decode_guild_raw(&new_raw).unwrap();
    assert_eq!(guild.players[0].player_name, "新名");
    assert_eq!(raw_data_bytes(&entries[0].1), Some(&vec![9u8]));
    assert_eq!(palsave::player_edit::rename_member_in_groups(&mut entries, &[0x77; 16], "x"), Ok(false));
}
