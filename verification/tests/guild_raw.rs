use palsave::guild_raw::{make_guild_leader_raw, rename_guild_raw, GuildPlayer};
use palsave::guild_read::decode_guild_raw;
use palsave::guild_write::{encode_guild_raw, write_fstring};
use palsave::world_copy::decode_guild_name;

fn push_i32(bytes: &mut Vec<u8>, value: i32) {
    bytes.extend_from_slice(&value.to_le_bytes());
}

fn push_i64(bytes: &mut Vec<u8>, value: i64) {
    bytes.extend_from_slice(&value.to_le_bytes());
}

fn push_fstring(bytes: &mut Vec<u8>, value: &str) {
    if value.is_ascii() {
        push_i32(bytes, value.len() as i32 + 1);
        bytes.extend_from_slice(value.as_bytes());
        bytes.push(0);
    } else {
        let utf16 = value.encode_utf16().collect::<Vec<_>>();
        push_i32(bytes, -(utf16.len() as i32 + 1));
        for unit in utf16 {
            bytes.extend_from_slice(&unit.to_le_bytes());
        }
        bytes.extend_from_slice(&0_u16.to_le_bytes());
    }
}

fn guild_fixture(version_two: bool) -> Vec<u8> {
    let group_id = [1_u8; 16];
    let player_uid = [2_u8; 16];
    let instance_id = [3_u8; 16];
    let admin_uid = player_uid;
    let mut bytes = Vec::new();
    bytes.extend_from_slice(&group_id);
    push_fstring(&mut bytes, "Group");
    push_i32(&mut bytes, 1);
    bytes.extend_from_slice(&player_uid);
    bytes.extend_from_slice(&instance_id);
    bytes.push(1);
    bytes.extend_from_slice(&[0, 0, 0, 0]);
    push_i32(&mut bytes, 0);
    push_i32(&mut bytes, 7);
    push_i32(&mut bytes, 12);
    push_i32(&mut bytes, 0);
    push_fstring(&mut bytes, "测试公会");
    bytes.extend_from_slice(&player_uid);
    push_i32(&mut bytes, 0);
    if version_two {
        push_i32(&mut bytes, 2);
        bytes.extend_from_slice(&[1, 2]);
        push_i32(&mut bytes, 99);
    }
    bytes.extend_from_slice(&admin_uid);
    push_i32(&mut bytes, 1);
    bytes.extend_from_slice(&player_uid);
    push_i64(&mut bytes, 123_456);
    push_fstring(&mut bytes, "煜");
    if version_two {
        bytes.push(1);
        push_i32(&mut bytes, 1);
        bytes.push(1);
        push_i32(&mut bytes, 2);
        bytes.extend_from_slice(&[4, 5]);
    }
    bytes.extend_from_slice(&[9, 8, 7, 6]);
    bytes
}

#[test]
fn guild_raw_v1_round_trips_and_exposes_membership() {
    let original = guild_fixture(false);
    let guild = decode_guild_raw(&original).expect("旧版公会应可解析");
    assert_eq!(guild.guild_name, "测试公会");
    assert_eq!(guild.base_camp_level, 12);
    assert_eq!(guild.players.len(), 1);
    assert_eq!(guild.players[0].player_name, "煜");
    assert_eq!(guild.players[0].role, None);
    assert_eq!(guild.admin_player_uid, [2_u8; 16]);
    assert_eq!(encode_guild_raw(&guild).unwrap(), original);
}

#[test]
fn guild_raw_v2_round_trips_and_exposes_roles() {
    let original = guild_fixture(true);
    let guild = decode_guild_raw(&original).expect("新版公会应可解析");
    assert_eq!(guild.players[0].role, Some(1));
    assert_eq!(guild.guild_chest_allowed_roles, Some(vec![1, 2]));
    assert_eq!(guild.role_permissions.len(), 1);
    assert_eq!(encode_guild_raw(&guild).unwrap(), original);
}

#[test]
fn guild_rename_preserves_membership_and_unknown_fields() {
    let original = decode_guild_raw(&guild_fixture(true)).unwrap();
    let mut candidate = original.clone();

    rename_guild_raw(&mut candidate, "新的公会名").expect("应重命名公会");

    assert_eq!(candidate.guild_name, "新的公会名");
    assert_eq!(candidate.players, original.players);
    assert_eq!(candidate.handles, original.handles);
    assert_eq!(candidate.base_ids, original.base_ids);
    assert_eq!(candidate.role_permissions, original.role_permissions);
    assert_eq!(candidate.trailing_bytes, original.trailing_bytes);
    let reparsed = decode_guild_raw(&encode_guild_raw(&candidate).unwrap()).unwrap();
    assert_eq!(reparsed, candidate);
}

#[test]
fn guild_leader_change_updates_v2_roles_and_demotes_old_leader() {
    let mut guild = decode_guild_raw(&guild_fixture(true)).unwrap();
    let previous_admin = guild.admin_player_uid;
    let new_admin = [4_u8; 16];
    guild.players.push(GuildPlayer {
        player_uid: new_admin,
        last_online_real_time: 654_321,
        player_name: "刘".to_string(),
        role: Some(3),
    });

    make_guild_leader_raw(&mut guild, &new_admin).expect("应设置新队长");

    assert_eq!(guild.admin_player_uid, new_admin);
    assert_eq!(
        guild
            .players
            .iter()
            .find(|player| player.player_uid == new_admin)
            .unwrap()
            .role,
        Some(1)
    );
    assert_eq!(
        guild
            .players
            .iter()
            .find(|player| player.player_uid == previous_admin)
            .unwrap()
            .role,
        Some(2)
    );
}

#[test]
fn decode_guild_name_ascii() {
    let name = "MyGuild";
    let mut b = vec![0u8; 16];
    b.extend_from_slice(&(name.len() as i32).to_le_bytes());
    b.extend_from_slice(name.as_bytes());
    assert_eq!(decode_guild_name(&b), name, "应解码 ASCII 公会名");
}

#[test]
fn decode_guild_name_short_returns_empty() {
    let b = vec![0u8; 10];
    assert_eq!(decode_guild_name(&b), "");
}

#[test]
fn guild_leader_change_in_old_revision_keeps_roles() {
    let mut guild = decode_guild_raw(&guild_fixture(false)).unwrap();
    let new_admin = [4_u8; 16];
    guild.players.push(GuildPlayer {
        player_uid: new_admin,
        last_online_real_time: 1,
        player_name: "Ann".to_string(),
        role: None,
    });
    make_guild_leader_raw(&mut guild, &new_admin).unwrap();
    assert_eq!(guild.admin_player_uid, new_admin);
    assert!(guild.players.iter().all(|player| player.role.is_none()));
}

#[test]
fn guild_leader_change_refuses_a_non_member() {
    let original = decode_guild_raw(&guild_fixture(true)).unwrap();
    let mut guild = original.clone();
    assert_eq!(
        make_guild_leader_raw(&mut guild, &[9_u8; 16]),
        Err("所选玩家不属于该公会".to_string())
    );
    assert_eq!(guild, original);
}

#[test]
fn guild_rename_trims_and_refuses_bad_lengths() {
    let original = decode_guild_raw(&guild_fixture(false)).unwrap();
    let mut guild = original.clone();
    rename_guild_raw(&mut guild, "  Wolves \n").unwrap();
    assert_eq!(guild.guild_name, "Wolves");
    let mut same = original.clone();
    assert_eq!(
        rename_guild_raw(&mut same, "   "),
        Err("名称必须为 1–50 个字符".to_string())
    );
    assert_eq!(same, original);
    let long: String = std::iter::repeat('名').take(51).collect();
    assert!(rename_guild_raw(&mut same, &long).is_err());
    let fifty: String = std::iter::repeat('名').take(50).collect();
    assert!(rename_guild_raw(&mut same, &fifty).is_ok());
}

#[test]
fn write_fstring_uses_utf8_for_ascii_and_utf16_otherwise() {
    let mut ascii = Vec::new();
    write_fstring(&mut ascii, "Ab").unwrap();
    assert_eq!(ascii, vec![3, 0, 0, 0, b'A', b'b', 0]);
    let mut wide = Vec::new();
    write_fstring(&mut wide, "煜").unwrap();
    assert_eq!(wide, vec![0xfe, 0xff, 0xff, 0xff, 0x5c, 0x71, 0, 0]);
    let mut empty = Vec::new();
    write_fstring(&mut empty, "").unwrap();
    assert_eq!(empty, vec![1, 0, 0, 0, 0]);
}

#[test]
fn encoding_a_new_revision_member_without_role_fails() {
    let mut guild = decode_guild_raw(&guild_fixture(true)).unwrap();
    guild.players[0].role = None;
    assert!(encode_guild_raw(&guild).is_err());
    let mut no_reserved = decode_guild_raw(&guild_fixture(true)).unwrap();
    no_reserved.unknown_i32 = None;
    assert!(encode_guild_raw(&no_reserved).is_err());
}

#[test]
fn truncated_or_padded_guild_blobs_are_rejected() {
    let original = guild_fixture(true);
    assert!(decode_guild_raw(&original[..original.len() - 1]).is_err());
    let mut padded = original.clone();
    padded.push(0);
    assert!(decode_guild_raw(&padded).is_err());
    assert!(decode_guild_raw(&[]).is_err());
}
