use palsave::guild_raw::{GuildHandle, GuildPlayer, GuildRaw};
use palsave::guild_recovery::{inspect_original_guild_admin, inspect_original_guild_identity};
use palsave::guild_write::encode_guild_raw;
use palsave::prop_tree::{PropTree, StructNode};

const P: [u8; 16] = [0xA1; 16];
const P_INST: [u8; 16] = [0x11; 16];
const Q: [u8; 16] = [0xA2; 16];

fn guild(id: [u8; 16], players: &[([u8; 16], [u8; 16])], admin: [u8; 16]) -> GuildRaw {
    GuildRaw {
        group_id: id,
        group_name: "Group".to_string(),
        handles: players.iter().map(|(p, i)| GuildHandle { player_uid: *p, instance_id: *i }).collect(),
        org_type: 1,
        leading_bytes: [0; 4],
        base_ids: vec![],
        unknown_1: 7,
        base_camp_level: 3,
        base_point_ids: vec![],
        guild_name: "Cats".to_string(),
        last_modifier_player_uid: admin,
        markers: vec![],
        guild_chest_allowed_roles: Some(vec![1]),
        unknown_i32: Some(0),
        admin_player_uid: admin,
        players: players
            .iter()
            .map(|(p, _)| GuildPlayer { player_uid: *p, last_online_real_time: 5, player_name: "n".to_string(), role: Some(1) })
            .collect(),
        role_permissions: vec![],
        trailing_bytes: [0; 4],
    }
}

fn record(g: &GuildRaw) -> (PropTree, PropTree) {
    (
        PropTree::Value(StructNode::Guid(g.group_id)),
        PropTree::Value(StructNode::Custom(vec![("RawData".to_string(), vec![PropTree::Bytes(encode_guild_raw(g).unwrap())])])),
    )
}

fn world(guilds: &[GuildRaw]) -> Vec<(String, Vec<PropTree>)> {
    vec![(
        "GroupSaveDataMap".to_string(),
        vec![PropTree::MapProp { header: 1, entries: guilds.iter().map(record).collect() }],
    )]
}

#[test]
fn the_only_guild_listing_the_handle_is_found() {
    let w = world(&[guild([0x31; 16], &[(Q, [0x12; 16])], Q), guild([0x32; 16], &[(P, P_INST), (Q, [0x12; 16])], P)]);
    let o = inspect_original_guild_identity(&w, &[0; 16], &P, &P_INST).unwrap();
    assert_eq!(o.group_id, [0x32; 16]);
    assert!(o.was_admin);
    let declared = inspect_original_guild_identity(&w, &[0x31; 16], &Q, &[0x12; 16]).unwrap();
    assert_eq!(declared.group_id, [0x31; 16]);
}

#[test]
fn ambiguous_or_missing_guilds_are_refused() {
    let w = world(&[guild([0x31; 16], &[(P, P_INST)], P), guild([0x32; 16], &[(P, P_INST)], P)]);
    assert_eq!(
        inspect_original_guild_identity(&w, &[0; 16], &P, &P_INST).err(),
        Some("无法从 Level.sav 唯一识别原单机主角色所属公会，匹配到 2 个".to_string())
    );
    assert_eq!(inspect_original_guild_admin(&w, &[0; 16], &P, &P_INST), Ok(false));
    assert_eq!(
        inspect_original_guild_admin(&w, &[0x99; 16], &P, &P_INST),
        Err("找不到原单机主角色所属公会".to_string())
    );
    let empty: Vec<(String, Vec<PropTree>)> = Vec::new();
    assert_eq!(
        inspect_original_guild_admin(&empty, &[0x31; 16], &P, &P_INST),
        Err("Level.sav 缺少 GroupSaveDataMap".to_string())
    );
}
