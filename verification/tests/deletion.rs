use palsave::deletion::CharacterOwner;
use palsave::guild_members::{remove_member_raw, MemberRemoval};
use palsave::guild_raw::{GuildHandle, GuildPlayer, GuildRaw};
use palsave::guild_read::decode_guild_raw;
use palsave::guild_write::encode_guild_raw;
use palsave::prop_tree::{PropTree, StructNode};
use palsave::world_delete::{delete_guild_from_world, delete_player_from_world};
use palsave::world_guilds::{edit_guild_in_world, GuildEdit};

const P: [u8; 16] = [0xA1; 16];
const Q: [u8; 16] = [0xA2; 16];
const P_INST: [u8; 16] = [0x11; 16];
const Q_INST: [u8; 16] = [0x12; 16];
const X_INST: [u8; 16] = [0x21; 16];
const Y_INST: [u8; 16] = [0x22; 16];
const GUILD: [u8; 16] = [0x33; 16];
const BASE: [u8; 16] = [0x44; 16];
const C1: [u8; 16] = [0xC1; 16];
const C2: [u8; 16] = [0xC2; 16];

fn container(id: [u8; 16], items: Vec<StructNode>) -> (PropTree, PropTree) {
    (
        PropTree::Value(StructNode::Custom(fields(vec![("ID", vec![guid_prop(id)])]))),
        PropTree::Value(StructNode::Custom(fields(vec![("Slots", vec![PropTree::StructArray { header: 9, items }])]))),
    )
}

fn guid_prop(g: [u8; 16]) -> PropTree {
    PropTree::Struct { struct_type: "Guid".to_string(), header: 0, value: StructNode::Guid(g) }
}

fn fields(fs: Vec<(&str, Vec<PropTree>)>) -> Vec<(String, Vec<PropTree>)> {
    fs.into_iter().map(|(n, v)| (n.to_string(), v)).collect()
}

fn map(entries: Vec<(PropTree, PropTree)>) -> PropTree {
    PropTree::MapProp { header: 7, entries }
}

fn character_key(player: [u8; 16], instance: [u8; 16]) -> PropTree {
    PropTree::Value(StructNode::Custom(fields(vec![("PlayerUId", vec![guid_prop(player)]), ("InstanceId", vec![guid_prop(instance)])])))
}

fn slot_blob(player: [u8; 16], instance: [u8; 16]) -> Vec<u8> {
    let mut b = player.to_vec();
    b.extend_from_slice(&instance);
    b.push(1);
    b
}

fn slot(player: [u8; 16], instance: [u8; 16]) -> StructNode {
    StructNode::Custom(fields(vec![("RawData", vec![PropTree::Bytes(slot_blob(player, instance))])]))
}

fn guild(players: &[[u8; 16]], admin: [u8; 16]) -> GuildRaw {
    GuildRaw {
        group_id: GUILD,
        group_name: "Group".to_string(),
        handles: players.iter().map(|p| GuildHandle { player_uid: *p, instance_id: [p[0] ^ 0xFF; 16] }).collect(),
        org_type: 1,
        leading_bytes: [0; 4],
        base_ids: vec![BASE],
        unknown_1: 7,
        base_camp_level: 3,
        base_point_ids: vec![],
        guild_name: "Cats".to_string(),
        last_modifier_player_uid: admin,
        markers: vec![],
        guild_chest_allowed_roles: Some(vec![1]),
        unknown_i32: Some(0),
        admin_player_uid: admin,
        players: players
            .iter()
            .map(|p| GuildPlayer { player_uid: *p, last_online_real_time: 5, player_name: "n".to_string(), role: Some(1) })
            .collect(),
        role_permissions: vec![],
        trailing_bytes: [0; 4],
    }
}

fn group_record(g: &GuildRaw) -> PropTree {
    PropTree::Value(StructNode::Custom(fields(vec![
        ("GroupType", vec![PropTree::Enum { header: 2, value: "EPalGroupType::Guild".to_string() }]),
        ("RawData", vec![PropTree::Bytes(encode_guild_raw(g).unwrap())]),
    ])))
}

fn world(g: &GuildRaw) -> Vec<(String, Vec<PropTree>)> {
    fields(vec![
        (
            "CharacterSaveParameterMap",
            vec![map(vec![
                (character_key(P, P_INST), PropTree::Opaque(1)),
                (character_key(Q, Q_INST), PropTree::Opaque(2)),
                (character_key([0; 16], X_INST), PropTree::Opaque(3)),
                (character_key([0; 16], Y_INST), PropTree::Opaque(4)),
            ])],
        ),
        (
            "CharacterContainerSaveData",
            vec![map(vec![container(C1, vec![slot(P, P_INST), slot([0; 16], X_INST)]), container(C2, vec![slot([0; 16], Y_INST)])])],
        ),
        ("GroupSaveDataMap", vec![map(vec![(PropTree::Value(StructNode::Guid(GUILD)), group_record(g))])]),
        ("GuildExtraSaveDataMap", vec![map(vec![(PropTree::Value(StructNode::Guid(GUILD)), PropTree::Opaque(5))])]),
        ("BaseCampSaveData", vec![map(vec![(PropTree::Value(StructNode::Guid(BASE)), PropTree::Opaque(6))])]),
        ("InvaderSaveData", vec![map(vec![(PropTree::Value(StructNode::Guid([0x55; 16])), PropTree::Opaque(7))])]),
    ])
}

fn characters() -> Vec<Option<CharacterOwner>> {
    vec![
        Some(CharacterOwner { owner: None, is_player: true }),
        Some(CharacterOwner { owner: None, is_player: true }),
        Some(CharacterOwner { owner: Some(P), is_player: false }),
        Some(CharacterOwner { owner: Some(Q), is_player: false }),
    ]
}

fn map_entries<'a>(w: &'a [(String, Vec<PropTree>)], name: &str) -> &'a Vec<(PropTree, PropTree)> {
    match &w.iter().find(|(n, _)| n == name).unwrap().1[0] {
        PropTree::MapProp { entries, .. } => entries,
        _ => panic!("not a map"),
    }
}

fn slots(w: &[(String, Vec<PropTree>)]) -> Vec<Vec<u8>> {
    let mut out = Vec::new();
    for (_, value) in map_entries(w, "CharacterContainerSaveData") {
        let PropTree::Value(StructNode::Custom(f)) = value else { panic!() };
        let PropTree::StructArray { items, .. } = &f[0].1[0] else { panic!() };
        for s in items {
            let StructNode::Custom(f) = s else { panic!() };
            let PropTree::Bytes(b) = &f[0].1[0] else { panic!() };
            out.push(b.clone());
        }
    }
    out
}

fn guild_in(w: &[(String, Vec<PropTree>)]) -> Option<GuildRaw> {
    let entries = map_entries(w, "GroupSaveDataMap");
    entries.first().map(|(_, v)| {
        let PropTree::Value(StructNode::Custom(f)) = v else { panic!() };
        let PropTree::Bytes(b) = &f[1].1[0] else { panic!() };
        decode_guild_raw(b).unwrap()
    })
}

#[test]
fn deleting_a_player_takes_its_characters_and_leadership() {
    let mut w = world(&guild(&[P, Q], P));
    delete_player_from_world(&mut w, &P, &characters()).unwrap();
    let cspm = map_entries(&w, "CharacterSaveParameterMap");
    assert_eq!(cspm.len(), 2);
    assert_eq!(cspm[0].0, character_key(Q, Q_INST));
    assert_eq!(cspm[1].0, character_key([0; 16], Y_INST));
    assert_eq!(slots(&w), vec![vec![], vec![], slot_blob([0; 16], Y_INST)]);
    let g = guild_in(&w).unwrap();
    assert_eq!(g.players.len(), 1);
    assert_eq!(g.players[0].player_uid, Q);
    assert_eq!(g.players[0].role, Some(1));
    assert_eq!(g.admin_player_uid, Q);
    assert_eq!(g.handles.len(), 1);
    assert_eq!(map_entries(&w, "GuildExtraSaveDataMap").len(), 1);
    assert_eq!(map_entries(&w, "BaseCampSaveData").len(), 1);
}

#[test]
fn deleting_the_last_member_removes_the_guild_and_its_bases() {
    let mut w = world(&guild(&[P], P));
    delete_player_from_world(&mut w, &P, &characters()).unwrap();
    assert!(guild_in(&w).is_none());
    assert!(map_entries(&w, "GuildExtraSaveDataMap").is_empty());
    assert!(map_entries(&w, "BaseCampSaveData").is_empty());
    assert_eq!(map_entries(&w, "InvaderSaveData").len(), 1);
}

#[test]
fn deleting_a_guild_takes_its_members_and_their_pals() {
    let mut w = world(&guild(&[P, Q], P));
    delete_guild_from_world(&mut w, &GUILD, &characters()).unwrap();
    assert!(map_entries(&w, "CharacterSaveParameterMap").is_empty());
    assert_eq!(slots(&w), vec![Vec::<u8>::new(), vec![], vec![]]);
    assert!(guild_in(&w).is_none());
    assert!(map_entries(&w, "GuildExtraSaveDataMap").is_empty());
    assert!(map_entries(&w, "BaseCampSaveData").is_empty());
}

#[test]
fn deletion_errors() {
    let mut w = world(&guild(&[P, Q], P));
    assert_eq!(delete_player_from_world(&mut w, &[0x99; 16], &characters()), Err("所选玩家不存在".to_string()));
    assert_eq!(delete_guild_from_world(&mut w, &[0x99; 16], &characters()), Err("所选公会不存在".to_string()));
    let mut empty: Vec<(String, Vec<PropTree>)> = Vec::new();
    assert_eq!(
        delete_player_from_world(&mut empty, &P, &Vec::new()),
        Err("世界存档缺少 CharacterSaveParameterMap".to_string())
    );
    let mut no_groups = world(&guild(&[P], P));
    no_groups.retain(|(n, _)| n != "GroupSaveDataMap");
    assert_eq!(
        delete_guild_from_world(&mut no_groups, &GUILD, &characters()),
        Err("世界存档缺少 GroupSaveDataMap".to_string())
    );
}

#[test]
fn removing_a_member_who_is_not_one_changes_nothing() {
    let mut g = guild(&[P, Q], P);
    let before = g.clone();
    assert_eq!(remove_member_raw(&mut g, &[0x99; 16]), MemberRemoval::NotMember);
    assert_eq!(g, before);
    assert_eq!(remove_member_raw(&mut g, &Q), MemberRemoval::Removed);
    assert_eq!(g.admin_player_uid, P);
    assert_eq!(g.players.len(), 1);
    assert_eq!(remove_member_raw(&mut g, &P), MemberRemoval::Emptied);
}

const GUILD_TEXT: &str = "33333333333333333333333333333333";

#[test]
fn renaming_a_guild_in_the_world_trims_the_name() {
    let mut w = world(&guild(&[P, Q], P));
    edit_guild_in_world(&mut w, GUILD_TEXT, &GuildEdit::Rename("  Dogs ".to_string())).unwrap();
    let g = guild_in(&w).unwrap();
    assert_eq!(g.guild_name, "Dogs");
    assert_eq!(g.players.len(), 2);
    assert_eq!(map_entries(&w, "CharacterSaveParameterMap").len(), 4);
}

#[test]
fn making_a_member_leader_in_the_world() {
    let mut w = world(&guild(&[P, Q], P));
    edit_guild_in_world(&mut w, GUILD_TEXT, &GuildEdit::MakeLeader(Q)).unwrap();
    let g = guild_in(&w).unwrap();
    assert_eq!(g.admin_player_uid, Q);
}

#[test]
fn guild_edit_errors() {
    let mut w = world(&guild(&[P, Q], P));
    assert_eq!(
        edit_guild_in_world(&mut w, "00000000000000000000000000000000", &GuildEdit::Rename("Dogs".to_string())),
        Err("所选公会不存在".to_string())
    );
    let mut w = world(&guild(&[P, Q], P));
    assert!(edit_guild_in_world(&mut w, GUILD_TEXT, &GuildEdit::MakeLeader([0x99; 16])).is_err());
    let mut w = world(&guild(&[P, Q], P));
    assert!(edit_guild_in_world(&mut w, GUILD_TEXT, &GuildEdit::Rename("   ".to_string())).is_err());
    let mut no_groups = world(&guild(&[P], P));
    no_groups.retain(|(n, _)| n != "GroupSaveDataMap");
    assert_eq!(
        edit_guild_in_world(&mut no_groups, GUILD_TEXT, &GuildEdit::Rename("Dogs".to_string())),
        Err("世界存档缺少 GroupSaveDataMap".to_string())
    );
    let mut w = world(&guild(&[P], P));
    w.iter_mut().find(|(n, _)| n == "GroupSaveDataMap").unwrap().1[0] = map(vec![(
        PropTree::Value(StructNode::Guid(GUILD)),
        PropTree::Value(StructNode::Custom(fields(vec![(
            "GroupType",
            vec![PropTree::Enum { header: 2, value: "EPalGroupType::Guild".to_string() }],
        )]))),
    )]);
    assert_eq!(
        edit_guild_in_world(&mut w, GUILD_TEXT, &GuildEdit::Rename("Dogs".to_string())),
        Err("公会记录缺少 RawData".to_string())
    );
}
