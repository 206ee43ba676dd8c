use palsave::modifier::{
    format_last_seen, preview_modifier_action_impl, validate_action_request, ModifierAction,
    ModifierActionRequest, ModifierGuild, ModifierPlayer, ModifierProgressPhase,
    ModifierWorldState, PreviewWorld,
};

#[test]
fn modifier_progress_phases_are_real_and_user_facing() {
    assert_eq!(
        ModifierProgressPhase::ordered(),
        [
            ModifierProgressPhase::CheckingProcesses,
            ModifierProgressPhase::CreatingSnapshot,
            ModifierProgressPhase::BuildingChanges,
            ModifierProgressPhase::WritingSave,
            ModifierProgressPhase::VerifyingSave,
            ModifierProgressPhase::RefreshingData,
        ]
    );
    assert_eq!(ModifierProgressPhase::CreatingSnapshot.label(), "创建回滚点");
}

#[test]
fn last_seen_uses_world_ticks_instead_of_exposing_raw_values() {
    const SECOND: i64 = 10_000_000;

    assert_eq!(format_last_seen(0, 20 * SECOND), None);
    assert_eq!(format_last_seen(19 * SECOND, 20 * SECOND), Some("刚刚".to_string()));
    assert_eq!(
        format_last_seen(20 * SECOND, 20 * SECOND + 3_600 * SECOND),
        Some("1 小时前".to_string()),
    );
    assert_eq!(
        format_last_seen(20 * SECOND, 20 * SECOND + 2 * 86_400 * SECOND),
        Some("2 天前".to_string()),
    );
}

#[test]
fn last_seen_minutes_and_clock_skew() {
    const SECOND: i64 = 10_000_000;
    assert_eq!(format_last_seen(SECOND, SECOND + 125 * SECOND), Some("2 分钟前".to_string()));
    assert_eq!(format_last_seen(SECOND + 30 * SECOND, SECOND), Some("0 天前".to_string()));
    assert_eq!(format_last_seen(SECOND + SECOND / 2, SECOND), Some("刚刚".to_string()));
    assert_eq!(format_last_seen(SECOND + 90_000 * SECOND, SECOND), Some("-1 天前".to_string()));
    assert_eq!(format_last_seen(SECOND + 3_600 * SECOND, SECOND), Some("0 天前".to_string()));
}

fn request(action: ModifierAction) -> ModifierActionRequest {
    ModifierActionRequest {
        world_path: "missing".to_string(),
        action,
        player_uid: Some("PLAYER".to_string()),
        guild_id: None,
        value: None,
        level: None,
        technology_points: None,
        ancient_technology_points: None,
    }
}

#[test]
fn preview_rejects_level_outside_supported_range_before_reading_world() {
    let mut request = request(ModifierAction::SetPlayerLevel);
    request.level = Some(81);

    let error = preview_modifier_action_impl(&request, || -> Result<PreviewWorld, String> {
        panic!("the world must not be read")
    })
    .expect_err("81 级必须被拒绝");
    assert!(error.contains("1–80"));
}

#[test]
fn validation_covers_names_and_technology_points() {
    let mut r = request(ModifierAction::RenamePlayer);
    r.value = Some("   ".to_string());
    assert_eq!(validate_action_request(&r), Err("名称必须为 1–50 个字符".to_string()));
    r.value = Some("x".repeat(51));
    assert!(validate_action_request(&r).is_err());
    r.value = Some(" 新名字 ".to_string());
    assert!(validate_action_request(&r).is_ok());
    let mut t = request(ModifierAction::SetTechnologyPoints);
    t.technology_points = Some(10);
    t.ancient_technology_points = Some(10_000_000);
    assert_eq!(validate_action_request(&t), Err("科技点必须为 0–9999999".to_string()));
    t.ancient_technology_points = Some(0);
    assert!(validate_action_request(&t).is_ok());
    assert!(validate_action_request(&request(ModifierAction::DeleteGuild)).is_ok());
}

fn world() -> PreviewWorld {
    let player = |uid: &str, name: &str, pals: u32, guild: Option<&str>| ModifierPlayer {
        player_uid: uid.to_string(),
        guid: uid.to_string(),
        nickname: name.to_string(),
        level: 10,
        pal_count: pals,
        guild_id: guild.map(|g| g.to_string()),
        guild_name: None,
        role: String::new(),
        is_leader: false,
        last_online: None,
        technology_points: 0,
        ancient_technology_points: 0,
    };
    PreviewWorld {
        state: ModifierWorldState {
            world_name: "w".to_string(),
            players: vec![
                player("AAAA", "甲", 3, Some("G1")),
                player("BBBB", "乙", 4, Some("G1")),
                player("CCCC", "丙", 5, None),
            ],
            guilds: vec![ModifierGuild {
                guild_id: "G1".to_string(),
                name: "公会".to_string(),
                level: 1,
                leader_uid: "AAAA".to_string(),
                leader_name: "甲".to_string(),
                member_count: 2,
                base_count: 1,
                admin_player_uid: "AAAA".to_string(),
                members: Vec::new(),
            }],
            server_running: false,
            game_running: false,
        },
        player_file_counts: vec![2, 1, 0],
    }
}

#[test]
fn preview_counts_guild_members_and_their_files() {
    let mut r = request(ModifierAction::DeleteGuild);
    r.guild_id = Some("g1".to_string());
    let p = preview_modifier_action_impl(&r, || Ok(world())).unwrap();
    assert_eq!(p.confirmation_name, "公会");
    assert_eq!(p.player_count, 2);
    assert_eq!(p.pal_count, 7);
    assert_eq!(p.file_count, 4);
    assert_eq!(p.summary, "将删除公会 公会、全部成员及关联数据。");
}

#[test]
fn preview_of_player_actions() {
    let mut r = request(ModifierAction::SetPlayerLevel);
    r.player_uid = Some("bbbb".to_string());
    r.level = Some(42);
    let p = preview_modifier_action_impl(&r, || Ok(world())).unwrap();
    assert_eq!(p.summary, "将玩家 乙 的等级设为 42。");
    assert_eq!(p.pal_count, 4);
    let mut d = request(ModifierAction::DeletePlayer);
    d.player_uid = Some("AAAA".to_string());
    assert_eq!(preview_modifier_action_impl(&d, || Ok(world())).unwrap().file_count, 3);
    let mut m = request(ModifierAction::MakeGuildLeader);
    m.player_uid = Some("CCCC".to_string());
    assert_eq!(
        preview_modifier_action_impl(&m, || Ok(world())).unwrap_err(),
        "所选玩家不属于任何公会"
    );
    m.player_uid = Some("BBBB".to_string());
    assert_eq!(
        preview_modifier_action_impl(&m, || Ok(world())).unwrap().summary,
        "将 乙 设为公会 公会 的队长。"
    );
    let mut x = request(ModifierAction::RenamePlayer);
    x.player_uid = Some("ZZZZ".to_string());
    x.value = Some("新".to_string());
    assert_eq!(preview_modifier_action_impl(&x, || Ok(world())).unwrap_err(), "所选玩家不存在");
    assert_eq!(
        preview_modifier_action_impl(&x, || Err("读取失败".to_string())).unwrap_err(),
        "读取失败"
    );
}
