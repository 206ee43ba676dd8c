use palsave::fix_host::add_pair_count;
use palsave::fix_host::{
    check_fix_host_files, check_instances, check_swap_counts, fix_host_save_impl, fix_host_save_multi, normalize_uid,
    resolve_uid_mappings,
};
use palsave::models::{
    EditResult, FixHostRequest, PlayerTechnologyPoints, PlayerTechnologyPointsRequest,
    UidMapping, UpdatePlayerTechnologyPointsRequest,
};
use palsave::tech_edit::{player_technology_points_impl, update_player_technology_points_impl};
use std::cell::RefCell;

fn mapping(old: &str, new: &str) -> UidMapping {
    UidMapping { old_uid: old.to_string(), new_uid: new.to_string() }
}

const A: &str = "00000000000000000000000000000001";
const B: &str = "4E239D4F-0000-0000-0000-000000000000";
const C: &str = "0000000000000000000000000000000C";

#[test]
fn normalize_uid_drops_dashes_and_spaces_and_lowercases() {
    assert_eq!(normalize_uid("4E239D4F-0000 0000"), "4e239d4f00000000");
}

#[test]
fn mappings_are_checked_before_any_swap() {
    let calls = RefCell::new(0);
    let fix = |_: usize, _: [u8; 16], _: [u8; 16]| -> Result<usize, String> {
        *calls.borrow_mut() += 1;
        Ok(5)
    };
    assert_eq!(fix_host_save_multi(&[], &fix).unwrap_err(), "请选择一对要交换身份的角色");
    assert!(fix_host_save_multi(&[mapping(A, "xyz")], &fix).is_err());
    assert_eq!(
        fix_host_save_multi(&[mapping(A, "0000-0000000000000000000000000001")], &fix).unwrap_err(),
        format!("角色 UID 相同，无需交换: {A}")
    );
    assert_eq!(
        fix_host_save_multi(&[mapping(A, B), mapping(B, C)], &fix).unwrap_err(),
        "角色 UID 映射存在重复或链式覆盖，无法安全交换"
    );
    assert_eq!(*calls.borrow(), 0);
    assert_eq!(fix_host_save_multi(&[mapping(A, B)], &fix), Ok(5));
    assert_eq!(*calls.borrow(), 1);
}

#[test]
fn resolved_pairs_are_raw_uid_bytes() {
    let pairs = resolve_uid_mappings(&[mapping(A, B)]).unwrap();
    assert_eq!(pairs.len(), 1);
    assert_eq!(pairs[0].0[12..], [1, 0, 0, 0]);
    assert_eq!(pairs[0].1[..4], [0x4F, 0x9D, 0x23, 0x4E]);
}

#[test]
fn fix_host_reads_both_uids_after_finding_the_world() {
    let req = FixHostRequest { world: "w".to_string(), old_host_guid: A.to_string(), new_char_guid: B.to_string() };
    let r = fix_host_save_impl(&req, || Ok("dir"), |d: &str, a: [u8; 16], b: [u8; 16]| {
        assert_eq!(d, "dir");
        assert_eq!(a[12], 1);
        assert_eq!(b[0], 0x4F);
        Ok(3)
    });
    assert_eq!(r, Ok(3));
    let bad = FixHostRequest { world: "w".to_string(), old_host_guid: "zz".to_string(), new_char_guid: B.to_string() };
    assert!(fix_host_save_impl(&bad, || Ok("dir"), |_: &str, _: [u8; 16], _: [u8; 16]| -> Result<usize, String> {
        panic!("must not run")
    })
    .is_err());
    assert_eq!(
        fix_host_save_impl(&req, || -> Result<&str, String> { Err("no world".to_string()) }, |_: &str, _: [u8; 16], _: [u8; 16]| Ok(1)),
        Err("no world".to_string())
    );
}

#[test]
fn technology_points_are_range_checked_before_writing() {
    let req = UpdatePlayerTechnologyPointsRequest {
        world_path: "w".to_string(),
        player_guid: "p".to_string(),
        technology_points: 10_000_000,
        ancient_technology_points: 0,
    };
    let err = update_player_technology_points_impl(&req, || Some(()), |_| -> Result<EditResult, String> {
        panic!("must not write")
    })
    .unwrap_err();
    assert_eq!(err, "科技点必须介于 0 和 9999999 之间");
    let ok = UpdatePlayerTechnologyPointsRequest { technology_points: 12, ancient_technology_points: 3, ..req };
    let result = update_player_technology_points_impl(&ok, || Some(()), |_| Ok(EditResult { ok: true, ..Default::default() })).unwrap();
    assert!(result.ok);
    assert_eq!(result.warnings, vec!["普通科技点已设为 12，古代科技点已设为 3".to_string()]);
    assert_eq!(
        update_player_technology_points_impl(&ok, || None::<()>, |_| Ok(EditResult::default())).unwrap_err(),
        "未找到世界数据(Level.sav)"
    );
}

#[test]
fn technology_points_are_read_from_the_found_world() {
    let req = PlayerTechnologyPointsRequest { world_path: "w".to_string(), player_guid: "p".to_string() };
    let points = PlayerTechnologyPoints { technology_points: 4, ancient_technology_points: 5 };
    assert_eq!(player_technology_points_impl(&req, || Some(7), |d: i32| { assert_eq!(d, 7); Ok(points) }), Ok(points));
    assert_eq!(
        player_technology_points_impl(&req, || None::<i32>, |_| Ok(points)).unwrap_err(),
        "未找到世界数据(Level.sav)"
    );
}

fn files(players: bool, old: bool, new: bool, level: bool) -> palsave::fix_host::FixHostFiles {
    palsave::fix_host::FixHostFiles {
        players_dir: "w/Players".to_string(),
        players_dir_exists: players,
        old_path: "w/Players/01.sav".to_string(),
        old_exists: old,
        new_path: "w/Players/02.sav".to_string(),
        new_exists: new,
        level_path: "w/Level.sav".to_string(),
        level_exists: level,
    }
}

#[test]
fn phase_bc_missing_target_player_is_refused_before_reading() {
    let (a, b) = ([1u8; 16], [2u8; 16]);
    let e = check_fix_host_files(&files(true, true, false, true), &a, &b).unwrap_err();
    assert!(e.contains("新角色存档不存在"), "缺少服务器新角色时必须拒绝: {e}");
    assert_eq!(check_fix_host_files(&files(false, true, true, true), &a, &b), Err("Players 目录不存在: w/Players".to_string()));
    assert_eq!(check_fix_host_files(&files(true, true, true, true), &a, &a), Err("旧主机 GUID 与新角色 GUID 相同，无需替换".to_string()));
    assert_eq!(check_fix_host_files(&files(true, false, true, true), &a, &b), Err("旧主机角色存档不存在: w/Players/01.sav".to_string()));
    assert_eq!(check_fix_host_files(&files(true, true, true, false), &a, &b), Err("Level.sav 不存在: w/Level.sav".to_string()));
    assert_eq!(check_fix_host_files(&files(true, true, true, true), &a, &b), Ok(()));
}

#[test]
fn swap_checks_instances_and_counts() {
    assert!(check_instances(Some([3; 16]), Some([3; 16])).is_err());
    assert_eq!(check_instances(Some([3; 16]), Some([4; 16])), Ok(()));
    assert_eq!(check_instances(None, Some([4; 16])), Ok(()));
    assert_eq!(check_swap_counts(0, 1, 1), Err("Level.sav 中未找到待交换的角色引用，已取消操作".to_string()));
    assert_eq!(check_swap_counts(2, 0, 1), Err("旧主机角色存档中未找到原角色 UID，已取消操作".to_string()));
    assert_eq!(check_swap_counts(2, 1, 0), Err("服务器新角色存档中未找到新角色 UID，已取消操作".to_string()));
    assert_eq!(check_swap_counts(2, 1, 1), Ok(()));
}

#[test]
fn pair_counts_add_up_until_they_overflow() {
    assert_eq!(add_pair_count(3, 4), Ok(7));
    assert_eq!(add_pair_count(usize::MAX, 0), Ok(usize::MAX));
    assert_eq!(add_pair_count(usize::MAX, 1), Err("改写文件计数溢出".to_string()));
}
