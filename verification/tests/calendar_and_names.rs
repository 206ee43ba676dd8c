use palsave::calendar::{days_to_ymd, format_timestamp_secs};
use palsave::fs_path::{check_relative_parts, is_reserved_world_name, validate_relative_path};
use palsave::guid::splitmix64;
use palsave::names::{normalize_steam_id, validate_player_file_stem};
use std::path::Path;

#[test]
fn day_numbers_give_calendar_dates() {
    assert_eq!(days_to_ymd(0), (1970, 1, 1));
    assert_eq!(days_to_ymd(31), (1970, 2, 1));
    assert_eq!(days_to_ymd(59), (1970, 3, 1));
    assert_eq!(days_to_ymd(364), (1970, 12, 31));
    assert_eq!(days_to_ymd(365), (1971, 1, 1));
    assert_eq!(days_to_ymd(11016), (2000, 2, 29));
    assert_eq!(days_to_ymd(11017), (2000, 3, 1));
    assert_eq!(days_to_ymd(19723), (2024, 1, 1));
    assert_eq!(days_to_ymd(19782), (2024, 2, 29));
}

#[test]
fn timestamps_are_utc_plus_eight() {
    assert_eq!(format_timestamp_secs(0), "19700101-080000");
    assert_eq!(format_timestamp_secs(1_700_000_000), "20231115-061320");
    // 16:00 UTC is already the next day at UTC+8.
    assert_eq!(format_timestamp_secs(57_600), "19700102-000000");
}

#[test]
fn steam_ids_become_file_stems() {
    assert_eq!(normalize_steam_id("  76561198000000000.sav "), Some("76561198000000000".to_string()));
    assert_eq!(normalize_steam_id("abc"), Some("abc".to_string()));
    assert_eq!(normalize_steam_id(""), None);
    assert_eq!(normalize_steam_id(".sav"), None);
    assert_eq!(normalize_steam_id("a b"), None);
}

#[test]
fn player_file_stems_are_32_hex_digits() {
    assert!(validate_player_file_stem("0123456789abcdefABCDEF0123456789").is_ok());
    assert_eq!(
        validate_player_file_stem("0123456789abcdefABCDEF012345678"),
        Err("角色文件标识必须是 32 位十六进制字符串".to_string())
    );
    assert!(validate_player_file_stem("0123456789abcdefABCDEF012345678g").is_err());
}

#[test]
fn reserved_world_directories() {
    assert!(is_reserved_world_name(None));
    assert!(is_reserved_world_name(Some("_backups")));
    assert!(is_reserved_world_name(Some("Backup")));
    assert!(is_reserved_world_name(Some("BACKUPS")));
    assert!(is_reserved_world_name(Some("snapshots")));
    assert!(!is_reserved_world_name(Some("World1")));
    assert!(!is_reserved_world_name(Some("backup2")));
}

#[test]
fn relative_write_paths() {
    let msg = "写入路径必须是世界目录内的安全相对文件路径".to_string();
    assert_eq!(validate_relative_path(Path::new("Players/a.sav")), Ok(()));
    assert_eq!(validate_relative_path(Path::new("Level.sav")), Ok(()));
    assert_eq!(validate_relative_path(Path::new("../Level.sav")), Err(msg.clone()));
    assert_eq!(validate_relative_path(Path::new("")), Err(msg.clone()));
    assert_eq!(check_relative_parts(false, false, &vec![true, true]), Ok(()));
    assert_eq!(check_relative_parts(false, true, &vec![true]), Err(msg.clone()));
    assert_eq!(check_relative_parts(false, false, &vec![true, false]), Err(msg));
}

#[test]
fn splitmix_from_zero() {
    let mut s: u64 = 0;
    assert_eq!(splitmix64(&mut s), 0xE220_A839_7B1D_CDAF);
    assert_eq!(s, 0x9E37_79B9_7F4A_7C15);
    assert_eq!(splitmix64(&mut s), 0x6E78_9E6A_A1B9_65F4);
}
