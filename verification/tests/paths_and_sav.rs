use palsave::fs_path::check_write_paths;
use std::path::PathBuf;
use palsave::fs_path::{player_sav_candidate, world_dir_candidate};
use palsave::fs_path::{normalize_within, within_decision, WithinDecision};
use palsave::sav::{SavCompression, SavFile};
use std::path::Path;

#[test]
fn normalize_within_keeps_targets_under_the_root() {
    let root = Path::new("/save/World");
    assert_eq!(normalize_within(root, Path::new("/save/World/Players/x")).unwrap(), Path::new("/save/World/Players/x"));
    let p = normalize_within(root, Path::new("/etc/passwd")).unwrap();
    assert!(p.starts_with(root));
    assert!(p.file_name().unwrap() == "passwd");
    assert!(normalize_within(root, Path::new("/etc/pa ss")).is_err());
}

#[test]
fn within_decision_cases() {
    assert_eq!(within_decision(true, None, None), WithinDecision::KeepCandidate);
    assert_eq!(within_decision(false, None, None), WithinDecision::Refuse("备份目标路径非法".to_string()));
    assert_eq!(
        within_decision(false, Some("a.sav".to_string()), Some("a.sav".to_string())),
        WithinDecision::JoinLeaf("a.sav".to_string())
    );
    assert_eq!(within_decision(false, Some("a b".to_string()), None), WithinDecision::Refuse("备份目标路径含非法字符".to_string()));
}

#[test]
fn sav_round_trip_through_bytes() {
    for compression in [SavCompression::Cnk, SavCompression::Plz, SavCompression::Plm] {
        let raw: Vec<u8> = (0..2000u32).map(|i| (i * 7 % 251) as u8).collect();
        let sav = SavFile { raw: raw.clone(), compression };
        let bytes = sav.to_bytes().unwrap();
        assert_eq!(&bytes[0..4], &(raw.len() as u32).to_le_bytes());
        let back = SavFile::from_bytes(&bytes, no_kraken).unwrap();
        assert_eq!(back.raw, raw);
        let expected = if compression == SavCompression::Cnk { SavCompression::Cnk } else { SavCompression::Plz };
        assert_eq!(back.compression, expected);
        assert_eq!(&bytes[8..11], if expected == SavCompression::Cnk { b"CNK" } else { b"PlZ" });
        assert_eq!(bytes[11], if expected == SavCompression::Cnk { 48 } else { 50 });
    }
}

#[test]
fn sav_rejects_short_and_unknown_files() {
    assert_eq!(SavFile::from_bytes(&[0u8; 11], no_kraken).err(), Some("文件过短，不是合法的 Palworld .sav".to_string()));
    let mut b = vec![0u8; 12];
    b[8..11].copy_from_slice(b"XYZ");
    b.extend_from_slice(&[1, 2, 3]);
    assert_eq!(SavFile::from_bytes(&b, no_kraken).err(), Some("未知压缩魔法字节".to_string()));
    let mut plm = vec![0u8; 12];
    plm[4..8].copy_from_slice(&100u32.to_le_bytes());
    plm[8..11].copy_from_slice(b"PlM");
    assert_eq!(SavFile::from_bytes(&plm, no_kraken).err(), Some("PlM 压缩长度越界".to_string()));
}

fn no_kraken(_payload: Vec<u8>, _len: usize) -> Result<(Vec<u8>, usize), String> {
    Err("no Kraken decoder".to_string())
}

#[test]
fn roundtrip_ok_is_false_for_bytes_that_are_not_gvas() {
    let sav = SavFile { raw: vec![1, 2, 3, 4], compression: SavCompression::Plz };
    assert!(!sav.roundtrip_ok(|_raw: Vec<u8>| None, |_raw: Vec<u8>| None));
    assert!(sav.roundtrip_ok(|raw: Vec<u8>| Some(vec![format!("{}", raw.len())]), |raw: Vec<u8>| Some(raw)));
    assert!(!sav.roundtrip_ok(|raw: Vec<u8>| Some(vec![format!("{}", raw.len())]), |_raw: Vec<u8>| Some(vec![0])));
}

#[test]
fn plm_saves_go_to_the_kraken_decoder() {
    let mut plm = vec![0u8; 12];
    plm[0..4].copy_from_slice(&3u32.to_le_bytes());
    plm[4..8].copy_from_slice(&2u32.to_le_bytes());
    plm[8..11].copy_from_slice(b"PlM");
    plm.extend_from_slice(&[9, 8, 7]);
    let ok = SavFile::from_bytes(&plm, |payload: Vec<u8>, len: usize| {
        assert_eq!(payload, vec![9, 8]);
        Ok((vec![1; len], len))
    })
    .unwrap();
    assert_eq!(ok.raw, vec![1, 1, 1]);
    assert_eq!(ok.compression, SavCompression::Plm);
    let short = SavFile::from_bytes(&plm, |_p: Vec<u8>, len: usize| Ok((vec![1; len], len - 1)));
    assert_eq!(short.err(), Some("Oodle(Kraken) 解码长度不符（压缩数据切片不精确或文件损坏？）".to_string()));
    assert_eq!(SavFile::from_bytes(&plm, no_kraken).err(), Some("no Kraken decoder".to_string()));
}

#[test]
fn unknown_magic_rejected() {
    let mut b = vec![0u8; 12];
    b[8..11].copy_from_slice(b"XXX");
    let r = SavFile::from_bytes(&b, no_kraken);
    assert!(r.is_err(), "未知压缩 magic 必须被拒绝");
    let msg = r.err().unwrap();
    assert!(msg.contains("未知") || msg.contains("magic") || msg.contains("魔法"), "错误文案应提示未知 magic，实际: {msg}");
}

#[test]
fn write_paths_are_checked_before_any_write() {
    let ok = vec![PathBuf::from("Level.sav"), PathBuf::from("Players/A.sav")];
    assert_eq!(check_write_paths(&ok), Ok(()));
    let twice = vec![PathBuf::from("Level.sav"), PathBuf::from("Level.sav")];
    assert_eq!(check_write_paths(&twice), Err("重复的写入路径: Level.sav".to_string()));
    let climbing = vec![PathBuf::from("../Level.sav")];
    assert_eq!(check_write_paths(&climbing), Err("写入路径必须是世界目录内的安全相对文件路径".to_string()));
}

#[test]
fn world_and_player_paths_take_only_safe_names() {
    let root = Path::new("/saves");
    assert_eq!(world_dir_candidate("World_01", root), Ok(root.join("World_01")));
    assert_eq!(world_dir_candidate("../World_01", root), Ok(root.join("World_01")));
    assert!(world_dir_candidate("a*b", root).is_err());
    assert!(world_dir_candidate("", root).is_err());
    assert_eq!(player_sav_candidate(root, "ABC.sav"), Ok(root.join("Players").join("ABC.sav")));
    assert_eq!(
        player_sav_candidate(root, "../x"),
        Err("角色 GUID 非法（仅允许字母/数字/下划线/点/连字符）".to_string())
    );
}
