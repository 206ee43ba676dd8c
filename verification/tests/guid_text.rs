use palsave::guid::{contains_guid, format_guid, guid_bytes, guid_std, swap_guids};
use palsave::sav::{SavCompression, SavFile};

#[test]
fn contains_guid_detects_and_counts() {
    let old: [u8; 16] = [0xABu8; 16];
    let mut raw = Vec::new();
    raw.extend_from_slice(&[0u8; 3]);
    raw.extend_from_slice(&old);
    raw.extend_from_slice(&[0u8; 2]);
    raw.extend_from_slice(&old);

    assert!(contains_guid(&raw, &old), "应检测到 old GUID");
    let other: [u8; 16] = [0xCDu8; 16];
    assert!(!contains_guid(&raw, &other), "不应误报 other GUID");
}

#[test]
fn guid_mapping_roundtrips_palworld_disk_uid_word_order() {
    let uid = "4E239D4F000000000000000000000000";
    let raw = guid_bytes(uid).expect("磁盘 UID 应可解析");

    assert_eq!(&raw[..4], &[0x4F, 0x9D, 0x23, 0x4E], "Palworld FGuid 的每个 u32 以小端存储");
    assert_eq!(guid_std(&raw), uid, "摘要/UI UID 必须能无损往返为 Players 文件名 UID");

    let host_uid = "00000000000000000000000000000001";
    let host_raw = guid_bytes(host_uid).expect("单机主机 UID 应可解析");
    assert_eq!(&host_raw[12..], &[1, 0, 0, 0], "单机主机 UID=FGuid 的第 4 个小端 u32");
    assert_eq!(guid_std(&host_raw), host_uid);
}

#[test]
fn guid_bytes_accepts_separators_and_rejects_bad_text() {
    let dashed = guid_bytes("4e239d4f-0000-0000-0000-000000000001").unwrap();
    let plain = guid_bytes("4E239D4F000000000000000000000001").unwrap();
    assert_eq!(dashed, plain);
    assert_eq!(guid_bytes(" 4E239D4F 00000000\t00000000\n00000001 ").unwrap(), plain);
    assert!(guid_bytes("4E239D4F").is_err());
    assert!(guid_bytes("4E239D4F00000000000000000000000G").is_err());
    assert!(guid_bytes("4E239D4F0000000000000000000000011").is_err());
    assert!(guid_bytes("").is_err());
}

#[test]
fn format_guid_prints_four_little_endian_words() {
    let raw: [u8; 16] = [
        0x01, 0x02, 0x03, 0x04, 0xAA, 0xBB, 0xCC, 0xDD, 0, 0, 0, 0, 0xFF, 0xEE, 0x0D, 0x0C,
    ];
    assert_eq!(format_guid(&raw), "04030201DDCCBBAA000000000C0DEEFF");
    assert_eq!(guid_bytes(&format_guid(&raw)).unwrap(), raw);
}

#[test]
fn replace_guid_bytes_global_swap() {
    let old: [u8; 16] = [0x11u8; 16];
    let new: [u8; 16] = [0x22u8; 16];
    let mut raw = Vec::new();
    raw.extend_from_slice(&[0xAAu8; 5]);
    raw.extend_from_slice(&old);
    raw.extend_from_slice(&[0xBBu8; 3]);
    raw.extend_from_slice(&old);
    raw.extend_from_slice(&[0xCCu8; 4]);

    let mut sav = SavFile { raw: raw.clone(), compression: SavCompression::Plz };
    sav.replace_guid_bytes(&old, &new);

    assert_eq!(sav.raw.windows(16).filter(|w| *w == &old).count(), 0, "old GUID 应被完全替换");
    assert_eq!(sav.raw.windows(16).filter(|w| *w == &new).count(), 2, "new GUID 应出现次数 = 原出现次数");
    assert_eq!(&sav.raw[0..5], &[0xAAu8; 5]);
    assert_eq!(&sav.raw[21..24], &[0xBBu8; 3]);
    assert_eq!(&sav.raw[40..44], &[0xCCu8; 4]);
}

#[test]
fn replace_guid_bytes_noop_when_same() {
    let g: [u8; 16] = [0x33u8; 16];
    let raw = vec![0x01u8; 50];
    let mut sav = SavFile { raw: raw.clone(), compression: SavCompression::Plz };
    sav.replace_guid_bytes(&g, &g);
    assert_eq!(sav.raw, raw, "old==new 时不应改动任何字节");
}

#[test]
fn swap_guids_three_pass_bidirectional() {
    let old: [u8; 16] = [0x11u8; 16];
    let new: [u8; 16] = [0x22u8; 16];

    let mut raw = Vec::new();
    raw.extend_from_slice(&[0xAAu8; 3]);
    raw.extend_from_slice(&old);
    raw.extend_from_slice(&[0xBBu8; 4]);
    raw.extend_from_slice(&new);
    raw.extend_from_slice(&[0xCCu8; 5]);

    let old_before = raw.windows(16).filter(|w| *w == &old).count();
    let new_before = raw.windows(16).filter(|w| *w == &new).count();
    assert_eq!((old_before, new_before), (1, 1));

    swap_guids(&mut raw, &old, &new).expect("swap_guids 应成功");

    let old_after = raw.windows(16).filter(|w| *w == &old).count();
    let new_after = raw.windows(16).filter(|w| *w == &new).count();
    assert_eq!((old_after, new_after), (1, 1), "swap 后 old/new 出现次数应互换（各 1）");
    assert_eq!(&raw[3..19], &new);
    assert_eq!(&raw[23..39], &old);
    assert_eq!(&raw[0..3], &[0xAAu8; 3]);
    assert_eq!(&raw[19..23], &[0xBBu8; 4]);
    assert_eq!(&raw[39..44], &[0xCCu8; 5]);
}

#[test]
fn swap_guids_rejects_temp_collision() {
    let old: [u8; 16] = [0x11u8; 16];
    let new: [u8; 16] = [0x22u8; 16];
    let mut temp = old;
    temp[15] ^= 0xFF;

    let mut raw = Vec::new();
    raw.extend_from_slice(&old);
    raw.extend_from_slice(&temp);
    raw.extend_from_slice(&new);

    let before = raw.clone();
    let r = swap_guids(&mut raw, &old, &new);
    assert!(r.is_err(), "派生 TEMP 已存在时 swap_guids 必须报错，避免静默损坏");
    assert_eq!(raw, before);
}

#[test]
fn swap_guids_noop_when_same() {
    let g: [u8; 16] = [0x33u8; 16];
    let mut raw = vec![0x01u8; 50];
    raw.extend_from_slice(&g);
    let before = raw.clone();
    swap_guids(&mut raw, &g, &g).expect("同值应空操作");
    assert_eq!(raw, before, "old==new 时不应改动任何字节");
}

#[test]
fn swap_guids_twice_restores_the_buffer() {
    let old: [u8; 16] = [0x11u8; 16];
    let new: [u8; 16] = [0x22u8; 16];
    let mut raw = vec![0x00u8; 7];
    raw.extend_from_slice(&new);
    raw.extend_from_slice(&old);
    raw.extend_from_slice(&[0x05u8; 9]);
    let before = raw.clone();
    swap_guids(&mut raw, &old, &new).unwrap();
    assert_ne!(raw, before);
    swap_guids(&mut raw, &old, &new).unwrap();
    assert_eq!(raw, before);
}

#[test]
fn uid_words_are_hexadecimal_numbers_stored_little_endian() {
    let text = "0a1B2c3D-4e5F-6071-8293-a4B5c6D7e8F9";
    let digits: String = text.chars().filter(|c| *c != '-').collect();
    let bytes = guid_bytes(text).unwrap();
    for k in 0..4 {
        let word = u32::from_str_radix(&digits[8 * k..8 * k + 8], 16).unwrap();
        assert_eq!(bytes[4 * k..4 * k + 4], word.to_le_bytes());
    }
}
