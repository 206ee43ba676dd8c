use palsave::level_walk::{level_layout, read_fstring};

fn fstr(out: &mut Vec<u8>, s: &str) {
    out.extend_from_slice(&((s.len() + 1) as i32).to_le_bytes());
    out.extend_from_slice(s.as_bytes());
    out.push(0);
}

fn fstr16(out: &mut Vec<u8>, s: &str) {
    let units: Vec<u16> = s.encode_utf16().collect();
    out.extend_from_slice(&(-((units.len() + 1) as i32)).to_le_bytes());
    for u in units {
        out.extend_from_slice(&u.to_le_bytes());
    }
    out.extend_from_slice(&[0, 0]);
}

fn u32le(out: &mut Vec<u8>, v: u32) {
    out.extend_from_slice(&v.to_le_bytes());
}

/// Writes a sub-field with a map header and a body of `n` bytes; returns
/// where its length field stands and where its body ends.
fn map_field(out: &mut Vec<u8>, name: &str, n: u32) -> (usize, u64) {
    fstr(out, name);
    fstr(out, "MapProperty");
    let at = out.len();
    u32le(out, n);
    u32le(out, 0);
    fstr(out, "StructProperty");
    fstr(out, "StructProperty");
    out.push(0);
    out.extend(std::iter::repeat(7u8).take(n as usize));
    (at, out.len() as u64)
}

fn world_header(out: &mut Vec<u8>) {
    fstr(out, "worldSaveData");
    fstr(out, "StructProperty");
    u32le(out, 0);
    u32le(out, 0);
    fstr(out, "WorldSaveData");
    out.extend_from_slice(&[0u8; 16]);
    out.push(0);
}

#[test]
fn fstrings_in_both_encodings() {
    let mut b = Vec::new();
    fstr(&mut b, "None");
    fstr16(&mut b, "公会");
    let (s, e) = read_fstring(&b, 0).unwrap();
    assert_eq!(s, "None");
    assert_eq!(e, 9);
    let (t, f) = read_fstring(&b, e).unwrap();
    assert_eq!(t, "公会");
    assert_eq!(f, b.len());
    assert!(read_fstring(&b, b.len()).is_none());
    assert!(read_fstring(&[0, 0, 0, 0], 0).is_none());
    assert!(read_fstring(&[2, 0, 0, 0, b'a', b'b'], 0).is_none());
}

#[test]
fn lists_the_sub_fields_of_world_save_data() {
    let mut b = Vec::new();
    world_header(&mut b);
    let (g_at, g_end) = map_field(&mut b, "GroupSaveDataMap", 3);
    fstr(&mut b, "MapObjectSaveData");
    fstr(&mut b, "ArrayProperty");
    let m_at = b.len();
    u32le(&mut b, 5);
    u32le(&mut b, 0);
    fstr(&mut b, "ByteProperty");
    b.push(0);
    b.extend_from_slice(&[1, 2, 3, 4, 5]);
    let m_end = b.len() as u64;
    fstr(&mut b, "GameTimeSaveData");
    fstr(&mut b, "StructProperty");
    let t_at = b.len();
    u32le(&mut b, 2);
    u32le(&mut b, 0);
    fstr(&mut b, "GameTimeSaveData");
    b.extend_from_slice(&[0u8; 16]);
    b.push(0);
    b.extend_from_slice(&[9, 9]);
    let t_end = b.len() as u64;
    fstr(&mut b, "None");

    let layout = level_layout(&b, 0).unwrap();
    assert_eq!(layout.struct_type, "WorldSaveData");
    let got: Vec<(String, String, usize, u64)> =
        layout.fields.iter().map(|f| (f.name.clone(), f.kind.clone(), f.header_pos, f.end)).collect();
    assert_eq!(
        got,
        vec![
            ("GroupSaveDataMap".to_string(), "MapProperty".to_string(), g_at, g_end),
            ("MapObjectSaveData".to_string(), "ArrayProperty".to_string(), m_at, m_end),
            ("GameTimeSaveData".to_string(), "StructProperty".to_string(), t_at, t_end),
        ]
    );
}

#[test]
fn stops_once_the_four_wanted_fields_are_listed() {
    let mut b = Vec::new();
    world_header(&mut b);
    for name in ["CharacterSaveParameterMap", "GroupSaveDataMap", "CharacterContainerSaveData", "GameTimeSaveData"] {
        map_field(&mut b, name, 1);
    }
    b.extend_from_slice(&[0xff, 0xff, 0xff, 0x7f]);
    let layout = level_layout(&b, 0).unwrap();
    assert_eq!(layout.fields.len(), 4);
}

#[test]
fn other_top_level_properties_are_passed_over() {
    let mut b = Vec::new();
    fstr(&mut b, "Version");
    fstr(&mut b, "IntProperty");
    u32le(&mut b, 4);
    u32le(&mut b, 0);
    b.push(0);
    b.extend_from_slice(&[1, 0, 0, 0]);
    world_header(&mut b);
    map_field(&mut b, "GroupSaveDataMap", 2);
    fstr(&mut b, "None");
    let layout = level_layout(&b, 0).unwrap();
    assert_eq!(layout.fields.len(), 1);
    assert_eq!(layout.fields[0].name, "GroupSaveDataMap");
}

#[test]
fn none_first_gives_an_empty_layout() {
    let mut b = Vec::new();
    fstr(&mut b, "None");
    let layout = level_layout(&b, 0).unwrap();
    assert_eq!(layout.struct_type, "");
    assert!(layout.fields.is_empty());
}

#[test]
fn a_header_that_cannot_be_read_keeps_what_was_listed() {
    let mut b = Vec::new();
    world_header(&mut b);
    map_field(&mut b, "GroupSaveDataMap", 2);
    fstr(&mut b, "Broken");
    fstr(&mut b, "MapProperty");
    u32le(&mut b, 1);
    let layout = level_layout(&b, 0).unwrap();
    assert_eq!(layout.fields.len(), 1);
}

#[test]
fn a_truncated_name_fails_the_walk() {
    let mut b = Vec::new();
    world_header(&mut b);
    map_field(&mut b, "GroupSaveDataMap", 2);
    b.extend_from_slice(&[9, 0, 0, 0, b'x']);
    assert!(level_layout(&b, 0).is_none());
    assert!(level_layout(&[], 0).is_none());
}
