use gvas::engine_version::FEngineVersion;
use gvas::game_version::{DeserializedGameVersion, GameVersion};
use gvas::properties::int_property::IntProperty;
use gvas::properties::str_property::StrProperty;
use gvas::types::map::HashableIndexMap;
use gvas::{GvasFile, GvasHeader};
use palsave::gvas_io::palworld_hints;
use palsave::sav::{decode_sav, SavCompression, SavFile};
use std::io::Cursor;

#[test]
fn to_bytes_produces_a_complete_sav_that_can_be_decoded_without_disk_io() {
    let original = SavFile { raw: b"candidate-gvas-payload".to_vec(), compression: SavCompression::Plz };
    let encoded = original.to_bytes().expect("应能在内存中生成完整 sav 字节");
    let (decoded, compression) = decode_sav(&encoded, |_p: Vec<u8>, _n: usize| Err("no Kraken".to_string())).expect("生成的 sav 字节必须可回读");
    assert_eq!(decoded, original.raw);
    assert_eq!(compression, SavCompression::Plz);
}

#[test]
fn parse_and_roundtrip_preserves_keys() {
    let mut props = HashableIndexMap::new();
    props.insert("TestInt".to_string(), IntProperty::new(1234).into());
    props.insert("TestStr".to_string(), StrProperty::new(Some("hello".into())).into());

    let gvas = GvasFile {
        deserialized_game_version: DeserializedGameVersion::Default,
        header: GvasHeader::Version2 {
            package_file_version: 0x20B,
            engine_version: FEngineVersion::new(5, 0, 0, 0, String::new()),
            custom_version_format: 3,
            custom_versions: HashableIndexMap::new(),
            save_game_class_name: "TestSave".to_string(),
        },
        properties: props,
    };

    let mut cur = Cursor::new(Vec::new());
    gvas.write(&mut cur).expect("gvas write 必须成功");
    let raw = cur.into_inner();

    let sanity = GvasFile::read(&mut Cursor::new(raw.clone()), GameVersion::Default);
    assert!(sanity.is_ok(), "测试夹具 GVAS 必须有效（否则为测试代码问题）: {:?}", sanity.err());

    let sav = SavFile { raw, compression: SavCompression::Plz };
    let parsed = read(&sav.raw).expect("SavFile::parse 必须在已解压纯 GVAS 上成功（GameVersion 误用 Palworld？）");
    let keys: Vec<String> = parsed.properties.keys().cloned().collect();
    assert!(keys.contains(&"TestInt".to_string()));
    assert!(keys.contains(&"TestStr".to_string()));

    let sav2 = SavFile { raw: write(&parsed).expect("from_gvas 必须成功"), compression: SavCompression::Plz };
    assert!(
        sav2.roundtrip_ok(
            |raw: Vec<u8>| read(&raw).map(|g| g.properties.keys().cloned().collect()),
            |raw: Vec<u8>| read(&raw).and_then(|g| write(&g)),
        ),
        "round-trip 必须保留顶层键集合（R8 保真）"
    );
}

fn read(raw: &[u8]) -> Option<GvasFile> {
    let hints: std::collections::HashMap<String, String> = palworld_hints();
    GvasFile::read_with_hints(&mut Cursor::new(raw.to_vec()), GameVersion::Default, &hints).ok()
}

fn write(g: &GvasFile) -> Option<Vec<u8>> {
    let mut cur = Cursor::new(Vec::new());
    g.write(&mut cur).ok()?;
    Some(cur.into_inner())
}
