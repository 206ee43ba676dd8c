use palsave::names::{normalize_player_guid, safe_name_segment};
use palsave::server::{console_line_delta, server_launch_args};
use palsave::vdf::parse_library_roots;

#[test]
fn safe_name_segment_whitelist_and_strip() {
    assert_eq!(safe_name_segment("World_01"), Some("World_01".to_string()));
    assert_eq!(safe_name_segment("a.b-c"), Some("a.b-c".to_string()));
    assert_eq!(safe_name_segment("foo/bar"), Some("bar".to_string()));
    assert_eq!(safe_name_segment("a/b/c.sav"), Some("c.sav".to_string()));
    assert_eq!(safe_name_segment("../etc"), Some("etc".to_string()));
    assert_eq!(safe_name_segment("a/../../b"), Some("b".to_string()));
    assert_eq!(safe_name_segment(""), None);
    assert_eq!(safe_name_segment("a*b"), None);
    assert_eq!(safe_name_segment("a b"), None);
}

#[test]
fn normalize_player_guid_strips_sav() {
    assert_eq!(normalize_player_guid("ABC.sav"), Some("ABC".to_string()));
    assert_eq!(normalize_player_guid("ABC"), Some("ABC".to_string()));
    assert_eq!(normalize_player_guid("../../x"), None);
}

#[test]
fn normalize_player_guid_trims_and_refuses_separators() {
    assert_eq!(normalize_player_guid("  0001.sav \n"), Some("0001".to_string()));
    assert_eq!(normalize_player_guid("a\\b"), None);
    assert_eq!(normalize_player_guid(".sav"), None);
    assert_eq!(normalize_player_guid("x y.sav"), None);
}

#[test]
fn server_launch_args_start_console_server_mode() {
    let args = server_launch_args();
    assert_eq!(args.first(), Some(&"Pal"));
    assert_eq!(args, ["Pal", "-useperfthreads", "-NoAsyncLoadingThread", "-UseMultithreadForDS"]);
}

#[test]
fn console_line_delta_emits_only_new_console_lines() {
    let previous = vec![
        "Game version is v1.0.1.100619".to_string(),
        "REST API started on port 8212".to_string(),
    ];
    let current = vec![
        "REST API started on port 8212".to_string(),
        "Running Palworld dedicated server on :8211".to_string(),
    ];

    assert_eq!(
        console_line_delta(&previous, &current),
        vec!["Running Palworld dedicated server on :8211".to_string()]
    );
}

#[test]
fn console_line_delta_without_overlap_keeps_everything() {
    let previous = vec!["a".to_string(), "b".to_string()];
    let current = vec!["c".to_string(), "d".to_string()];
    assert_eq!(console_line_delta(&previous, &current), current);
    assert_eq!(console_line_delta(&previous, &previous), Vec::<String>::new());
    assert_eq!(console_line_delta(&[], &current), current);
}

#[test]
fn test_parse_new_format_with_nested_blocks() {
    let vdf = r#"
"libraryfolders"
{
	"contentstatsid"		"1234567890"
	"0"
	{
		"path"		"C:\\Program Files (x86)\\Steam"
		"label"		""
	}
	"1"
	{
		"path"		"D:\\SteamGames"
	}
}
"#;
    let roots = parse_library_roots(vdf);
    assert!(roots.contains(&"C:\\Program Files (x86)\\Steam".to_string()));
    assert!(roots.contains(&"D:\\SteamGames".to_string()));
    assert!(!roots.contains(&"0".to_string()));
    assert!(!roots.contains(&"1".to_string()));
}

#[test]
fn test_parse_old_format_flat() {
    let vdf = r#"
"libraryfolders"
{
	"1"		"E:\\SteamLibrary"
	"2"		"F:\\Games\\Steam"
}
"#;
    let roots = parse_library_roots(vdf);
    assert!(roots.contains(&"E:\\SteamLibrary".to_string()));
    assert!(roots.contains(&"F:\\Games\\Steam".to_string()));
}

#[test]
fn test_normalize_escaped_backslash() {
    let vdf = "\"path\"\t\t\"X:\\\\foo\\\\bar\"";
    let roots = parse_library_roots(vdf);
    assert_eq!(roots, vec!["X:\\foo\\bar".to_string()]);
}

#[test]
fn test_empty_and_malformed() {
    assert!(parse_library_roots("").is_empty());
    assert!(parse_library_roots("not a vdf at all").is_empty());
    assert!(parse_library_roots("\"path\"").is_empty());
}

#[test]
fn vdf_keys_follow_u32_parsing() {
    assert_eq!(parse_library_roots("\"+7\" \"A\"\r\n\"4294967295\" \"B\"\n\"4294967296\" \"C\"\n\"-1\" \"D\"\n\"label\" \"E\""), vec!["A".to_string(), "B".to_string()]);
}

#[test]
fn dot_names_never_become_segments() {
    assert_eq!(safe_name_segment(".."), None);
    assert_eq!(safe_name_segment("."), None);
    assert_eq!(normalize_player_guid(".."), None);
    assert_eq!(normalize_player_guid("...sav"), None);
    assert_eq!(safe_name_segment("a/.."), None);
}
