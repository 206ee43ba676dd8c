use palsave::settings::{preserve_backup_root_history, AppSettings};

#[test]
fn changing_backup_root_preserves_the_previous_root_for_history() {
    let previous = AppSettings {
        backup_root: "F:/old-backups".to_string(),
        backup_roots: vec!["E:/older-backups".to_string()],
        ..AppSettings::default()
    };
    let mut next = AppSettings {
        backup_root: "D:/new-backups".to_string(),
        ..AppSettings::default()
    };

    let previous_root = previous.backup_root.clone();
    let next_root = next.backup_root.clone();
    preserve_backup_root_history(&previous, &mut next, &previous_root, &next_root);

    assert!(next
        .backup_roots
        .iter()
        .any(|root| root == "F:/old-backups"));
    assert!(next
        .backup_roots
        .iter()
        .any(|root| root == "E:/older-backups"));
    assert!(!next
        .backup_roots
        .iter()
        .any(|root| root == "D:/new-backups"));
}

#[test]
fn backup_root_history_is_sorted_deduplicated_and_without_blanks() {
    let previous = AppSettings {
        backup_roots: vec![
            "c:/B".to_string(),
            "  ".to_string(),
            "C:/a".to_string(),
            "D:/New".to_string(),
        ],
        ..AppSettings::default()
    };
    let mut next = AppSettings {
        rcon_port: 25575,
        backup_roots: vec!["C:/b".to_string(), "c:/A".to_string()],
        ..AppSettings::default()
    };
    preserve_backup_root_history(&previous, &mut next, "E:/Old", "d:/new");
    assert_eq!(
        next.backup_roots,
        vec!["C:/a".to_string(), "c:/B".to_string(), "E:/Old".to_string()]
    );
    assert_eq!(next.rcon_port, 25575);
}

#[test]
fn unchanged_backup_root_is_not_added_to_history() {
    let previous = AppSettings::default();
    let mut next = AppSettings::default();
    preserve_backup_root_history(&previous, &mut next, "C:/Backups", "c:/backups");
    assert!(next.backup_roots.is_empty());
}

#[test]
fn default_settings_are_empty() {
    let s = AppSettings::default();
    assert_eq!(s.rcon_port, 0);
    assert!(s.backup_root.is_empty());
    assert!(!s.migration_backup_notice_seen);
}
