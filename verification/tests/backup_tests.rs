//! Backup naming and latest-snapshot selection.

use cmirror::backup::{backup_file_name, base_name, select_latest_backup};
use cmirror::sources::pip::PipManager;
use cmirror::traits::SourceManager;

#[test]
fn backup_names_append_suffix() {
    // the suffix is appended after the whole file name, extension included
    assert_eq!(backup_file_name("config.json", 123456), "config.json.bak.123456");
    assert_eq!(backup_file_name(".npmrc", 0), ".npmrc.bak.0");
    assert_eq!(
        backup_file_name("sources.list", 1700000000),
        "sources.list.bak.1700000000"
    );
}

#[test]
fn base_name_takes_last_component() {
    assert_eq!(base_name("/etc/apt/sources.list"), "sources.list");
    assert_eq!(base_name("pip.conf"), "pip.conf");
    assert_eq!(base_name("a/b/c"), "c");
}

#[test]
fn latest_backup_is_selected() {
    let entries = vec![
        "pip.conf".to_string(),
        "pip.conf.bak.1700000001".to_string(),
        "other.bak.1700000009".to_string(),
        "pip.conf.bak.1700000005".to_string(),
        "pip.conf.bak.1700000003".to_string(),
    ];
    assert_eq!(
        select_latest_backup("pip.conf", &entries),
        Some("pip.conf.bak.1700000005".to_string())
    );
}

#[test]
fn no_backups_means_none() {
    let entries = vec!["pip.conf".to_string(), "other.bak.99".to_string()];
    assert_eq!(select_latest_backup("pip.conf", &entries), None);
    assert_eq!(select_latest_backup("pip.conf", &Vec::new()), None);
}

#[test]
fn restore_without_backups_fails_loudly() {
    // restoring with zero snapshots is a distinct error and touches nothing
    let manager = PipManager::with_path("pip.conf".to_string());
    let entries = vec!["pip.conf".to_string()];
    let err = manager.restore(&entries).unwrap_err();
    assert_eq!(err.message(), "No backup files found.");
}

#[test]
fn selection_is_lexicographic() {
    // the decimal suffixes sort as text: across a digit-count boundary the
    // shorter, numerically smaller timestamp wins — the scheme's accepted
    // limitation
    let entries = vec!["a.bak.999999999".to_string(), "a.bak.1000000000".to_string()];
    assert_eq!(select_latest_backup("a", &entries), Some("a.bak.999999999".to_string()));
}
