//! End-to-end flows per adapter: read, apply, re-read, back up, restore.

use cmirror::backup::backup_file_name;
use cmirror::sources::apt::AptManager;
use cmirror::sources::cargo::CargoManager;
use cmirror::sources::npm::NpmManager;
use cmirror::sources::pip::PipManager;
use cmirror::traits::{RestoreAction, SourceManager};
use cmirror::types::Mirror;

#[test]
fn test_pip_flow() {
    let manager = PipManager::with_path("pip.conf".to_string());

    // 1. Initial state: None
    assert!(manager.current_url("").unwrap().is_none());

    // 2. Set source
    let mirror = Mirror::new("Test", "https://test.pypi.org/simple");
    let content = manager.set_source("", &mirror).unwrap();

    // 3. Check current url
    assert_eq!(manager.current_url(&content).unwrap(), Some(mirror.url.clone()));

    // 4. Check file content
    assert!(content.contains("[global]"));
    assert!(content.contains(&format!("index-url = {}", mirror.url)));

    // 5. Set another source (a backup is taken first)
    let backup_name = backup_file_name("pip.conf", 1700000000);
    let backup_content = content.clone();
    let mirror2 = Mirror::new("Test2", "https://test2.pypi.org/simple");
    let content2 = manager.set_source(&content, &mirror2).unwrap();
    assert_eq!(manager.current_url(&content2).unwrap(), Some(mirror2.url.clone()));

    // 6. Restore
    let entries = vec!["pip.conf".to_string(), backup_name.clone()];
    match manager.restore(&entries).unwrap() {
        RestoreAction::CopyBackup(b) => {
            assert_eq!(b, backup_name);
            // copying the snapshot back yields mirror 1 again
            assert_eq!(
                manager.current_url(&backup_content).unwrap(),
                Some(mirror.url.clone())
            );
        }
        _ => panic!("expected a snapshot copy"),
    }
}

#[test]
fn test_npm_flow() {
    let manager = NpmManager::with_path(".npmrc".to_string());

    // 1. Initial state
    assert!(manager.current_url("").unwrap().is_none());

    // 2. Set source
    let mirror = Mirror::new("TestNpm", "https://registry.npm.test.org/");
    let content = manager.set_source("", &mirror).unwrap();

    // 3. Check current
    assert_eq!(manager.current_url(&content).unwrap(), Some(mirror.url.clone()));
    assert!(content.contains(&format!("registry={}", mirror.url)));

    // 4. Set another
    let backup_name = backup_file_name(".npmrc", 1700000001);
    let backup_content = content.clone();
    let mirror2 = Mirror::new("TestNpm2", "https://registry.npm.test2.org/");
    let content2 = manager.set_source(&content, &mirror2).unwrap();
    assert_eq!(manager.current_url(&content2).unwrap(), Some(mirror2.url.clone()));

    // 5. Restore
    let entries = vec![backup_name.clone()];
    match manager.restore(&entries).unwrap() {
        RestoreAction::CopyBackup(b) => {
            assert_eq!(b, backup_name);
            assert_eq!(
                manager.current_url(&backup_content).unwrap(),
                Some(mirror.url.clone())
            );
        }
        _ => panic!("expected a snapshot copy"),
    }
}

#[test]
fn test_cargo_flow() {
    let manager = CargoManager::with_path("config.toml".to_string());

    // 1. Initial state
    assert!(manager.current_url("").unwrap().is_none());

    // 2. Set source
    let mirror = Mirror::new("TestCargo", "sparse+https://test.crates.io/index");
    let content = manager.set_source("", &mirror).unwrap();

    // 3. Check current
    assert_eq!(manager.current_url(&content).unwrap(), Some(mirror.url.clone()));

    // Check TOML structure
    assert!(content.contains("[source.crates-io]"));
    assert!(content.contains("replace-with = \"mirror\""));
    assert!(content.contains("[source.mirror]"));
    assert!(content.contains(&format!("registry = \"{}\"", mirror.url)));

    // 4. Set another
    let backup_name = backup_file_name("config.toml", 1700000002);
    let backup_content = content.clone();
    let mirror2 = Mirror::new("TestCargo2", "sparse+https://test2.crates.io/index");
    let content2 = manager.set_source(&content, &mirror2).unwrap();
    assert_eq!(manager.current_url(&content2).unwrap(), Some(mirror2.url.clone()));

    // 5. Restore
    let entries = vec![backup_name.clone(), "config.toml".to_string()];
    match manager.restore(&entries).unwrap() {
        RestoreAction::CopyBackup(b) => {
            assert_eq!(b, backup_name);
            assert_eq!(
                manager.current_url(&backup_content).unwrap(),
                Some(mirror.url.clone())
            );
        }
        _ => panic!("expected a snapshot copy"),
    }
}

#[test]
fn test_apt_flow() {
    let initial_content = r#"
# Main repo
deb http://archive.ubuntu.com/ubuntu/ jammy main restricted
deb http://archive.ubuntu.com/ubuntu/ jammy-updates main restricted
# Security
deb http://security.ubuntu.com/ubuntu/ jammy-security main restricted
        "#;

    let manager =
        AptManager::with_distro_and_path("ubuntu".to_string(), "sources.list".to_string());

    // 1. Initial detection: the FIRST active source line wins.
    assert_eq!(
        manager.current_url(initial_content).unwrap(),
        Some("http://archive.ubuntu.com/ubuntu/".to_string())
    );

    // 2. Set source
    let mirror = Mirror::new("TestApt", "http://mirrors.test.com/ubuntu/");
    let backup_name = backup_file_name("sources.list", 1700000003);
    let new_content = manager.set_source(initial_content, &mirror).unwrap();

    // 3. Check file content: the detected URL's lines are rewritten, the
    // security line on another domain stays.
    assert!(new_content.contains("deb http://mirrors.test.com/ubuntu/ jammy main"));
    assert!(new_content.contains("deb http://security.ubuntu.com/ubuntu/ jammy-security"));

    // 4. Restore: the snapshot taken before the rewrite holds the prior
    // bytes, so copying it back reads as the original URL again
    let snapshot_content = initial_content.to_string();
    let entries = vec![backup_name.clone()];
    match manager.restore(&entries).unwrap() {
        RestoreAction::CopyBackup(b) => {
            assert_eq!(b, backup_name);
            assert_eq!(
                manager.current_url(&snapshot_content).unwrap(),
                Some("http://archive.ubuntu.com/ubuntu/".to_string())
            );
        }
        _ => panic!("expected a snapshot copy"),
    }
}
