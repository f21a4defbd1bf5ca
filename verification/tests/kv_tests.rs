//! Key/value rewriting details for the pip and npm adapters.

use cmirror::sources::npm::NpmManager;
use cmirror::sources::pip::PipManager;
use cmirror::traits::SourceManager;
use cmirror::types::Mirror;

#[test]
fn pip_fresh_write_has_one_key() {
    let manager = PipManager::with_path("pip.conf".to_string());
    let mirror = Mirror::new("T", "https://idx.test/simple");
    let out = manager.set_source("", &mirror).unwrap();
    assert_eq!(out.matches("index-url").count(), 1);
    assert_eq!(out, "[global]\nindex-url = https://idx.test/simple\n");
}

#[test]
fn pip_second_write_replaces_in_place() {
    let manager = PipManager::with_path("pip.conf".to_string());
    let existing = "[global]\ntimeout = 60\nindex-url = https://old.test/simple\nretries = 3\n";
    let mirror = Mirror::new("T", "https://new.test/simple");
    let out = manager.set_source(existing, &mirror).unwrap();
    // still exactly one key, unrelated lines untouched
    assert_eq!(out.matches("index-url").count(), 1);
    assert_eq!(
        out,
        "[global]\ntimeout = 60\nindex-url = https://new.test/simple\nretries = 3\n"
    );
}

#[test]
fn pip_injects_into_existing_global_section() {
    let manager = PipManager::with_path("pip.conf".to_string());
    let existing = "[freeze]\ntimeout = 10\n[global]\ntimeout = 60\n";
    let mirror = Mirror::new("T", "https://idx.test/simple");
    let out = manager.set_source(existing, &mirror).unwrap();
    assert_eq!(
        out,
        "[freeze]\ntimeout = 10\n[global]\nindex-url = https://idx.test/simple\ntimeout = 60\n"
    );
}

#[test]
fn pip_read_trims_and_skips_padding() {
    let manager = PipManager::with_path("pip.conf".to_string());
    let content = "[global]\nindex-url   =   https://padded.test/simple   \n";
    assert_eq!(
        manager.current_url(content).unwrap(),
        Some("https://padded.test/simple".to_string())
    );
    // an assignment with nothing after the `=` does not read as a value
    assert_eq!(manager.current_url("index-url =\n").unwrap(), None);
}

#[test]
fn npm_appends_when_missing() {
    let manager = NpmManager::with_path(".npmrc".to_string());
    let mirror = Mirror::new("N", "https://reg.test/");
    assert_eq!(manager.set_source("", &mirror).unwrap(), "registry=https://reg.test/\n");
    // without a trailing newline one is added before the new assignment
    assert_eq!(
        manager.set_source("save-exact=true", &mirror).unwrap(),
        "save-exact=true\nregistry=https://reg.test/\n"
    );
    // with one, the assignment goes right after
    assert_eq!(
        manager.set_source("save-exact=true\n", &mirror).unwrap(),
        "save-exact=true\nregistry=https://reg.test/\n"
    );
}

#[test]
fn npm_replaces_first_assignment() {
    let manager = NpmManager::with_path(".npmrc".to_string());
    let existing = "audit=false\nregistry=https://old.test/\nfund=false\n";
    let mirror = Mirror::new("N", "https://new.test/");
    let out = manager.set_source(existing, &mirror).unwrap();
    assert_eq!(out, "audit=false\nregistry=https://new.test/\nfund=false\n");
    assert_eq!(out.matches("registry=").count(), 1);
}
