//! The structured-format adapters (docker, cargo) against the real parsers,
//! plus the command- and environment-backed adapters (go, brew).

use cmirror::sources::apt::{detect_distro_from, AptManager};
use cmirror::sources::brew::BrewManager;
use cmirror::sources::cargo::CargoManager;
use cmirror::sources::docker::DockerManager;
use cmirror::sources::go::GoManager;
use cmirror::traits::{RestoreAction, SourceManager};
use cmirror::types::Mirror;

#[test]
fn docker_set_then_read() {
    let manager = DockerManager::new();
    let mirror = Mirror::new("D", "https://mirror.docker.test");
    // a missing or brand-new empty file is handed in as the empty object
    let out = manager.set_source("{}", &mirror).unwrap();
    assert_eq!(manager.current_url(&out).unwrap(), Some(mirror.url.clone()));
    assert!(out.contains("registry-mirrors"));
}

#[test]
fn docker_rejects_malformed_on_write() {
    // malformed content on the write path is a hard error, not a silent
    // fresh file
    let manager = DockerManager::new();
    let mirror = Mirror::new("D", "https://mirror.docker.test");
    let err = manager.set_source("{ not json", &mirror).unwrap_err();
    assert!(err.message().starts_with("JSON parsing error: "));
    // a well-formed document whose root is no object cannot be rewritten
    let err = manager.set_source("[1, 2]", &mirror).unwrap_err();
    assert_eq!(err.message(), "Invalid daemon.json structure");
}

#[test]
fn docker_preserves_other_fields() {
    let manager = DockerManager::new();
    let existing = "{\n  \"log-driver\": \"json-file\",\n  \"registry-mirrors\": [\"https://old.test\"]\n}";
    assert_eq!(
        manager.current_url(existing).unwrap(),
        Some("https://old.test".to_string())
    );
    let mirror = Mirror::new("D", "https://new.test");
    let out = manager.set_source(existing, &mirror).unwrap();
    assert_eq!(manager.current_url(&out).unwrap(), Some("https://new.test".to_string()));
    // the unrelated field survives the rewrite
    assert!(out.contains("log-driver"));
    assert!(out.contains("json-file"));
    assert!(!out.contains("https://old.test"));
}

#[test]
fn docker_read_edge_cases() {
    let manager = DockerManager::new();
    // malformed JSON is tolerated on the read path: none configured
    assert_eq!(manager.current_url("{ not json").unwrap(), None);
    // a well-formed file without the field is "none configured" too
    assert_eq!(manager.current_url("{}").unwrap(), None);
    assert_eq!(manager.current_url("{\"registry-mirrors\": []}").unwrap(), None);
}

#[test]
fn cargo_preserves_unrelated_tables() {
    let manager = CargoManager::with_path("config.toml".to_string());
    let existing = "[build]\njobs = 4\n\n[net]\nretry = 2\n";
    assert_eq!(manager.current_url(existing).unwrap(), None);
    let mirror = Mirror::new("C", "sparse+https://fast.crates.test/index");
    let out = manager.set_source(existing, &mirror).unwrap();
    assert_eq!(manager.current_url(&out).unwrap(), Some(mirror.url.clone()));
    assert!(out.contains("[build]"));
    assert!(out.contains("jobs = 4"));
    assert!(out.contains("[net]"));
    assert!(out.contains("retry = 2"));
}

#[test]
fn cargo_rejects_malformed_on_write() {
    // malformed content on the write path is a hard error, not a silent
    // fresh file
    let manager = CargoManager::with_path("config.toml".to_string());
    let mirror = Mirror::new("C", "sparse+https://fast.crates.test/index");
    let err = manager.set_source("not = [valid toml", &mirror).unwrap_err();
    assert!(err.message().starts_with("TOML deserialization error: "));
    // a written path blocked by a non-table value cannot be rewritten
    let err = manager.set_source("source = \"not a table\"\n", &mirror).unwrap_err();
    assert_eq!(err.message(), "Invalid config.toml structure");
}

#[test]
fn cargo_follows_replace_with_alias() {
    let manager = CargoManager::with_path("config.toml".to_string());
    let content = "[source.crates-io]\nreplace-with = \"tuna\"\n\n[source.tuna]\nregistry = \"https://tuna.test/index\"\n";
    assert_eq!(
        manager.current_url(content).unwrap(),
        Some("https://tuna.test/index".to_string())
    );
    // a dangling alias reads as "none configured"
    let dangling = "[source.crates-io]\nreplace-with = \"gone\"\n";
    assert_eq!(manager.current_url(dangling).unwrap(), None);
}

#[test]
fn apt_rewrites_every_line_of_the_detected_url() {
    let manager =
        AptManager::with_distro_and_path("ubuntu".to_string(), "sources.list".to_string());
    // two active source lines on the same origin: both are rewritten
    let content = "deb http://archive.ubuntu.com/ubuntu/ jammy main\ndeb http://archive.ubuntu.com/ubuntu/ jammy-updates main\n";
    let mirror = Mirror::new("M", "http://mirrors.test.com/ubuntu/");
    let out = manager.set_source(content, &mirror).unwrap();
    assert_eq!(
        out,
        "deb http://mirrors.test.com/ubuntu/ jammy main\ndeb http://mirrors.test.com/ubuntu/ jammy-updates main\n"
    );
}

#[test]
fn apt_leaves_other_origins_alone() {
    let manager =
        AptManager::with_distro_and_path("ubuntu".to_string(), "sources.list".to_string());
    // two lines on different origins: only the detected (first) one changes
    let content = "deb http://archive.ubuntu.com/ubuntu/ jammy main\ndeb http://security.ubuntu.com/ubuntu/ jammy-security main\n";
    let mirror = Mirror::new("M", "http://mirrors.test.com/ubuntu/");
    let out = manager.set_source(content, &mirror).unwrap();
    assert_eq!(
        out,
        "deb http://mirrors.test.com/ubuntu/ jammy main\ndeb http://security.ubuntu.com/ubuntu/ jammy-security main\n"
    );
}

#[test]
fn apt_falls_back_to_default_domains() {
    let manager =
        AptManager::with_distro_and_path("ubuntu".to_string(), "sources.list".to_string());
    // no detectable current URL (options group unclosed), so the well-known
    // domains are replaced in both scheme forms
    let content = "# comment only\ndeb-src http://archive.ubuntu.com/ubuntu/ jammy main\nUris: https://security.ubuntu.com/ubuntu/\n";
    let mirror = Mirror::new("M", "http://mirrors.test.com/ubuntu");
    let out = manager.set_source(content, &mirror).unwrap();
    // the target gains a trailing slash
    assert_eq!(
        out,
        "# comment only\ndeb-src http://mirrors.test.com/ubuntu/ jammy main\nUris: http://mirrors.test.com/ubuntu/\n"
    );
}

#[test]
fn apt_reads_past_comments_and_options() {
    let manager =
        AptManager::with_distro_and_path("debian".to_string(), "sources.list".to_string());
    let content = "# deb http://commented.test/debian/ bookworm main\ndeb [arch=amd64 signed-by=/k.gpg] https://deb.debian.org/debian/ bookworm main\n";
    assert_eq!(
        manager.current_url(content).unwrap(),
        Some("https://deb.debian.org/debian/".to_string())
    );
}

#[test]
fn go_reads_first_comma_token() {
    let manager = GoManager::new();
    assert_eq!(
        manager.current_url("https://proxy.golang.org,direct\n").unwrap(),
        Some("https://proxy.golang.org".to_string())
    );
    assert_eq!(manager.current_url("").unwrap(), None);
    assert_eq!(manager.current_url("  \n").unwrap(), None);
    assert_eq!(
        manager.current_url("https://goproxy.test\n").unwrap(),
        Some("https://goproxy.test".to_string())
    );
}

#[test]
fn go_writes_with_direct_fallback() {
    let manager = GoManager::new();
    let mirror = Mirror::new("G", "https://goproxy.test");
    assert_eq!(manager.set_source("", &mirror).unwrap(), "https://goproxy.test,direct");
    assert!(matches!(manager.restore(&Vec::new()).unwrap(), RestoreAction::Unset));
}

#[test]
fn brew_reads_environment_value() {
    let manager = BrewManager::new();
    assert_eq!(manager.current_url("").unwrap(), None);
    assert_eq!(
        manager.current_url("https://mirrors.tuna.tsinghua.edu.cn/homebrew-api").unwrap(),
        Some("https://mirrors.tuna.tsinghua.edu.cn/homebrew-api".to_string())
    );
}

#[test]
fn brew_apply_is_advisory() {
    let manager = BrewManager::new();
    let mirror = Mirror::new("B", "https://mirrors.tuna.tsinghua.edu.cn/homebrew-api");
    let text = manager.set_source("", &mirror).unwrap();
    assert!(text.contains(
        "export HOMEBREW_API_DOMAIN=\"https://mirrors.tuna.tsinghua.edu.cn/homebrew-api\""
    ));
    // a known provider also gets the bottle-domain suggestion
    assert!(text.contains(
        "export HOMEBREW_BOTTLE_DOMAIN=\"https://mirrors.tuna.tsinghua.edu.cn/homebrew-bottles\""
    ));
    assert!(text.contains("To make it permanent"));

    // an unknown provider gets no bottle suggestion
    let plain = Mirror::new("B", "https://some.other.mirror/api");
    let text = manager.set_source("", &plain).unwrap();
    assert!(!text.contains("HOMEBREW_BOTTLE_DOMAIN"));

    match manager.restore(&Vec::new()).unwrap() {
        RestoreAction::ShowText(t) => assert!(t.contains("unset HOMEBREW_API_DOMAIN")),
        _ => panic!("expected advisory text"),
    }
}

#[test]
fn apt_line_grammar_edges() {
    let manager =
        AptManager::with_distro_and_path("ubuntu".to_string(), "sources.list".to_string());
    // a URL may run to the end of its line
    assert_eq!(
        manager.current_url("deb http://x.test/repo").unwrap(),
        Some("http://x.test/repo".to_string())
    );
    // `deb-src` is not an active source token
    assert_eq!(
        manager.current_url("deb-src http://x.test/repo jammy main\n").unwrap(),
        None
    );
    // an unclosed options group never yields a URL
    assert_eq!(
        manager.current_url("deb [arch=amd64 http://x.test/repo jammy main\n").unwrap(),
        None
    );
    // tabs count as blanks
    assert_eq!(
        manager.current_url("deb\thttp://x.test/repo\tjammy main\n").unwrap(),
        Some("http://x.test/repo".to_string())
    );
    // the scheme must be http or https
    assert_eq!(manager.current_url("deb ftp://x.test/repo jammy main\n").unwrap(), None);
}

#[test]
fn distro_detection_prefers_os_release() {
    assert_eq!(
        detect_distro_from("NAME=\"Ubuntu\"\nID=ubuntu\n", ""),
        Some("ubuntu".to_string())
    );
    assert_eq!(detect_distro_from("ID=debian\n", "deb http://x/ubuntu/ x"), Some("debian".to_string()));
    // with inconclusive metadata the sources text decides
    assert_eq!(
        detect_distro_from("", "deb http://archive.ubuntu.com/ubuntu/ jammy main\n"),
        Some("ubuntu".to_string())
    );
    assert_eq!(detect_distro_from("", "deb http://deb.debian.org/debian/ bookworm main\n"), Some("debian".to_string()));
    // nothing indicates a family
    assert_eq!(detect_distro_from("", ""), None);
    assert_eq!(detect_distro_from("ID=fedora\n", "deb http://x.test/y/ z\n"), None);
}
