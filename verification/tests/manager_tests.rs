//! Tool-name dispatch and the error taxonomy.

use cmirror::error::MirrorError;
use cmirror::sources::{get_manager, Manager};
use cmirror::traits::SourceManager;

#[test]
fn every_tool_dispatches() {
    assert!(matches!(get_manager("pip").unwrap(), Manager::Pip(_)));
    assert!(matches!(get_manager("npm").unwrap(), Manager::Npm(_)));
    assert!(matches!(get_manager("docker").unwrap(), Manager::Docker(_)));
    assert!(matches!(get_manager("go").unwrap(), Manager::Go(_)));
    assert!(matches!(get_manager("cargo").unwrap(), Manager::Cargo(_)));
    assert!(matches!(get_manager("brew").unwrap(), Manager::Brew(_)));
    assert!(matches!(get_manager("apt").unwrap(), Manager::Apt(_)));
}

#[test]
fn dispatch_folds_case() {
    assert!(matches!(get_manager("PIP").unwrap(), Manager::Pip(_)));
    assert!(matches!(get_manager("Docker").unwrap(), Manager::Docker(_)));
    assert!(matches!(get_manager("CaRgO").unwrap(), Manager::Cargo(_)));
}

#[test]
fn unknown_tool_is_a_distinct_error() {
    let err = get_manager("yarn").unwrap_err();
    assert!(matches!(err, MirrorError::UnknownTool(_)));
    assert_eq!(
        err.message(),
        "Unknown tool: Unsupported tool: 'yarn'. Available: pip, npm, docker, go, cargo, brew, apt"
    );
}

#[test]
fn adapter_identities() {
    match get_manager("apt").unwrap() {
        Manager::Apt(m) => {
            assert_eq!(m.name(), "apt");
            assert!(m.requires_sudo());
            assert_eq!(m.config_path(), "/etc/apt/sources.list");
        }
        _ => panic!("wrong adapter"),
    }
    match get_manager("docker").unwrap() {
        Manager::Docker(m) => {
            assert_eq!(m.name(), "docker");
            assert!(m.requires_sudo());
        }
        _ => panic!("wrong adapter"),
    }
    match get_manager("pip").unwrap() {
        Manager::Pip(m) => {
            assert_eq!(m.name(), "pip");
            assert!(!m.requires_sudo());
        }
        _ => panic!("wrong adapter"),
    }
    match get_manager("brew").unwrap() {
        Manager::Brew(m) => {
            assert_eq!(m.name(), "brew");
            assert_eq!(m.config_path(), "env:HOMEBREW_API_DOMAIN");
        }
        _ => panic!("wrong adapter"),
    }
    match get_manager("go").unwrap() {
        Manager::Go(m) => {
            assert_eq!(m.name(), "go");
            assert_eq!(m.config_path(), "GO111MODULE/GOPROXY");
        }
        _ => panic!("wrong adapter"),
    }
}

#[test]
fn error_messages_name_their_kind() {
    assert_eq!(
        MirrorError::Io("disk full".to_string()).message(),
        "IO operation failed: disk full"
    );
    assert_eq!(
        MirrorError::Json("eof".to_string()).message(),
        "JSON parsing error: eof"
    );
    assert_eq!(
        MirrorError::TomlSer("bad value".to_string()).message(),
        "TOML serialization error: bad value"
    );
    assert_eq!(
        MirrorError::TomlDe("bad syntax".to_string()).message(),
        "TOML deserialization error: bad syntax"
    );
    assert_eq!(
        MirrorError::SystemTime("skew".to_string()).message(),
        "System time error: skew"
    );
    assert_eq!(MirrorError::Custom("anything".to_string()).message(), "anything");
}
