use tlaplus_cli::error::CliError;
use tlaplus_cli::manifest::{parse_manifest, Manifest};

fn root() -> String {
    String::from("/opt/tla")
}

#[test]
fn missing_manifest_loads_empty() {
    let m = Manifest::load(root(), None).unwrap();
    assert_eq!(m.current_version, None);
    assert_eq!(m.previous_version, None);
    assert_eq!(m.install_root, "/opt/tla");
}

#[test]
fn empty_manifest_has_no_tool() {
    let m = Manifest::load(root(), None).unwrap();
    assert_eq!(m.current_tool_path(), Err(CliError::NoToolInstalled));
    assert_eq!(m.previous_tool_path(), None);
}

#[test]
fn corrupt_manifest_is_unreadable() {
    for text in ["garbage", "current=1.8.0", "current=\n", "previous=1.7.0\n", "current=1.8.0\ncurrent=1.7.0\n", "current=1.8.0\nprevious=1.8.0\n", "current=a/b\n"] {
        assert_eq!(Manifest::load(root(), Some(text)).err(), Some(CliError::ManifestUnreadable), "{}", text);
    }
}

#[test]
fn empty_text_is_an_empty_manifest() {
    let m = Manifest::load(root(), Some("")).unwrap();
    assert_eq!(m.current_version, None);
}

#[test]
fn manifest_text_round_trips() {
    let mut m = Manifest::empty(root());
    m.record_new_version(String::from("1.7.0"));
    m.record_new_version(String::from("1.8.0"));
    let text = m.to_text();
    assert_eq!(text, "current=1.8.0\nprevious=1.7.0\n");
    let back = Manifest::load(root(), Some(&text)).unwrap();
    assert_eq!(back.current_version.as_deref(), Some("1.8.0"));
    assert_eq!(back.previous_version.as_deref(), Some("1.7.0"));
}

#[test]
fn record_promotes_current_to_previous() {
    let mut m = Manifest::empty(root());
    m.record_new_version(String::from("1.7.0"));
    assert_eq!(m.current_version.as_deref(), Some("1.7.0"));
    assert_eq!(m.previous_version, None);
    m.record_new_version(String::from("1.8.0"));
    assert_eq!(m.current_version.as_deref(), Some("1.8.0"));
    assert_eq!(m.previous_version.as_deref(), Some("1.7.0"));
    m.record_new_version(String::from("1.9.0"));
    assert_eq!(m.previous_version.as_deref(), Some("1.8.0"));
}

#[test]
fn recording_current_again_changes_nothing() {
    let mut m = Manifest::empty(root());
    m.record_new_version(String::from("1.7.0"));
    m.record_new_version(String::from("1.8.0"));
    m.record_new_version(String::from("1.8.0"));
    assert_eq!(m.current_version.as_deref(), Some("1.8.0"));
    assert_eq!(m.previous_version.as_deref(), Some("1.7.0"));
}

#[test]
fn recorded_version_resolves_to_named_path() {
    let mut m = Manifest::empty(root());
    m.record_new_version(String::from("1.8.0"));
    let back = Manifest::load(root(), Some(&m.to_text())).unwrap();
    let path = back.current_tool_path().unwrap();
    assert_eq!(path, "/opt/tla/tla2tools-1.8.0.jar");
    assert!(path.contains("1.8.0"));
}

#[test]
fn previous_path_follows_previous_version() {
    let m = Manifest::load(root(), Some("current=2.0\nprevious=1.9\n")).unwrap();
    assert_eq!(m.previous_tool_path().as_deref(), Some("/opt/tla/tla2tools-1.9.jar"));
}

#[test]
fn every_prefix_of_records_loads_back() {
    let mut m = Manifest::empty(root());
    let mut file = m.to_text();
    for v in ["1.0", "1.1", "1.1", "2.0-rc1", "1.0"] {
        let (cur, prev) = (m.current_version.clone(), m.previous_version.clone());
        m.record_new_version(String::from(v));
        // a write interrupted before the rename leaves the old file in place
        let interrupted = Manifest::load(root(), Some(&file)).unwrap();
        assert_eq!(interrupted.current_version, cur);
        assert_eq!(interrupted.previous_version, prev);
        file = m.to_text();
        let back = Manifest::load(root(), Some(&file)).unwrap();
        assert_eq!(back.current_version, m.current_version);
        assert_eq!(back.previous_version, m.previous_version);
        assert_ne!(back.current_version, back.previous_version);
    }
}

#[test]
fn torn_manifest_text_is_rejected_mid_line() {
    let full = "current=1.8.0\nprevious=1.7.0\n";
    assert!(parse_manifest(&full[..10]).is_none());
    assert!(parse_manifest(&full[..20]).is_none());
}
