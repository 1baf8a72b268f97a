use tlaplus_cli::error::CliError;
use tlaplus_cli::manifest::Manifest;
use tlaplus_cli::update::{apply_download, check_download, plan_update, read_remote_version, UpdatePlan};

fn root() -> String {
    String::from("/opt/tla")
}

#[test]
fn nothing_installed_fetches() {
    let m = Manifest::empty(root());
    match plan_update(&m, &String::from("1.8.0")).unwrap() {
        UpdatePlan::Fetch { version, temp_path, final_path } => {
            assert_eq!(version, "1.8.0");
            assert_eq!(temp_path, "/opt/tla/tla2tools-1.8.0.jar.part");
            assert_eq!(final_path, "/opt/tla/tla2tools-1.8.0.jar");
        }
        UpdatePlan::UpToDate => panic!("expected a fetch"),
    }
}

#[test]
fn second_update_plans_no_writes() {
    let mut m = Manifest::empty(root());
    let v = String::from("1.8.0");
    assert!(matches!(plan_update(&m, &v), Ok(UpdatePlan::Fetch { .. })));
    apply_download(&mut m, v.clone(), 100, Some(100)).unwrap();
    let text = m.to_text();
    let reloaded = Manifest::load(root(), Some(&text)).unwrap();
    assert!(matches!(plan_update(&reloaded, &v), Ok(UpdatePlan::UpToDate)));
    assert_eq!(reloaded.to_text(), text);
}

#[test]
fn truncated_download_keeps_prior_version() {
    let mut m = Manifest::empty(root());
    m.record_new_version(String::from("1.7.0"));
    let r = apply_download(&mut m, String::from("1.8.0"), 50, Some(100));
    assert_eq!(r, Err(CliError::UpdateCheckFailed));
    assert_eq!(m.current_tool_path().unwrap(), "/opt/tla/tla2tools-1.7.0.jar");
    assert_eq!(m.previous_version, None);
}

#[test]
fn check_download_needs_announced_length() {
    assert_eq!(check_download(10, Some(10)), Ok(()));
    assert_eq!(check_download(9, Some(10)), Err(CliError::UpdateCheckFailed));
    assert_eq!(check_download(11, Some(10)), Err(CliError::UpdateCheckFailed));
    assert_eq!(check_download(10, None), Err(CliError::UpdateCheckFailed));
}

#[test]
fn invalid_remote_version_fails_check() {
    let m = Manifest::empty(root());
    assert!(matches!(plan_update(&m, &String::from("../x")), Err(CliError::UpdateCheckFailed)));
    assert!(matches!(plan_update(&m, &String::new()), Err(CliError::UpdateCheckFailed)));
}

#[test]
fn remote_version_body_is_read() {
    assert_eq!(read_remote_version("1.8.0\n"), Ok(String::from("1.8.0")));
    assert_eq!(read_remote_version("1.8.0"), Ok(String::from("1.8.0")));
    assert_eq!(read_remote_version("1.8.0\n\n"), Err(CliError::UpdateCheckFailed));
    assert_eq!(read_remote_version(""), Err(CliError::UpdateCheckFailed));
    assert_eq!(read_remote_version("<html>"), Err(CliError::UpdateCheckFailed));
}

#[test]
fn older_remote_is_not_fetched() {
    let m = Manifest::load(root(), Some("current=2.0\n")).unwrap();
    assert!(matches!(plan_update(&m, &String::from("1.9")), Ok(UpdatePlan::UpToDate)));
}

#[test]
fn newer_remote_is_fetched_numerically() {
    let m = Manifest::load(root(), Some("current=1.9.0\n")).unwrap();
    assert!(matches!(plan_update(&m, &String::from("1.10.0")), Ok(UpdatePlan::Fetch { .. })));
}
