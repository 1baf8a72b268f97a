use tlaplus_cli::config::Config;
use tlaplus_cli::error::CliError;
use tlaplus_cli::invoke::{command_line, compose_argv, exit_outcome, plan_exec, translate_args, ToolExit};
use tlaplus_cli::manifest::Manifest;

fn strings(v: &[&str]) -> Vec<String> {
    v.iter().map(|s| s.to_string()).collect()
}

#[test]
fn argv_puts_launcher_args_before_tool_args() {
    let m = Manifest::load(String::from("/opt/tla"), Some("current=1.8.0\n")).unwrap();
    let c = Config::load(Some("arg=-Xmx2g\n")).unwrap();
    let argv = plan_exec(&m, &c, &strings(&["Foo.tla"])).unwrap();
    assert_eq!(argv, strings(&["java", "-cp", "/opt/tla/tla2tools-1.8.0.jar", "-Xmx2g", "Foo.tla"]));
}

#[test]
fn argv_without_config() {
    let argv = compose_argv(&String::from("t.jar"), &vec![], &strings(&["a", "b"]));
    assert_eq!(argv, strings(&["java", "-cp", "t.jar", "a", "b"]));
}

#[test]
fn no_tool_installed_fails_before_launch() {
    let m = Manifest::load(String::from("/opt/tla"), None).unwrap();
    let c = Config::empty();
    let mut spawned = 0;
    match plan_exec(&m, &c, &strings(&["Foo.tla"])) {
        Ok(_) => spawned += 1,
        Err(e) => assert_eq!(e, CliError::NoToolInstalled),
    }
    assert_eq!(spawned, 0);
}

#[test]
fn exit_code_one_is_tool_failure() {
    let r = exit_outcome(ToolExit { code: Some(1), signal: None });
    assert_eq!(r, Err(CliError::ExternalToolFailed { code: Some(1), signal: None }));
}

#[test]
fn signal_nine_is_tool_failure() {
    let r = exit_outcome(ToolExit { code: None, signal: Some(9) });
    assert_eq!(r, Err(CliError::ExternalToolFailed { code: None, signal: Some(9) }));
}

#[test]
fn exit_code_zero_is_success() {
    assert_eq!(exit_outcome(ToolExit { code: Some(0), signal: None }), Ok(()));
}

#[test]
fn tool_exit_accessors() {
    let e = ToolExit { code: Some(3), signal: None };
    assert_eq!(e.exit_code(), Some(3));
    assert_eq!(e.terminating_signal(), None);
}

#[test]
fn command_line_joins_with_spaces() {
    assert_eq!(command_line(&strings(&["java", "-cp", "x.jar"])), "java -cp x.jar");
    assert_eq!(command_line(&vec![]), "");
}

#[test]
fn translate_runs_pcal_trans_on_file() {
    assert_eq!(translate_args(&String::from("Foo.tla")), strings(&["pcal.trans", "Foo.tla"]));
}
