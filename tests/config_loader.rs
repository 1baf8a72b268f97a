use tlaplus_cli::config::{parse_config, Config};
use tlaplus_cli::error::CliError;

#[test]
fn missing_config_has_no_launcher_args() {
    let c = Config::load(None).unwrap();
    assert!(c.launcher_args.is_empty());
}

#[test]
fn config_lists_launcher_args_in_order() {
    let c = Config::load(Some("arg=-Xmx2g\narg=-XX:+UseParallelGC\n")).unwrap();
    assert_eq!(c.launcher_args, vec!["-Xmx2g".to_string(), "-XX:+UseParallelGC".to_string()]);
}

#[test]
fn empty_config_text_has_no_args() {
    assert_eq!(parse_config(""), Some(vec![]));
}

#[test]
fn malformed_config_is_unreadable() {
    for text in ["-Xmx2g\n", "arg=-Xmx2g", "arg=a\nother=b\n", "\n"] {
        assert_eq!(Config::load(Some(text)).err(), Some(CliError::ConfigUnreadable), "{}", text);
    }
}

#[test]
fn empty_launcher_arg_is_kept() {
    assert_eq!(parse_config("arg=\n"), Some(vec![String::new()]));
}
