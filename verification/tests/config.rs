use tags_server::config::CliAction;
use tags_server::config::Config;
use tags_server::config::ConfigSlot;
use tags_server::config::Context;
use tags_server::config::StartupError;
use tags_server::config::parse_args;

#[test]
fn default_config_values() {
    let c = Config::default();
    assert_eq!(c.address, "0.0.0.0:8888");
    assert!(!c.debug);
}

#[test]
fn slot_starts_empty() {
    let slot = ConfigSlot::new();
    assert!(slot.get().is_none());
}

#[test]
fn first_commit_fills_slot() {
    let mut slot = ConfigSlot::new();
    slot.commit(Config { address: "1.2.3.4:17".to_string(), debug: true });
    let c = slot.get().unwrap();
    assert_eq!(c.address, "1.2.3.4:17");
    assert!(c.debug);
}

#[test]
fn second_commit_is_a_no_op() {
    let mut slot = ConfigSlot::new();
    slot.commit(Config { address: "1.2.3.4:17".to_string(), debug: true });
    slot.commit(Config::default());
    let c = slot.get().unwrap();
    assert_eq!(c.address, "1.2.3.4:17");
    assert!(c.debug);
}

#[test]
fn no_arguments_runs_defaults() {
    let args = vec!["tags_server".to_string()];
    assert!(matches!(parse_args(&args), Ok(CliAction::UseDefaults)));
}

#[test]
fn config_option_loads_file() {
    let args = vec![
        "tags_server".to_string(),
        "--config".to_string(),
        "conf.json".to_string(),
    ];
    match parse_args(&args) {
        Ok(CliAction::LoadFile { path }) => assert_eq!(path, "conf.json"),
        other => panic!("expected LoadFile, got {:?}", other),
    }
}

#[test]
fn unknown_option_is_named() {
    let args = vec![
        "tags_server".to_string(),
        "--verbose".to_string(),
        "x".to_string(),
    ];
    match parse_args(&args) {
        Err(StartupError::UnknownOption { message }) => {
            assert_eq!(message, "Unknown option --verbose");
        }
        other => panic!("expected UnknownOption, got {:?}", other),
    }
}

#[test]
fn wrong_argument_count_is_fatal() {
    for args in [
        vec!["tags_server".to_string(), "extra".to_string()],
        vec![
            "tags_server".to_string(),
            "--config".to_string(),
            "a".to_string(),
            "b".to_string(),
        ],
        Vec::new(),
    ] {
        match parse_args(&args) {
            Err(StartupError::UnknownOption { message }) => {
                assert_eq!(message, "Only expected --config <filename>");
            }
            other => panic!("expected UnknownOption, got {:?}", other),
        }
    }
}

#[test]
fn context_keeps_its_message() {
    let c = Context::from("Could not read config file".to_string());
    assert_eq!(c.message(), "Could not read config file");
}
