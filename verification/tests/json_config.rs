use tags_server::config::StartupError;
use tags_server::json::config_from_json;
use tags_server::json::fields_to_config;

#[test]
fn empty_object_gives_defaults() {
    let c = config_from_json("{}").unwrap();
    assert_eq!(c.address, "0.0.0.0:8888");
    assert!(!c.debug);
}

#[test]
fn both_fields_are_read() {
    let c = config_from_json("{\"address\": \"127.0.0.1:9000\", \"debug\": true}").unwrap();
    assert_eq!(c.address, "127.0.0.1:9000");
    assert!(c.debug);
}

#[test]
fn missing_field_falls_back_to_default() {
    let c = config_from_json("{\"debug\": true}").unwrap();
    assert_eq!(c.address, "0.0.0.0:8888");
    assert!(c.debug);

    let c = config_from_json("{\"address\": \"10.0.0.1:80\"}").unwrap();
    assert_eq!(c.address, "10.0.0.1:80");
    assert!(!c.debug);
}

#[test]
fn unknown_fields_are_ignored() {
    let c = config_from_json("{\"other\": 1}").unwrap();
    assert_eq!(c.address, "0.0.0.0:8888");
    assert!(!c.debug);
}

#[test]
fn malformed_json_is_a_parse_error() {
    assert!(matches!(
        config_from_json("not json {"),
        Err(StartupError::ConfigParseError { .. })
    ));
}

#[test]
fn non_object_document_is_a_parse_error() {
    assert!(matches!(
        config_from_json("[1, 2]"),
        Err(StartupError::ConfigParseError { .. })
    ));
    assert!(matches!(
        config_from_json("5"),
        Err(StartupError::ConfigParseError { .. })
    ));
}

#[test]
fn mistyped_debug_field_is_a_parse_error() {
    match config_from_json("{\"debug\": \"yes\"}") {
        Err(StartupError::ConfigParseError { context }) => {
            assert_eq!(context, "field debug must be a boolean");
        }
        other => panic!("expected ConfigParseError, got {:?}", other),
    }
}

#[test]
fn mistyped_address_field_is_a_parse_error() {
    match config_from_json("{\"address\": 42}") {
        Err(StartupError::ConfigParseError { context }) => {
            assert_eq!(context, "field address must be a host:port string");
        }
        other => panic!("expected ConfigParseError, got {:?}", other),
    }
}

#[test]
fn fields_to_config_applies_defaults_and_rejects_mistypes() {
    let c = fields_to_config(None, None).unwrap();
    assert_eq!(c.address, "0.0.0.0:8888");
    assert!(!c.debug);

    let c = fields_to_config(Some(Some("a:1".to_string())), Some(Some(true))).unwrap();
    assert_eq!(c.address, "a:1");
    assert!(c.debug);

    assert!(matches!(
        fields_to_config(Some(None), None),
        Err(StartupError::ConfigParseError { .. })
    ));
    assert!(matches!(
        fields_to_config(None, Some(None)),
        Err(StartupError::ConfigParseError { .. })
    ));
}
