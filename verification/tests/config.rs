use dathagerty::config::{parse_include_drafts, parse_server_port, ConfigError, ServerConfig};

#[test]
fn server_port_defaults_to_3000() {
    assert_eq!(parse_server_port(None).unwrap(), 3000);
}

#[test]
fn server_port_uses_port_environment_variable() {
    assert_eq!(parse_server_port(Some(b"8080".to_vec())).unwrap(), 8080);
}

#[test]
fn server_port_rejects_malformed_port() {
    assert!(matches!(parse_server_port(Some(b"not-a-port".to_vec())), Err(ConfigError::InvalidPort(_))));
}

#[test]
fn server_port_rejects_non_unicode_port() {
    assert!(matches!(parse_server_port(Some(vec![0xff])), Err(ConfigError::InvalidPortUnicode(_))));
}

#[test]
fn server_port_accepts_what_u16_parsing_accepts() {
    assert_eq!(parse_server_port(Some(b"+80".to_vec())).unwrap(), 80);
    assert_eq!(parse_server_port(Some(b"065535".to_vec())).unwrap(), 65535);
    for rejected in ["65536", "", "-1", " 80", "8_0", "+"] {
        assert!(
            matches!(parse_server_port(Some(rejected.as_bytes().to_vec())), Err(ConfigError::InvalidPort(_))),
            "value: {rejected:?}"
        );
    }
}

#[test]
fn include_drafts_defaults_to_false() {
    assert!(!parse_include_drafts(None).unwrap());
}

#[test]
fn include_drafts_accepts_documented_values() {
    for (value, expected) in [("true", true), ("1", true), ("false", false), ("0", false)] {
        assert_eq!(parse_include_drafts(Some(value.as_bytes().to_vec())).unwrap(), expected, "value: {value}");
    }
}

#[test]
fn include_drafts_rejects_invalid_values() {
    assert!(matches!(
        parse_include_drafts(Some(b"yes".to_vec())),
        Err(ConfigError::InvalidIncludeDrafts(value)) if value == "yes"
    ));
    assert!(matches!(parse_include_drafts(Some(b"TRUE".to_vec())), Err(ConfigError::InvalidIncludeDrafts(_))));
}

#[test]
fn include_drafts_rejects_non_unicode_values() {
    let value = vec![b't', b'r', 0xff];

    assert!(matches!(
        parse_include_drafts(Some(value.clone())),
        Err(ConfigError::InvalidIncludeDraftsUnicode(raw)) if raw == value
    ));
}

#[test]
fn configuration_errors_read_as_documented() {
    assert_eq!(
        parse_include_drafts(Some(b"yes".to_vec())).unwrap_err().message(),
        "INCLUDE_DRAFTS must be one of: true, 1, false, 0; got \"yes\""
    );
    assert_eq!(parse_server_port(Some(b"x".to_vec())).unwrap_err().message(), "PORT must be a valid u16");
    assert_eq!(parse_server_port(Some(vec![0xff])).unwrap_err().message(), "PORT is not valid Unicode");
    assert_eq!(
        parse_include_drafts(Some(vec![0xff])).unwrap_err().message(),
        "INCLUDE_DRAFTS is not valid Unicode"
    );
}

#[test]
fn server_config_defaults_to_port_3000() {
    assert_eq!(ServerConfig::new(None).port, 3000);
    assert_eq!(ServerConfig::new(Some(8080)).port, 8080);
    assert_eq!(ServerConfig::default().port, 3000);
}
