use pod_pool::config::{read_port, Config, ConfigError};

#[test]
fn config_test_config_from_env_defaults() {
    let config = Config::from_values(None, None, None, None).unwrap();

    assert_eq!(config.port, 8080);
    assert_eq!(config.worker_namespace, "face-it-workers");
    assert_eq!(
        config.worker_selector,
        "app=face-recognition-worker,status=ready"
    );
    assert_eq!(config.log_level, "info");
}

#[test]
fn config_test_config_from_env_custom() {
    let config = Config::from_values(
        Some("9090".to_string()),
        Some("custom-namespace".to_string()),
        Some("app=custom,status=active".to_string()),
        Some("debug".to_string()),
    )
    .unwrap();

    assert_eq!(config.port, 9090);
    assert_eq!(config.worker_namespace, "custom-namespace");
    assert_eq!(config.worker_selector, "app=custom,status=active");
    assert_eq!(config.log_level, "debug");
}

#[test]
fn config_test_config_invalid_port() {
    let result = Config::from_values(Some("invalid".to_string()), None, None, None);
    assert!(result.is_err());
}

#[test]
fn invalid_port_is_reported_with_its_text() {
    let result = Config::from_values(Some("70000".to_string()), None, None, None);
    assert_eq!(
        result.unwrap_err(),
        ConfigError::InvalidPort("70000".to_string())
    );
    assert_eq!(
        ConfigError::InvalidPort("x".to_string()).message(),
        "invalid port: x"
    );
}

#[test]
fn ports_are_read_as_numbers_of_sixteen_bits() {
    assert_eq!(read_port("0"), Some(0));
    assert_eq!(read_port("8080"), Some(8080));
    assert_eq!(read_port("+443"), Some(443));
    assert_eq!(read_port("0080"), Some(80));
    assert_eq!(read_port("65535"), Some(65535));
    assert_eq!(read_port("65536"), None);
    assert_eq!(read_port("99999999999999999999999"), None);
    assert_eq!(read_port(""), None);
    assert_eq!(read_port("+"), None);
    assert_eq!(read_port("-1"), None);
    assert_eq!(read_port(" 80"), None);
    assert_eq!(read_port("80 "), None);
    assert_eq!(read_port("8_0"), None);
    // The same texts, read by the standard library.
    for text in ["0", "8080", "+443", "0080", "65535", "65536", "", "+", "-1", " 80", "8_0"] {
        assert_eq!(read_port(text), text.parse::<u16>().ok());
    }
}
