use http_core::config::{match_port, parse_args, parse_port, port_from_env, ConfigError};

fn args(v: &[&str]) -> Vec<String> {
    v.iter().map(|s| s.to_string()).collect()
}

#[test]
fn ports_parse_like_u16() {
    assert_eq!(parse_port("4221"), Some(4221));
    assert_eq!(parse_port("0"), Some(0));
    assert_eq!(parse_port("65535"), Some(65535));
    assert_eq!(parse_port("+80"), Some(80));
    assert_eq!(parse_port("0080"), Some(80));
    assert_eq!(parse_port("65536"), None);
    assert_eq!(parse_port("999999999999"), None);
    assert_eq!(parse_port(""), None);
    assert_eq!(parse_port("+"), None);
    assert_eq!(parse_port("-1"), None);
    assert_eq!(parse_port("12a"), None);
    assert_eq!(parse_port(" 80"), None);
}

#[test]
fn match_port_errors() {
    assert!(matches!(match_port(None), Err(ConfigError::MissingPort)));
    assert!(matches!(match_port(Some("x".to_string())), Err(ConfigError::InvalidPort)));
    assert_eq!(match_port(Some("8080".to_string())).unwrap(), 8080);
}

#[test]
fn env_port_defaults() {
    assert_eq!(port_from_env(None).unwrap(), 4221);
    assert_eq!(port_from_env(Some("9000".to_string())).unwrap(), 9000);
    assert!(matches!(port_from_env(Some("70000".to_string())), Err(ConfigError::InvalidPort)));
}

#[test]
fn arguments_set_port_and_directory() {
    let a = parse_args(&args(&["server", "--port", "8000", "--directory", "/tmp/x"])).unwrap();
    assert_eq!(a.port, Some(8000));
    assert_eq!(a.directory.as_deref(), Some("/tmp/x"));
    let a = parse_args(&args(&["server", "-p", "1", "other", "-p", "2"])).unwrap();
    assert_eq!(a.port, Some(2));
    assert_eq!(a.directory, None);
    let a = parse_args(&args(&["server", "--directory"])).unwrap();
    assert_eq!(a.directory.as_deref(), Some("public"));
    assert!(matches!(parse_args(&args(&["server", "-p"])), Err(ConfigError::MissingPort)));
    assert!(matches!(parse_args(&args(&["server", "--port", "http"])), Err(ConfigError::InvalidPort)));
}
