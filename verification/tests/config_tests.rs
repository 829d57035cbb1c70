use metaproxy::config::Config;
use metaproxy::error::ProxyError;

#[test]
fn test_default_config() {
    let config = Config {
        bind: "127.0.0.1:8000".to_string(),
    };
    assert_eq!(config.bind, "127.0.0.1:8000");
}

#[test]
fn default_config_binds_localhost_8000() {
    let config = Config::default();
    assert_eq!(config.bind, "127.0.0.1:8000");
}

#[test]
fn invalid_bind_address_message() {
    match ProxyError::invalid_bind_address("invalid:address", "invalid socket address syntax") {
        ProxyError::Custom(msg) => assert_eq!(
            msg,
            "Invalid bind address format (invalid:address): invalid socket address syntax"
        ),
        _ => panic!("Expected Error::Custom variant"),
    }
}
