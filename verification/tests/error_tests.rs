use metaproxy::error::ProxyError;
use std::io::{Error as IoError, ErrorKind};

#[test]
fn test_from_io_error() {
    let io_error = std::io::Error::new(std::io::ErrorKind::Other, "test");
    let error = ProxyError::from(io_error);
    match error {
        ProxyError::Io(_) => {}
        _ => panic!("Expected Io error"),
    }
}

#[test]
fn test_from_str() {
    let err: ProxyError = "test error".into();

    match err {
        ProxyError::Custom(msg) => assert_eq!(msg, "test error"),
        _ => panic!("Expected Error::Custom variant"),
    }
}

#[test]
fn test_from_string() {
    let err: ProxyError = "test error".to_string().into();

    match err {
        ProxyError::Custom(msg) => assert_eq!(msg, "test error"),
        _ => panic!("Expected Error::Custom variant"),
    }
}

#[test]
fn test_display() {
    let err: ProxyError = "test error".into();
    assert_eq!(err.message(), "test error");

    let io_err = IoError::new(ErrorKind::NotFound, "file not found");
    let err: ProxyError = io_err.into();
    assert!(err.message().contains("IO error"));
}

#[test]
fn messages_of_outside_errors_carry_their_text() {
    let err = ProxyError::from(IoError::new(ErrorKind::NotFound, "file not found"));
    assert_eq!(err.message(), "IO error: file not found");

    let err = ProxyError::from(httparse::Error::HeaderName);
    assert_eq!(err.message(), "HTTP parse error: invalid header name");

    let err = ProxyError::from(url::ParseError::EmptyHost);
    assert_eq!(err.message(), "URL parse error: empty host");

    let json_err = serde_json::from_str::<serde_json::Value>("{").unwrap_err();
    let err = ProxyError::from(json_err);
    assert!(err.message().starts_with("JSON error: "));
}
