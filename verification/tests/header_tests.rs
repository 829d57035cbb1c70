use metaproxy::headers::{adjust_request_headers, inject_proxy_auth};
use metaproxy::scan::{HeadSource, HeaderReader, MAX_HEADER_LEN};
use metaproxy::text::{decimal_string, join_lines, parse_usize, split_lines};

fn read_all(source: HeadSource, bytes: &[u8]) -> (usize, Result<bool, String>) {
    let mut reader = HeaderReader::new(source);
    let mut used = 0;
    for &b in bytes {
        used += 1;
        match reader.push(b) {
            Ok(true) => return (used, Ok(true)),
            Ok(false) => {}
            Err(e) => return (used, Err(e.message())),
        }
    }
    (used, Ok(false))
}

#[test]
fn split_and_join_lines() {
    let lines = split_lines(b"GET / HTTP/1.1\r\nHost: a\r\n\r\n");
    assert_eq!(
        lines,
        vec![b"GET / HTTP/1.1".to_vec(), b"Host: a".to_vec(), Vec::new(), Vec::new()]
    );
    assert_eq!(join_lines(&lines), b"GET / HTTP/1.1\r\nHost: a\r\n\r\n".to_vec());
    assert_eq!(split_lines(b""), vec![Vec::<u8>::new()]);
    assert_eq!(split_lines(b"a\r\r\nb"), vec![b"a\r".to_vec(), b"b".to_vec()]);
}

#[test]
fn decimal_and_usize_parsing() {
    assert_eq!(decimal_string(0), "0");
    assert_eq!(decimal_string(9000), "9000");
    assert_eq!(decimal_string(65535), "65535");
    assert_eq!(parse_usize(b"42"), Some(42));
    assert_eq!(parse_usize(b"+7"), Some(7));
    assert_eq!(parse_usize(b"007"), Some(7));
    assert_eq!(parse_usize(b""), None);
    assert_eq!(parse_usize(b"+"), None);
    assert_eq!(parse_usize(b"-1"), None);
    assert_eq!(parse_usize(b" 1"), None);
    assert_eq!(parse_usize(b"99999999999999999999999999"), None);
    assert_eq!(parse_usize(usize::MAX.to_string().as_bytes()), Some(usize::MAX));
}

#[test]
fn reader_stops_at_blank_line() {
    let head = b"GET / HTTP/1.1\r\nHost: example.com\r\n\r\nbody";
    let (used, r) = read_all(HeadSource::Client, head);
    assert_eq!(r, Ok(true));
    assert_eq!(used, head.len() - 4);
}

#[test]
fn reader_accepts_extra_carriage_returns_before_final_newline() {
    let (used, r) = read_all(HeadSource::Client, b"A\r\n\r\r\nrest");
    assert_eq!(r, Ok(true));
    assert_eq!(used, 6);
}

#[test]
fn reader_ignores_bare_newlines() {
    let (_, r) = read_all(HeadSource::Client, b"A\n\nB\r\n\nC");
    assert_eq!(r, Ok(false));
}

#[test]
fn reader_refuses_long_heads() {
    let long = vec![b'a'; MAX_HEADER_LEN + 10];
    let (used, r) = read_all(HeadSource::Client, &long);
    assert_eq!(used, MAX_HEADER_LEN + 1);
    assert_eq!(r, Err("Request header too large".to_string()));
    let (_, r) = read_all(HeadSource::Upstream, &long);
    assert_eq!(r, Err("Response header too large".to_string()));
}

#[test]
fn reader_accepts_head_completing_at_limit_plus_one() {
    let mut head = vec![b'a'; MAX_HEADER_LEN - 3];
    head.extend_from_slice(b"\r\n\r\n");
    assert_eq!(head.len(), MAX_HEADER_LEN + 1);
    let (used, r) = read_all(HeadSource::Client, &head);
    assert_eq!(r, Ok(true));
    assert_eq!(used, MAX_HEADER_LEN + 1);
}

#[test]
fn adjust_drops_proxy_connection_and_closes_connection() {
    let head = b"GET http://x/ HTTP/1.1\r\nHost: x\r\nPROXY-CONNECTION: keep-alive\r\nconnection: Keep-Alive\r\nAccept: */*\r\n\r\n";
    let out = adjust_request_headers(head).unwrap();
    assert_eq!(
        out,
        b"GET http://x/ HTTP/1.1\r\nHost: x\r\nConnection: close\r\nAccept: */*\r\n\r\n".to_vec()
    );
    assert_eq!(adjust_request_headers(&out).unwrap(), out);
}

#[test]
fn adjust_refuses_invalid_utf8() {
    let err = adjust_request_headers(b"GET / HTTP/1.1\r\nX: \xff\r\n\r\n").unwrap_err();
    assert_eq!(err.message(), "Invalid UTF-8 in request headers");
}

#[test]
fn inject_adds_authorization_before_blank_line() {
    let head = b"CONNECT example.com:443 HTTP/1.1\r\nHost: example.com:443\r\n\r\n";
    let out = inject_proxy_auth(head, "dXNlcjpwYXNz");
    assert_eq!(
        String::from_utf8(out).unwrap(),
        "CONNECT example.com:443 HTTP/1.1\r\nHost: example.com:443\r\nProxy-Authorization: Basic dXNlcjpwYXNz\r\n\r\n"
    );
}

#[test]
fn inject_on_head_without_blank_line() {
    let out = inject_proxy_auth(b"CONNECT a:1 HTTP/1.1", "Zm9v");
    assert_eq!(
        out,
        b"CONNECT a:1 HTTP/1.1\r\nProxy-Authorization: Basic Zm9v\r\n\r\n".to_vec()
    );
}
