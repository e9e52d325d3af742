use httpline::method::Method;
use httpline::query_string::Value;
use httpline::request::{ParseError, Request};

#[test]
fn parse_simple_get() {
    let buf = b"GET /index.html HTTP/1.1\r\n\r\n";
    let req = Request::parse(buf).unwrap();
    assert_eq!(req.method, Method::GET);
    assert_eq!(req.path, "/index.html");
    assert!(req.query_string.is_none());
}

#[test]
fn parse_with_query() {
    let buf = b"GET /search?name=bob&tag=a&tag=b HTTP/1.1\r\n\r\n";
    let req = Request::parse(buf).unwrap();
    assert_eq!(req.method, Method::GET);
    assert_eq!(req.path, "/search");
    let qs = req.query_string.as_ref().unwrap();
    match qs.get("name") {
        Some(Value::Single(v)) => assert_eq!(*v, "bob"),
        _ => panic!("name should be a single value"),
    }
    match qs.get("tag") {
        Some(Value::Multiple(vs)) => assert_eq!(vs, &vec!["a", "b"]),
        _ => panic!("tag should hold multiple values"),
    }
}

#[test]
fn parse_every_verb() {
    let verbs: [(&[u8], Method); 9] = [
        (b"GET", Method::GET),
        (b"POST", Method::POST),
        (b"PUT", Method::PUT),
        (b"DELETE", Method::DELETE),
        (b"PATCH", Method::PATCH),
        (b"HEAD", Method::HEAD),
        (b"CONNECT", Method::CONNECT),
        (b"OPTIONS", Method::OPTIONS),
        (b"TRACE", Method::TRACE),
    ];
    for (verb, method) in verbs {
        let mut buf = Vec::new();
        buf.extend_from_slice(verb);
        buf.extend_from_slice(b" /some/path HTTP/1.1\r\n\r\n");
        let req = Request::parse(&buf).unwrap();
        assert_eq!(req.method, method);
        assert_eq!(req.path, "/some/path");
        assert!(req.query_string.is_none());
    }
}

#[test]
fn parse_query_path_split() {
    let buf = b"GET /search?q=rust HTTP/1.1\r\n\r\n";
    let req = Request::parse(buf).unwrap();
    assert_eq!(req.path, "/search");
    let qs = req.query_string.as_ref().unwrap();
    match qs.get("q") {
        Some(Value::Single(v)) => assert_eq!(*v, "rust"),
        _ => panic!("q should be a single value"),
    }
}

#[test]
fn parse_multibyte_path() {
    let text = "GET /caf\u{e9} HTTP/1.1\r\n\r\n";
    let req = Request::parse(text.as_bytes()).unwrap();
    assert_eq!(req.path, "/caf\u{e9}");
}

#[test]
fn parse_unknown_method() {
    let buf = b"FOO / HTTP/1.1\r\n\r\n";
    assert_eq!(Request::parse(buf).unwrap_err(), ParseError::InvalidMethodError);
}

#[test]
fn parse_lowercase_method() {
    let buf = b"get / HTTP/1.1\r\n\r\n";
    assert_eq!(Request::parse(buf).unwrap_err(), ParseError::InvalidMethodError);
}

#[test]
fn parse_wrong_protocol() {
    let buf = b"GET / HTTP/1.0\r\n\r\n";
    assert_eq!(Request::parse(buf).unwrap_err(), ParseError::InvalidProtocolError);
}

#[test]
fn parse_lowercase_protocol() {
    let buf = b"GET / http/1.1\r\n\r\n";
    assert_eq!(Request::parse(buf).unwrap_err(), ParseError::InvalidProtocolError);
}

#[test]
fn parse_empty_protocol() {
    // the third token, between the second space and the carriage return, is empty
    let buf = b"GET / \r\n\r\n";
    assert_eq!(Request::parse(buf).unwrap_err(), ParseError::InvalidProtocolError);
}

#[test]
fn parse_too_few_tokens() {
    let buf = b"GET /";
    assert_eq!(Request::parse(buf).unwrap_err(), ParseError::InvalidRequest);
}

#[test]
fn parse_one_token() {
    assert_eq!(Request::parse(b"GET").unwrap_err(), ParseError::InvalidRequest);
}

#[test]
fn parse_empty_buffer() {
    assert_eq!(Request::parse(b"").unwrap_err(), ParseError::InvalidRequest);
}

#[test]
fn parse_invalid_utf8_first_byte() {
    let buf = [0xFFu8, b'G', b'E', b'T'];
    assert_eq!(Request::parse(&buf).unwrap_err(), ParseError::InvalidEncodingError);
}

#[test]
fn parse_encoding_checked_before_tokenization() {
    // without the bad byte this buffer would fail as InvalidRequest;
    // the encoding check comes first
    let buf = [b'G', b'E', b'T', 0xFF];
    assert_eq!(Request::parse(&buf).unwrap_err(), ParseError::InvalidEncodingError);
    // and with all three tokens present, still the encoding error wins
    let mut full = Vec::new();
    full.extend_from_slice(b"GET /a");
    full.push(0xFF);
    full.extend_from_slice(b" HTTP/1.1\r\n\r\n");
    assert_eq!(Request::parse(&full).unwrap_err(), ParseError::InvalidEncodingError);
}

#[test]
fn error_messages() {
    assert_eq!(ParseError::InvalidRequest.message(), "InvalidRequest");
    assert_eq!(ParseError::InvalidEncodingError.message(), "InvalidEncodingError");
    assert_eq!(ParseError::InvalidProtocolError.message(), "InvalidProtocolError");
    assert_eq!(ParseError::InvalidMethodError.message(), "InvalidMethodError");
}

#[test]
fn next_word_splits_on_space_and_cr() {
    let (word, rest) = httpline::request::get_next_word("GET /index.html HTTP/1.1\r\n\r\n").unwrap();
    assert_eq!(word, "GET");
    assert_eq!(rest, "/index.html HTTP/1.1\r\n\r\n");
    let (word2, rest2) = httpline::request::get_next_word("HTTP/1.1\r\n\r\n").unwrap();
    assert_eq!(word2, "HTTP/1.1");
    assert_eq!(rest2, "\n\r\n");
    assert!(httpline::request::get_next_word("nodelimiter").is_none());
}
