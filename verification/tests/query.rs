use httpline::method::{Method, MethodError};
use httpline::query_string::{QueryString, Value};
use httpline::server::Server;

#[test]
fn query_multi_map_law() {
    let qs = QueryString::from_text("a=1&b=2&a=3");
    match qs.get("a") {
        Some(Value::Multiple(vs)) => assert_eq!(vs, &vec!["1", "3"]),
        _ => panic!("a should hold multiple values"),
    }
    match qs.get("b") {
        Some(Value::Single(v)) => assert_eq!(*v, "2"),
        _ => panic!("b should be a single value"),
    }
}

#[test]
fn query_three_repeats() {
    let qs = QueryString::from_text("a=1&a=2&a=3");
    match qs.get("a") {
        Some(Value::Multiple(vs)) => assert_eq!(vs, &vec!["1", "2", "3"]),
        _ => panic!("a should hold multiple values"),
    }
}

#[test]
fn query_param_without_equals() {
    let qs = QueryString::from_text("flag");
    match qs.get("flag") {
        Some(Value::Single(v)) => assert_eq!(*v, ""),
        _ => panic!("flag should be a single empty value"),
    }
}

#[test]
fn query_empty_text() {
    let qs = QueryString::from_text("");
    match qs.get("") {
        Some(Value::Single(v)) => assert_eq!(*v, ""),
        _ => panic!("the empty key should hold a single empty value"),
    }
}

#[test]
fn query_leading_ampersand() {
    let qs = QueryString::from_text("&a=1");
    match qs.get("") {
        Some(Value::Single(v)) => assert_eq!(*v, ""),
        _ => panic!("the empty key should hold a single empty value"),
    }
    match qs.get("a") {
        Some(Value::Single(v)) => assert_eq!(*v, "1"),
        _ => panic!("a should be a single value"),
    }
}

#[test]
fn query_trailing_ampersand() {
    let qs = QueryString::from_text("a=1&");
    match qs.get("a") {
        Some(Value::Single(v)) => assert_eq!(*v, "1"),
        _ => panic!("a should be a single value"),
    }
    match qs.get("") {
        Some(Value::Single(v)) => assert_eq!(*v, ""),
        _ => panic!("the empty key should hold a single empty value"),
    }
}

#[test]
fn query_value_with_equals() {
    // only the first '=' splits
    let qs = QueryString::from_text("a=b=c");
    match qs.get("a") {
        Some(Value::Single(v)) => assert_eq!(*v, "b=c"),
        _ => panic!("a should be a single value"),
    }
}

#[test]
fn query_absent_key() {
    let qs = QueryString::from_text("a=1");
    assert!(qs.get("b").is_none());
}

#[test]
fn method_from_str_known() {
    assert_eq!(Method::from_str("GET").unwrap(), Method::GET);
    assert_eq!(Method::from_str("POST").unwrap(), Method::POST);
    assert_eq!(Method::from_str("PUT").unwrap(), Method::PUT);
    assert_eq!(Method::from_str("DELETE").unwrap(), Method::DELETE);
    assert_eq!(Method::from_str("PATCH").unwrap(), Method::PATCH);
    assert_eq!(Method::from_str("HEAD").unwrap(), Method::HEAD);
    assert_eq!(Method::from_str("CONNECT").unwrap(), Method::CONNECT);
    assert_eq!(Method::from_str("OPTIONS").unwrap(), Method::OPTIONS);
    assert_eq!(Method::from_str("TRACE").unwrap(), Method::TRACE);
}

#[test]
fn method_from_str_unknown() {
    assert_eq!(Method::from_str("FOO").unwrap_err(), MethodError);
    assert_eq!(Method::from_str("get").unwrap_err(), MethodError);
    assert_eq!(Method::from_str(" GET").unwrap_err(), MethodError);
    assert_eq!(Method::from_str("").unwrap_err(), MethodError);
}

#[test]
fn server_keeps_address() {
    let server = Server::new(String::from("127.0.0.1:8080"));
    assert_eq!(server.addr, "127.0.0.1:8080");
}
