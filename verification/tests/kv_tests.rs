use simple_http_server::errors::ParseError;
use simple_http_server::request::utils::parse_kv;

fn object_text(pairs: &[(&str, &str)]) -> Vec<u8> {
    let mut o = json::JsonValue::new_object();
    for (k, v) in pairs {
        o.insert(*k, *v).unwrap();
    }
    o.dump().into_bytes()
}

#[test]
fn parse_kv_empty_str() {
    let obj = parse_kv(b"").unwrap();
    assert_eq!(obj.to_json(), object_text(&[]));
}

#[test]
fn parse_kv_single_character() {
    let obj = parse_kv(b"&").unwrap();
    assert_eq!(obj.to_json(), object_text(&[]));
}

#[test]
fn parse_kv_with_one_key_value_pair() {
    let obj = parse_kv(b"test=1").unwrap();
    assert_eq!(obj.to_json(), object_text(&[("test", "1")]));
}

#[test]
fn parse_kv_with_many_key_value_pair() {
    let obj = parse_kv(b"test1=1&test2=12nd&test3=hhh").unwrap();
    assert_eq!(obj.to_json(), object_text(&[("test1", "1"), ("test2", "12nd"), ("test3", "hhh")]));
}

#[test]
fn parse_kv_pair_without_equals_is_fatal() {
    let err = parse_kv(b"test=1&oops").unwrap_err();
    assert_eq!(err, ParseError::BadPair);
}

#[test]
fn parse_kv_duplicate_key_overwrites_in_place() {
    let obj = parse_kv(b"a=1&b=2&a=3").unwrap();
    assert_eq!(obj.to_json(), object_text(&[("a", "3"), ("b", "2")]));
}

#[test]
fn parse_kv_short_pair() {
    let obj = parse_kv(b"a=1").unwrap();
    assert_eq!(obj.to_json(), object_text(&[("a", "1")]));
}

#[test]
fn parse_kv_skips_empty_segments() {
    let obj = parse_kv(b"a=1&&b=2&").unwrap();
    assert_eq!(obj.to_json(), object_text(&[("a", "1"), ("b", "2")]));
}
