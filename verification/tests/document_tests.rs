use simple_http_server::bytemap::ByteMap;
use simple_http_server::document::Document;

#[test]
fn bytemap_insert_get_and_overwrite() {
    let mut m = ByteMap::new();
    assert_eq!(m.len(), 0);
    m.insert(b"a".to_vec(), b"1".to_vec());
    m.insert(b"b".to_vec(), b"2".to_vec());
    assert_eq!(m.get(b"a"), Some(&b"1".to_vec()));
    assert_eq!(m.get(b"b"), Some(&b"2".to_vec()));
    assert_eq!(m.get(b"c"), None);

    m.insert(b"a".to_vec(), b"3".to_vec());
    assert_eq!(m.len(), 2);
    assert_eq!(m.get(b"a"), Some(&b"3".to_vec()));
    // the overwritten key keeps its place in the order
    assert_eq!(m.to_json(), b"{\"a\":\"3\",\"b\":\"2\"}".to_vec());
}

#[test]
fn empty_document_prints_as_empty_object() {
    let d = Document::empty();
    assert_eq!(d.to_bytes(), b"{}".to_vec());
}

#[test]
fn stringifier_escapes_like_the_json_crate() {
    let mut m = ByteMap::new();
    m.insert(b"quote\"key".to_vec(), b"back\\slash".to_vec());
    m.insert(b"tab".to_vec(), b"a\tb".to_vec());
    m.insert(b"ctl".to_vec(), vec![11]);

    let mut o = json::JsonValue::new_object();
    o.insert("quote\"key", "back\\slash").unwrap();
    o.insert("tab", "a\tb").unwrap();
    o.insert("ctl", "\u{000b}").unwrap();

    assert_eq!(m.to_json(), o.dump().into_bytes());
}

#[test]
fn duplicate_copies_a_map() {
    let mut m = ByteMap::new();
    m.insert(b"k".to_vec(), b"v".to_vec());
    let copy = m.duplicate();
    assert_eq!(copy.to_json(), m.to_json());
}
