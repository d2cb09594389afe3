use simple_http_server::bytes::split;
use simple_http_server::errors::ParseError;
use simple_http_server::request::request_body::Body;
use simple_http_server::request::request_header::Header;
use simple_http_server::request::request_line::RequestLine;
use simple_http_server::request::Request;

fn object_text(pairs: &[(&str, &str)]) -> Vec<u8> {
    let mut o = json::JsonValue::new_object();
    for (k, v) in pairs {
        o.insert(*k, *v).unwrap();
    }
    o.dump().into_bytes()
}

#[test]
fn parse_body_json() {
    let body = Body::parse_json(b"{\"test\": \"1\", \"hello\": \"hi\"}").unwrap();

    assert_eq!(body.content.to_bytes(), object_text(&[("test", "1"), ("hello", "hi")]));
}

#[test]
fn parse_body_normal() {
    let body = Body::parse(b"test=1&hello=hi").unwrap();

    assert_eq!(body.content.to_bytes(), object_text(&[("test", "1"), ("hello", "hi")]));
}

#[test]
fn parse_header() {
    let lines = split(b"Content-Length: 10\r\naccept: */*", b"\r\n");
    let header = Header::from_lines(&lines);

    assert_eq!(header.map.to_json(), object_text(&[("Content-Length", "10"), ("accept", "*/*")]));
}

#[test]
fn parse_get_request_without_query() {
    let req = RequestLine::parse(b"GET / HTTP/1.1").unwrap();

    assert_eq!(req.url, b"/".to_vec());
    assert_eq!(req.method.name(), "GET");
    assert_eq!(req.http_version, b"HTTP/1.1".to_vec());
    assert_eq!(req.query.to_json(), object_text(&[]));
}

#[test]
fn parse_get_request_with_query() {
    let req = RequestLine::parse(b"GET /hello?name=rust&age=7 HTTP/1.1").unwrap();

    assert_eq!(req.url, b"/hello".to_vec());
    assert_eq!(req.method.name(), "GET");
    assert_eq!(req.http_version, b"HTTP/1.1".to_vec());
    assert_eq!(req.query.to_json(), object_text(&[("name", "rust"), ("age", "7")]));
}

#[test]
fn parse_request_line_and_query() {
    let req = Request::parse(b"GET /hello?name=a&age=7 HTTP/1.1\r\n\r\n").unwrap();

    assert_eq!(req.request_line.url, b"/hello".to_vec());
    assert_eq!(req.request_line.method.name(), "GET");
    assert_eq!(req.request_line.http_version, b"HTTP/1.1".to_vec());
    assert_eq!(req.query.to_json(), object_text(&[("name", "a"), ("age", "7")]));
}

#[test]
fn parse_is_idempotent() {
    let raw = b"POST /submit?a=1&b=2 HTTP/1.1\r\nContent-Length: 15\r\n\r\ntest=1&hello=hi";
    let one = Request::parse(raw).unwrap();
    let two = Request::parse(raw).unwrap();

    assert_eq!(one.request_line.method.name(), two.request_line.method.name());
    assert_eq!(one.request_line.url, two.request_line.url);
    assert_eq!(one.request_line.http_version, two.request_line.http_version);
    assert_eq!(one.query.to_json(), two.query.to_json());
    assert_eq!(one.headers.map.to_json(), two.headers.map.to_json());
    assert_eq!(one.body.content.to_bytes(), two.body.content.to_bytes());
}

#[test]
fn parse_form_body() {
    let raw = b"POST /form HTTP/1.1\r\nContent-Length: 15\r\n\r\ntest=1&hello=hi";
    let req = Request::parse(raw).unwrap();

    assert_eq!(req.body.to_bytes(), object_text(&[("test", "1"), ("hello", "hi")]));
}

#[test]
fn parse_json_body() {
    let raw = b"POST /json HTTP/1.1\r\nContent-Type: application/json\r\nContent-Length: 12\r\n\r\n{\"test\":\"1\"}";
    let req = Request::parse(raw).unwrap();

    let direct = json::parse("{\"test\":\"1\"}").unwrap();
    assert_eq!(req.body.content.to_bytes(), direct.dump().into_bytes());
}

#[test]
fn body_truncated_to_content_length() {
    let raw = b"POST /x HTTP/1.1\r\nContent-Length: 6\r\n\r\ntest=1&hello=hi";
    let req = Request::parse(raw).unwrap();

    assert_eq!(req.body.content.to_bytes(), object_text(&[("test", "1")]));
}

#[test]
fn missing_content_length_means_empty_body() {
    let raw = b"POST /x HTTP/1.1\r\n\r\ntest=1&hello=hi";
    let req = Request::parse(raw).unwrap();

    assert_eq!(req.body.content.to_bytes(), object_text(&[]));
}

#[test]
fn unknown_content_type_reads_as_empty_document() {
    let raw = b"POST /x HTTP/1.1\r\nContent-Type: text/weird\r\nContent-Length: 7\r\n\r\npayload";
    let req = Request::parse(raw).unwrap();

    assert_eq!(req.body.content.to_bytes(), object_text(&[]));
}

#[test]
fn bad_query_pair_is_rejected() {
    let err = Request::parse(b"GET /x?abcd HTTP/1.1\r\n\r\n").unwrap_err();
    assert_eq!(err, ParseError::BadPair);
}

#[test]
fn bad_json_body_reports_its_error() {
    let err = Body::parse_json(b"{nope").unwrap_err();
    assert_eq!(err, ParseError::BadJson);
}

#[test]
fn header_value_keeps_later_colons() {
    let lines = split(b"Host: example.com:8080", b"\r\n");
    let header = Header::from_lines(&lines);

    assert_eq!(header.get(b"Host").unwrap(), &b"example.com:8080".to_vec());
}

#[test]
fn query_runs_to_the_end_of_the_target() {
    let req = RequestLine::parse(b"GET /p?xx=1?yy HTTP/1.1").unwrap();

    assert_eq!(req.url, b"/p".to_vec());
    assert_eq!(req.query.to_json(), object_text(&[("xx", "1?yy")]));
}

#[test]
fn header_value_is_trimmed() {
    let lines = split(b"Host:    spaced.example   ", b"\r\n");
    let header = Header::from_lines(&lines);

    assert_eq!(header.get(b"Host").unwrap(), &b"spaced.example".to_vec());
}
