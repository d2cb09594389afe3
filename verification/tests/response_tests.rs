use simple_http_server::response::utils::parse_file_mime_type;
use simple_http_server::response::status::Status;
use simple_http_server::response::BaseResponse;
use simple_http_server::utils::make_root_path;

#[test]
fn string_response_serializes_exactly() {
    let mut r = BaseResponse::success().string("hi");
    let bytes = r.as_bytes();
    assert_eq!(
        bytes,
        b"HTTP/1.1 200 OK\r\nContent-Type: text/plain\r\nContent-Length: 2\r\n\r\nhi".to_vec()
    );
}

#[test]
fn set_content_type_overrides() {
    let mut r = BaseResponse::success().string("{}").set_content_type("application/json");
    let bytes = r.as_bytes();
    assert_eq!(
        bytes,
        b"HTTP/1.1 200 OK\r\nContent-Type: application/json\r\nContent-Length: 2\r\n\r\n{}"
            .to_vec()
    );
}

#[test]
fn not_found_response_has_fixed_body() {
    let mut r = BaseResponse::client_error().not_found();
    assert_eq!(r.status_code(), 404);
    let bytes = r.as_bytes();
    assert_eq!(
        bytes,
        b"HTTP/1.1 404 Not Found\r\nContent-Type: text/html\r\nContent-Length: 23\r\n\r\n<h1>404 NOT FOUND!</h1>".to_vec()
    );
}

#[test]
fn redirect_carries_location() {
    let mut r = BaseResponse::redirect().temporary(b"/red");
    assert_eq!(r.status_code(), 302);
    let bytes = r.as_bytes();
    assert_eq!(bytes, b"HTTP/1.1 302 Found\r\nLocation: /red\r\n\r\n".to_vec());
}

#[test]
fn serialized_response_resplits_on_blank_line() {
    // serializing and splitting on the first blank-line marker recovers
    // the exact header block, and the body is as long as the declared
    // Content-Length says
    let mut r = BaseResponse::success().string("hello world");
    let bytes = r.as_bytes();
    let marker = b"\r\n\r\n";
    let split_at = (0..bytes.len() - 3)
        .find(|&i| &bytes[i..i + 4] == marker)
        .expect("serialized response has a blank line");
    let head = &bytes[..split_at];
    let body = &bytes[split_at + 4..];
    assert_eq!(
        head,
        b"HTTP/1.1 200 OK\r\nContent-Type: text/plain\r\nContent-Length: 11".as_slice()
    );
    assert_eq!(body, b"hello world".as_slice());
    let head_text = String::from_utf8(head.to_vec()).unwrap();
    let declared: usize = head_text
        .lines()
        .find_map(|l| l.strip_prefix("Content-Length: "))
        .unwrap()
        .trim()
        .parse()
        .unwrap();
    assert_eq!(declared, body.len());
}

#[test]
fn file_response_infers_mime_and_keeps_bytes() {
    let payload = b"<html><body>hello</body></html>".to_vec();
    let mut r = BaseResponse::success().file_content(b"dist/index.html", payload.clone());
    assert_eq!(r.status_code(), 200);
    let bytes = r.as_bytes();
    let mut expected = b"HTTP/1.1 200 OK\r\nContent-Type: text/html\r\nContent-Length: 31\r\n\r\n"
        .to_vec();
    expected.extend_from_slice(&payload);
    assert_eq!(bytes, expected);
}

#[test]
fn mime_table_matches_extensions() {
    assert_eq!(parse_file_mime_type(b"a.html"), b"text/html".to_vec());
    assert_eq!(parse_file_mime_type(b"a.css"), b"text/css".to_vec());
    assert_eq!(parse_file_mime_type(b"a.js"), b"text/javascript".to_vec());
    assert_eq!(parse_file_mime_type(b"a.map"), b"application/json".to_vec());
    assert_eq!(parse_file_mime_type(b"a.jpg"), b"image/jpeg".to_vec());
    assert_eq!(parse_file_mime_type(b"a.jpeg"), b"image/jpeg".to_vec());
    assert_eq!(parse_file_mime_type(b"a.png"), b"image/png".to_vec());
    assert_eq!(parse_file_mime_type(b"a.ico"), b"image/x-icon".to_vec());
    assert_eq!(parse_file_mime_type(b"a.svg"), b"image/svg+xml".to_vec());
    assert_eq!(parse_file_mime_type(b"a.txt"), b"text/plain".to_vec());
    assert_eq!(parse_file_mime_type(b"no_extension"), b"text/plain".to_vec());
    assert_eq!(parse_file_mime_type(b"archive.tar.png"), b"image/png".to_vec());
}

#[test]
fn status_table_is_closed() {
    let pairs: [(u16, &[u8]); 9] = [
        (200, b"OK"),
        (301, b"Moved Permanently"),
        (302, b"Found"),
        (400, b"Bad Request"),
        (401, b"Unauthorized"),
        (403, b"Forbidden"),
        (404, b"Not Found"),
        (500, b"Internal Server Error"),
        (503, b"Service Unavailable"),
    ];
    for (code, message) in pairs {
        let s = Status::from_code(code);
        assert_eq!(s.code, code);
        assert_eq!(s.message, message.to_vec());
    }
    let unknown = Status::from_code(418);
    assert_eq!(unknown.code, 500);
    assert_eq!(unknown.message, b"Internal Server Error".to_vec());
}

#[test]
fn status_constructors_match_table() {
    assert_eq!(Status::ok().code, 200);
    assert_eq!(Status::moved_permanently().code, 301);
    assert_eq!(Status::found().code, 302);
    assert_eq!(Status::bad_request().code, 400);
    assert_eq!(Status::unauthorized().code, 401);
    assert_eq!(Status::forbidden().code, 403);
    assert_eq!(Status::not_found().code, 404);
    assert_eq!(Status::internal_server_error().code, 500);
    assert_eq!(Status::server_unavailable().code, 503);
}

#[test]
fn make_root_path_frames_with_slashes() {
    assert_eq!(make_root_path(b"/already/"), b"/already/".to_vec());
    assert_eq!(make_root_path(b"/lead"), b"/lead/".to_vec());
    assert_eq!(make_root_path(b"trail/"), b"/trail/".to_vec());
    assert_eq!(make_root_path(b"bare"), b"/bare/".to_vec());
    assert_eq!(make_root_path(b"/"), b"/".to_vec());
    assert_eq!(make_root_path(b""), b"//".to_vec());
}
