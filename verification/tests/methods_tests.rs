use simple_http_server::methods::Methods;

#[test]
fn method_to_str() {
    assert_eq!(Methods::Get.name(), "GET");
    assert_eq!(Methods::Post.name(), "POST");
}

#[test]
fn str_to_method() {
    let get: Methods = Methods::from_name("GET");
    let post: Methods = Methods::from_name("POST");
    let other: Methods = Methods::from_name("AAA");

    assert_eq!(get.name(), Methods::Get.name());
    assert_eq!(post.name(), Methods::Post.name());
    assert_eq!(other.name(), Methods::Get.name());
}

#[test]
fn unknown_tokens_read_as_get_everywhere() {
    // the defaulting is uniform: the token parser and the request-line
    // parser answer alike for an unrecognized token
    assert_eq!(Methods::from_bytes(b"PUT").name(), "GET");
    assert_eq!(Methods::from_bytes(b"DELETE").name(), "GET");
    assert_eq!(Methods::from_bytes(b"get").name(), "GET");
    let rl = simple_http_server::request::request_line::RequestLine::parse(b"PUT / HTTP/1.1")
        .unwrap();
    assert_eq!(rl.method.name(), "GET");
    let req = simple_http_server::request::Request::parse(b"DELETE /x HTTP/1.1\r\n\r\n").unwrap();
    assert_eq!(req.request_line.method.name(), "GET");
}
