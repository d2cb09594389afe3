use simple_http_server::methods::Methods;
use simple_http_server::request::Request;
use simple_http_server::response::{BaseResponse, Response};
use simple_http_server::routes::{dispatch, handle_request, Api, Handler, RouteTable};

#[test]
fn lookup_returns_last_registration() {
    let mut table: RouteTable<u32> = RouteTable::new();
    table.register(Methods::Get, b"/a".to_vec(), 1);
    table.register(Methods::Get, b"/b".to_vec(), 2);
    table.register(Methods::Get, b"/a".to_vec(), 3);

    assert_eq!(table.get(&Methods::Get).get(b"/a"), Some(&3));
    assert_eq!(table.get(&Methods::Get).get(b"/b"), Some(&2));
    assert_eq!(table.get(&Methods::Get).get(b"/c"), None);
    assert_eq!(table.get(&Methods::Post).get(b"/a"), None);
}

#[test]
fn api_routes_by_method() {
    let mut api: Api<u32> = Api::new();
    api.get(b"/x", 10);
    api.post(b"/x", 20);

    assert_eq!(api.routes.get(&Methods::Get).get(b"/x"), Some(&10));
    assert_eq!(api.routes.get(&Methods::Post).get(b"/x"), Some(&20));
}

struct EchoPath;

impl Handler for EchoPath {
    fn handle(&self, request: Request) -> Response {
        let path = String::from_utf8(request.request_line.url.clone()).unwrap();
        BaseResponse::success().string(&path)
    }
}

#[test]
fn dispatch_hit_invokes_handler() {
    let mut table: RouteTable<EchoPath> = RouteTable::new();
    table.register(Methods::Get, b"/hello".to_vec(), EchoPath);

    let mut r = dispatch(&table, b"GET /hello HTTP/1.1\r\n\r\n");
    assert_eq!(r.status_code(), 200);
    let bytes = r.as_bytes();
    assert!(bytes.ends_with(b"\r\n\r\n/hello"));
}

#[test]
fn dispatch_miss_is_not_found() {
    let table: RouteTable<EchoPath> = RouteTable::new();

    let mut r = dispatch(&table, b"GET /absent HTTP/1.1\r\n\r\n");
    assert_eq!(r.status_code(), 404);
    let bytes = r.as_bytes();
    assert_eq!(
        bytes,
        b"HTTP/1.1 404 Not Found\r\nContent-Type: text/html\r\nContent-Length: 23\r\n\r\n<h1>404 NOT FOUND!</h1>".to_vec()
    );
}

#[test]
fn dispatch_method_miss_is_not_found() {
    let mut table: RouteTable<EchoPath> = RouteTable::new();
    table.register(Methods::Post, b"/only-post".to_vec(), EchoPath);

    let mut r = dispatch(&table, b"GET /only-post HTTP/1.1\r\n\r\n");
    assert_eq!(r.status_code(), 404);
    let _ = r.as_bytes();
}

#[test]
fn dispatch_unparsable_request_is_bad_request() {
    let table: RouteTable<EchoPath> = RouteTable::new();

    let mut r = dispatch(&table, b"GET /x?broken HTTP/1.1\r\n\r\n");
    assert_eq!(r.status_code(), 400);
    let bytes = r.as_bytes();
    assert_eq!(bytes, b"HTTP/1.1 400 Bad Request\r\n\r\n".to_vec());
}

#[test]
fn mounted_file_round_trip() {
    // what a static mount registers: a handler that frames the file's
    // bytes with the MIME type of its name; a present path serves the
    // bytes, an absent one the fixed not-found response
    struct FileHandler {
        name: Vec<u8>,
        data: Vec<u8>,
    }
    impl Handler for FileHandler {
        fn handle(&self, _request: Request) -> Response {
            BaseResponse::success().file_content(&self.name, self.data.clone())
        }
    }

    let mut table: RouteTable<FileHandler> = RouteTable::new();
    let data = b"body { color: red; }".to_vec();
    table.register(
        Methods::Get,
        b"/site/style.css".to_vec(),
        FileHandler { name: b"dist/style.css".to_vec(), data: data.clone() },
    );

    let mut hit = dispatch(&table, b"GET /site/style.css HTTP/1.1\r\n\r\n");
    assert_eq!(hit.status_code(), 200);
    let bytes = hit.as_bytes();
    let mut expected = b"HTTP/1.1 200 OK\r\nContent-Type: text/css\r\nContent-Length: 20\r\n\r\n"
        .to_vec();
    expected.extend_from_slice(&data);
    assert_eq!(bytes, expected);

    let mut miss = dispatch(&table, b"GET /site/missing.css HTTP/1.1\r\n\r\n");
    assert_eq!(miss.status_code(), 404);
}

#[test]
fn handle_request_pins_miss_and_error_bytes() {
    let table: RouteTable<EchoPath> = RouteTable::new();

    let miss = handle_request(&table, b"GET /absent HTTP/1.1\r\n\r\n");
    assert_eq!(
        miss,
        b"HTTP/1.1 404 Not Found\r\nContent-Type: text/html\r\nContent-Length: 23\r\n\r\n<h1>404 NOT FOUND!</h1>".to_vec()
    );

    let bad = handle_request(&table, b"GET /x?broken HTTP/1.1\r\n\r\n");
    assert_eq!(bad, b"HTTP/1.1 400 Bad Request\r\n\r\n".to_vec());
}
