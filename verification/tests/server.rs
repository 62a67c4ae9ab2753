use http_server::http::{Method, ParseError, QueryStringValue, Request, Response, StatusCode};
use http_server::server::{handle_connection, Handler, Server, BUFFER_SIZE};

struct Greeter {
    seen: Vec<String>,
}

impl Handler for Greeter {
    fn handle_request(&mut self, request: &Request) -> Response {
        self.seen.push(request.path().to_string());
        Response::new(StatusCode::OK, Some("hi".to_string()))
    }
}

struct Strict {
    errors: Vec<ParseError>,
}

impl Handler for Strict {
    fn handle_request(&mut self, request: &Request) -> Response {
        match request.method() {
            Method::GET => Response::new(StatusCode::OK, Some(request.path().to_string())),
            _ => Response::new(StatusCode::NotFound, None),
        }
    }

    fn handle_bad_request(&mut self, e: &ParseError) -> Response {
        self.errors.push(*e);
        Response::new(StatusCode::InternalServerError, Some(e.message().to_string()))
    }
}

#[test]
fn end_to_end() {
    let raw = b"GET /search?name=abc&sort=1 HTTP/1.1\r\n\r\n";
    let request = Request::try_from(&raw[..]).unwrap();
    assert_eq!(request.path(), "/search");
    let query = request.query_string().unwrap();
    assert!(matches!(query.get("name"), Some(QueryStringValue::Single("abc"))));
    assert!(matches!(query.get("sort"), Some(QueryStringValue::Single("1"))));

    let mut handler = Greeter { seen: Vec::new() };
    let mut output = Vec::new();
    let outcome = handle_connection(&mut handler, &raw[..], &mut output);
    assert_eq!(outcome, Ok(()));
    assert_eq!(output, b"HTTP/1.1 200 OK\r\n\r\nhi");
    assert_eq!(handler.seen, vec!["/search".to_string()]);
}

#[test]
fn server_keeps_its_address() {
    let server = Server::new("127.0.0.1:8080".to_string());
    assert_eq!(server.addr(), "127.0.0.1:8080");
    assert_eq!(Server::new(String::new()).addr(), "");
}

#[test]
fn bad_request_gets_400_without_body_by_default() {
    let mut handler = Greeter { seen: Vec::new() };
    let inputs: [(&[u8], ParseError); 4] = [
        (b"GET\r\n", ParseError::InvalidRequest),
        (b"\xff\xfe", ParseError::InvalidEncoding),
        (b"GET / HTTP/2\r\n", ParseError::InvalidProtocol),
        (b"FOO / HTTP/1.1\r\n", ParseError::InvalidMethod),
    ];
    for (input, error) in inputs {
        let mut output = Vec::new();
        let outcome = handle_connection(&mut handler, input, &mut output);
        assert_eq!(outcome, Err(error));
        assert_eq!(output, b"HTTP/1.1 400 Bad Request\r\n\r\n");
    }
    assert!(handler.seen.is_empty());
}

#[test]
fn default_bad_request_response() {
    let mut handler = Greeter { seen: Vec::new() };
    let response = handler.handle_bad_request(&ParseError::InvalidMethod);
    assert_eq!(response.status_code(), StatusCode::BadRequest);
    assert_eq!(response.body(), None);
}

#[test]
fn handler_may_answer_bad_requests_itself() {
    let mut handler = Strict { errors: Vec::new() };
    let mut output = Vec::new();
    let outcome = handle_connection(&mut handler, b"GET / HTTP/1.0\r\n", &mut output);
    assert_eq!(outcome, Err(ParseError::InvalidProtocol));
    assert_eq!(output, b"HTTP/1.1 500 Internal Server Error\r\n\r\nInvalid Protocol");
    assert_eq!(handler.errors, vec![ParseError::InvalidProtocol]);
}

#[test]
fn each_connection_gets_exactly_one_response() {
    let mut handler = Strict { errors: Vec::new() };
    let mut output = Vec::new();
    assert_eq!(
        handle_connection(&mut handler, b"GET /a HTTP/1.1\r\n", &mut output),
        Ok(())
    );
    assert_eq!(
        handle_connection(&mut handler, b"POST /b HTTP/1.1\r\n", &mut output),
        Ok(())
    );
    assert_eq!(
        output,
        b"HTTP/1.1 200 OK\r\n\r\n/aHTTP/1.1 404 Not Found\r\n\r\n"
    );
    assert!(handler.errors.is_empty());
}

#[test]
fn a_full_read_buffer_is_answered() {
    assert_eq!(BUFFER_SIZE, 1024);
    let mut buffer = [0u8; BUFFER_SIZE];
    let line = b"GET /long HTTP/1.1\r\nHost: localhost\r\n\r\n";
    buffer[..line.len()].copy_from_slice(line);
    let mut handler = Strict { errors: Vec::new() };
    let mut output = Vec::new();
    assert_eq!(handle_connection(&mut handler, &buffer[..], &mut output), Ok(()));
    assert_eq!(output, b"HTTP/1.1 200 OK\r\n\r\n/long");
}
