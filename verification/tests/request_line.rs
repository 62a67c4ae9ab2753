use http_server::http::request::get_next_word;
use http_server::http::{Method, ParseError, QueryStringValue, Request};

fn parse_error(buf: &[u8]) -> Option<ParseError> {
    Request::try_from(buf).err()
}

#[test]
fn next_word_yields_the_three_tokens_then_a_remainder() {
    let (method, rest) = get_next_word("GET /a HTTP/1.1\r\n").unwrap();
    assert_eq!(method, "GET");
    let (target, rest) = get_next_word(rest).unwrap();
    assert_eq!(target, "/a");
    let (protocol, rest) = get_next_word(rest).unwrap();
    assert_eq!(protocol, "HTTP/1.1");
    assert_eq!(rest, "\n");
    assert_eq!(get_next_word(rest), None);
}

#[test]
fn next_word_of_text_without_delimiter_is_none() {
    assert_eq!(get_next_word(""), None);
    assert_eq!(get_next_word("GET"), None);
    assert_eq!(get_next_word("a\nb\tc"), None);
}

#[test]
fn next_word_stops_at_the_first_delimiter_only() {
    assert_eq!(get_next_word(" "), Some(("", "")));
    assert_eq!(get_next_word("a  b"), Some(("a", " b")));
    assert_eq!(get_next_word("\r\n"), Some(("", "\n")));
    assert_eq!(get_next_word("ab\r cd"), Some(("ab", " cd")));
}

#[test]
fn next_word_counts_characters_not_bytes() {
    assert_eq!(get_next_word("caf\u{e9} au lait"), Some(("caf\u{e9}", "au lait")));
    assert_eq!(get_next_word("\u{4e2d}\u{6587}\r\u{1f600}"), Some(("\u{4e2d}\u{6587}", "\u{1f600}")));
}

#[test]
fn unknown_method_is_invalid_method() {
    assert_eq!(parse_error(b"FOO /x HTTP/1.1\r\n"), Some(ParseError::InvalidMethod));
}

#[test]
fn method_match_is_case_sensitive() {
    assert_eq!(parse_error(b"get /x HTTP/1.1\r\n"), Some(ParseError::InvalidMethod));
    assert_eq!(parse_error(b"Get /x HTTP/1.1\r\n"), Some(ParseError::InvalidMethod));
    assert_eq!(parse_error(b" /x HTTP/1.1\r\n"), Some(ParseError::InvalidMethod));
}

#[test]
fn other_protocol_is_invalid_protocol() {
    assert_eq!(parse_error(b"GET /x HTTP/1.0\r\n"), Some(ParseError::InvalidProtocol));
    assert_eq!(parse_error(b"GET /x http/1.1\r\n"), Some(ParseError::InvalidProtocol));
    assert_eq!(parse_error(b"GET /x HTTP/1.1\n\r\n"), Some(ParseError::InvalidProtocol));
    assert_eq!(parse_error(b"GET  /x HTTP/1.1\r\n"), Some(ParseError::InvalidProtocol));
}

#[test]
fn protocol_is_checked_before_method() {
    assert_eq!(parse_error(b"FOO /x HTTP/1.0\r\n"), Some(ParseError::InvalidProtocol));
}

#[test]
fn fewer_than_three_tokens_is_invalid_request() {
    assert_eq!(parse_error(b"GET\r\n"), Some(ParseError::InvalidRequest));
    assert_eq!(parse_error(b""), Some(ParseError::InvalidRequest));
    assert_eq!(parse_error(b"GET"), Some(ParseError::InvalidRequest));
    assert_eq!(parse_error(b"GET /x"), Some(ParseError::InvalidRequest));
    assert_eq!(parse_error(b"GET /x HTTP/1.1"), Some(ParseError::InvalidRequest));
    assert_eq!(parse_error(b"FOO /x"), Some(ParseError::InvalidRequest));
}

#[test]
fn buffer_that_is_not_utf8_is_invalid_encoding() {
    assert_eq!(parse_error(&[0xff]), Some(ParseError::InvalidEncoding));
    assert_eq!(parse_error(&[0xc3, 0x28]), Some(ParseError::InvalidEncoding));
    assert_eq!(parse_error(b"GET /x HTTP/1.1\r\n\xff"), Some(ParseError::InvalidEncoding));
    assert_eq!(parse_error(b"FOO\xc0\x80"), Some(ParseError::InvalidEncoding));
    assert_eq!(parse_error(&[0xed, 0xa0, 0x80]), Some(ParseError::InvalidEncoding));
}

#[test]
fn parses_path_and_query() {
    let buf = b"GET /search?name=abc&sort=1 HTTP/1.1\r\n\r\n";
    let request = Request::try_from(&buf[..]).unwrap();
    assert_eq!(request.path(), "/search");
    assert_eq!(*request.method(), Method::GET);
    let query = request.query_string().unwrap();
    assert!(matches!(query.get("name"), Some(QueryStringValue::Single("abc"))));
    assert!(matches!(query.get("sort"), Some(QueryStringValue::Single("1"))));
    assert!(query.get("other").is_none());
}

#[test]
fn target_without_question_mark_has_no_query() {
    let request = Request::try_from(&b"POST /submit HTTP/1.1\r\n"[..]).unwrap();
    assert_eq!(request.path(), "/submit");
    assert_eq!(*request.method(), Method::POST);
    assert!(request.query_string().is_none());
}

#[test]
fn target_is_cut_at_the_first_question_mark() {
    let request = Request::try_from(&b"GET /a?b?c=d HTTP/1.1\r\n"[..]).unwrap();
    assert_eq!(request.path(), "/a");
    let query = request.query_string().unwrap();
    assert!(matches!(query.get("b?c"), Some(QueryStringValue::Single("d"))));
    assert!(query.get("b").is_none());
}

#[test]
fn question_mark_alone_gives_the_empty_query() {
    let request = Request::try_from(&b"GET /? HTTP/1.1\r\n"[..]).unwrap();
    assert_eq!(request.path(), "/");
    let query = request.query_string().unwrap();
    assert!(matches!(query.get(""), Some(QueryStringValue::Single(""))));

    let request = Request::try_from(&b"GET ?x HTTP/1.1\r\n"[..]).unwrap();
    assert_eq!(request.path(), "");
    assert!(matches!(
        request.query_string().unwrap().get("x"),
        Some(QueryStringValue::Single(""))
    ));
}

#[test]
fn tokens_may_end_with_carriage_returns() {
    let request = Request::try_from(&b"PUT\r/x\rHTTP/1.1\r"[..]).unwrap();
    assert_eq!(*request.method(), Method::PUT);
    assert_eq!(request.path(), "/x");
    let request = Request::try_from(&b"HEAD / HTTP/1.1 "[..]).unwrap();
    assert_eq!(*request.method(), Method::HEAD);
    assert_eq!(request.path(), "/");
}

#[test]
fn what_follows_the_request_line_is_ignored() {
    let buf = b"DELETE /item HTTP/1.1\r\nHost: example.org\r\n\r\nFOO bar HTTP/0.9";
    let request = Request::try_from(&buf[..]).unwrap();
    assert_eq!(*request.method(), Method::DELETE);
    assert_eq!(request.path(), "/item");
    assert!(request.query_string().is_none());
}

#[test]
fn zero_filled_read_buffer_parses() {
    let mut buffer = [0u8; 1024];
    let line = b"GET /index.html?v=2 HTTP/1.1\r\nAccept: */*\r\n\r\n";
    buffer[..line.len()].copy_from_slice(line);
    let request = Request::try_from(&buffer[..]).unwrap();
    assert_eq!(request.path(), "/index.html");
    assert!(matches!(
        request.query_string().unwrap().get("v"),
        Some(QueryStringValue::Single("2"))
    ));
    assert_eq!(parse_error(&[0u8; 1024]), Some(ParseError::InvalidRequest));
}

#[test]
fn path_and_query_may_hold_any_characters() {
    let text = "GET /caf\u{e9}/\u{4e2d}?cl\u{e9}=\u{1f600} HTTP/1.1\r\n";
    let request = Request::try_from(text.as_bytes()).unwrap();
    assert_eq!(request.path(), "/caf\u{e9}/\u{4e2d}");
    assert!(matches!(
        request.query_string().unwrap().get("cl\u{e9}"),
        Some(QueryStringValue::Single("\u{1f600}"))
    ));
}

#[test]
fn every_method_token_parses_to_its_method() {
    let cases = [
        ("GET", Method::GET),
        ("POST", Method::POST),
        ("PUT", Method::PUT),
        ("HEAD", Method::HEAD),
        ("CONNECT", Method::CONNECT),
        ("OPTIONS", Method::OPTIONS),
        ("TRACE", Method::TRACE),
        ("PATCH", Method::PATCH),
        ("DELETE", Method::DELETE),
    ];
    for (token, method) in cases {
        let line = format!("{} /x HTTP/1.1\r\n", token);
        let request = Request::try_from(line.as_bytes()).unwrap();
        assert_eq!(*request.method(), method);
        assert_eq!(request.path(), "/x");
    }
}

#[test]
fn error_messages() {
    assert_eq!(ParseError::InvalidRequest.message(), "Invalid Request");
    assert_eq!(ParseError::InvalidEncoding.message(), "Invalid Encoding");
    assert_eq!(ParseError::InvalidProtocol.message(), "Invalid Protocol");
    assert_eq!(ParseError::InvalidMethod.message(), "Invalid Method");
}

#[test]
fn method_error_converts_to_invalid_method() {
    let error = Method::from_str("FETCH").unwrap_err();
    assert_eq!(ParseError::from(error), ParseError::InvalidMethod);
}

#[test]
fn utf8_error_converts_to_invalid_encoding() {
    let error = std::str::from_utf8(&[0x80]).unwrap_err();
    assert_eq!(ParseError::from(error), ParseError::InvalidEncoding);
}
