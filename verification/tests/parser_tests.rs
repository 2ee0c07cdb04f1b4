use core_mini_http::HttpHeaders;
use core_mini_http::HttpMethod;
use core_mini_http::HttpRequestParser;
use core_mini_http::HttpRequestParserError;
use core_mini_http::HttpRequestParserState;
use core_mini_http::parse_u32_str;

#[test]
pub fn test_request_parsing() {
    let msg = "GET /index.html HTTP/1.1\r\nHost: www.example.com\r\n\r\nbody";

    let mut parser = HttpRequestParser::new();
    let bytes = &msg.bytes();
    let bytes: Vec<u8> = bytes.clone().collect();
    parser.parse_bytes(&bytes).unwrap();

    let req = parser.get_request();
    println!("parsed: {:?}", req);
}

#[test]
fn parse_simple_get_fields() {
    let mut p = HttpRequestParser::new();
    p.parse_bytes(b"GET /index.html HTTP/1.1\r\nHost: www.example.com\r\n\r\n")
        .unwrap();
    assert!(p.is_first_line_parsed());
    assert!(p.are_headers_parsed());
    let req = p.get_request();
    assert_eq!(req.method, HttpMethod::Get);
    assert_eq!(req.url.as_str(), "/index.html");
    assert_eq!(req.http_version.as_str(), "1.1");
    assert_eq!(req.headers.get("Host").unwrap().as_str(), "www.example.com");
    assert_eq!(p.read_how_many_bytes(), 0);
}

#[test]
fn parse_http_1_0_version() {
    let mut p = HttpRequestParser::new();
    p.parse_bytes(b"GET / HTTP/1.0\r\n\r\n").unwrap();
    assert_eq!(p.get_request().http_version.as_str(), "1.0");
}

#[test]
fn parse_unknown_http_1_minor_keeps_version_empty() {
    let mut p = HttpRequestParser::new();
    p.parse_bytes(b"GET / HTTP/1.5\r\n\r\n").unwrap();
    assert_eq!(p.get_request().http_version.as_str(), "");
    assert_eq!(p.get_request().url.as_str(), "/");
}

#[test]
fn all_six_methods_are_recognized() {
    let cases: Vec<(&[u8], HttpMethod)> = vec![
        (b"GET / HTTP/1.1\r\n\r\n", HttpMethod::Get),
        (b"HEAD / HTTP/1.1\r\n\r\n", HttpMethod::Head),
        (b"POST / HTTP/1.1\r\n\r\n", HttpMethod::Post),
        (b"PUT / HTTP/1.1\r\n\r\n", HttpMethod::Put),
        (b"DELETE / HTTP/1.1\r\n\r\n", HttpMethod::Delete),
        (b"OPTIONS / HTTP/1.1\r\n\r\n", HttpMethod::Options),
    ];
    for (bytes, want) in cases {
        let mut p = HttpRequestParser::new();
        p.parse_bytes(bytes).unwrap();
        assert_eq!(p.get_request().method, want);
    }
}

#[test]
fn byte_at_a_time_equals_all_at_once() {
    let msg: &[u8] = b"POST /submit HTTP/1.1\r\nContent-Length: 5\r\nHost: h\r\n\r\nhello";
    let mut a = HttpRequestParser::new();
    a.parse_bytes(msg).unwrap();
    let mut b = HttpRequestParser::new();
    for byte in msg.iter() {
        b.parse_bytes(&[*byte]).unwrap();
    }
    let ra = a.get_request();
    let rb = b.get_request();
    assert_eq!(ra.method, rb.method);
    assert_eq!(ra.url, rb.url);
    assert_eq!(ra.http_version, rb.http_version);
    assert_eq!(ra.body, rb.body);
    assert_eq!(
        ra.headers.get("Content-Length").unwrap(),
        rb.headers.get("Content-Length").unwrap()
    );
    assert_eq!(ra.headers.get("Host").unwrap(), rb.headers.get("Host").unwrap());
}

#[test]
fn body_framing_exact() {
    let mut p = HttpRequestParser::new();
    p.parse_bytes(b"POST /x HTTP/1.1\r\nContent-Length: 5\r\n\r\n").unwrap();
    assert!(p.are_headers_parsed());
    assert_eq!(p.read_how_many_bytes(), 5);
    p.parse_bytes(b"hel").unwrap();
    assert_eq!(p.read_how_many_bytes(), 2);
    let r = p.parse_bytes(b"lo").unwrap();
    assert_eq!(r, HttpRequestParserState::Complete);
    assert_eq!(p.read_how_many_bytes(), 0);
    assert_eq!(p.get_request().body, b"hello");
}

#[test]
fn get_and_head_never_wait_on_body() {
    let mut p = HttpRequestParser::new();
    let r = p
        .parse_bytes(b"GET /x HTTP/1.1\r\nContent-Length: 999\r\n\r\n")
        .unwrap();
    assert_eq!(p.read_how_many_bytes(), 0);
    assert_eq!(r, HttpRequestParserState::Complete);

    let mut p = HttpRequestParser::new();
    let r = p
        .parse_bytes(b"HEAD /x HTTP/1.1\r\nContent-Length: 7\r\n\r\n")
        .unwrap();
    assert_eq!(p.read_how_many_bytes(), 0);
    assert_eq!(r, HttpRequestParserState::Complete);
}

#[test]
fn post_without_content_length_completes_at_headers() {
    let mut p = HttpRequestParser::new();
    let r = p.parse_bytes(b"POST /x HTTP/1.1\r\n\r\n").unwrap();
    assert_eq!(r, HttpRequestParserState::Complete);
    assert_eq!(p.read_how_many_bytes(), 0);
}

#[test]
fn post_with_invalid_content_length_completes_at_headers() {
    let mut p = HttpRequestParser::new();
    let r = p
        .parse_bytes(b"POST /x HTTP/1.1\r\nContent-Length: abc\r\n\r\n")
        .unwrap();
    assert_eq!(r, HttpRequestParserState::Complete);
    assert_eq!(p.read_how_many_bytes(), 0);
}

#[test]
fn header_overwrite_keeps_second_value() {
    let mut p = HttpRequestParser::new();
    p.parse_bytes(b"GET / HTTP/1.1\r\nX-K: one\r\nX-K: two\r\n\r\n").unwrap();
    assert_eq!(p.get_request().headers.get("X-K").unwrap().as_str(), "two");
}

#[test]
fn garbage_method_is_terminal() {
    let mut p = HttpRequestParser::new();
    let e = p.parse_bytes(b"GARBAGE /x HTTP/1.1\r\n").unwrap_err();
    assert_eq!(e, HttpRequestParserError::UnsupportedMethod);
    let e2 = p.parse_bytes(b"GET / HTTP/1.1\r\n\r\n").unwrap_err();
    assert_eq!(e2, HttpRequestParserError::UnsupportedMethod);
    assert!(!p.are_headers_parsed());
    assert_eq!(p.read_how_many_bytes(), 0);
}

#[test]
fn method_must_be_its_own_token() {
    let mut p = HttpRequestParser::new();
    let e = p.parse_bytes(b"GETX / HTTP/1.1\r\n").unwrap_err();
    assert_eq!(e, HttpRequestParserError::UnsupportedMethod);
}

#[test]
fn missing_version_is_malformed() {
    let mut p = HttpRequestParser::new();
    let e = p.parse_bytes(b"GET /x\r\n").unwrap_err();
    assert_eq!(e, HttpRequestParserError::MalformedRequestLine);

    let mut p = HttpRequestParser::new();
    let e = p.parse_bytes(b"GET\r\n").unwrap_err();
    assert_eq!(e, HttpRequestParserError::MalformedRequestLine);
}

#[test]
fn header_without_separator_is_malformed() {
    let mut p = HttpRequestParser::new();
    let e = p.parse_bytes(b"GET / HTTP/1.1\r\nNoSeparator\r\n").unwrap_err();
    assert_eq!(e, HttpRequestParserError::MalformedHeaderLine);
}

#[test]
fn invalid_utf8_line_is_invalid_encoding() {
    let mut p = HttpRequestParser::new();
    let e = p
        .parse_bytes(b"GET / HTTP/1.1\r\nHost: \xff\xfe\r\n")
        .unwrap_err();
    assert_eq!(e, HttpRequestParserError::InvalidEncoding);
}

#[test]
fn empty_chunk_is_a_no_op() {
    let mut p = HttpRequestParser::new();
    let r = p.parse_bytes(b"").unwrap();
    assert_eq!(r, HttpRequestParserState::MoreDataRequired);
    assert!(!p.is_first_line_parsed());
    assert_eq!(p.read_how_many_bytes(), 1);
}

#[test]
fn partial_first_line_needs_more() {
    let mut p = HttpRequestParser::new();
    let r = p.parse_bytes(b"GET /inde").unwrap();
    assert_eq!(r, HttpRequestParserState::MoreDataRequired);
    assert!(!p.is_first_line_parsed());
    assert!(!p.are_headers_parsed());
    assert_eq!(p.read_how_many_bytes(), 1);
    p.parse_bytes(b"x.html HTTP/1.1\r\n").unwrap();
    assert!(p.is_first_line_parsed());
    assert!(!p.are_headers_parsed());
}

#[test]
fn leading_blank_line_ends_headers_immediately() {
    let mut p = HttpRequestParser::new();
    let r = p.parse_bytes(b"\r\n").unwrap();
    assert_eq!(r, HttpRequestParserState::Complete);
    assert!(p.are_headers_parsed());
    assert_eq!(p.get_request().method, HttpMethod::Get);
    assert_eq!(p.get_request().url.as_str(), "");
}

#[test]
fn excess_bytes_go_to_the_body() {
    let mut p = HttpRequestParser::new();
    p.parse_bytes(b"POST /x HTTP/1.1\r\nContent-Length: 2\r\n\r\nabcd").unwrap();
    assert_eq!(p.read_how_many_bytes(), 0);
    assert_eq!(p.get_request().body, b"abcd");
}

#[test]
fn content_length_parsing_rules() {
    assert_eq!(parse_u32_str("42"), Some(42));
    assert_eq!(parse_u32_str("+7"), Some(7));
    assert_eq!(parse_u32_str("0"), Some(0));
    assert_eq!(parse_u32_str("4294967295"), Some(4294967295));
    assert_eq!(parse_u32_str("4294967296"), None);
    assert_eq!(parse_u32_str(""), None);
    assert_eq!(parse_u32_str("+"), None);
    assert_eq!(parse_u32_str("12x"), None);
    assert_eq!(parse_u32_str("-3"), None);
}
