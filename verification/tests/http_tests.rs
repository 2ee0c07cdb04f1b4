use core_mini_http::from_hex;
use core_mini_http::lossy_utf8_percent_decode;
use core_mini_http::parse_urlencoded_form;
use core_mini_http::percent_decode;
use core_mini_http::percent_decode_str;
use core_mini_http::BodyFormParser;
use core_mini_http::HttpContentType;
use core_mini_http::HttpHeaders;
use core_mini_http::HttpMethod;
use core_mini_http::HttpRequestMessage;
use core_mini_http::HttpRequestParser;
use core_mini_http::HttpResponseMessage;
use core_mini_http::StringMap;

#[test]
pub fn test_form_parser() {
    let f = "ssid=test&submit=Connect";
    let p = parse_urlencoded_form(&f);
    println!("p: {:?}", p);

    let f = "ssid=rock+%26+roll&submit=Connect";
    let p = parse_urlencoded_form(&f);
    println!("p: {:?}", p);

    let f = "ssid=%26%23269%3B%9E%26%23263%3B%26%23273%3B%9A%26%23269%3B&submit=Connect";
    let p = parse_urlencoded_form(&f);
    println!("p: {:?}", p);
}

#[test]
fn form_values_decode() {
    let p = parse_urlencoded_form("ssid=rock+%26+roll&submit=Connect");
    assert_eq!(p.get("ssid").unwrap().as_str(), "rock & roll");
    assert_eq!(p.get("submit").unwrap().as_str(), "Connect");
    assert!(p.get("missing").is_none());
}

#[test]
fn form_last_value_wins() {
    let p = parse_urlencoded_form("a=1&a=2");
    assert_eq!(p.get("a").unwrap().as_str(), "2");
}

#[test]
fn form_skips_malformed_pieces() {
    let p = parse_urlencoded_form("a=1&junk&b=2=3&c=4");
    assert_eq!(p.get("a").unwrap().as_str(), "1");
    assert!(p.get("junk").is_none());
    assert!(p.get("b").is_none());
    assert_eq!(p.get("c").unwrap().as_str(), "4");
}

#[test]
fn hex_digit_values() {
    assert_eq!(from_hex(b'0'), Some(0));
    assert_eq!(from_hex(b'9'), Some(9));
    assert_eq!(from_hex(b'A'), Some(10));
    assert_eq!(from_hex(b'F'), Some(15));
    assert_eq!(from_hex(b'a'), Some(10));
    assert_eq!(from_hex(b'f'), Some(15));
    assert_eq!(from_hex(b'g'), None);
    assert_eq!(from_hex(b' '), None);
}

#[test]
fn percent_decoding_bytes() {
    assert_eq!(percent_decode(b"%41%42c"), b"ABc");
    assert_eq!(percent_decode(b"%zz"), b"%zz");
    assert_eq!(percent_decode(b"%4"), b"%4");
    assert_eq!(percent_decode(b"a%25b"), b"a%b");
    assert_eq!(percent_decode(b""), b"");
}

#[test]
fn percent_decode_str_replaces_plus() {
    assert_eq!(percent_decode_str("a+b%21"), "a b!");
}

#[test]
fn lossy_decode_replaces_invalid_sequences() {
    assert_eq!(lossy_utf8_percent_decode(b"%41"), "A");
    assert_eq!(lossy_utf8_percent_decode(b"%ff"), "\u{FFFD}");
}

#[test]
fn body_form_parser_reads_request_body() {
    let mut p = HttpRequestParser::new();
    p.parse_bytes(
        b"POST /form HTTP/1.1\r\nContent-Type: application/x-www-form-urlencoded\r\nContent-Length: 24\r\n\r\nssid=test&submit=Connect",
    )
    .unwrap();
    let req = p.get_request();
    assert_eq!(req.content_type(), HttpContentType::UrlEncodedForm);
    assert_eq!(req.content_length(), Some(24));
    let form = BodyFormParser::parse(req);
    assert_eq!(form.get("ssid").unwrap().as_str(), "test");
    assert_eq!(form.get("submit").unwrap().as_str(), "Connect");
}

#[test]
fn empty_request_record() {
    let r = HttpRequestMessage::empty();
    assert_eq!(r.method, HttpMethod::Get);
    assert_eq!(r.url.as_str(), "");
    assert_eq!(r.http_version.as_str(), "");
    assert!(r.body.is_empty());
    assert!(r.get_raw_header("Host").is_none());
}

#[test]
fn content_type_detection() {
    let mut p = HttpRequestParser::new();
    p.parse_bytes(b"POST / HTTP/1.1\r\nContent-Type: text/plain\r\n\r\n").unwrap();
    assert_eq!(p.get_request().content_type(), HttpContentType::Unknown);
}

#[test]
fn string_map_sorted_iteration_and_overwrite() {
    let mut m = StringMap::new();
    m.insert("b".to_string(), "2".to_string());
    m.insert("a".to_string(), "1".to_string());
    m.insert("c".to_string(), "3".to_string());
    m.insert("a".to_string(), "9".to_string());
    assert_eq!(m.len(), 3);
    assert_eq!(m.key_at(0).as_str(), "a");
    assert_eq!(m.val_at(0).as_str(), "9");
    assert_eq!(m.key_at(1).as_str(), "b");
    assert_eq!(m.key_at(2).as_str(), "c");
    assert_eq!(m.get("b").unwrap().as_str(), "2");
    assert!(m.get("d").is_none());
}

#[test]
fn response_serialization_is_sorted_by_key() {
    let mut headers = StringMap::new();
    headers.insert("B-Key".to_string(), "2".to_string());
    headers.insert("A-Key".to_string(), "1".to_string());
    let r = HttpResponseMessage {
        response_code: 200,
        response_status: "OK".to_string(),
        http_version: "1.1".to_string(),
        headers,
        body: b"hi".to_vec(),
    };
    let bytes = r.to_bytes();
    assert_eq!(
        String::from_utf8(bytes).unwrap(),
        "HTTP/1.1 200 OK\r\nA-Key: 1\r\nB-Key: 2\r\n\r\nhi"
    );
}

#[test]
fn response_serialization_multi_digit_code() {
    let r = HttpResponseMessage {
        response_code: 404,
        response_status: "Not Found".to_string(),
        http_version: "1.1".to_string(),
        headers: StringMap::new(),
        body: Vec::new(),
    };
    assert_eq!(
        String::from_utf8(r.to_bytes()).unwrap(),
        "HTTP/1.1 404 Not Found\r\n\r\n"
    );
}

#[test]
fn html_utf8_response_shape() {
    let r = HttpResponseMessage::html_utf8("<h1>hi</h1>");
    assert_eq!(r.response_code, 200);
    assert_eq!(r.response_status.as_str(), "OK");
    assert_eq!(r.http_version.as_str(), "1.1");
    assert_eq!(
        r.headers.get("Content-Type").unwrap().as_str(),
        "text/html; charset=UTF-U8"
    );
    assert_eq!(r.body, b"<h1>hi</h1>");
}
