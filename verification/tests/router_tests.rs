use core_mini_http::http_router;
use core_mini_http::DynamicUrl;
use core_mini_http::DynamicUrlMatch;
use core_mini_http::DynamicUrlPart;
use core_mini_http::HttpMethod;
use core_mini_http::HttpRequestMessage;
use core_mini_http::HttpResponseMessage;
use core_mini_http::HttpRoute;
use core_mini_http::HttpRouteDynamicUrl;
use core_mini_http::HttpRouteError;
use core_mini_http::HttpRouteStaticUrl;

#[test]
pub fn test_dynamic_urls() {
    {
        let route_parse = DynamicUrl::parse_str("/test/:id/");
        println!("route: {:?}", route_parse);
        {
            let r = route_parse.unwrap();

            let m = r.match_url("/test/123/");
            println!("match trailing: {:?}", m);

            let m = r.match_url("/test/123/xyz");
            println!("should fail with trailing content: {:?}", m);
        }
        let route_parse = DynamicUrl::parse_str("/test/:id");
        println!("route: {:?}", route_parse);
    }

    {
        let p = vec![
            DynamicUrlPart::Static("/test/".to_string()),
            DynamicUrlPart::UrlVar("id".to_string()),
        ];
        let d = DynamicUrl::new(p);
        println!("dynamic url: {:?}", d);

        let m = d.match_url("/test/123/");
        println!("url match: {:?}", m);
        let m = d.match_url("/test/123");
        println!("url match: {:?}", m);
        let m = d.match_url("/test/");
        println!("url match: {:?}", m);
        let m = d.match_url("/");
        println!("url match: {:?}", m);
    }
}

#[test]
fn dynamic_capture() {
    let r = DynamicUrl::parse_str("/test/:id/").unwrap();

    let m = r.match_url("/test/123/").unwrap();
    assert_eq!(m.get("id").unwrap().as_str(), "123");

    let m = r.match_url("/test/123").unwrap();
    assert_eq!(m.get("id").unwrap().as_str(), "123");

    assert!(r.match_url("/test/123/extra").is_none());
    assert!(r.match_url("/test/").is_none());
    assert!(r.match_url("/other/123").is_none());
}

#[test]
fn dynamic_variable_between_literals() {
    let r = DynamicUrl::parse_str("/users/:name/posts").unwrap();
    let m = r.match_url("/users/ada/posts").unwrap();
    assert_eq!(m.get("name").unwrap().as_str(), "ada");
    assert!(r.match_url("/users//posts").is_none());
    assert!(r.match_url("/users/ada/other").is_none());
}

fn ok_response(_req: &HttpRequestMessage) -> HttpResponseMessage {
    HttpResponseMessage::html_utf8("ok")
}

fn one_response(_req: &HttpRequestMessage) -> HttpResponseMessage {
    HttpResponseMessage::html_utf8("one")
}

fn two_response(_req: &HttpRequestMessage) -> HttpResponseMessage {
    HttpResponseMessage::html_utf8("two")
}

fn echo_id(_req: &HttpRequestMessage, vars: &DynamicUrlMatch) -> HttpResponseMessage {
    HttpResponseMessage::html_utf8(vars.get("id").unwrap().as_str())
}

#[test]
fn static_route_exactness() {
    let route = HttpRouteStaticUrl::new_get("/", ok_response);

    let mut req = HttpRequestMessage::empty();
    req.url = "/".to_string();
    req.method = HttpMethod::Get;
    assert_eq!(route.applies(&req), Ok(true));

    req.method = HttpMethod::Post;
    assert_eq!(route.applies(&req), Ok(false));

    req.method = HttpMethod::Get;
    req.url = "/x".to_string();
    assert_eq!(route.applies(&req), Ok(false));
}

#[test]
fn first_match_wins() {
    let r1 = HttpRouteStaticUrl {
        urls: vec!["/".to_string()],
        methods: vec![HttpMethod::Get],
        action: one_response as fn(&HttpRequestMessage) -> HttpResponseMessage,
    };
    let r2 = HttpRouteStaticUrl {
        urls: vec!["/".to_string()],
        methods: vec![HttpMethod::Get],
        action: two_response as fn(&HttpRequestMessage) -> HttpResponseMessage,
    };
    let routes = vec![r1, r2];

    let mut req = HttpRequestMessage::empty();
    req.url = "/".to_string();
    let chosen = http_router(&routes, &req).unwrap();
    let resp = chosen.execute(&req).unwrap();
    assert_eq!(resp.body, b"one");
}

#[test]
fn router_reports_no_route_found() {
    let routes = vec![HttpRouteStaticUrl::new_get("/only", ok_response)];
    let mut req = HttpRequestMessage::empty();
    req.url = "/other".to_string();
    match http_router(&routes, &req) {
        Ok(_) => panic!("route must not match"),
        Err(e) => assert_eq!(e, HttpRouteError::NoRouteFound),
    }
}

#[test]
fn dynamic_route_applies_and_executes() {
    let route = HttpRouteDynamicUrl::new(
        DynamicUrl::parse_str("/test/:id/").unwrap(),
        HttpMethod::Get,
        echo_id,
    );

    let mut req = HttpRequestMessage::empty();
    req.url = "/test/42".to_string();
    assert_eq!(route.applies(&req), Ok(true));
    let resp = route.execute(&req).unwrap();
    assert_eq!(resp.body, b"42");

    req.method = HttpMethod::Post;
    assert_eq!(route.applies(&req), Ok(false));

    req.method = HttpMethod::Get;
    req.url = "/test/42/more".to_string();
    assert_eq!(route.applies(&req), Ok(false));
    let err = route.execute(&req).unwrap_err();
    assert_eq!(err, HttpRouteError::NoRouteFound);
}

#[test]
fn trailing_slash_literal_is_normalized() {
    let with_slash = DynamicUrl::parse_str("/test/:id/").unwrap();
    let without = DynamicUrl::parse_str("/test/:id").unwrap();
    assert!(with_slash.match_url("/test/9").is_some());
    assert!(without.match_url("/test/9").is_some());
}
