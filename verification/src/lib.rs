pub mod form;
pub mod http;
pub mod parser;
pub mod router;
pub mod strmap;
pub mod strutil;

pub use form::from_hex;
pub use form::lossy_utf8_percent_decode;
pub use form::parse_urlencoded_form;
pub use form::percent_decode;
pub use form::percent_decode_str;
pub use form::percent_decode_to;
pub use form::BodyFormParser;
pub use http::HttpContentType;
pub use http::HttpHeaders;
pub use http::HttpMethod;
pub use http::HttpRequestMessage;
pub use http::HttpResponseMessage;
pub use parser::HttpRequestParser;
pub use parser::HttpRequestParserError;
pub use parser::HttpRequestParserState;
pub use router::http_router;
pub use router::DynamicUrl;
pub use router::DynamicUrlMatch;
pub use router::DynamicUrlPart;
pub use router::HttpRoute;
pub use router::HttpRouteDynamicUrl;
pub use router::HttpRouteError;
pub use router::HttpRouteStaticUrl;
pub use strmap::StringMap;
pub use strutil::parse_u32_str;
