//! The request and response records exchanged between the parser, the
//! router and the handlers, together with header lookups (content length,
//! content type) and response serialization.

use vstd::prelude::*;

verus! {

use vstd::string::StrSliceExecFns;
use vstd::utf8::encode_utf8;
use crate::strmap::StringMap;
use crate::strmap::lex_lt;
use crate::strutil::spec_parse_u32;
use crate::strutil::parse_u32_str;
use crate::strutil::spec_occurs_at;
use crate::strutil::occurs_at;

#[derive(Debug, Copy, Clone, PartialEq, Eq, Structural)]
pub enum HttpMethod {
    Get,
    Post,
    Head,
    Put,
    Delete,
    Options,
}

#[derive(Debug, Copy, Clone, PartialEq, Eq, Structural)]
pub enum HttpContentType {
    Unknown,
    UrlEncodedForm,
}

/// An incoming request: method, protocol version, raw URL path (never
/// percent-decoded), headers (last write wins on duplicates) and body.
#[derive(Debug)]
pub struct HttpRequestMessage {
    pub method: HttpMethod,
    pub http_version: String,
    pub url: String,
    pub headers: StringMap,
    pub body: Vec<u8>,
}

/// The mathematical content of a request record.
pub ghost struct RequestModel {
    pub method: HttpMethod,
    pub http_version: Seq<char>,
    pub url: Seq<char>,
    pub headers: Map<Seq<char>, Seq<char>>,
    pub body: Seq<u8>,
}

impl View for HttpRequestMessage {
    type V = RequestModel;

    open spec fn view(&self) -> RequestModel {
        RequestModel {
            method: self.method,
            http_version: self.http_version@,
            url: self.url@,
            headers: self.headers@,
            body: self.body@,
        }
    }
}

/// The record a freshly constructed parser starts from.
pub open spec fn empty_request_model() -> RequestModel {
    RequestModel {
        method: HttpMethod::Get,
        http_version: Seq::<char>::empty(),
        url: Seq::<char>::empty(),
        headers: Map::<Seq<char>, Seq<char>>::empty(),
        body: Seq::<u8>::empty(),
    }
}

impl HttpRequestMessage {
    pub fn empty() -> (r: HttpRequestMessage)
        ensures
            r@ == empty_request_model(),
            r.headers.wf(),
    {
        let r = HttpRequestMessage {
            method: HttpMethod::Get,
            http_version: String::new(),
            url: String::new(),
            headers: StringMap::new(),
            body: Vec::new(),
        };
        r
    }
}

/// Expected body length read from a header table: the `Content-Length`
/// value if present and a valid decimal number, otherwise nothing.
pub open spec fn spec_content_length(h: Map<Seq<char>, Seq<char>>) -> Option<u32> {
    if h.contains_key("Content-Length"@) {
        spec_parse_u32(h["Content-Length"@])
    } else {
        None
    }
}

/// Content type read from a header table: a form body exactly when the
/// `Content-Type` value starts with the URL-encoded-form media type.
pub open spec fn spec_content_type(h: Map<Seq<char>, Seq<char>>) -> HttpContentType {
    if h.contains_key("Content-Type"@) && spec_occurs_at(
        h["Content-Type"@],
        "application/x-www-form-urlencoded"@,
        0,
    ) {
        HttpContentType::UrlEncodedForm
    } else {
        HttpContentType::Unknown
    }
}

/// Read-only access to a header table.
pub trait HttpHeaders {
    spec fn headers_wf(&self) -> bool;

    spec fn raw_headers_spec(&self) -> Map<Seq<char>, Seq<char>>;

    fn get_raw_headers(&self) -> (r: &StringMap)
        ensures
            r@ == self.raw_headers_spec(),
            self.headers_wf() ==> r.wf(),
    ;

    fn get_raw_header(&self, key: &str) -> (r: Option<&String>)
        requires
            self.headers_wf(),
        ensures
            match r {
                Some(v) => self.raw_headers_spec().contains_key(key@) && v@
                    == self.raw_headers_spec()[key@],
                None => !self.raw_headers_spec().contains_key(key@),
            },
    {
        let h = self.get_raw_headers();
        h.get(key)
    }

    fn content_length(&self) -> (r: Option<u32>)
        requires
            self.headers_wf(),
        ensures
            r == spec_content_length(self.raw_headers_spec()),
    {
        let c = self.get_raw_header("Content-Length");
        match c {
            Some(v) => parse_u32_str(v.as_str()),
            None => None,
        }
    }

    fn content_type(&self) -> (r: HttpContentType)
        requires
            self.headers_wf(),
        ensures
            r == spec_content_type(self.raw_headers_spec()),
    {
        let c = self.get_raw_header("Content-Type");
        match c {
            Some(v) => {
                if occurs_at(v.as_str(), "application/x-www-form-urlencoded", 0) {
                    HttpContentType::UrlEncodedForm
                } else {
                    HttpContentType::Unknown
                }
            },
            None => HttpContentType::Unknown,
        }
    }
}

impl HttpHeaders for HttpRequestMessage {
    open spec fn headers_wf(&self) -> bool {
        self.headers.wf()
    }

    open spec fn raw_headers_spec(&self) -> Map<Seq<char>, Seq<char>> {
        self.headers@
    }

    fn get_raw_headers(&self) -> (r: &StringMap) {
        &self.headers
    }
}

/// An outgoing response.
#[derive(Debug)]
pub struct HttpResponseMessage {
    pub response_code: u16,
    pub response_status: String,
    pub http_version: String,
    pub headers: StringMap,
    pub body: Vec<u8>,
}

/// Decimal digits of `n` (non-negative), most significant first.
pub open spec fn spec_u16_dec(n: int) -> Seq<u8>
    decreases n,
{
    if n < 0 {
        Seq::<u8>::empty()
    } else if n < 10 {
        seq![(48 + n) as u8]
    } else {
        spec_u16_dec(n / 10).push((48 + n % 10) as u8)
    }
}

/// One serialized header line per pair, in storage order.
pub open spec fn spec_header_block(pairs: Seq<(Seq<char>, Seq<char>)>) -> Seq<u8>
    decreases pairs.len(),
{
    if pairs.len() == 0 {
        Seq::<u8>::empty()
    } else {
        spec_header_block(pairs.drop_last()) + encode_utf8(pairs.last().0) + encode_utf8(": "@)
            + encode_utf8(pairs.last().1) + encode_utf8("\r\n"@)
    }
}

/// The wire form of a response: status line, header lines (ascending by
/// key when the header table is well formed), a blank line, the body.
pub open spec fn spec_response_bytes(r: HttpResponseMessage) -> Seq<u8> {
    encode_utf8("HTTP/"@) + encode_utf8(r.http_version@) + encode_utf8(" "@) + spec_u16_dec(
        r.response_code as int,
    ) + encode_utf8(" "@) + encode_utf8(r.response_status@) + encode_utf8("\r\n"@)
        + spec_header_block(r.headers.pairs()) + encode_utf8("\r\n"@) + r.body@
}

/// Append the decimal digits of `n` to `out`.
fn push_u16_dec(out: &mut Vec<u8>, n: u16)
    ensures
        final(out)@ == old(out)@ + spec_u16_dec(n as int),
    decreases n,
{
    if n < 10 {
        out.push(48 + n as u8);
    } else {
        push_u16_dec(out, n / 10);
        let d: u16 = n % 10;
        out.push(48 + d as u8);
        proof {
            assert(final(out)@ =~= old(out)@ + spec_u16_dec(n as int));
        }
    }
}

impl HttpResponseMessage {
    /// Serialize the response in wire form.
    pub fn to_bytes(&self) -> (r: Vec<u8>)
        ensures
            r@ == spec_response_bytes(*self),
    {
        let mut ret: Vec<u8> = Vec::new();
        ret.extend_from_slice("HTTP/".as_bytes());
        ret.extend_from_slice(self.http_version.as_str().as_bytes());
        ret.extend_from_slice(" ".as_bytes());
        push_u16_dec(&mut ret, self.response_code);
        ret.extend_from_slice(" ".as_bytes());
        ret.extend_from_slice(self.response_status.as_str().as_bytes());
        ret.extend_from_slice("\r\n".as_bytes());
        let ghost head = ret@;
        let n = self.headers.len();
        let mut i: usize = 0;
        proof {
            assert(self.headers.pairs().take(0) =~= Seq::<(Seq<char>, Seq<char>)>::empty());
        }
        while i < n
            invariant
                0 <= i <= n,
                n == self.headers.pairs().len(),
                ret@ == head + spec_header_block(self.headers.pairs().take(i as int)),
            decreases n - i,
        {
            ret.extend_from_slice(self.headers.key_at(i).as_str().as_bytes());
            ret.extend_from_slice(": ".as_bytes());
            ret.extend_from_slice(self.headers.val_at(i).as_str().as_bytes());
            ret.extend_from_slice("\r\n".as_bytes());
            proof {
                let p = self.headers.pairs().take(i + 1);
                assert(p.drop_last() =~= self.headers.pairs().take(i as int));
                assert(p.last() == self.headers.pairs()[i as int]);
                assert(ret@ =~= head + spec_header_block(p));
            }
            i += 1;
        }
        ret.extend_from_slice("\r\n".as_bytes());
        ret.extend_from_slice(self.body.as_slice());
        proof {
            assert(self.headers.pairs().take(n as int) =~= self.headers.pairs());
            assert(ret@ =~= spec_response_bytes(*self));
        }
        ret
    }

    /// A `200 OK` HTML response around the given UTF-8 text.
    pub fn html_utf8(body: &str) -> (r: HttpResponseMessage)
        ensures
            r.response_code == 200,
            r.response_status@ == "OK"@,
            r.http_version@ == "1.1"@,
            r.headers@ == Map::<Seq<char>, Seq<char>>::empty().insert(
                "Content-Type"@,
                "text/html; charset=UTF-U8"@,
            ),
            r.headers.wf(),
            r.body@ == encode_utf8(body@),
    {
        let mut headers = StringMap::new();
        headers.insert(
            String::from_str("Content-Type"),
            String::from_str("text/html; charset=UTF-U8"),
        );
        HttpResponseMessage {
            response_code: 200,
            response_status: String::from_str("OK"),
            http_version: String::from_str("1.1"),
            headers,
            body: body.as_bytes_vec(),
        }
    }
}

} // verus!
