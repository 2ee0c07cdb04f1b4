//! The incremental request parser: a stateful object fed successive byte
//! slices of any granularity. It scans for CRLF line terminators, reads the
//! request line and then header lines, and after the blank line collects
//! body bytes. Every observation of the parser is a function of the total
//! bytes fed so far, stated by `spec_head` over that byte sequence, so the
//! chunking of the input cannot influence the outcome.

use vstd::prelude::*;

verus! {

use vstd::slice::slice_subrange;
use vstd::string::StrSliceExecFns;
use vstd::string::StringExecFns;
use vstd::utf8::decode_utf8;
use vstd::utf8::valid_utf8;
use crate::http::empty_request_model;
use crate::http::spec_content_length;
use crate::http::HttpHeaders;
use crate::http::HttpMethod;
use crate::http::HttpRequestMessage;
use crate::http::RequestModel;
use crate::strutil::bytes_as_str;
use crate::strutil::ends_with;
use crate::strutil::find_char_from;
use crate::strutil::rfind;
use crate::strutil::spec_ends_with;
use crate::strutil::spec_find_char;
use crate::strutil::spec_rfind;
use crate::strutil::str_eq;

/// Outcome of one `parse_bytes` call.
#[derive(Debug, Copy, Clone, PartialEq, Eq, Structural)]
pub enum HttpRequestParserState {
    MoreDataRequired,
    Complete,
}

/// A terminal parse error; the connection must be aborted.
#[derive(Debug, Copy, Clone, PartialEq, Eq, Structural)]
pub enum HttpRequestParserError {
    /// A line was not valid UTF-8.
    InvalidEncoding,
    /// The request line has no recognizable URL/version structure.
    MalformedRequestLine,
    /// A header line has no `": "` separator.
    MalformedHeaderLine,
    /// The first token of the request line is not a known method.
    UnsupportedMethod,
}

/// Position of the first CRLF pair at or after `from`, or -1.
pub open spec fn spec_find_crlf(s: Seq<u8>, from: int) -> int
    decreases s.len() - from,
{
    if from < 0 || from + 1 >= s.len() {
        -1
    } else if s[from] == 13 && s[from + 1] == 10 {
        from
    } else {
        spec_find_crlf(s, from + 1)
    }
}

proof fn lemma_find_crlf_props(s: Seq<u8>, from: int)
    requires
        0 <= from,
    ensures
        spec_find_crlf(s, from) >= 0 ==> {
            let c = spec_find_crlf(s, from);
            &&& from <= c
            &&& c + 1 < s.len()
            &&& s[c] == 13
            &&& s[c + 1] == 10
        },
    decreases s.len() - from,
{
    if from + 1 < s.len() && !(s[from] == 13 && s[from + 1] == 10) {
        lemma_find_crlf_props(s, from + 1);
    }
}

/// Appending bytes never moves a line terminator that is already there.
proof fn lemma_find_crlf_extend(r: Seq<u8>, ext: Seq<u8>, from: int)
    requires
        spec_find_crlf(r, from) >= 0,
    ensures
        spec_find_crlf(r + ext, from) == spec_find_crlf(r, from),
    decreases r.len() - from,
{
    if from + 1 < r.len() && !(r[from] == 13 && r[from + 1] == 10) {
        lemma_find_crlf_extend(r, ext, from + 1);
    }
}

/// Recognized request methods, from the first space-delimited token.
pub open spec fn spec_method_of(tok: Seq<char>) -> Option<HttpMethod> {
    if tok == "GET"@ {
        Some(HttpMethod::Get)
    } else if tok == "HEAD"@ {
        Some(HttpMethod::Head)
    } else if tok == "POST"@ {
        Some(HttpMethod::Post)
    } else if tok == "PUT"@ {
        Some(HttpMethod::Put)
    } else if tok == "DELETE"@ {
        Some(HttpMethod::Delete)
    } else if tok == "OPTIONS"@ {
        Some(HttpMethod::Options)
    } else {
        None
    }
}

/// What a request line contributes to the record: the method, the URL
/// kept verbatim, and the stored version for the two versions the
/// original line may end with.
pub ghost struct RequestLineParts {
    pub method: HttpMethod,
    pub url: Seq<char>,
    pub version: Option<Seq<char>>,
}

/// How the decoded request line is read. The first space-delimited token
/// must be a known method; the line must carry a trailing protocol token
/// beginning with `HTTP/1`, separated from the URL by one space; the URL
/// is everything in between, stored verbatim.
pub open spec fn spec_parse_request_line(line: Seq<char>) -> Result<
    RequestLineParts,
    HttpRequestParserError,
> {
    let sp = spec_find_char(line, ' ', 0);
    let tok = if sp < 0 {
        line
    } else {
        line.take(sp)
    };
    match spec_method_of(tok) {
        None => Err(HttpRequestParserError::UnsupportedMethod),
        Some(m) => if sp < 0 {
            Err(HttpRequestParserError::MalformedRequestLine)
        } else {
            let middle = line.skip(sp + 1);
            let v = spec_rfind(middle, "HTTP/1"@, middle.len() - 1);
            if v <= 0 || middle[v - 1] != ' ' {
                Err(HttpRequestParserError::MalformedRequestLine)
            } else {
                Ok(
                    RequestLineParts {
                        method: m,
                        url: middle.take(v - 1),
                        version: if spec_ends_with(line, "HTTP/1.1"@) {
                            Some("1.1"@)
                        } else if spec_ends_with(line, "HTTP/1.0"@) {
                            Some("1.0"@)
                        } else {
                            None
                        },
                    },
                )
            }
        },
    }
}

/// Position of the first `": "` separator at or after `from`, or -1.
pub open spec fn spec_find_colon_space(s: Seq<char>, from: int) -> int
    decreases s.len() - from,
{
    if from < 0 || from + 1 >= s.len() {
        -1
    } else if s[from] == ':' && s[from + 1] == ' ' {
        from
    } else {
        spec_find_colon_space(s, from + 1)
    }
}

/// How a decoded header line splits at the first `": "`: name on the
/// left, value on the right.
pub open spec fn spec_parse_header_line(line: Seq<char>) -> Result<
    (Seq<char>, Seq<char>),
    HttpRequestParserError,
> {
    let sep = spec_find_colon_space(line, 0);
    if sep < 0 {
        Err(HttpRequestParserError::MalformedHeaderLine)
    } else {
        Ok((line.take(sep), line.skip(sep + 2)))
    }
}

/// The record after a parsed request line.
pub open spec fn apply_request_line(m: RequestModel, p: RequestLineParts) -> RequestModel {
    RequestModel {
        method: p.method,
        url: p.url,
        http_version: match p.version {
            Some(v) => v,
            None => m.http_version,
        },
        headers: m.headers,
        body: m.body,
    }
}

/// A raw request line applied to the record: decoded as UTF-8 (failure is
/// terminal), then read as `spec_parse_request_line` says.
pub open spec fn spec_apply_first_line(m: RequestModel, line: Seq<u8>) -> Result<
    RequestModel,
    HttpRequestParserError,
> {
    if !valid_utf8(line) {
        Err(HttpRequestParserError::InvalidEncoding)
    } else {
        match spec_parse_request_line(decode_utf8(line)) {
            Ok(p) => Ok(apply_request_line(m, p)),
            Err(e) => Err(e),
        }
    }
}

/// A raw header line applied to the record: decoded as UTF-8, split at
/// `": "`, and inserted; a later line with the same name overwrites.
pub open spec fn spec_apply_header_line(m: RequestModel, line: Seq<u8>) -> Result<
    RequestModel,
    HttpRequestParserError,
> {
    if !valid_utf8(line) {
        Err(HttpRequestParserError::InvalidEncoding)
    } else {
        match spec_parse_header_line(decode_utf8(line)) {
            Ok(kv) => Ok(
                RequestModel {
                    method: m.method,
                    http_version: m.http_version,
                    url: m.url,
                    headers: m.headers.insert(kv.0, kv.1),
                    body: m.body,
                },
            ),
            Err(e) => Err(e),
        }
    }
}

/// Where parsing stands on a given byte stream.
pub ghost enum HeadPhase {
    /// Still inside the header section; `rest` holds the bytes after the
    /// last consumed line terminator, which contain no complete line yet.
    Partial { rest: Seq<u8>, first_done: bool, msg: RequestModel },
    /// The blank line was seen; `rest` holds every byte after it (the
    /// body so far), and `msg` the record built from the header section.
    Done { rest: Seq<u8>, msg: RequestModel },
    /// A line failed to parse; the error is terminal.
    Failed { err: HttpRequestParserError },
}

/// The whole parse as a function of the unconsumed bytes: consume CRLF-
/// terminated lines (request line first, then headers) until a blank
/// line, an error, or no complete line is left.
pub open spec fn spec_head(rest: Seq<u8>, first_done: bool, msg: RequestModel) -> HeadPhase
    decreases rest.len(),
{
    let c = spec_find_crlf(rest, 0);
    if c < 0 || c + 2 > rest.len() {
        HeadPhase::Partial { rest, first_done, msg }
    } else {
        let line = rest.take(c);
        let after = rest.skip(c + 2);
        if c == 0 {
            HeadPhase::Done { rest: after, msg }
        } else if !first_done {
            match spec_apply_first_line(msg, line) {
                Ok(m2) => spec_head(after, true, m2),
                Err(e) => HeadPhase::Failed { err: e },
            }
        } else {
            match spec_apply_header_line(msg, line) {
                Ok(m2) => spec_head(after, true, m2),
                Err(e) => HeadPhase::Failed { err: e },
            }
        }
    }
}

/// The parse of everything fed so far, from a fresh record.
pub open spec fn spec_parse(fed: Seq<u8>) -> HeadPhase {
    spec_head(fed, false, empty_request_model())
}

/// Feeding more bytes only continues the parse: a reached checkpoint is
/// never revised. This is what makes the parser insensitive to chunking.
pub proof fn lemma_head_extend(r: Seq<u8>, ext: Seq<u8>, fd: bool, m: RequestModel)
    ensures
        match spec_head(r, fd, m) {
            HeadPhase::Partial { rest, first_done, msg } => spec_head(r + ext, fd, m) == spec_head(
                rest + ext,
                first_done,
                msg,
            ),
            HeadPhase::Done { rest, msg } => spec_head(r + ext, fd, m) == (HeadPhase::Done {
                rest: rest + ext,
                msg,
            }),
            HeadPhase::Failed { err } => spec_head(r + ext, fd, m) == (HeadPhase::Failed { err }),
        },
    decreases r.len(),
{
    let c = spec_find_crlf(r, 0);
    lemma_find_crlf_props(r, 0);
    if c < 0 || c + 2 > r.len() {
        assert(spec_head(r, fd, m) == (HeadPhase::Partial { rest: r, first_done: fd, msg: m }));
    } else {
        lemma_find_crlf_extend(r, ext, 0);
        assert((r + ext).take(c) =~= r.take(c));
        assert((r + ext).skip(c + 2) =~= r.skip(c + 2) + ext);
        let line = r.take(c);
        let after = r.skip(c + 2);
        if c == 0 {
        } else if !fd {
            match spec_apply_first_line(m, line) {
                Ok(m2) => {
                    lemma_head_extend(after, ext, true, m2);
                },
                Err(e) => {},
            }
        } else {
            match spec_apply_header_line(m, line) {
                Ok(m2) => {
                    lemma_head_extend(after, ext, true, m2);
                },
                Err(e) => {},
            }
        }
    }
}

/// The record with its body replaced.
pub open spec fn with_body(m: RequestModel, body: Seq<u8>) -> RequestModel {
    RequestModel {
        method: m.method,
        http_version: m.http_version,
        url: m.url,
        headers: m.headers,
        body,
    }
}

/// Expected body length once headers are parsed: none for GET and HEAD,
/// else the Content-Length value, else zero.
pub open spec fn spec_expected_len(m: RequestModel) -> int {
    if m.method == HttpMethod::Get || m.method == HttpMethod::Head {
        0
    } else {
        match spec_content_length(m.headers) {
            Some(n) => n as int,
            None => 0,
        }
    }
}

/// Additional bytes the parser asks its caller for: one while the header
/// section is open, the missing body bytes after it, none once satisfied
/// or failed.
pub open spec fn spec_bytes_needed(ph: HeadPhase) -> int {
    match ph {
        HeadPhase::Failed { .. } => 0,
        HeadPhase::Partial { .. } => 1,
        HeadPhase::Done { rest, msg } => if rest.len() >= spec_expected_len(msg) {
            0
        } else {
            spec_expected_len(msg) - rest.len()
        },
    }
}

/// The record the header section built, disregarding the body.
pub open spec fn phase_head_msg(ph: HeadPhase) -> RequestModel {
    match ph {
        HeadPhase::Partial { msg, .. } => msg,
        HeadPhase::Done { msg, .. } => msg,
        HeadPhase::Failed { .. } => empty_request_model(),
    }
}

/// The record the parser exposes, when it has not failed.
pub open spec fn spec_request_of(ph: HeadPhase) -> Option<RequestModel> {
    match ph {
        HeadPhase::Partial { rest, first_done, msg } => Some(msg),
        HeadPhase::Done { rest, msg } => Some(with_body(msg, rest)),
        HeadPhase::Failed { .. } => None,
    }
}

/// What one `parse_bytes` call reports: the terminal error once a line
/// failed, otherwise whether the request is fully framed.
pub open spec fn spec_outcome(ph: HeadPhase) -> Result<
    HttpRequestParserState,
    HttpRequestParserError,
> {
    match ph {
        HeadPhase::Failed { err } => Err(err),
        _ => if spec_bytes_needed(ph) == 0 {
            Ok(HttpRequestParserState::Complete)
        } else {
            Ok(HttpRequestParserState::MoreDataRequired)
        },
    }
}

/// First CRLF pair in a byte slice.
fn find_crlf_slice(s: &[u8]) -> (r: Option<usize>)
    ensures
        match r {
            Some(i) => i == spec_find_crlf(s@, 0) && i + 1 < s@.len(),
            None => spec_find_crlf(s@, 0) == -1,
        },
{
    let n = s.len();
    if n < 2 {
        return None;
    }
    let mut i: usize = 0;
    while i + 1 < n
        invariant
            0 <= i,
            i + 1 <= n,
            n == s@.len(),
            spec_find_crlf(s@, 0) == spec_find_crlf(s@, i as int),
        decreases n - i,
    {
        if s[i] == 13 && s[i + 1] == 10 {
            return Some(i);
        }
        i += 1;
    }
    None
}

/// First `": "` separator in a decoded line.
fn find_colon_space(s: &str) -> (r: Option<usize>)
    ensures
        match r {
            Some(i) => i == spec_find_colon_space(s@, 0) && i + 1 < s@.len(),
            None => spec_find_colon_space(s@, 0) == -1,
        },
{
    let n = s.unicode_len();
    if n < 2 {
        return None;
    }
    let mut i: usize = 0;
    while i + 1 < n
        invariant
            0 <= i,
            i + 1 <= n,
            n == s@.len(),
            spec_find_colon_space(s@, 0) == spec_find_colon_space(s@, i as int),
        decreases n - i,
    {
        if s.get_char(i) == ':' && s.get_char(i + 1) == ' ' {
            return Some(i);
        }
        i += 1;
    }
    None
}

/// The method named by a request-line token.
fn method_from_token(tok: &str) -> (r: Option<HttpMethod>)
    ensures
        r == spec_method_of(tok@),
{
    if str_eq(tok, "GET") {
        Some(HttpMethod::Get)
    } else if str_eq(tok, "HEAD") {
        Some(HttpMethod::Head)
    } else if str_eq(tok, "POST") {
        Some(HttpMethod::Post)
    } else if str_eq(tok, "PUT") {
        Some(HttpMethod::Put)
    } else if str_eq(tok, "DELETE") {
        Some(HttpMethod::Delete)
    } else if str_eq(tok, "OPTIONS") {
        Some(HttpMethod::Options)
    } else {
        None
    }
}

/// The incremental request parser. One instance frames exactly one
/// request and is not reused across connections.
pub struct HttpRequestParser {
    buffer: Vec<u8>,
    pos: usize,
    first_line_done: bool,
    headers_parsed: bool,
    failed: Option<HttpRequestParserError>,
    msg: HttpRequestMessage,
    fed: Ghost<Seq<u8>>,
}

impl HttpRequestParser {
    /// Every byte ever handed to `parse_bytes`.
    pub closed spec fn fed_bytes(self) -> Seq<u8> {
        self.fed@
    }

    /// Where parsing stands on the bytes fed so far.
    pub open spec fn phase(self) -> HeadPhase {
        spec_parse(self.fed_bytes())
    }

    /// The concrete state agrees with the parse of the fed bytes.
    pub closed spec fn wf(self) -> bool {
        match self.phase() {
            HeadPhase::Partial { rest, first_done, msg } => {
                &&& self.failed is None
                &&& !self.headers_parsed
                &&& self.first_line_done == first_done
                &&& self.msg@ == msg
                &&& self.msg.headers.wf()
                &&& msg.body == Seq::<u8>::empty()
                &&& self.buffer@ == self.fed@
                &&& self.pos <= self.buffer@.len()
                &&& rest == self.buffer@.skip(self.pos as int)
            },
            HeadPhase::Done { rest, msg } => {
                &&& self.failed is None
                &&& self.headers_parsed
                &&& self.first_line_done
                &&& self.msg@ == with_body(msg, rest)
                &&& self.msg.headers.wf()
                &&& msg.body == Seq::<u8>::empty()
                &&& self.buffer@.len() == 0
                &&& self.pos == 0
            },
            HeadPhase::Failed { err } => self.failed == Some(err),
        }
    }

    pub fn new() -> (r: HttpRequestParser)
        ensures
            r.wf(),
            r.fed_bytes() == Seq::<u8>::empty(),
    {
        let r = HttpRequestParser {
            buffer: Vec::new(),
            pos: 0,
            first_line_done: false,
            headers_parsed: false,
            failed: None,
            msg: HttpRequestMessage::empty(),
            fed: Ghost(Seq::empty()),
        };
        proof {
            assert(spec_find_crlf(r.fed@, 0) == -1);
            assert(r.buffer@.skip(0) =~= r.fed@);
        }
        r
    }

    /// Has the request line been consumed (or the header section ended)?
    pub fn is_first_line_parsed(&self) -> (r: bool)
        requires
            self.wf(),
        ensures
            match self.phase() {
                HeadPhase::Partial { first_done, .. } => r == first_done,
                HeadPhase::Done { .. } => r == true,
                HeadPhase::Failed { .. } => true,
            },
    {
        self.first_line_done
    }

    /// Has the blank line ending the header section been consumed?
    pub fn are_headers_parsed(&self) -> (r: bool)
        requires
            self.wf(),
        ensures
            match self.phase() {
                HeadPhase::Partial { .. } => r == false,
                HeadPhase::Done { .. } => r == true,
                HeadPhase::Failed { .. } => true,
            },
    {
        self.headers_parsed
    }

    /// How many more bytes the caller should read: 1 while headers are
    /// open, the missing body bytes after that (0 for GET and HEAD, and 0
    /// once the expected length is satisfied), 0 after a terminal error.
    pub fn read_how_many_bytes(&self) -> (r: u32)
        requires
            self.wf(),
        ensures
            r == spec_bytes_needed(self.phase()),
    {
        if self.failed.is_some() {
            return 0;
        }
        if !self.headers_parsed {
            return 1;
        }
        if self.msg.method == HttpMethod::Get || self.msg.method == HttpMethod::Head {
            return 0;
        }
        let cl = self.msg.content_length();
        match cl {
            Some(n) => {
                let have = self.msg.body.len();
                if have >= n as usize {
                    0
                } else {
                    n - have as u32
                }
            },
            None => 0,
        }
    }

    /// The record built so far; meaningful only while the parser has not
    /// failed, and complete only once the request is fully framed.
    pub fn get_request(&self) -> (r: &HttpRequestMessage)
        requires
            self.wf(),
        ensures
            match spec_request_of(self.phase()) {
                Some(m) => r@ == m && r.headers.wf(),
                None => true,
            },
    {
        &self.msg
    }

    /// Read the decoded request line into the record.
    fn parse_first_line(msg: &mut HttpRequestMessage, line: &[u8]) -> (r: Result<
        (),
        HttpRequestParserError,
    >)
        ensures
            match r {
                Ok(()) => spec_apply_first_line(old(msg)@, line@) == Ok::<
                    RequestModel,
                    HttpRequestParserError,
                >(final(msg)@),
                Err(e) => spec_apply_first_line(old(msg)@, line@) == Err::<
                    RequestModel,
                    HttpRequestParserError,
                >(e) && final(msg)@ == old(msg)@,
            },
            final(msg).headers == old(msg).headers,
    {
        let s = match bytes_as_str(line) {
            Some(s) => s,
            None => {
                return Err(HttpRequestParserError::InvalidEncoding);
            },
        };
        let n = s.unicode_len();
        let sp = match find_char_from(s, ' ', 0) {
            Some(sp) => sp,
            None => {
                let r = method_from_token(s);
                return if r.is_none() {
                    Err(HttpRequestParserError::UnsupportedMethod)
                } else {
                    Err(HttpRequestParserError::MalformedRequestLine)
                };
            },
        };
        let tok = s.substring_char(0, sp);
        let m = match method_from_token(tok) {
            Some(m) => m,
            None => {
                return Err(HttpRequestParserError::UnsupportedMethod);
            },
        };
        let middle = s.substring_char(sp + 1, n);
        proof {
            reveal_strlit("HTTP/1");
            assert(middle@ =~= s@.skip(sp + 1));
        }
        let v = match rfind(middle, "HTTP/1") {
            Some(v) => v,
            None => {
                return Err(HttpRequestParserError::MalformedRequestLine);
            },
        };
        if v == 0 {
            return Err(HttpRequestParserError::MalformedRequestLine);
        }
        if middle.get_char(v - 1) != ' ' {
            return Err(HttpRequestParserError::MalformedRequestLine);
        }
        let url = middle.substring_char(0, v - 1);
        msg.method = m;
        msg.url = String::from_str(url);
        if ends_with(s, "HTTP/1.1") {
            msg.http_version = String::from_str("1.1");
        } else if ends_with(s, "HTTP/1.0") {
            msg.http_version = String::from_str("1.0");
        }
        Ok(())
    }

    /// Read a decoded header line into the record; a repeated name keeps
    /// the later value.
    fn parse_line(msg: &mut HttpRequestMessage, line: &[u8]) -> (r: Result<
        (),
        HttpRequestParserError,
    >)
        requires
            old(msg).headers.wf(),
        ensures
            final(msg).headers.wf(),
            match r {
                Ok(()) => spec_apply_header_line(old(msg)@, line@) == Ok::<
                    RequestModel,
                    HttpRequestParserError,
                >(final(msg)@),
                Err(e) => spec_apply_header_line(old(msg)@, line@) == Err::<
                    RequestModel,
                    HttpRequestParserError,
                >(e) && final(msg)@ == old(msg)@,
            },
    {
        let s = match bytes_as_str(line) {
            Some(s) => s,
            None => {
                return Err(HttpRequestParserError::InvalidEncoding);
            },
        };
        let sep = match find_colon_space(s) {
            Some(sep) => sep,
            None => {
                return Err(HttpRequestParserError::MalformedHeaderLine);
            },
        };
        let n = s.unicode_len();
        let key = s.substring_char(0, sep);
        let val = s.substring_char(sep + 2, n);
        proof {
            assert(val@ =~= s@.skip(sep + 2));
        }
        msg.headers.insert(String::from_str(key), String::from_str(val));
        Ok(())
    }

    /// Feed the next chunk, of any length. An empty chunk is a no-op.
    /// After a terminal error every further call reports that error.
    pub fn parse_bytes(&mut self, data: &[u8]) -> (r: Result<
        HttpRequestParserState,
        HttpRequestParserError,
    >)
        requires
            old(self).wf(),
        ensures
            final(self).wf(),
            final(self).fed_bytes() == if data@.len() == 0 {
                old(self).fed_bytes()
            } else {
                old(self).fed_bytes() + data@
            },
            r == if data@.len() == 0 {
                Ok::<HttpRequestParserState, HttpRequestParserError>(
                    HttpRequestParserState::MoreDataRequired,
                )
            } else {
                spec_outcome(final(self).phase())
            },
    {
        if data.len() == 0 {
            return Ok(HttpRequestParserState::MoreDataRequired);
        }
        let ghost old_fed = self.fed@;
        proof {
            lemma_head_extend(old_fed, data@, false, empty_request_model());
        }
        if let Some(err) = self.failed {
            self.fed = Ghost(self.fed@ + data@);
            return Err(err);
        }
        self.buffer.extend_from_slice(data);
        self.fed = Ghost(self.fed@ + data@);
        let ghost fed = self.fed@;
        if !self.headers_parsed {
            proof {
                assert(self.buffer@.skip(self.pos as int) =~= old(self).buffer@.skip(
                    self.pos as int,
                ) + data@);
            }
            loop
                invariant_except_break
                    !self.headers_parsed,
                    spec_parse(fed) == spec_head(
                        self.buffer@.skip(self.pos as int),
                        self.first_line_done,
                        self.msg@,
                    ),
                invariant
                    data@.len() > 0,
                    fed == old(self).fed_bytes() + data@,
                    self.failed is None,
                    self.fed@ == fed,
                    self.buffer@ == fed,
                    self.pos <= self.buffer@.len(),
                    self.msg.headers.wf(),
                    self.msg@.body == Seq::<u8>::empty(),
                ensures
                    self.headers_parsed ==> self.first_line_done && spec_parse(fed)
                        == (HeadPhase::Done {
                        rest: self.buffer@.skip(self.pos as int),
                        msg: self.msg@,
                    }),
                    !self.headers_parsed ==> spec_parse(fed) == (HeadPhase::Partial {
                        rest: self.buffer@.skip(self.pos as int),
                        first_done: self.first_line_done,
                        msg: self.msg@,
                    }),
                decreases self.buffer@.len() - self.pos,
            {
                let ghost rest0 = self.buffer@.skip(self.pos as int);
                let blen = self.buffer.len();
                let rest = slice_subrange(self.buffer.as_slice(), self.pos, blen);
                proof {
                    assert(rest@ =~= rest0);
                }
                let c = match find_crlf_slice(rest) {
                    Some(c) => c,
                    None => {
                        break ;
                    },
                };
                if c == 0 {
                    self.first_line_done = true;
                    self.headers_parsed = true;
                    self.pos = self.pos + 2;
                    proof {
                        assert(self.buffer@.skip(self.pos as int) =~= rest0.skip(2));
                    }
                    break ;
                }
                let line = slice_subrange(rest, 0, c);
                proof {
                    assert(line@ =~= rest0.take(c as int));
                }
                let parsed: Result<(), HttpRequestParserError> = if !self.first_line_done {
                    HttpRequestParser::parse_first_line(&mut self.msg, line)
                } else {
                    HttpRequestParser::parse_line(&mut self.msg, line)
                };
                match parsed {
                    Ok(()) => {
                        self.first_line_done = true;
                        self.pos = self.pos + c + 2;
                        proof {
                            assert(self.buffer@.skip(self.pos as int) =~= rest0.skip(c + 2));
                        }
                    },
                    Err(e) => {
                        self.failed = Some(e);
                        proof {
                            assert(spec_parse(fed) == (HeadPhase::Failed { err: e }));
                        }
                        return Err(e);
                    },
                }
            }
            if self.headers_parsed {
                let ghost m_head = self.msg@;
                let blen = self.buffer.len();
                let tail = slice_subrange(self.buffer.as_slice(), self.pos, blen);
                proof {
                    assert(tail@ =~= self.buffer@.skip(self.pos as int));
                }
                self.msg.body.extend_from_slice(tail);
                self.buffer.clear();
                self.pos = 0;
                proof {
                    assert(self.msg@ == with_body(m_head, tail@)) by {
                        assert(self.msg@.body =~= Seq::<u8>::empty() + tail@);
                    };
                }
            }
        } else {
            let ghost m_head = phase_head_msg(spec_parse(old_fed));
            proof {
                assert(spec_parse(old_fed) == (HeadPhase::Done {
                    rest: old(self).msg@.body,
                    msg: m_head,
                }));
                assert(old(self).msg@ == with_body(m_head, old(self).msg@.body));
            }
            let blen = self.buffer.len();
            let tail = slice_subrange(self.buffer.as_slice(), 0, blen);
            proof {
                assert(tail@ =~= data@);
                assert(spec_parse(fed) == (HeadPhase::Done {
                    rest: old(self).msg@.body + data@,
                    msg: m_head,
                }));
            }
            self.msg.body.extend_from_slice(tail);
            self.buffer.clear();
            self.pos = 0;
            proof {
                assert(self.msg@.body == old(self).msg@.body + data@);
                assert(self.msg@ == with_body(m_head, old(self).msg@.body + data@));
            }
        }
        let needed = self.read_how_many_bytes();
        if needed == 0 {
            Ok(HttpRequestParserState::Complete)
        } else {
            Ok(HttpRequestParserState::MoreDataRequired)
        }
    }
}

/// Byte-granularity invariance: two parsers that were fed the same total
/// bytes, in whatever chunks, stand at the same point of the parse and
/// expose the same record.
pub proof fn lemma_parse_deterministic(a: HttpRequestParser, b: HttpRequestParser)
    requires
        a.wf(),
        b.wf(),
        a.fed_bytes() == b.fed_bytes(),
    ensures
        a.phase() == b.phase(),
        spec_request_of(a.phase()) == spec_request_of(b.phase()),
{
}

/// A parse error is terminal: however many further bytes arrive, the
/// parse stays failed with the same error and never reaches completion.
pub proof fn lemma_error_terminal(fed: Seq<u8>, ext: Seq<u8>, err: HttpRequestParserError)
    requires
        spec_parse(fed) == (HeadPhase::Failed { err }),
    ensures
        spec_parse(fed + ext) == (HeadPhase::Failed { err }),
        spec_outcome(spec_parse(fed + ext)) == Err::<HttpRequestParserState,
            HttpRequestParserError,
        >(err),
{
    lemma_head_extend(fed, ext, false, empty_request_model());
}

/// GET and HEAD requests never wait on a body: the moment the header
/// section is done, no further bytes are needed, whatever Content-Length
/// was sent.
pub proof fn lemma_get_head_needs_nothing(ph: HeadPhase)
    requires
        ph matches HeadPhase::Done { msg, .. } && (msg.method == HttpMethod::Get || msg.method
            == HttpMethod::Head),
    ensures
        spec_bytes_needed(ph) == 0,
{
}

/// Header overwrite: of two header lines carrying the same name, the
/// record keeps only the later value.
pub proof fn lemma_header_overwrite(
    m: RequestModel,
    l1: Seq<char>,
    l2: Seq<char>,
    k: Seq<char>,
    v1: Seq<char>,
    v2: Seq<char>,
)
    requires
        spec_parse_header_line(l1) == Ok::<(Seq<char>, Seq<char>), HttpRequestParserError>((k, v1)),
        spec_parse_header_line(l2) == Ok::<(Seq<char>, Seq<char>), HttpRequestParserError>((k, v2)),
    ensures
        m.headers.insert(k, v1).insert(k, v2) == m.headers.insert(k, v2),
        m.headers.insert(k, v1).insert(k, v2)[k] == v2,
{
    assert(m.headers.insert(k, v1).insert(k, v2) =~= m.headers.insert(k, v2));
}

} // verus!
