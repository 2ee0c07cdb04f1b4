//! The routing engine: an ordered list of routes is evaluated against a
//! parsed request, and the first route whose pattern and method match
//! wins. Static routes compare the URL against exact strings; dynamic
//! routes match a compiled template segment by segment, capturing named
//! variables.

use vstd::prelude::*;

verus! {

use vstd::string::StrSliceExecFns;
use vstd::string::StringExecFns;
use crate::http::HttpMethod;
use crate::http::HttpRequestMessage;
use crate::http::HttpResponseMessage;
use crate::strmap::StringMap;
use crate::strutil::find_char_from;
use crate::strutil::occurs_at;
use crate::strutil::spec_find_char;
use crate::strutil::spec_occurs_at;
use crate::strutil::str_eq;

#[derive(Debug, Copy, Clone, PartialEq, Eq, Structural)]
pub enum HttpRouteError {
    /// No route in the list applies to the request.
    NoRouteFound,
    /// A handler failed; the server process must survive this.
    ProcessingError,
}

/// One part of a compiled URL template.
#[derive(Debug)]
pub enum DynamicUrlPart {
    /// A literal piece the URL must carry verbatim.
    Static(String),
    /// A named variable capturing one path segment.
    UrlVar(String),
}

/// The mathematical content of a template part.
pub ghost enum UrlPartModel {
    Lit(Seq<char>),
    Var(Seq<char>),
}

impl View for DynamicUrlPart {
    type V = UrlPartModel;

    open spec fn view(&self) -> UrlPartModel {
        match self {
            DynamicUrlPart::Static(s) => UrlPartModel::Lit(s@),
            DynamicUrlPart::UrlVar(s) => UrlPartModel::Var(s@),
        }
    }
}

/// The parts of a part list, as models.
pub open spec fn parts_view(ps: Seq<DynamicUrlPart>) -> Seq<UrlPartModel> {
    Seq::new(ps.len(), |i: int| ps[i]@)
}

/// How a template string compiles: alternating literal pieces and
/// variables; a variable starts after `:` and ends at the next `/`
/// (which stays with the following literal) or at the end.
pub open spec fn spec_template_parts(s: Seq<char>) -> Seq<UrlPartModel>
    decreases s.len(),
{
    let c = spec_find_char(s, ':', 0);
    if c < 0 || c + 1 > s.len() {
        seq![UrlPartModel::Lit(s)]
    } else {
        let head = UrlPartModel::Lit(s.take(c));
        let rest = s.skip(c + 1);
        let sep = spec_find_char(rest, '/', 0);
        if sep < 0 || sep > rest.len() {
            seq![head, UrlPartModel::Var(rest)]
        } else {
            seq![head, UrlPartModel::Var(rest.take(sep))] + spec_template_parts(rest.skip(sep))
        }
    }
}

/// A single trailing literal `/` is cosmetic and dropped at compile time.
pub open spec fn spec_normalize(parts: Seq<UrlPartModel>) -> Seq<UrlPartModel> {
    if parts.len() > 1 && parts.last() == UrlPartModel::Lit("/"@) {
        parts.drop_last()
    } else {
        parts
    }
}

/// How a template matches a URL, left to right. A literal must prefix
/// the remaining path. A variable captures up to the next `/`: before a
/// further part the `/` stays in the path for the following literal; in
/// final position the `/` may only be trailing. Captures are never
/// empty, and the whole path must be consumed.
pub open spec fn spec_match_parts(
    parts: Seq<UrlPartModel>,
    u: Seq<char>,
    acc: Map<Seq<char>, Seq<char>>,
) -> Option<Map<Seq<char>, Seq<char>>>
    decreases parts.len(),
{
    if parts.len() == 0 {
        if u.len() == 0 {
            Some(acc)
        } else {
            None
        }
    } else {
        match parts[0] {
            UrlPartModel::Lit(lit) => {
                if spec_occurs_at(u, lit, 0) {
                    spec_match_parts(parts.drop_first(), u.skip(lit.len() as int), acc)
                } else {
                    None
                }
            },
            UrlPartModel::Var(name) => {
                if u.len() == 0 {
                    None
                } else {
                    let k = spec_find_char(u, '/', 0);
                    if k < 0 {
                        spec_match_parts(parts.drop_first(), Seq::<char>::empty(), acc.insert(name, u))
                    } else if parts.len() == 1 {
                        if k == u.len() - 1 && k > 0 {
                            Some(acc.insert(name, u.take(k)))
                        } else {
                            None
                        }
                    } else {
                        if k > 0 {
                            spec_match_parts(parts.drop_first(), u.skip(k), acc.insert(name, u.take(k)))
                        } else {
                            None
                        }
                    }
                }
            },
        }
    }
}

/// A compiled URL template.
#[derive(Debug)]
pub struct DynamicUrl {
    parts: Vec<DynamicUrlPart>,
}

impl View for DynamicUrl {
    type V = Seq<UrlPartModel>;

    closed spec fn view(&self) -> Seq<UrlPartModel> {
        parts_view(self.parts@)
    }
}

/// The variables a successful dynamic match captured.
#[derive(Debug)]
pub struct DynamicUrlMatch {
    vars: StringMap,
}

impl View for DynamicUrlMatch {
    type V = Map<Seq<char>, Seq<char>>;

    closed spec fn view(&self) -> Map<Seq<char>, Seq<char>> {
        self.vars@
    }
}

impl DynamicUrlMatch {
    pub closed spec fn wf(self) -> bool {
        self.vars.wf()
    }

    /// The value captured for a variable name, if that variable matched.
    pub fn get(&self, key: &str) -> (r: Option<&String>)
        requires
            self.wf(),
        ensures
            match r {
                Some(v) => self@.contains_key(key@) && v@ == self@[key@],
                None => !self@.contains_key(key@),
            },
    {
        self.vars.get(key)
    }
}

impl DynamicUrl {
    /// Wrap compiled parts, dropping a single trailing `/` literal.
    pub fn new(parts: Vec<DynamicUrlPart>) -> (r: DynamicUrl)
        ensures
            r@ == spec_normalize(parts_view(parts@)),
    {
        let ghost orig = parts@;
        let mut parts = parts;
        let n = parts.len();
        if n > 1 {
            let trailing = match &parts[n - 1] {
                DynamicUrlPart::Static(s) => str_eq(s.as_str(), "/"),
                DynamicUrlPart::UrlVar(_) => false,
            };
            proof {
                assert(parts_view(orig).last() == orig.last()@);
                assert(trailing == (parts_view(orig).last() == UrlPartModel::Lit("/"@)));
            }
            if trailing {
                parts.pop();
                proof {
                    assert(parts_view(parts@) =~= parts_view(orig).drop_last());
                }
            }
        }
        DynamicUrl { parts }
    }

    /// Compile a `:name` template string; the part list is never empty,
    /// so a template is always accepted.
    pub fn parse_str(s: &str) -> (r: Option<DynamicUrl>)
        ensures
            r matches Some(d) && d@ == spec_normalize(spec_template_parts(s@)),
    {
        let mut parts: Vec<DynamicUrlPart> = Vec::new();
        let mut p: &str = s;
        proof {
            assert(parts_view(parts@) =~= Seq::<UrlPartModel>::empty());
            assert(parts_view(parts@) + spec_template_parts(p@) =~= spec_template_parts(s@));
        }
        loop
            invariant_except_break
                spec_template_parts(s@) == parts_view(parts@) + spec_template_parts(p@),
            ensures
                parts@.len() > 0,
                spec_template_parts(s@) == parts_view(parts@),
            decreases p@.len(),
        {
            let ghost parts0 = parts@;
            let ghost p0 = p@;
            let pn = p.unicode_len();
            match find_char_from(p, ':', 0) {
                None => {
                    parts.push(DynamicUrlPart::Static(String::from_str(p)));
                    proof {
                        assert(parts_view(parts@) =~= parts_view(parts0) + seq![
                            UrlPartModel::Lit(p0),
                        ]);
                        assert(spec_template_parts(s@) =~= parts_view(parts@));
                    }
                    break ;
                },
                Some(idx) => {
                    parts.push(DynamicUrlPart::Static(String::from_str(p.substring_char(0, idx))));
                    let other = p.substring_char(idx + 1, pn);
                    proof {
                        assert(other@ =~= p0.skip(idx + 1));
                    }
                    let on = other.unicode_len();
                    match find_char_from(other, '/', 0) {
                        None => {
                            parts.push(DynamicUrlPart::UrlVar(String::from_str(other)));
                            proof {
                                assert(parts_view(parts@) =~= parts_view(parts0) + seq![
                                    UrlPartModel::Lit(p0.take(idx as int)),
                                    UrlPartModel::Var(other@),
                                ]);
                                assert(spec_template_parts(s@) =~= parts_view(parts@));
                            }
                            break ;
                        },
                        Some(sep) => {
                            parts.push(
                                DynamicUrlPart::UrlVar(
                                    String::from_str(other.substring_char(0, sep)),
                                ),
                            );
                            let next = other.substring_char(sep, on);
                            proof {
                                assert(next@ =~= other@.skip(sep as int));
                                assert(parts_view(parts@) =~= parts_view(parts0) + seq![
                                    UrlPartModel::Lit(p0.take(idx as int)),
                                    UrlPartModel::Var(other@.take(sep as int)),
                                ]);
                                assert(parts_view(parts@) + spec_template_parts(next@)
                                    =~= parts_view(parts0) + spec_template_parts(p0));
                            }
                            p = next;
                        },
                    }
                },
            }
        }
        if parts.len() > 0 {
            Some(DynamicUrl::new(parts))
        } else {
            None
        }
    }

    /// Match the template against a URL, capturing variables.
    pub fn match_url(&self, url: &str) -> (r: Option<DynamicUrlMatch>)
        ensures
            match r {
                Some(dm) => dm.wf() && spec_match_parts(self@, url@, Map::empty()) == Some(dm@),
                None => spec_match_parts(self@, url@, Map::<Seq<char>, Seq<char>>::empty())
                    is None,
            },
    {
        let n = self.parts.len();
        let un = url.unicode_len();
        let mut i: usize = 0;
        let mut upos: usize = 0;
        let mut vars = StringMap::new();
        proof {
            assert(url@.skip(0) =~= url@);
            assert(self@.skip(0) =~= self@);
        }
        while i < n
            invariant
                i <= n,
                upos <= un,
                un == url@.len(),
                n == self@.len(),
                n == self.parts@.len(),
                vars.wf(),
                spec_match_parts(self@, url@, Map::<Seq<char>, Seq<char>>::empty())
                    == spec_match_parts(self@.skip(i as int), url@.skip(upos as int), vars@),
            decreases n - i,
        {
            let ghost tail_parts = self@.skip(i as int);
            let u = url.substring_char(upos, un);
            proof {
                assert(u@ =~= url@.skip(upos as int));
                assert(tail_parts[0] == self@[i as int]);
                assert(tail_parts.drop_first() =~= self@.skip(i + 1));
            }
            let ul = un - upos;
            match &self.parts[i] {
                DynamicUrlPart::Static(lit) => {
                    if occurs_at(u, lit.as_str(), 0) {
                        let ll = lit.as_str().unicode_len();
                        proof {
                            assert(url@.skip(upos + ll) =~= u@.skip(ll as int));
                        }
                        upos = upos + ll;
                        i = i + 1;
                    } else {
                        return None;
                    }
                },
                DynamicUrlPart::UrlVar(name) => {
                    if ul == 0 {
                        return None;
                    }
                    match find_char_from(u, '/', 0) {
                        None => {
                            vars.insert(
                                String::from_str(name.as_str()),
                                String::from_str(u),
                            );
                            proof {
                                assert(url@.skip(un as int) =~= Seq::<char>::empty());
                            }
                            upos = un;
                            i = i + 1;
                        },
                        Some(k) => {
                            if i == n - 1 {
                                if k == ul - 1 && k > 0 {
                                    vars.insert(
                                        String::from_str(name.as_str()),
                                        String::from_str(u.substring_char(0, k)),
                                    );
                                    proof {
                                        assert(url@.skip(un as int) =~= Seq::<char>::empty());
                                        assert(self@.skip(n as int) =~= Seq::<UrlPartModel>::empty());
                                    }
                                    upos = un;
                                    i = i + 1;
                                } else {
                                    return None;
                                }
                            } else {
                                if k > 0 {
                                    vars.insert(
                                        String::from_str(name.as_str()),
                                        String::from_str(u.substring_char(0, k)),
                                    );
                                    proof {
                                        assert(url@.skip(upos + k) =~= u@.skip(k as int));
                                    }
                                    upos = upos + k;
                                    i = i + 1;
                                } else {
                                    return None;
                                }
                            }
                        },
                    }
                },
            }
        }
        if upos == un {
            proof {
                assert(self@.skip(n as int) =~= Seq::<UrlPartModel>::empty());
                assert(url@.skip(un as int) =~= Seq::<char>::empty());
            }
            Some(DynamicUrlMatch { vars })
        } else {
            None
        }
    }
}

/// One route: a pattern with allowed methods and a handler.
pub trait HttpRoute {
    /// Does the route's pattern and method set accept the request?
    spec fn spec_applies(&self, msg: &HttpRequestMessage) -> bool;

    /// What a caller must know before executing the route's handler.
    spec fn execute_req(&self, msg: &HttpRequestMessage) -> bool;

    /// What holds of a response the handler produced.
    spec fn spec_executed(&self, msg: &HttpRequestMessage, resp: &HttpResponseMessage) -> bool;

    /// On which requests execution refuses instead of running the handler.
    spec fn spec_exec_fails(&self, msg: &HttpRequestMessage) -> bool;

    fn applies(&self, msg: &HttpRequestMessage) -> (r: Result<bool, HttpRouteError>)
        ensures
            r == Ok::<bool, HttpRouteError>(self.spec_applies(msg)),
    ;

    fn execute(&self, msg: &HttpRequestMessage) -> (r: Result<HttpResponseMessage, HttpRouteError>)
        requires
            self.execute_req(msg),
        ensures
            match r {
                Ok(resp) => !self.spec_exec_fails(msg) && self.spec_executed(msg, &resp),
                Err(e) => e == HttpRouteError::NoRouteFound && self.spec_exec_fails(msg),
            },
    ;
}

/// Is one of the strings exactly these characters?
pub open spec fn contains_str(urls: Seq<String>, u: Seq<char>) -> bool {
    exists|i: int| 0 <= i < urls.len() && urls[i]@ == u
}

fn vec_contains_str(urls: &Vec<String>, u: &str) -> (r: bool)
    ensures
        r == contains_str(urls@, u@),
{
    let n = urls.len();
    let mut i: usize = 0;
    while i < n
        invariant
            0 <= i <= n,
            n == urls@.len(),
            forall|j: int| 0 <= j < i ==> urls@[j]@ != u@,
        decreases n - i,
    {
        if str_eq(urls[i].as_str(), u) {
            return true;
        }
        i += 1;
    }
    false
}

fn vec_contains_method(ms: &Vec<HttpMethod>, m: HttpMethod) -> (r: bool)
    ensures
        r == ms@.contains(m),
{
    let n = ms.len();
    let mut i: usize = 0;
    while i < n
        invariant
            0 <= i <= n,
            n == ms@.len(),
            forall|j: int| 0 <= j < i ==> ms@[j] != m,
        decreases n - i,
    {
        if ms[i] == m {
            return true;
        }
        i += 1;
    }
    false
}

/// A route matching exact URL strings.
pub struct HttpRouteStaticUrl<F> where F: Fn(&HttpRequestMessage) -> HttpResponseMessage {
    pub urls: Vec<String>,
    pub methods: Vec<HttpMethod>,
    pub action: F,
}

impl<F> HttpRouteStaticUrl<F> where F: Fn(&HttpRequestMessage) -> HttpResponseMessage {
    /// A GET route for a single exact URL.
    pub fn new_get(url: &str, action: F) -> (r: HttpRouteStaticUrl<F>)
        ensures
            r.urls@.len() == 1 && r.urls@[0]@ == url@,
            r.methods@ == seq![HttpMethod::Get],
            r.action == action,
    {
        let mut urls: Vec<String> = Vec::new();
        urls.push(String::from_str(url));
        let mut methods: Vec<HttpMethod> = Vec::new();
        methods.push(HttpMethod::Get);
        proof {
            assert(methods@ =~= seq![HttpMethod::Get]);
        }
        HttpRouteStaticUrl { urls, methods, action }
    }
}

impl<F> HttpRoute for HttpRouteStaticUrl<F> where F: Fn(
    &HttpRequestMessage,
) -> HttpResponseMessage {
    open spec fn spec_applies(&self, msg: &HttpRequestMessage) -> bool {
        contains_str(self.urls@, msg.url@) && self.methods@.contains(msg.method)
    }

    open spec fn execute_req(&self, msg: &HttpRequestMessage) -> bool {
        call_requires(self.action, (msg,))
    }

    open spec fn spec_executed(&self, msg: &HttpRequestMessage, resp: &HttpResponseMessage) -> bool {
        call_ensures(self.action, (msg,), *resp)
    }

    open spec fn spec_exec_fails(&self, msg: &HttpRequestMessage) -> bool {
        false
    }

    fn applies(&self, msg: &HttpRequestMessage) -> (r: Result<bool, HttpRouteError>) {
        Ok(vec_contains_str(&self.urls, msg.url.as_str()) && vec_contains_method(
            &self.methods,
            msg.method,
        ))
    }

    fn execute(&self, msg: &HttpRequestMessage) -> (r: Result<
        HttpResponseMessage,
        HttpRouteError,
    >) {
        Ok((self.action)(msg))
    }
}

/// A route matching a compiled URL template, handing captures on.
pub struct HttpRouteDynamicUrl<F> where F: Fn(
    &HttpRequestMessage,
    &DynamicUrlMatch,
) -> HttpResponseMessage {
    pub url: DynamicUrl,
    pub methods: Vec<HttpMethod>,
    pub action: F,
}

impl<F> HttpRouteDynamicUrl<F> where F: Fn(
    &HttpRequestMessage,
    &DynamicUrlMatch,
) -> HttpResponseMessage {
    /// A route for one method on the given template.
    pub fn new(url: DynamicUrl, method: HttpMethod, action: F) -> (r: HttpRouteDynamicUrl<F>)
        ensures
            r.url == url,
            r.methods@ == seq![method],
            r.action == action,
    {
        let mut methods: Vec<HttpMethod> = Vec::new();
        methods.push(method);
        proof {
            assert(methods@ =~= seq![method]);
        }
        HttpRouteDynamicUrl { url, methods, action }
    }
}

impl<F> HttpRoute for HttpRouteDynamicUrl<F> where F: Fn(
    &HttpRequestMessage,
    &DynamicUrlMatch,
) -> HttpResponseMessage {
    open spec fn spec_applies(&self, msg: &HttpRequestMessage) -> bool {
        spec_match_parts(self.url@, msg.url@, Map::<Seq<char>, Seq<char>>::empty()) is Some
            && self.methods@.contains(msg.method)
    }

    open spec fn execute_req(&self, msg: &HttpRequestMessage) -> bool {
        forall|dm: &DynamicUrlMatch| #[trigger] call_requires(self.action, (msg, dm))
    }

    open spec fn spec_executed(&self, msg: &HttpRequestMessage, resp: &HttpResponseMessage) -> bool {
        exists|dm: &DynamicUrlMatch|
            Some(dm@) == spec_match_parts(self.url@, msg.url@, Map::<Seq<char>, Seq<char>>::empty())
                && #[trigger] call_ensures(self.action, (msg, dm), *resp)
    }

    open spec fn spec_exec_fails(&self, msg: &HttpRequestMessage) -> bool {
        spec_match_parts(self.url@, msg.url@, Map::<Seq<char>, Seq<char>>::empty()) is None
    }

    fn applies(&self, msg: &HttpRequestMessage) -> (r: Result<bool, HttpRouteError>) {
        let m = self.url.match_url(msg.url.as_str());
        Ok(m.is_some() && vec_contains_method(&self.methods, msg.method))
    }

    fn execute(&self, msg: &HttpRequestMessage) -> (r: Result<
        HttpResponseMessage,
        HttpRouteError,
    >) {
        match self.url.match_url(msg.url.as_str()) {
            Some(m) => Ok((self.action)(msg, &m)),
            None => Err(HttpRouteError::NoRouteFound),
        }
    }
}

/// First-match-wins routing: the first route in registration order that
/// applies to the request, or `NoRouteFound` when none does.
pub fn http_router<'a, R: HttpRoute>(routes: &'a [R], req: &HttpRequestMessage) -> (r: Result<
    &'a R,
    HttpRouteError,
>)
    ensures
        match r {
            Ok(route) => exists|i: int|
                0 <= i < routes@.len() && routes@[i] == *route && routes@[i].spec_applies(req) && (
                forall|j: int| 0 <= j < i ==> !(#[trigger] routes@[j].spec_applies(req))),
            Err(e) => e == HttpRouteError::NoRouteFound && forall|i: int|
                0 <= i < routes@.len() ==> !(#[trigger] routes@[i].spec_applies(req)),
        },
{
    let n = routes.len();
    let mut i: usize = 0;
    while i < n
        invariant
            0 <= i <= n,
            n == routes@.len(),
            forall|j: int| 0 <= j < i ==> !(#[trigger] routes@[j].spec_applies(req)),
        decreases n - i,
    {
        let route = vstd::slice::slice_index_get(routes, i);
        match route.applies(req) {
            Ok(true) => {
                return Ok(route);
            },
            _ => {},
        }
        i += 1;
    }
    Err(HttpRouteError::NoRouteFound)
}

} // verus!
