//! Forwarding of HTTP requests on behalf of a caller, with redirects followed
//! hop by hop.
//!
//! A `Forward` is the state between two hops. The caller of this module sends
//! the request that `next_request` gives, hands the reply to `receive`, and
//! goes on until there is an answer.
use crate::encoding;
use crate::health;
use crate::http;
use crate::text;
use reqwest::cookie::Jar;
use reqwest::header::{HeaderMap, HeaderValue};
use vstd::prelude::*;

verus! {

/// The number of redirects that are followed.
pub const MAX_REDIRECTS: usize = 10;

/// A request that a caller wants to be made.
pub struct ProxyRequest {
    pub url: String,
    pub method: String,
    pub headers: Option<Vec<(String, String)>>,
    pub body: Option<String>,
}

/// The method of a request that names none.
pub fn default_method() -> (r: String)
    ensures
        r@ == "GET"@,
{
    "GET".to_owned()
}

/// What the caller gets back.
pub struct ProxyResponse {
    pub status: u16,
    pub headers: Vec<(String, String)>,
    /// The body in base64.
    pub body: String,
    /// Where the redirect chain ended.
    pub url: String,
    /// The jar's cookies for `url`, as the value of a `Cookie` header.
    pub cookie: Option<String>,
}

// ---------------------------------------------------------------------------
// Failures
// ---------------------------------------------------------------------------

/// A failure to send a request or to read its reply.
pub struct TransportError {
    pub message: String,
    pub timeout: bool,
    pub connect: bool,
    pub body: bool,
    pub decode: bool,
}

/// Why a request was not forwarded to its end.
pub enum ForwardError {
    InvalidMethod(String),
    InvalidUrl(String),
    InvalidHeaderName(String),
    /// The value of the header with this name.
    InvalidHeaderValue(String),
    Transport(TransportError),
    TooManyRedirects,
    /// The header map is full.
    TooManyHeaders,
}

/// The fault in a request that cannot be forwarded.
pub enum Fault {
    Method(Seq<char>),
    Url(Seq<char>),
    HeaderName(Seq<char>),
    HeaderValue(Seq<char>),
}

impl ForwardError {
    /// Whether the failure is the given fault of the request.
    pub open spec fn is_fault(&self, f: Fault) -> bool {
        match (self, f) {
            (ForwardError::InvalidMethod(s), Fault::Method(t)) => s@ == t,
            (ForwardError::InvalidUrl(s), Fault::Url(t)) => s@ == t,
            (ForwardError::InvalidHeaderName(s), Fault::HeaderName(t)) => s@ == t,
            (ForwardError::InvalidHeaderValue(s), Fault::HeaderValue(t)) => s@ == t,
            _ => false,
        }
    }

    /// The message for the caller.
    pub open spec fn text(&self) -> Seq<char> {
        match self {
            ForwardError::InvalidMethod(s) => "invalid HTTP method: "@ + s@,
            ForwardError::InvalidUrl(s) => "invalid URL: "@ + s@,
            ForwardError::InvalidHeaderName(s) => "invalid header name: "@ + s@,
            ForwardError::InvalidHeaderValue(s) => "invalid header value for "@ + s@,
            ForwardError::Transport(t) => t.message@,
            ForwardError::TooManyRedirects => "too many redirects (>"@ + text::decimal(
                MAX_REDIRECTS as nat,
            ) + ")"@,
            ForwardError::TooManyHeaders => "too many headers"@,
        }
    }

    /// Tells the caller what went wrong.
    pub fn message(&self) -> (r: String)
        ensures
            r@ == self.text(),
    {
        match self {
            ForwardError::InvalidMethod(s) => "invalid HTTP method: ".to_owned().concat(s),
            ForwardError::InvalidUrl(s) => "invalid URL: ".to_owned().concat(s),
            ForwardError::InvalidHeaderName(s) => "invalid header name: ".to_owned().concat(s),
            ForwardError::InvalidHeaderValue(s) => "invalid header value for ".to_owned().concat(s),
            ForwardError::Transport(t) => t.message.clone(),
            ForwardError::TooManyRedirects => {
                let mut m = "too many redirects (>".to_owned();
                text::push_decimal(&mut m, MAX_REDIRECTS as u64);
                m.concat(")")
            },
            ForwardError::TooManyHeaders => "too many headers".to_owned(),
        }
    }
}

/// The label for a failure.
pub open spec fn kind_of(e: ForwardError) -> Seq<char> {
    match e {
        ForwardError::TooManyRedirects => "too_many_redirects"@,
        ForwardError::Transport(t) => if t.timeout {
            "timeout"@
        } else if t.connect {
            "connect"@
        } else if t.body || t.decode {
            "body"@
        } else {
            "request"@
        },
        _ => "invalid_request"@,
    }
}

/// A fixed label for a failure; the message itself can carry the URL.
pub fn error_kind(e: &ForwardError) -> (r: &'static str)
    ensures
        r@ == kind_of(*e),
{
    match e {
        ForwardError::TooManyRedirects => "too_many_redirects",
        ForwardError::Transport(t) => if t.timeout {
            "timeout"
        } else if t.connect {
            "connect"
        } else if t.body || t.decode {
            "body"
        } else {
            "request"
        },
        _ => "invalid_request",
    }
}

// ---------------------------------------------------------------------------
// The start of a forward
// ---------------------------------------------------------------------------

/// The headers that a caller gave, as text.
pub open spec fn header_list(v: Seq<(String, String)>) -> Seq<(Seq<char>, Seq<char>)> {
    v.map_values(|h: (String, String)| (h.0@, h.1@))
}

/// The non-empty ones of `parts`, without the white space around them.
pub open spec fn nonblank(parts: Seq<Seq<char>>) -> Seq<Seq<char>>
    decreases parts.len(),
{
    if parts.len() == 0 {
        Seq::empty()
    } else {
        let rest = nonblank(parts.drop_last());
        let part = text::trimmed(parts.last());
        if part.len() > 0 {
            rest.push(part)
        } else {
            rest
        }
    }
}

/// The cookies of a `Cookie` header: they are separated by semicolons.
pub open spec fn cookie_pairs(value: Seq<char>) -> Seq<Seq<char>> {
    nonblank(text::split(value, ';'))
}

/// Splits the value of a `Cookie` header into its cookies.
pub fn split_cookies(value: &str) -> (r: Vec<String>)
    ensures
        text::views(r@) == cookie_pairs(value@),
{
    let parts = text::split_at_char(value, ';');
    let mut out: Vec<String> = Vec::new();
    let mut i: usize = 0;
    assert(text::views(out@) =~= nonblank(text::views(parts@).take(0)));
    while i < parts.len()
        invariant
            i <= parts@.len(),
            text::views(out@) == nonblank(text::views(parts@).take(i as int)),
        decreases parts@.len() - i,
    {
        let part = text::trim(&parts[i]);
        let ghost before = out@;
        assert(text::views(parts@).take(i + 1).drop_last() =~= text::views(parts@).take(i as int));
        if !part.as_str().is_empty() {
            out.push(part);
            assert(text::views(out@) =~= text::views(before).push(out@.last()@));
        }
        i += 1;
    }
    assert(text::views(parts@).take(i as int) =~= text::views(parts@));
    out
}

/// What a caller's headers give: the headers to send along, and the cookies to
/// put into the jar.
pub struct Gathered {
    pub fields: Map<Seq<char>, Seq<Seq<u8>>>,
    pub offered: Seq<(Seq<char>, Seq<u8>)>,
}

/// Cookies that come from `url`, ready for a jar.
pub open spec fn offers(url: Seq<char>, cookies: Seq<Seq<char>>) -> Seq<(Seq<char>, Seq<u8>)> {
    cookies.map_values(|c: Seq<char>| (url, vstd::utf8::encode_utf8(c)))
}

/// One more header of the caller. A `Cookie` header seeds the jar instead of
/// being sent as it is; every other header replaces an earlier one of its name.
pub open spec fn with_header(g: Gathered, url: Seq<char>, name: Seq<char>, value: Seq<char>) -> Result<
    Gathered,
    Fault,
> {
    let bytes = vstd::utf8::encode_utf8(value);
    if text::lowercase(name) == "cookie"@ {
        Ok(Gathered { offered: g.offered + offers(url, cookie_pairs(value)), ..g })
    } else if !http::is_header_name(name) {
        Err(Fault::HeaderName(name))
    } else if !http::is_header_value(bytes) {
        Err(Fault::HeaderValue(name))
    } else {
        Ok(Gathered { fields: g.fields.insert(text::lowercase(name), seq![bytes]), ..g })
    }
}

/// What the caller's headers give, or the fault of the first faulty one.
pub open spec fn gathered(headers: Seq<(Seq<char>, Seq<char>)>, url: Seq<char>) -> Result<
    Gathered,
    Fault,
>
    decreases headers.len(),
{
    if headers.len() == 0 {
        Ok(Gathered { fields: Map::empty(), offered: Seq::empty() })
    } else {
        match gathered(headers.drop_last(), url) {
            Ok(g) => with_header(g, url, headers.last().0, headers.last().1),
            Err(f) => Err(f),
        }
    }
}

/// The state between two hops.
pub struct ForwardView {
    pub method: Seq<char>,
    pub url: Seq<char>,
    pub fields: Map<Seq<char>, Seq<Seq<u8>>>,
    pub offered: Seq<(Seq<char>, Seq<u8>)>,
    pub body: Option<Seq<char>>,
    /// The number of redirects that were followed.
    pub followed: nat,
}

/// A request on its way: the method, URL, headers and body of the next hop and
/// the cookies of all hops so far.
pub struct Forward {
    method: String,
    url: String,
    headers: HeaderMap<HeaderValue>,
    jar: Jar,
    body: Option<String>,
    followed: usize,
}

/// The characters of an optional string.
pub open spec fn text_of(t: Option<String>) -> Option<Seq<char>> {
    match t {
        Some(s) => Some(s@),
        None => None,
    }
}

impl View for Forward {
    type V = ForwardView;

    closed spec fn view(&self) -> ForwardView {
        ForwardView {
            method: self.method@,
            url: self.url@,
            fields: http::header_fields(self.headers),
            offered: http::offered_cookies(self.jar),
            body: text_of(self.body),
            followed: self.followed as nat,
        }
    }
}

impl ForwardView {
    /// Between two hops no more than `MAX_REDIRECTS` redirects were followed,
    /// and there is no `Cookie` header among the caller's.
    pub open spec fn well_formed(&self) -> bool {
        &&& self.followed <= MAX_REDIRECTS
        &&& self.fields.dom().finite()
        &&& !self.fields.contains_key("cookie"@)
    }
}

/// The caller's headers, none if it gave none.
pub open spec fn request_headers(req: ProxyRequest) -> Seq<(Seq<char>, Seq<char>)> {
    match req.headers {
        Some(h) => header_list(h@),
        None => Seq::empty(),
    }
}

/// The first state of a forward, for a method in upper case and a URL in its
/// normal form, or the fault of the request.
pub open spec fn started(req: ProxyRequest, method: Seq<char>, url: Option<Seq<char>>) -> Result<
    ForwardView,
    Fault,
> {
    if !http::is_token(method) {
        Err(Fault::Method(req.method@))
    } else {
        match url {
            None => Err(Fault::Url(req.url@)),
            Some(u) => match gathered(request_headers(req), u) {
                Err(f) => Err(f),
                Ok(g) => Ok(
                    ForwardView {
                        method,
                        url: u,
                        fields: g.fields,
                        offered: g.offered,
                        body: text_of(req.body),
                        followed: 0,
                    },
                ),
            },
        }
    }
}

/// Whether a forward starts in the given state, or fails with the given fault.
pub open spec fn starts(r: Result<Forward, ForwardError>, s: Result<ForwardView, Fault>) -> bool {
    match (r, s) {
        (Ok(f), Ok(v)) => f@ == v,
        (Err(e), Err(f)) => e.is_fault(f),
        _ => false,
    }
}

/// The number of headers in a request.
pub open spec fn header_count(req: ProxyRequest) -> nat {
    request_headers(req).len()
}

/// Whether a request was refused for its number of headers, its method and URL
/// being sound. That happens to none with up to `http::HEADER_ROOM` headers.
pub open spec fn overflows(
    r: Result<Forward, ForwardError>,
    req: ProxyRequest,
    method: Seq<char>,
    url: Option<Seq<char>>,
) -> bool {
    &&& r matches Err(ForwardError::TooManyHeaders)
    &&& header_count(req) > http::HEADER_ROOM
    &&& http::is_token(method)
    &&& url is Some
}

proof fn lemma_gathered_bounds(headers: Seq<(Seq<char>, Seq<char>)>, url: Seq<char>)
    ensures
        gathered(headers, url) matches Ok(g) ==> {
            &&& g.fields.dom().finite()
            &&& g.fields.dom().len() <= headers.len()
            &&& !g.fields.contains_key("cookie"@)
        },
    decreases headers.len(),
{
    if headers.len() > 0 {
        lemma_gathered_bounds(headers.drop_last(), url);
    }
}

proof fn lemma_first_fault_stays(headers: Seq<(Seq<char>, Seq<char>)>, url: Seq<char>, k: int)
    requires
        0 <= k <= headers.len(),
        gathered(headers.take(k), url) is Err,
    ensures
        gathered(headers, url) == gathered(headers.take(k), url),
    decreases headers.len() - k,
{
    if k < headers.len() {
        assert(headers.take(k + 1).drop_last() =~= headers.take(k));
        lemma_first_fault_stays(headers, url, k + 1);
    } else {
        assert(headers.take(k) =~= headers);
    }
}

/// Puts the cookies of a `Cookie` header into a jar.
fn seed_jar(jar: &mut Jar, value: &str, url: &str)
    ensures
        http::offered_cookies(*final(jar)) == http::offered_cookies(*old(jar)) + offers(
            url@,
            cookie_pairs(value@),
        ),
{
    let pairs = split_cookies(value);
    let ghost start = http::offered_cookies(*jar);
    let ghost all = offers(url@, cookie_pairs(value@));
    let mut i: usize = 0;
    assert(start + all.take(0) =~= start);
    while i < pairs.len()
        invariant
            i <= pairs@.len(),
            text::views(pairs@) == cookie_pairs(value@),
            all == offers(url@, cookie_pairs(value@)),
            http::offered_cookies(*jar) == start + all.take(i as int),
        decreases pairs@.len() - i,
    {
        http::add_cookie(jar, &pairs[i], url);
        assert(text::views(pairs@)[i as int] == pairs@[i as int]@);
        assert(http::offered_cookies(*jar) =~= start + all.take(i + 1));
        i += 1;
    }
    assert(all.take(i as int) =~= all);
}

/// Gathers the headers to send along and the cookies of the caller.
fn gather(given: &Vec<(String, String)>, url: &str) -> (r: Result<
    (HeaderMap<HeaderValue>, Jar),
    ForwardError,
>)
    ensures
        match (r, gathered(header_list(given@), url@)) {
            (Err(ForwardError::TooManyHeaders), _) => given@.len() > http::HEADER_ROOM,
            (Ok((headers, jar)), Ok(g)) => http::header_fields(headers) == g.fields
                && http::offered_cookies(jar) == g.offered,
            (Err(e), Err(f)) => e.is_fault(f),
            _ => false,
        },
{
    let mut headers = http::new_headers();
    let mut jar = http::new_jar();
    let ghost list = header_list(given@);
    let mut i: usize = 0;
    proof {
        assert(http::header_fields(headers) =~= Map::empty());
        assert(http::offered_cookies(jar) =~= Seq::empty());
        lemma_own_names();
    }
    while i < given.len()
        invariant
            i <= given@.len(),
            list == header_list(given@),
            text::lowercase("cookie"@) == "cookie"@,
            gathered(list.take(i as int), url@) == Ok::<Gathered, Fault>(
                Gathered {
                    fields: http::header_fields(headers),
                    offered: http::offered_cookies(jar),
                },
            ),
        decreases given@.len() - i,
    {
        let name = &given[i].0;
        let value = &given[i].1;
        proof {
            assert(list[i as int] == (name@, value@));
            assert(list.take(i + 1).drop_last() =~= list.take(i as int));
            lemma_gathered_bounds(list.take(i as int), url@);
            if gathered(list.take(i + 1), url@) is Err {
                lemma_first_fault_stays(list, url@, i + 1);
            }
        }
        if text::same_ignoring_case(name, "cookie") {
            seed_jar(&mut jar, value, url);
        } else if http::parse_header_name(name).is_none() {
            return Err(ForwardError::InvalidHeaderName(name.clone()));
        } else {
            match http::parse_header_value(value) {
                Some(v) => {
                    if !http::insert_header(&mut headers, name, &v) {
                        return Err(ForwardError::TooManyHeaders);
                    }
                },
                None => {
                    return Err(ForwardError::InvalidHeaderValue(name.clone()));
                },
            }
        }
        i += 1;
    }
    assert(list.take(i as int) =~= list);
    Ok((headers, jar))
}

/// Starts a forward. `method` is the request's method in upper case, and `url`
/// is its URL in the normal form, if it is one.
pub fn start_with(req: ProxyRequest, method: String, url: Option<String>) -> (r: Result<
    Forward,
    ForwardError,
>)
    ensures
        starts(r, started(req, method@, text_of(url))) || overflows(r, req, method@, text_of(url)),
        r matches Ok(f) ==> f@.well_formed(),
{
    let method = match http::parse_method(&method) {
        Some(m) => m,
        None => {
            return Err(ForwardError::InvalidMethod(req.method));
        },
    };
    let url = match url {
        Some(u) => u,
        None => {
            return Err(ForwardError::InvalidUrl(req.url));
        },
    };
    let given: Vec<(String, String)> = match req.headers {
        Some(h) => h,
        None => Vec::new(),
    };
    proof {
        assert(header_list(given@) =~= request_headers(req));
        lemma_gathered_bounds(request_headers(req), url@);
    }
    match gather(&given, &url) {
        Ok((headers, jar)) => Ok(
            Forward { method, url, headers, jar, body: req.body, followed: 0 },
        ),
        Err(e) => Err(e),
    }
}

/// Starts a forward.
pub fn start(req: ProxyRequest) -> (r: Result<Forward, ForwardError>)
    ensures
        ({
            let method = text::uppercased(req.method@);
            let url = http::parsed_url(req.url@);
            starts(r, started(req, method, url)) || overflows(r, req, method, url)
        }),
        vstd::utf8::is_ascii_chars(req.method@) ==> text::uppercased(req.method@) == text::capitals(
            req.method@,
        ),
        r matches Ok(f) ==> f@.well_formed(),
{
    let method = text::uppercase(&req.method);
    let url = http::parse_url(&req.url);
    start_with(req, method, url)
}

/// The header names that the proxy itself knows are in small letters.
proof fn lemma_own_names()
    ensures
        text::lowercase("cookie"@) == "cookie"@,
        text::lowercase("content-type"@) == "content-type"@,
        text::lowercase("content-length"@) == "content-length"@,
        text::lowercase("authorization"@) == "authorization"@,
        text::lowercase("proxy-authorization"@) == "proxy-authorization"@,
        http::is_header_name("cookie"@),
{
    reveal_strlit("cookie");
    reveal_strlit("content-type");
    reveal_strlit("content-length");
    reveal_strlit("authorization");
    reveal_strlit("proxy-authorization");
    assert(text::lowercase("cookie"@) =~= "cookie"@);
    assert(text::lowercase("content-type"@) =~= "content-type"@);
    assert(text::lowercase("content-length"@) =~= "content-length"@);
    assert(text::lowercase("authorization"@) =~= "authorization"@);
    assert(text::lowercase("proxy-authorization"@) =~= "proxy-authorization"@);
}

// ---------------------------------------------------------------------------
// One hop
// ---------------------------------------------------------------------------

/// The request of one hop.
pub struct HopRequest {
    pub method: String,
    pub url: String,
    pub headers: HeaderMap<HeaderValue>,
    pub body: Option<String>,
}

/// The headers of a hop: those of the caller, and the jar's cookies.
pub open spec fn hop_fields(
    fields: Map<Seq<char>, Seq<Seq<u8>>>,
    cookie: Option<Seq<u8>>,
) -> Map<Seq<char>, Seq<Seq<u8>>> {
    match cookie {
        Some(c) => fields.insert("cookie"@, seq![c]),
        None => fields,
    }
}

/// Whether a request is that of the next hop, with the given cookies.
pub open spec fn is_hop_request(q: HopRequest, f: ForwardView, cookie: Option<Seq<u8>>) -> bool {
    &&& q.method@ == f.method
    &&& q.url@ == f.url
    &&& http::header_fields(q.headers) == hop_fields(f.fields, cookie)
    &&& text_of(q.body) == f.body
}

/// The reply to one hop: its status and its headers, whose names are in small
/// letters.
pub struct HopReply {
    pub status: u16,
    pub headers: Vec<(String, Vec<u8>)>,
}

/// The headers of a reply, as text and bytes.
pub open spec fn reply_fields(v: Seq<(String, Vec<u8>)>) -> Seq<(Seq<char>, Seq<u8>)> {
    v.map_values(|h: (String, Vec<u8>)| (h.0@, h.1@))
}

/// The first value under a name.
pub open spec fn first_value(fields: Seq<(Seq<char>, Seq<u8>)>, name: Seq<char>) -> Option<Seq<u8>>
    decreases fields.len(),
{
    if fields.len() == 0 {
        None
    } else if fields[0].0 == name {
        Some(fields[0].1)
    } else {
        first_value(fields.drop_first(), name)
    }
}

/// The cookies that a reply from `url` sets, ready for a jar.
pub open spec fn set_cookies(url: Seq<char>, fields: Seq<(Seq<char>, Seq<u8>)>) -> Seq<
    (Seq<char>, Seq<u8>),
>
    decreases fields.len(),
{
    if fields.len() == 0 {
        Seq::empty()
    } else {
        let rest = set_cookies(url, fields.drop_last());
        if fields.last().0 == "set-cookie"@ {
            rest.push((url, fields.last().1))
        } else {
            rest
        }
    }
}

/// A state with the cookies that the reply to its request sets.
pub open spec fn with_cookies(f: ForwardView, fields: Seq<(Seq<char>, Seq<u8>)>) -> ForwardView {
    ForwardView { offered: f.offered + set_cookies(f.url, fields), ..f }
}

/// Where a reply points to: the text of its first `Location` header.
pub open spec fn location(fields: Seq<(Seq<char>, Seq<u8>)>) -> Option<Seq<char>> {
    match first_value(fields, "location"@) {
        Some(v) => http::visible_text(v),
        None => None,
    }
}

pub open spec fn is_redirection(status: u16) -> bool {
    300 <= status < 400
}

/// Where a reply to a request for `url` redirects to, if it does.
pub open spec fn destination(url: Seq<char>, status: u16, fields: Seq<(Seq<char>, Seq<u8>)>) -> Option<
    Seq<char>,
> {
    match location(fields) {
        Some(l) if is_redirection(status) => http::joined_url(url, l),
        _ => None,
    }
}

/// Whether a redirect turns the request into a `GET`: 307 and 308 replay the
/// request; the others do so to a `POST`, and 303 to anything but a `HEAD`.
pub open spec fn becomes_get(status: u16, method: Seq<char>) -> bool {
    &&& status != 307
    &&& status != 308
    &&& (status == 303 && method != "HEAD"@) || method == "POST"@
}

/// The state behind a redirect to `next`, a URL of the same origin or not.
pub open spec fn redirected(f: ForwardView, status: u16, next: Seq<char>, same_origin: bool) -> ForwardView {
    let g = if becomes_get(status, f.method) {
        ForwardView {
            method: "GET"@,
            body: None,
            fields: f.fields.remove("content-type"@).remove("content-length"@),
            ..f
        }
    } else {
        f
    };
    let h = if same_origin {
        g
    } else {
        ForwardView {
            fields: g.fields.remove("authorization"@).remove("proxy-authorization"@),
            ..g
        }
    };
    ForwardView { url: next, followed: f.followed + 1, ..h }
}

/// The headers of a reply that can be read as text; the last one of a name
/// counts.
pub open spec fn shown_fields(fields: Seq<(Seq<char>, Seq<u8>)>) -> Map<Seq<char>, Seq<char>>
    decreases fields.len(),
{
    if fields.len() == 0 {
        Map::empty()
    } else {
        let rest = shown_fields(fields.drop_last());
        match http::visible_text(fields.last().1) {
            Some(t) => rest.insert(fields.last().0, t),
            None => rest,
        }
    }
}

/// Whether a list of headers holds what a map does, with each name once.
pub open spec fn lists(v: Seq<(String, String)>, m: Map<Seq<char>, Seq<char>>) -> bool {
    &&& forall|i: int, j: int| 0 <= i < j < v.len() ==> v[i].0@ != v[j].0@
    &&& forall|i: int|
        0 <= i < v.len() ==> m.contains_key((#[trigger] v[i]).0@) && m[v[i].0@] == v[i].1@
    &&& forall|k: Seq<char>| #[trigger]
        m.contains_key(k) ==> exists|i: int| 0 <= i < v.len() && (#[trigger] v[i]).0@ == k
}

/// The end of a forward, but for the body.
pub struct Landing {
    pub status: u16,
    pub headers: Vec<(String, String)>,
    pub url: String,
    pub cookie: Option<String>,
}

/// What follows a reply.
pub enum Next {
    /// The next hop.
    Again(Forward),
    /// The end; the body of the reply is still to be read.
    Landed(Landing),
}

/// The cookies for the caller: the jar's, if they can be read as text.
pub open spec fn shown_cookie(cookie: Option<Seq<u8>>) -> Option<Seq<char>> {
    match cookie {
        Some(c) => http::visible_text(c),
        None => None,
    }
}

/// Whether a forward that was at `url` ends with a reply as `l` says.
pub open spec fn lands(l: Landing, url: Seq<char>, reply: HopReply, cookie: Option<Seq<u8>>) -> bool {
    &&& l.status == reply.status
    &&& lists(l.headers@, shown_fields(reply_fields(reply.headers@)))
    &&& l.url@ == url
    &&& text_of(l.cookie) == shown_cookie(cookie)
}

/// Puts a header into a list that holds each name once.
fn put_field(v: &mut Vec<(String, String)>, name: &String, value: String, Ghost(m): Ghost<
    Map<Seq<char>, Seq<char>>,
>)
    requires
        lists(old(v)@, m),
    ensures
        lists(final(v)@, m.insert(name@, value@)),
{
    let mut i: usize = 0;
    while i < v.len()
        invariant
            i <= v@.len(),
            v@ == old(v)@,
            lists(v@, m),
            forall|k: int| 0 <= k < i ==> v@[k].0@ != name@,
        decreases v@.len() - i,
    {
        if v[i].0 == *name {
            let ghost before = v@;
            v.set(i, (name.clone(), value));
            proof {
                let n = m.insert(name@, value@);
                assert forall|k: Seq<char>| #[trigger] n.contains_key(k) implies exists|j: int|
                    0 <= j < v@.len() && (#[trigger] v@[j]).0@ == k by {
                    if k == name@ {
                        assert(v@[i as int].0@ == k);
                    } else {
                        assert(m.contains_key(k));
                        let j = choose|j: int| 0 <= j < before.len() && (#[trigger] before[j]).0@ == k;
                        assert(v@[j].0@ == k);
                    }
                }
                assert forall|j: int| 0 <= j < v@.len() implies n.contains_key((#[trigger] v@[j]).0@)
                    && n[v@[j].0@] == v@[j].1@ by {
                    if j != i {
                        assert(v@[j] == before[j]);
                        assert(before[j].0@ != before[i as int].0@);
                    }
                }
            }
            return;
        }
        i += 1;
    }
    let ghost before = v@;
    v.push((name.clone(), value));
    proof {
        let n = m.insert(name@, value@);
        assert forall|k: Seq<char>| #[trigger] n.contains_key(k) implies exists|j: int|
            0 <= j < v@.len() && (#[trigger] v@[j]).0@ == k by {
            if k == name@ {
                assert(v@[v@.len() - 1].0@ == k);
            } else {
                assert(m.contains_key(k));
                let j = choose|j: int| 0 <= j < before.len() && (#[trigger] before[j]).0@ == k;
                assert(v@[j].0@ == k);
            }
        }
    }
}

/// Lists the headers of a reply that can be read as text.
fn show_headers(headers: &Vec<(String, Vec<u8>)>) -> (r: Vec<(String, String)>)
    ensures
        lists(r@, shown_fields(reply_fields(headers@))),
{
    let mut out: Vec<(String, String)> = Vec::new();
    let ghost fields = reply_fields(headers@);
    let mut i: usize = 0;
    while i < headers.len()
        invariant
            i <= headers@.len(),
            fields == reply_fields(headers@),
            lists(out@, shown_fields(fields.take(i as int))),
        decreases headers@.len() - i,
    {
        assert(fields.take(i + 1).drop_last() =~= fields.take(i as int));
        if let Some(t) = http::value_text(&headers[i].1) {
            put_field(&mut out, &headers[i].0, t, Ghost(shown_fields(fields.take(i as int))));
        }
        i += 1;
    }
    assert(fields.take(i as int) =~= fields);
    out
}

/// Where a reply points to.
pub fn reply_location(headers: &Vec<(String, Vec<u8>)>) -> (r: Option<String>)
    ensures
        text_of(r) == location(reply_fields(headers@)),
{
    let ghost fields = reply_fields(headers@);
    let mut i: usize = 0;
    assert(fields.skip(0) =~= fields);
    while i < headers.len()
        invariant
            i <= headers@.len(),
            fields == reply_fields(headers@),
            first_value(fields, "location"@) == first_value(fields.skip(i as int), "location"@),
        decreases headers@.len() - i,
    {
        assert(fields.skip(i as int)[0] == (headers@[i as int].0@, headers@[i as int].1@));
        assert(fields.skip(i as int).drop_first() =~= fields.skip(i + 1));
        if text::same(&headers[i].0, "location") {
            return http::value_text(&headers[i].1);
        }
        i += 1;
    }
    None
}

impl Forward {
    /// The request of the next hop, with the jar's cookies for it. Where these
    /// are one header too many, the request cannot be made.
    pub fn request_with(&self, cookie: Option<Vec<u8>>) -> (r: Result<HopRequest, ForwardError>)
        requires
            self@.well_formed(),
            cookie matches Some(c) ==> http::is_header_value(c@),
        ensures
            match r {
                Ok(q) => is_hop_request(q, self@, http::bytes_of(cookie)),
                Err(e) => e is TooManyHeaders && cookie is Some && self@.fields.dom().len()
                    > http::HEADER_ROOM,
            },
    {
        let mut headers = http::clone_headers(&self.headers);
        if let Some(c) = &cookie {
            proof {
                lemma_own_names();
            }
            if !http::insert_header(&mut headers, "cookie", c) {
                return Err(ForwardError::TooManyHeaders);
            }
        }
        let body = match &self.body {
            Some(b) => Some(b.clone()),
            None => None,
        };
        Ok(HopRequest { method: self.method.clone(), url: self.url.clone(), headers, body })
    }

    /// The request of the next hop. Besides the caller's headers it has at most
    /// one more, a `Cookie` header with the jar's cookies for the URL.
    pub fn next_request(&self) -> (r: Result<HopRequest, ForwardError>)
        requires
            self@.well_formed(),
        ensures
            match r {
                Ok(q) => exists|cookie: Option<Seq<u8>>| #[trigger]
                    is_hop_request(q, self@, cookie) && http::may_answer(
                        self@.offered,
                        self@.url,
                        cookie,
                    ),
                Err(e) => e is TooManyHeaders && self@.fields.dom().len() > http::HEADER_ROOM,
            },
    {
        let cookie = http::cookies_for(&self.jar, &self.url);
        let ghost shown = http::bytes_of(cookie);
        let r = self.request_with(cookie);
        assert(r matches Ok(q) ==> is_hop_request(q, self@, shown));
        r
    }

    /// Puts the cookies that a reply sets into the jar.
    fn take_cookies(&mut self, headers: &Vec<(String, Vec<u8>)>)
        ensures
            final(self)@ == with_cookies(old(self)@, reply_fields(headers@)),
    {
        let ghost fields = reply_fields(headers@);
        let ghost start = self@.offered;
        let ghost before = self@;
        let mut i: usize = 0;
        assert(start + set_cookies(self@.url, fields.take(0)) =~= start);
        while i < headers.len()
            invariant
                i <= headers@.len(),
                fields == reply_fields(headers@),
                self@ == (ForwardView {
                    offered: start + set_cookies(before.url, fields.take(i as int)),
                    ..before
                }),
            decreases headers@.len() - i,
        {
            assert(fields.take(i + 1).drop_last() =~= fields.take(i as int));
            assert(fields.take(i + 1).last() == (headers@[i as int].0@, headers@[i as int].1@));
            if text::same(&headers[i].0, "set-cookie") {
                http::set_cookie(&mut self.jar, &headers[i].1, &self.url);
                assert(http::offered_cookies(self.jar) =~= start + set_cookies(
                    before.url,
                    fields.take(i + 1),
                ));
            }
            i += 1;
        }
        assert(fields.take(i as int) =~= fields);
    }

    /// Follows a redirect to `next`, which has the origin of this hop or not.
    pub fn follow(self, status: u16, next: String, same_origin: bool) -> (r: Result<
        Forward,
        ForwardError,
    >)
        requires
            self@.well_formed(),
        ensures
            match r {
                Ok(f) => self@.followed < MAX_REDIRECTS && f@ == redirected(
                    self@,
                    status,
                    next@,
                    same_origin,
                ) && f@.well_formed(),
                Err(e) => self@.followed == MAX_REDIRECTS && e is TooManyRedirects,
            },
    {
        if self.followed == MAX_REDIRECTS {
            return Err(ForwardError::TooManyRedirects);
        }
        let mut f = self;
        proof {
            lemma_own_names();
        }
        let replay = status == 307 || status == 308;
        if !replay && ((status == 303 && !text::same(&f.method, "HEAD")) || text::same(
            &f.method,
            "POST",
        )) {
            f.method = "GET".to_owned();
            f.body = None;
            http::remove_header(&mut f.headers, "content-type");
            http::remove_header(&mut f.headers, "content-length");
        }
        if !same_origin {
            http::remove_header(&mut f.headers, "authorization");
            http::remove_header(&mut f.headers, "proxy-authorization");
        }
        f.url = next;
        f.followed = f.followed + 1;
        Ok(f)
    }

    /// Ends a forward with a reply, given the jar's cookies for this hop's URL.
    pub fn land(self, reply: HopReply, cookie: Option<Vec<u8>>) -> (r: Landing)
        ensures
            lands(r, self@.url, reply, http::bytes_of(cookie)),
    {
        let headers = show_headers(&reply.headers);
        let cookie = match &cookie {
            Some(c) => http::value_text(c),
            None => None,
        };
        Landing { status: reply.status, headers, url: self.url, cookie }
    }

    /// Takes the reply to a hop. The cookies that it sets go into the jar; then
    /// a redirect is followed, as long as it is not one too many, and any other
    /// reply ends the forward.
    pub fn receive(self, reply: HopReply) -> (r: Result<Next, ForwardError>)
        requires
            self@.well_formed(),
        ensures
            ({
                let fields = reply_fields(reply.headers@);
                let f = with_cookies(self@, fields);
                match destination(self@.url, reply.status, fields) {
                    Some(next) => match r {
                        Ok(Next::Again(g)) => self@.followed < MAX_REDIRECTS && g@ == redirected(
                            f,
                            reply.status,
                            next,
                            http::one_origin(next, self@.url),
                        ) && g@.well_formed(),
                        Ok(Next::Landed(_)) => false,
                        Err(e) => self@.followed == MAX_REDIRECTS && e is TooManyRedirects,
                    },
                    None => match r {
                        Ok(Next::Landed(l)) => exists|cookie: Option<Seq<u8>>|
                            {
                                &&& #[trigger] lands(l, self@.url, reply, cookie)
                                &&& http::may_answer(f.offered, f.url, cookie)
                            },
                        _ => false,
                    },
                }
            }),
    {
        let mut f = self;
        f.take_cookies(&reply.headers);
        let next: Option<String> = match reply_location(&reply.headers) {
            Some(l) => if 300 <= reply.status && reply.status < 400 {
                http::join_url(&f.url, &l)
            } else {
                None
            },
            None => None,
        };
        match next {
            Some(next) => {
                let same = http::have_one_origin(&next, &f.url);
                match f.follow(reply.status, next, same) {
                    Ok(g) => Ok(Next::Again(g)),
                    Err(e) => Err(e),
                }
            },
            None => {
                let cookie = http::cookies_for(&f.jar, &f.url);
                let ghost shown = http::bytes_of(cookie);
                let l = f.land(reply, cookie);
                assert(lands(l, self@.url, reply, shown));
                Ok(Next::Landed(l))
            },
        }
    }
}

impl Landing {
    /// Completes the response with the body of the last reply.
    pub fn finish(self, body: Vec<u8>) -> (r: ProxyResponse)
        requires
            body@.len() <= usize::MAX / 4,
        ensures
            r.status == self.status,
            r.headers == self.headers,
            r.body@ == encoding::base64(body@),
            r.url == self.url,
            r.cookie == self.cookie,
    {
        ProxyResponse {
            status: self.status,
            headers: self.headers,
            body: encoding::encode_base64(&body),
            url: self.url,
            cookie: self.cookie,
        }
    }
}

// ---------------------------------------------------------------------------
// The answer to the caller
// ---------------------------------------------------------------------------

/// The host that a request is for, if its URL names one.
pub fn request_host(req: &ProxyRequest) -> (r: Option<String>)
    ensures
        text_of(r) == http::url_host(req.url@),
{
    http::host_of(&req.url)
}

/// The answer to the caller: a status, and the response or an error message.
pub struct Answer {
    pub status: u16,
    pub body: Result<ProxyResponse, String>,
}

/// Whether an entry of the error log notes a failed forward at a given time.
pub open spec fn notes_failure(
    entry: health::ErrorEntry,
    at: u64,
    host: Option<String>,
    e: ForwardError,
) -> bool {
    &&& entry.at == at
    &&& entry.source@ == "proxy"@
    &&& entry.kind@ == kind_of(e)
    &&& entry.host == host
    &&& entry.code is None
}

/// Concludes a forward: a response is handed on, and a failure is noted in the
/// log, with its label and the host, and told to the caller.
pub fn conclude_at(
    log: &mut health::ErrorLog,
    at: u64,
    host: Option<String>,
    result: Result<ProxyResponse, ForwardError>,
) -> (r: Answer)
    requires
        old(log).well_formed(),
    ensures
        final(log).well_formed(),
        match result {
            Ok(response) => {
                &&& r.status == 200
                &&& r.body == Ok::<ProxyResponse, String>(response)
                &&& final(log)@ == old(log)@
            },
            Err(e) => {
                &&& r.status == 502
                &&& r.body matches Err(m) && m@ == e.text()
                &&& exists|entry: health::ErrorEntry| #[trigger]
                    notes_failure(entry, at, host, e) && final(log)@ == health::latest(
                        old(log)@.push(entry),
                    )
            },
        },
{
    match result {
        Ok(response) => Answer { status: 200, body: Ok(response) },
        Err(e) => {
            let kind = error_kind(&e);
            let message = e.message();
            let ghost entry = health::ErrorEntry { at, source: "proxy", kind, host, code: None };
            health::record_at(log, at, "proxy", kind, host, None);
            assert(notes_failure(entry, at, host, e));
            Answer { status: 502, body: Err(message) }
        },
    }
}

// ---------------------------------------------------------------------------
// What holds of every chain of redirects
// ---------------------------------------------------------------------------

/// A redirect that was followed: the status and the headers of the reply, and
/// where it led.
pub struct Hop {
    pub status: u16,
    pub fields: Seq<(Seq<char>, Seq<u8>)>,
    pub next: Seq<char>,
}

/// The state behind a chain of redirects.
pub open spec fn behind(f: ForwardView, hops: Seq<Hop>) -> ForwardView
    decreases hops.len(),
{
    if hops.len() == 0 {
        f
    } else {
        let before = behind(f, hops.drop_last());
        let hop = hops.last();
        redirected(
            with_cookies(before, hop.fields),
            hop.status,
            hop.next,
            http::one_origin(hop.next, before.url),
        )
    }
}

/// Whether redirect `k` of a chain leads to another origin.
pub open spec fn leaves_origin(f: ForwardView, hops: Seq<Hop>, k: int) -> bool {
    !http::one_origin(hops[k].next, behind(f, hops.take(k)).url)
}

/// Credentials that the caller set never follow to another origin: behind a
/// chain that left the origin anywhere, no request carries them.
pub proof fn credentials_stay_with_their_origin(f: ForwardView, hops: Seq<Hop>, k: int)
    requires
        0 <= k < hops.len(),
        leaves_origin(f, hops, k),
    ensures
        !behind(f, hops).fields.contains_key("authorization"@),
        !behind(f, hops).fields.contains_key("proxy-authorization"@),
    decreases hops.len(),
{
    if k < hops.len() - 1 {
        assert(hops.drop_last()[k] == hops[k]);
        assert(hops.drop_last().take(k) =~= hops.take(k));
        credentials_stay_with_their_origin(f, hops.drop_last(), k);
    } else {
        assert(hops.take(k) =~= hops.drop_last());
    }
}

/// Credentials that the caller set are kept along a chain that stays within
/// their origin.
pub proof fn credentials_follow_within_their_origin(f: ForwardView, hops: Seq<Hop>, name: Seq<char>)
    requires
        forall|k: int| 0 <= k < hops.len() ==> !#[trigger] leaves_origin(f, hops, k),
        name == "authorization"@ || name == "proxy-authorization"@,
        f.fields.contains_key(name),
    ensures
        behind(f, hops).fields.contains_key(name),
        behind(f, hops).fields[name] == f.fields[name],
    decreases hops.len(),
{
    if hops.len() > 0 {
        let rest = hops.drop_last();
        assert forall|k: int| 0 <= k < rest.len() implies !#[trigger] leaves_origin(f, rest, k) by {
            assert(rest[k] == hops[k]);
            assert(rest.take(k) =~= hops.take(k));
            assert(!leaves_origin(f, hops, k));
        }
        credentials_follow_within_their_origin(f, rest, name);
        assert(hops.take(hops.len() - 1) =~= rest);
        assert(!leaves_origin(f, hops, hops.len() - 1));
        reveal_strlit("authorization");
        reveal_strlit("proxy-authorization");
        reveal_strlit("content-type");
        reveal_strlit("content-length");
        assert("authorization"@[0] == 'a');
        assert("proxy-authorization"@[0] == 'p');
        assert("content-type"@[0] == 'c');
        assert("content-length"@[0] == 'c');
    }
}

/// Redirects only take headers away: each header that a later request carries,
/// but for the jar's cookies, is one of the caller's, with its value.
pub proof fn redirects_add_no_header(f: ForwardView, hops: Seq<Hop>)
    ensures
        behind(f, hops).fields.submap_of(f.fields),
    decreases hops.len(),
{
    if hops.len() > 0 {
        let rest = hops.drop_last();
        redirects_add_no_header(f, rest);
        let before = behind(f, rest).fields;
        let after = behind(f, hops).fields;
        assert forall|name: Seq<char>| #[trigger] after.contains_key(name) implies f.fields.contains_key(
            name,
        ) && f.fields[name] == after[name] by {
            assert(before.contains_key(name));
        }
    }
}

/// A chain stays below its limit, so at most `MAX_REDIRECTS + 1` requests are
/// sent for one of the caller.
pub proof fn redirects_are_bounded(f: ForwardView, hops: Seq<Hop>)
    requires
        behind(f, hops).well_formed(),
    ensures
        behind(f, hops).followed == f.followed + hops.len(),
        hops.len() <= MAX_REDIRECTS,
{
    lemma_followed(f, hops);
}

proof fn lemma_followed(f: ForwardView, hops: Seq<Hop>)
    ensures
        behind(f, hops).followed == f.followed + hops.len(),
    decreases hops.len(),
{
    if hops.len() > 0 {
        lemma_followed(f, hops.drop_last());
    }
}

/// 307 and 308 replay the request: method and body stay, and so do all headers
/// as long as the origin stays.
pub proof fn replays_keep_the_request(f: ForwardView, status: u16, next: Seq<char>, same_origin: bool)
    requires
        status == 307 || status == 308,
    ensures
        redirected(f, status, next, same_origin).method == f.method,
        redirected(f, status, next, same_origin).body == f.body,
        same_origin ==> redirected(f, status, next, same_origin).fields == f.fields,
{
}

/// 301 and 302 turn a `POST` into a `GET` without a body and keep any other
/// request.
pub proof fn moves_turn_post_into_get(f: ForwardView, status: u16, next: Seq<char>, same_origin: bool)
    requires
        status == 301 || status == 302,
    ensures
        f.method == "POST"@ ==> redirected(f, status, next, same_origin).method == "GET"@
            && redirected(f, status, next, same_origin).body is None,
        f.method != "POST"@ ==> redirected(f, status, next, same_origin).method == f.method
            && redirected(f, status, next, same_origin).body == f.body,
{
}

/// 303 turns anything but a `HEAD` into a `GET` without a body.
pub proof fn see_other_turns_into_get(f: ForwardView, next: Seq<char>, same_origin: bool)
    ensures
        f.method != "HEAD"@ ==> redirected(f, 303, next, same_origin).method == "GET"@
            && redirected(f, 303, next, same_origin).body is None,
        f.method == "HEAD"@ ==> redirected(f, 303, next, same_origin).method == "HEAD"@
            && redirected(f, 303, next, same_origin).body == f.body,
{
    reveal_strlit("HEAD");
    reveal_strlit("POST");
    assert("HEAD"@[0] != "POST"@[0]);
}

/// A request that lost its body has no header that describes one.
pub proof fn lost_body_is_not_described(f: ForwardView, status: u16, next: Seq<char>, same_origin: bool)
    requires
        f.body is Some,
        redirected(f, status, next, same_origin).body is None,
    ensures
        !redirected(f, status, next, same_origin).fields.contains_key("content-type"@),
        !redirected(f, status, next, same_origin).fields.contains_key("content-length"@),
{
}

/// The caller's `Cookie` header is not sent as it is, whatever its case: no
/// state of the chain has one among its headers. A request that has one got it
/// from the jar.
pub proof fn caller_cookie_is_not_sent(
    req: ProxyRequest,
    method: Seq<char>,
    url: Seq<char>,
    hops: Seq<Hop>,
)
    ensures
        started(req, method, Some(url)) matches Ok(f) ==> !behind(f, hops).fields.contains_key(
            "cookie"@,
        ),
{
    lemma_gathered_bounds(request_headers(req), url);
    if let Ok(f) = started(req, method, Some(url)) {
        redirects_add_no_header(f, hops);
    }
}

/// A text without a semicolon is encoded without one.
proof fn lemma_encodes_plainly(s: Seq<char>)
    requires
        !s.contains(';'),
    ensures
        http::is_plain_cookie(vstd::utf8::encode_utf8(s)),
    decreases s.len(),
{
    if s.len() > 0 {
        let rest = s.drop_first();
        assert forall|i: int| 0 <= i < rest.len() implies rest[i] != ';' by {
            assert(rest[i] == s[i + 1]);
        }
        lemma_encodes_plainly(rest);
        let c = s[0] as u32;
        assert(s[0] != ';');
        vstd::utf8::char_is_scalar(s[0]);
        vstd::utf8::char_u32_cast(s[0], c);
        assert(c != 59) by {
            assert(59u32 as char == ';');
        }
        assert(c <= 0x7f && c != 59 ==> (c & 0x7f) as u8 != 59) by (bit_vector);
        assert((0xc0u8 | ((c >> 6) & 0x1f) as u8) != 59) by (bit_vector);
        assert((0xe0u8 | ((c >> 12) & 0x0f) as u8) != 59) by (bit_vector);
        assert((0xf0u8 | ((c >> 18) & 0x7) as u8) != 59) by (bit_vector);
        assert((0x80u8 | (c & 0x3f) as u8) != 59) by (bit_vector);
        assert((0x80u8 | ((c >> 6) & 0x3f) as u8) != 59) by (bit_vector);
        assert((0x80u8 | ((c >> 12) & 0x3f) as u8) != 59) by (bit_vector);
        assert(http::is_plain_cookie(vstd::utf8::encode_scalar(c)));
    }
}

proof fn lemma_pairs_hold_no_separator(parts: Seq<Seq<char>>)
    requires
        forall|i: int| 0 <= i < parts.len() ==> !(#[trigger] parts[i]).contains(';'),
    ensures
        forall|i: int| 0 <= i < nonblank(parts).len() ==> !(#[trigger] nonblank(parts)[i]).contains(';'),
    decreases parts.len(),
{
    if parts.len() > 0 {
        let rest = parts.drop_last();
        assert forall|i: int| 0 <= i < rest.len() implies !(#[trigger] rest[i]).contains(';') by {
            assert(rest[i] == parts[i]);
        }
        lemma_pairs_hold_no_separator(rest);
        let last = parts.last();
        assert(!last.contains(';')) by {
            assert(last == parts[parts.len() - 1]);
        }
        text::trimming_takes_only_white_space(last);
        let (from, to) = choose|from: int, to: int|
            0 <= from <= to <= last.len() && text::trimmed(last) == #[trigger] last.subrange(from, to);
        assert forall|j: int| 0 <= j < text::trimmed(last).len() implies text::trimmed(last)[j] != ';' by {
            assert(text::trimmed(last)[j] == last[from + j]);
        }
        assert forall|i: int| 0 <= i < nonblank(parts).len() implies !(#[trigger] nonblank(
            parts,
        )[i]).contains(';') by {
            if i < nonblank(rest).len() {
                assert(nonblank(parts)[i] == nonblank(rest)[i]);
            }
        }
    }
}

/// All cookies of the caller have no attributes and come from the request's URL.
proof fn lemma_caller_cookies(headers: Seq<(Seq<char>, Seq<char>)>, url: Seq<char>)
    ensures
        gathered(headers, url) matches Ok(g) ==> forall|i: int|
            0 <= i < g.offered.len() ==> (#[trigger] g.offered[i]).0 == url && http::is_plain_cookie(
                g.offered[i].1,
            ),
    decreases headers.len(),
{
    if headers.len() > 0 {
        lemma_caller_cookies(headers.drop_last(), url);
        let value = headers.last().1;
        let pairs = cookie_pairs(value);
        text::split_parts_hold_no_separator(value, ';');
        lemma_pairs_hold_no_separator(text::split(value, ';'));
        assert forall|i: int| 0 <= i < offers(url, pairs).len() implies (#[trigger] offers(
            url,
            pairs,
        )[i]).0 == url && http::is_plain_cookie(offers(url, pairs)[i].1) by {
            lemma_encodes_plainly(pairs[i]);
        }
    }
}

/// What was offered before a chain stays offered behind it, in its place.
proof fn lemma_offers_stay(f: ForwardView, hops: Seq<Hop>, n: int)
    requires
        0 <= n <= hops.len(),
    ensures
        behind(f, hops.take(n)).offered.is_prefix_of(behind(f, hops).offered),
    decreases hops.len(),
{
    if n == hops.len() {
        assert(hops.take(n) =~= hops);
    } else {
        let rest = hops.drop_last();
        assert(rest.take(n) =~= hops.take(n));
        lemma_offers_stay(f, rest, n);
        assert(behind(f, rest).offered.is_prefix_of(behind(f, hops).offered));
    }
}

proof fn lemma_set_cookies_hold(url: Seq<char>, fields: Seq<(Seq<char>, Seq<u8>)>, m: int)
    requires
        0 <= m < fields.len(),
        fields[m].0 == "set-cookie"@,
    ensures
        set_cookies(url, fields).contains((url, fields[m].1)),
    decreases fields.len(),
{
    let rest = fields.drop_last();
    if m < rest.len() {
        assert(rest[m] == fields[m]);
        lemma_set_cookies_hold(url, rest, m);
        let i = choose|i: int|
            0 <= i < set_cookies(url, rest).len() && set_cookies(url, rest)[i] == (url, fields[m].1);
        assert(set_cookies(url, fields)[i] == (url, fields[m].1));
    } else {
        let all = set_cookies(url, fields);
        assert(all[all.len() - 1] == (url, fields[m].1));
    }
}

/// What hop `n` set is offered behind the chain.
proof fn lemma_hop_offers(f: ForwardView, hops: Seq<Hop>, n: int, m: int)
    requires
        0 <= n < hops.len(),
        0 <= m < hops[n].fields.len(),
        hops[n].fields[m].0 == "set-cookie"@,
    ensures
        behind(f, hops).offered.contains(
            (behind(f, hops.take(n)).url, hops[n].fields[m].1),
        ),
{
    let before = behind(f, hops.take(n));
    let set = set_cookies(before.url, hops[n].fields);
    let offer = (before.url, hops[n].fields[m].1);
    lemma_set_cookies_hold(before.url, hops[n].fields, m);
    let i = choose|i: int| 0 <= i < set.len() && set[i] == offer;
    assert(hops.take(n + 1).drop_last() =~= hops.take(n));
    assert(hops.take(n + 1).last() == hops[n]);
    let after = behind(f, hops.take(n + 1));
    assert(after.offered == before.offered + set);
    assert(after.offered[before.offered.len() + i] == offer);
    lemma_offers_stay(f, hops, n + 1);
    assert(behind(f, hops).offered[before.offered.len() + i] == offer);
}

/// The cookies of the caller are offered at the start.
proof fn lemma_caller_offers(
    headers: Seq<(Seq<char>, Seq<char>)>,
    url: Seq<char>,
    h: int,
    p: int,
)
    requires
        0 <= h < headers.len(),
        text::lowercase(headers[h].0) == "cookie"@,
        0 <= p < cookie_pairs(headers[h].1).len(),
        gathered(headers, url) is Ok,
    ensures
        gathered(headers, url)->Ok_0.offered.contains(
            (url, vstd::utf8::encode_utf8(cookie_pairs(headers[h].1)[p])),
        ),
    decreases headers.len(),
{
    let rest = headers.drop_last();
    let before = gathered(rest, url)->Ok_0.offered;
    let after = gathered(headers, url)->Ok_0.offered;
    let offer = (url, vstd::utf8::encode_utf8(cookie_pairs(headers[h].1)[p]));
    if h < rest.len() {
        assert(rest[h] == headers[h]);
        lemma_caller_offers(rest, url, h, p);
        let i = choose|i: int| 0 <= i < before.len() && before[i] == offer;
        assert(after[i] == offer);
    } else {
        assert(headers.last() == headers[h]);
        assert(after[before.len() + p] == offer);
    }
}

/// The last place of an offer.
proof fn lemma_last_place(offered: Seq<(Seq<char>, Seq<u8>)>, offer: (Seq<char>, Seq<u8>)) -> (r: int)
    requires
        offered.contains(offer),
    ensures
        0 <= r < offered.len(),
        offered[r] == offer,
        forall|j: int| r < j < offered.len() ==> #[trigger] offered[j] != offer,
    decreases offered.len(),
{
    let rest = offered.drop_last();
    if offered.last() == offer {
        offered.len() - 1
    } else {
        let i = choose|i: int| 0 <= i < offered.len() && offered[i] == offer;
        assert(rest[i] == offer);
        let r = lemma_last_place(rest, offer);
        assert forall|j: int| r < j < offered.len() implies #[trigger] offered[j] != offer by {
            if j < rest.len() {
                assert(rest[j] == offered[j]);
            }
        }
        r
    }
}

/// Whether `v`, with its equals sign at `k`, is a session cookie from `from`
/// that was offered, is to be sent to `url`, and that nothing else which was
/// offered may have replaced.
pub open spec fn is_kept_for(
    offered: Seq<(Seq<char>, Seq<u8>)>,
    from: Seq<char>,
    v: Seq<u8>,
    k: int,
    url: Seq<char>,
) -> bool {
    &&& offered.contains((from, v))
    &&& http::is_cookie_at(v, k)
    &&& http::is_web_url(from)
    &&& http::is_meant_for((from, v), url)
    &&& http::suits(v, url)
    &&& forall|j: int|
        0 <= j < offered.len() && http::may_replace(
            #[trigger] offered[j],
            (from, v),
            http::head(v).take(k),
        ) ==> offered[j] == (from, v)
}

/// A jar lists every cookie that it keeps for a URL.
proof fn lemma_kept_is_listed(
    offered: Seq<(Seq<char>, Seq<u8>)>,
    from: Seq<char>,
    v: Seq<u8>,
    k: int,
    url: Seq<char>,
    picked: Seq<int>,
    items: Seq<Seq<u8>>,
)
    requires
        is_kept_for(offered, from, v, k, url),
        http::may_list(offered, url, picked, items),
    ensures
        items.contains(http::head(v)),
{
    let i = lemma_last_place(offered, (from, v));
    assert forall|j: int| i < j < offered.len() implies !http::may_replace(
        #[trigger] offered[j],
        (from, v),
        http::head(v).take(k),
    ) by {
        assert(offered[j] != (from, v));
    }
    assert(http::lasts(offered, i, k));
    let n = choose|n: int| 0 <= n < picked.len() && picked[n] == i;
    assert(http::may_show(offered, url, picked[n], items[n]));
    assert(http::is_cookie(v));
    assert(items[n] == http::head(v));
}

/// Whether a request has a `Cookie` header that lists the given items.
pub open spec fn sends_cookies(q: HopRequest, items: Seq<Seq<u8>>) -> bool {
    &&& http::header_fields(q.headers).contains_key("cookie"@)
    &&& http::header_fields(q.headers)["cookie"@] == seq![http::cookie_list(items)]
}

/// Cookies are sent back: every session cookie that the jar keeps for the URL of
/// a request is in its `Cookie` header, whether the caller or a hop brought it,
/// and however many others there are.
pub proof fn kept_cookies_are_sent(
    f: ForwardView,
    from: Seq<char>,
    v: Seq<u8>,
    k: int,
    q: HopRequest,
    cookie: Option<Seq<u8>>,
)
    requires
        is_kept_for(f.offered, from, v, k, f.url),
        http::can_be_sent(f.offered),
        is_hop_request(q, f, cookie),
        http::may_answer(f.offered, f.url, cookie),
    ensures
        exists|items: Seq<Seq<u8>>| #[trigger]
            sends_cookies(q, items) && items.contains(http::head(v)),
{
    let (picked, items) = choose|picked: Seq<int>, items: Seq<Seq<u8>>| #[trigger]
        http::may_list(f.offered, f.url, picked, items) && (cookie == http::cookie_value(items) || (
        cookie is None && !http::can_be_sent(f.offered)));
    lemma_kept_is_listed(f.offered, from, v, k, f.url, picked, items);
    assert(sends_cookies(q, items));
}

/// A cookie without attributes suits every scheme.
proof fn lemma_plain_suits(v: Seq<u8>, url: Seq<char>)
    requires
        http::is_plain_cookie(v),
    ensures
        http::suits(v, url),
{
    if let Some(t) = http::visible_text(v) {
        assert forall|i: int| 0 <= i < t.len() implies t[i] != ';' by {
            assert(v[i] != 59);
            assert(t[i] == v[i] as char);
        }
        text::split_keeps_whole(t, ';');
        assert(http::attributes(t).len() == 0);
    }
}

/// The caller's cookies are sent: each pair of a `Cookie` header of the caller
/// is in the request of every hop to the host of the first URL, within its
/// directory, as long as no other cookie of that name was brought for it. The
/// hops may set cookies of their own.
pub proof fn caller_cookies_are_sent(
    req: ProxyRequest,
    method: Seq<char>,
    url: Seq<char>,
    hops: Seq<Hop>,
    h: int,
    p: int,
    k: int,
    q: HopRequest,
    cookie: Option<Seq<u8>>,
)
    requires
        0 <= h < request_headers(req).len(),
        text::lowercase(request_headers(req)[h].0) == "cookie"@,
        0 <= p < cookie_pairs(request_headers(req)[h].1).len(),
        http::is_web_url(url),
        started(req, method, Some(url)) matches Ok(f) && {
            let v = vstd::utf8::encode_utf8(cookie_pairs(request_headers(req)[h].1)[p]);
            let g = behind(f, hops);
            &&& http::is_pair_at(v, k)
            &&& http::is_meant_for((url, v), g.url)
            &&& forall|j: int|
                0 <= j < g.offered.len() && http::may_replace(
                    #[trigger] g.offered[j],
                    (url, v),
                    v.take(k),
                ) ==> g.offered[j] == (url, v)
            &&& http::can_be_sent(g.offered)
            &&& is_hop_request(q, g, cookie)
            &&& http::may_answer(g.offered, g.url, cookie)
        },
    ensures
        exists|items: Seq<Seq<u8>>| #[trigger]
            sends_cookies(q, items) && items.contains(
                vstd::utf8::encode_utf8(cookie_pairs(request_headers(req)[h].1)[p]),
            ),
{
    if let Ok(f) = started(req, method, Some(url)) {
        let v = vstd::utf8::encode_utf8(cookie_pairs(request_headers(req)[h].1)[p]);
        let g = behind(f, hops);
        lemma_caller_offers(request_headers(req), url, h, p);
        let i = choose|i: int| 0 <= i < f.offered.len() && f.offered[i] == (url, v);
        assert(hops.take(0) =~= Seq::empty());
        lemma_offers_stay(f, hops, 0);
        assert(g.offered[i] == (url, v));
        lemma_caller_cookies(request_headers(req), url);
        assert(http::is_plain_cookie(v));
        http::plain_cookies_are_all_head(v);
        lemma_plain_suits(v, g.url);
        kept_cookies_are_sent(g, url, v, k, q, cookie);
    }
}

/// The cookies that a hop sets are sent: a session cookie that the reply to hop
/// `n` sets is in the request of every later hop to its host, within its
/// directory, as long as the scheme suits it and no other cookie of that name
/// was brought for it.
pub proof fn hop_cookies_are_sent(
    f: ForwardView,
    hops: Seq<Hop>,
    n: int,
    m: int,
    k: int,
    q: HopRequest,
    cookie: Option<Seq<u8>>,
)
    requires
        0 <= n < hops.len(),
        0 <= m < hops[n].fields.len(),
        hops[n].fields[m].0 == "set-cookie"@,
        http::is_cookie_at(hops[n].fields[m].1, k),
        ({
            let from = behind(f, hops.take(n)).url;
            let v = hops[n].fields[m].1;
            let g = behind(f, hops);
            &&& http::is_web_url(from)
            &&& http::is_meant_for((from, v), g.url)
            &&& http::suits(v, g.url)
            &&& forall|j: int|
                0 <= j < g.offered.len() && http::may_replace(
                    #[trigger] g.offered[j],
                    (from, v),
                    http::head(v).take(k),
                ) ==> g.offered[j] == (from, v)
            &&& http::can_be_sent(g.offered)
            &&& is_hop_request(q, g, cookie)
            &&& http::may_answer(g.offered, g.url, cookie)
        }),
    ensures
        exists|items: Seq<Seq<u8>>| #[trigger]
            sends_cookies(q, items) && items.contains(http::head(hops[n].fields[m].1)),
{
    lemma_hop_offers(f, hops, n, m);
    kept_cookies_are_sent(
        behind(f, hops),
        behind(f, hops.take(n)).url,
        hops[n].fields[m].1,
        k,
        q,
        cookie,
    );
}

/// The caller's cookies stay with their host: whatever a request to another host
/// has in its `Cookie` header was set by the hops. `picked` tells which offers
/// are listed; those of the caller are the first `f.offered.len()`.
pub proof fn caller_cookies_stay_with_their_host(
    req: ProxyRequest,
    method: Seq<char>,
    url: Seq<char>,
    hops: Seq<Hop>,
    picked: Seq<int>,
    items: Seq<Seq<u8>>,
)
    requires
        started(req, method, Some(url)) matches Ok(f) && {
            &&& http::url_host(behind(f, hops).url) != http::url_host(url)
            &&& http::may_list(behind(f, hops).offered, behind(f, hops).url, picked, items)
        },
    ensures
        started(req, method, Some(url)) matches Ok(f) && forall|n: int|
            0 <= n < picked.len() ==> f.offered.len() <= #[trigger] picked[n],
{
    if let Ok(f) = started(req, method, Some(url)) {
        let g = behind(f, hops);
        lemma_caller_cookies(request_headers(req), url);
        assert(hops.take(0) =~= Seq::empty());
        lemma_offers_stay(f, hops, 0);
        assert forall|n: int| 0 <= n < picked.len() implies f.offered.len() <= #[trigger] picked[n] by {
            assert(http::may_show(g.offered, g.url, picked[n], items[n]));
            if picked[n] < f.offered.len() {
                assert(g.offered[picked[n]] == f.offered[picked[n]]);
            }
        }
    }
}

/// Where the hops set no cookie, a request to another host than the first has
/// no `Cookie` header.
pub proof fn other_hosts_get_no_cookie(
    req: ProxyRequest,
    method: Seq<char>,
    url: Seq<char>,
    hops: Seq<Hop>,
    q: HopRequest,
    cookie: Option<Seq<u8>>,
)
    requires
        started(req, method, Some(url)) matches Ok(f) && {
            &&& behind(f, hops).offered == f.offered
            &&& http::url_host(behind(f, hops).url) != http::url_host(url)
            &&& is_hop_request(q, behind(f, hops), cookie)
            &&& http::may_answer(behind(f, hops).offered, behind(f, hops).url, cookie)
        },
    ensures
        !http::header_fields(q.headers).contains_key("cookie"@),
{
    if let Ok(f) = started(req, method, Some(url)) {
        let g = behind(f, hops);
        let (picked, items) = choose|picked: Seq<int>, items: Seq<Seq<u8>>| #[trigger]
            http::may_list(g.offered, g.url, picked, items) && (cookie == http::cookie_value(items)
                || (cookie is None && !http::can_be_sent(g.offered)));
        caller_cookies_stay_with_their_host(req, method, url, hops, picked, items);
        caller_cookie_is_not_sent(req, method, url, hops);
        if picked.len() > 0 {
            assert(http::may_show(g.offered, g.url, picked[0], items[0]));
        }
    }
}

/// Whether all that was offered can be read as text.
pub open spec fn can_be_shown(offered: Seq<(Seq<char>, Seq<u8>)>) -> bool {
    forall|i: int|
        0 <= i < offered.len() ==> http::visible_text((#[trigger] offered[i]).1) is Some
}

proof fn lemma_list_is_visible(items: Seq<Seq<u8>>)
    requires
        forall|n: int| 0 <= n < items.len() ==> http::visible_text(#[trigger] items[n]) is Some,
    ensures
        http::visible_text(http::cookie_list(items)) is Some,
    decreases items.len(),
{
    if items.len() == 1 {
        assert(http::visible_text(items[0]) is Some);
    } else if items.len() > 1 {
        let rest = items.drop_last();
        assert forall|n: int| 0 <= n < rest.len() implies http::visible_text(
            #[trigger] rest[n],
        ) is Some by {
            assert(rest[n] == items[n]);
        }
        lemma_list_is_visible(rest);
        let list = http::cookie_list(items);
        let head = http::cookie_list(rest);
        assert(http::visible_text(items[items.len() - 1]) is Some);
        assert forall|i: int| 0 <= i < list.len() implies http::is_visible(#[trigger] list[i]) by {
            if i < head.len() {
                assert(list[i] == head[i]);
            } else if i >= head.len() + 2 {
                assert(list[i] == items.last()[i - head.len() - 2]);
            }
        }
    }
}

proof fn lemma_items_are_visible(
    offered: Seq<(Seq<char>, Seq<u8>)>,
    url: Seq<char>,
    i: int,
    item: Seq<u8>,
)
    requires
        can_be_shown(offered),
        http::may_show(offered, url, i, item),
    ensures
        http::visible_text(item) is Some,
{
    let v = offered[i].1;
    assert(http::visible_text(v) is Some);
    let (a, b, k, c, d) = choose|a: int, b: int, k: int, c: int, d: int|
        http::is_cut_at(v, item, a, b, k, c, d);
    assert forall|n: int| 0 <= n < item.len() implies http::is_visible(#[trigger] item[n]) by {
        if n < b - a {
            assert(item[n] == v[a + n]);
        } else if n > b - a {
            assert(item[n] == v[c + (n - (b - a) - 1)]);
        }
    }
}

/// Every cookie that is kept survives: the caller gets each session cookie that
/// the jar keeps for the last URL, those of the last reply among them, in one
/// text.
pub proof fn landing_shows_kept_cookies(
    f: ForwardView,
    reply: HopReply,
    l: Landing,
    from: Seq<char>,
    v: Seq<u8>,
    k: int,
    cookie: Option<Seq<u8>>,
)
    requires
        ({
            let g = with_cookies(f, reply_fields(reply.headers@));
            &&& is_kept_for(g.offered, from, v, k, f.url)
            &&& can_be_shown(g.offered)
            &&& lands(l, f.url, reply, cookie)
            &&& http::may_answer(g.offered, f.url, cookie)
        }),
    ensures
        exists|items: Seq<Seq<u8>>| #[trigger]
            items.contains(http::head(v)) && l.cookie is Some && http::visible_text(http::cookie_list(items))
                == Some(l.cookie->0@),
{
    let g = with_cookies(f, reply_fields(reply.headers@));
    let (picked, items) = choose|picked: Seq<int>, items: Seq<Seq<u8>>| #[trigger]
        http::may_list(g.offered, f.url, picked, items) && (cookie == http::cookie_value(items) || (
        cookie is None && !http::can_be_sent(g.offered)));
    assert forall|i: int| 0 <= i < g.offered.len() implies http::is_header_value(
        (#[trigger] g.offered[i]).1,
    ) by {
        let w = g.offered[i].1;
        assert(http::visible_text(w) is Some);
        assert forall|n: int| 0 <= n < w.len() implies http::is_value_byte(#[trigger] w[n]) by {
            assert(http::is_visible(w[n]));
        }
    }
    lemma_kept_is_listed(g.offered, from, v, k, f.url, picked, items);
    assert forall|n: int| 0 <= n < items.len() implies http::visible_text(
        #[trigger] items[n],
    ) is Some by {
        assert(http::may_show(g.offered, f.url, picked[n], items[n]));
        lemma_items_are_visible(g.offered, f.url, picked[n], items[n]);
    }
    lemma_list_is_visible(items);
}

/// Whether two failures are of the same kind, whatever they say.
pub open spec fn alike(a: ForwardError, b: ForwardError) -> bool {
    match (a, b) {
        (ForwardError::Transport(x), ForwardError::Transport(y)) => {
            &&& x.timeout == y.timeout
            &&& x.connect == y.connect
            &&& x.body == y.body
            &&& x.decode == y.decode
        },
        (ForwardError::TooManyRedirects, ForwardError::TooManyRedirects) => true,
        (ForwardError::Transport(_), _) => false,
        (_, ForwardError::Transport(_)) => false,
        (ForwardError::TooManyRedirects, _) => false,
        (_, ForwardError::TooManyRedirects) => false,
        _ => true,
    }
}

/// A label tells the kind of a failure and nothing of the request: failures of
/// the same kind have the same label.
pub proof fn labels_show_no_message(a: ForwardError, b: ForwardError)
    requires
        alike(a, b),
    ensures
        kind_of(a) == kind_of(b),
{
}

// ---------------------------------------------------------------------------
// What holds of every call
// ---------------------------------------------------------------------------

/// A redirect removes no header but those named: the two credentials where the
/// origin changes, and the two headers that describe the body where that is
/// dropped. Every other header is kept with its value, and none is added. The
/// body is dropped, and the method becomes `GET`, for a `POST` and for a 303 to
/// anything but a `HEAD`, and never for 307 and 308; otherwise both stay.
pub proof fn redirects_remove_only_named_headers(
    f: ForwardView,
    status: u16,
    next: Seq<char>,
    same_origin: bool,
    name: Seq<char>,
)
    ensures
        ({
            let g = redirected(f, status, next, same_origin);
            let drops = status != 307 && status != 308 && (f.method == "POST"@ || (status == 303
                && f.method != "HEAD"@));
            let credential = name == "authorization"@ || name == "proxy-authorization"@;
            let describes = name == "content-type"@ || name == "content-length"@;
            &&& g.fields.contains_key(name) <==> f.fields.contains_key(name) && !(credential
                && !same_origin) && !(describes && drops)
            &&& g.fields.contains_key(name) ==> g.fields[name] == f.fields[name]
            &&& drops ==> g.method == "GET"@ && g.body is None
            &&& !drops ==> g.method == f.method && g.body == f.body
            &&& g.url == next
            &&& g.offered == f.offered
            &&& g.followed == f.followed + 1
        }),
{
}

/// A redirect is followed as long as fewer than ten were. It goes to the place
/// that was given and removes no header but those named: the two credentials
/// where the origin changes, and the two headers that describe the body where
/// that is dropped. Every other header is kept with its value, and none is added.
pub proof fn followed_redirects_keep_all_other_headers(
    f: Forward,
    status: u16,
    next: String,
    same_origin: bool,
    name: Seq<char>,
    r: Result<Forward, ForwardError>,
)
    requires
        f@.well_formed(),
        call_ensures(Forward::follow, (f, status, next, same_origin), r),
    ensures
        r is Ok <==> f@.followed < 10,
        r matches Err(e) ==> e is TooManyRedirects,
        r matches Ok(g) ==> {
            let drops = status != 307 && status != 308 && (f@.method == "POST"@ || (status == 303
                && f@.method != "HEAD"@));
            let credential = name == "authorization"@ || name == "proxy-authorization"@;
            let describes = name == "content-type"@ || name == "content-length"@;
            &&& g@.fields.contains_key(name) <==> f@.fields.contains_key(name) && !(credential
                && !same_origin) && !(describes && drops)
            &&& g@.fields.contains_key(name) ==> g@.fields[name] == f@.fields[name]
            &&& drops ==> g@.method == "GET"@ && g@.body is None
            &&& !drops ==> g@.method == f@.method && g@.body == f@.body
            &&& g@.url == next@
            &&& g@.offered == f@.offered
            &&& g@.followed == f@.followed + 1
            &&& g@.well_formed()
        },
{
    redirects_remove_only_named_headers(f@, status, next@, same_origin, name);
}

/// A request that is replayed elsewhere loses the credentials and nothing else.
pub proof fn replays_elsewhere_lose_only_credentials(
    f: Forward,
    status: u16,
    next: String,
    r: Result<Forward, ForwardError>,
)
    requires
        f@.well_formed(),
        f@.followed < 10,
        status == 307 || status == 308,
        call_ensures(Forward::follow, (f, status, next, false), r),
    ensures
        r matches Ok(g) && {
            &&& g@.method == f@.method
            &&& g@.body == f@.body
            &&& forall|name: Seq<char>| #[trigger]
                g@.fields.contains_key(name) <==> f@.fields.contains_key(name) && name
                    != "authorization"@ && name != "proxy-authorization"@
            &&& forall|name: Seq<char>| #[trigger]
                g@.fields.contains_key(name) ==> g@.fields[name] == f@.fields[name]
        },
{
}

/// Whether `places` are the places of the headers with a name, in their order.
pub open spec fn lists_named(
    headers: Seq<(String, Vec<u8>)>,
    name: Seq<char>,
    places: Seq<int>,
) -> bool {
    &&& forall|k: int| 0 <= k < places.len() ==> 0 <= #[trigger] places[k] < headers.len()
    &&& forall|k: int| 0 <= k < places.len() ==> headers[#[trigger] places[k]].0@ == name
    &&& forall|k: int, l: int| 0 <= k < l < places.len() ==> places[k] < places[l]
    &&& forall|i: int|
        0 <= i < headers.len() && (#[trigger] headers[i]).0@ == name ==> places.contains(i)
}

proof fn lemma_set_cookies_by_place(url: Seq<char>, headers: Seq<(String, Vec<u8>)>, places: Seq<int>)
    requires
        lists_named(headers, "set-cookie"@, places),
    ensures
        set_cookies(url, reply_fields(headers)).len() == places.len(),
        forall|k: int|
            0 <= k < places.len() ==> #[trigger] set_cookies(url, reply_fields(headers))[k] == (
                url,
                headers[places[k]].1@,
            ),
    decreases headers.len(),
{
    let fields = reply_fields(headers);
    if headers.len() == 0 {
        assert(places.len() == 0) by {
            if places.len() > 0 {
                assert(0 <= places[0] < headers.len());
            }
        }
    } else {
        let n = headers.len() - 1;
        let rest = headers.drop_last();
        assert(fields.drop_last() =~= reply_fields(rest));
        assert(fields.last() == (headers[n].0@, headers[n].1@));
        if headers[n].0@ == "set-cookie"@ {
            let m = places.len() - 1;
            let j = choose|j: int| 0 <= j < places.len() && places[j] == n;
            assert(places.contains(n));
            assert(j == m) by {
                if j < m {
                    assert(places[j] < places[m]);
                    assert(places[m] < headers.len());
                }
            }
            let firsts = places.drop_last();
            assert forall|k: int| 0 <= k < firsts.len() implies 0 <= #[trigger] firsts[k] < rest.len()
                && rest[firsts[k]].0@ == "set-cookie"@ by {
                assert(firsts[k] == places[k]);
                assert(places[k] < places[m]);
            }
            assert forall|i: int| 0 <= i < rest.len() && (#[trigger] rest[i]).0@ == "set-cookie"@ implies firsts.contains(i) by {
                assert(headers[i].0@ == "set-cookie"@);
                let k = choose|k: int| 0 <= k < places.len() && places[k] == i;
                assert(firsts[k] == i);
            }
            lemma_set_cookies_by_place(url, rest, firsts);
            assert forall|k: int| 0 <= k < places.len() implies #[trigger] set_cookies(url, fields)[k]
                == (url, headers[places[k]].1@) by {
                if k < m {
                    assert(set_cookies(url, reply_fields(rest))[k] == (url, rest[firsts[k]].1@));
                }
            }
        } else {
            assert forall|k: int| 0 <= k < places.len() implies 0 <= #[trigger] places[k] < rest.len()
                && rest[places[k]].0@ == "set-cookie"@ by {
                assert(headers[places[k]].0@ == "set-cookie"@);
            }
            assert forall|i: int| 0 <= i < rest.len() && (#[trigger] rest[i]).0@ == "set-cookie"@ implies places.contains(i) by {
                assert(headers[i].0@ == "set-cookie"@);
            }
            lemma_set_cookies_by_place(url, rest, places);
            assert forall|k: int| 0 <= k < places.len() implies #[trigger] set_cookies(url, fields)[k]
                == (url, headers[places[k]].1@) by {
                assert(set_cookies(url, reply_fields(rest))[k] == (url, rest[places[k]].1@));
            }
        }
    }
}

proof fn lemma_first_value_by_place(headers: Seq<(String, Vec<u8>)>, name: Seq<char>, at: int)
    requires
        0 <= at <= headers.len(),
        forall|j: int| 0 <= j < at ==> (#[trigger] headers[j]).0@ != name,
        at < headers.len() ==> headers[at].0@ == name,
    ensures
        first_value(reply_fields(headers), name) == (if at < headers.len() {
            Some(headers[at].1@)
        } else {
            None
        }),
    decreases headers.len(),
{
    if at > 0 {
        let rest = headers.drop_first();
        assert(reply_fields(headers).drop_first() =~= reply_fields(rest));
        assert(reply_fields(headers)[0] == (headers[0].0@, headers[0].1@));
        assert(headers[0].0@ != name);
        assert forall|j: int| 0 <= j < at - 1 implies (#[trigger] rest[j]).0@ != name by {
            assert(headers[j + 1].0@ != name);
        }
        if at < headers.len() {
            assert(rest[at - 1] == headers[at]);
        }
        lemma_first_value_by_place(rest, name, at - 1);
    } else if headers.len() > 0 {
        assert(reply_fields(headers)[0] == (headers[0].0@, headers[0].1@));
    }
}

/// A reply points to the place in its first `Location` header, where that can be
/// read; later ones do not count. `at` is the place of that header.
pub proof fn first_location_counts(headers: Vec<(String, Vec<u8>)>, at: int, r: Option<String>)
    requires
        call_ensures(reply_location, (&headers,), r),
        0 <= at <= headers@.len(),
        forall|j: int| 0 <= j < at ==> (#[trigger] headers@[j]).0@ != "location"@,
        at < headers@.len() ==> headers@[at].0@ == "location"@,
    ensures
        r is Some <==> at < headers@.len() && http::visible_text(headers@[at].1@) is Some,
        r matches Some(t) ==> http::visible_text(headers@[at].1@) == Some(t@),
{
    lemma_first_value_by_place(headers@, "location"@, at);
}

/// Whether header `i` is the last one of its name that can be read as text.
pub open spec fn is_last_shown(headers: Seq<(String, Vec<u8>)>, i: int) -> bool {
    &&& 0 <= i < headers.len()
    &&& http::visible_text(headers[i].1@) is Some
    &&& forall|j: int|
        i < j < headers.len() && (#[trigger] headers[j]).0@ == headers[i].0@
            ==> http::visible_text(headers[j].1@) is None
}

proof fn lemma_last_shown(headers: Seq<(String, Vec<u8>)>, i: int)
    requires
        is_last_shown(headers, i),
    ensures
        shown_fields(reply_fields(headers)).contains_key(headers[i].0@),
        Some(shown_fields(reply_fields(headers))[headers[i].0@]) == http::visible_text(
            headers[i].1@,
        ),
    decreases headers.len(),
{
    let n = headers.len() - 1;
    let rest = headers.drop_last();
    assert(reply_fields(headers).drop_last() =~= reply_fields(rest));
    assert(reply_fields(headers).last() == (headers[n].0@, headers[n].1@));
    if i < n {
        assert forall|j: int| i < j < rest.len() && (#[trigger] rest[j]).0@ == rest[i].0@ implies http::visible_text(rest[j].1@) is None by {
            assert(headers[j].0@ == headers[i].0@);
        }
        lemma_last_shown(rest, i);
        if headers[n].0@ == headers[i].0@ {
            assert(http::visible_text(headers[n].1@) is None);
        }
    }
}

proof fn lemma_shown_is_last(headers: Seq<(String, Vec<u8>)>, name: Seq<char>) -> (r: int)
    requires
        shown_fields(reply_fields(headers)).contains_key(name),
    ensures
        is_last_shown(headers, r),
        headers[r].0@ == name,
    decreases headers.len(),
{
    let n = headers.len() - 1;
    let rest = headers.drop_last();
    assert(reply_fields(headers).drop_last() =~= reply_fields(rest));
    assert(reply_fields(headers).last() == (headers[n].0@, headers[n].1@));
    if headers[n].0@ == name && http::visible_text(headers[n].1@) is Some {
        n
    } else {
        let r = lemma_shown_is_last(rest, name);
        assert forall|j: int| r < j < headers.len() && (#[trigger] headers[j]).0@ == headers[r].0@ implies http::visible_text(headers[j].1@) is None by {
            if j < n {
                assert(rest[j].0@ == rest[r].0@);
            }
        }
        r
    }
}

/// Whether a header is shown as the last one of its name that can be read.
pub open spec fn is_shown(headers: Seq<(String, Vec<u8>)>, h: (String, String)) -> bool {
    exists|i: int| #[trigger]
        is_last_shown(headers, i) && headers[i].0@ == h.0@ && http::visible_text(headers[i].1@)
            == Some(h.1@)
}

/// Whether `shown` are the headers of a reply that can be read as text: of each
/// name the last one, once.
pub open spec fn shows(headers: Seq<(String, Vec<u8>)>, shown: Seq<(String, String)>) -> bool {
    &&& forall|i: int, j: int| 0 <= i < j < shown.len() ==> shown[i].0@ != shown[j].0@
    &&& forall|k: int| 0 <= k < shown.len() ==> is_shown(headers, #[trigger] shown[k])
    &&& forall|i: int| #[trigger]
        is_last_shown(headers, i) ==> exists|k: int|
            0 <= k < shown.len() && (#[trigger] shown[k]).0@ == headers[i].0@
}

proof fn lemma_lists_shows(headers: Seq<(String, Vec<u8>)>, shown: Seq<(String, String)>)
    requires
        lists(shown, shown_fields(reply_fields(headers))),
    ensures
        shows(headers, shown),
{
    let m = shown_fields(reply_fields(headers));
    assert forall|k: int| 0 <= k < shown.len() implies is_shown(headers, #[trigger] shown[k]) by {
        assert(m.contains_key(shown[k].0@));
        let i = lemma_shown_is_last(headers, shown[k].0@);
        lemma_last_shown(headers, i);
        assert(is_last_shown(headers, i));
    }
    assert forall|i: int| #[trigger] is_last_shown(headers, i) implies exists|k: int|
        0 <= k < shown.len() && (#[trigger] shown[k]).0@ == headers[i].0@ by {
        lemma_last_shown(headers, i);
        assert(m.contains_key(headers[i].0@));
    }
}

/// A forward ends with the status of the last reply, its headers that can be
/// read as text, of each name the last one, the URL of the last hop, and the
/// jar's cookies where they can be read.
pub proof fn landings_show_the_last_reply(
    f: Forward,
    reply: HopReply,
    cookie: Option<Vec<u8>>,
    r: Landing,
)
    requires
        call_ensures(Forward::land, (f, reply, cookie), r),
    ensures
        r.status == reply.status,
        r.url@ == f@.url,
        shows(reply.headers@, r.headers@),
        r.cookie is Some <==> cookie is Some && http::visible_text(cookie->0@) is Some,
        r.cookie matches Some(t) ==> http::visible_text(cookie->0@) == Some(t@),
{
    lemma_lists_shows(reply.headers@, r.headers@);
}

/// A reply is followed exactly where its status is one of redirection and its
/// first `Location` header can be read and names a URL as seen from this hop;
/// the eleventh such reply fails, and every other reply ends the forward. The
/// cookies that it sets are offered to the jar behind those from before, in
/// their order. `at` is the place of the first `Location` header, `place` what
/// it names, and `places` those of the headers that set a cookie.
pub proof fn replies_are_followed_or_end(
    f: Forward,
    reply: HopReply,
    at: int,
    place: Option<Seq<char>>,
    places: Seq<int>,
    name: Seq<char>,
    r: Result<Next, ForwardError>,
)
    requires
        f@.well_formed(),
        call_ensures(Forward::receive, (f, reply), r),
        0 <= at <= reply.headers@.len(),
        forall|j: int| 0 <= j < at ==> (#[trigger] reply.headers@[j]).0@ != "location"@,
        at < reply.headers@.len() ==> reply.headers@[at].0@ == "location"@,
        at == reply.headers@.len() ==> place is None,
        at < reply.headers@.len() ==> match http::visible_text(reply.headers@[at].1@) {
            Some(t) => place == http::joined_url(f@.url, t),
            None => place is None,
        },
        lists_named(reply.headers@, "set-cookie"@, places),
    ensures
        ({
            let follows = 300 <= reply.status <= 399 && place is Some;
            &&& r is Err <==> follows && f@.followed >= 10
            &&& r matches Err(e) ==> e is TooManyRedirects
            &&& r matches Ok(Next::Again(g)) ==> follows
            &&& r matches Ok(Next::Landed(l)) ==> {
                &&& !follows
                &&& l.status == reply.status
                &&& l.url@ == f@.url
                &&& shows(reply.headers@, l.headers@)
            }
        }),
        r matches Ok(Next::Again(g)) ==> {
            let drops = reply.status != 307 && reply.status != 308 && (f@.method == "POST"@ || (
            reply.status == 303 && f@.method != "HEAD"@));
            let same_origin = http::one_origin(place->0, f@.url);
            let credential = name == "authorization"@ || name == "proxy-authorization"@;
            let describes = name == "content-type"@ || name == "content-length"@;
            &&& g@.url == place->0
            &&& g@.followed == f@.followed + 1
            &&& g@.fields.contains_key(name) <==> f@.fields.contains_key(name) && !(credential
                && !same_origin) && !(describes && drops)
            &&& g@.fields.contains_key(name) ==> g@.fields[name] == f@.fields[name]
            &&& drops ==> g@.method == "GET"@ && g@.body is None
            &&& !drops ==> g@.method == f@.method && g@.body == f@.body
            &&& g@.offered.len() == f@.offered.len() + places.len()
            &&& f@.offered.is_prefix_of(g@.offered)
            &&& forall|k: int|
                0 <= k < places.len() ==> g@.offered[f@.offered.len() + k] == (
                    f@.url,
                    reply.headers@[#[trigger] places[k]].1@,
                )
        },
{
    let fields = reply_fields(reply.headers@);
    lemma_first_value_by_place(reply.headers@, "location"@, at);
    lemma_set_cookies_by_place(f@.url, reply.headers@, places);
    let next = destination(f@.url, reply.status, fields);
    if let Ok(Next::Landed(l)) = r {
        lemma_lists_shows(reply.headers@, l.headers@);
    }
    if let Ok(Next::Again(g)) = r {
        let h = with_cookies(f@, fields);
        redirects_remove_only_named_headers(
            h,
            reply.status,
            place->0,
            http::one_origin(place->0, f@.url),
            name,
        );
        assert forall|k: int| 0 <= k < places.len() implies g@.offered[f@.offered.len() + k] == (
            f@.url,
            reply.headers@[#[trigger] places[k]].1@,
        ) by {
            assert(set_cookies(f@.url, fields)[k] == (f@.url, reply.headers@[places[k]].1@));
        }
    }
}

/// Whether a header of the caller can be taken: a `Cookie` header always, and any
/// other one where its name is a header name and its value a header value.
pub open spec fn is_sound(h: (String, String)) -> bool {
    ||| text::lowercase(h.0@) == "cookie"@
    ||| http::is_header_name(h.0@) && http::is_header_value(vstd::utf8::encode_utf8(h.1@))
}

proof fn lemma_sound_headers(headers: Seq<(String, String)>, url: Seq<char>)
    requires
        forall|i: int| 0 <= i < headers.len() ==> is_sound(#[trigger] headers[i]),
    ensures
        gathered(header_list(headers), url) is Ok,
    decreases headers.len(),
{
    if headers.len() > 0 {
        let n = headers.len() - 1;
        assert(header_list(headers).drop_last() =~= header_list(headers.drop_last()));
        assert(header_list(headers).last() == (headers[n].0@, headers[n].1@));
        assert(is_sound(headers[n]));
        lemma_sound_headers(headers.drop_last(), url);
    }
}

proof fn lemma_first_fault(headers: Seq<(String, String)>, url: Seq<char>, at: int)
    requires
        0 <= at < headers.len(),
        forall|i: int| 0 <= i < at ==> is_sound(#[trigger] headers[i]),
        !is_sound(headers[at]),
    ensures
        gathered(header_list(headers), url) == Err::<Gathered, Fault>(
            if http::is_header_name(headers[at].0@) {
                Fault::HeaderValue(headers[at].0@)
            } else {
                Fault::HeaderName(headers[at].0@)
            },
        ),
{
    let list = header_list(headers);
    assert(list.take(at) =~= header_list(headers.take(at)));
    lemma_sound_headers(headers.take(at), url);
    assert(list.take(at + 1).drop_last() =~= list.take(at));
    assert(list.take(at + 1).last() == (headers[at].0@, headers[at].1@));
    lemma_first_fault_stays(list, url, at + 1);
}

/// The first thing that is wrong with a request is told: its method, then its
/// URL, then its first header that cannot be taken, by the name of the header.
/// A request with which nothing is wrong starts with its own method, URL and
/// body, and no redirect followed. `headers` are those that were given, and `at`
/// is the place of the first one that cannot be taken.
pub proof fn first_fault_is_told(
    req: ProxyRequest,
    method: String,
    url: Option<String>,
    headers: Seq<(String, String)>,
    at: int,
    r: Result<Forward, ForwardError>,
)
    requires
        call_ensures(start_with, (req, method, url), r),
        match req.headers {
            Some(h) => headers == h@,
            None => headers.len() == 0,
        },
        headers.len() <= 6553,
        0 <= at <= headers.len(),
        forall|i: int| 0 <= i < at ==> is_sound(#[trigger] headers[i]),
        at < headers.len() ==> !is_sound(headers[at]),
    ensures
        match r {
            Ok(f) => {
                &&& http::is_token(method@)
                &&& url is Some
                &&& at == headers.len()
                &&& f@.method == method@
                &&& f@.url == url->0@
                &&& f@.followed == 0
                &&& f@.body is Some <==> req.body is Some
                &&& req.body is Some ==> f@.body->0 == req.body->0@
            },
            Err(ForwardError::InvalidMethod(m)) => !http::is_token(method@) && m@ == req.method@,
            Err(ForwardError::InvalidUrl(u)) => http::is_token(method@) && url is None && u@
                == req.url@,
            Err(ForwardError::InvalidHeaderName(n)) => {
                &&& http::is_token(method@)
                &&& url is Some
                &&& at < headers.len()
                &&& n@ == headers[at].0@
                &&& !http::is_header_name(headers[at].0@)
            },
            Err(ForwardError::InvalidHeaderValue(n)) => {
                &&& http::is_token(method@)
                &&& url is Some
                &&& at < headers.len()
                &&& n@ == headers[at].0@
                &&& http::is_header_name(headers[at].0@)
            },
            Err(_) => false,
        },
{
    assert(request_headers(req) =~= header_list(headers));
    if let Some(u) = url {
        if at < headers.len() {
            lemma_first_fault(headers, u@, at);
        } else {
            lemma_sound_headers(headers, u@);
        }
    }
}

/// Whether header `i` is the last one of its name, whatever the case, and no
/// `Cookie` header.
pub open spec fn is_last_given(headers: Seq<(String, String)>, i: int) -> bool {
    &&& 0 <= i < headers.len()
    &&& text::lowercase(headers[i].0@) != "cookie"@
    &&& forall|j: int|
        i < j < headers.len() ==> text::lowercase((#[trigger] headers[j]).0@) != text::lowercase(
            headers[i].0@,
        )
}

proof fn lemma_last_given(headers: Seq<(String, String)>, url: Seq<char>, i: int)
    requires
        gathered(header_list(headers), url) is Ok,
        is_last_given(headers, i),
    ensures
        ({
            let fields = gathered(header_list(headers), url)->Ok_0.fields;
            let name = text::lowercase(headers[i].0@);
            fields.contains_key(name) && fields[name] == seq![vstd::utf8::encode_utf8(headers[i].1@)]
        }),
    decreases headers.len(),
{
    let n = headers.len() - 1;
    let rest = headers.drop_last();
    assert(header_list(headers).drop_last() =~= header_list(rest));
    assert(header_list(headers).last() == (headers[n].0@, headers[n].1@));
    if i < n {
        assert forall|j: int| i < j < rest.len() implies text::lowercase((#[trigger] rest[j]).0@)
            != text::lowercase(rest[i].0@) by {
            assert(rest[j] == headers[j]);
        }
        lemma_last_given(rest, url, i);
        assert(text::lowercase(headers[n].0@) != text::lowercase(headers[i].0@));
    }
}

proof fn lemma_given_is_last(headers: Seq<(String, String)>, url: Seq<char>, name: Seq<char>) -> (r: int)
    requires
        gathered(header_list(headers), url) is Ok,
        gathered(header_list(headers), url)->Ok_0.fields.contains_key(name),
    ensures
        is_last_given(headers, r),
        text::lowercase(headers[r].0@) == name,
    decreases headers.len(),
{
    let n = headers.len() - 1;
    let rest = headers.drop_last();
    assert(header_list(headers).drop_last() =~= header_list(rest));
    assert(header_list(headers).last() == (headers[n].0@, headers[n].1@));
    if text::lowercase(headers[n].0@) == name && name != "cookie"@ {
        n
    } else {
        lemma_gathered_bounds(header_list(headers), url);
        let r = lemma_given_is_last(rest, url, name);
        assert forall|j: int| r < j < headers.len() implies text::lowercase((#[trigger] headers[j]).0@)
            != text::lowercase(headers[r].0@) by {
            if j < n {
                assert(rest[j] == headers[j]);
            }
        }
        r
    }
}

/// The headers of the caller are sent along, each with its value; where several
/// have one name, whatever the case, the last one counts. No other header is.
pub proof fn given_headers_are_sent_along(
    req: ProxyRequest,
    method: String,
    url: Option<String>,
    headers: Seq<(String, String)>,
    i: int,
    name: Seq<char>,
    r: Result<Forward, ForwardError>,
)
    requires
        call_ensures(start_with, (req, method, url), r),
        match req.headers {
            Some(h) => headers == h@,
            None => headers.len() == 0,
        },
    ensures
        r matches Ok(f) ==> {
            &&& is_last_given(headers, i) ==> {
                &&& f@.fields.contains_key(text::lowercase(headers[i].0@))
                &&& f@.fields[text::lowercase(headers[i].0@)] == seq![
                    vstd::utf8::encode_utf8(headers[i].1@),
                ]
            }
            &&& f@.fields.contains_key(name) ==> exists|k: int| #[trigger]
                is_last_given(headers, k) && text::lowercase(headers[k].0@) == name
        },
{
    assert(request_headers(req) =~= header_list(headers));
    if let Ok(f) = r {
        if is_last_given(headers, i) {
            lemma_last_given(headers, url->0@, i);
        }
        if f@.fields.contains_key(name) {
            let k = lemma_given_is_last(headers, url->0@, name);
            assert(is_last_given(headers, k));
        }
    }
}

/// One header more changes nothing else: a `Cookie` header offers the jar its
/// cookies, in their order, behind those from before, and any other header
/// offers none. `cookies` are the cookies in the value of that header. Without
/// headers nothing is offered.
pub proof fn cookies_are_offered_in_order(
    req: ProxyRequest,
    more: ProxyRequest,
    method: String,
    url: Option<String>,
    header: (String, String),
    value: &str,
    cookies: Vec<String>,
    r: Result<Forward, ForwardError>,
    s: Result<Forward, ForwardError>,
)
    requires
        call_ensures(start_with, (req, method, url), r),
        call_ensures(start_with, (more, method, url), s),
        req.headers is Some,
        more.headers is Some,
        more.headers->0@ == req.headers->0@.push(header),
        value@ == header.1@,
        call_ensures(split_cookies, (value,), cookies),
    ensures
        req.headers->0@.len() == 0 && r is Ok ==> r->Ok_0@.offered.len() == 0,
        s is Ok && r is Ok ==> {
            let before = r->Ok_0@.offered;
            let after = s->Ok_0@.offered;
            &&& text::lowercase(header.0@) != "cookie"@ ==> after == before
            &&& text::lowercase(header.0@) == "cookie"@ ==> {
                &&& after.len() == before.len() + cookies@.len()
                &&& before.is_prefix_of(after)
                &&& forall|k: int|
                    0 <= k < cookies@.len() ==> after[before.len() + k] == (
                        url->0@,
                        vstd::utf8::encode_utf8((#[trigger] cookies@[k])@),
                    )
                &&& s->Ok_0@.fields == r->Ok_0@.fields
            }
        },
{
    let list = request_headers(more);
    assert(list.drop_last() =~= request_headers(req));
    assert(list.last() == (header.0@, header.1@));
    let pairs = cookie_pairs(header.1@);
    assert(text::views(cookies@).len() == cookies@.len());
    if s is Ok && r is Ok && text::lowercase(header.0@) == "cookie"@ {
        let before = r->Ok_0@.offered;
        let after = s->Ok_0@.offered;
        assert(after == before + offers(url->0@, pairs));
        assert forall|k: int| 0 <= k < cookies@.len() implies after[before.len() + k] == (
            url->0@,
            vstd::utf8::encode_utf8((#[trigger] cookies@[k])@),
        ) by {
            assert(text::views(cookies@)[k] == cookies@[k]@);
            assert(offers(url->0@, pairs)[k] == (url->0@, vstd::utf8::encode_utf8(pairs[k])));
        }
    }
}

/// A request starts with its method in capitals and its URL in the normal form,
/// and with these as `start_with` does.
pub proof fn requests_start_in_normal_form(
    req: ProxyRequest,
    method: String,
    url: Option<String>,
    r: Result<Forward, ForwardError>,
    s: Result<Forward, ForwardError>,
)
    requires
        call_ensures(start, (req,), r),
        call_ensures(start_with, (req, method, url), s),
        method@ == text::uppercased(req.method@),
        url is Some <==> http::parsed_url(req.url@) is Some,
        url matches Some(u) ==> http::parsed_url(req.url@) == Some(u@),
        req.headers matches Some(h) ==> h@.len() <= 6553,
    ensures
        vstd::utf8::is_ascii_chars(req.method@) ==> method@.len() == req.method@.len() && forall|
            i: int,
        |
            0 <= i < method@.len() ==> #[trigger] method@[i] == (if 'a' <= req.method@[i] <= 'z' {
                ((req.method@[i] as int) - 32) as char
            } else {
                req.method@[i]
            }),
        r is Ok <==> s is Ok,
        r is Ok ==> r->Ok_0@ == s->Ok_0@,
        r is Err ==> r->Err_0.text() == s->Err_0.text(),
        r is Err ==> (r->Err_0 is InvalidMethod <==> s->Err_0 is InvalidMethod),
        r is Err ==> (r->Err_0 is InvalidUrl <==> s->Err_0 is InvalidUrl),
        r is Err ==> (r->Err_0 is InvalidHeaderName <==> s->Err_0 is InvalidHeaderName),
        r is Err ==> (r->Err_0 is InvalidHeaderValue <==> s->Err_0 is InvalidHeaderValue),
        r is Err ==> (r->Err_0 is TooManyHeaders <==> s->Err_0 is TooManyHeaders),
{
}

proof fn lemma_nonblank_by_place(parts: Seq<Seq<char>>, places: Seq<int>)
    requires
        forall|k: int| 0 <= k < places.len() ==> 0 <= #[trigger] places[k] < parts.len(),
        forall|k: int|
            0 <= k < places.len() ==> text::trimmed(parts[#[trigger] places[k]]).len() > 0,
        forall|k: int, l: int| 0 <= k < l < places.len() ==> places[k] < places[l],
        forall|i: int|
            0 <= i < parts.len() && text::trimmed(#[trigger] parts[i]).len() > 0
                ==> places.contains(i),
    ensures
        nonblank(parts).len() == places.len(),
        forall|k: int|
            0 <= k < places.len() ==> #[trigger] nonblank(parts)[k] == text::trimmed(
                parts[places[k]],
            ),
    decreases parts.len(),
{
    if parts.len() == 0 {
        assert(places.len() == 0) by {
            if places.len() > 0 {
                assert(0 <= places[0] < parts.len());
            }
        }
    } else {
        let n = parts.len() - 1;
        let rest = parts.drop_last();
        if text::trimmed(parts[n]).len() > 0 {
            let m = places.len() - 1;
            assert(places.contains(n));
            let j = choose|j: int| 0 <= j < places.len() && places[j] == n;
            assert(j == m) by {
                if j < m {
                    assert(places[j] < places[m]);
                    assert(places[m] < parts.len());
                }
            }
            let firsts = places.drop_last();
            assert forall|k: int| 0 <= k < firsts.len() implies 0 <= #[trigger] firsts[k] < rest.len()
                && text::trimmed(rest[firsts[k]]).len() > 0 by {
                assert(firsts[k] == places[k]);
                assert(places[k] < places[m]);
            }
            assert forall|i: int| 0 <= i < rest.len() && text::trimmed(#[trigger] rest[i]).len() > 0 implies firsts.contains(i) by {
                assert(parts[i] == rest[i]);
                let k = choose|k: int| 0 <= k < places.len() && places[k] == i;
                assert(firsts[k] == i);
            }
            lemma_nonblank_by_place(rest, firsts);
            assert forall|k: int| 0 <= k < places.len() implies #[trigger] nonblank(parts)[k]
                == text::trimmed(parts[places[k]]) by {
                if k < m {
                    assert(nonblank(rest)[k] == text::trimmed(rest[firsts[k]]));
                }
            }
        } else {
            assert forall|k: int| 0 <= k < places.len() implies 0 <= #[trigger] places[k] < rest.len()
                && text::trimmed(rest[places[k]]).len() > 0 by {
                assert(text::trimmed(parts[places[k]]).len() > 0);
            }
            assert forall|i: int| 0 <= i < rest.len() && text::trimmed(#[trigger] rest[i]).len() > 0 implies places.contains(i) by {
                assert(parts[i] == rest[i]);
            }
            lemma_nonblank_by_place(rest, places);
            assert forall|k: int| 0 <= k < places.len() implies #[trigger] nonblank(parts)[k]
                == text::trimmed(parts[places[k]]) by {
                assert(nonblank(rest)[k] == text::trimmed(rest[places[k]]));
            }
        }
    }
}

/// The cookies of a header are the parts between its semicolons, in their order,
/// without the white space around them; blank parts are none. `places` are the
/// places of the parts that are not blank.
pub proof fn cookies_stand_between_semicolons(
    value: &str,
    parts: Vec<String>,
    places: Seq<int>,
    r: Vec<String>,
)
    requires
        call_ensures(split_cookies, (value,), r),
        call_ensures(text::split_at_char, (value, ';'), parts),
        forall|k: int| 0 <= k < places.len() ==> 0 <= #[trigger] places[k] < parts@.len(),
        forall|k: int|
            0 <= k < places.len() ==> !text::is_core(
                parts@[#[trigger] places[k]]@,
                Seq::<char>::empty(),
            ),
        forall|k: int, l: int| 0 <= k < l < places.len() ==> places[k] < places[l],
        forall|i: int|
            0 <= i < parts@.len() && !text::is_core(
                (#[trigger] parts@[i])@,
                Seq::<char>::empty(),
            ) ==> places.contains(i),
    ensures
        r@.len() == places.len(),
        forall|k: int|
            0 <= k < r@.len() ==> text::is_core(parts@[places[k]]@, (#[trigger] r@[k])@),
{
    let shown = text::views(parts@);
    assert(shown.len() == parts@.len());
    assert forall|i: int| 0 <= i < parts@.len() implies #[trigger] shown[i] == parts@[i]@ && (
    text::trimmed(shown[i]).len() > 0 <==> !text::is_core(shown[i], Seq::<char>::empty())) by {
        text::trimmed_is_core(shown[i]);
        if text::is_core(shown[i], Seq::<char>::empty()) {
            text::core_is_one(shown[i], text::trimmed(shown[i]), Seq::<char>::empty());
        } else if text::trimmed(shown[i]).len() == 0 {
            assert(text::trimmed(shown[i]) =~= Seq::<char>::empty());
        }
    }
    assert forall|k: int| 0 <= k < places.len() implies text::trimmed(
        shown[#[trigger] places[k]],
    ).len() > 0 by {
        assert(shown[places[k]] == parts@[places[k]]@);
    }
    assert forall|i: int| 0 <= i < shown.len() && text::trimmed(#[trigger] shown[i]).len() > 0 implies places.contains(i) by {
        assert(!text::is_core(parts@[i]@, Seq::<char>::empty()));
    }
    lemma_nonblank_by_place(shown, places);
    assert(text::views(r@).len() == r@.len());
    assert forall|k: int| 0 <= k < r@.len() implies text::is_core(
        parts@[places[k]]@,
        (#[trigger] r@[k])@,
    ) by {
        assert(text::views(r@)[k] == r@[k]@);
        assert(nonblank(shown)[k] == text::trimmed(shown[places[k]]));
        text::trimmed_is_core(shown[places[k]]);
        assert(shown[places[k]] == parts@[places[k]]@);
    }
}

/// A hop is asked for with the method, URL and body of its state and with all
/// its headers. The jar's cookies are added as one more, where there are any.
pub proof fn hops_are_asked_for_as_they_stand(
    f: Forward,
    cookie: Option<Vec<u8>>,
    name: Seq<char>,
    r: Result<HopRequest, ForwardError>,
)
    requires
        f@.well_formed(),
        call_ensures(Forward::request_with, (&f, cookie), r),
    ensures
        r matches Ok(q) ==> {
            let fields = http::header_fields(q.headers);
            &&& q.method@ == f@.method
            &&& q.url@ == f@.url
            &&& q.body is Some <==> f@.body is Some
            &&& q.body is Some ==> q.body->0@ == f@.body->0
            &&& name != "cookie"@ ==> (fields.contains_key(name) <==> f@.fields.contains_key(name))
            &&& name != "cookie"@ && fields.contains_key(name) ==> fields[name] == f@.fields[name]
            &&& fields.contains_key("cookie"@) <==> cookie is Some
            &&& cookie is Some ==> fields["cookie"@] == seq![cookie->0@]
        },
        cookie is None || f@.fields.dom().len() <= 6553 ==> r is Ok,
        r matches Err(e) ==> e is TooManyHeaders,
{
}

/// The same with the cookies that the jar answers with for the URL of the hop.
pub proof fn hops_carry_what_the_jar_answers(
    f: Forward,
    name: Seq<char>,
    r: Result<HopRequest, ForwardError>,
)
    requires
        f@.well_formed(),
        call_ensures(Forward::next_request, (&f,), r),
    ensures
        r matches Ok(q) ==> {
            let fields = http::header_fields(q.headers);
            &&& q.method@ == f@.method
            &&& q.url@ == f@.url
            &&& q.body is Some <==> f@.body is Some
            &&& q.body is Some ==> q.body->0@ == f@.body->0
            &&& name != "cookie"@ ==> (fields.contains_key(name) <==> f@.fields.contains_key(name))
            &&& name != "cookie"@ && fields.contains_key(name) ==> fields[name] == f@.fields[name]
            &&& fields.contains_key("cookie"@) ==> fields["cookie"@].len() == 1 && http::may_answer(
                f@.offered,
                f@.url,
                Some(fields["cookie"@][0]),
            )
            &&& !fields.contains_key("cookie"@) ==> http::may_answer(f@.offered, f@.url, None)
        },
        f@.fields.dom().len() <= 6553 ==> r is Ok,
        r matches Err(e) ==> e is TooManyHeaders,
{
    if let Ok(q) = r {
        let cookie = choose|cookie: Option<Seq<u8>>| #[trigger]
            is_hop_request(q, f@, cookie) && http::may_answer(f@.offered, f@.url, cookie);
        assert(is_hop_request(q, f@, cookie));
        if let Some(c) = cookie {
            assert(cookie == Some(http::header_fields(q.headers)["cookie"@][0]));
        } else {
            assert(cookie == None::<Seq<u8>>);
        }
    }
}

/// A response is the landing with the body in base64.
pub proof fn responses_are_landings_with_a_body(l: Landing, body: Vec<u8>, r: ProxyResponse)
    requires
        body@.len() <= usize::MAX / 4,
        call_ensures(Landing::finish, (l, body), r),
    ensures
        r.status == l.status,
        r.headers == l.headers,
        r.url == l.url,
        r.cookie == l.cookie,
        r.body@ == encoding::base64(body@),
{
}

/// A timeout is told before a failed connect, that before a body that could not
/// be read, and all others alike; too many redirects have a label of their own,
/// and what is wrong with the request itself has one label.
pub proof fn labels_are_by_kind(e: ForwardError, r: &'static str)
    requires
        call_ensures(error_kind, (&e,), r),
    ensures
        match e {
            ForwardError::TooManyRedirects => r@ == "too_many_redirects"@,
            ForwardError::Transport(t) => {
                &&& t.timeout ==> r@ == "timeout"@
                &&& !t.timeout && t.connect ==> r@ == "connect"@
                &&& !t.timeout && !t.connect && (t.body || t.decode) ==> r@ == "body"@
                &&& !t.timeout && !t.connect && !t.body && !t.decode ==> r@ == "request"@
            },
            ForwardError::InvalidMethod(_) => r@ == "invalid_request"@,
            ForwardError::InvalidUrl(_) => r@ == "invalid_request"@,
            ForwardError::InvalidHeaderName(_) => r@ == "invalid_request"@,
            ForwardError::InvalidHeaderValue(_) => r@ == "invalid_request"@,
            ForwardError::TooManyHeaders => r@ == "invalid_request"@,
        },
{
}

/// A message names what was wrong.
pub proof fn messages_name_the_fault(e: ForwardError, r: String)
    requires
        call_ensures(ForwardError::message, (&e,), r),
    ensures
        match e {
            ForwardError::InvalidMethod(s) => r@ == "invalid HTTP method: "@ + s@,
            ForwardError::InvalidUrl(s) => r@ == "invalid URL: "@ + s@,
            ForwardError::InvalidHeaderName(s) => r@ == "invalid header name: "@ + s@,
            ForwardError::InvalidHeaderValue(s) => r@ == "invalid header value for "@ + s@,
            ForwardError::Transport(t) => r@ == t.message@,
            ForwardError::TooManyRedirects => r@ == "too many redirects (>"@ + text::decimal(10)
                + ")"@,
            ForwardError::TooManyHeaders => r@ == "too many headers"@,
        },
{
}

/// A response is handed on with status 200 and leaves the log as it is. A failure
/// is told with its message and status 502, and becomes the last entry of the
/// log, with its label, the time and the host, and with no code.
pub proof fn forwards_are_concluded(
    log: &mut health::ErrorLog,
    at: u64,
    host: Option<String>,
    result: Result<ProxyResponse, ForwardError>,
    message: String,
    label: &'static str,
    r: Answer,
)
    requires
        old(log).well_formed(),
        old(log)@.len() <= 50,
        call_ensures(conclude_at, (log, at, host, result), r),
        result is Err ==> call_ensures(ForwardError::message, (&result->Err_0,), message),
        result is Err ==> call_ensures(error_kind, (&result->Err_0,), label),
    ensures
        result is Ok ==> r.status == 200 && r.body is Ok && r.body->Ok_0 == result->Ok_0,
        result is Ok ==> final(log)@ == old(log)@,
        result is Err ==> {
            &&& r.status == 502
            &&& r.body is Err
            &&& r.body->Err_0@ == message@
            &&& health::has_one_more(old(log)@, final(log)@)
            &&& final(log)@.last().at == at
            &&& final(log)@.last().source@ == "proxy"@
            &&& final(log)@.last().kind@ == label@
            &&& final(log)@.last().host == host
            &&& final(log)@.last().code is None
        },
{
}

/// A request that names no method is a `GET`.
pub proof fn unnamed_methods_are_get(r: String)
    requires
        call_ensures(default_method, (), r),
    ensures
        r@ == "GET"@,
{
}

/// The host of a request is that of its URL.
pub proof fn hosts_are_those_of_urls(req: ProxyRequest, r: Option<String>)
    requires
        call_ensures(request_host, (&req,), r),
    ensures
        r is Some <==> http::url_host(req.url@) is Some,
        r matches Some(h) ==> http::url_host(req.url@) == Some(h@),
{
}

} // verus!
