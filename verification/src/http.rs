//! The parts of HTTP that the `reqwest` crate provides: methods, header names
//! and values, header maps, URLs and cookie jars. Every call into it stands
//! behind one function of this module.
use crate::text;
use reqwest::cookie::{CookieStore, Jar};
use reqwest::header::{HeaderMap, HeaderName, HeaderValue};
use reqwest::{Method, Url};
use std::str::FromStr;
use vstd::prelude::*;

verus! {

// ---------------------------------------------------------------------------
// Methods, header names and header values
// ---------------------------------------------------------------------------

/// The characters of an HTTP token.
pub open spec fn is_tchar(c: char) -> bool {
    ||| 'A' <= c <= 'Z'
    ||| 'a' <= c <= 'z'
    ||| '0' <= c <= '9'
    ||| c == '!'
    ||| '#' <= c <= '\''
    ||| c == '*'
    ||| c == '+'
    ||| c == '-'
    ||| c == '.'
    ||| '^' <= c <= '`'
    ||| c == '|'
    ||| c == '~'
}

/// An HTTP token: at least one character, all of them token characters.
pub open spec fn is_token(s: Seq<char>) -> bool {
    s.len() > 0 && forall|i: int| 0 <= i < s.len() ==> is_tchar(#[trigger] s[i])
}

/// The longest header name, in bytes.
pub const MAX_HEADER_NAME: usize = 65535;

/// A header name: a token that is not too long.
pub open spec fn is_header_name(s: Seq<char>) -> bool {
    is_token(s) && s.len() <= MAX_HEADER_NAME
}

/// A byte that may stand in a header value.
pub open spec fn is_value_byte(b: u8) -> bool {
    (b >= 32 && b != 127) || b == 9
}

/// The bytes of a header value.
pub open spec fn is_header_value(v: Seq<u8>) -> bool {
    forall|i: int| 0 <= i < v.len() ==> is_value_byte(#[trigger] v[i])
}

/// `Method::from_str`: every token is a method, with the name as it is
/// written, and nothing else is.
#[verifier::external_body]
pub(crate) fn parse_method(s: &str) -> (r: Option<String>)
    ensures
        match r {
            Some(m) => is_token(s@) && m@ == s@,
            None => !is_token(s@),
        },
{
    Method::from_str(s).ok().map(|m| m.as_str().to_string())
}

/// `HeaderName::from_str`: every token of at most `MAX_HEADER_NAME` bytes is a
/// header name, with its ASCII capitals turned into small letters, and nothing
/// else is.
#[verifier::external_body]
pub(crate) fn parse_header_name(s: &str) -> (r: Option<String>)
    ensures
        match r {
            Some(n) => is_header_name(s@) && n@ == text::lowercase(s@),
            None => !is_header_name(s@),
        },
{
    HeaderName::from_str(s).ok().map(|n| n.as_str().to_string())
}

/// `HeaderValue::from_str`: a string is a header value if all its bytes may
/// stand in one; the value then holds these bytes.
#[verifier::external_body]
pub(crate) fn parse_header_value(s: &str) -> (r: Option<Vec<u8>>)
    ensures
        match r {
            Some(v) => is_header_value(vstd::utf8::encode_utf8(s@)) && v@ == vstd::utf8::encode_utf8(s@),
            None => !is_header_value(vstd::utf8::encode_utf8(s@)),
        },
{
    HeaderValue::from_str(s).ok().map(|v| v.as_bytes().to_vec())
}

/// A byte of a header value that can be read as text.
pub open spec fn is_visible(b: u8) -> bool {
    (b >= 32 && b < 127) || b == 9
}

/// The text of a header value, if all its bytes are visible ASCII or tabs.
pub open spec fn visible_text(v: Seq<u8>) -> Option<Seq<char>> {
    if forall|i: int| 0 <= i < v.len() ==> is_visible(#[trigger] v[i]) {
        Some(v.map_values(|b: u8| b as char))
    } else {
        None
    }
}

/// Reads a header value as text.
pub fn value_text(v: &Vec<u8>) -> (r: Option<String>)
    ensures
        match r {
            Some(s) => visible_text(v@) == Some(s@),
            None => visible_text(v@) is None,
        },
{
    let mut out = String::new();
    let mut i: usize = 0;
    while i < v.len()
        invariant
            i <= v@.len(),
            out@ == v@.take(i as int).map_values(|b: u8| b as char),
            forall|k: int| 0 <= k < i ==> is_visible(v@[k]),
        decreases v@.len() - i,
    {
        let b = v[i];
        if !((b >= 32 && b < 127) || b == 9) {
            return None;
        }
        out.push(b as char);
        assert(out@ =~= v@.take(i + 1).map_values(|b: u8| b as char));
        i += 1;
    }
    assert(v@.take(i as int) =~= v@);
    Some(out)
}

// ---------------------------------------------------------------------------
// Header maps
// ---------------------------------------------------------------------------

#[verifier::external_type_specification]
#[verifier::external_body]
pub struct ExHeaderValue(HeaderValue);

#[verifier::external_type_specification]
#[verifier::external_body]
#[verifier::reject_recursive_types(T)]
pub struct ExHeaderMap<T>(HeaderMap<T>);

/// What a header map holds: for each name, in small letters, the values under
/// it, in order.
pub uninterp spec fn header_fields(h: HeaderMap<HeaderValue>) -> Map<Seq<char>, Seq<Seq<u8>>>;

/// The number of names that a header map holds whatever their hashes are. Most
/// maps can hold more.
pub const HEADER_ROOM: usize = 6553;

/// `HeaderMap::new`: an empty map.
#[verifier::external_body]
pub(crate) fn new_headers() -> (r: HeaderMap<HeaderValue>)
    ensures
        header_fields(r).dom() == Set::<Seq<char>>::empty(),
{
    HeaderMap::new()
}

/// `HeaderMap::try_insert`: the value becomes the only one under its name, or
/// the map is full and stays as it is. There is room for one more name as long
/// as the map holds at most `HEADER_ROOM`; beyond that it depends on the hashes.
#[verifier::external_body]
pub(crate) fn insert_header(h: &mut HeaderMap<HeaderValue>, name: &str, value: &Vec<u8>) -> (r: bool)
    requires
        is_header_name(name@),
        is_header_value(value@),
    ensures
        header_fields(*final(h)) == (if r {
            header_fields(*old(h)).insert(text::lowercase(name@), seq![value@])
        } else {
            header_fields(*old(h))
        }),
        header_fields(*old(h)).dom().finite() && header_fields(*old(h)).dom().len() <= HEADER_ROOM
            ==> r,
{
    let name = HeaderName::from_str(name).unwrap();
    let value = HeaderValue::from_bytes(value).unwrap();
    h.try_insert(name, value).is_ok()
}

/// `HeaderMap::remove`: no value is left under the name.
#[verifier::external_body]
pub(crate) fn remove_header(h: &mut HeaderMap<HeaderValue>, name: &str)
    ensures
        header_fields(*final(h)) == header_fields(*old(h)).remove(text::lowercase(name@)),
{
    h.remove(name);
}

/// `HeaderMap::clone`: a map that holds the same.
#[verifier::external_body]
pub(crate) fn clone_headers(h: &HeaderMap<HeaderValue>) -> (r: HeaderMap<HeaderValue>)
    ensures
        header_fields(r) == header_fields(*h),
{
    h.clone()
}

// ---------------------------------------------------------------------------
// URLs
// ---------------------------------------------------------------------------

/// The normal form of the URL that a string writes, if it writes one.
pub uninterp spec fn parsed_url(s: Seq<char>) -> Option<Seq<char>>;

/// `Url::parse`, with the URL given in its normal form.
#[verifier::external_body]
pub(crate) fn parse_url(s: &str) -> (r: Option<String>)
    ensures
        match r {
            Some(u) => parsed_url(s@) == Some(u@),
            None => parsed_url(s@) is None,
        },
{
    Url::parse(s).ok().map(String::from)
}

/// The host that a string names as a URL, if it is a URL with a host.
pub uninterp spec fn url_host(s: Seq<char>) -> Option<Seq<char>>;

/// `Url::host_str`, on the URL that the string writes.
#[verifier::external_body]
pub(crate) fn host_of(s: &str) -> (r: Option<String>)
    ensures
        match r {
            Some(h) => url_host(s@) == Some(h@),
            None => url_host(s@) is None,
        },
{
    Url::parse(s).ok().and_then(|u| u.host_str().map(String::from))
}

/// The normal form of the URL that `reference` names as seen from `base`, if
/// it names one.
pub uninterp spec fn joined_url(base: Seq<char>, reference: Seq<char>) -> Option<Seq<char>>;

/// `Url::join`, with the URL given in its normal form.
#[verifier::external_body]
pub(crate) fn join_url(base: &str, reference: &str) -> (r: Option<String>)
    ensures
        match r {
            Some(u) => joined_url(base@, reference@) == Some(u@),
            None => joined_url(base@, reference@) is None,
        },
{
    Url::parse(base).ok().and_then(|b| b.join(reference).ok()).map(String::from)
}

/// The scheme of the URL that a string writes, if it writes one.
pub uninterp spec fn url_scheme(s: Seq<char>) -> Option<Seq<char>>;

/// `Url::scheme`, on the URL that the string writes.
#[verifier::external_body]
pub(crate) fn scheme_of(s: &str) -> (r: Option<String>)
    ensures
        match r {
            Some(p) => url_scheme(s@) == Some(p@),
            None => url_scheme(s@) is None,
        },
{
    Url::parse(s).ok().map(|u| u.scheme().to_string())
}

/// The path of the URL that a string writes, if it writes one.
pub uninterp spec fn url_path(s: Seq<char>) -> Option<Seq<char>>;

/// `Url::path`, on the URL that the string writes.
#[verifier::external_body]
pub(crate) fn path_of(s: &str) -> (r: Option<String>)
    ensures
        match r {
            Some(p) => url_path(s@) == Some(p@),
            None => url_path(s@) is None,
        },
{
    Url::parse(s).ok().map(|u| u.path().to_string())
}

/// Whether two URLs have the same origin, neither of them with another URL
/// inside.
pub uninterp spec fn same_origin_urls(a: Seq<char>, b: Seq<char>) -> bool;

/// `Url::origin`, compared for two URLs. An opaque origin equals no other. The
/// origin of a `blob` URL is that of the URL in its path, which `Url::origin`
/// finds by calling itself; such URLs are left out, so that it does not.
#[verifier::external_body]
pub(crate) fn same_origin(a: &str, b: &str) -> (r: bool)
    requires
        url_scheme(a@) != Some("blob"@),
        url_scheme(b@) != Some("blob"@),
    ensures
        r == same_origin_urls(a@, b@),
{
    match (Url::parse(a), Url::parse(b)) {
        (Ok(a), Ok(b)) => a.origin() == b.origin(),
        _ => false,
    }
}

/// The URL that the origin of `s` is told by: `s` itself, or for a `blob` URL
/// the one in its path, taken out at most `depth` times.
pub open spec fn innermost(s: Seq<char>, depth: nat) -> Option<Seq<char>>
    decreases depth,
{
    if url_scheme(s) != Some("blob"@) {
        Some(s)
    } else if depth == 0 {
        None
    } else {
        match url_path(s) {
            Some(p) => innermost(p, (depth - 1) as nat),
            None => None,
        }
    }
}

/// The URL that the origin of `s` is told by. Each URL inside another has a
/// colon of its own, so none stands deeper than `s` is long.
pub open spec fn origin_url(s: Seq<char>) -> Option<Seq<char>> {
    innermost(s, s.len())
}

/// Whether two URLs have the same origin.
pub open spec fn one_origin(a: Seq<char>, b: Seq<char>) -> bool {
    match (origin_url(a), origin_url(b)) {
        (Some(x), Some(y)) => same_origin_urls(x, y),
        _ => false,
    }
}

fn find_origin_url(s: &str) -> (r: Option<String>)
    ensures
        match r {
            Some(u) => origin_url(s@) == Some(u@) && url_scheme(u@) != Some("blob"@),
            None => origin_url(s@) is None,
        },
{
    let mut url = s.to_owned();
    let mut depth: usize = text::chars_of(s).len();
    loop
        invariant
            origin_url(s@) == innermost(url@, depth as nat),
        decreases depth,
    {
        let blob = match scheme_of(&url) {
            Some(scheme) => text::same(&scheme, "blob"),
            None => false,
        };
        if !blob {
            return Some(url);
        }
        if depth == 0 {
            return None;
        }
        match path_of(&url) {
            Some(path) => {
                url = path;
            },
            None => {
                return None;
            },
        }
        depth -= 1;
    }
}

/// Tells whether two URLs have the same origin.
pub fn have_one_origin(a: &str, b: &str) -> (r: bool)
    ensures
        r == one_origin(a@, b@),
{
    match (find_origin_url(a), find_origin_url(b)) {
        (Some(x), Some(y)) => same_origin(&x, &y),
        _ => false,
    }
}

// ---------------------------------------------------------------------------
// Cookie jars
// ---------------------------------------------------------------------------

#[verifier::external_type_specification]
#[verifier::external_body]
pub struct ExJar(Jar);

/// The cookies that a jar was offered, in order: the URL they came from and
/// the text that sets them. Which of them it keeps and for how long depends on
/// the text, on the URL and on the time.
pub uninterp spec fn offered_cookies(j: Jar) -> Seq<(Seq<char>, Seq<u8>)>;

/// `Jar::default`: a jar that was offered nothing.
#[verifier::external_body]
pub(crate) fn new_jar() -> (r: Jar)
    ensures
        offered_cookies(r).len() == 0,
{
    Jar::default()
}

/// `Jar::add_cookie_str`: offers a cookie as text.
#[verifier::external_body]
pub(crate) fn add_cookie(j: &mut Jar, cookie: &str, url: &str)
    ensures
        offered_cookies(*final(j)) == offered_cookies(*old(j)).push((url@, vstd::utf8::encode_utf8(cookie@))),
{
    if let Ok(url) = Url::parse(url) {
        j.add_cookie_str(cookie, &url);
    }
}

/// `CookieStore::set_cookies`, with one header value: offers the cookie that
/// it sets.
#[verifier::external_body]
pub(crate) fn set_cookie(j: &mut Jar, value: &Vec<u8>, url: &str)
    ensures
        offered_cookies(*final(j)) == offered_cookies(*old(j)).push((url@, value@)),
{
    if let (Ok(value), Ok(url)) = (HeaderValue::from_bytes(value), Url::parse(url)) {
        j.set_cookies(&mut std::iter::once(&value), &url);
    }
}

/// Text that sets a cookie without attributes.
pub open spec fn is_plain_cookie(v: Seq<u8>) -> bool {
    forall|i: int| 0 <= i < v.len() ==> #[trigger] v[i] != 59
}

/// What stands before the first semicolon.
pub open spec fn head(v: Seq<u8>) -> Seq<u8>
    decreases v.len(),
{
    if v.len() == 0 || v[0] == 59 {
        Seq::empty()
    } else {
        seq![v[0]] + head(v.drop_first())
    }
}

/// The attributes in a cookie's text: the parts behind semicolons.
pub open spec fn attributes(t: Seq<char>) -> Seq<Seq<char>> {
    text::split(t, ';').drop_first()
}

/// The name of an attribute, in small letters.
pub open spec fn attribute_name(a: Seq<char>) -> Seq<char> {
    text::lowercase(text::trimmed(text::before(a, "="@)))
}

/// Whether a cookie's text has an attribute.
pub open spec fn has_attribute(v: Seq<u8>, name: Seq<char>) -> bool {
    visible_text(v) matches Some(t) && exists|i: int|
        0 <= i < attributes(t).len() && attribute_name(#[trigger] attributes(t)[i]) == name
}

/// The value of the last `Path` attribute.
pub open spec fn last_path(attributes: Seq<Seq<char>>) -> Option<Seq<char>>
    decreases attributes.len(),
{
    if attributes.len() == 0 {
        None
    } else {
        match text::after_char(attributes.last(), '=') {
            Some(value) if attribute_name(attributes.last()) == "path"@ => Some(
                text::trimmed(value),
            ),
            _ => last_path(attributes.drop_last()),
        }
    }
}

/// Text that sets a cookie for one host until the jar is gone: no attribute
/// widens it to a domain or ends it at some time.
pub open spec fn is_session_cookie(v: Seq<u8>) -> bool {
    is_plain_cookie(v) || (visible_text(v) is Some && !has_attribute(v, "domain"@)
        && !has_attribute(v, "max-age"@) && !has_attribute(v, "expires"@))
}

/// Text whose byte `k` is the equals sign between a name, which is a token, and
/// a value of visible characters without a semicolon or white space around it.
pub open spec fn is_pair_at(v: Seq<u8>, k: int) -> bool {
    &&& 0 < k < v.len()
    &&& v[k] == 61
    &&& forall|i: int| 0 <= i < k ==> is_tchar(#[trigger] v[i] as char)
    &&& forall|i: int| k < i < v.len() ==> is_visible(#[trigger] v[i]) && v[i] != 59
    &&& k + 1 < v.len() ==> v[k + 1] > 32 && v.last() > 32
}

/// A session cookie that is a name and a value, with the equals sign between
/// them at `k`, and attributes.
pub open spec fn is_cookie_at(v: Seq<u8>, k: int) -> bool {
    is_pair_at(head(v), k) && is_session_cookie(v)
}

/// A session cookie that is a name and a value with attributes.
pub open spec fn is_cookie(v: Seq<u8>) -> bool {
    exists|k: int| is_cookie_at(v, k)
}

/// A host of small letters, digits, dots and single hyphens that does not begin
/// with a dot.
pub open spec fn is_simple_host(h: Seq<char>) -> bool {
    &&& h.len() > 0
    &&& h[0] != '.'
    &&& forall|i: int|
        0 <= i < h.len() ==> 'a' <= #[trigger] h[i] <= 'z' || '0' <= h[i] <= '9' || h[i] == '.'
            || h[i] == '-'
    &&& forall|i: int| 0 < i < h.len() && #[trigger] h[i] == '-' ==> h[i - 1] != '-'
}

/// A URL of the web with a simple host.
pub open spec fn is_web_url(s: Seq<char>) -> bool {
    &&& "http://"@.is_prefix_of(s) || "https://"@.is_prefix_of(s)
    &&& url_host(s) matches Some(h) && is_simple_host(h)
}

/// The directory of a path: what stands before its last slash, and the root
/// where nothing does.
pub open spec fn directory(p: Seq<char>) -> Seq<char>
    decreases p.len(),
{
    if p.len() == 0 {
        seq!['/']
    } else if p.last() != '/' {
        directory(p.drop_last())
    } else if p.len() == 1 {
        p
    } else {
        p.drop_last()
    }
}

/// The directory of a URL.
pub open spec fn directory_of(url: Seq<char>) -> Seq<char> {
    match url_path(url) {
        Some(p) => directory(p),
        None => seq!['/'],
    }
}

/// Whether a path is a directory or lies in it.
pub open spec fn path_within(dir: Seq<char>, p: Seq<char>) -> bool {
    dir == p || (dir.is_prefix_of(p) && (dir.last() == '/' || p[dir.len() as int] == '/'))
}

/// Where on its host the session cookie of an offer belongs: the path that it
/// names, and without one the directory of the URL that it came from.
pub open spec fn cookie_directory(offer: (Seq<char>, Seq<u8>)) -> Seq<char> {
    match visible_text(offer.1) {
        Some(t) => match last_path(attributes(t)) {
            Some(p) if p.len() > 0 && p[0] == '/' => p,
            _ => directory_of(offer.0),
        },
        None => directory_of(offer.0),
    }
}

/// Whether the session cookie of an offer is meant for a URL: it stays with its
/// host, and there with its directory.
pub open spec fn is_meant_for(offer: (Seq<char>, Seq<u8>), url: Seq<char>) -> bool {
    &&& url_host(offer.0) == url_host(url)
    &&& url_path(url) matches Some(p) && path_within(cookie_directory(offer), p)
}

/// Whether the scheme of a URL suits a cookie: a secure one needs `https`, and
/// one that is for HTTP alone needs one of the two schemes of the web.
pub open spec fn suits(v: Seq<u8>, url: Seq<char>) -> bool {
    &&& has_attribute(v, "secure"@) ==> "https://"@.is_prefix_of(url)
    &&& has_attribute(v, "httponly"@) ==> "http://"@.is_prefix_of(url) || "https://"@.is_prefix_of(
        url,
    )
}

/// Whether the session cookies of two offers are kept in one place.
pub open spec fn same_place(a: (Seq<char>, Seq<u8>), b: (Seq<char>, Seq<u8>)) -> bool {
    url_host(a.0) == url_host(b.0) && cookie_directory(a) == cookie_directory(b)
}

/// Whether `name` stands in `v[a..b]` with the first equals sign of `v` at `k`,
/// and no character of a token around it.
pub open spec fn is_named_at(v: Seq<u8>, name: Seq<u8>, a: int, b: int, k: int) -> bool {
    &&& 0 <= a <= b <= k < v.len()
    &&& v[k] == 61
    &&& forall|i: int| 0 <= i < k ==> #[trigger] v[i] != 61
    &&& v.subrange(a, b) == name
    &&& forall|i: int| 0 <= i < a || b <= i < k ==> !is_tchar(#[trigger] v[i] as char)
}

/// Whether text may set a cookie with a name.
pub open spec fn may_set(v: Seq<u8>, name: Seq<u8>) -> bool {
    exists|a: int, b: int, k: int| is_named_at(v, name, a, b, k)
}

/// Whether an offer may replace, or end, the session cookie of an earlier one,
/// which has a given name.
pub open spec fn may_replace(
    later: (Seq<char>, Seq<u8>),
    earlier: (Seq<char>, Seq<u8>),
    name: Seq<u8>,
) -> bool {
    may_set(later.1, name) && (is_session_cookie(later.1) ==> same_place(later, earlier))
}

/// Whether offer `i` is a session cookie, with its equals sign at `k`, that no
/// later offer may have replaced.
pub open spec fn lasts(offered: Seq<(Seq<char>, Seq<u8>)>, i: int, k: int) -> bool {
    &&& 0 <= i < offered.len()
    &&& is_cookie_at(offered[i].1, k)
    &&& is_web_url(offered[i].0)
    &&& forall|j: int|
        i < j < offered.len() ==> !may_replace(
            #[trigger] offered[j],
            offered[i],
            head(offered[i].1).take(k),
        )
}

/// Whether the session cookie of offer `j` stands in for that of offer `i`.
pub open spec fn stands_in(
    offered: Seq<(Seq<char>, Seq<u8>)>,
    i: int,
    j: int,
    k: int,
    l: int,
) -> bool {
    &&& i < j < offered.len()
    &&& is_cookie_at(offered[i].1, k)
    &&& is_cookie_at(offered[j].1, l)
    &&& head(offered[i].1).take(k) == head(offered[j].1).take(l)
    &&& is_web_url(offered[j].0)
    &&& same_place(offered[i], offered[j])
}

/// Whether `item` is a piece of `v` before an equals sign and one behind it,
/// with the sign between them.
pub open spec fn is_cut_at(
    v: Seq<u8>,
    item: Seq<u8>,
    a: int,
    b: int,
    k: int,
    c: int,
    d: int,
) -> bool {
    &&& 0 <= a <= b <= k < c <= d <= v.len()
    &&& v[k] == 61
    &&& item == v.subrange(a, b) + seq![61u8] + v.subrange(c, d)
}

/// Whether a jar may show offer `i` as `item` for a URL. A session cookie is
/// shown as its name and value, to the URLs that it is meant for, unless another
/// stands in for it.
pub open spec fn may_show(
    offered: Seq<(Seq<char>, Seq<u8>)>,
    url: Seq<char>,
    i: int,
    item: Seq<u8>,
) -> bool {
    let (from, v) = offered[i];
    &&& 0 <= i < offered.len()
    &&& exists|a: int, b: int, k: int, c: int, d: int| is_cut_at(v, item, a, b, k, c, d)
    &&& is_session_cookie(v) ==> url_host(from) == url_host(url)
    &&& is_cookie(v) ==> item == head(v)
    &&& is_cookie(v) && is_web_url(from) ==> is_meant_for(offered[i], url) && !exists|
        j: int,
        k: int,
        l: int,
    |
        stands_in(offered, i, j, k, l)
}

/// Whether a jar may list, for a URL, the offers `picked` as `items`: each at
/// most once, and among them every session cookie that lasts, is meant for the
/// URL and suits its scheme.
pub open spec fn may_list(
    offered: Seq<(Seq<char>, Seq<u8>)>,
    url: Seq<char>,
    picked: Seq<int>,
    items: Seq<Seq<u8>>,
) -> bool {
    &&& picked.len() == items.len()
    &&& picked.no_duplicates()
    &&& forall|n: int| 0 <= n < picked.len() ==> may_show(offered, url, #[trigger] picked[n], items[n])
    &&& forall|i: int, k: int| #[trigger]
        lasts(offered, i, k) && is_meant_for(offered[i], url) && suits(offered[i].1, url)
            ==> picked.contains(i)
}

proof fn lemma_head_is_prefix(v: Seq<u8>)
    ensures
        head(v).is_prefix_of(v),
    decreases v.len(),
{
    if v.len() > 0 && v[0] != 59 {
        lemma_head_is_prefix(v.drop_first());
        assert forall|i: int| 0 <= i < head(v).len() implies head(v)[i] == v[i] by {
            if i > 0 {
                assert(head(v)[i] == head(v.drop_first())[i - 1]);
                assert(v.drop_first()[i - 1] == v[i]);
            }
        }
    }
}

/// A cookie without attributes is all name and value.
pub proof fn plain_cookies_are_all_head(v: Seq<u8>)
    requires
        is_plain_cookie(v),
    ensures
        head(v) == v,
    decreases v.len(),
{
    if v.len() > 0 {
        assert forall|i: int| 0 <= i < v.drop_first().len() implies #[trigger] v.drop_first()[i]
            != 59 by {
            assert(v[i + 1] != 59);
        }
        plain_cookies_are_all_head(v.drop_first());
        assert(v[0] != 59);
        assert(seq![v[0]] + v.drop_first() =~= v);
    } else {
        assert(head(v) =~= v);
    }
}

/// A cookie's text sets a cookie with its own name and no other, so cookies with
/// different names do not replace each other.
pub proof fn cookies_set_only_their_name(v: Seq<u8>, k: int, name: Seq<u8>)
    requires
        is_pair_at(head(v), k),
    ensures
        may_set(v, name) <==> name == head(v).take(k),
{
    lemma_head_is_prefix(v);
    let h = head(v);
    assert(forall|i: int| 0 <= i < h.len() ==> h[i] == v[i]);
    if may_set(v, name) {
        let (a, b, e) = choose|a: int, b: int, e: int| is_named_at(v, name, a, b, e);
        assert(v[k] == h[k] && v[e] == 61);
        assert(e < k ==> is_tchar(h[e] as char));
        assert(e == k);
        assert(is_tchar(h[0] as char) && is_tchar(h[k - 1] as char));
        assert(a == 0 && b == k);
        assert(v.subrange(0, k) =~= h.take(k));
    }
    if name == h.take(k) {
        assert forall|i: int| 0 <= i < k implies #[trigger] v[i] != 61 by {
            assert(is_tchar(h[i] as char));
        }
        assert(v.subrange(0, k) =~= name);
        assert(is_named_at(v, name, 0, k, k));
    }
}

/// The items of a `Cookie` header, with a semicolon and a space between them.
pub open spec fn cookie_list(items: Seq<Seq<u8>>) -> Seq<u8>
    decreases items.len(),
{
    if items.len() == 0 {
        Seq::empty()
    } else if items.len() == 1 {
        items[0]
    } else {
        cookie_list(items.drop_last()) + seq![59u8, 32] + items.last()
    }
}

/// The value of a `Cookie` header with the given items; none without items.
pub open spec fn cookie_value(items: Seq<Seq<u8>>) -> Option<Seq<u8>> {
    if items.len() == 0 {
        None
    } else {
        Some(cookie_list(items))
    }
}

/// Whether all that was offered can be sent in a header.
pub open spec fn can_be_sent(offered: Seq<(Seq<char>, Seq<u8>)>) -> bool {
    forall|i: int| 0 <= i < offered.len() ==> is_header_value((#[trigger] offered[i]).1)
}

/// What a jar may answer when asked for the cookies for a URL, whatever the time
/// is. Where it was offered what cannot be sent, it may not answer at all.
pub open spec fn may_answer(
    offered: Seq<(Seq<char>, Seq<u8>)>,
    url: Seq<char>,
    answer: Option<Seq<u8>>,
) -> bool {
    exists|picked: Seq<int>, items: Seq<Seq<u8>>| #[trigger]
        may_list(offered, url, picked, items) && (answer == cookie_value(items) || (answer is None
            && !can_be_sent(offered)))
}

/// The bytes of an optional header value.
pub open spec fn bytes_of(v: Option<Vec<u8>>) -> Option<Seq<u8>> {
    match v {
        Some(b) => Some(b@),
        None => None,
    }
}

/// `CookieStore::cookies`: the jar's cookies for a URL, as the value of a
/// `Cookie` header. A session cookie never expires, stays with its host and
/// directory, and is replaced only by one of the same name there, so
/// `may_answer` tells which of those are listed. Which others are depends on
/// their domains and on the time, and the order is open.
#[verifier::external_body]
pub(crate) fn cookies_for(j: &Jar, url: &str) -> (r: Option<Vec<u8>>)
    ensures
        r matches Some(v) ==> is_header_value(v@),
        may_answer(offered_cookies(*j), url@, bytes_of(r)),
{
    let url = Url::parse(url).ok()?;
    j.cookies(&url).map(|v| v.as_bytes().to_vec())
}

// ---------------------------------------------------------------------------
// What holds of every call
// ---------------------------------------------------------------------------

/// Text is read character for byte, where all bytes are printable ASCII or tabs.
pub proof fn visible_bytes_are_text(v: Seq<u8>)
    ensures
        match visible_text(v) {
            Some(t) => t.len() == v.len() && forall|i: int|
                0 <= i < v.len() ==> {
                    &&& (32 <= #[trigger] v[i] <= 126 || v[i] == 9)
                    &&& t[i] == v[i] as char
                },
            None => exists|i: int|
                0 <= i < v.len() && !(32 <= #[trigger] v[i] <= 126) && v[i] != 9,
        },
{
    if visible_text(v) is None {
        let i = choose|i: int| 0 <= i < v.len() && !is_visible(#[trigger] v[i]);
        assert(!(32 <= v[i] <= 126) && v[i] != 9);
    } else {
        assert forall|i: int| 0 <= i < v.len() implies {
            &&& (32 <= #[trigger] v[i] <= 126 || v[i] == 9)
            &&& visible_text(v)->0[i] == v[i] as char
        } by {
            assert(is_visible(v[i]));
        }
    }
}

/// A header value is read as text character for byte, where all its bytes are
/// printable ASCII or tabs.
pub proof fn values_are_read_byte_by_byte(v: Vec<u8>, r: Option<String>)
    requires
        call_ensures(value_text, (&v,), r),
    ensures
        match r {
            Some(t) => t@.len() == v@.len() && forall|i: int|
                0 <= i < v@.len() ==> {
                    &&& (32 <= #[trigger] v@[i] <= 126 || v@[i] == 9)
                    &&& t@[i] == v@[i] as char
                },
            None => exists|i: int|
                0 <= i < v@.len() && !(32 <= #[trigger] v@[i] <= 126) && v@[i] != 9,
        },
{
    visible_bytes_are_text(v@);
}

/// Whether `chain` leads from a URL inwards: each URL but the last is a `blob`
/// URL, and the next stands in its path.
pub open spec fn leads_inwards(url: Seq<char>, chain: Seq<Seq<char>>) -> bool {
    &&& 0 < chain.len() <= url.len() + 1
    &&& chain[0] == url
    &&& forall|i: int|
        0 <= i < chain.len() - 1 ==> url_scheme(#[trigger] chain[i]) == Some("blob"@)
    &&& forall|i: int|
        0 <= i < chain.len() - 1 ==> url_path(#[trigger] chain[i]) == Some(chain[i + 1])
}

proof fn lemma_innermost(chain: Seq<Seq<char>>, depth: nat)
    requires
        0 < chain.len() <= depth + 1,
        forall|i: int|
            0 <= i < chain.len() - 1 ==> url_scheme(#[trigger] chain[i]) == Some("blob"@),
        forall|i: int|
            0 <= i < chain.len() - 1 ==> url_path(#[trigger] chain[i]) == Some(chain[i + 1]),
    ensures
        url_scheme(chain.last()) != Some("blob"@) ==> innermost(chain[0], depth) == Some(
            chain.last(),
        ),
        url_scheme(chain.last()) == Some("blob"@) && url_path(chain.last()) is None ==> innermost(
            chain[0],
            depth,
        ) is None,
    decreases chain.len(),
{
    if chain.len() > 1 {
        let rest = chain.drop_first();
        assert forall|i: int| 0 <= i < rest.len() - 1 implies url_scheme(#[trigger] rest[i]) == Some(
            "blob"@,
        ) && url_path(rest[i]) == Some(rest[i + 1]) by {
            assert(rest[i] == chain[i + 1]);
            assert(rest[i + 1] == chain[i + 2]);
        }
        assert(url_scheme(chain[0]) == Some("blob"@));
        lemma_innermost(rest, (depth - 1) as nat);
    }
}

/// Origins are compared for the URLs that tell them: a URL itself, and of a
/// `blob` URL the one inside. A `blob` URL with nothing inside has no origin that
/// another could share.
pub proof fn origins_are_those_of_the_innermost(
    a: &str,
    b: &str,
    x: Seq<Seq<char>>,
    y: Seq<Seq<char>>,
    r: bool,
)
    requires
        call_ensures(have_one_origin, (a, b), r),
        leads_inwards(a@, x),
        leads_inwards(b@, y),
        url_scheme(x.last()) == Some("blob"@) ==> url_path(x.last()) is None,
        url_scheme(y.last()) == Some("blob"@) ==> url_path(y.last()) is None,
    ensures
        r <==> url_scheme(x.last()) != Some("blob"@) && url_scheme(y.last()) != Some("blob"@)
            && same_origin_urls(x.last(), y.last()),
{
    lemma_innermost(x, a@.len());
    lemma_innermost(y, b@.len());
}

/// The same where neither URL is a `blob` URL: their own origins are compared.
pub proof fn web_origins_are_compared(a: Seq<char>, b: Seq<char>)
    requires
        url_scheme(a) != Some("blob"@),
        url_scheme(b) != Some("blob"@),
    ensures
        one_origin(a, b) == same_origin_urls(a, b),
{
}

} // verus!
