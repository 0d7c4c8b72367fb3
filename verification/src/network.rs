//! Network traffic capture and semantic classification.
//!
//! Requests are classified by URL and method (auth, API, asset, navigation,
//! WebSocket, other) and kept with the response data that later events add.
use vstd::prelude::*;

use crate::text::{
    before_char, before_char_exec, char_pos, char_pos_exec, chars_of, contains, ends,
    ends_with, find, find_exec, has, has_char, has_char_exec, eq_lit, lemma_char_pos_from,
    lemma_find_from, matches_at, slice_vec, split_char, split_char_exec, starts, starts_with, to_lower,
    unicode_lower, views, utf8_take, utf8_truncate, str_eq, ascii_lower,
    ascii_lower_exec, copy_str, eq_chars, string_views, opt_view,
};

verus! {

/// Classification of a network request by its semantic purpose.
#[derive(Debug, Clone, Copy, PartialEq, Eq, Structural)]
pub enum RequestKind {
    /// Authentication endpoints (/oauth, /token, /login, /session, /auth)
    Auth,
    /// API calls (JSON responses, REST/GraphQL endpoints)
    Api,
    /// Static assets (CSS, JS, images, fonts)
    Asset,
    /// HTML document loads (page navigations)
    Navigation,
    /// WebSocket connections
    WebSocket,
    /// Unknown / unclassified
    Other,
}

/// A captured network request with its classification.
#[derive(Debug)]
pub struct CapturedRequest {
    /// Unique request identifier.
    pub request_id: String,
    /// Request URL.
    pub url: String,
    /// HTTP method (GET, POST, etc.).
    pub method: String,
    /// Semantic classification.
    pub kind: RequestKind,
    /// HTTP status code (0 if no response yet).
    pub status: u16,
    /// Response MIME type.
    pub mime_type: Option<String>,
    /// Whether the response set cookies (Set-Cookie header present).
    pub has_set_cookie: bool,
    /// Request timestamp (milliseconds since epoch).
    pub timestamp_ms: u64,
    /// Response body size in bytes.
    pub response_size: Option<u64>,
    /// POST body (cut to its longest prefix of at most 1024 UTF-8 bytes
    /// that ends on a character boundary; only for Auth/API requests).
    pub post_data: Option<String>,
}

/// Summary of network traffic.
#[derive(Debug, Clone, Copy, PartialEq, Eq, Structural)]
pub struct NetworkSummary {
    pub total_requests: u32,
    pub auth_count: u32,
    pub api_count: u32,
    pub navigation_count: u32,
    pub asset_count: u32,
    pub other_count: u32,
    pub total_bytes: u64,
    /// How many auth endpoints responded with Set-Cookie.
    pub auth_with_cookies: u32,
}

/// Network traffic collector: accumulates requests during a run.
///
/// `requests` holds each request once, keyed by `request_id`, in the order
/// the ids were first seen.
#[derive(Debug)]
pub struct NetworkCapture {
    /// All captured requests; no two share a `request_id`.
    pub requests: Vec<CapturedRequest>,
    /// Ids of auth-related requests, in the order they were classified.
    pub auth_requests: Vec<String>,
    /// Ids of API requests, in the order they were classified.
    pub api_requests: Vec<String>,
}

// ── Classification model ─────────────────────────────────────────────

/// URL fragments that mark an authentication endpoint.
pub open spec fn has_auth_pattern(u: Seq<char>) -> bool {
    ||| contains(u, "/oauth"@)
    ||| contains(u, "/auth"@)
    ||| contains(u, "/login"@)
    ||| contains(u, "/signin"@)
    ||| contains(u, "/sign-in"@)
    ||| contains(u, "/sign_in"@)
    ||| contains(u, "/token"@)
    ||| contains(u, "/session"@)
    ||| contains(u, "/callback"@)
    ||| contains(u, "/authorize"@)
    ||| contains(u, "/sso"@)
    ||| contains(u, "/saml"@)
    ||| contains(u, "/api/auth"@)
    ||| contains(u, "/api/login"@)
    ||| contains(u, "/api/session"@)
    ||| contains(u, "accounts.google.com"@)
    ||| contains(u, "github.com/login"@)
    ||| contains(u, "login.microsoftonline.com"@)
    ||| contains(u, "facebook.com/dialog"@)
    ||| contains(u, "appleid.apple.com"@)
}

/// Path segments that mark a login-like POST target.
pub open spec fn is_login_segment(p: Seq<char>) -> bool {
    ||| p == "login"@
    ||| p == "signin"@
    ||| p == "auth"@
    ||| p == "token"@
    ||| p == "register"@
    ||| p == "signup"@
}

/// Some '/'-separated piece of `path` is a login-like segment.
pub open spec fn has_login_segment(path: Seq<char>) -> bool {
    exists|i: int|
        0 <= i < split_char(path, '/').len() && #[trigger] is_login_segment(
            split_char(path, '/')[i],
        )
}

/// The lower-cased URL `u` with method `m` is an auth request.
pub open spec fn is_auth_url(u: Seq<char>, m: Seq<char>) -> bool {
    has_auth_pattern(u) || (m == "POST"@ && has_login_segment(before_char(u, '?')))
}

/// File extensions of static assets.
pub open spec fn has_asset_ext(p: Seq<char>) -> bool {
    ||| ends_with(p, ".css"@)
    ||| ends_with(p, ".js"@)
    ||| ends_with(p, ".png"@)
    ||| ends_with(p, ".jpg"@)
    ||| ends_with(p, ".jpeg"@)
    ||| ends_with(p, ".gif"@)
    ||| ends_with(p, ".svg"@)
    ||| ends_with(p, ".woff"@)
    ||| ends_with(p, ".woff2"@)
    ||| ends_with(p, ".ttf"@)
    ||| ends_with(p, ".eot"@)
    ||| ends_with(p, ".ico"@)
    ||| ends_with(p, ".webp"@)
    ||| ends_with(p, ".map"@)
    ||| ends_with(p, ".br"@)
    ||| ends_with(p, ".gz"@)
}

/// URL fragments of API endpoints.
pub open spec fn has_api_marker(u: Seq<char>) -> bool {
    contains(u, "/api/"@) || contains(u, "/graphql"@) || contains(u, "/v1/"@) || contains(
        u,
        "/v2/"@,
    )
}

/// The path of a URL: what follows the host, before the query; `/` when
/// there is no scheme separator or no slash after the host.
pub open spec fn url_path(u: Seq<char>) -> Seq<char> {
    let nq = before_char(u, '?');
    match find(nq, "://"@) {
        Some(k) => match char_pos(nq.skip((k + 3) as int), '/') {
            Some(j) => nq.skip((k + 3 + j) as int),
            None => "/"@,
        },
        None => "/"@,
    }
}

/// Classification of a lower-cased URL with its method.
pub open spec fn classify(u: Seq<char>, m: Seq<char>) -> RequestKind {
    if starts_with(u, "ws://"@) || starts_with(u, "wss://"@) {
        RequestKind::WebSocket
    } else if is_auth_url(u, m) {
        RequestKind::Auth
    } else if has_asset_ext(before_char(u, '?')) {
        RequestKind::Asset
    } else if has_api_marker(u) {
        RequestKind::Api
    } else if m == "GET"@ && !has_char(url_path(u), '.') {
        RequestKind::Navigation
    } else {
        RequestKind::Other
    }
}

// ── Classification laws ──────────────────────────────────────────────

/// A `ws://` or `wss://` URL is a WebSocket, whatever its method.
pub proof fn lemma_websocket_urls(lu: Seq<char>, m: Seq<char>)
    requires
        starts_with(lu, "ws://"@) || starts_with(lu, "wss://"@),
    ensures
        classify(lu, m) == RequestKind::WebSocket,
{
}

/// A (non-WebSocket) URL holding one of the authentication fragments, or a
/// POST whose path (before the query) has a `login`, `signin`, `auth`,
/// `token`, `register` or `signup` segment, is an auth request.
pub proof fn lemma_auth_urls(lu: Seq<char>, m: Seq<char>, seg: int)
    requires
        !starts_with(lu, "ws://"@),
        !starts_with(lu, "wss://"@),
        ({
            ||| contains(lu, "/oauth"@)
            ||| contains(lu, "/auth"@)
            ||| contains(lu, "/login"@)
            ||| contains(lu, "/signin"@)
            ||| contains(lu, "/sign-in"@)
            ||| contains(lu, "/sign_in"@)
            ||| contains(lu, "/token"@)
            ||| contains(lu, "/session"@)
            ||| contains(lu, "/callback"@)
            ||| contains(lu, "/authorize"@)
            ||| contains(lu, "/sso"@)
            ||| contains(lu, "/saml"@)
            ||| contains(lu, "/api/auth"@)
            ||| contains(lu, "/api/login"@)
            ||| contains(lu, "/api/session"@)
            ||| contains(lu, "accounts.google.com"@)
            ||| contains(lu, "github.com/login"@)
            ||| contains(lu, "login.microsoftonline.com"@)
            ||| contains(lu, "facebook.com/dialog"@)
            ||| contains(lu, "appleid.apple.com"@)
            ||| (m == "POST"@ && 0 <= seg < split_char(before_char(lu, '?'), '/').len() && {
                let p = split_char(before_char(lu, '?'), '/')[seg];
                p == "login"@ || p == "signin"@ || p == "auth"@ || p == "token"@ || p == "register"@
                    || p == "signup"@
            })
        }),
    ensures
        classify(lu, m) == RequestKind::Auth,
{
    let segs = split_char(before_char(lu, '?'), '/');
    if m == "POST"@ && 0 <= seg < segs.len() && is_login_segment(segs[seg]) {
        assert(has_login_segment(before_char(lu, '?')));
    }
}

/// A URL that is neither a WebSocket nor an auth request, and whose part
/// before the query ends in a static-asset extension, is an asset.
pub proof fn lemma_asset_urls(lu: Seq<char>, m: Seq<char>)
    requires
        !starts_with(lu, "ws://"@),
        !starts_with(lu, "wss://"@),
        !is_auth_url(lu, m),
        ({
            let tail = before_char(lu, '?');
            ||| ends_with(tail, ".css"@)
            ||| ends_with(tail, ".js"@)
            ||| ends_with(tail, ".png"@)
            ||| ends_with(tail, ".jpg"@)
            ||| ends_with(tail, ".jpeg"@)
            ||| ends_with(tail, ".gif"@)
            ||| ends_with(tail, ".svg"@)
            ||| ends_with(tail, ".woff"@)
            ||| ends_with(tail, ".woff2"@)
            ||| ends_with(tail, ".ttf"@)
            ||| ends_with(tail, ".eot"@)
            ||| ends_with(tail, ".ico"@)
            ||| ends_with(tail, ".webp"@)
            ||| ends_with(tail, ".map"@)
            ||| ends_with(tail, ".br"@)
            ||| ends_with(tail, ".gz"@)
        }),
    ensures
        classify(lu, m) == RequestKind::Asset,
{
}

/// Only a URL whose part before the query ends in a static-asset extension
/// is classified as an asset.
pub proof fn lemma_assets_have_asset_extensions(lu: Seq<char>, m: Seq<char>)
    requires
        classify(lu, m) == RequestKind::Asset,
    ensures
        ({
            let tail = before_char(lu, '?');
            ||| ends_with(tail, ".css"@)
            ||| ends_with(tail, ".js"@)
            ||| ends_with(tail, ".png"@)
            ||| ends_with(tail, ".jpg"@)
            ||| ends_with(tail, ".jpeg"@)
            ||| ends_with(tail, ".gif"@)
            ||| ends_with(tail, ".svg"@)
            ||| ends_with(tail, ".woff"@)
            ||| ends_with(tail, ".woff2"@)
            ||| ends_with(tail, ".ttf"@)
            ||| ends_with(tail, ".eot"@)
            ||| ends_with(tail, ".ico"@)
            ||| ends_with(tail, ".webp"@)
            ||| ends_with(tail, ".map"@)
            ||| ends_with(tail, ".br"@)
            ||| ends_with(tail, ".gz"@)
        }),
{
}

/// A URL that is not a WebSocket, an auth request or an asset, and holds
/// `/api/`, `/graphql`, `/v1/` or `/v2/`, is an API call.
pub proof fn lemma_api_urls(lu: Seq<char>, m: Seq<char>)
    requires
        !starts_with(lu, "ws://"@),
        !starts_with(lu, "wss://"@),
        !is_auth_url(lu, m),
        !has_asset_ext(before_char(lu, '?')),
        contains(lu, "/api/"@) || contains(lu, "/graphql"@) || contains(lu, "/v1/"@) || contains(lu, "/v2/"@),
    ensures
        classify(lu, m) == RequestKind::Api,
{
}

/// A GET of a page URL (not a WebSocket, auth request, asset or API call)
/// whose path has no `.` is a navigation; any other method makes it
/// `Other`.
pub proof fn lemma_navigation_urls(lu: Seq<char>, m: Seq<char>)
    requires
        !starts_with(lu, "ws://"@),
        !starts_with(lu, "wss://"@),
        !is_auth_url(lu, m),
        !has_asset_ext(before_char(lu, '?')),
        !(contains(lu, "/api/"@) || contains(lu, "/graphql"@) || contains(lu, "/v1/"@) || contains(lu, "/v2/"@)),
    ensures
        (m == "GET"@ && !has_char(url_path(lu), '.')) ==> classify(lu, m) == RequestKind::Navigation,
        m != "GET"@ ==> classify(lu, m) == RequestKind::Other,
{
}

/// Each kind has its reason: a WebSocket URL starts with `ws://` or
/// `wss://`; an auth request holds one of the authentication fragments or
/// is a POST with a login-like path segment; an API call holds `/api/`,
/// `/graphql`, `/v1/` or `/v2/`; a navigation is a GET whose path has no
/// `.`.
#[verifier::spinoff_prover]
pub proof fn lemma_kinds_have_reasons(lu: Seq<char>, m: Seq<char>)
    ensures
        classify(lu, m) == RequestKind::WebSocket ==> (starts_with(lu, "ws://"@) || starts_with(
            lu,
            "wss://"@,
        )),
        classify(lu, m) == RequestKind::Auth ==> ({
            ||| contains(lu, "/oauth"@)
            ||| contains(lu, "/auth"@)
            ||| contains(lu, "/login"@)
            ||| contains(lu, "/signin"@)
            ||| contains(lu, "/sign-in"@)
            ||| contains(lu, "/sign_in"@)
            ||| contains(lu, "/token"@)
            ||| contains(lu, "/session"@)
            ||| contains(lu, "/callback"@)
            ||| contains(lu, "/authorize"@)
            ||| contains(lu, "/sso"@)
            ||| contains(lu, "/saml"@)
            ||| contains(lu, "/api/auth"@)
            ||| contains(lu, "/api/login"@)
            ||| contains(lu, "/api/session"@)
            ||| contains(lu, "accounts.google.com"@)
            ||| contains(lu, "github.com/login"@)
            ||| contains(lu, "login.microsoftonline.com"@)
            ||| contains(lu, "facebook.com/dialog"@)
            ||| contains(lu, "appleid.apple.com"@)
            ||| (m == "POST"@ && exists|seg: int|
                0 <= seg < split_char(before_char(lu, '?'), '/').len() && {
                    let piece = #[trigger] split_char(before_char(lu, '?'), '/')[seg];
                    piece == "login"@ || piece == "signin"@ || piece == "auth"@ || piece
                        == "token"@ || piece == "register"@ || piece == "signup"@
                })
        }),
        classify(lu, m) == RequestKind::Api ==> (contains(lu, "/api/"@) || contains(lu, "/graphql"@)
            || contains(lu, "/v1/"@) || contains(lu, "/v2/"@)),
        classify(lu, m) == RequestKind::Navigation ==> (m == "GET"@ && !has_char(url_path(lu), '.')),
{
    if classify(lu, m) == RequestKind::Auth && !has_auth_pattern(lu) {
        let path = before_char(lu, '?');
        let seg = choose|i: int|
            0 <= i < split_char(path, '/').len() && #[trigger] is_login_segment(
                split_char(path, '/')[i],
            );
        assert(0 <= seg < split_char(path, '/').len() && is_login_segment(split_char(path, '/')[seg]));
    }
}

// ── Classification ───────────────────────────────────────────────────

fn has_auth_pattern_exec(u: &[char]) -> (b: bool)
    ensures
        b == has_auth_pattern(u@),
{
    has(u, "/oauth") || has(u, "/auth") || has(u, "/login") || has(u, "/signin") || has(
        u,
        "/sign-in",
    ) || has(u, "/sign_in") || has(u, "/token") || has(u, "/session") || has(u, "/callback")
        || has(u, "/authorize") || has(u, "/sso") || has(u, "/saml") || has(u, "/api/auth")
        || has(u, "/api/login") || has(u, "/api/session") || has(u, "accounts.google.com")
        || has(u, "github.com/login") || has(u, "login.microsoftonline.com") || has(
        u,
        "facebook.com/dialog",
    ) || has(u, "appleid.apple.com")
}

fn is_login_segment_exec(p: &[char]) -> (b: bool)
    ensures
        b == is_login_segment(p@),
{
    eq_lit(p, "login") || eq_lit(p, "signin") || eq_lit(p, "auth") || eq_lit(p, "token") || eq_lit(p, "register")
        || eq_lit(p, "signup")
}

fn has_login_segment_exec(path: &[char]) -> (b: bool)
    ensures
        b == has_login_segment(path@),
{
    let segs = split_char_exec(path, '/');
    let mut i: usize = 0;
    while i < segs.len()
        invariant
            i <= segs@.len(),
            views(segs@) == split_char(path@, '/'),
            forall|j: int| 0 <= j < i ==> !is_login_segment(#[trigger] split_char(path@, '/')[j]),
        decreases segs@.len() - i,
    {
        let hit = is_login_segment_exec(segs[i].as_slice());
        assert(split_char(path@, '/')[i as int] == segs@[i as int]@);
        if hit {
            return true;
        }
        i = i + 1;
    }
    false
}

fn is_auth_url_exec(u: &[char], m: &str) -> (b: bool)
    ensures
        b == is_auth_url(u@, m@),
{
    if has_auth_pattern_exec(u) {
        return true;
    }
    let mv = chars_of(m);
    if !eq_lit(mv.as_slice(), "POST") {
        return false;
    }
    let nq = before_char_exec(u, '?');
    has_login_segment_exec(nq.as_slice())
}

fn has_asset_ext_exec(p: &[char]) -> (b: bool)
    ensures
        b == has_asset_ext(p@),
{
    ends(p, ".css") || ends(p, ".js") || ends(p, ".png") || ends(p, ".jpg") || ends(p, ".jpeg")
        || ends(p, ".gif") || ends(p, ".svg") || ends(p, ".woff") || ends(p, ".woff2") || ends(
        p,
        ".ttf",
    ) || ends(p, ".eot") || ends(p, ".ico") || ends(p, ".webp") || ends(p, ".map") || ends(
        p,
        ".br",
    ) || ends(p, ".gz")
}

/// The path of a URL (see [`url_path`]).
fn extract_url_path(u: &[char]) -> (r: Vec<char>)
    ensures
        r@ == url_path(u@),
{
    let nq = before_char_exec(u, '?');
    let sep = chars_of("://");
    match find_exec(nq.as_slice(), sep.as_slice()) {
        Some(k) => {
            proof {
                reveal_strlit("://");
                lemma_find_from(nq@, "://"@, 0);
                assert(sep@.len() == 3);
                assert(matches_at(nq@, sep@, k as int));
            }
            assert(k + 3 <= nq.len());
            let after = slice_vec(nq.as_slice(), k + 3, nq.len());
            assert(after@ =~= nq@.skip(k + 3));
            match char_pos_exec(after.as_slice(), '/') {
                Some(j) => {
                    proof {
                        lemma_char_pos_from(after@, '/', 0);
                    }
                    let r = slice_vec(nq.as_slice(), k + 3 + j, nq.len());
                    assert(r@ =~= nq@.skip(k + 3 + j));
                    r
                },
                None => chars_of("/"),
            }
        },
        None => chars_of("/"),
    }
}

/// Classify a URL by its semantic purpose.
///
/// The URL is lower-cased first (`str::to_lowercase`); the method is
/// compared as given.
pub fn classify_url(url: &str, method: &str) -> (k: RequestKind)
    ensures
        k == classify(unicode_lower(url@), method@),
{
    let lower = to_lower(url);
    let u = chars_of(lower.as_str());
    if starts(u.as_slice(), "ws://") || starts(u.as_slice(), "wss://") {
        return RequestKind::WebSocket;
    }
    if is_auth_url_exec(u.as_slice(), method) {
        return RequestKind::Auth;
    }
    let nq = before_char_exec(u.as_slice(), '?');
    if has_asset_ext_exec(nq.as_slice()) {
        return RequestKind::Asset;
    }
    if has(u.as_slice(), "/api/") || has(u.as_slice(), "/graphql") || has(u.as_slice(), "/v1/")
        || has(u.as_slice(), "/v2/") {
        return RequestKind::Api;
    }
    let path = extract_url_path(u.as_slice());
    let mv = chars_of(method);
    if eq_lit(mv.as_slice(), "GET") && !has_char_exec(path.as_slice(), '.') {
        return RequestKind::Navigation;
    }
    RequestKind::Other
}


// ── Capture model ────────────────────────────────────────────────────

/// No two requests share an id.
pub open spec fn ids_unique(rs: Seq<CapturedRequest>) -> bool {
    forall|i: int, j: int|
        0 <= i < j < rs.len() ==> #[trigger] rs[i].request_id@ != #[trigger] rs[j].request_id@
}

/// Index of the request with id `id`, searching from `i`.
pub open spec fn find_req_from(rs: Seq<CapturedRequest>, id: Seq<char>, i: nat) -> Option<nat>
    decreases rs.len() - i,
{
    if i >= rs.len() {
        None
    } else if rs[i as int].request_id@ == id {
        Some(i)
    } else {
        find_req_from(rs, id, i + 1)
    }
}

/// Index of the request with id `id`.
pub open spec fn find_req(rs: Seq<CapturedRequest>, id: Seq<char>) -> Option<nat> {
    find_req_from(rs, id, 0)
}

/// `find_req_from` returns the first request with the id.
pub proof fn lemma_find_req_from(rs: Seq<CapturedRequest>, id: Seq<char>, i: nat)
    ensures
        match find_req_from(rs, id, i) {
            Some(k) => i <= k < rs.len() && rs[k as int].request_id@ == id && forall|j: int|
                i <= j < k ==> rs[j].request_id@ != id,
            None => forall|j: int| i <= j < rs.len() ==> rs[j].request_id@ != id,
        },
    decreases rs.len() - i,
{
    if i < rs.len() && rs[i as int].request_id@ != id {
        lemma_find_req_from(rs, id, i + 1);
    }
}

/// The stored POST body: kept (cut to 1024 UTF-8 bytes) only for auth and
/// API requests.
pub open spec fn kept_post(k: RequestKind, post: Option<Seq<char>>) -> Option<Seq<char>> {
    if k == RequestKind::Auth || k == RequestKind::Api {
        match post {
            Some(d) => Some(utf8_take(d, 1024)),
            None => None,
        }
    } else {
        None
    }
}

/// `r` is the record that `on_request` stores for the given arguments
/// (whatever timestamp the clock gave).
pub open spec fn is_new_record(
    r: CapturedRequest,
    id: Seq<char>,
    url: Seq<char>,
    method: Seq<char>,
    post: Option<Seq<char>>,
) -> bool {
    let k = classify(unicode_lower(url), method);
    &&& r.request_id@ == id
    &&& r.url@ == url
    &&& r.method@ == method
    &&& r.kind == k
    &&& r.status == 0
    &&& r.mime_type is None
    &&& !r.has_set_cookie
    &&& r.response_size is None
    &&& opt_view(r.post_data) == kept_post(k, post)
}

/// Header name `Set-Cookie`, ASCII case-insensitively.
pub open spec fn is_set_cookie(name: Seq<char>) -> bool {
    ascii_lower(name) == ascii_lower("set-cookie"@)
}

/// Some header is a `Set-Cookie` header.
pub open spec fn any_set_cookie(headers: Seq<(String, String)>) -> bool {
    exists|i: int| 0 <= i < headers.len() && #[trigger] is_set_cookie(headers[i].0@)
}

/// Kind after a response with MIME type `mime`: only `Other` is refined.
pub open spec fn reclassify(k: RequestKind, mime: Option<Seq<char>>) -> RequestKind {
    if k == RequestKind::Other {
        match mime {
            Some(m) => if contains(m, "json"@) || contains(m, "graphql"@) {
                RequestKind::Api
            } else if contains(m, "html"@) {
                RequestKind::Navigation
            } else {
                RequestKind::Other
            },
            None => RequestKind::Other,
        }
    } else {
        k
    }
}

/// A response refines only a request classified `Other`: a JSON or GraphQL
/// MIME type makes it an API request, else an HTML one a navigation; any
/// other kind, or no MIME type, is kept.
pub proof fn lemma_response_refines_other(kind: RequestKind, mt: Option<Seq<char>>)
    ensures
        kind != RequestKind::Other ==> reclassify(kind, mt) == kind,
        mt is None ==> reclassify(kind, mt) == kind,
        (kind == RequestKind::Other && mt is Some) ==> ({
            let t = mt->0;
            &&& (contains(t, "json"@) || contains(t, "graphql"@)) ==> reclassify(kind, mt)
                == RequestKind::Api
            &&& (!contains(t, "json"@) && !contains(t, "graphql"@) && contains(t, "html"@))
                ==> reclassify(kind, mt) == RequestKind::Navigation
            &&& (!contains(t, "json"@) && !contains(t, "graphql"@) && !contains(t, "html"@))
                ==> reclassify(kind, mt) == RequestKind::Other
        }),
{
}

/// Number of requests of kind `k`.
pub open spec fn count_kind(rs: Seq<CapturedRequest>, k: RequestKind) -> nat
    decreases rs.len(),
{
    if rs.len() == 0 {
        0
    } else {
        count_kind(rs.drop_last(), k) + if rs.last().kind == k {
            1nat
        } else {
            0nat
        }
    }
}

/// Every request is of exactly one kind: the per-kind counts add up to
/// the number of requests (the summary's counts partition its total).
pub proof fn lemma_kinds_partition(rs: Seq<CapturedRequest>)
    ensures
        count_kind(rs, RequestKind::Auth) + count_kind(rs, RequestKind::Api) + count_kind(
            rs,
            RequestKind::Navigation,
        ) + count_kind(rs, RequestKind::Asset) + count_kind(rs, RequestKind::WebSocket)
            + count_kind(rs, RequestKind::Other) == rs.len(),
    decreases rs.len(),
{
    if rs.len() > 0 {
        lemma_kinds_partition(rs.drop_last());
    }
}

/// Number of auth requests whose response set cookies.
pub open spec fn count_auth_cookies(rs: Seq<CapturedRequest>) -> nat
    decreases rs.len(),
{
    if rs.len() == 0 {
        0
    } else {
        count_auth_cookies(rs.drop_last()) + if rs.last().kind == RequestKind::Auth
            && rs.last().has_set_cookie {
            1nat
        } else {
            0nat
        }
    }
}

/// Sum of the known response sizes.
pub open spec fn sum_sizes(rs: Seq<CapturedRequest>) -> nat
    decreases rs.len(),
{
    if rs.len() == 0 {
        0
    } else {
        sum_sizes(rs.drop_last()) + match rs.last().response_size {
            Some(n) => n as nat,
            None => 0nat,
        }
    }
}

/// The requests that `ids` name, in the order of `ids`, skipping unknown ids.
pub open spec fn lookup_all(rs: Seq<CapturedRequest>, ids: Seq<Seq<char>>) -> Seq<CapturedRequest>
    decreases ids.len(),
{
    if ids.len() == 0 {
        seq![]
    } else {
        lookup_all(rs, ids.drop_last()) + match find_req(rs, ids.last()) {
            Some(i) => seq![rs[i as int]],
            None => seq![],
        }
    }
}

/// How `on_request` stores a request: a request with the id already stored
/// is replaced in place by the new record, else the new record is appended.
pub open spec fn stores_request(
    o: Seq<CapturedRequest>,
    n: Seq<CapturedRequest>,
    id: Seq<char>,
    url: Seq<char>,
    method: Seq<char>,
    post: Option<Seq<char>>,
) -> bool {
    match find_req(o, id) {
        Some(i) => {
            &&& n.len() == o.len()
            &&& is_new_record(n[i as int], id, url, method, post)
            &&& forall|j: int| 0 <= j < o.len() && j != i ==> n[j] == o[j]
        },
        None => {
            &&& n.len() == o.len() + 1
            &&& is_new_record(n.last(), id, url, method, post)
            &&& n.drop_last() == o
        },
    }
}

/// A request just recorded is found again by its id, as recorded: its URL
/// and method as given, classified from its lower-cased URL, with no
/// response yet (status 0, no MIME type, no cookie, no size); every other
/// request stays as it was (request ids distinct).
#[verifier::spinoff_prover]
pub proof fn lemma_recorded_request_found(
    o: Seq<CapturedRequest>,
    n: Seq<CapturedRequest>,
    id: Seq<char>,
    url: Seq<char>,
    method: Seq<char>,
    post: Option<Seq<char>>,
)
    requires
        ids_unique(o),
        stores_request(o, n, id, url, method, post),
    ensures
        find_req(n, id) matches Some(i) && {
            let r = n[i as int];
            &&& r.request_id@ == id
            &&& r.url@ == url
            &&& r.method@ == method
            &&& r.kind == classify(unicode_lower(url), method)
            &&& r.status == 0
            &&& r.mime_type is None
            &&& !r.has_set_cookie
            &&& r.response_size is None
        },
        forall|j: int| 0 <= j < o.len() && o[j].request_id@ != id ==> n.contains(#[trigger] o[j]),
{
    lemma_find_req_from(o, id, 0);
    match find_req(o, id) {
        Some(i) => {
            lemma_find_req_from(n, id, 0);
            assert forall|j: int| 0 <= j < i implies n[j].request_id@ != id by {
                assert(n[j] == o[j]);
            }
            assert(n[i as int].request_id@ == id);
            assert forall|j: int| 0 <= j < o.len() && o[j].request_id@ != id implies n.contains(
                #[trigger] o[j],
            ) by {
                assert(j != i);
                assert(n[j] == o[j]);
            }
        },
        None => {
            lemma_find_req_from(n, id, 0);
            let last = (n.len() - 1) as int;
            assert forall|j: int| 0 <= j < last implies n[j].request_id@ != id by {
                assert(n[j] == n.drop_last()[j]);
            }
            assert(n[last] == n.last());
            assert forall|j: int| 0 <= j < o.len() && o[j].request_id@ != id implies n.contains(
                #[trigger] o[j],
            ) by {
                assert(n[j] == n.drop_last()[j]);
            }
        },
    }
}

impl NetworkCapture {
    /// Well-formedness: request ids are unique.
    pub open spec fn wf(&self) -> bool {
        ids_unique(self.requests@)
    }

    /// An empty capture.
    pub fn new() -> (c: Self)
        ensures
            c.wf(),
            c.requests@.len() == 0,
            c.auth_requests@.len() == 0,
            c.api_requests@.len() == 0,
    {
        NetworkCapture { requests: Vec::new(), auth_requests: Vec::new(), api_requests: Vec::new() }
    }

    /// Index of the request with the given id.
    fn index_of(&self, request_id: &str) -> (r: Option<usize>)
        ensures
            match r {
                Some(i) => find_req(self.requests@, request_id@) == Some(i as nat),
                None => find_req(self.requests@, request_id@) is None,
            },
    {
        let mut i: usize = 0;
        while i < self.requests.len()
            invariant
                i <= self.requests@.len(),
                find_req(self.requests@, request_id@) == find_req_from(
                    self.requests@,
                    request_id@,
                    i as nat,
                ),
            decreases self.requests@.len() - i,
        {
            if str_eq(self.requests[i].request_id.as_str(), request_id) {
                return Some(i);
            }
            i = i + 1;
        }
        None
    }

    /// The request with the given id, if captured.
    pub fn request(&self, request_id: &str) -> (r: Option<&CapturedRequest>)
        ensures
            match find_req(self.requests@, request_id@) {
                Some(i) => r == Some(&self.requests@[i as int]),
                None => r is None,
            },
    {
        proof {
            lemma_find_req_from(self.requests@, request_id@, 0);
        }
        match self.index_of(request_id) {
            Some(i) => Some(&self.requests[i]),
            None => None,
        }
    }

    /// Record a new request. A request with the same id is replaced in
    /// place; the id is appended to `auth_requests` / `api_requests` when
    /// the request classifies as auth / API.
    pub fn on_request(
        &mut self,
        request_id: String,
        url: String,
        method: String,
        post_data: Option<String>,
    )
        requires
            old(self).wf(),
        ensures
            final(self).wf(),
            stores_request(
                old(self).requests@,
                final(self).requests@,
                request_id@,
                url@,
                method@,
                opt_view(post_data),
            ),
            ({
                let k = classify(unicode_lower(url@), method@);
                let o = old(self).requests@;
                let n = final(self).requests@;
                &&& match find_req(o, request_id@) {
                    Some(i) => {
                        &&& n.len() == o.len()
                        &&& is_new_record(n[i as int], request_id@, url@, method@, opt_view(post_data))
                        &&& forall|j: int| 0 <= j < o.len() && j != i ==> n[j] == o[j]
                    },
                    None => {
                        &&& n.len() == o.len() + 1
                        &&& is_new_record(n.last(), request_id@, url@, method@, opt_view(post_data))
                        &&& n.drop_last() == o
                    },
                }
                &&& string_views(final(self).auth_requests@) == if k == RequestKind::Auth {
                    string_views(old(self).auth_requests@).push(request_id@)
                } else {
                    string_views(old(self).auth_requests@)
                }
                &&& string_views(final(self).api_requests@) == if k == RequestKind::Api {
                    string_views(old(self).api_requests@).push(request_id@)
                } else {
                    string_views(old(self).api_requests@)
                }
            }),
    {
        let kind = classify_url(url.as_str(), method.as_str());
        let timestamp_ms = crate::clock::epoch_millis();
        let truncated_post = match &post_data {
            Some(d) => Some(utf8_truncate(d.as_str(), 1024)),
            None => None,
        };
        let keep_post = match kind {
            RequestKind::Auth | RequestKind::Api => true,
            _ => false,
        };
        let pos = self.index_of(request_id.as_str());
        let id_copy = copy_str(request_id.as_str());
        let captured = CapturedRequest {
            request_id,
            url,
            method,
            kind,
            status: 0,
            mime_type: None,
            has_set_cookie: false,
            timestamp_ms,
            response_size: None,
            post_data: if keep_post {
                truncated_post
            } else {
                None
            },
        };
        let ghost auth0 = self.auth_requests@;
        let ghost api0 = self.api_requests@;
        match kind {
            RequestKind::Auth => {
                self.auth_requests.push(id_copy);
                assert(string_views(self.auth_requests@) =~= string_views(auth0).push(id_copy@));
            },
            RequestKind::Api => {
                self.api_requests.push(id_copy);
                assert(string_views(self.api_requests@) =~= string_views(api0).push(id_copy@));
            },
            _ => {},
        }
        let ghost o = self.requests@;
        proof {
            lemma_find_req_from(o, captured.request_id@, 0);
        }
        match pos {
            Some(i) => {
                self.requests.set(i, captured);
            },
            None => {
                self.requests.push(captured);
                assert(self.requests@.drop_last() =~= o);
            },
        }
    }

    /// Update a request with response data: status, Set-Cookie presence,
    /// MIME type, and a refined kind when the request was still `Other`.
    /// Unknown ids are ignored.
    pub fn on_response(
        &mut self,
        request_id: &str,
        status: u16,
        mime_type: Option<String>,
        headers: &[(String, String)],
    )
        requires
            old(self).wf(),
        ensures
            final(self).wf(),
            final(self).auth_requests@ == old(self).auth_requests@,
            match find_req(old(self).requests@, request_id@) {
                None => {
                    &&& final(self).requests@ == old(self).requests@
                    &&& final(self).api_requests@ == old(self).api_requests@
                },
                Some(i) => {
                    let o = old(self).requests@[i as int];
                    let r = final(self).requests@[i as int];
                    let k = reclassify(o.kind, opt_view(mime_type));
                    &&& final(self).requests@.len() == old(self).requests@.len()
                    &&& forall|j: int|
                        0 <= j < old(self).requests@.len() && j != i ==> final(self).requests@[j]
                            == old(self).requests@[j]
                    &&& r.request_id == o.request_id
                    &&& r.url == o.url
                    &&& r.method == o.method
                    &&& r.timestamp_ms == o.timestamp_ms
                    &&& r.response_size == o.response_size
                    &&& r.post_data == o.post_data
                    &&& r.status == status
                    &&& r.has_set_cookie == any_set_cookie(headers@)
                    &&& r.mime_type == mime_type
                    &&& r.kind == k
                    &&& string_views(final(self).api_requests@) == if o.kind != RequestKind::Api
                        && k == RequestKind::Api {
                        string_views(old(self).api_requests@).push(request_id@)
                    } else {
                        string_views(old(self).api_requests@)
                    }
                },
            },
    {
        let pos = self.index_of(request_id);
        match pos {
            None => {},
            Some(i) => {
                let ghost o = self.requests@;
                proof {
                    lemma_find_req_from(o, request_id@, 0);
                }
                let mut req = self.requests.remove(i);
                req.status = status;
                req.has_set_cookie = has_set_cookie_header(headers);
                if req.kind == RequestKind::Other {
                    match &mime_type {
                        Some(m) => {
                            let mv = chars_of(m.as_str());
                            if has(mv.as_slice(), "json") || has(mv.as_slice(), "graphql") {
                                req.kind = RequestKind::Api;
                                let ghost api0 = self.api_requests@;
                                let id = copy_str(request_id);
                                self.api_requests.push(id);
                                assert(string_views(self.api_requests@) =~= string_views(api0).push(
                                    request_id@,
                                ));
                            } else if has(mv.as_slice(), "html") {
                                req.kind = RequestKind::Navigation;
                            }
                        },
                        None => {},
                    }
                }
                req.mime_type = mime_type;
                self.requests.insert(i, req);
                proof {
                    lemma_find_req_from(o, request_id@, 0);
                    assert forall|a: int, b: int|
                        0 <= a < b < self.requests@.len() implies #[trigger] self.requests@[a].request_id@
                        != #[trigger] self.requests@[b].request_id@ by {
                        assert(o[a].request_id == self.requests@[a].request_id);
                        assert(o[b].request_id == self.requests@[b].request_id);
                    }
                }
            },
        }
    }

    /// Counts of captured requests by kind, and the total response size.
    pub fn summary(&self) -> (s: NetworkSummary)
        requires
            count_kind(self.requests@, RequestKind::Auth) <= u32::MAX,
            count_kind(self.requests@, RequestKind::Api) <= u32::MAX,
            count_kind(self.requests@, RequestKind::Navigation) <= u32::MAX,
            count_kind(self.requests@, RequestKind::Asset) <= u32::MAX,
            count_kind(self.requests@, RequestKind::WebSocket) + count_kind(
                self.requests@,
                RequestKind::Other,
            ) <= u32::MAX,
            sum_sizes(self.requests@) <= u64::MAX,
        ensures
            s.total_requests == self.requests@.len() as u32,
            s.auth_count == count_kind(self.requests@, RequestKind::Auth),
            s.api_count == count_kind(self.requests@, RequestKind::Api),
            s.navigation_count == count_kind(self.requests@, RequestKind::Navigation),
            s.asset_count == count_kind(self.requests@, RequestKind::Asset),
            s.other_count == count_kind(self.requests@, RequestKind::WebSocket) + count_kind(
                self.requests@,
                RequestKind::Other,
            ),
            s.total_bytes == sum_sizes(self.requests@),
            s.auth_with_cookies == count_auth_cookies(self.requests@),
    {
        let mut auth_count: u32 = 0;
        let mut api_count: u32 = 0;
        let mut nav_count: u32 = 0;
        let mut asset_count: u32 = 0;
        let mut other_count: u32 = 0;
        let mut total_bytes: u64 = 0;
        let mut auth_with_cookies: u32 = 0;
        let ghost rs = self.requests@;
        let mut i: usize = 0;
        while i < self.requests.len()
            invariant
                rs == self.requests@,
                i <= rs.len(),
                auth_count == count_kind(rs.take(i as int), RequestKind::Auth),
                api_count == count_kind(rs.take(i as int), RequestKind::Api),
                nav_count == count_kind(rs.take(i as int), RequestKind::Navigation),
                asset_count == count_kind(rs.take(i as int), RequestKind::Asset),
                other_count == count_kind(rs.take(i as int), RequestKind::WebSocket) + count_kind(
                    rs.take(i as int),
                    RequestKind::Other,
                ),
                total_bytes == sum_sizes(rs.take(i as int)),
                auth_with_cookies == count_auth_cookies(rs.take(i as int)),
                count_kind(rs, RequestKind::Auth) <= u32::MAX,
                count_kind(rs, RequestKind::Api) <= u32::MAX,
                count_kind(rs, RequestKind::Navigation) <= u32::MAX,
                count_kind(rs, RequestKind::Asset) <= u32::MAX,
                count_kind(rs, RequestKind::WebSocket) + count_kind(rs, RequestKind::Other)
                    <= u32::MAX,
                sum_sizes(rs) <= u64::MAX,
            decreases rs.len() - i,
        {
            let ghost t = rs.take(i + 1);
            proof {
                assert(t.drop_last() =~= rs.take(i as int));
                lemma_counts_mono(rs, (i + 1) as nat);
            }
            let req = &self.requests[i];
            match req.kind {
                RequestKind::Auth => {
                    auth_count = auth_count + 1;
                    if req.has_set_cookie {
                        auth_with_cookies = auth_with_cookies + 1;
                    }
                },
                RequestKind::Api => api_count = api_count + 1,
                RequestKind::Navigation => nav_count = nav_count + 1,
                RequestKind::Asset => asset_count = asset_count + 1,
                RequestKind::WebSocket | RequestKind::Other => other_count = other_count + 1,
            }
            match req.response_size {
                Some(size) => total_bytes = total_bytes + size,
                None => {},
            }
            i = i + 1;
        }
        assert(rs.take(rs.len() as int) =~= rs);
        NetworkSummary {
            total_requests: self.requests.len() as u32,
            auth_count,
            api_count,
            navigation_count: nav_count,
            asset_count,
            other_count,
            total_bytes,
            auth_with_cookies,
        }
    }

    /// The auth requests, in the order their ids were recorded; ids whose
    /// request is gone are skipped.
    pub fn auth_flow(&self) -> (r: Vec<&CapturedRequest>)
        ensures
            r@.map_values(|x: &CapturedRequest| *x) == lookup_all(
                self.requests@,
                string_views(self.auth_requests@),
            ),
    {
        let mut r: Vec<&CapturedRequest> = Vec::new();
        let ghost ids = string_views(self.auth_requests@);
        let mut i: usize = 0;
        while i < self.auth_requests.len()
            invariant
                ids == string_views(self.auth_requests@),
                i <= ids.len(),
                r@.map_values(|x: &CapturedRequest| *x) == lookup_all(
                    self.requests@,
                    ids.take(i as int),
                ),
            decreases ids.len() - i,
        {
            let ghost before = r@;
            proof {
                assert(ids.take(i + 1).drop_last() =~= ids.take(i as int));
                assert(ids.take(i + 1).last() == self.auth_requests@[i as int]@);
            }
            match self.request(self.auth_requests[i].as_str()) {
                Some(req) => {
                    r.push(req);
                    assert(r@.map_values(|x: &CapturedRequest| *x) =~= before.map_values(
                        |x: &CapturedRequest| *x,
                    ).push(*req));
                },
                None => {
                    assert(r@ == before);
                },
            }
            i = i + 1;
        }
        assert(ids.take(ids.len() as int) =~= ids);
        r
    }
}

/// Whether some header name is `Set-Cookie` (ASCII case-insensitively).
fn has_set_cookie_header(headers: &[(String, String)]) -> (b: bool)
    ensures
        b == any_set_cookie(headers@),
{
    let target = chars_of("set-cookie");
    let tl = ascii_lower_exec(target.as_slice());
    let mut i: usize = 0;
    while i < headers.len()
        invariant
            i <= headers@.len(),
            tl@ == ascii_lower("set-cookie"@),
            forall|j: int| 0 <= j < i ==> !is_set_cookie(#[trigger] headers@[j].0@),
        decreases headers@.len() - i,
    {
        let name = chars_of(headers[i].0.as_str());
        let nl = ascii_lower_exec(name.as_slice());
        if eq_chars(nl.as_slice(), tl.as_slice()) {
            assert(is_set_cookie(headers@[i as int].0@));
            return true;
        }
        i = i + 1;
    }
    false
}

/// Prefix counts never exceed the counts of the whole sequence.
proof fn lemma_counts_mono(rs: Seq<CapturedRequest>, n: nat)
    requires
        n <= rs.len(),
    ensures
        count_kind(rs.take(n as int), RequestKind::Auth) <= count_kind(rs, RequestKind::Auth),
        count_kind(rs.take(n as int), RequestKind::Api) <= count_kind(rs, RequestKind::Api),
        count_kind(rs.take(n as int), RequestKind::Navigation) <= count_kind(rs, RequestKind::Navigation),
        count_kind(rs.take(n as int), RequestKind::Asset) <= count_kind(rs, RequestKind::Asset),
        count_kind(rs.take(n as int), RequestKind::WebSocket) <= count_kind(rs, RequestKind::WebSocket),
        count_kind(rs.take(n as int), RequestKind::Other) <= count_kind(rs, RequestKind::Other),
        sum_sizes(rs.take(n as int)) <= sum_sizes(rs),
        count_auth_cookies(rs.take(n as int)) <= count_kind(rs.take(n as int), RequestKind::Auth),
    decreases rs.len(),
{
    if n == rs.len() {
        assert(rs.take(n as int) =~= rs);
        lemma_cookies_le_auth(rs);
    } else {
        lemma_counts_mono(rs.drop_last(), n);
        assert(rs.drop_last().take(n as int) =~= rs.take(n as int));
    }
}

/// Auth requests with cookies are auth requests.
proof fn lemma_cookies_le_auth(rs: Seq<CapturedRequest>)
    ensures
        count_auth_cookies(rs) <= count_kind(rs, RequestKind::Auth),
    decreases rs.len(),
{
    if rs.len() > 0 {
        lemma_cookies_le_auth(rs.drop_last());
    }
}

} // verus!
