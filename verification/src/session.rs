//! Session state across page navigations: cookies, navigation history,
//! authentication state and per-page memory.
use vstd::prelude::*;

use crate::text::{
    before_char, before_char_exec, chars_of, contains, contains_exec, ends_with, ends_with_exec,
    find, find_exec, has, lemma_find_contains, slice_vec, starts_with, starts_with_exec, str_eq,
    string_of, string_views, to_lower, unicode_lower, char_pos, char_pos_exec,
    lemma_char_pos_from,
};

verus! {

/// A browser cookie. The expiry is kept as the bits of its `f64` Unix
/// timestamp (`0.0` for a session cookie); this library never reads it.
#[derive(Debug, Clone)]
pub struct CookieEntry {
    /// Cookie name.
    pub name: String,
    /// Cookie value.
    pub value: String,
    /// Domain the cookie belongs to (e.g. `.example.com`).
    pub domain: String,
    /// URL path scope (e.g. `/` or `/app`).
    pub path: String,
    /// `f64::to_bits` of the Unix expiry timestamp in seconds.
    pub expires_bits: u64,
    /// Whether the cookie requires HTTPS.
    pub secure: bool,
    /// Whether the cookie is inaccessible to JavaScript.
    pub http_only: bool,
    /// SameSite attribute (`Strict`, `Lax`, `None`), if set.
    pub same_site: Option<String>,
}

/// What happened on a particular page during the session.
#[derive(Debug, Clone)]
pub struct NavigationEntry {
    /// Full URL of the page.
    pub url: String,
    /// Document title.
    pub title: String,
    /// Unix timestamp in milliseconds when this page was visited.
    pub timestamp_ms: u64,
    /// Actions performed on this page (e.g. "typed email", "clicked login").
    pub actions_taken: Vec<String>,
    /// Whether a form was submitted on this page.
    pub form_submitted: bool,
    /// Whether authentication was detected.
    pub auth_related: bool,
}

/// Authentication state tracked across the session.
#[derive(Debug, Clone, Copy, PartialEq, Eq, Structural)]
pub enum AuthState {
    /// No authentication activity detected.
    NoActivity,
    /// Currently in an auth flow.
    InProgress,
    /// Authentication completed.
    Authenticated,
    /// Authentication failed.
    Failed,
}

impl Default for AuthState {
    fn default() -> (s: Self)
        ensures
            s == AuthState::NoActivity,
    {
        AuthState::NoActivity
    }
}

/// Persistent state across page navigations within a pilot session.
#[derive(Debug)]
pub struct SessionState {
    /// All cookies accumulated during the session, oldest first.
    pub cookies: Vec<CookieEntry>,
    /// Ordered history of pages visited.
    pub navigation_history: Vec<NavigationEntry>,
    /// Key-value memory for pages, keys in insertion order.
    pub page_memory: Vec<(String, serde_json::Value)>,
    /// Current authentication state.
    pub auth_state: AuthState,
    /// The URL the session started from.
    pub origin_url: Option<String>,
}

/// Maximum number of cookies stored per session.
pub const COOKIE_CAP: usize = 500;

// ── URL helpers ───────────────────────────────────────────────────────

/// The part of a URL after `://`, or the whole URL.
pub open spec fn without_scheme(url: Seq<char>) -> Seq<char> {
    match find(url, "://"@) {
        Some(i) => url.skip((i + 3) as int),
        None => url,
    }
}

/// Lower-cased host (port dropped) and path (`/` when absent) of a URL.
pub open spec fn host_path(url: Seq<char>) -> (Seq<char>, Seq<char>) {
    let w = without_scheme(url);
    let (host_port, path) = match char_pos(w, '/') {
        Some(i) => (w.take(i as int), w.skip(i as int)),
        None => (w, "/"@),
    };
    (unicode_lower(before_char(host_port, ':')), path)
}

/// Extract host and path from a URL string: the scheme is dropped up to
/// `://`, the host ends at the first `/` and loses its port, and the path
/// is `/` when there is none.
pub fn parse_host_path(url: &str) -> (r: (String, String))
    ensures
        (r.0@, r.1@) == host_path(url@),
{
    let v = chars_of(url);
    let sep = chars_of("://");
    proof {
        reveal_strlit("://");
        lemma_find_contains(v@, sep@);
    }
    let w = match find_exec(v.as_slice(), sep.as_slice()) {
        Some(i) => {
            let n = v.len();
            assert(i + 3 <= n);
            slice_vec(v.as_slice(), i + 3, n)
        },
        None => v,
    };
    assert(w@ =~= without_scheme(url@));
    proof {
        lemma_char_pos_from(w@, '/', 0);
    }
    let (host_port, path) = match char_pos_exec(w.as_slice(), '/') {
        Some(i) => (slice_vec(w.as_slice(), 0, i), string_of(slice_vec(w.as_slice(), i, w.len()).as_slice())),
        None => (w, crate::text::copy_str("/")),
    };
    let host = before_char_exec(host_port.as_slice(), ':');
    let host_text = string_of(host.as_slice());
    (to_lower(host_text.as_str()), path)
}

/// Cookie domain matching (simplified RFC 6265), case-insensitive: a
/// cookie domain `.example.com` matches `example.com` and any host ending
/// in `.example.com`; a domain without the leading dot matches only
/// itself.
pub open spec fn domain_ok(cookie_domain: Seq<char>, request_host: Seq<char>) -> bool {
    let cd = unicode_lower(cookie_domain);
    let rh = unicode_lower(request_host);
    if cd.len() > 0 && cd[0] == '.' {
        rh == cd.skip(1) || ends_with(rh, cd)
    } else {
        rh == cd
    }
}

/// Cookie domain matching per RFC 6265 (simplified).
pub fn domain_matches(cookie_domain: &str, request_host: &str) -> (b: bool)
    ensures
        b == domain_ok(cookie_domain@, request_host@),
{
    let cd = chars_of(to_lower(cookie_domain).as_str());
    let rh = chars_of(to_lower(request_host).as_str());
    if cd.len() > 0 && cd[0] == '.' {
        let bare = slice_vec(cd.as_slice(), 1, cd.len());
        assert(bare@ =~= cd@.skip(1));
        crate::text::eq_chars(rh.as_slice(), bare.as_slice()) || ends_with_exec(
            rh.as_slice(),
            cd.as_slice(),
        )
    } else {
        crate::text::eq_chars(rh.as_slice(), cd.as_slice())
    }
}

/// Cookie path matching: the cookie path equals the request path, or is a
/// prefix of it that ends in `/` or is followed by `/`.
pub open spec fn path_ok(cookie_path: Seq<char>, request_path: Seq<char>) -> bool {
    request_path == cookie_path || (starts_with(request_path, cookie_path) && (ends_with(
        cookie_path,
        "/"@,
    ) || (request_path.len() > cookie_path.len() && request_path[cookie_path.len() as int]
        == '/')))
}

/// Cookie path matching: cookie path `/foo` matches request `/foo`,
/// `/foo/` and `/foo/bar`, but not `/foobar` or `/bar`.
pub fn path_matches(cookie_path: &str, request_path: &str) -> (b: bool)
    ensures
        b == path_ok(cookie_path@, request_path@),
{
    proof {
        reveal_strlit("/");
    }
    if str_eq(request_path, cookie_path) {
        return true;
    }
    let rp = chars_of(request_path);
    let cp = chars_of(cookie_path);
    if starts_with_exec(rp.as_slice(), cp.as_slice()) {
        let slash = chars_of("/");
        return ends_with_exec(cp.as_slice(), slash.as_slice()) || (rp.len() > cp.len()
            && rp[cp.len()] == '/');
    }
    false
}

// ── Cookies ───────────────────────────────────────────────────────────

/// Two cookies have the same name, domain and path.
pub open spec fn same_key(a: CookieEntry, b: CookieEntry) -> bool {
    a.name@ == b.name@ && a.domain@ == b.domain@ && a.path@ == b.path@
}

/// Index of the first cookie from `i` on with the key of `c`.
pub open spec fn key_from(cs: Seq<CookieEntry>, c: CookieEntry, i: nat) -> Option<nat>
    decreases cs.len() - i,
{
    if i >= cs.len() {
        None
    } else if same_key(cs[i as int], c) {
        Some(i)
    } else {
        key_from(cs, c, i + 1)
    }
}

/// The jar after adding `c`: a cookie with the same key is replaced in
/// place; otherwise `c` is appended, after evicting the oldest cookie when
/// the jar is full.
pub open spec fn with_cookie(cs: Seq<CookieEntry>, c: CookieEntry) -> Seq<CookieEntry> {
    match key_from(cs, c, 0) {
        Some(i) => cs.update(i as int, c),
        None => if cs.len() >= COOKIE_CAP {
            cs.skip(1).push(c)
        } else {
            cs.push(c)
        },
    }
}

/// The cookies sent to a host and path, in jar order.
pub open spec fn cookies_for(cs: Seq<CookieEntry>, host: Seq<char>, path: Seq<char>) -> Seq<
    CookieEntry,
>
    decreases cs.len(),
{
    if cs.len() == 0 {
        seq![]
    } else if domain_ok(cs.last().domain@, host) && path_ok(cs.last().path@, path) {
        cookies_for(cs.drop_last(), host, path).push(cs.last())
    } else {
        cookies_for(cs.drop_last(), host, path)
    }
}

/// The cookie name contains a common auth-related pattern (lower-cased).
pub open spec fn auth_cookie_name(name: Seq<char>) -> bool {
    let l = unicode_lower(name);
    ||| contains(l, "session"@)
    ||| contains(l, "token"@)
    ||| contains(l, "auth"@)
    ||| contains(l, "sid"@)
    ||| contains(l, "jwt"@)
    ||| contains(l, "access_token"@)
    ||| contains(l, "refresh_token"@)
    ||| contains(l, "id_token"@)
    ||| contains(l, "csrf"@)
    ||| contains(l, "xsrf"@)
}

/// Some cookie has an auth-related name.
pub open spec fn any_auth_cookie(cs: Seq<CookieEntry>) -> bool {
    exists|i: int| 0 <= i < cs.len() && auth_cookie_name(#[trigger] cs[i].name@)
}

fn auth_cookie_name_exec(name: &str) -> (b: bool)
    ensures
        b == auth_cookie_name(name@),
{
    let lv = chars_of(to_lower(name).as_str());
    let l = lv.as_slice();
    has(l, "session") || has(l, "token") || has(l, "auth") || has(l, "sid") || has(l, "jwt")
        || has(l, "access_token") || has(l, "refresh_token") || has(l, "id_token") || has(
        l,
        "csrf",
    ) || has(l, "xsrf")
}

// ── Page memory ───────────────────────────────────────────────────────

/// Index of the entry stored under `key`.
pub open spec fn memory_index(m: Seq<(String, serde_json::Value)>, key: Seq<char>, i: nat) -> Option<nat>
    decreases m.len() - i,
{
    if i >= m.len() {
        None
    } else if m[i as int].0@ == key {
        Some(i)
    } else {
        memory_index(m, key, i + 1)
    }
}

/// The memory after storing `value` under `key`: an existing entry for the
/// key is overwritten in place, else the entry is appended.
pub open spec fn remembered(m: Seq<(String, serde_json::Value)>, key: String, value: serde_json::Value) -> Seq<(String, serde_json::Value)> {
    match memory_index(m, key@, 0) {
        Some(i) => m.update(i as int, (key, value)),
        None => m.push((key, value)),
    }
}

/// What the memory holds for a key.
pub open spec fn recalled(m: Seq<(String, serde_json::Value)>, key: Seq<char>) -> Option<serde_json::Value> {
    match memory_index(m, key, 0) {
        Some(i) => Some(m[i as int].1),
        None => None,
    }
}

proof fn lemma_memory_index(m: Seq<(String, serde_json::Value)>, key: Seq<char>, i: nat)
    ensures
        match memory_index(m, key, i) {
            Some(k) => i <= k < m.len() && m[k as int].0@ == key && forall|j: int| i <= j < k ==> m[j].0@ != key,
            None => forall|j: int| i <= j < m.len() ==> m[j].0@ != key,
        },
    decreases m.len() - i,
{
    if i < m.len() && m[i as int].0@ != key {
        lemma_memory_index(m, key, i + 1);
    }
}

/// Page memory reads back what was written: after storing `value` under
/// `key`, recalling `key` gives `value`, and every other key recalls what
/// it did before.
pub proof fn lemma_recall_after_remember(
    m: Seq<(String, serde_json::Value)>,
    key: String,
    value: serde_json::Value,
    other: Seq<char>,
)
    ensures
        recalled(remembered(m, key, value), key@) == Some(value),
        other != key@ ==> recalled(remembered(m, key, value), other) == recalled(m, other),
{
    let r = remembered(m, key, value);
    lemma_memory_index(m, key@, 0);
    lemma_memory_index(r, key@, 0);
    lemma_memory_index(m, other, 0);
    lemma_memory_index(r, other, 0);
    match memory_index(m, key@, 0) {
        Some(i) => {
            assert(r[i as int].0@ == key@);
            if other != key@ {
                assert forall|j: int| 0 <= j < r.len() implies (r[j].0@ == other) == (m[j].0@ == other) by {
                    if j == i {
                    } else {
                        assert(r[j] == m[j]);
                    }
                }
                match memory_index(m, other, 0) {
                    Some(k) => {
                        assert(r[k as int] == m[k as int]);
                    },
                    None => {},
                }
                match memory_index(r, other, 0) {
                    Some(k) => {
                        assert(m[k as int].0@ == other);
                    },
                    None => {},
                }
            }
        },
        None => {
            assert(r[m.len() as int].0@ == key@);
            if other != key@ {
                match memory_index(m, other, 0) {
                    Some(k) => {
                        assert(r[k as int] == m[k as int]);
                    },
                    None => {},
                }
                match memory_index(r, other, 0) {
                    Some(k) => {
                        if k < m.len() {
                            assert(r[k as int] == m[k as int]);
                        }
                    },
                    None => {},
                }
            }
        },
    }
}

/// Number of history entries whose URL contains `pattern`.
pub open spec fn visits(h: Seq<NavigationEntry>, pattern: Seq<char>) -> nat
    decreases h.len(),
{
    if h.len() == 0 {
        0
    } else {
        visits(h.drop_last(), pattern) + if contains(h.last().url@, pattern) {
            1nat
        } else {
            0nat
        }
    }
}

impl SessionState {
    /// An empty session.
    pub fn new() -> (s: Self)
        ensures
            s.cookies@.len() == 0,
            s.navigation_history@.len() == 0,
            s.page_memory@.len() == 0,
            s.auth_state == AuthState::NoActivity,
            s.origin_url is None,
    {
        SessionState {
            cookies: Vec::new(),
            navigation_history: Vec::new(),
            page_memory: Vec::new(),
            auth_state: AuthState::NoActivity,
            origin_url: None,
        }
    }

    fn cookie_index(&self, c: &CookieEntry) -> (r: Option<usize>)
        ensures
            match r {
                Some(i) => key_from(self.cookies@, *c, 0) == Some(i as nat) && i
                    < self.cookies@.len(),
                None => key_from(self.cookies@, *c, 0) is None,
            },
    {
        let mut i: usize = 0;
        while i < self.cookies.len()
            invariant
                i <= self.cookies@.len(),
                key_from(self.cookies@, *c, 0) == key_from(self.cookies@, *c, i as nat),
            decreases self.cookies@.len() - i,
        {
            let e = &self.cookies[i];
            if str_eq(e.name.as_str(), c.name.as_str()) && str_eq(
                e.domain.as_str(),
                c.domain.as_str(),
            ) && str_eq(e.path.as_str(), c.path.as_str()) {
                return Some(i);
            }
            i = i + 1;
        }
        None
    }

    /// Add or update a cookie: one with the same `(name, domain, path)`
    /// is replaced; when the jar holds [`COOKIE_CAP`] cookies, the oldest
    /// is evicted before a new one is appended.
    pub fn add_cookie(&mut self, cookie: CookieEntry)
        ensures
            final(self).cookies@ == with_cookie(old(self).cookies@, cookie),
            final(self).navigation_history == old(self).navigation_history,
            final(self).page_memory == old(self).page_memory,
            final(self).auth_state == old(self).auth_state,
            final(self).origin_url == old(self).origin_url,
    {
        match self.cookie_index(&cookie) {
            Some(i) => {
                self.cookies.set(i, cookie);
            },
            None => {
                let ghost before = self.cookies@;
                if self.cookies.len() >= COOKIE_CAP {
                    self.cookies.remove(0);
                    assert(self.cookies@ =~= before.skip(1));
                }
                self.cookies.push(cookie);
            },
        }
    }

    /// The cookies whose domain and path match the given URL.
    pub fn get_cookies_for_url(&self, url: &str) -> (r: Vec<&CookieEntry>)
        ensures
            r@.map_values(|c: &CookieEntry| *c) == cookies_for(
                self.cookies@,
                host_path(url@).0,
                host_path(url@).1,
            ),
    {
        let (host, path) = parse_host_path(url);
        let mut r: Vec<&CookieEntry> = Vec::new();
        let mut i: usize = 0;
        while i < self.cookies.len()
            invariant
                i <= self.cookies@.len(),
                (host@, path@) == host_path(url@),
                r@.map_values(|c: &CookieEntry| *c) == cookies_for(
                    self.cookies@.take(i as int),
                    host@,
                    path@,
                ),
            decreases self.cookies@.len() - i,
        {
            let c = &self.cookies[i];
            let ghost before = r@;
            proof {
                assert(self.cookies@.take(i + 1).drop_last() =~= self.cookies@.take(i as int));
                assert(self.cookies@.take(i + 1).last() == *c);
            }
            if domain_matches(c.domain.as_str(), host.as_str()) && path_matches(
                c.path.as_str(),
                path.as_str(),
            ) {
                r.push(c);
                assert(r@.map_values(|c: &CookieEntry| *c) =~= before.map_values(
                    |c: &CookieEntry| *c,
                ).push(*c));
            }
            i = i + 1;
        }
        assert(self.cookies@.take(self.cookies@.len() as int) =~= self.cookies@);
        r
    }

    /// Whether any cookie name matches a common auth-related pattern.
    pub fn has_auth_cookies(&self) -> (b: bool)
        ensures
            b == any_auth_cookie(self.cookies@),
    {
        let mut i: usize = 0;
        while i < self.cookies.len()
            invariant
                i <= self.cookies@.len(),
                forall|j: int| 0 <= j < i ==> !auth_cookie_name(#[trigger] self.cookies@[j].name@),
            decreases self.cookies@.len() - i,
        {
            if auth_cookie_name_exec(self.cookies[i].name.as_str()) {
                return true;
            }
            i = i + 1;
        }
        false
    }

    /// Record a page navigation with the current timestamp.
    pub fn record_navigation(
        &mut self,
        url: String,
        title: String,
        actions: Vec<String>,
        form_submitted: bool,
        auth_related: bool,
    )
        ensures
            final(self).navigation_history@.len() == old(self).navigation_history@.len() + 1,
            final(self).navigation_history@.drop_last() == old(self).navigation_history@,
            ({
                let e = final(self).navigation_history@.last();
                &&& e.url == url
                &&& e.title == title
                &&& e.actions_taken == actions
                &&& e.form_submitted == form_submitted
                &&& e.auth_related == auth_related
            }),
            final(self).cookies == old(self).cookies,
            final(self).page_memory == old(self).page_memory,
            final(self).auth_state == old(self).auth_state,
            final(self).origin_url == old(self).origin_url,
    {
        let timestamp_ms = crate::clock::epoch_millis();
        self.navigation_history.push(
            NavigationEntry {
                url,
                title,
                timestamp_ms,
                actions_taken: actions,
                form_submitted,
                auth_related,
            },
        );
        assert(self.navigation_history@.drop_last() =~= old(self).navigation_history@);
    }

    fn memory_slot(&self, key: &str) -> (r: Option<usize>)
        ensures
            match r {
                Some(i) => memory_index(self.page_memory@, key@, 0) == Some(i as nat) && i
                    < self.page_memory@.len(),
                None => memory_index(self.page_memory@, key@, 0) is None,
            },
    {
        let mut i: usize = 0;
        while i < self.page_memory.len()
            invariant
                i <= self.page_memory@.len(),
                memory_index(self.page_memory@, key@, 0) == memory_index(
                    self.page_memory@,
                    key@,
                    i as nat,
                ),
            decreases self.page_memory@.len() - i,
        {
            if str_eq(self.page_memory[i].0.as_str(), key) {
                return Some(i);
            }
            i = i + 1;
        }
        None
    }

    /// Store a value in page memory under the given key, replacing an
    /// earlier value.
    pub fn remember(&mut self, key: String, value: serde_json::Value)
        ensures
            final(self).page_memory@ == remembered(old(self).page_memory@, key, value),
            final(self).cookies == old(self).cookies,
            final(self).navigation_history == old(self).navigation_history,
            final(self).auth_state == old(self).auth_state,
            final(self).origin_url == old(self).origin_url,
    {
        match self.memory_slot(key.as_str()) {
            Some(i) => {
                self.page_memory.set(i, (key, value));
            },
            None => {
                self.page_memory.push((key, value));
            },
        }
    }

    /// The value stored in page memory under `key`.
    pub fn recall(&self, key: &str) -> (r: Option<&serde_json::Value>)
        ensures
            match recalled(self.page_memory@, key@) {
                Some(v) => r == Some(&v),
                None => r is None,
            },
    {
        match self.memory_slot(key) {
            Some(i) => Some(&self.page_memory[i].1),
            None => None,
        }
    }

    /// The URL of the most recently visited page, if any.
    pub fn current_url(&self) -> (r: Option<&str>)
        ensures
            match r {
                Some(u) => self.navigation_history@.len() > 0 && u@
                    == self.navigation_history@.last().url@,
                None => self.navigation_history@.len() == 0,
            },
    {
        let n = self.navigation_history.len();
        if n == 0 {
            None
        } else {
            Some(self.navigation_history[n - 1].url.as_str())
        }
    }

    /// The URL of the page visited before the current one, if any.
    pub fn previous_url(&self) -> (r: Option<&str>)
        ensures
            match r {
                Some(u) => self.navigation_history@.len() >= 2 && u@
                    == self.navigation_history@[self.navigation_history@.len() - 2].url@,
                None => self.navigation_history@.len() < 2,
            },
    {
        let n = self.navigation_history.len();
        if n >= 2 {
            Some(self.navigation_history[n - 2].url.as_str())
        } else {
            None
        }
    }

    /// Whether the last navigation changed host (redirect detection).
    pub fn was_redirected(&self) -> (b: bool)
        ensures
            b == (self.navigation_history@.len() >= 2 && host_path(
                self.navigation_history@[self.navigation_history@.len() - 2].url@,
            ).0 != host_path(self.navigation_history@.last().url@).0),
    {
        let n = self.navigation_history.len();
        if n < 2 {
            return false;
        }
        let prev = parse_host_path(self.navigation_history[n - 2].url.as_str()).0;
        let curr = parse_host_path(self.navigation_history[n - 1].url.as_str()).0;
        !str_eq(prev.as_str(), curr.as_str())
    }

    /// How many navigation entries contain the given URL pattern.
    pub fn visit_count(&self, url_pattern: &str) -> (n: usize)
        ensures
            n == visits(self.navigation_history@, url_pattern@),
    {
        let pv = chars_of(url_pattern);
        let mut n: usize = 0;
        let mut i: usize = 0;
        while i < self.navigation_history.len()
            invariant
                i <= self.navigation_history@.len(),
                pv@ == url_pattern@,
                n == visits(self.navigation_history@.take(i as int), url_pattern@),
                n <= i,
            decreases self.navigation_history@.len() - i,
        {
            proof {
                let t = self.navigation_history@.take(i + 1);
                assert(t.drop_last() =~= self.navigation_history@.take(i as int));
                assert(t.last() == self.navigation_history@[i as int]);
            }
            let uv = chars_of(self.navigation_history[i].url.as_str());
            if contains_exec(uv.as_slice(), pv.as_slice()) {
                n = n + 1;
            }
            i = i + 1;
        }
        assert(self.navigation_history@.take(self.navigation_history@.len() as int)
            =~= self.navigation_history@);
        n
    }
}

impl Default for SessionState {
    fn default() -> (s: Self)
        ensures
            s.cookies@.len() == 0,
            s.navigation_history@.len() == 0,
            s.page_memory@.len() == 0,
            s.auth_state == AuthState::NoActivity,
            s.origin_url is None,
    {
        SessionState::new()
    }
}

// ── Laws of the cookie jar ───────────────────────────────────────────

/// No two cookies of the jar share a name, domain and path.
pub open spec fn distinct_keys(cs: Seq<CookieEntry>) -> bool {
    forall|i: int, j: int| 0 <= i < j < cs.len() ==> !same_key(#[trigger] cs[i], #[trigger] cs[j])
}

proof fn lemma_key_from(cs: Seq<CookieEntry>, c: CookieEntry, i: nat)
    ensures
        match key_from(cs, c, i) {
            Some(k) => i <= k < cs.len() && same_key(cs[k as int], c),
            None => forall|j: int| i <= j < cs.len() ==> !same_key(cs[j], c),
        },
    decreases cs.len() - i,
{
    if i < cs.len() && !same_key(cs[i as int], c) {
        lemma_key_from(cs, c, i + 1);
    }
}

/// Adding a cookie never grows the jar beyond [`COOKIE_CAP`], keeps the
/// keys of its cookies distinct, and leaves the added cookie in the jar.
pub proof fn lemma_jar_after_add(cs: Seq<CookieEntry>, c: CookieEntry)
    requires
        cs.len() <= COOKIE_CAP,
        distinct_keys(cs),
    ensures
        with_cookie(cs, c).len() <= COOKIE_CAP,
        distinct_keys(with_cookie(cs, c)),
        with_cookie(cs, c).contains(c),
{
    lemma_key_from(cs, c, 0);
    let r = with_cookie(cs, c);
    match key_from(cs, c, 0) {
        Some(k) => {
            assert(r[k as int] == c);
            assert forall|i: int, j: int| 0 <= i < j < r.len() implies !same_key(#[trigger] r[i], #[trigger] r[j]) by {
                if i == k {
                    assert(!same_key(cs[k as int], cs[j]));
                } else if j == k {
                    assert(!same_key(cs[i], cs[k as int]));
                }
            }
        },
        None => {
            if cs.len() >= COOKIE_CAP {
                assert(r[r.len() - 1] == c);
                assert forall|i: int, j: int| 0 <= i < j < r.len() implies !same_key(#[trigger] r[i], #[trigger] r[j]) by {
                    if j == r.len() - 1 {
                        assert(r[i] == cs[i + 1]);
                    } else {
                        assert(r[i] == cs[i + 1] && r[j] == cs[j + 1]);
                    }
                }
            } else {
                assert(r[r.len() - 1] == c);
                assert forall|i: int, j: int| 0 <= i < j < r.len() implies !same_key(#[trigger] r[i], #[trigger] r[j]) by {
                    if j == r.len() - 1 {
                        assert(r[i] == cs[i]);
                    }
                }
            }
        },
    }
}

} // verus!
