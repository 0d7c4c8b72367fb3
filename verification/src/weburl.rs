//! URL parsing and re-serialization through the `url` crate, and the
//! redaction of secret query parameters built on it.
use vstd::prelude::*;

use crate::text::{
    chars_of, contains, copy_str, has, string_views, to_lower, unicode_lower, utf8_size,
    utf8_size_checked,
};

verus! {

/// A parsed host: a domain name (or the opaque host of a non-special URL),
/// an IPv4 address by its four octets, or an IPv6 address by its eight
/// 16-bit segments.
pub enum UrlHost {
    Domain(String),
    Ipv4([u8; 4]),
    Ipv6([u16; 8]),
}

/// Model of [`UrlHost`].
pub enum HostView {
    Domain(Seq<char>),
    Ipv4(Seq<u8>),
    Ipv6(Seq<u16>),
}

impl View for UrlHost {
    type V = HostView;

    open spec fn view(&self) -> HostView {
        match self {
            UrlHost::Domain(d) => HostView::Domain(d@),
            UrlHost::Ipv4(a) => HostView::Ipv4(a@),
            UrlHost::Ipv6(a) => HostView::Ipv6(a@),
        }
    }
}

/// What a parsed URL exposes to the library: scheme, host, path, query and
/// the decoded query pairs.
pub struct ParsedUrl {
    pub scheme: String,
    pub host: Option<String>,
    pub path: String,
    pub query: Option<String>,
    pub pairs: Vec<(String, String)>,
}

/// Model of [`ParsedUrl`].
pub struct UrlView {
    pub scheme: Seq<char>,
    pub host: Option<Seq<char>>,
    pub path: Seq<char>,
    pub query: Option<Seq<char>>,
    pub pairs: Seq<(Seq<char>, Seq<char>)>,
}

/// Views of string pairs.
pub open spec fn pair_views(v: Seq<(String, String)>) -> Seq<(Seq<char>, Seq<char>)> {
    v.map_values(|p: (String, String)| (p.0@, p.1@))
}

impl View for ParsedUrl {
    type V = UrlView;

    open spec fn view(&self) -> UrlView {
        UrlView {
            scheme: self.scheme@,
            host: match self.host {
                Some(h) => Some(h@),
                None => None,
            },
            path: self.path@,
            query: match self.query {
                Some(q) => Some(q@),
                None => None,
            },
            pairs: pair_views(self.pairs@),
        }
    }
}

/// What `url::Url::parse` gives for a string: the scheme, host, path, query
/// and query pairs of the parsed URL, or the text of the parse error.
pub uninterp spec fn url_parse(s: Seq<char>) -> Result<UrlView, Seq<char>>;

/// What parsing `s`, dropping its fragment and serializing again gives.
pub uninterp spec fn url_without_fragment(s: Seq<char>) -> Option<Seq<char>>;

/// What parsing `s`, replacing its query by `pairs` (form-urlencoded),
/// dropping its fragment and serializing again gives.
pub uninterp spec fn url_with_pairs(s: Seq<char>, pairs: Seq<(Seq<char>, Seq<char>)>) -> Option<
    Seq<char>,
>;

/// Inputs short enough that the `url` crate's 32-bit offsets cannot
/// overflow while it parses and re-serializes them.
pub open spec fn url_len_ok(s: Seq<char>) -> bool {
    utf8_size(s) < 0x1000_0000
}

/// `url::Url::parse`, with `scheme`, `host_str`, `path`, `query` and
/// `query_pairs` of the result, or the `Display` text of the error. The
/// result is named by [`url_parse`].
#[verifier::external_body]
pub(crate) fn parse_url(s: &str) -> (r: Result<ParsedUrl, String>)
    requires
        url_len_ok(s@),
    ensures
        match r {
            Ok(p) => url_parse(s@) == Ok::<UrlView, Seq<char>>(p@),
            Err(e) => url_parse(s@) == Err::<UrlView, Seq<char>>(e@),
        },
{
    match url::Url::parse(s) {
        Ok(u) => Ok(ParsedUrl {
            scheme: u.scheme().to_string(),
            host: u.host_str().map(|h| h.to_string()),
            path: u.path().to_string(),
            query: u.query().map(|q| q.to_string()),
            pairs: u.query_pairs().map(|(k, v)| (k.into_owned(), v.into_owned())).collect(),
        }),
        Err(e) => Err(e.to_string()),
    }
}

/// What `url::Url::parse` then `host` gives for a string: the host as the
/// parser read it, or `None` when the string does not parse or has no host.
pub uninterp spec fn url_host(s: Seq<char>) -> Option<HostView>;

/// `url::Url::parse`, then `host`, its variants converted one for one (the
/// addresses by their octets and segments). The result is named by
/// [`url_host`].
#[verifier::external_body]
pub(crate) fn parse_url_host(s: &str) -> (r: Option<UrlHost>)
    requires
        url_len_ok(s@),
    ensures
        match r {
            Some(h) => url_host(s@) == Some(h@),
            None => url_host(s@) is None,
        },
{
    match url::Url::parse(s).ok()?.host()? {
        url::Host::Domain(d) => Some(UrlHost::Domain(d.to_string())),
        url::Host::Ipv4(a) => Some(UrlHost::Ipv4(a.octets())),
        url::Host::Ipv6(a) => Some(UrlHost::Ipv6(a.segments())),
    }
}

/// `url::Url::parse`, then `set_fragment(None)` and `to_string`. The result
/// is named by [`url_without_fragment`].
#[verifier::external_body]
pub(crate) fn strip_fragment(s: &str) -> (r: Option<String>)
    requires
        url_len_ok(s@),
    ensures
        match r {
            Some(t) => url_without_fragment(s@) == Some(t@),
            None => url_without_fragment(s@) is None,
        },
{
    let mut u = url::Url::parse(s).ok()?;
    u.set_fragment(None);
    Some(u.to_string())
}

/// UTF-8 size of query pairs, each key and value plus one byte for the `=`
/// and one for the `&`.
pub open spec fn pairs_size(ps: Seq<(Seq<char>, Seq<char>)>) -> nat
    decreases ps.len(),
{
    if ps.len() == 0 {
        0
    } else {
        pairs_size(ps.drop_last()) + utf8_size(ps.last().0) + utf8_size(ps.last().1) + 2
    }
}

/// The URL rebuilt with these pairs stays within the `url` crate's 32-bit
/// offsets: the URL as parsed (every byte at most three once
/// percent-encoded) plus the pairs percent-encoded (at most three bytes for
/// each) is below 4 GiB.
pub open spec fn query_fits(s: Seq<char>, ps: Seq<(Seq<char>, Seq<char>)>) -> bool {
    3 * utf8_size(s) + 3 * pairs_size(ps) < 0x1_0000_0000
}

/// `url::Url::parse`, then `query_pairs_mut().clear()`, one
/// `query_pairs_mut().append_pair(k, v)` per pair, `set_fragment(None)` and
/// `to_string`. The result is named by [`url_with_pairs`].
#[verifier::external_body]
pub(crate) fn replace_query(s: &str, pairs: &[(String, String)]) -> (r: Option<String>)
    requires
        url_len_ok(s@),
        query_fits(s@, pair_views(pairs@)),
    ensures
        match r {
            Some(t) => url_with_pairs(s@, pair_views(pairs@)) == Some(t@),
            None => url_with_pairs(s@, pair_views(pairs@)) is None,
        },
{
    let mut u = url::Url::parse(s).ok()?;
    u.query_pairs_mut().clear();
    for (k, v) in pairs {
        u.query_pairs_mut().append_pair(k, v);
    }
    u.set_fragment(None);
    Some(u.to_string())
}

/// Whether the URL rebuilt with these pairs stays within 4 GiB.
fn query_fits_exec(s: &str, pairs: &[(String, String)]) -> (b: bool)
    requires
        url_len_ok(s@),
    ensures
        b == query_fits(s@, pair_views(pairs@)),
{
    let sv = chars_of(s);
    let base = match utf8_size_checked(sv.as_slice()) {
        Some(n) => n,
        None => return false,
    };
    let limit: u64 = 0x1_0000_0000;
    let ghost ps = pair_views(pairs@);
    let mut total: u64 = 3 * (base as u64);
    let mut i: usize = 0;
    while i < pairs.len()
        invariant
            i <= pairs@.len(),
            ps == pair_views(pairs@),
            total == 3 * utf8_size(s@) + 3 * pairs_size(ps.take(i as int)),
            total < limit,
            limit == 0x1_0000_0000,
        decreases pairs@.len() - i,
    {
        assert(ps.take(i + 1).drop_last() =~= ps.take(i as int));
        assert(ps.take(i + 1).last() == ps[i as int]);
        let kv = chars_of(pairs[i].0.as_str());
        let vv = chars_of(pairs[i].1.as_str());
        assert(kv@ == ps[i as int].0);
        assert(vv@ == ps[i as int].1);
        let k = match utf8_size_checked(kv.as_slice()) {
            Some(n) => n as u64,
            None => {
                proof { lemma_pairs_size_grows(ps, (i + 1) as nat); }
                return false;
            },
        };
        let v = match utf8_size_checked(vv.as_slice()) {
            Some(n) => n as u64,
            None => {
                proof { lemma_pairs_size_grows(ps, (i + 1) as nat); }
                return false;
            },
        };
        assert(pairs_size(ps.take(i + 1)) == pairs_size(ps.take(i as int)) + k + v + 2);
        if k >= limit || v >= limit {
            proof {
                lemma_pairs_size_grows(ps, (i + 1) as nat);
                assert(pairs_size(ps) >= limit);
                assert(3 * pairs_size(ps) >= limit) by (nonlinear_arith)
                    requires pairs_size(ps) >= limit;
            }
            return false;
        }
        assert(k + v + 2 < 0x2_0000_0002);
        let step: u64 = 3 * (k + v + 2);
        assert(step < 0x6_0000_0006);
        if total + step >= limit {
            proof { lemma_pairs_size_grows(ps, (i + 1) as nat); }
            return false;
        }
        total = total + step;
        i = i + 1;
    }
    assert(ps.take(ps.len() as int) =~= ps);
    true
}

/// The pairs' size only grows with more pairs.
proof fn lemma_pairs_size_grows(ps: Seq<(Seq<char>, Seq<char>)>, n: nat)
    requires
        n <= ps.len(),
    ensures
        pairs_size(ps.take(n as int)) <= pairs_size(ps),
    decreases ps.len() - n,
{
    if n < ps.len() {
        lemma_pairs_size_grows(ps, n + 1);
        assert(ps.take((n + 1) as int).drop_last() =~= ps.take(n as int));
    } else {
        assert(ps.take(n as int) =~= ps);
    }
}

// ── Secret redaction ─────────────────────────────────────────────────

/// Query keys whose values are secrets (matched as substrings of the
/// lower-cased key).
pub open spec fn is_sensitive_key(lower_key: Seq<char>) -> bool {
    ||| contains(lower_key, "token"@)
    ||| contains(lower_key, "code"@)
    ||| contains(lower_key, "key"@)
    ||| contains(lower_key, "secret"@)
    ||| contains(lower_key, "password"@)
    ||| contains(lower_key, "auth"@)
    ||| contains(lower_key, "access_token"@)
    ||| contains(lower_key, "refresh_token"@)
    ||| contains(lower_key, "api_key"@)
    ||| contains(lower_key, "session"@)
    ||| contains(lower_key, "otp"@)
    ||| contains(lower_key, "magic"@)
    ||| contains(lower_key, "reset"@)
    ||| contains(lower_key, "confirm"@)
}

/// A query pair after redaction.
pub open spec fn redact_pair(p: (Seq<char>, Seq<char>)) -> (Seq<char>, Seq<char>) {
    if is_sensitive_key(unicode_lower(p.0)) {
        (p.0, "[REDACTED]"@)
    } else {
        p
    }
}

/// `url` with secret query values replaced by `[REDACTED]` and its fragment
/// dropped; unparseable URLs are returned unchanged, and so is a URL whose
/// rebuilt form would pass the `url` crate's 4 GiB offsets.
pub open spec fn redacted_url(url: Seq<char>) -> Seq<char> {
    match url_parse(url) {
        Err(_) => url,
        Ok(p) => {
            let has_query = match p.query {
                Some(q) => q.len() > 0,
                None => false,
            };
            let rp = p.pairs.map_values(|x: (Seq<char>, Seq<char>)| redact_pair(x));
            let r = if has_query {
                if query_fits(url, rp) {
                    url_with_pairs(url, rp)
                } else {
                    None
                }
            } else {
                url_without_fragment(url)
            };
            match r {
                Some(t) => t,
                None => url,
            }
        },
    }
}

fn is_sensitive_key_exec(k: &[char]) -> (b: bool)
    ensures
        b == is_sensitive_key(k@),
{
    has(k, "token") || has(k, "code") || has(k, "key") || has(k, "secret") || has(k, "password")
        || has(k, "auth") || has(k, "access_token") || has(k, "refresh_token") || has(k, "api_key")
        || has(k, "session") || has(k, "otp") || has(k, "magic") || has(k, "reset") || has(
        k,
        "confirm",
    )
}

/// Redact sensitive query parameters (OAuth codes, tokens, keys, ...) and
/// drop the fragment of a URL. Unparseable URLs are returned unchanged.
pub fn redact_url_secrets(url: &str) -> (r: String)
    requires
        url_len_ok(url@),
    ensures
        r@ == redacted_url(url@),
{
    match parse_url(url) {
        Err(_) => copy_str(url),
        Ok(parsed) => {
            let has_query = match &parsed.query {
                Some(q) => !q.as_str().is_empty(),
                None => false,
            };
            if !has_query {
                return match strip_fragment(url) {
                    Some(t) => t,
                    None => copy_str(url),
                };
            }
            let mut filtered: Vec<(String, String)> = Vec::new();
            let mut i: usize = 0;
            while i < parsed.pairs.len()
                invariant
                    i <= parsed.pairs@.len(),
                    pair_views(filtered@) == pair_views(parsed.pairs@).take(i as int).map_values(
                        |x: (Seq<char>, Seq<char>)| redact_pair(x),
                    ),
                decreases parsed.pairs@.len() - i,
            {
                let k = &parsed.pairs[i].0;
                let v = &parsed.pairs[i].1;
                let lower_k = to_lower(k.as_str());
                let lk = chars_of(lower_k.as_str());
                let pair = if is_sensitive_key_exec(lk.as_slice()) {
                    (copy_str(k.as_str()), copy_str("[REDACTED]"))
                } else {
                    (copy_str(k.as_str()), copy_str(v.as_str()))
                };
                let ghost before = filtered@;
                filtered.push(pair);
                proof {
                    assert(pair_views(filtered@) =~= pair_views(before).push((pair.0@, pair.1@)));
                    assert(pair_views(parsed.pairs@).take(i + 1) =~= pair_views(
                        parsed.pairs@,
                    ).take(i as int).push(pair_views(parsed.pairs@)[i as int]));
                    assert(pair_views(filtered@) =~= pair_views(parsed.pairs@).take(
                        i + 1,
                    ).map_values(|x: (Seq<char>, Seq<char>)| redact_pair(x)));
                }
                i = i + 1;
            }
            assert(pair_views(parsed.pairs@).take(parsed.pairs@.len() as int) =~= pair_views(
                parsed.pairs@,
            ));
            if !query_fits_exec(url, filtered.as_slice()) {
                return copy_str(url);
            }
            match replace_query(url, filtered.as_slice()) {
                Some(t) => t,
                None => copy_str(url),
            }
        },
    }
}

} // verus!
