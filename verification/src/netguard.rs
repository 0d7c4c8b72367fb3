//! Navigation-target checks: which URLs an agent may be driven to (no
//! dangerous schemes, no loopback / private / link-local hosts), and which
//! URLs point at the local machine only (for a debugging endpoint).
use vstd::prelude::*;

use crate::sanitize::{is_suspicious_hostname, suspicious_host};
use crate::text::{
    all_digits, ascii_lower, ascii_lower_exec, chars_of, contains, digits_value, eq_lit, has,
    has_char, has_char_exec, is_ascii_digit, is_ctrl, is_ctrl_exec, push_str, split_char,
    split_char_exec, starts, starts_with, strip_leading, strip_trailing, string_of, to_lower,
    trim, trim_exec, unicode_lower, utf8_len, utf8_size, lemma_utf8_size_trim, copy_str,
};
use crate::weburl::{parse_url, parse_url_host, url_host, url_len_ok, url_parse, HostView, UrlHost};

verus! {

// ── Schemes ──────────────────────────────────────────────────────────

/// The text starts with a scheme that must never be navigated to.
pub open spec fn blocked_prefix(l: Seq<char>) -> bool {
    ||| starts_with(l, "file:"@) || starts_with(l, "javascript:"@) || starts_with(l, "data:"@)
    ||| starts_with(l, "blob:"@) || starts_with(l, "vbscript:"@) || starts_with(l, "chrome:"@)
    ||| starts_with(l, "chrome-extension:"@) || starts_with(l, "opera:"@)
    ||| starts_with(l, "about:"@) || starts_with(l, "devtools:"@)
    ||| starts_with(l, "view-source:"@) || starts_with(l, "edge:"@) || starts_with(l, "brave:"@)
    ||| starts_with(l, "ws:"@) || starts_with(l, "wss:"@)
}

/// The text is one of the blocked schemes, with its colon.
pub open spec fn blocked_scheme(s: Seq<char>) -> bool {
    ||| s == "file:"@ || s == "javascript:"@ || s == "data:"@ || s == "blob:"@
    ||| s == "vbscript:"@ || s == "chrome:"@ || s == "chrome-extension:"@ || s == "opera:"@
    ||| s == "about:"@ || s == "devtools:"@ || s == "view-source:"@ || s == "edge:"@
    ||| s == "brave:"@ || s == "ws:"@ || s == "wss:"@
}

fn blocked_prefix_exec(l: &[char]) -> (b: bool)
    ensures
        b == blocked_prefix(l@),
{
    starts(l, "file:") || starts(l, "javascript:") || starts(l, "data:") || starts(l, "blob:")
        || starts(l, "vbscript:") || starts(l, "chrome:") || starts(l, "chrome-extension:")
        || starts(l, "opera:") || starts(l, "about:") || starts(l, "devtools:") || starts(
        l,
        "view-source:",
    ) || starts(l, "edge:") || starts(l, "brave:") || starts(l, "ws:") || starts(l, "wss:")
}

fn blocked_scheme_exec(s: &[char]) -> (b: bool)
    ensures
        b == blocked_scheme(s@),
{
    eq_lit(s, "file:") || eq_lit(s, "javascript:") || eq_lit(s, "data:") || eq_lit(s, "blob:")
        || eq_lit(s, "vbscript:") || eq_lit(s, "chrome:") || eq_lit(s, "chrome-extension:")
        || eq_lit(s, "opera:") || eq_lit(s, "about:") || eq_lit(s, "devtools:") || eq_lit(
        s,
        "view-source:",
    ) || eq_lit(s, "edge:") || eq_lit(s, "brave:") || eq_lit(s, "ws:") || eq_lit(s, "wss:")
}

// ── Control characters ───────────────────────────────────────────────

/// `s` without its control characters (`char::is_control`), order kept.
pub open spec fn drop_ctrl(s: Seq<char>) -> Seq<char>
    decreases s.len(),
{
    if s.len() == 0 {
        seq![]
    } else if is_ctrl(s.last()) {
        drop_ctrl(s.drop_last())
    } else {
        drop_ctrl(s.drop_last()).push(s.last())
    }
}

/// Dropping characters never adds UTF-8 bytes.
pub proof fn lemma_drop_ctrl_size(s: Seq<char>)
    ensures
        utf8_size(drop_ctrl(s)) <= utf8_size(s),
    decreases s.len(),
{
    if s.len() > 0 {
        lemma_drop_ctrl_size(s.drop_last());
        let d = drop_ctrl(s.drop_last());
        if !is_ctrl(s.last()) {
            assert(d.push(s.last()).drop_last() =~= d);
        }
    }
}

fn drop_ctrl_exec(s: &[char]) -> (r: Vec<char>)
    ensures
        r@ == drop_ctrl(s@),
{
    let mut out: Vec<char> = Vec::new();
    let mut i: usize = 0;
    while i < s.len()
        invariant
            i <= s@.len(),
            out@ == drop_ctrl(s@.take(i as int)),
        decreases s@.len() - i,
    {
        proof {
            assert(s@.take(i + 1).drop_last() =~= s@.take(i as int));
        }
        if !is_ctrl_exec(s[i]) {
            out.push(s[i]);
        }
        i = i + 1;
    }
    assert(s@.take(s@.len() as int) =~= s@);
    out
}

// ── IP addresses ─────────────────────────────────────────────────────

/// One decimal octet as `Ipv4Addr::from_str` accepts it: one to three
/// ASCII digits, no leading zero unless the octet is `0`, at most 255.
pub open spec fn octet_ok(p: Seq<char>) -> bool {
    &&& 1 <= p.len() <= 3
    &&& all_digits(p)
    &&& (p.len() > 1 ==> p[0] != '0')
    &&& digits_value(p) <= 255
}

/// `Ipv4Addr::from_str`: four octets separated by dots.
pub open spec fn dotted_ipv4(s: Seq<char>) -> Option<Seq<u8>> {
    let parts = split_char(s, '.');
    if parts.len() == 4 && octet_ok(parts[0]) && octet_ok(parts[1]) && octet_ok(parts[2])
        && octet_ok(parts[3]) {
        Some(
            seq![
                digits_value(parts[0]) as u8,
                digits_value(parts[1]) as u8,
                digits_value(parts[2]) as u8,
                digits_value(parts[3]) as u8,
            ],
        )
    } else {
        None
    }
}

/// `Ipv4Addr::is_private`: 10/8, 172.16/12, 192.168/16.
pub open spec fn v4_private(o: Seq<u8>) -> bool {
    o[0] == 10 || (o[0] == 172 && 16 <= o[1] <= 31) || (o[0] == 192 && o[1] == 168)
}

/// `Ipv4Addr::is_loopback`: 127/8.
pub open spec fn v4_loopback(o: Seq<u8>) -> bool {
    o[0] == 127
}

/// `Ipv4Addr::is_link_local`: 169.254/16.
pub open spec fn v4_link_local(o: Seq<u8>) -> bool {
    o[0] == 169 && o[1] == 254
}

/// Private, loopback or link-local.
pub open spec fn v4_internal(o: Seq<u8>) -> bool {
    v4_private(o) || v4_loopback(o) || v4_link_local(o)
}

/// `Ipv6Addr::is_loopback`: `::1`.
pub open spec fn v6_loopback(s: Seq<u16>) -> bool {
    s[0] == 0 && s[1] == 0 && s[2] == 0 && s[3] == 0 && s[4] == 0 && s[5] == 0 && s[6] == 0
        && s[7] == 1
}

/// `Ipv6Addr::is_unspecified`: `::`.
pub open spec fn v6_unspecified(s: Seq<u16>) -> bool {
    s[0] == 0 && s[1] == 0 && s[2] == 0 && s[3] == 0 && s[4] == 0 && s[5] == 0 && s[6] == 0
        && s[7] == 0
}

/// The IPv4 address of an IPv4-mapped IPv6 address (`::ffff:a.b.c.d`).
pub open spec fn v6_mapped(s: Seq<u16>) -> Option<Seq<u8>> {
    if s[0] == 0 && s[1] == 0 && s[2] == 0 && s[3] == 0 && s[4] == 0 && s[5] == 0xffff {
        Some(seq![(s[6] / 256) as u8, (s[6] % 256) as u8, (s[7] / 256) as u8, (s[7] % 256) as u8])
    } else {
        None
    }
}

/// Loopback, unspecified, unique-local (fc00::/7), link-local (fe80::/10),
/// or mapping an internal IPv4 address.
pub open spec fn v6_internal(s: Seq<u16>) -> bool {
    ||| v6_loopback(s)
    ||| v6_unspecified(s)
    ||| 0xfc00 <= s[0] <= 0xfdff
    ||| 0xfe80 <= s[0] <= 0xfebf
    ||| (v6_mapped(s) matches Some(o) && v4_internal(o))
}

/// A host name without its IPv6 brackets.
pub open spec fn bare_host(h: Seq<char>) -> Seq<char> {
    strip_trailing(strip_leading(h, '['), ']')
}

/// The host is a loopback, private, link-local or metadata address (an
/// SSRF target). `h` is the host text of a parsed URL and `k` the host as
/// the parser read it. An IP-address host is classified by the address the
/// parser read, which is the address its text spells; a domain is looked
/// at as dotted IPv4 text. (A domain never holds `:`, so it never spells an
/// IPv6 address.)
pub open spec fn private_host(h: Seq<char>, k: Option<HostView>) -> bool {
    let b = bare_host(h);
    ||| b == "localhost"@ || b == "127.0.0.1"@ || b == "::1"@ || b == "0.0.0.0"@
    ||| b == "169.254.169.254"@
    ||| match k {
        Some(HostView::Ipv4(o)) => v4_internal(o),
        Some(HostView::Ipv6(s)) => v6_internal(s),
        Some(HostView::Domain(_)) => dotted_ipv4(b) matches Some(o) && v4_internal(o),
        None => false,
    }
}

/// The host is the local machine only: `localhost` (any ASCII case),
/// `127.0.0.1`, `::1`, or any IPv4 127/8 or IPv6 `::1` address, read as in
/// [`private_host`].
pub open spec fn loopback_host(h: Seq<char>, k: Option<HostView>) -> bool {
    let b = bare_host(h);
    ||| ascii_lower(b) == "localhost"@ || b == "127.0.0.1"@ || b == "::1"@
    ||| match k {
        Some(HostView::Ipv4(o)) => v4_loopback(o),
        Some(HostView::Ipv6(s)) => v6_loopback(s),
        Some(HostView::Domain(_)) => dotted_ipv4(b) matches Some(o) && v4_loopback(o),
        None => false,
    }
}

/// Parse one decimal octet.
fn octet_exec(p: &[char]) -> (r: Option<u8>)
    ensures
        match r {
            Some(v) => octet_ok(p@) && v == digits_value(p@),
            None => !octet_ok(p@),
        },
{
    if p.len() == 0 || p.len() > 3 {
        return None;
    }
    if p.len() > 1 && p[0] == '0' {
        return None;
    }
    let mut value: u32 = 0;
    let mut i: usize = 0;
    while i < p.len()
        invariant
            i <= p@.len() <= 3,
            forall|j: int| 0 <= j < i ==> is_ascii_digit(#[trigger] p@[j]),
            value == digits_value(p@.take(i as int)),
            i == 0 ==> value == 0,
            i == 1 ==> value < 10,
            i == 2 ==> value < 100,
            value < 1000,
        decreases p@.len() - i,
    {
        let c = p[i];
        if !('0' <= c && c <= '9') {
            assert(!is_ascii_digit(p@[i as int]));
            return None;
        }
        proof {
            assert(p@.take(i + 1).drop_last() =~= p@.take(i as int));
            assert(p@.take(i + 1).last() == c);
        }
        value = value * 10 + (c as u32 - 48);
        i = i + 1;
    }
    assert(p@.take(p@.len() as int) =~= p@);
    if value > 255 {
        return None;
    }
    Some(value as u8)
}

/// `Ipv4Addr::from_str` on characters.
fn dotted_ipv4_exec(s: &[char]) -> (r: Option<[u8; 4]>)
    ensures
        match r {
            Some(o) => dotted_ipv4(s@) == Some(o@),
            None => dotted_ipv4(s@) is None,
        },
{
    let parts = split_char_exec(s, '.');
    if parts.len() != 4 {
        return None;
    }
    let a = octet_exec(parts[0].as_slice());
    let b = octet_exec(parts[1].as_slice());
    let c = octet_exec(parts[2].as_slice());
    let d = octet_exec(parts[3].as_slice());
    match (a, b, c, d) {
        (Some(a), Some(b), Some(c), Some(d)) => {
            let o = [a, b, c, d];
            assert(o@ =~= seq![a, b, c, d]);
            Some(o)
        },
        _ => None,
    }
}

fn v4_internal_exec(o: &[u8; 4]) -> (b: bool)
    ensures
        b == v4_internal(o@),
{
    o[0] == 10 || (o[0] == 172 && 16 <= o[1] && o[1] <= 31) || (o[0] == 192 && o[1] == 168)
        || o[0] == 127 || (o[0] == 169 && o[1] == 254)
}

fn v6_internal_exec(s: &[u16; 8]) -> (b: bool)
    ensures
        b == v6_internal(s@),
{
    let zero5 = s[0] == 0 && s[1] == 0 && s[2] == 0 && s[3] == 0 && s[4] == 0;
    let loopback = zero5 && s[5] == 0 && s[6] == 0 && s[7] == 1;
    let unspecified = zero5 && s[5] == 0 && s[6] == 0 && s[7] == 0;
    let unique_local = 0xfc00 <= s[0] && s[0] <= 0xfdff;
    let link_local = 0xfe80 <= s[0] && s[0] <= 0xfebf;
    let mapped = if zero5 && s[5] == 0xffff {
        let o = [(s[6] / 256) as u8, (s[6] % 256) as u8, (s[7] / 256) as u8, (s[7] % 256) as u8];
        assert(o@ =~= seq![
            (s@[6] / 256) as u8,
            (s@[6] % 256) as u8,
            (s@[7] / 256) as u8,
            (s@[7] % 256) as u8,
        ]);
        v4_internal_exec(&o)
    } else {
        false
    };
    loopback || unspecified || unique_local || link_local || mapped
}

fn bare_host_exec(h: &str) -> (r: Vec<char>)
    ensures
        r@ == bare_host(h@),
{
    let s = chars_of(h);
    let mut a: usize = 0;
    assert(s@.skip(0) =~= s@);
    while a < s.len() && s[a] == '['
        invariant
            a <= s@.len(),
            strip_leading(s@, '[') == strip_leading(s@.skip(a as int), '['),
        decreases s@.len() - a,
    {
        assert(s@.skip(a as int).drop_first() =~= s@.skip(a + 1));
        a = a + 1;
    }
    let mut b: usize = s.len();
    let ghost t = s@.skip(a as int);
    assert(t.take(t.len() as int) =~= t);
    while b > a && s[b - 1] == ']'
        invariant
            a <= b <= s@.len(),
            t == s@.skip(a as int),
            strip_trailing(t, ']') == strip_trailing(t.take(b - a), ']'),
        decreases b,
    {
        assert(t.take(b - a).drop_last() =~= t.take(b - 1 - a));
        b = b - 1;
    }
    let mut r: Vec<char> = Vec::new();
    let mut i: usize = a;
    while i < b
        invariant
            a <= i <= b <= s@.len(),
            r@ == s@.subrange(a as int, i as int),
        decreases b - i,
    {
        r.push(s[i]);
        i = i + 1;
    }
    assert(r@ =~= t.take(b - a));
    r
}

fn private_host_exec(h: &str, k: &Option<UrlHost>) -> (b: bool)
    ensures
        b == private_host(h@, match k {
            Some(x) => Some(x@),
            None => None,
        }),
{
    let bare = bare_host_exec(h);
    let bs = bare.as_slice();
    if eq_lit(bs, "localhost") || eq_lit(bs, "127.0.0.1") || eq_lit(bs, "::1") || eq_lit(
        bs,
        "0.0.0.0",
    ) || eq_lit(bs, "169.254.169.254") {
        return true;
    }
    match k {
        Some(UrlHost::Ipv4(o)) => v4_internal_exec(o),
        Some(UrlHost::Ipv6(s)) => v6_internal_exec(s),
        Some(UrlHost::Domain(_)) => match dotted_ipv4_exec(bs) {
            Some(o) => v4_internal_exec(&o),
            None => false,
        },
        None => false,
    }
}

fn loopback_host_exec(h: &str, k: &Option<UrlHost>) -> (b: bool)
    ensures
        b == loopback_host(h@, match k {
            Some(x) => Some(x@),
            None => None,
        }),
{
    let bare = bare_host_exec(h);
    let bs = bare.as_slice();
    let lower = ascii_lower_exec(bs);
    if eq_lit(lower.as_slice(), "localhost") || eq_lit(bs, "127.0.0.1") || eq_lit(bs, "::1") {
        return true;
    }
    match k {
        Some(UrlHost::Ipv4(o)) => o[0] == 127,
        Some(UrlHost::Ipv6(s)) => s[0] == 0 && s[1] == 0 && s[2] == 0 && s[3] == 0 && s[4] == 0
            && s[5] == 0 && s[6] == 0 && s[7] == 1,
        Some(UrlHost::Domain(_)) => match dotted_ipv4_exec(bs) {
            Some(o) => o[0] == 127,
            None => false,
        },
        None => false,
    }
}

// ── Decisions ────────────────────────────────────────────────────────

/// Whether `url` may be navigated to. With `bypass` (a development escape
/// hatch) loopback and private hosts are let through; dangerous schemes
/// never are. Unparseable input passes only when it has no scheme-like
/// colon.
pub open spec fn url_is_safe(url: Seq<char>, bypass: bool) -> bool {
    let lower = unicode_lower(trim(drop_ctrl(url)));
    if blocked_prefix(lower) {
        false
    } else {
        match url_parse(url) {
            Ok(p) => {
                if blocked_scheme(p.scheme + ":"@) {
                    false
                } else {
                    match p.host {
                        Some(h) => {
                            if suspicious_host(unicode_lower(h)) && !bypass {
                                false
                            } else if private_host(h, url_host(url)) && !bypass {
                                false
                            } else {
                                true
                            }
                        },
                        None => true,
                    }
                }
            },
            Err(_) => !contains(lower, "://"@) && !has_char(lower, ':'),
        }
    }
}

/// Whether `url` points at the local machine only: after dropping control
/// characters and surrounding whitespace it parses, its scheme is `ws`,
/// `wss`, `http` or `https`, and its host is a loopback host.
pub open spec fn url_is_loopback_only(url: Seq<char>) -> bool {
    let t = trim(drop_ctrl(url));
    &&& t.len() > 0
    &&& match url_parse(t) {
        Err(_) => false,
        Ok(p) => {
            &&& (p.scheme == "ws"@ || p.scheme == "wss"@ || p.scheme == "http"@ || p.scheme
                == "https"@)
            &&& match p.host {
                None => false,
                Some(h) => loopback_host(h, url_host(t)),
            }
        },
    }
}

/// Check whether a URL is safe for automated navigation, `bypass` being
/// whether the development escape hatch for private hosts is on.
pub fn is_safe_url_with(url: &str, bypass: bool) -> (b: bool)
    requires
        url_len_ok(url@),
    ensures
        b == url_is_safe(url@, bypass),
{
    let v = chars_of(url);
    let cleaned = drop_ctrl_exec(v.as_slice());
    let trimmed = trim_exec(cleaned.as_slice());
    let ts = string_of(trimmed.as_slice());
    let lower_s = to_lower(ts.as_str());
    let lower = chars_of(lower_s.as_str());
    if blocked_prefix_exec(lower.as_slice()) {
        return false;
    }
    match parse_url(url) {
        Ok(parsed) => {
            let mut with_colon = copy_str(parsed.scheme.as_str());
            push_str(&mut with_colon, ":");
            let wc = chars_of(with_colon.as_str());
            if blocked_scheme_exec(wc.as_slice()) {
                return false;
            }
            match &parsed.host {
                Some(host) => {
                    if is_suspicious_hostname(host.as_str()) && !bypass {
                        return false;
                    }
                    let kind = parse_url_host(url);
                    if private_host_exec(host.as_str(), &kind) && !bypass {
                        return false;
                    }
                    true
                },
                None => true,
            }
        },
        Err(_) => {
            let sep = has(lower.as_slice(), "://");
            !sep && !has_char_exec(lower.as_slice(), ':')
        },
    }
}

/// Check whether a URL is safe for automated navigation: dangerous schemes
/// (`file:`, `javascript:`, `data:`, browser-internal pages, raw sockets)
/// and loopback, private, link-local and DNS-rebinding hosts are refused.
pub fn is_safe_url(url: &str) -> (b: bool)
    requires
        url_len_ok(url@),
    ensures
        b == url_is_safe(url@, false),
{
    is_safe_url_with(url, false)
}

/// Returns `true` only when the URL points to a loopback host (`localhost`,
/// `127.0.0.1`, `::1`, or another 127/8 or `::1` address) over `ws`, `wss`,
/// `http` or `https`; anything else, unparseable input included, is refused.
pub fn is_loopback_only(url: &str) -> (b: bool)
    requires
        url_len_ok(url@),
    ensures
        b == url_is_loopback_only(url@),
{
    let v = chars_of(url);
    let cleaned = drop_ctrl_exec(v.as_slice());
    let trimmed = trim_exec(cleaned.as_slice());
    if trimmed.len() == 0 {
        return false;
    }
    proof {
        lemma_drop_ctrl_size(url@);
        lemma_utf8_size_trim(cleaned@);
    }
    let ts = string_of(trimmed.as_slice());
    let parsed = match parse_url(ts.as_str()) {
        Ok(p) => p,
        Err(_) => return false,
    };
    let sc = chars_of(parsed.scheme.as_str());
    let s = sc.as_slice();
    if !(eq_lit(s, "ws") || eq_lit(s, "wss") || eq_lit(s, "http") || eq_lit(s, "https")) {
        return false;
    }
    match &parsed.host {
        None => false,
        Some(h) => {
            let kind = parse_url_host(ts.as_str());
            loopback_host_exec(h.as_str(), &kind)
        },
    }
}

} // verus!
