//! Helpers of the tool server: origins of URLs, keyboard codes, the
//! script that finds an element by its snapshot id, and window sizes.
use vstd::prelude::*;

use crate::sanitize::{hex_of, hex_of_bytes};
use crate::target::{build_target_js, js_object, target_script, TargetSpec};
use crate::text::{
    before_char, chars_of, contains, copy_str, dec, find, find_exec, parse_u32, parse_u32_exec,
    push_chars, push_dec, push_str, slice_vec, split_char, split_char_exec, starts, starts_with,
    str_eq, string_of, trim, trim_exec, before_char_exec, char_pos, views, to_upper, unicode_upper,
};

verus! {

// ── Origins ──────────────────────────────────────────────────────────

/// Scheme and authority of an `http(s)` URL: the scheme, `://`, and what
/// follows up to the first `/`. Other URLs have no origin here.
pub open spec fn origin_of(url: Seq<char>) -> Option<Seq<char>> {
    if starts_with(url, "https://"@) {
        Some("https://"@ + before_char(url.skip(8), '/'))
    } else if starts_with(url, "http://"@) {
        Some("http://"@ + before_char(url.skip(7), '/'))
    } else {
        None
    }
}

/// Extract the origin (scheme + host + port) from a URL string.
pub fn extract_origin(url: &str) -> (r: Option<String>)
    ensures
        r matches Some(o) ==> origin_of(url@) == Some(o@),
        r is None ==> origin_of(url@) is None,
{
    let v = chars_of(url);
    proof {
        reveal_strlit("https://");
        reveal_strlit("http://");
    }
    let (scheme, skip): (&str, usize) = if starts(v.as_slice(), "https://") {
        ("https://", 8)
    } else if starts(v.as_slice(), "http://") {
        ("http://", 7)
    } else {
        return None;
    };
    let rest = slice_vec(v.as_slice(), skip, v.len());
    let authority = before_char_exec(rest.as_slice(), '/');
    let mut out = copy_str(scheme);
    push_chars(&mut out, authority.as_slice());
    Some(out)
}

/// Two URLs have the same origin when both have one and they are equal.
pub open spec fn same_origin_spec(a: Seq<char>, b: Seq<char>) -> bool {
    match (origin_of(a), origin_of(b)) {
        (Some(oa), Some(ob)) => oa == ob,
        _ => false,
    }
}

/// Compare two URLs by origin (scheme + host + port).
pub fn same_origin(a: &str, b: &str) -> (r: bool)
    ensures
        r == same_origin_spec(a@, b@),
{
    match (extract_origin(a), extract_origin(b)) {
        (Some(oa), Some(ob)) => str_eq(oa.as_str(), ob.as_str()),
        _ => false,
    }
}

// ── Keys ─────────────────────────────────────────────────────────────

/// `KeyboardEvent.code` of a key name. The named keys (Enter, Tab, Escape,
/// Backspace, Delete, Space, the arrows, Home, End, PageUp, PageDown,
/// F1-F12) have their own name as code, a lone space has `Space`, any other
/// single character `c` has `Key` followed by `c` upper-cased, and any
/// other key falls back to its name.
pub open spec fn key_code(key: Seq<char>) -> Seq<char> {
    if key == " "@ {
        "Space"@
    } else if key.len() == 1 {
        "Key"@ + unicode_upper(key)
    } else {
        key
    }
}

/// Map a key name to its `KeyboardEvent.code` string.
pub fn key_to_code(key: &str) -> (r: String)
    ensures
        r@ == key_code(key@),
{
    if str_eq(key, " ") {
        return copy_str("Space");
    }
    if key.unicode_len() == 1 {
        let mut r = copy_str("Key");
        let up = to_upper(key);
        push_str(&mut r, up.as_str());
        return r;
    }
    copy_str(key)
}

// ── Element scripts ──────────────────────────────────────────────────

/// Script text before the element id.
pub const ELEMENT_JS_HEAD: &'static str = r#"(() => {
            // deepQuerySelector — searches shadow roots and iframes
            // with maxDepth=5 to prevent unbounded recursion.
            function deepQuerySelector(root, sel, depth) {
                if (depth === undefined) depth = 0;
                if (depth > 5) return null;
                const found = root.querySelector(sel);
                if (found) return found;
                const all = root.querySelectorAll('*');
                for (const node of all) {
                    if (node.shadowRoot) {
                        const sr = deepQuerySelector(node.shadowRoot, sel, depth + 1);
                        if (sr) return sr;
                    }
                }
                // Same-origin iframes
                const iframes = root.querySelectorAll('iframe');
                for (const iframe of iframes) {
                    try {
                        if (iframe.contentDocument) {
                            const ir = deepQuerySelector(iframe.contentDocument, sel, depth + 1);
                            if (ir) return ir;
                        }
                    } catch(_) {}
                }
                return null;
            }
            const el = deepQuerySelector(document, '[data-lad-id=""#;

/// Script text between the two occurrences of the element id.
pub const ELEMENT_JS_MID: &'static str = r#""]');
            if (!el) return JSON.stringify({ error: "element "#;

/// Script text between the element id and the body.
pub const ELEMENT_JS_TAIL: &'static str = r#" not found" });
            "#;

/// Script text after the body.
pub const ELEMENT_JS_END: &'static str = r#"
            return JSON.stringify({ ok: true });
        })()"#;

/// The script that finds the element with `data-lad-id` equal to `id`
/// (searching shadow roots and same-origin iframes, at most 5 levels deep),
/// binds it to `el` and runs `body`.
pub open spec fn element_script(id: Seq<char>, body: Seq<char>) -> Seq<char> {
    ELEMENT_JS_HEAD@ + id + ELEMENT_JS_MID@ + id + ELEMENT_JS_TAIL@ + body + ELEMENT_JS_END@
}

/// Build JS to find an element by `data-lad-id` and execute a body; when no
/// element has that id the script returns a JSON error.
pub fn build_element_js(element_id: u32, body: &str) -> (r: String)
    ensures
        r@ == element_script(dec(element_id as nat), body@),
{
    let mut out = copy_str(ELEMENT_JS_HEAD);
    push_dec(&mut out, element_id as u64);
    push_str(&mut out, ELEMENT_JS_MID);
    push_dec(&mut out, element_id as u64);
    push_str(&mut out, ELEMENT_JS_TAIL);
    push_str(&mut out, body);
    push_str(&mut out, ELEMENT_JS_END);
    out
}

/// The element script for an id when one is given, else the semantic
/// target script when the target constrains something, else nothing (the
/// caller must name an element or a target).
pub open spec fn element_or_target_script(
    element_id: Option<u32>,
    target: Option<TargetSpec>,
    body: Seq<char>,
) -> Option<Seq<char>> {
    match element_id {
        Some(id) => Some(element_script(dec(id as nat), body)),
        None => match target {
            Some(t) => if t.role is Some || t.text is Some || t.label is Some || t.testid is Some
                || t.selector is Some || t.within_text is Some {
                Some(target_script(js_object(t), body))
            } else {
                None
            },
            None => None,
        },
    }
}

/// Build the script that locates an element either by its numeric
/// `data-lad-id` or by a semantic target; `None` when neither is given (or
/// the target constrains nothing).
pub fn build_element_js_or_target(
    element_id: Option<u32>,
    target: Option<&TargetSpec>,
    body: &str,
) -> (r: Option<String>)
    ensures
        match (r, element_or_target_script(element_id, match target {
            Some(t) => Some(*t),
            None => None,
        }, body@)) {
            (Some(s), Some(e)) => s@ == e,
            (None, None) => true,
            _ => false,
        },
{
    match (element_id, target) {
        (Some(id), _) => Some(build_element_js(id, body)),
        (None, Some(spec)) => {
            if spec.is_populated() {
                Some(build_target_js(spec, body))
            } else {
                None
            }
        },
        _ => None,
    }
}

// ── Window sizes ─────────────────────────────────────────────────────

/// A `WIDTHxHEIGHT` setting: two `u32` numbers around one `x`, at least
/// 320 by 240.
pub open spec fn window_size_of(val: Seq<char>) -> Option<(u32, u32)> {
    let parts = split_char(val, 'x');
    if parts.len() == 2 {
        match (parse_u32(parts[0]), parse_u32(parts[1])) {
            (Some(w), Some(h)) => if w >= 320 && h >= 240 {
                Some((w, h))
            } else {
                None
            },
            _ => None,
        }
    } else {
        None
    }
}

/// Parse a window size setting (`"1920x1080"`); `None` when it is not two
/// numbers around an `x` or is smaller than 320x240.
pub fn parse_window_size(val: &str) -> (r: Option<(u32, u32)>)
    ensures
        r == window_size_of(val@),
{
    let v = chars_of(val);
    let parts = split_char_exec(v.as_slice(), 'x');
    if parts.len() != 2 {
        return None;
    }
    match (parse_u32_exec(parts[0].as_slice()), parse_u32_exec(parts[1].as_slice())) {
        (Some(w), Some(h)) => {
            if w >= 320 && h >= 240 {
                Some((w, h))
            } else {
                None
            }
        },
        _ => None,
    }
}

/// The text before the first occurrence of `p`, or all of it.
pub open spec fn before_pat(s: Seq<char>, p: Seq<char>) -> Seq<char> {
    match find(s, p) {
        Some(i) => s.take(i as int),
        None => s,
    }
}

/// A display resolution text (`"3440 x 1440 @ 120.00Hz"`): what precedes
/// `" @"`, split at `" x "` into exactly two trimmed `u32` numbers.
pub open spec fn resolution_of(res: Seq<char>) -> Option<(u32, u32)> {
    let clean = before_pat(res, " @"@);
    match find(clean, " x "@) {
        Some(i) => {
            let a = clean.take(i as int);
            let b = clean.skip(i as int + 3);
            if contains(b, " x "@) {
                None
            } else {
                match (parse_u32(trim(a)), parse_u32(trim(b))) {
                    (Some(w), Some(h)) => Some((w, h)),
                    _ => None,
                }
            }
        },
        None => None,
    }
}

/// Parse one display resolution text.
pub fn parse_resolution(res: &str) -> (r: Option<(u32, u32)>)
    ensures
        r == resolution_of(res@),
{
    let v = chars_of(res);
    proof {
        reveal_strlit(" @");
        reveal_strlit(" x ");
    }
    let at: Vec<char> = vec![' ', '@'];
    assert(at@ =~= " @"@);
    let clean = match find_exec(v.as_slice(), at.as_slice()) {
        Some(i) => {
            proof {
                crate::text::lemma_find_contains(v@, at@);
            }
            slice_vec(v.as_slice(), 0, i)
        },
        None => slice_vec(v.as_slice(), 0, v.len()),
    };
    assert(clean@ == before_pat(res@, " @"@)) by {
        assert(v@.subrange(0, v@.len() as int) =~= v@);
    }
    let sep: Vec<char> = vec![' ', 'x', ' '];
    assert(sep@ =~= " x "@);
    match find_exec(clean.as_slice(), sep.as_slice()) {
        Some(i) => {
            proof {
                crate::text::lemma_find_contains(clean@, sep@);
            }
            let a = slice_vec(clean.as_slice(), 0, i);
            let b = slice_vec(clean.as_slice(), i + 3, clean.len());
            assert(a@ =~= clean@.take(i as int));
            assert(b@ =~= clean@.skip(i + 3));
            if crate::text::contains_exec(b.as_slice(), sep.as_slice()) {
                return None;
            }
            let ta = trim_exec(a.as_slice());
            let tb = trim_exec(b.as_slice());
            match (parse_u32_exec(ta.as_slice()), parse_u32_exec(tb.as_slice())) {
                (Some(w), Some(h)) => Some((w, h)),
                _ => None,
            }
        },
        None => None,
    }
}

/// The largest of the parsed resolutions by area (the first among equals),
/// over the texts before index `n`.
pub open spec fn best_resolution(res: Seq<Seq<char>>, n: nat) -> Option<(u32, u32)>
    decreases n,
{
    if n == 0 || n > res.len() {
        None
    } else {
        let prev = best_resolution(res, (n - 1) as nat);
        match resolution_of(res[n - 1]) {
            Some((w, h)) => match prev {
                Some((bw, bh)) => if w * h > bw * bh {
                    Some((w, h))
                } else {
                    prev
                },
                None => Some((w, h)),
            },
            None => prev,
        }
    }
}

proof fn lemma_area_fits(w: u64, h: u64)
    requires
        w <= u32::MAX,
        h <= u32::MAX,
    ensures
        w * h <= u64::MAX,
{
    assert(w * h <= (u32::MAX as int) * (u32::MAX as int)) by (nonlinear_arith)
        requires
            w <= u32::MAX,
            h <= u32::MAX,
    ;
}

/// The screen size to use from the displays' resolution texts: the largest
/// display by area, capped at 1920x1080.
pub open spec fn screen_size_of(res: Seq<Seq<char>>) -> Option<(u32, u32)> {
    match best_resolution(res, res.len()) {
        Some((w, h)) => Some((if w < 1920 { w } else { 1920 }, if h < 1080 { h } else { 1080 })),
        None => None,
    }
}

/// Pick the screen size from the displays' resolution texts (largest
/// display, capped at 1920x1080); `None` when none parses.
pub fn pick_screen_size(resolutions: &[String]) -> (r: Option<(u32, u32)>)
    ensures
        r == screen_size_of(resolutions@.map_values(|s: String| s@)),
{
    let ghost res = resolutions@.map_values(|s: String| s@);
    let mut best: Option<(u32, u32)> = None;
    let mut i: usize = 0;
    while i < resolutions.len()
        invariant
            i <= resolutions@.len(),
            res == resolutions@.map_values(|s: String| s@),
            best == best_resolution(res, i as nat),
        decreases resolutions@.len() - i,
    {
        assert(res[i as int] == resolutions@[i as int]@);
        match parse_resolution(resolutions[i].as_str()) {
            Some((w, h)) => {
                match best {
                    Some((bw, bh)) => {
                        let (w64, h64, bw64, bh64) = (w as u64, h as u64, bw as u64, bh as u64);
                        proof {
                            lemma_area_fits(w64, h64);
                            lemma_area_fits(bw64, bh64);
                        }
                        let area: u64 = w64 * h64;
                        let best_area: u64 = bw64 * bh64;
                        if area > best_area {
                            best = Some((w, h));
                        }
                    },
                    None => {
                        best = Some((w, h));
                    },
                }
            },
            None => {},
        }
        i = i + 1;
    }
    match best {
        Some((w, h)) => Some((if w < 1920 { w } else { 1920 }, if h < 1080 { h } else { 1080 })),
        None => None,
    }
}

// ── Audit hashes ─────────────────────────────────────────────────────

/// What `sha2::Sha256::digest` gives for a byte sequence.
pub uninterp spec fn sha256(data: Seq<u8>) -> Seq<u8>;

/// `sha2::Sha256::digest`, its 32 bytes copied out. The result is named by
/// [`sha256`].
#[verifier::external_body]
fn sha256_digest(data: &[u8]) -> (r: [u8; 32])
    ensures
        r@ == sha256(data@),
{
    let d = <sha2::Sha256 as sha2::Digest>::digest(data);
    let mut out = [0u8; 32];
    out.copy_from_slice(&d);
    out
}

/// The first 8 bytes of the SHA-256 of a text's UTF-8 bytes, as 16
/// lower-case hex digits (logged in place of a script's content).
pub fn sha256_prefix(data: &str) -> (r: String)
    ensures
        r@ == hex_of(sha256(vstd::utf8::encode_utf8(data@)).take(8)),
{
    let bytes = data.as_bytes();
    let digest = sha256_digest(bytes);
    let mut first: Vec<u8> = Vec::new();
    let mut i: usize = 0;
    while i < 8
        invariant
            i <= 8,
            digest@.len() == 32,
            first@ == digest@.take(i as int),
        decreases 8 - i,
    {
        first.push(digest[i]);
        i = i + 1;
        assert(first@ =~= digest@.take(i as int));
    }
    hex_of_bytes(first.as_slice())
}

} // verus!
