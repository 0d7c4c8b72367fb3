//! Prompt-injection defenses: invisible-character stripping, sensitive
//! value masking, suspicious host names, and credential redaction.
use vstd::prelude::*;

use crate::entropy::os_random_bytes;
use crate::rx::{regex_replace, regex_replace_all};
pub use crate::weburl::redact_url_secrets;
pub use crate::netguard::{is_loopback_only, is_safe_url, is_safe_url_with};
use crate::text::{
    ascii_lower, ascii_lower_exec, chars_of, contains, copy_str, ends, ends_with, eq_lit, has,
    is_ascii_alnum, is_ascii_lower, is_ascii_upper, oview, push_char, to_lower, unicode_lower, views,
};

verus! {

/// Code points used to smuggle hidden text: zero-width characters, bidi
/// overrides, the Unicode tag block, soft hyphen and friends, variation
/// selectors.
pub open spec fn is_stego(c: char) -> bool {
    ||| c == '\u{200B}' || c == '\u{200C}' || c == '\u{200D}' || c == '\u{FEFF}'
    ||| c == '\u{2060}' || c == '\u{2061}' || c == '\u{2062}' || c == '\u{2063}' || c == '\u{2064}'
    ||| c == '\u{200E}' || c == '\u{200F}'
    ||| c == '\u{202A}' || c == '\u{202B}' || c == '\u{202C}' || c == '\u{202D}' || c == '\u{202E}'
    ||| c == '\u{2066}' || c == '\u{2067}' || c == '\u{2068}' || c == '\u{2069}'
    ||| ('\u{E0001}' <= c && c <= '\u{E007F}')
    ||| c == '\u{00AD}' || c == '\u{034F}' || c == '\u{061C}'
    ||| ('\u{FE00}' <= c && c <= '\u{FE0F}')
}

/// `s` without the steganographic characters, order kept.
pub open spec fn strip_stego(s: Seq<char>) -> Seq<char>
    decreases s.len(),
{
    if s.len() == 0 {
        seq![]
    } else if is_stego(s.last()) {
        strip_stego(s.drop_last())
    } else {
        strip_stego(s.drop_last()).push(s.last())
    }
}

/// Returns `true` for Unicode code points used in steganographic attacks.
pub fn is_steganographic(c: char) -> (b: bool)
    ensures
        b == is_stego(c),
{
    c == '\u{200B}' || c == '\u{200C}' || c == '\u{200D}' || c == '\u{FEFF}' || c == '\u{2060}'
        || c == '\u{2061}' || c == '\u{2062}' || c == '\u{2063}' || c == '\u{2064}' || c
        == '\u{200E}' || c == '\u{200F}' || c == '\u{202A}' || c == '\u{202B}' || c == '\u{202C}'
        || c == '\u{202D}' || c == '\u{202E}' || c == '\u{2066}' || c == '\u{2067}' || c
        == '\u{2068}' || c == '\u{2069}' || ('\u{E0001}' <= c && c <= '\u{E007F}') || c
        == '\u{00AD}' || c == '\u{034F}' || c == '\u{061C}' || ('\u{FE00}' <= c && c
        <= '\u{FE0F}')
}

/// Strip characters commonly used for steganographic prompt injection.
pub fn sanitize_text(input: &str) -> (r: String)
    ensures
        r@ == strip_stego(input@),
{
    let v = chars_of(input);
    let mut out = String::new();
    let mut i: usize = 0;
    while i < v.len()
        invariant
            i <= v@.len(),
            out@ == strip_stego(v@.take(i as int)),
        decreases v@.len() - i,
    {
        proof {
            assert(v@.take(i + 1).drop_last() =~= v@.take(i as int));
        }
        if !is_steganographic(v[i]) {
            push_char(&mut out, v[i]);
        }
        i = i + 1;
    }
    assert(v@.take(v@.len() as int) =~= v@);
    out
}

/// Stripping leaves no steganographic character behind.
pub proof fn lemma_strip_stego_clean(s: Seq<char>)
    ensures
        forall|i: int| 0 <= i < strip_stego(s).len() ==> !is_stego(#[trigger] strip_stego(s)[i]),
    decreases s.len(),
{
    if s.len() > 0 {
        lemma_strip_stego_clean(s.drop_last());
        let t = strip_stego(s.drop_last());
        if !is_stego(s.last()) {
            assert forall|i: int| 0 <= i < t.push(s.last()).len() implies !is_stego(#[trigger] t.push(s.last())[i]) by {
                if i < t.len() {
                    assert(t.push(s.last())[i] == t[i]);
                }
            }
        }
    }
}

/// A text without steganographic characters is kept as it is.
pub proof fn lemma_strip_stego_clean_is_kept(s: Seq<char>)
    requires
        forall|i: int| 0 <= i < s.len() ==> !is_stego(#[trigger] s[i]),
    ensures
        strip_stego(s) == s,
    decreases s.len(),
{
    if s.len() > 0 {
        assert forall|i: int| 0 <= i < s.drop_last().len() implies !is_stego(#[trigger] s.drop_last()[i]) by {
            assert(s.drop_last()[i] == s[i]);
        }
        lemma_strip_stego_clean_is_kept(s.drop_last());
        assert(!is_stego(s[s.len() - 1]));
        assert(s.drop_last().push(s.last()) =~= s);
    }
}

/// Sanitizing is idempotent: sanitizing sanitized text changes nothing.
pub proof fn lemma_sanitize_idempotent(s: Seq<char>)
    ensures
        strip_stego(strip_stego(s)) == strip_stego(s),
{
    lemma_strip_stego_clean(s);
    lemma_strip_stego_clean_is_kept(strip_stego(s));
}

// ── Field-name tokens ────────────────────────────────────────────────

/// Tokenizer state: finished tokens, the token being built, and whether the
/// previous character was an ASCII lower / upper case letter.
pub struct TokState {
    pub tokens: Seq<Seq<char>>,
    pub cur: Seq<char>,
    pub prev_lower: bool,
    pub prev_upper: bool,
}

/// Close the current token (lower-cased) if it is nonempty.
pub open spec fn flush(st: TokState) -> TokState {
    if st.cur.len() > 0 {
        TokState { tokens: st.tokens.push(ascii_lower(st.cur)), cur: seq![], ..st }
    } else {
        st
    }
}

/// The tokenizer after reading character `i` of `s`.
pub open spec fn tok_step(st: TokState, s: Seq<char>, i: int) -> TokState {
    let c = s[i];
    if !is_ascii_alnum(c) {
        TokState { prev_lower: false, prev_upper: false, ..flush(st) }
    } else {
        let up = is_ascii_upper(c);
        let low = is_ascii_lower(c);
        let next_low = i + 1 < s.len() && is_ascii_lower(s[i + 1]);
        let split = (up && st.prev_lower) || (up && st.prev_upper && next_low);
        let st2 = if split {
            flush(st)
        } else {
            st
        };
        TokState { tokens: st2.tokens, cur: st2.cur.push(c), prev_lower: low, prev_upper: up }
    }
}

/// The tokenizer after reading the first `n` characters of `s`.
pub open spec fn tok_run(s: Seq<char>, n: nat) -> TokState
    decreases n,
{
    if n == 0 {
        TokState { tokens: seq![], cur: seq![], prev_lower: false, prev_upper: false }
    } else {
        tok_step(tok_run(s, (n - 1) as nat), s, n - 1)
    }
}

/// Lower-case ASCII-alphanumeric tokens of a field name: split at
/// non-alphanumeric characters, at `aB` and at `ABc` transitions.
pub open spec fn tokens_of(s: Seq<char>) -> Seq<Seq<char>> {
    flush(tok_run(s, s.len())).tokens
}

/// Exec tokenizer state.
struct Tok {
    tokens: Vec<Vec<char>>,
    cur: Vec<char>,
    prev_lower: bool,
    prev_upper: bool,
}

impl Tok {
    spec fn model(&self) -> TokState {
        TokState {
            tokens: views(self.tokens@),
            cur: self.cur@,
            prev_lower: self.prev_lower,
            prev_upper: self.prev_upper,
        }
    }

    fn flush(&mut self)
        ensures
            final(self).model() == flush(old(self).model()),
    {
        if self.cur.len() > 0 {
            let t = ascii_lower_exec(self.cur.as_slice());
            let ghost before = self.tokens@;
            self.tokens.push(t);
            self.cur = Vec::new();
            assert(views(self.tokens@) =~= views(before).push(ascii_lower(old(self).cur@)));
        }
    }
}

/// Split a field name into lowercase tokens for sensitive-field matching.
pub fn name_tokens(name: &str) -> (r: Vec<String>)
    ensures
        crate::text::string_views(r@) == tokens_of(name@),
{
    let chars = chars_of(name);
    let mut st = Tok { tokens: Vec::new(), cur: Vec::new(), prev_lower: false, prev_upper: false };
    let mut i: usize = 0;
    assert(views(st.tokens@) =~= Seq::<Seq<char>>::empty());
    assert(st.model() == tok_run(chars@, 0));
    while i < chars.len()
        invariant
            i <= chars@.len(),
            st.model() == tok_run(chars@, i as nat),
        decreases chars@.len() - i,
    {
        let ch = chars[i];
        if !(('A' <= ch && ch <= 'Z') || ('a' <= ch && ch <= 'z') || ('0' <= ch && ch <= '9')) {
            st.flush();
            st.prev_lower = false;
            st.prev_upper = false;
        } else {
            let is_upper = 'A' <= ch && ch <= 'Z';
            let is_lower = 'a' <= ch && ch <= 'z';
            let next_is_lower = i + 1 < chars.len() && 'a' <= chars[i + 1] && chars[i + 1] <= 'z';
            let camel_split = is_upper && st.prev_lower;
            let acronym_split = is_upper && st.prev_upper && next_is_lower;
            if camel_split || acronym_split {
                st.flush();
            }
            st.cur.push(ch);
            st.prev_lower = is_lower;
            st.prev_upper = is_upper;
        }
        i = i + 1;
    }
    st.flush();
    let mut out: Vec<String> = Vec::new();
    let mut j: usize = 0;
    while j < st.tokens.len()
        invariant
            j <= st.tokens@.len(),
            crate::text::string_views(out@) == views(st.tokens@).take(j as int),
        decreases st.tokens@.len() - j,
    {
        let t = crate::text::string_of(st.tokens[j].as_slice());
        let ghost before = out@;
        out.push(t);
        assert(out@ == before.push(t));
        assert(crate::text::string_views(out@) =~= crate::text::string_views(before).push(t@));
        assert(views(st.tokens@).take(j + 1) =~= views(st.tokens@).take(j as int).push(
            st.tokens@[j as int]@,
        ));
        assert(crate::text::string_views(out@) =~= views(st.tokens@).take(j + 1));
        j = j + 1;
    }
    assert(views(st.tokens@).take(st.tokens@.len() as int) =~= views(st.tokens@));
    out
}

/// Some token equals `p`.
pub open spec fn has_token(tokens: Seq<Seq<char>>, p: Seq<char>) -> bool {
    exists|i: int| 0 <= i < tokens.len() && tokens[i] == p
}

/// Whether a field name marks a sensitive value. Short patterns must be a
/// whole token; patterns with `_` are substrings of the lower-cased name;
/// the other long patterns may be either.
pub open spec fn name_is_sensitive(name: Seq<char>) -> bool {
    let t = tokens_of(name);
    let l = unicode_lower(name);
    ||| has_token(t, "password"@) || contains(l, "password"@)
    ||| has_token(t, "passwd"@) || contains(l, "passwd"@)
    ||| has_token(t, "secret"@) || contains(l, "secret"@)
    ||| has_token(t, "token"@) || contains(l, "token"@)
    ||| has_token(t, "otp"@)
    ||| has_token(t, "totp"@)
    ||| has_token(t, "cvv"@)
    ||| has_token(t, "cvc"@)
    ||| has_token(t, "pin"@)
    ||| contains(l, "api_key"@)
    ||| has_token(t, "apikey"@) || contains(l, "apikey"@)
    ||| contains(l, "auth_code"@)
    ||| has_token(t, "verification"@) || contains(l, "verification"@)
    ||| contains(l, "security_code"@)
    ||| has_token(t, "mfa"@)
    ||| has_token(t, "2fa"@)
}

fn has_token_exec(tokens: &Vec<String>, p: &str) -> (b: bool)
    ensures
        b == has_token(crate::text::string_views(tokens@), p@),
{
    let mut i: usize = 0;
    while i < tokens.len()
        invariant
            i <= tokens@.len(),
            forall|j: int| 0 <= j < i ==> tokens@[j]@ != p@,
        decreases tokens@.len() - i,
    {
        if crate::text::str_eq(tokens[i].as_str(), p) {
            assert(crate::text::string_views(tokens@)[i as int] == p@);
            return true;
        }
        i = i + 1;
    }
    proof {
        assert forall|j: int| 0 <= j < tokens@.len() implies crate::text::string_views(
            tokens@,
        )[j] != p@ by {
            assert(crate::text::string_views(tokens@)[j] == tokens@[j]@);
        }
    }
    false
}

/// Return `true` when `name` contains a sensitive field marker.
pub fn name_matches_sensitive(name: &str) -> (b: bool)
    ensures
        b == name_is_sensitive(name@),
{
    let lower = to_lower(name);
    let lv = chars_of(lower.as_str());
    let l = lv.as_slice();
    let t = name_tokens(name);
    (has_token_exec(&t, "password") || has(l, "password")) || (has_token_exec(&t, "passwd") || has(
        l,
        "passwd",
    )) || (has_token_exec(&t, "secret") || has(l, "secret")) || (has_token_exec(&t, "token")
        || has(l, "token")) || has_token_exec(&t, "otp") || has_token_exec(&t, "totp")
        || has_token_exec(&t, "cvv") || has_token_exec(&t, "cvc") || has_token_exec(&t, "pin")
        || has(l, "api_key") || (has_token_exec(&t, "apikey") || has(l, "apikey")) || has(
        l,
        "auth_code",
    ) || (has_token_exec(&t, "verification") || has(l, "verification")) || has(
        l,
        "security_code",
    ) || has_token_exec(&t, "mfa") || has_token_exec(&t, "2fa")
}

/// The masked value: `[filled]` for sensitive fields, the value otherwise;
/// `None` when there is no value.
pub open spec fn masked(
    input_type: Option<Seq<char>>,
    name: Option<Seq<char>>,
    value: Option<Seq<char>>,
) -> Option<Seq<char>> {
    let sensitive = (input_type matches Some(t) && ascii_lower(t) == ascii_lower("password"@)) || (
    name matches Some(n) && name_is_sensitive(n));
    match value {
        Some(v) => Some(
            if sensitive {
                "[filled]"@
            } else {
                v
            },
        ),
        None => None,
    }
}

/// Mask sensitive field values extracted from the DOM.
pub fn mask_sensitive_value(
    input_type: Option<&str>,
    name: Option<&str>,
    value: Option<&str>,
) -> (r: Option<String>)
    ensures
        match r {
            Some(s) => masked(oview(input_type), oview(name), oview(value)) == Some(s@),
            None => masked(oview(input_type), oview(name), oview(value)) is None,
        },
{
    let type_sensitive = match input_type {
        Some(t) => {
            let tv = chars_of(t);
            let tl = ascii_lower_exec(tv.as_slice());
            let pv = chars_of("password");
            let pl = ascii_lower_exec(pv.as_slice());
            crate::text::eq_chars(tl.as_slice(), pl.as_slice())
        },
        None => false,
    };
    let is_sensitive = type_sensitive || match name {
        Some(n) => name_matches_sensitive(n),
        None => false,
    };
    match value {
        Some(v) => Some(
            if is_sensitive {
                copy_str("[filled]")
            } else {
                copy_str(v)
            },
        ),
        None => None,
    }
}

// ── Host names ───────────────────────────────────────────────────────

/// Known DNS-rebinding / loopback host names, exact or as a parent domain.
pub open spec fn suspicious_host(l: Seq<char>) -> bool {
    ||| l == "localhost"@ || l == "localtest.me"@ || l == "lvh.me"@
    ||| l == "nip.io"@ || l == "sslip.io"@ || l == "xip.io"@
    ||| ends_with(l, ".nip.io"@) || ends_with(l, ".sslip.io"@) || ends_with(l, ".localtest.me"@)
    ||| ends_with(l, ".lvh.me"@) || ends_with(l, ".xip.io"@) || ends_with(l, ".localhost"@)
}

/// Detect known DNS rebinding host names that resolve to private IPs.
pub fn is_suspicious_hostname(host: &str) -> (b: bool)
    ensures
        b == suspicious_host(unicode_lower(host@)),
{
    let lower = to_lower(host);
    let lv = chars_of(lower.as_str());
    let l = lv.as_slice();
    eq_lit(l, "localhost") || eq_lit(l, "localtest.me") || eq_lit(l, "lvh.me") || eq_lit(l, "nip.io")
        || eq_lit(l, "sslip.io") || eq_lit(l, "xip.io") || ends(l, ".nip.io") || ends(l, ".sslip.io")
        || ends(l, ".localtest.me") || ends(l, ".lvh.me") || ends(l, ".xip.io") || ends(
        l,
        ".localhost",
    )
}

// ── Redaction ────────────────────────────────────────────────────────

/// Result of a regex replacement, or the input when the pattern fails to
/// compile.
pub open spec fn replaced_or_same(p: Seq<char>, text: Seq<char>, rep: Seq<char>) -> Seq<char> {
    match regex_replace(p, text, rep) {
        Some(t) => t,
        None => text,
    }
}

/// Pattern of the typed value in a debug-printed `Type` action: the whole
/// quoted value, escaped quotes included.
pub open spec fn action_debug_pattern() -> Seq<char> {
    "Type \\{ element: (\\d+), value: \"(?:[^\"\\\\]|\\\\.)*\""@
}

/// Pattern of a credential keyword followed by its value: a double- or
/// single-quoted phrase, or else the next word.
pub open spec fn goal_credential_pattern() -> Seq<char> {
    "(?i)(password|passwd|secret|token|otp|pin|key|pass|pw)\\s+(\"[^\"]*\"|'[^']*'|\\S+)"@
}

/// Mask the typed value of `Type` actions in debug output.
pub fn redact_action_debug(action_debug: &str) -> (r: String)
    ensures
        r@ == replaced_or_same(
            action_debug_pattern(),
            action_debug@,
            "Type { element: $1, value: \"[REDACTED]\""@,
        ),
{
    match regex_replace_all(
        "Type \\{ element: (\\d+), value: \"(?:[^\"\\\\]|\\\\.)*\"",
        action_debug,
        "Type { element: $1, value: \"[REDACTED]\"",
    ) {
        Some(s) => s,
        None => copy_str(action_debug),
    }
}

/// Replace values after credential keywords with `[REDACTED]`.
pub fn redact_credentials_from_goal(goal: &str) -> (r: String)
    ensures
        r@ == replaced_or_same(goal_credential_pattern(), goal@, "$1 [REDACTED]"@),
{
    match regex_replace_all(
        "(?i)(password|passwd|secret|token|otp|pin|key|pass|pw)\\s+(\"[^\"]*\"|'[^']*'|\\S+)",
        goal,
        "$1 [REDACTED]",
    ) {
        Some(s) => s,
        None => copy_str(goal),
    }
}

// ── Prompt boundaries ────────────────────────────────────────────────

/// The lower-case hexadecimal digit of `d < 16`.
pub open spec fn hex_digit(d: nat) -> char {
    if d < 10 {
        (48 + d) as char
    } else {
        (87 + d) as char
    }
}

/// Two lower-case hexadecimal digits per byte (`{:02x}`), in order.
pub open spec fn hex_of(b: Seq<u8>) -> Seq<char>
    decreases b.len(),
{
    if b.len() == 0 {
        seq![]
    } else {
        hex_of(b.drop_last()) + seq![hex_digit((b.last() / 16) as nat), hex_digit((b.last() % 16) as nat)]
    }
}

/// A lower-case hexadecimal digit.
pub open spec fn is_hex_lower(c: char) -> bool {
    ('0' <= c && c <= '9') || ('a' <= c && c <= 'f')
}

/// The hex text is twice as long as the bytes, and all hex digits.
pub proof fn lemma_hex_of(b: Seq<u8>)
    ensures
        hex_of(b).len() == 2 * b.len(),
        forall|i: int| 0 <= i < hex_of(b).len() ==> is_hex_lower(#[trigger] hex_of(b)[i]),
    decreases b.len(),
{
    if b.len() > 0 {
        lemma_hex_of(b.drop_last());
    }
}

/// Lower-case hexadecimal text of the bytes, two digits each.
pub fn hex_of_bytes(b: &[u8]) -> (r: String)
    ensures
        r@ == hex_of(b@),
{
    let mut out = String::new();
    let mut i: usize = 0;
    while i < b.len()
        invariant
            i <= b@.len(),
            out@ == hex_of(b@.take(i as int)),
        decreases b@.len() - i,
    {
        proof {
            assert(b@.take(i + 1).drop_last() =~= b@.take(i as int));
        }
        let hi = b[i] / 16;
        let lo = b[i] % 16;
        let ch = if hi < 10 { (48 + hi) as char } else { (87 + hi) as char };
        let cl = if lo < 10 { (48 + lo) as char } else { (87 + lo) as char };
        push_char(&mut out, ch);
        push_char(&mut out, cl);
        i = i + 1;
    }
    assert(b@.take(b@.len() as int) =~= b@);
    out
}

/// A random 32-character lower-case hex string for prompt boundaries, from
/// 16 bytes of the operating system's cryptographic random source; `None`
/// when the system gives no randomness.
pub fn random_boundary() -> (r: Option<String>)
    ensures
        r matches Some(t) ==> {
            &&& exists|b: Seq<u8>| b.len() == 16 && t@ == hex_of(b)
            &&& t@.len() == 32
            &&& forall|i: int| 0 <= i < t@.len() ==> is_hex_lower(#[trigger] t@[i])
        },
{
    let buf = match os_random_bytes(16) {
        Some(b) => b,
        None => return None,
    };
    let r = hex_of_bytes(buf.as_slice());
    proof {
        lemma_hex_of(buf@);
    }
    Some(r)
}

} // verus!
