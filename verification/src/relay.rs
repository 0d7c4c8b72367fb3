//! Pairing a phone with the relay: the service type announced on the local
//! network, the pairing URL with its one-time token, and the QR code shown
//! in the terminal.
use vstd::prelude::*;

use crate::entropy::os_random_bytes;
use crate::text::{
    chars_of, copy_str, dec, eq_chars, has_char, push_char, push_dec, push_str, split_char,
    split_char_exec, views,
};

verus! {

/// Service type of the remote browser engines on the local network.
pub const SERVICE_TYPE: &'static str = "_lad._tcp.local.";

/// Name of the relay's service instance on a host.
pub open spec fn instance_name_of(hostname: Seq<char>) -> Seq<char> {
    "lad-relay-"@ + hostname
}

/// Name of the relay's service instance on a host.
pub fn instance_name(hostname: &str) -> (r: String)
    ensures
        r@ == instance_name_of(hostname@),
{
    let mut r = copy_str("lad-relay-");
    push_str(&mut r, hostname);
    r
}

/// The host name a service is announced under.
pub fn service_host(hostname: &str) -> (r: String)
    ensures
        r@ == hostname@ + ".local."@,
{
    let mut r = copy_str(hostname);
    push_str(&mut r, ".local.");
    r
}

/// `ws://ip:port`, with `?token=t` when a token is given.
pub open spec fn pairing_url_of(ip: Seq<char>, port: u16, token: Option<Seq<char>>) -> Seq<char> {
    let base = "ws://"@ + ip + ":"@ + dec(port as nat);
    match token {
        Some(t) => base + "?token="@ + t,
        None => base,
    }
}

/// Build the pairing URL with its auth token.
pub fn build_pairing_url(ip: &str, port: u16, token: Option<&str>) -> (r: String)
    ensures
        r@ == pairing_url_of(ip@, port, match token {
            Some(t) => Some(t@),
            None => None,
        }),
{
    let mut r = copy_str("ws://");
    push_str(&mut r, ip);
    push_str(&mut r, ":");
    push_dec(&mut r, port as u64);
    match token {
        Some(t) => {
            push_str(&mut r, "?token=");
            push_str(&mut r, t);
        },
        None => {},
    }
    r
}

// ── Accepting the phone ──────────────────────────────────────────────

/// The query of a request target: what follows its first `?` up to the
/// next one, or nothing.
pub open spec fn query_of(uri: Seq<char>) -> Seq<char> {
    let parts = split_char(uri, '?');
    if parts.len() > 1 {
        parts[1]
    } else {
        seq![]
    }
}

/// A request is let in: no token is expected, or one `&`-separated query
/// parameter is exactly `token=<expected>`.
pub open spec fn token_accepted(uri: Seq<char>, expected: Option<Seq<char>>) -> bool {
    match expected {
        None => true,
        Some(t) => split_char(query_of(uri), '&').contains("token="@ + t),
    }
}

/// Whether the handshake request for `uri` carries the expected token.
pub fn token_is_valid(uri: &str, expected: Option<&str>) -> (b: bool)
    ensures
        b == token_accepted(uri@, match expected {
            Some(t) => Some(t@),
            None => None,
        }),
{
    let t = match expected {
        None => return true,
        Some(t) => t,
    };
    let u = chars_of(uri);
    let parts = split_char_exec(u.as_slice(), '?');
    let q: Vec<char> = if parts.len() > 1 {
        parts[1].clone()
    } else {
        Vec::new()
    };
    assert(q@ == query_of(uri@));
    let mut want_s = copy_str("token=");
    push_str(&mut want_s, t);
    let want = chars_of(want_s.as_str());
    let params = split_char_exec(q.as_slice(), '&');
    let ghost ps = views(params@);
    let mut i: usize = 0;
    while i < params.len()
        invariant
            i <= params@.len(),
            ps == views(params@),
            ps == split_char(q@, '&'),
            q@ == query_of(uri@),
            expected == Some(t),
            want@ == "token="@ + t@,
            forall|j: int| 0 <= j < i ==> ps[j] != want@,
        decreases params@.len() - i,
    {
        if eq_chars(params[i].as_slice(), want.as_slice()) {
            assert(ps[i as int] == want@);
            assert(ps.contains(want@));
            return true;
        }
        i = i + 1;
    }
    assert(!ps.contains(want@));
    false
}

/// Failed handshakes allowed before the relay gives up.
pub const MAX_FAILED_HANDSHAKES: u32 = 10;

/// What to do after a handshake attempt.
#[derive(Debug, Clone, Copy, PartialEq, Eq, Structural)]
pub enum HandshakeStep {
    /// The phone is connected.
    Connected,
    /// Wait a second and accept the next connection.
    Retry,
    /// Too many failed attempts: stop.
    GiveUp,
}

/// Count handshake outcomes: success connects; a failure is counted and,
/// at [`MAX_FAILED_HANDSHAKES`], ends the wait.
pub fn after_handshake(failed: &mut u32, ok: bool) -> (step: HandshakeStep)
    requires
        *old(failed) < MAX_FAILED_HANDSHAKES,
    ensures
        ok ==> step == HandshakeStep::Connected && *final(failed) == *old(failed),
        !ok ==> *final(failed) == *old(failed) + 1 && step == (if *final(failed) >= MAX_FAILED_HANDSHAKES {
            HandshakeStep::GiveUp
        } else {
            HandshakeStep::Retry
        }),
{
    if ok {
        return HandshakeStep::Connected;
    }
    *failed = *failed + 1;
    if *failed >= MAX_FAILED_HANDSHAKES {
        HandshakeStep::GiveUp
    } else {
        HandshakeStep::Retry
    }
}

/// Largest message relayed from the phone, in bytes (20 MB).
pub const MAX_RELAYED_BYTES: usize = 20 * 1024 * 1024;

/// Whether a message of this many bytes is relayed (larger ones are
/// dropped).
pub fn relayable(len: usize) -> (b: bool)
    ensures
        b == (len <= MAX_RELAYED_BYTES),
{
    len <= MAX_RELAYED_BYTES
}

/// A phone that opens the pairing URL is let in: when neither the address
/// nor the token holds `?`, and the token holds no `&`, the URL's query
/// carries the token parameter the relay expects.
pub proof fn lemma_pairing_url_accepted(ip: Seq<char>, port: u16, t: Seq<char>)
    requires
        !has_char(ip, '?'),
        !has_char(t, '?'),
        !has_char(t, '&'),
    ensures
        token_accepted(pairing_url_of(ip, port, Some(t)), Some(t)),
{
    reveal_strlit("ws://");
    reveal_strlit(":");
    reveal_strlit("?token=");
    reveal_strlit("token=");
    let base = "ws://"@ + ip + ":"@ + dec(port as nat);
    let url = base + "?token="@ + t;
    lemma_dec_no_sep(port as nat);
    assert(!has_char(base, '?')) by {
        assert forall|k: int| 0 <= k < base.len() implies base[k] != '?' by {
            if k < 5 {
            } else if k < 5 + ip.len() {
                assert(base[k] == ip[k - 5]);
            } else if k == 5 + ip.len() {
            } else {
                assert(base[k] == dec(port as nat)[k - 6 - ip.len()]);
            }
        }
    }
    let q = "token="@ + t;
    assert(url =~= base + seq!['?'] + q);
    assert forall|k: int| 0 <= k < q.len() implies q[k] != '?' && q[k] != '&' by {
        if k >= 6 {
            assert(q[k] == t[k - 6]);
        }
    }
    lemma_split_at_first(base, q, '?');
    lemma_no_sep_split(q, '?');
    assert(query_of(url) == q);
    lemma_no_sep_split(q, '&');
    assert(split_char(q, '&')[0] == q);
}

proof fn lemma_dec_no_sep(n: nat)
    ensures
        !has_char(dec(n), '?'),
    decreases n,
{
    if n >= 10 {
        lemma_dec_no_sep(n / 10);
    }
}

/// Splitting `a + [c] + b` at `c`, where `a` has no `c`: the first piece is
/// `a` and the second starts the split of `b`.
proof fn lemma_split_at_first(a: Seq<char>, b: Seq<char>, c: char)
    requires
        !has_char(a, c),
    ensures
        split_char(a + seq![c] + b, c).len() > 1,
        split_char(a + seq![c] + b, c)[0] == a,
        split_char(a + seq![c] + b, c)[1] == split_char(b, c)[0],
{
    let s = a + seq![c] + b;
    crate::text::lemma_char_pos_from(s, c, 0);
    assert(s[a.len() as int] == c);
    assert forall|j: int| 0 <= j < a.len() implies s[j] != c by {
        assert(s[j] == a[j]);
    }
    assert(crate::text::char_pos(s, c) == Some(a.len() as nat));
    assert(s.take(a.len() as int) =~= a);
    assert(s.skip(a.len() as int + 1) =~= b);
    lemma_split_nonempty(b, c);
}

proof fn lemma_split_nonempty(s: Seq<char>, c: char)
    ensures
        split_char(s, c).len() >= 1,
{
}

/// A text without `c` splits into itself alone.
proof fn lemma_no_sep_split(s: Seq<char>, c: char)
    requires
        !has_char(s, c),
    ensures
        split_char(s, c) == seq![s],
{
    crate::text::lemma_char_pos_from(s, c, 0);
    crate::text::lemma_char_pos_none(s, c);
}

// ── Tokens ───────────────────────────────────────────────────────────

/// The token alphabet: lower-case ASCII letters, then digits.
pub open spec fn token_alphabet() -> Seq<char> {
    "abcdefghijklmnopqrstuvwxyz0123456789"@
}

/// The token character a random byte picks: the byte modulo 36 indexes
/// the alphabet.
pub open spec fn token_char(b: u8) -> char {
    if b % 36 < 26 {
        (97 + b % 36) as char
    } else {
        (48 + (b % 36 - 26)) as char
    }
}

/// The token for some random bytes, one character per byte.
pub open spec fn token_of(b: Seq<u8>) -> Seq<char> {
    b.map_values(|x: u8| token_char(x))
}

/// A token character is a lower-case ASCII letter or a digit.
pub open spec fn is_token_char(c: char) -> bool {
    ('a' <= c && c <= 'z') || ('0' <= c && c <= '9')
}

/// The token characters are the alphabet's.
pub proof fn lemma_token_char(b: u8)
    ensures
        is_token_char(token_char(b)),
        token_char(b) == token_alphabet()[(b % 36) as int],
{
    reveal_strlit("abcdefghijklmnopqrstuvwxyz0123456789");
}

/// The token spelled by the given bytes.
pub fn token_from_bytes(b: &[u8]) -> (r: String)
    ensures
        r@ == token_of(b@),
{
    let mut r = String::new();
    let mut i: usize = 0;
    while i < b.len()
        invariant
            i <= b@.len(),
            r@ == token_of(b@.take(i as int)),
        decreases b@.len() - i,
    {
        let m = b[i] % 36;
        let c = if m < 26 {
            (97 + m) as char
        } else {
            (48 + (m - 26)) as char
        };
        push_char(&mut r, c);
        proof {
            assert(token_of(b@.take(i + 1)) =~= token_of(b@.take(i as int)).push(token_char(b@[i as int])));
        }
        i = i + 1;
    }
    assert(b@.take(b@.len() as int) =~= b@);
    r
}

/// A cryptographically random 12-character token of lower-case letters and
/// digits, for one-time pairing; `None` when the system gives no
/// randomness.
pub fn generate() -> (r: Option<String>)
    ensures
        r matches Some(t) ==> {
            &&& exists|b: Seq<u8>| b.len() == 12 && t@ == token_of(b)
            &&& t@.len() == 12
            &&& forall|i: int| 0 <= i < t@.len() ==> is_token_char(#[trigger] t@[i])
        },
{
    let buf = match os_random_bytes(12) {
        Some(b) => b,
        None => return None,
    };
    let r = token_from_bytes(buf.as_slice());
    proof {
        assert forall|i: int| 0 <= i < r@.len() implies is_token_char(#[trigger] r@[i]) by {
            lemma_token_char(buf@[i]);
        }
    }
    Some(r)
}

// ── QR code picture ──────────────────────────────────────────────────

/// The terminal character for two vertically stacked modules, colors
/// inverted for dark terminals: both dark is a space, top dark a lower
/// half block, bottom dark an upper half block, both light a full block.
pub open spec fn qr_cell(top: bool, bottom: bool) -> char {
    if top && bottom {
        ' '
    } else if top {
        '\u{2584}'
    } else if bottom {
        '\u{2580}'
    } else {
        '\u{2588}'
    }
}

/// Whether the module at column `x`, row `y` of the picture is dark: the
/// code of width `w` (its modules row by row in `m`) inside a light border
/// two modules wide.
pub open spec fn qr_dark(m: Seq<bool>, w: int, x: int, y: int) -> bool {
    2 <= x < w + 2 && 2 <= y < w + 2 && m[(y - 2) * w + (x - 2)]
}

/// Terminal line for picture rows `y` and `y + 1` (row `y` twice when it
/// is the last): a two-space margin, then one cell per column.
pub open spec fn qr_line(m: Seq<bool>, w: int, y: int) -> Seq<char> {
    let yb = if y + 1 < w + 4 {
        y + 1
    } else {
        y
    };
    "  "@ + Seq::new((w + 4) as nat, |x: int| qr_cell(qr_dark(m, w, x, y), qr_dark(m, w, x, yb)))
}

/// The terminal lines of the picture: one per pair of rows.
pub open spec fn qr_lines(m: Seq<bool>, w: int) -> Seq<Seq<char>> {
    Seq::new(((w + 5) / 2) as nat, |i: int| qr_line(m, w, 2 * i))
}

proof fn lemma_module_index(w: int, x: int, y: int)
    requires
        0 <= x < w,
        0 <= y < w,
    ensures
        0 <= y * w + x < w * w,
{
    assert(0 <= y * w + x < w * w) by (nonlinear_arith)
        requires
            0 <= x < w,
            0 <= y < w,
    ;
}

fn qr_dark_exec(m: &[bool], w: usize, x: usize, y: usize) -> (b: bool)
    requires
        m@.len() == w * w,
        w + 4 <= usize::MAX,
    ensures
        b == qr_dark(m@, w as int, x as int, y as int),
{
    if 2 <= x && x < w + 2 && 2 <= y && y < w + 2 {
        let row = y - 2;
        let col = x - 2;
        proof {
            lemma_module_index(w as int, col as int, row as int);
            assert(m@.len() == m.len());
        }
        let base = row * w;
        m[base + col]
    } else {
        false
    }
}

/// Render a QR code (its modules row by row, `width` per row) as terminal
/// lines of half-block characters with a quiet-zone border.
pub fn render_qr(modules: &[bool], width: usize) -> (r: Vec<String>)
    requires
        modules@.len() == width * width,
        width + 5 <= usize::MAX,
    ensures
        r@.len() == qr_lines(modules@, width as int).len(),
        forall|i: int| 0 <= i < r@.len() ==> #[trigger] r@[i]@ == qr_lines(modules@, width as int)[i],
{
    let total = width + 4;
    let mut lines: Vec<String> = Vec::new();
    let mut y: usize = 0;
    while y < total
        invariant
            total == width + 4,
            width + 5 <= usize::MAX,
            modules@.len() == width * width,
            y % 2 == 0,
            y <= total + 1,
            lines@.len() == y / 2,
            forall|i: int| 0 <= i < lines@.len() ==> #[trigger] lines@[i]@ == qr_line(modules@, width as int, 2 * i),
        decreases total + 1 - y,
    {
        let yb = if y + 1 < total {
            y + 1
        } else {
            y
        };
        let mut line = copy_str("  ");
        let mut x: usize = 0;
        let ghost cells = Seq::new(
            (width + 4) as nat,
            |x: int| qr_cell(qr_dark(modules@, width as int, x, y as int), qr_dark(modules@, width as int, x, yb as int)),
        );
        proof {
            reveal_strlit("  ");
        }
        while x < total
            invariant
                total == width + 4,
                width + 5 <= usize::MAX,
                modules@.len() == width * width,
                x <= total,
                cells.len() == total,
                cells == Seq::new(
                    (width + 4) as nat,
                    |x: int| qr_cell(qr_dark(modules@, width as int, x, y as int), qr_dark(modules@, width as int, x, yb as int)),
                ),
                line@ == "  "@ + cells.take(x as int),
            decreases total - x,
        {
            let t = qr_dark_exec(modules, width, x, y);
            let b = qr_dark_exec(modules, width, x, yb);
            let c = if t && b {
                ' '
            } else if t {
                '\u{2584}'
            } else if b {
                '\u{2580}'
            } else {
                '\u{2588}'
            };
            push_char(&mut line, c);
            proof {
                assert(cells.take(x + 1) =~= cells.take(x as int).push(cells[x as int]));
            }
            x = x + 1;
        }
        assert(cells.take(total as int) =~= cells);
        assert(line@ == qr_line(modules@, width as int, y as int));
        lines.push(line);
        y = y + 2;
    }
    proof {
        assert(lines@.len() == qr_lines(modules@, width as int).len());
    }
    lines
}

/// What `qrcode::QrCode::with_error_correction_level(data, EcLevel::L)`
/// gives for a text: the modules row by row (dark as `true`) and the
/// width, or the text of the error.
pub uninterp spec fn qr_encode(data: Seq<char>) -> Result<(Seq<bool>, nat), Seq<char>>;

/// `qrcode::QrCode::with_error_correction_level` at level L, then
/// `to_colors` (each color converted to whether it is dark) and `width`,
/// or the error's `Display` text. The result is named by [`qr_encode`];
/// the crate's canvas holds `width * width` modules and a normal QR code is
/// at most 177 modules wide.
#[verifier::external_body]
fn qr_modules(data: &str) -> (r: Result<(Vec<bool>, usize), String>)
    ensures
        match r {
            Ok((m, w)) => {
                &&& qr_encode(data@) == Ok::<(Seq<bool>, nat), Seq<char>>((m@, w as nat))
                &&& m@.len() == w * w
                &&& w <= 177
            },
            Err(e) => qr_encode(data@) == Err::<(Seq<bool>, nat), Seq<char>>(e@),
        },
{
    match qrcode::QrCode::with_error_correction_level(data, qrcode::EcLevel::L) {
        Ok(c) => Ok((c.to_colors().iter().map(|m| m.select(true, false)).collect(), c.width())),
        Err(e) => Err(e.to_string()),
    }
}

/// The terminal lines that show `url` as a QR code: the picture, or, when
/// no code can be made, the error and the URL itself.
pub open spec fn qr_text(url: Seq<char>) -> Seq<Seq<char>> {
    match qr_encode(url) {
        Ok((m, w)) => qr_lines(m, w as int),
        Err(e) => seq!["  (QR generation failed: "@ + e + ")"@, "  "@ + url],
    }
}

/// The terminal lines that show `url` as a scannable QR code of half-block
/// characters (or, when encoding fails, the error and the URL).
pub fn qr_terminal_lines(url: &str) -> (r: Vec<String>)
    ensures
        r@.len() == qr_text(url@).len(),
        forall|i: int| 0 <= i < r@.len() ==> #[trigger] r@[i]@ == qr_text(url@)[i],
{
    match qr_modules(url) {
        Ok((m, w)) => render_qr(m.as_slice(), w),
        Err(e) => {
            let mut first = copy_str("  (QR generation failed: ");
            push_str(&mut first, e.as_str());
            push_str(&mut first, ")");
            let mut second = copy_str("  ");
            push_str(&mut second, url);
            let r = vec![first, second];
            assert(r@[0]@ == qr_text(url@)[0]);
            r
        },
    }
}

} // verus!
