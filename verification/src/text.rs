//! Character-sequence helpers shared by the rest of the library.
//!
//! Every string is modelled by its view, a `Seq<char>`. The spec functions
//! here state substring search, prefixes, suffixes, splitting and ASCII case
//! folding over that model; the executable functions compute them and are
//! proved against the spec functions.
use vstd::prelude::*;

verus! {

// ── Model ─────────────────────────────────────────────────────────────

/// `p` occurs in `s` starting at index `i`.
pub open spec fn matches_at(s: Seq<char>, p: Seq<char>, i: int) -> bool {
    0 <= i && i + p.len() <= s.len() && s.subrange(i, i + p.len()) == p
}

/// First index at or after `i` where `p` occurs in `s`.
pub open spec fn find_from(s: Seq<char>, p: Seq<char>, i: nat) -> Option<nat>
    decreases s.len() - i,
{
    if i + p.len() > s.len() {
        None
    } else if s.subrange(i as int, (i + p.len()) as int) == p {
        Some(i)
    } else if i >= s.len() {
        None
    } else {
        find_from(s, p, i + 1)
    }
}

/// First index where `p` occurs in `s`.
pub open spec fn find(s: Seq<char>, p: Seq<char>) -> Option<nat> {
    find_from(s, p, 0)
}

/// `s` contains `p` as a contiguous substring.
pub open spec fn contains(s: Seq<char>, p: Seq<char>) -> bool {
    exists|i: int| matches_at(s, p, i)
}

/// `s` starts with `p`.
pub open spec fn starts_with(s: Seq<char>, p: Seq<char>) -> bool {
    p.len() <= s.len() && s.subrange(0, p.len() as int) == p
}

/// `s` ends with `p`.
pub open spec fn ends_with(s: Seq<char>, p: Seq<char>) -> bool {
    p.len() <= s.len() && s.subrange(s.len() - p.len(), s.len() as int) == p
}

/// `s` contains the character `c`.
pub open spec fn has_char(s: Seq<char>, c: char) -> bool {
    exists|i: int| 0 <= i < s.len() && s[i] == c
}

/// First index of `c` in `s`.
pub open spec fn char_pos_from(s: Seq<char>, c: char, i: nat) -> Option<nat>
    decreases s.len() - i,
{
    if i >= s.len() {
        None
    } else if s[i as int] == c {
        Some(i)
    } else {
        char_pos_from(s, c, i + 1)
    }
}

/// First index of `c` in `s`.
pub open spec fn char_pos(s: Seq<char>, c: char) -> Option<nat> {
    char_pos_from(s, c, 0)
}

/// The part of `s` before the first `c` (all of `s` when `c` is absent).
pub open spec fn before_char(s: Seq<char>, c: char) -> Seq<char> {
    match char_pos(s, c) {
        Some(i) => s.take(i as int),
        None => s,
    }
}

/// ASCII upper-case letter.
pub open spec fn is_ascii_upper(c: char) -> bool {
    'A' <= c && c <= 'Z'
}

/// ASCII lower-case letter.
pub open spec fn is_ascii_lower(c: char) -> bool {
    'a' <= c && c <= 'z'
}

/// ASCII digit.
pub open spec fn is_ascii_digit(c: char) -> bool {
    '0' <= c && c <= '9'
}

/// ASCII letter or digit.
pub open spec fn is_ascii_alnum(c: char) -> bool {
    is_ascii_upper(c) || is_ascii_lower(c) || is_ascii_digit(c)
}

/// ASCII lower-casing of one character (other characters are kept).
pub open spec fn ascii_lower_char(c: char) -> char {
    if is_ascii_upper(c) {
        ((c as u32) + 32) as char
    } else {
        c
    }
}

/// ASCII lower-casing of a sequence.
pub open spec fn ascii_lower(s: Seq<char>) -> Seq<char> {
    s.map_values(|c: char| ascii_lower_char(c))
}

/// Unicode `White_Space` property, as `char::is_whitespace` documents it.
pub open spec fn is_ws(c: char) -> bool {
    ||| c == ' '
    ||| ('\u{9}' <= c && c <= '\u{d}')
    ||| c == '\u{85}'
    ||| c == '\u{a0}'
    ||| c == '\u{1680}'
    ||| ('\u{2000}' <= c && c <= '\u{200a}')
    ||| c == '\u{2028}'
    ||| c == '\u{2029}'
    ||| c == '\u{202f}'
    ||| c == '\u{205f}'
    ||| c == '\u{3000}'
}

/// Unicode general category `Cc`, as `char::is_control` documents it.
pub open spec fn is_ctrl(c: char) -> bool {
    c <= '\u{1f}' || ('\u{7f}' <= c && c <= '\u{9f}')
}

/// Number of leading whitespace characters of `s` from index `i` on.
pub open spec fn ws_run(s: Seq<char>, i: nat) -> nat
    decreases s.len() - i,
{
    if i >= s.len() || !is_ws(s[i as int]) {
        0
    } else {
        1 + ws_run(s, i + 1)
    }
}

/// `s` without leading whitespace.
pub open spec fn trim_start(s: Seq<char>) -> Seq<char> {
    s.skip(ws_run(s, 0) as int)
}

/// Number of trailing whitespace characters of the first `n` characters of `s`.
pub open spec fn ws_tail(s: Seq<char>, n: nat) -> nat
    decreases n,
{
    if n == 0 || n > s.len() || !is_ws(s[n - 1]) {
        0
    } else {
        1 + ws_tail(s, (n - 1) as nat)
    }
}

/// `s` without trailing whitespace.
pub open spec fn trim_end(s: Seq<char>) -> Seq<char> {
    s.take(s.len() - ws_tail(s, s.len()))
}

/// `s` without leading and trailing whitespace.
pub open spec fn trim(s: Seq<char>) -> Seq<char> {
    trim_end(trim_start(s))
}

/// What `str::to_lowercase` returns for a string (Unicode case mapping).
pub uninterp spec fn unicode_lower(s: Seq<char>) -> Seq<char>;

/// What `str::to_uppercase` returns for a string (Unicode case mapping).
pub uninterp spec fn unicode_upper(s: Seq<char>) -> Seq<char>;


/// Pieces of `s` between occurrences of `c` (`str::split` with a char).
pub open spec fn split_char(s: Seq<char>, c: char) -> Seq<Seq<char>>
    decreases s.len(),
{
    match char_pos(s, c) {
        Some(i) => {
            proof {
                lemma_char_pos_from(s, c, 0);
            }
            seq![s.take(i as int)] + split_char(s.skip((i + 1) as int), c)
        },
        None => seq![s],
    }
}

/// Views of a sequence of character vectors.
pub open spec fn views(v: Seq<Vec<char>>) -> Seq<Seq<char>> {
    v.map_values(|x: Vec<char>| x@)
}

/// View of an optional string.
pub open spec fn opt_view(o: Option<String>) -> Option<Seq<char>> {
    match o {
        Some(s) => Some(s@),
        None => None,
    }
}

/// View of an optional string slice.
pub open spec fn oview(o: Option<&str>) -> Option<Seq<char>> {
    match o {
        Some(s) => Some(s@),
        None => None,
    }
}

/// Views of a sequence of strings.
pub open spec fn string_views(v: Seq<String>) -> Seq<Seq<char>> {
    v.map_values(|x: String| x@)
}

/// Number of leading non-whitespace characters of `s` from index `i` on.
pub open spec fn word_run(s: Seq<char>, i: nat) -> nat
    decreases s.len() - i,
{
    if i >= s.len() || is_ws(s[i as int]) {
        0
    } else {
        1 + word_run(s, i + 1)
    }
}

/// Maximal runs of non-whitespace characters (`str::split_whitespace`).
pub open spec fn words(s: Seq<char>) -> Seq<Seq<char>>
    decreases s.len(),
{
    let t = s.skip(ws_run(s, 0) as int);
    if ws_run(s, 0) >= s.len() {
        seq![]
    } else {
        proof {
            lemma_ws_run_bound(s, 0);
            lemma_word_run_pos(t);
        }
        seq![t.take(word_run(t, 0) as int)] + words(t.skip(word_run(t, 0) as int))
    }
}

/// Number of bytes of the UTF-8 encoding of `c` (`char::len_utf8`).
pub open spec fn utf8_len(c: char) -> nat {
    if (c as u32) < 0x80 {
        1
    } else if (c as u32) < 0x800 {
        2
    } else if (c as u32) < 0x10000 {
        3
    } else {
        4
    }
}

/// Number of bytes of the UTF-8 encoding of `s` (`str::len`).
pub open spec fn utf8_size(s: Seq<char>) -> nat
    decreases s.len(),
{
    if s.len() == 0 {
        0
    } else {
        utf8_size(s.drop_last()) + utf8_len(s.last())
    }
}


/// Longest prefix of `s` whose UTF-8 encoding fits in `n` bytes.
pub open spec fn utf8_take(s: Seq<char>, n: nat) -> Seq<char>
    decreases s.len(),
{
    if s.len() == 0 || utf8_len(s[0]) > n {
        seq![]
    } else {
        seq![s[0]] + utf8_take(s.drop_first(), (n - utf8_len(s[0])) as nat)
    }
}

/// The ASCII digit for `d < 10`.
pub open spec fn digit(d: nat) -> char {
    (48 + d) as char
}

/// Decimal notation of `n` (what `{}` prints for an unsigned integer).
pub open spec fn dec(n: nat) -> Seq<char>
    decreases n,
{
    if n < 10 {
        seq![digit(n)]
    } else {
        dec(n / 10).push(digit(n % 10))
    }
}

/// What `{:?}` prints for a string: quoted, with escapes.
pub uninterp spec fn debug_text(s: Seq<char>) -> Seq<char>;

/// Join pieces with a separator.
pub open spec fn join(parts: Seq<Seq<char>>, sep: Seq<char>) -> Seq<char>
    decreases parts.len(),
{
    if parts.len() == 0 {
        seq![]
    } else if parts.len() == 1 {
        parts[0]
    } else {
        join(parts.drop_last(), sep) + sep + parts.last()
    }
}


/// `s` without trailing `c` characters (`trim_end_matches`).
pub open spec fn strip_trailing(s: Seq<char>, c: char) -> Seq<char>
    decreases s.len(),
{
    if s.len() > 0 && s.last() == c {
        strip_trailing(s.drop_last(), c)
    } else {
        s
    }
}

/// `s` without leading `c` characters (`trim_start_matches`).
pub open spec fn strip_leading(s: Seq<char>, c: char) -> Seq<char>
    decreases s.len(),
{
    if s.len() > 0 && s[0] == c {
        strip_leading(s.drop_first(), c)
    } else {
        s
    }
}

/// `s` without leading and trailing `c` characters (`trim_matches`).
pub open spec fn strip_both(s: Seq<char>, c: char) -> Seq<char> {
    strip_trailing(strip_leading(s, c), c)
}



/// Value of a sequence of ASCII digits.
pub open spec fn digits_value(d: Seq<char>) -> nat
    decreases d.len(),
{
    if d.len() == 0 {
        0
    } else {
        digits_value(d.drop_last()) * 10 + ((d.last() as int - 48) as nat)
    }
}

/// Every character is an ASCII digit.
pub open spec fn all_digits(d: Seq<char>) -> bool {
    forall|i: int| 0 <= i < d.len() ==> is_ascii_digit(#[trigger] d[i])
}

/// `u32::from_str`: an optional `+` and one or more ASCII digits whose
/// value fits in a `u32`.
pub open spec fn parse_u32(s: Seq<char>) -> Option<u32> {
    let d = if s.len() > 0 && s[0] == '+' {
        s.skip(1)
    } else {
        s
    };
    if d.len() > 0 && all_digits(d) && digits_value(d) <= u32::MAX as nat {
        Some(digits_value(d) as u32)
    } else {
        None
    }
}

// ── Lemmas ────────────────────────────────────────────────────────────


/// `ws_run` stays within the sequence.
pub proof fn lemma_ws_run_bound(s: Seq<char>, i: nat)
    ensures
        i <= s.len() ==> i + ws_run(s, i) <= s.len(),
        i + ws_run(s, i) < s.len() ==> !is_ws(s[(i + ws_run(s, i)) as int]),
    decreases s.len() - i,
{
    if i < s.len() && is_ws(s[i as int]) {
        lemma_ws_run_bound(s, i + 1);
    }
}

/// A sequence that starts with a non-whitespace character has a nonempty first word.
pub proof fn lemma_word_run_pos(t: Seq<char>)
    ensures
        t.len() > 0 && !is_ws(t[0]) ==> word_run(t, 0) >= 1,
        word_run(t, 0) <= t.len(),
{
    lemma_word_run_bound(t, 0);
}

/// `word_run` stays within the sequence.
pub proof fn lemma_word_run_bound(s: Seq<char>, i: nat)
    ensures
        i <= s.len() ==> i + word_run(s, i) <= s.len(),
        forall|j: int| i <= j < i + word_run(s, i) ==> !is_ws(s[j]),
        i + word_run(s, i) < s.len() ==> is_ws(s[(i + word_run(s, i)) as int]),
    decreases s.len() - i,
{
    if i < s.len() && !is_ws(s[i as int]) {
        lemma_word_run_bound(s, i + 1);
    }
}

/// `char_pos` finds `k` when `c` is at `k` and nowhere before.
pub proof fn lemma_char_pos_is(s: Seq<char>, c: char, k: int)
    requires
        0 <= k < s.len(),
        s[k] == c,
        forall|j: int| 0 <= j < k ==> s[j] != c,
    ensures
        char_pos(s, c) == Some(k as nat),
{
    lemma_char_pos_from(s, c, 0);
}

/// `char_pos` finds nothing when `c` is absent.
pub proof fn lemma_char_pos_none(s: Seq<char>, c: char)
    requires
        forall|j: int| 0 <= j < s.len() ==> s[j] != c,
    ensures
        char_pos(s, c) is None,
{
    lemma_char_pos_from(s, c, 0);
}


/// A nonempty sequence has a nonempty UTF-8 encoding, and the other way round.
pub proof fn lemma_utf8_size_pos(s: Seq<char>)
    ensures
        utf8_size(s) > 0 <==> s.len() > 0,
    decreases s.len(),
{
    if s.len() > 0 {
        lemma_utf8_size_pos(s.drop_last());
    }
}

/// A prefix takes no more UTF-8 bytes than the whole sequence.
pub proof fn lemma_utf8_size_prefix(s: Seq<char>, n: nat)
    requires
        n <= s.len(),
    ensures
        utf8_size(s.take(n as int)) <= utf8_size(s),
    decreases s.len(),
{
    if n < s.len() {
        assert(s.drop_last().take(n as int) =~= s.take(n as int));
        lemma_utf8_size_prefix(s.drop_last(), n);
    } else {
        assert(s.take(n as int) =~= s);
    }
}

proof fn lemma_ws_tail_bound(s: Seq<char>, n: nat)
    ensures
        ws_tail(s, n) <= n,
    decreases n,
{
    if n > 0 && n <= s.len() && is_ws(s[n - 1]) {
        lemma_ws_tail_bound(s, (n - 1) as nat);
    }
}

/// Trimming never lengthens a sequence.
pub proof fn lemma_trim_len(s: Seq<char>)
    ensures
        trim(s).len() <= s.len(),
{
    lemma_ws_run_bound(s, 0);
    let t = trim_start(s);
    lemma_ws_tail_bound(t, t.len());
}

/// UTF-8 size adds up over a split.
pub proof fn lemma_utf8_size_split(s: Seq<char>, a: int)
    requires
        0 <= a <= s.len(),
    ensures
        utf8_size(s) == utf8_size(s.take(a)) + utf8_size(s.skip(a)),
    decreases s.len(),
{
    if a == s.len() {
        assert(s.take(a) =~= s);
        assert(s.skip(a) =~= Seq::<char>::empty());
    } else {
        lemma_utf8_size_split(s.drop_last(), a);
        assert(s.drop_last().take(a) =~= s.take(a));
        assert(s.skip(a).drop_last() =~= s.drop_last().skip(a));
        assert(s.skip(a).last() == s.last());
    }
}

/// Trimming never adds UTF-8 bytes.
pub proof fn lemma_utf8_size_trim(s: Seq<char>)
    ensures
        utf8_size(trim(s)) <= utf8_size(s),
{
    lemma_ws_run_bound(s, 0);
    let t = trim_start(s);
    lemma_utf8_size_split(s, ws_run(s, 0) as int);
    lemma_ws_tail_bound(t, t.len());
    lemma_utf8_size_split(t, t.len() - ws_tail(t, t.len()));
}

/// UTF-8 size of a character followed by a sequence.
pub proof fn lemma_utf8_size_cons(c: char, t: Seq<char>)
    ensures
        utf8_size(seq![c] + t) == utf8_len(c) + utf8_size(t),
    decreases t.len(),
{
    let u = seq![c] + t;
    if t.len() > 0 {
        assert(u.drop_last() =~= seq![c] + t.drop_last());
        assert(u.last() == t.last());
        lemma_utf8_size_cons(c, t.drop_last());
    } else {
        assert(u =~= seq![c]);
        assert(u.drop_last() =~= Seq::<char>::empty());
        assert(utf8_size(Seq::<char>::empty()) == 0);
        assert(u.last() == c);
    }
}





/// `find_from` returns the first match at or after `i`.
pub proof fn lemma_find_from(s: Seq<char>, p: Seq<char>, i: nat)
    ensures
        match find_from(s, p, i) {
            Some(k) => i <= k && matches_at(s, p, k as int) && forall|j: int|
                i <= j < k ==> !matches_at(s, p, j),
            None => forall|j: int| i <= j ==> !matches_at(s, p, j),
        },
    decreases s.len() - i,
{
    if i + p.len() > s.len() {
    } else if s.subrange(i as int, (i + p.len()) as int) == p {
    } else if i >= s.len() {
        assert(s.subrange(i as int, (i + p.len()) as int) =~= p);
    } else {
        lemma_find_from(s, p, i + 1);
    }
}

/// `find` agrees with `contains`.
pub proof fn lemma_find_contains(s: Seq<char>, p: Seq<char>)
    ensures
        find(s, p) is Some <==> contains(s, p),
        find(s, p) matches Some(k) ==> matches_at(s, p, k as int),
{
    lemma_find_from(s, p, 0);
    if contains(s, p) {
        let j = choose|j: int| matches_at(s, p, j);
        assert(matches_at(s, p, j));
    }
}

/// `char_pos_from` returns the first occurrence at or after `i`.
pub proof fn lemma_char_pos_from(s: Seq<char>, c: char, i: nat)
    ensures
        match char_pos_from(s, c, i) {
            Some(k) => i <= k < s.len() && s[k as int] == c && forall|j: int|
                i <= j < k ==> s[j] != c,
            None => forall|j: int| i <= j < s.len() ==> s[j] != c,
        },
    decreases s.len() - i,
{
    if i < s.len() && s[i as int] != c {
        lemma_char_pos_from(s, c, i + 1);
    }
}

/// `str::replace` from index `i` on: each non-overlapping occurrence of a
/// nonempty `p`, left to right, replaced by `r`.
pub open spec fn replace_from(s: Seq<char>, p: Seq<char>, r: Seq<char>, i: nat) -> Seq<char>
    decreases s.len() - i,
{
    if p.len() == 0 || i > s.len() {
        s.skip(i as int)
    } else {
        match find_from(s, p, i) {
            Some(k) => if i <= k && k + p.len() <= s.len() {
                s.subrange(i as int, k as int) + r + replace_from(s, p, r, k + p.len())
            } else {
                s.skip(i as int)
            },
            None => s.skip(i as int),
        }
    }
}

/// `s` with every non-overlapping occurrence of `p` replaced by `r`.
pub open spec fn replace_all(s: Seq<char>, p: Seq<char>, r: Seq<char>) -> Seq<char> {
    replace_from(s, p, r, 0)
}

/// Without an occurrence of `p`, replacing leaves `s` unchanged.
pub proof fn lemma_replace_absent(s: Seq<char>, p: Seq<char>, r: Seq<char>)
    requires
        !contains(s, p),
    ensures
        replace_all(s, p, r) == s,
{
    lemma_find_contains(s, p);
    assert(s.skip(0) =~= s);
}

// ── Executable helpers ────────────────────────────────────────────────

/// Append one character (`String::push`).
#[verifier::external_body]
pub(crate) fn push_char(s: &mut String, c: char)
    ensures
        final(s)@ == old(s)@.push(c),
{
    s.push(c);
}

/// Lower-case a string (`str::to_lowercase`). The result is named, not
/// stated: Unicode case mapping has no short statement.
#[verifier::external_body]
pub(crate) fn to_lower(s: &str) -> (r: String)
    ensures
        r@ == unicode_lower(s@),
{
    s.to_lowercase()
}

/// Upper-case a string (`str::to_uppercase`). The result is named, not
/// stated: Unicode case mapping has no short statement.
#[verifier::external_body]
pub(crate) fn to_upper(s: &str) -> (r: String)
    ensures
        r@ == unicode_upper(s@),
{
    s.to_uppercase()
}

/// The characters of `s`, in order.
pub fn chars_of(s: &str) -> (v: Vec<char>)
    ensures
        v@ == s@,
{
    let mut v: Vec<char> = Vec::new();
    for c in it: s.chars()
        invariant
            v@ == it.seq().take(it.index() as int),
            it.seq() == s@,
    {
        v.push(c);
    }
    v
}

/// A new string holding the characters of `v`.
pub fn string_of(v: &[char]) -> (s: String)
    ensures
        s@ == v@,
{
    let mut s = String::new();
    let mut i: usize = 0;
    while i < v.len()
        invariant
            i <= v@.len(),
            s@ == v@.take(i as int),
        decreases v@.len() - i,
    {
        push_char(&mut s, v[i]);
        i = i + 1;
        assert(s@ == v@.take(i as int));
    }
    assert(v@.take(v@.len() as int) == v@);
    s
}

/// Append the characters of `t` to `s`.
pub fn push_chars(s: &mut String, t: &[char])
    ensures
        final(s)@ == old(s)@ + t@,
{
    let mut i: usize = 0;
    while i < t.len()
        invariant
            i <= t@.len(),
            s@ == old(s)@ + t@.take(i as int),
        decreases t@.len() - i,
    {
        push_char(s, t[i]);
        i = i + 1;
        assert(s@ == old(s)@ + t@.take(i as int));
    }
    assert(t@.take(t@.len() as int) == t@);
}

/// Append `t` to `s`.
pub fn push_str(s: &mut String, t: &str)
    ensures
        final(s)@ == old(s)@ + t@,
{
    let v = chars_of(t);
    push_chars(s, v.as_slice());
}

/// Concatenation of two strings.
pub fn concat2(a: &str, b: &str) -> (r: String)
    ensures
        r@ == a@ + b@,
{
    let mut r = String::new();
    push_str(&mut r, a);
    push_str(&mut r, b);
    assert(r@ == a@ + b@);
    r
}

/// Copy of `s`.
pub fn copy_str(s: &str) -> (r: String)
    ensures
        r@ == s@,
{
    let mut r = String::new();
    push_str(&mut r, s);
    assert(r@ == s@);
    r
}

/// Does `p` occur in `s` at index `i`?
pub fn matches_at_exec(s: &[char], p: &[char], i: usize) -> (b: bool)
    ensures
        b == matches_at(s@, p@, i as int),
{
    if i > s.len() || p.len() > s.len() - i {
        return false;
    }
    let mut k: usize = 0;
    while k < p.len()
        invariant
            i + p@.len() <= s@.len(),
            k <= p@.len(),
            forall|j: int| 0 <= j < k ==> s@[i + j] == p@[j],
        decreases p@.len() - k,
    {
        assert(i + k < s.len());
        if s[i + k] != p[k] {
            assert(s@.subrange(i as int, i + p@.len())[k as int] != p@[k as int]);
            return false;
        }
        k = k + 1;
    }
    assert(s@.subrange(i as int, i + p@.len()) =~= p@);
    true
}

/// First index at or after `from` where `p` occurs in `s`.
pub fn find_from_exec(s: &[char], p: &[char], from: usize) -> (r: Option<usize>)
    ensures
        match r {
            Some(k) => find_from(s@, p@, from as nat) == Some(k as nat),
            None => find_from(s@, p@, from as nat) is None,
        },
{
    if p.len() == 0 {
        if from <= s.len() {
            assert(s@.subrange(from as int, from as int) =~= p@);
            return Some(from);
        }
        return None;
    }
    let mut i = from;
    while i <= s.len() && p.len() <= s.len() - i
        invariant
            from <= i,
            p@.len() > 0,
            find_from(s@, p@, from as nat) == find_from(s@, p@, i as nat),
        decreases s@.len() + 1 - i,
    {
        if matches_at_exec(s, p, i) {
            return Some(i);
        }
        i = i + 1;
    }
    None
}

/// First index where `p` occurs in `s`.
pub fn find_exec(s: &[char], p: &[char]) -> (r: Option<usize>)
    ensures
        match r {
            Some(k) => find(s@, p@) == Some(k as nat),
            None => find(s@, p@) is None,
        },
{
    find_from_exec(s, p, 0)
}

/// Does `s` contain `p`?
pub fn contains_exec(s: &[char], p: &[char]) -> (b: bool)
    ensures
        b == contains(s@, p@),
{
    proof {
        lemma_find_contains(s@, p@);
    }
    find_exec(s, p).is_some()
}

/// Does `s` contain the literal `p`?
pub fn has(s: &[char], p: &str) -> (b: bool)
    ensures
        b == contains(s@, p@),
{
    let pv = chars_of(p);
    contains_exec(s, pv.as_slice())
}

/// Does `s` start with `p`?
pub fn starts_with_exec(s: &[char], p: &[char]) -> (b: bool)
    ensures
        b == starts_with(s@, p@),
{
    matches_at_exec(s, p, 0)
}

/// Does `s` start with the literal `p`?
pub fn starts(s: &[char], p: &str) -> (b: bool)
    ensures
        b == starts_with(s@, p@),
{
    let pv = chars_of(p);
    starts_with_exec(s, pv.as_slice())
}

/// Does `s` end with `p`?
pub fn ends_with_exec(s: &[char], p: &[char]) -> (b: bool)
    ensures
        b == ends_with(s@, p@),
{
    if p.len() > s.len() {
        return false;
    }
    matches_at_exec(s, p, s.len() - p.len())
}

/// Does `s` end with the literal `p`?
pub fn ends(s: &[char], p: &str) -> (b: bool)
    ensures
        b == ends_with(s@, p@),
{
    let pv = chars_of(p);
    ends_with_exec(s, pv.as_slice())
}

/// Are `a` and `b` the same sequence?
pub fn eq_chars(a: &[char], b: &[char]) -> (r: bool)
    ensures
        r == (a@ == b@),
{
    if a.len() != b.len() {
        return false;
    }
    let r = matches_at_exec(a, b, 0);
    proof {
        if r {
            assert(a@.subrange(0, b@.len() as int) == a@);
        } else {
            assert(a@.subrange(0, b@.len() as int) == a@);
        }
    }
    r
}

/// Is `a` equal to the literal `b`?
pub fn eq_lit(a: &[char], b: &str) -> (r: bool)
    ensures
        r == (a@ == b@),
{
    let bv = chars_of(b);
    eq_chars(a, bv.as_slice())
}

/// First index of `c` in `s` at or after `from`.
pub fn char_pos_from_exec(s: &[char], c: char, from: usize) -> (r: Option<usize>)
    ensures
        match r {
            Some(k) => char_pos_from(s@, c, from as nat) == Some(k as nat),
            None => char_pos_from(s@, c, from as nat) is None,
        },
{
    let mut i = from;
    while i < s.len()
        invariant
            from <= i,
            char_pos_from(s@, c, from as nat) == char_pos_from(s@, c, i as nat),
        decreases s@.len() - i,
    {
        if s[i] == c {
            return Some(i);
        }
        i = i + 1;
    }
    None
}

/// First index of `c` in `s`.
pub fn char_pos_exec(s: &[char], c: char) -> (r: Option<usize>)
    ensures
        match r {
            Some(k) => char_pos(s@, c) == Some(k as nat),
            None => char_pos(s@, c) is None,
        },
{
    char_pos_from_exec(s, c, 0)
}

/// Does `s` contain the character `c`?
pub fn has_char_exec(s: &[char], c: char) -> (b: bool)
    ensures
        b == has_char(s@, c),
{
    proof {
        lemma_char_pos_from(s@, c, 0);
    }
    char_pos_exec(s, c).is_some()
}

/// Copy of `s[from..to]`.
pub fn slice_vec(s: &[char], from: usize, to: usize) -> (r: Vec<char>)
    requires
        from <= to <= s@.len(),
    ensures
        r@ == s@.subrange(from as int, to as int),
{
    let mut r: Vec<char> = Vec::new();
    let mut i = from;
    while i < to
        invariant
            from <= i <= to <= s@.len(),
            r@ == s@.subrange(from as int, i as int),
        decreases to - i,
    {
        r.push(s[i]);
        i = i + 1;
        assert(r@ == s@.subrange(from as int, i as int));
    }
    r
}

/// The part of `s` before the first `c`.
pub fn before_char_exec(s: &[char], c: char) -> (r: Vec<char>)
    ensures
        r@ == before_char(s@, c),
{
    match char_pos_exec(s, c) {
        Some(i) => {
            proof {
                lemma_char_pos_from(s@, c, 0);
            }
            slice_vec(s, 0, i)
        },
        None => slice_vec(s, 0, s.len()),
    }
}

/// ASCII lower-casing of one character.
pub fn ascii_lower_char_exec(c: char) -> (r: char)
    ensures
        r == ascii_lower_char(c),
{
    if 'A' <= c && c <= 'Z' {
        let u: u32 = c as u32;
        let l: u32 = u + 32;
        assert(0x61 <= l <= 0x7a);
        char_from_ascii(l)
    } else {
        c
    }
}

/// The character with the given ASCII code.
fn char_from_ascii(u: u32) -> (c: char)
    requires
        u < 128,
    ensures
        c == u as char,
{
    (u as u8) as char
}

/// ASCII lower-casing of a sequence.
pub fn ascii_lower_exec(s: &[char]) -> (r: Vec<char>)
    ensures
        r@ == ascii_lower(s@),
{
    let mut r: Vec<char> = Vec::new();
    let mut i: usize = 0;
    while i < s.len()
        invariant
            i <= s@.len(),
            r@ == ascii_lower(s@.take(i as int)),
        decreases s@.len() - i,
    {
        let c = ascii_lower_char_exec(s[i]);
        r.push(c);
        i = i + 1;
        assert(r@ =~= ascii_lower(s@.take(i as int)));
    }
    assert(s@.take(s@.len() as int) == s@);
    r
}

/// Does `c` have the `White_Space` property?
pub fn is_ws_exec(c: char) -> (b: bool)
    ensures
        b == is_ws(c),
{
    c == ' ' || ('\u{9}' <= c && c <= '\u{d}') || c == '\u{85}' || c == '\u{a0}' || c
        == '\u{1680}' || ('\u{2000}' <= c && c <= '\u{200a}') || c == '\u{2028}' || c
        == '\u{2029}' || c == '\u{202f}' || c == '\u{205f}' || c == '\u{3000}'
}

/// Is `c` a control character?
pub fn is_ctrl_exec(c: char) -> (b: bool)
    ensures
        b == is_ctrl(c),
{
    c <= '\u{1f}' || ('\u{7f}' <= c && c <= '\u{9f}')
}

/// `s` without leading and trailing whitespace.
pub fn trim_exec(s: &[char]) -> (r: Vec<char>)
    ensures
        r@ == trim(s@),
{
    let mut i: usize = 0;
    while i < s.len() && is_ws_exec(s[i])
        invariant
            i <= s@.len(),
            ws_run(s@, 0) == i + ws_run(s@, i as nat),
        decreases s@.len() - i,
    {
        i = i + 1;
    }
    let t = slice_vec(s, i, s.len());
    let mut n: usize = t.len();
    while n > 0 && is_ws_exec(t[n - 1])
        invariant
            n <= t@.len(),
            ws_tail(t@, t@.len()) == (t@.len() - n) + ws_tail(t@, n as nat),
        decreases n,
    {
        n = n - 1;
    }
    slice_vec(t.as_slice(), 0, n)
}


/// Pieces of `s` between occurrences of `c`.
pub fn split_char_exec(s: &[char], c: char) -> (r: Vec<Vec<char>>)
    ensures
        views(r@) == split_char(s@, c),
{
    let mut r: Vec<Vec<char>> = Vec::new();
    let mut start: usize = 0;
    let mut i: usize = 0;
    assert(s@.skip(0) =~= s@);
    assert(views(r@) =~= Seq::<Seq<char>>::empty());
    assert(views(r@) + split_char(s@.skip(0), c) =~= split_char(s@, c));
    while i < s.len()
        invariant
            start <= i <= s@.len(),
            views(r@) + split_char(s@.skip(start as int), c) == split_char(s@, c),
            forall|j: int| start <= j < i ==> s@[j] != c,
        decreases s@.len() - i,
    {
        if s[i] == c {
            let piece = slice_vec(s, start, i);
            proof {
                let t = s@.skip(start as int);
                lemma_char_pos_is(t, c, i - start);
                assert(t.take(i - start) =~= piece@);
                assert(t.skip(i - start + 1) =~= s@.skip(i + 1));
                assert(split_char(t, c) == seq![piece@] + split_char(s@.skip(i + 1), c));
            }
            let ghost old_r = r@;
            r.push(piece);
            proof {
                assert(views(r@) =~= views(old_r) + seq![piece@]);
            }
            start = i + 1;
        }
        i = i + 1;
    }
    let piece = slice_vec(s, start, s.len());
    proof {
        let t = s@.skip(start as int);
        lemma_char_pos_none(t, c);
        assert(t =~= piece@);
    }
    let ghost old_r = r@;
    r.push(piece);
    proof {
        assert(views(r@) =~= views(old_r) + seq![piece@]);
    }
    r
}

/// Number of UTF-8 bytes of `c`.
pub fn utf8_len_exec(c: char) -> (n: usize)
    ensures
        n == utf8_len(c),
{
    let u: u32 = c as u32;
    if u < 0x80 {
        1
    } else if u < 0x800 {
        2
    } else if u < 0x10000 {
        3
    } else {
        4
    }
}


/// Longest prefix of `s` whose UTF-8 encoding fits in `n` bytes.
pub fn utf8_truncate(s: &str, n: usize) -> (r: String)
    ensures
        r@ == utf8_take(s@, n as nat),
{
    let v = chars_of(s);
    let mut out: Vec<char> = Vec::new();
    let mut used: usize = 0;
    let mut i: usize = 0;
    assert(v@.skip(0) =~= v@);
    while i < v.len()
        invariant
            i <= v@.len(),
            v@ == s@,
            used <= n,
            out@ + utf8_take(v@.skip(i as int), (n - used) as nat) == utf8_take(v@, n as nat),
        decreases v@.len() - i,
    {
        let w = utf8_len_exec(v[i]);
        let ghost t = v@.skip(i as int);
        assert(t[0] == v@[i as int]);
        if w > n - used {
            assert(utf8_take(t, (n - used) as nat) =~= Seq::<char>::empty());
            assert(out@ + Seq::<char>::empty() =~= out@);
            assert(out@ == utf8_take(v@, n as nat));
            let r = string_of(out.as_slice());
            assert(r@ == out@);
            return r;
        }
        proof {
            assert(t.drop_first() =~= v@.skip(i + 1));
            assert(out@.push(v@[i as int]) + utf8_take(v@.skip(i + 1), (n - used - w) as nat)
                =~= out@ + utf8_take(t, (n - used) as nat));
        }
        out.push(v[i]);
        used = used + w;
        i = i + 1;
    }
    assert(utf8_take(v@.skip(i as int), (n - used) as nat) =~= Seq::<char>::empty());
    assert(out@ + Seq::<char>::empty() =~= out@);
    string_of(out.as_slice())
}

/// `s` with every non-overlapping occurrence of the nonempty `p` replaced
/// by `r`, left to right.
pub fn replace_all_exec(s: &[char], p: &[char], r: &[char]) -> (out: Vec<char>)
    requires
        p@.len() > 0,
    ensures
        out@ == replace_all(s@, p@, r@),
{
    let mut out: Vec<char> = Vec::new();
    let mut i: usize = 0;
    loop
        invariant
            i <= s@.len(),
            p@.len() > 0,
            out@ + replace_from(s@, p@, r@, i as nat) == replace_all(s@, p@, r@),
        decreases s@.len() - i,
    {
        match find_from_exec(s, p, i) {
            Some(k) => {
                proof {
                    lemma_find_from(s@, p@, i as nat);
                }
                assert(matches_at(s@, p@, k as int));
                assert(k + p@.len() <= s@.len());
                let slen = s.len();
                assert(k + p@.len() <= slen);
                let next = k + p.len();
                let ghost before = out@;
                let mid = slice_vec(s, i, k);
                let mut j: usize = 0;
                while j < mid.len()
                    invariant
                        j <= mid@.len(),
                        out@ == before + mid@.take(j as int),
                    decreases mid@.len() - j,
                {
                    out.push(mid[j]);
                    j = j + 1;
                    assert(out@ =~= before + mid@.take(j as int));
                }
                let ghost before2 = out@;
                let mut j: usize = 0;
                while j < r.len()
                    invariant
                        j <= r@.len(),
                        out@ == before2 + r@.take(j as int),
                    decreases r@.len() - j,
                {
                    out.push(r[j]);
                    j = j + 1;
                    assert(out@ =~= before2 + r@.take(j as int));
                }
                proof {
                    assert(mid@.take(mid@.len() as int) =~= mid@);
                    assert(r@.take(r@.len() as int) =~= r@);
                    assert(before + (s@.subrange(i as int, k as int) + r@ + replace_from(
                        s@,
                        p@,
                        r@,
                        (k + p@.len()) as nat,
                    )) =~= out@ + replace_from(s@, p@, r@, (k + p@.len()) as nat));
                }
                i = next;
            },
            None => {
                let rest = slice_vec(s, i, s.len());
                let ghost before = out@;
                let mut j: usize = 0;
                while j < rest.len()
                    invariant
                        j <= rest@.len(),
                        out@ == before + rest@.take(j as int),
                    decreases rest@.len() - j,
                {
                    out.push(rest[j]);
                    j = j + 1;
                    assert(out@ =~= before + rest@.take(j as int));
                }
                assert(rest@.take(rest@.len() as int) =~= rest@);
                assert(s@.skip(i as int) =~= rest@);
                return out;
            },
        }
    }
}

proof fn lemma_ws_run_skip(s: Seq<char>, i: nat, j: nat)
    requires
        i <= s.len(),
    ensures
        ws_run(s.skip(i as int), j) == ws_run(s, i + j),
    decreases s.len() - (i + j),
{
    if i + j < s.len() {
        assert(s.skip(i as int)[j as int] == s[(i + j) as int]);
        lemma_ws_run_skip(s, i, j + 1);
    }
}

proof fn lemma_word_run_skip(s: Seq<char>, i: nat, j: nat)
    requires
        i <= s.len(),
    ensures
        word_run(s.skip(i as int), j) == word_run(s, i + j),
    decreases s.len() - (i + j),
{
    if i + j < s.len() {
        assert(s.skip(i as int)[j as int] == s[(i + j) as int]);
        lemma_word_run_skip(s, i, j + 1);
    }
}

/// The whitespace-separated words of `s` (`str::split_whitespace`).
pub fn words_exec(s: &[char]) -> (r: Vec<Vec<char>>)
    ensures
        views(r@) == words(s@),
{
    let mut r: Vec<Vec<char>> = Vec::new();
    let mut i: usize = 0;
    assert(s@.skip(0) =~= s@);
    assert(views(r@) + words(s@.skip(0)) =~= words(s@));
    loop
        invariant
            i <= s@.len(),
            views(r@) + words(s@.skip(i as int)) == words(s@),
        decreases s@.len() - i,
    {
        let mut k = i;
        while k < s.len() && is_ws_exec(s[k])
            invariant
                i <= k <= s@.len(),
                ws_run(s@, i as nat) == (k - i) + ws_run(s@, k as nat),
            decreases s@.len() - k,
        {
            k = k + 1;
        }
        proof {
            lemma_ws_run_skip(s@, i as nat, 0);
            lemma_ws_run_bound(s@, i as nat);
        }
        if k == s.len() {
            assert(words(s@.skip(i as int)) =~= Seq::<Seq<char>>::empty());
            assert(views(r@) + Seq::<Seq<char>>::empty() =~= views(r@));
            return r;
        }
        let mut e = k;
        while e < s.len() && !is_ws_exec(s[e])
            invariant
                k <= e <= s@.len(),
                word_run(s@, k as nat) == (e - k) + word_run(s@, e as nat),
            decreases s@.len() - e,
        {
            e = e + 1;
        }
        proof {
            let t = s@.skip(i as int);
            assert(t.skip(ws_run(t, 0) as int) =~= s@.skip(k as int));
            lemma_word_run_skip(s@, k as nat, 0);
            let u = s@.skip(k as int);
            assert(u.take(word_run(u, 0) as int) =~= s@.subrange(k as int, e as int));
            assert(u.skip(word_run(u, 0) as int) =~= s@.skip(e as int));
        }
        let w = slice_vec(s, k, e);
        let ghost before = r@;
        r.push(w);
        proof {
            assert(views(r@) =~= views(before).push(w@));
            assert(views(r@) + words(s@.skip(e as int)) =~= views(before) + words(
                s@.skip(i as int),
            ));
        }
        i = e;
    }
}

/// UTF-8 size of `s`, or `None` when it exceeds `usize::MAX`.
pub fn utf8_size_checked(s: &[char]) -> (r: Option<usize>)
    ensures
        match r {
            Some(n) => n == utf8_size(s@),
            None => utf8_size(s@) > usize::MAX,
        },
{
    let mut total: usize = 0;
    let mut i: usize = 0;
    while i < s.len()
        invariant
            i <= s@.len(),
            total == utf8_size(s@.take(i as int)),
        decreases s@.len() - i,
    {
        proof {
            assert(s@.take(i + 1).drop_last() =~= s@.take(i as int));
        }
        let w = utf8_len_exec(s[i]);
        match total.checked_add(w) {
            Some(t) => total = t,
            None => {
                proof {
                    lemma_utf8_size_prefix(s@, (i + 1) as nat);
                }
                return None;
            },
        }
        i = i + 1;
    }
    assert(s@.take(s@.len() as int) =~= s@);
    Some(total)
}


proof fn lemma_digits_prefix(d: Seq<char>, i: nat)
    requires
        i <= d.len(),
        all_digits(d),
    ensures
        digits_value(d.take(i as int)) <= digits_value(d),
    decreases d.len(),
{
    if i < d.len() {
        assert(d.drop_last().take(i as int) =~= d.take(i as int));
        assert(all_digits(d.drop_last()));
        lemma_digits_prefix(d.drop_last(), i);
        assert(is_ascii_digit(d[d.len() - 1]));
    } else {
        assert(d.take(i as int) =~= d);
    }
}

/// `u32::from_str` on characters.
pub fn parse_u32_exec(s: &[char]) -> (r: Option<u32>)
    ensures
        r == parse_u32(s@),
{
    let start: usize = if s.len() > 0 && s[0] == '+' {
        1
    } else {
        0
    };
    let ghost d = if s@.len() > 0 && s@[0] == '+' {
        s@.skip(1)
    } else {
        s@
    };
    assert(d =~= s@.skip(start as int));
    if start >= s.len() {
        return None;
    }
    let mut value: u64 = 0;
    let mut i: usize = start;
    while i < s.len()
        invariant
            start <= i <= s@.len(),
            d == s@.skip(start as int),
            d == (if s@.len() > 0 && s@[0] == '+' {
                s@.skip(1)
            } else {
                s@
            }),
            d.len() > 0,
            forall|j: int| 0 <= j < i - start ==> is_ascii_digit(#[trigger] d[j]),
            value == digits_value(d.take(i - start)),
            value <= u32::MAX,
        decreases s@.len() - i,
    {
        let c = s[i];
        if !('0' <= c && c <= '9') {
            assert(!is_ascii_digit(d[i - start]));
            return None;
        }
        proof {
            assert(d.take(i - start + 1).drop_last() =~= d.take(i - start));
            assert(d.take(i - start + 1).last() == c);
        }
        let dv: u64 = (c as u32 - 48) as u64;
        let next = value * 10 + dv;
        assert(digits_value(d.take(i - start + 1)) == next);
        if next > 4294967295 {
            proof {
                assert forall|j: int| 0 <= j < i - start + 1 implies is_ascii_digit(
                    #[trigger] d[j],
                ) by {}
                if forall|j: int| 0 <= j < d.len() ==> is_ascii_digit(#[trigger] d[j]) {
                    lemma_digits_prefix(d, (i - start + 1) as nat);
                }
            }
            return None;
        }
        value = next;
        i = i + 1;
    }
    assert(d.take(d.len() as int) =~= d);
    Some(value as u32)
}


/// `s` without leading and trailing `c` characters.
pub fn strip_char_exec(s: &[char], c: char) -> (r: Vec<char>)
    ensures
        r@ == strip_both(s@, c),
{
    let mut a: usize = 0;
    assert(s@.skip(0) =~= s@);
    while a < s.len() && s[a] == c
        invariant
            a <= s@.len(),
            strip_leading(s@, c) == strip_leading(s@.skip(a as int), c),
        decreases s@.len() - a,
    {
        assert(s@.skip(a as int).drop_first() =~= s@.skip(a + 1));
        a = a + 1;
    }
    let t = slice_vec(s, a, s.len());
    assert(t@ =~= s@.skip(a as int));
    let mut b: usize = t.len();
    assert(t@.take(b as int) =~= t@);
    while b > 0 && t[b - 1] == c
        invariant
            b <= t@.len(),
            strip_trailing(t@, c) == strip_trailing(t@.take(b as int), c),
        decreases b,
    {
        assert(t@.take(b as int).drop_last() =~= t@.take(b - 1));
        b = b - 1;
    }
    slice_vec(t.as_slice(), 0, b)
}

/// Are `a` and `b` the same string?
pub fn str_eq(a: &str, b: &str) -> (r: bool)
    ensures
        r == (a@ == b@),
{
    let av = chars_of(a);
    let bv = chars_of(b);
    eq_chars(av.as_slice(), bv.as_slice())
}


/// Append the decimal notation of `n`.
pub fn push_dec(s: &mut String, n: u64)
    ensures
        final(s)@ == old(s)@ + dec(n as nat),
    decreases n,
{
    if n >= 10 {
        push_dec(s, n / 10);
    }
    let d: u64 = n % 10;
    let c = char_from_ascii((48 + d) as u32);
    push_char(s, c);
    proof {
        if n >= 10 {
            assert(dec(n as nat) == dec((n / 10) as nat).push(digit((n % 10) as nat)));
        }
    }
    assert(s@ =~= old(s)@ + dec(n as nat));
}

/// `{:?}` of a string: quoted with Rust's escapes. The result is named by
/// [`debug_text`].
#[verifier::external_body]
pub(crate) fn debug_string(s: &str) -> (r: String)
    ensures
        r@ == debug_text(s@),
{
    format!("{:?}", s)
}

/// Join strings with a separator.
pub fn join_strings(parts: &[String], sep: &str) -> (r: String)
    ensures
        r@ == join(string_views(parts@), sep@),
{
    let mut r = String::new();
    let mut i: usize = 0;
    while i < parts.len()
        invariant
            i <= parts@.len(),
            r@ == join(string_views(parts@).take(i as int), sep@),
        decreases parts@.len() - i,
    {
        let ghost before = r@;
        if i > 0 {
            push_str(&mut r, sep);
        }
        push_str(&mut r, parts[i].as_str());
        proof {
            let t = string_views(parts@).take(i + 1);
            assert(t.drop_last() =~= string_views(parts@).take(i as int));
            if i == 0 {
                assert(r@ =~= t[0]);
            } else {
                assert(r@ =~= join(t.drop_last(), sep@) + sep@ + t.last());
            }
        }
        i = i + 1;
    }
    assert(string_views(parts@).take(parts@.len() as int) =~= string_views(parts@));
    r
}


/// No piece of a split holds the separator.
pub proof fn lemma_split_pieces_lack_sep(s: Seq<char>, c: char)
    ensures
        split_char(s, c).len() >= 1,
        forall|i: int, j: int|
            0 <= i < split_char(s, c).len() && 0 <= j < split_char(s, c)[i].len() ==> #[trigger] split_char(
                s,
                c,
            )[i][j] != c,
    decreases s.len(),
{
    lemma_char_pos_from(s, c, 0);
    match char_pos(s, c) {
        Some(k) => {
            let rest = s.skip((k + 1) as int);
            lemma_split_pieces_lack_sep(rest, c);
            let parts = split_char(s, c);
            assert(parts == seq![s.take(k as int)] + split_char(rest, c));
            assert forall|i: int, j: int|
                0 <= i < parts.len() && 0 <= j < parts[i].len() implies #[trigger] parts[i][j] != c by {
                if i > 0 {
                    assert(parts[i] == split_char(rest, c)[i - 1]);
                }
            }
        },
        None => {},
    }
}

/// Joining in front: `join([x] + t) == x + sep + join(t)` for a nonempty `t`.
pub proof fn lemma_join_cons(x: Seq<char>, t: Seq<Seq<char>>, sep: Seq<char>)
    requires
        t.len() >= 1,
    ensures
        join(seq![x] + t, sep) == x + sep + join(t, sep),
    decreases t.len(),
{
    let xt = seq![x] + t;
    if t.len() == 1 {
        assert(xt.drop_last() =~= seq![x]);
        assert(join(xt, sep) == join(xt.drop_last(), sep) + sep + xt.last());
    } else {
        lemma_join_cons(x, t.drop_last(), sep);
        assert(xt.drop_last() =~= seq![x] + t.drop_last());
        assert(join(xt, sep) == join(xt.drop_last(), sep) + sep + xt.last());
        assert(join(t, sep) == join(t.drop_last(), sep) + sep + t.last());
        assert(x + sep + join(t.drop_last(), sep) + sep + t.last() =~= x + sep + (join(
            t.drop_last(),
            sep,
        ) + sep + t.last()));
    }
}

/// Joining two nonempty lists: `join(a + b) == join(a) + sep + join(b)`.
pub proof fn lemma_join_append(a: Seq<Seq<char>>, b: Seq<Seq<char>>, sep: Seq<char>)
    requires
        a.len() >= 1,
        b.len() >= 1,
    ensures
        join(a + b, sep) == join(a, sep) + sep + join(b, sep),
    decreases b.len(),
{
    let ab = a + b;
    if b.len() == 1 {
        assert(ab.drop_last() =~= a);
        assert(join(ab, sep) == join(ab.drop_last(), sep) + sep + ab.last());
    } else {
        lemma_join_append(a, b.drop_last(), sep);
        assert(ab.drop_last() =~= a + b.drop_last());
        assert(join(ab, sep) == join(ab.drop_last(), sep) + sep + ab.last());
        assert(join(b, sep) == join(b.drop_last(), sep) + sep + b.last());
        assert(join(a, sep) + sep + join(b.drop_last(), sep) + sep + b.last() =~= join(a, sep) + sep
            + (join(b.drop_last(), sep) + sep + b.last()));
    }
}

/// Splitting at `c` and joining with `c` gives the text back.
pub proof fn lemma_join_split(s: Seq<char>, c: char)
    ensures
        join(split_char(s, c), seq![c]) == s,
    decreases s.len(),
{
    lemma_char_pos_from(s, c, 0);
    match char_pos(s, c) {
        Some(k) => {
            let rest = s.skip((k + 1) as int);
            lemma_join_split(rest, c);
            lemma_split_pieces_lack_sep(rest, c);
            lemma_join_cons(s.take(k as int), split_char(rest, c), seq![c]);
            assert(s.take(k as int) + seq![c] + rest =~= s);
        },
        None => {
            assert(split_char(s, c) == seq![s]);
        },
    }
}


/// `find_from` on a suffix finds the same occurrences, shifted.
proof fn lemma_find_from_skip(s: Seq<char>, p: Seq<char>, i: nat, j: nat)
    requires
        i <= s.len(),
    ensures
        find_from(s, p, i + j) == match find_from(s.skip(i as int), p, j) {
            Some(k) => Some(k + i),
            None => None::<nat>,
        },
    decreases s.len() - (i + j),
{
    let t = s.skip(i as int);
    if i + j + p.len() > s.len() {
    } else {
        assert(s.subrange((i + j) as int, (i + j + p.len()) as int) =~= t.subrange(
            j as int,
            (j + p.len()) as int,
        ));
        if s.subrange((i + j) as int, (i + j + p.len()) as int) == p {
        } else if i + j >= s.len() {
        } else {
            lemma_find_from_skip(s, p, i, j + 1);
        }
    }
}

/// Replacing from `i + j` in `s` is replacing from `j` in `s` without its
/// first `i` characters.
proof fn lemma_replace_from_skip(s: Seq<char>, p: Seq<char>, r: Seq<char>, i: nat, j: nat)
    requires
        i + j <= s.len(),
    ensures
        replace_from(s, p, r, i + j) == replace_from(s.skip(i as int), p, r, j),
    decreases s.len() - (i + j),
{
    let t = s.skip(i as int);
    if p.len() == 0 || i + j > s.len() {
        assert(s.skip((i + j) as int) =~= t.skip(j as int));
    } else {
        lemma_find_from_skip(s, p, i, j);
        lemma_find_from(s, p, i + j);
        match find_from(t, p, j) {
            Some(k) => {
                if j <= k && k + p.len() <= t.len() {
                    lemma_replace_from_skip(s, p, r, i, k + p.len());
                    assert(s.subrange((i + j) as int, (k + i) as int) =~= t.subrange(j as int, k as int));
                    assert(i + (k + p.len()) == (k + i) + p.len());
                } else {
                    assert(s.skip((i + j) as int) =~= t.skip(j as int));
                }
            },
            None => {
                assert(s.skip((i + j) as int) =~= t.skip(j as int));
            },
        }
    }
}

/// Replacing around the first occurrence: the text before it, the
/// replacement, and the rest replaced.
pub proof fn lemma_replace_first(s: Seq<char>, p: Seq<char>, r: Seq<char>)
    requires
        p.len() > 0,
        find(s, p) is Some,
    ensures
        ({
            let k = find(s, p)->Some_0;
            replace_all(s, p, r) == s.take(k as int) + r + replace_all(s.skip((k + p.len()) as int), p, r)
        }),
{
    lemma_find_from(s, p, 0);
    let k = find(s, p)->Some_0;
    lemma_replace_from_skip(s, p, r, k + p.len(), 0);
    assert(s.subrange(0, k as int) =~= s.take(k as int));
}

/// No proper prefix of `p` is also a suffix of it.
pub open spec fn border_free(p: Seq<char>) -> bool {
    forall|m: int| 0 < m < p.len() ==> #[trigger] p.take(m) != p.skip(p.len() - m)
}

/// Replacing `v` by `q` and then `q` by `v` gives the text back, when the
/// text holds no `q` and `q` has no border.
pub proof fn lemma_replace_round_trip(s: Seq<char>, v: Seq<char>, q: Seq<char>)
    requires
        q.len() > 0,
        border_free(q),
        !contains(s, q),
    ensures
        replace_all(replace_all(s, v, q), q, v) == s,
    decreases s.len(),
{
    lemma_find_contains(s, v);
    if v.len() == 0 || find(s, v) is None {
        if v.len() == 0 {
            assert(s.skip(0) =~= s);
        } else {
            lemma_replace_absent(s, v, q);
        }
        lemma_replace_absent(s, q, v);
    } else {
        let k = find(s, v)->Some_0;
        lemma_find_from(s, v, 0);
        let a = s.take(k as int);
        let b = s.skip((k + v.len()) as int);
        lemma_replace_first(s, v, q);
        let rb = replace_all(b, v, q);
        assert(!contains(b, q)) by {
            if contains(b, q) {
                let j = choose|j: int| matches_at(b, q, j);
                assert(s.subrange(j + k + v.len(), j + k + v.len() + q.len()) =~= b.subrange(
                    j,
                    j + q.len(),
                ));
                assert(matches_at(s, q, j + k + v.len()));
            }
        }
        lemma_replace_round_trip(b, v, q);
        let t = a + q + rb;
        assert(replace_all(s, v, q) == t);
        // the first `q` of `t` is the one put in place of `v`
        assert(matches_at(t, q, a.len() as int)) by {
            assert(t.subrange(a.len() as int, (a.len() + q.len()) as int) =~= q);
        }
        assert forall|j: int| 0 <= j < a.len() implies !matches_at(t, q, j) by {
            if matches_at(t, q, j) {
                if j + q.len() <= a.len() {
                    assert(t.subrange(j, j + q.len()) =~= s.subrange(j, j + q.len()));
                    assert(matches_at(s, q, j));
                } else {
                    let m = j + q.len() - a.len();
                    assert(t.subrange(j, j + q.len()).skip(q.len() - m) =~= q.take(m));
                    assert(q.skip(q.len() - m) == q.take(m));
                }
            }
        }
        lemma_find_from(t, q, 0);
        assert(find(t, q) == Some(a.len()));
        lemma_replace_first(t, q, v);
        assert(t.take(a.len() as int) =~= a);
        assert(t.skip((a.len() + q.len()) as int) =~= rb);
        assert(a + v + b =~= s);
    }
}

/// The character lower-cases to `p` (`to_lowercase` of it alone is `p`).
pub open spec fn lowers_to(c: char, p: char) -> bool {
    unicode_lower(seq![c]) == seq![p]
}

/// `prefix` occurs at `k` in `goal`, each character of the goal there
/// lower-casing to the prefix's character.
pub open spec fn ci_at(goal: Seq<char>, prefix: Seq<char>, k: int) -> bool {
    0 <= k && k + prefix.len() <= goal.len() && forall|j: int|
        0 <= j < prefix.len() ==> #[trigger] lowers_to(goal[k + j], prefix[j])
}

/// First index from `i` on where `prefix` occurs case-insensitively.
pub open spec fn ci_find(goal: Seq<char>, prefix: Seq<char>, i: nat) -> Option<nat>
    decreases goal.len() - i,
{
    if i + prefix.len() > goal.len() {
        None
    } else if ci_at(goal, prefix, i as int) {
        Some(i)
    } else {
        ci_find(goal, prefix, i + 1)
    }
}

/// Last index below `n` where `prefix` occurs case-insensitively.
pub open spec fn ci_rfind_from(s: Seq<char>, p: Seq<char>, n: nat) -> Option<nat>
    decreases n,
{
    if n == 0 {
        None
    } else if ci_at(s, p, n - 1) {
        Some((n - 1) as nat)
    } else {
        ci_rfind_from(s, p, (n - 1) as nat)
    }
}

/// Last index where `p` occurs case-insensitively in `s`.
pub open spec fn ci_rfind(s: Seq<char>, p: Seq<char>) -> Option<nat> {
    ci_rfind_from(s, p, s.len() + 1)
}

/// What `ci_rfind_from` finds is an occurrence.
pub proof fn lemma_ci_rfind_from(s: Seq<char>, p: Seq<char>, n: nat)
    ensures
        ci_rfind_from(s, p, n) matches Some(k) ==> ci_at(s, p, k as int) && k < n,
    decreases n,
{
    if n > 0 && !ci_at(s, p, n - 1) {
        lemma_ci_rfind_from(s, p, (n - 1) as nat);
    }
}

/// The lower-cased form of each character of `goal`, alone.
pub fn char_lowers(goal: &[char]) -> (r: Vec<Vec<char>>)
    ensures
        r@.len() == goal@.len(),
        forall|i: int| 0 <= i < goal@.len() ==> #[trigger] r@[i]@ == unicode_lower(seq![goal@[i]]),
{
    let mut r: Vec<Vec<char>> = Vec::new();
    let mut i: usize = 0;
    while i < goal.len()
        invariant
            i <= goal@.len(),
            r@.len() == i,
            forall|j: int| 0 <= j < i ==> #[trigger] r@[j]@ == unicode_lower(seq![goal@[j]]),
        decreases goal@.len() - i,
    {
        let mut one = String::new();
        push_char(&mut one, goal[i]);
        assert(one@ =~= seq![goal@[i as int]]);
        let l = chars_of(to_lower(one.as_str()).as_str());
        r.push(l);
        i = i + 1;
    }
    r
}

/// Does `prefix` occur at `k`, case-insensitively?
pub fn ci_at_exec(lows: &Vec<Vec<char>>, goal: &[char], prefix: &[char], k: usize) -> (b: bool)
    requires
        lows@.len() == goal@.len(),
        forall|i: int| 0 <= i < goal@.len() ==> #[trigger] lows@[i]@ == unicode_lower(seq![goal@[i]]),
        k + prefix@.len() <= goal@.len(),
    ensures
        b == ci_at(goal@, prefix@, k as int),
{
    let n = goal.len();
    let mut j: usize = 0;
    while j < prefix.len()
        invariant
            j <= prefix@.len(),
            k + prefix@.len() <= goal@.len(),
            n == goal@.len(),
            lows@.len() == goal@.len(),
            forall|i: int| 0 <= i < goal@.len() ==> #[trigger] lows@[i]@ == unicode_lower(seq![goal@[i]]),
            forall|t: int| 0 <= t < j ==> #[trigger] lowers_to(goal@[k + t], prefix@[t]),
        decreases prefix@.len() - j,
    {
        assert(k + j < goal@.len());
        let l = &lows[k + j];
        let ok = l.len() == 1 && l[0] == prefix[j];
        proof {
            assert(l@ == unicode_lower(seq![goal@[k + j]]));
            if ok {
                assert(l@ =~= seq![prefix@[j as int]]);
            } else {
                assert(!lowers_to(goal@[k + j], prefix@[j as int]));
            }
        }
        if !ok {
            return false;
        }
        j = j + 1;
    }
    true
}

pub fn ci_find_exec(lows: &Vec<Vec<char>>, goal: &[char], prefix: &[char]) -> (r: Option<usize>)
    requires
        lows@.len() == goal@.len(),
        forall|i: int| 0 <= i < goal@.len() ==> #[trigger] lows@[i]@ == unicode_lower(seq![goal@[i]]),
    ensures
        match r {
            Some(p) => ci_find(goal@, prefix@, 0) == Some(p as nat) && p + prefix@.len() <= goal@.len(),
            None => ci_find(goal@, prefix@, 0) is None,
        },
{
    if prefix.len() > goal.len() {
        return None;
    }
    let mut k: usize = 0;
    while k <= goal.len() - prefix.len()
        invariant
            prefix@.len() <= goal@.len(),
            lows@.len() == goal@.len(),
            forall|i: int| 0 <= i < goal@.len() ==> #[trigger] lows@[i]@ == unicode_lower(seq![goal@[i]]),
            ci_find(goal@, prefix@, 0) == ci_find(goal@, prefix@, k as nat),
        decreases goal@.len() - k,
    {
        if ci_at_exec(lows, goal, prefix, k) {
            return Some(k);
        }
        k = k + 1;
    }
    None
}

/// Last index where `prefix` occurs case-insensitively.
pub fn ci_rfind_exec(lows: &Vec<Vec<char>>, s: &[char], p: &[char]) -> (r: Option<usize>)
    requires
        lows@.len() == s@.len(),
        forall|i: int| 0 <= i < s@.len() ==> #[trigger] lows@[i]@ == unicode_lower(seq![s@[i]]),
    ensures
        match r {
            Some(k) => ci_rfind(s@, p@) == Some(k as nat) && k + p@.len() <= s@.len(),
            None => ci_rfind(s@, p@) is None,
        },
{
    if p.len() > s.len() {
        proof {
            lemma_ci_rfind_from(s@, p@, s@.len() + 1);
        }
        return None;
    }
    if p.len() == 0 {
        assert(ci_at(s@, p@, s@.len() as int));
        return Some(s.len());
    }
    let top = s.len() - p.len();
    let mut n: usize = top + 1;
    proof {
        lemma_ci_rfind_skip(s@, p@, s@.len() + 1, (top + 1) as nat);
    }
    while n > 0
        invariant
            n <= top + 1,
            top + p@.len() == s@.len(),
            lows@.len() == s@.len(),
            forall|i: int| 0 <= i < s@.len() ==> #[trigger] lows@[i]@ == unicode_lower(seq![s@[i]]),
            ci_rfind(s@, p@) == ci_rfind_from(s@, p@, n as nat),
        decreases n,
    {
        if ci_at_exec(lows, s, p, n - 1) {
            return Some(n - 1);
        }
        n = n - 1;
    }
    None
}

/// Indices past the last possible start find nothing new.
proof fn lemma_ci_rfind_skip(s: Seq<char>, p: Seq<char>, m: nat, base: nat)
    requires
        base + p.len() == s.len() + 1,
        base <= m,
    ensures
        ci_rfind_from(s, p, m) == ci_rfind_from(s, p, base),
    decreases m,
{
    if m > base {
        assert(!ci_at(s, p, m - 1));
        lemma_ci_rfind_skip(s, p, (m - 1) as nat, base);
    }
}


/// Decimal notation is never empty, and has two or more digits from 10 on.
proof fn lemma_dec_len(n: nat)
    ensures
        dec(n).len() >= 1,
        n >= 10 ==> dec(n).len() >= 2,
    decreases n,
{
    if n >= 10 {
        lemma_dec_len(n / 10);
    }
}

/// Different numbers have different decimal notations.
pub proof fn lemma_dec_injective(a: nat, b: nat)
    requires
        dec(a) == dec(b),
    ensures
        a == b,
    decreases a,
{
    lemma_dec_len(a);
    lemma_dec_len(b);
    if a < 10 && b < 10 {
        assert(dec(a)[0] == digit(a));
        assert(dec(b)[0] == digit(b));
    } else if a >= 10 && b >= 10 {
        assert(dec(a).drop_last() =~= dec(a / 10));
        assert(dec(b).drop_last() =~= dec(b / 10));
        lemma_dec_injective(a / 10, b / 10);
        assert(dec(a).last() == digit(a % 10));
        assert(dec(b).last() == digit(b % 10));
        assert(a % 10 == b % 10);
        assert(a == 10 * (a / 10) + a % 10) by (nonlinear_arith);
        assert(b == 10 * (b / 10) + b % 10) by (nonlinear_arith);
    } else {
        assert(dec(a).len() != dec(b).len());
    }
}


/// A text holds itself.
pub proof fn lemma_contains_self(p: Seq<char>)
    ensures
        contains(p, p),
{
    assert(p.subrange(0, p.len() as int) =~= p);
    assert(matches_at(p, p, 0));
}

/// Text after a text that starts with `p` keeps that start.
pub proof fn lemma_starts_then(x: Seq<char>, b: Seq<char>, p: Seq<char>)
    requires
        starts_with(x, p),
    ensures
        starts_with(x + b, p),
{
    assert((x + b).subrange(0, p.len() as int) =~= x.subrange(0, p.len() as int));
}

/// Text after a text that holds `p` keeps it.
pub proof fn lemma_contains_then(x: Seq<char>, b: Seq<char>, p: Seq<char>)
    requires
        contains(x, p),
    ensures
        contains(x + b, p),
{
    let i = choose|i: int| matches_at(x, p, i);
    assert((x + b).subrange(i, i + p.len()) =~= x.subrange(i, i + p.len()));
    assert(matches_at(x + b, p, i));
}

/// Text before a text that holds `p` keeps it.
pub proof fn lemma_contains_after(a: Seq<char>, x: Seq<char>, p: Seq<char>)
    requires
        contains(x, p),
    ensures
        contains(a + x, p),
{
    let i = choose|i: int| matches_at(x, p, i);
    assert((a + x).subrange(a.len() + i, a.len() + i + p.len()) =~= x.subrange(i, i + p.len()));
    assert(matches_at(a + x, p, a.len() + i));
}

/// Text around a text that holds `p` still holds it.
pub proof fn lemma_contains_within(a: Seq<char>, x: Seq<char>, b: Seq<char>, p: Seq<char>)
    requires
        contains(x, p),
    ensures
        contains(a + x + b, p),
{
    let i = choose|i: int| matches_at(x, p, i);
    let whole = a + x + b;
    assert(whole.subrange(a.len() + i, a.len() + i + p.len()) =~= x.subrange(i, i + p.len()));
    assert(matches_at(whole, p, a.len() + i));
}

} // verus!
