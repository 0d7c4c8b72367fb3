//! Playbooks: recorded workflows replayed step by step on known pages, and
//! their synthesis from a successful pilot run.
use vstd::prelude::*;

use crate::rx::{regex_is_match, regex_match};
use crate::pilot::{Action, ActionView, Step};
use crate::semantic::{Element, SemanticView};
use crate::weburl::pair_views;
use crate::text::{
    ascii_lower, ascii_lower_char, ascii_lower_char_exec, ascii_lower_exec, char_pos,
    char_pos_exec, chars_of, contains, contains_exec, push_char, copy_str, eq_chars, has, has_char,
    has_char_exec, is_ascii_alnum, is_ctrl, is_ctrl_exec, join, join_strings,
    lemma_char_pos_from, lemma_replace_absent, lemma_utf8_size_prefix, opt_view, push_chars, push_str, replace_all,
    replace_all_exec, slice_vec, split_char, split_char_exec, starts_with, starts_with_exec,
    oview, str_eq, string_of, string_views, to_lower, trim, trim_exec, unicode_lower, utf8_len_exec,
    utf8_size, views, words, words_exec, utf8_len, word_run, find, find_exec, is_ws_exec,
    utf8_size_checked, strip_trailing,
    lemma_find_contains, lemma_char_pos_is, lemma_split_pieces_lack_sep, lemma_join_split,
    lemma_join_append, lemma_replace_round_trip, border_free, lowers_to, ci_at, ci_find, char_lowers,
    ci_find_exec,
};
use crate::weburl::{parse_url, url_len_ok, url_parse, UrlView};

verus! {

// ── Data model ────────────────────────────────────────────────────────

/// A recorded workflow that can be replayed deterministically.
#[derive(Debug, Clone)]
pub struct Playbook {
    /// Human-readable name (e.g. `"github-login"`).
    pub name: String,
    /// `host[/segment[/segment]]` pattern matched against URLs.
    pub url_pattern: String,
    /// Ordered sequence of actions to replay.
    pub steps: Vec<PlaybookStep>,
    /// Parameter names expected in the goal.
    pub params: Vec<String>,
    /// Optional signal that the workflow succeeded.
    pub success: Option<SuccessSignal>,
}

/// A single step in a playbook.
#[derive(Debug, Clone)]
pub struct PlaybookStep {
    /// What kind of action to perform.
    pub kind: StepKind,
    /// Label-like selector matched against `SemanticView` elements.
    pub selector: String,
    /// Value to type/select. Supports `${param}` interpolation.
    pub value: Option<String>,
    /// Fallback selectors if the primary one doesn't match.
    pub fallbacks: Vec<String>,
}

/// The kind of action a playbook step performs.
#[derive(Debug, Clone, Copy, PartialEq, Eq, Structural)]
pub enum StepKind {
    /// Click an element.
    Click,
    /// Type text into an input.
    Type,
    /// Select an option from a dropdown.
    Select,
    /// Navigate to a URL.
    Navigate,
}

/// Signals that indicate the playbook workflow succeeded.
#[derive(Debug, Clone)]
pub struct SuccessSignal {
    /// URL must contain this substring.
    pub url_contains: Option<String>,
    /// Page title must contain this substring.
    pub title_contains: Option<String>,
}

// ── Parameters ────────────────────────────────────────────────────────

/// Parameter values by name, in insertion order, each name at most once.
#[derive(Debug, Clone)]
pub struct Params {
    entries: Vec<(String, String)>,
}

/// No key occurs twice.
pub open spec fn keys_distinct(s: Seq<(Seq<char>, Seq<char>)>) -> bool {
    forall|i: int, j: int| 0 <= i < j < s.len() ==> s[i].0 != s[j].0
}

/// Index of the entry with key `k`.
pub open spec fn key_index(s: Seq<(Seq<char>, Seq<char>)>, k: Seq<char>, i: nat) -> Option<nat>
    decreases s.len() - i,
{
    if i >= s.len() {
        None
    } else if s[i as int].0 == k {
        Some(i)
    } else {
        key_index(s, k, i + 1)
    }
}

/// The value stored under `k`.
pub open spec fn lookup(s: Seq<(Seq<char>, Seq<char>)>, k: Seq<char>) -> Option<Seq<char>> {
    match key_index(s, k, 0) {
        Some(i) => Some(s[i as int].1),
        None => None,
    }
}

/// `s` after storing `v` under `k`: an existing entry is overwritten in
/// place, a new key is appended.
pub open spec fn upsert(s: Seq<(Seq<char>, Seq<char>)>, k: Seq<char>, v: Seq<char>) -> Seq<
    (Seq<char>, Seq<char>),
> {
    match key_index(s, k, 0) {
        Some(i) => s.update(i as int, (k, v)),
        None => s.push((k, v)),
    }
}

proof fn lemma_key_index(s: Seq<(Seq<char>, Seq<char>)>, k: Seq<char>, i: nat)
    ensures
        match key_index(s, k, i) {
            Some(j) => i <= j < s.len() && s[j as int].0 == k && forall|m: int|
                i <= m < j ==> s[m].0 != k,
            None => forall|m: int| i <= m < s.len() ==> s[m].0 != k,
        },
    decreases s.len() - i,
{
    if i < s.len() && s[i as int].0 != k {
        lemma_key_index(s, k, i + 1);
    }
}

/// Storing a value keeps the keys distinct, and a lookup of the stored key
/// gives the stored value while other keys keep theirs.
pub proof fn lemma_upsert(s: Seq<(Seq<char>, Seq<char>)>, k: Seq<char>, v: Seq<char>, other: Seq<char>)
    requires
        keys_distinct(s),
    ensures
        keys_distinct(upsert(s, k, v)),
        lookup(upsert(s, k, v), k) == Some(v),
        other != k ==> lookup(upsert(s, k, v), other) == lookup(s, other),
{
    let t = upsert(s, k, v);
    lemma_key_index(s, k, 0);
    lemma_key_index(s, other, 0);
    lemma_key_index(t, k, 0);
    lemma_key_index(t, other, 0);
    match key_index(s, k, 0) {
        Some(i) => {
            assert(t[i as int].0 == k);
        },
        None => {
            assert(t[s.len() as int].0 == k);
        },
    }
    match key_index(t, other, 0) {
        Some(j) => {
            if other != k {
                assert(t[j as int] == s[j as int]);
            }
        },
        None => {},
    }
    match key_index(s, other, 0) {
        Some(j) => {
            if other != k {
                assert(t[j as int] == s[j as int]);
            }
        },
        None => {},
    }
}

impl View for Params {
    type V = Seq<(Seq<char>, Seq<char>)>;

    closed spec fn view(&self) -> Seq<(Seq<char>, Seq<char>)> {
        pair_views(self.entries@)
    }
}

impl Default for Params {
    fn default() -> (p: Self)
        ensures
            p@ == Seq::<(Seq<char>, Seq<char>)>::empty(),
    {
        Params::new()
    }
}

impl Params {
    /// No parameters.
    pub fn new() -> (p: Self)
        ensures
            p@ == Seq::<(Seq<char>, Seq<char>)>::empty(),
    {
        let p = Params { entries: Vec::new() };
        assert(p@ =~= Seq::<(Seq<char>, Seq<char>)>::empty());
        p
    }

    fn find(&self, key: &str) -> (r: Option<usize>)
        ensures
            match r {
                Some(i) => key_index(self@, key@, 0) == Some(i as nat) && i < self.entries@.len(),
                None => key_index(self@, key@, 0) is None,
            },
    {
        let mut i: usize = 0;
        while i < self.entries.len()
            invariant
                i <= self.entries@.len(),
                self@.len() == self.entries@.len(),
                key_index(self@, key@, 0) == key_index(self@, key@, i as nat),
            decreases self.entries@.len() - i,
        {
            assert(self@[i as int].0 == self.entries@[i as int].0@);
            if str_eq(self.entries[i].0.as_str(), key) {
                return Some(i);
            }
            i = i + 1;
        }
        None
    }

    /// Store `value` under `key`, replacing an earlier value.
    pub fn insert(&mut self, key: String, value: String)
        ensures
            final(self)@ == upsert(old(self)@, key@, value@),
    {
        match self.find(key.as_str()) {
            Some(i) => {
                let ghost before = self.entries@;
                let ghost pair = (key, value);
                self.entries.set(i, (key, value));
                assert(pair_views(self.entries@) =~= pair_views(before).update(
                    i as int,
                    (pair.0@, pair.1@),
                ));
            },
            None => {
                let ghost before = self.entries@;
                let ghost pair = (key, value);
                self.entries.push((key, value));
                assert(pair_views(self.entries@) =~= pair_views(before).push((pair.0@, pair.1@)));
            },
        }
    }

    /// The value stored under `key`.
    pub fn get(&self, key: &str) -> (r: Option<&String>)
        ensures
            match r {
                Some(v) => lookup(self@, key@) == Some(v@),
                None => lookup(self@, key@) is None,
            },
    {
        match self.find(key) {
            Some(i) => Some(&self.entries[i].1),
            None => None,
        }
    }

    /// Number of parameters.
    pub fn len(&self) -> (n: usize)
        ensures
            n == self@.len(),
    {
        self.entries.len()
    }

    /// Whether there are no parameters.
    pub fn is_empty(&self) -> (b: bool)
        ensures
            b == (self@.len() == 0),
    {
        self.entries.len() == 0
    }

    /// The (key, value) entries in insertion order.
    pub fn entries(&self) -> (r: &Vec<(String, String)>)
        ensures
            pair_views(r@) == self@,
    {
        &self.entries
    }
}

// ── Secret keys ───────────────────────────────────────────────────────

/// Pattern of param names that must be treated as secrets.
pub open spec fn secret_key_pattern() -> Seq<char> {
    "(?i)password|secret|token|api[_-]?key|credential|bearer"@
}

/// Whether the name matches the secret-key pattern (false when the pattern
/// fails to compile).
pub open spec fn secret_key(name: Seq<char>) -> bool {
    regex_match(secret_key_pattern(), name) == Some(true)
}

/// Returns `true` when the given param name looks like a secret and therefore
/// must be templatized when learning a playbook.
pub fn is_secret_key(name: &str) -> (b: bool)
    ensures
        b == secret_key(name@),
{
    match regex_is_match("(?i)password|secret|token|api[_-]?key|credential|bearer", name) {
        Some(m) => m,
        None => false,
    }
}

// ── Parameter interpolation ───────────────────────────────────────────

/// `${key}`.
pub open spec fn placeholder(key: Seq<char>) -> Seq<char> {
    "${"@ + key + "}"@
}

/// Replace the placeholders of the entries of `ps` in order.
pub open spec fn interpolated(t: Seq<char>, ps: Seq<(Seq<char>, Seq<char>)>) -> Seq<char>
    decreases ps.len(),
{
    if ps.len() == 0 {
        t
    } else {
        interpolated(replace_all(t, placeholder(ps[0].0), ps[0].1), ps.drop_first())
    }
}

fn placeholder_of(key: &str) -> (r: Vec<char>)
    ensures
        r@ == placeholder(key@),
        r@.len() > 0,
{
    let mut s = String::new();
    push_str(&mut s, "${");
    push_str(&mut s, key);
    push_str(&mut s, "}");
    proof {
        reveal_strlit("${");
        reveal_strlit("}");
    }
    assert(s@ =~= placeholder(key@));
    chars_of(s.as_str())
}

/// Replace `${param}` placeholders in a template string with the values of
/// the parameters, one parameter after the other in insertion order.
/// Placeholders of unknown params are left as they are.
pub fn interpolate(template: &str, params: &Params) -> (r: String)
    ensures
        r@ == interpolated(template@, params@),
{
    let entries = params.entries();
    let ghost ps = params@;
    let mut cur = chars_of(template);
    let mut i: usize = 0;
    assert(ps.skip(0) =~= ps);
    while i < entries.len()
        invariant
            pair_views(entries@) == ps,
            i <= entries@.len(),
            interpolated(cur@, ps.skip(i as int)) == interpolated(template@, ps),
        decreases entries@.len() - i,
    {
        let key = entries[i].0.as_str();
        let val = chars_of(entries[i].1.as_str());
        let ph = placeholder_of(key);
        proof {
            assert(ps.skip(i as int)[0] == (entries@[i as int].0@, entries@[i as int].1@));
            assert(ps.skip(i as int).drop_first() =~= ps.skip(i + 1));
        }
        cur = replace_all_exec(cur.as_slice(), ph.as_slice(), val.as_slice());
        i = i + 1;
    }
    assert(ps.skip(i as int) =~= Seq::<(Seq<char>, Seq<char>)>::empty());
    crate::text::string_of(cur.as_slice())
}

/// A template holding no placeholder of any parameter is returned as it is.
pub proof fn lemma_interpolate_without_placeholders(t: Seq<char>, ps: Seq<(Seq<char>, Seq<char>)>)
    requires
        forall|i: int| 0 <= i < ps.len() ==> !contains(t, #[trigger] placeholder(ps[i].0)),
    ensures
        interpolated(t, ps) == t,
    decreases ps.len(),
{
    if ps.len() > 0 {
        assert(!contains(t, placeholder(ps[0].0)));
        lemma_replace_absent(t, placeholder(ps[0].0), ps[0].1);
        let rest = ps.drop_first();
        assert forall|i: int| 0 <= i < rest.len() implies !contains(
            t,
            #[trigger] placeholder(rest[i].0),
        ) by {
            assert(rest[i] == ps[i + 1]);
        }
        lemma_interpolate_without_placeholders(t, rest);
    }
}

// ── Selector matching ─────────────────────────────────────────────────

/// Selector pass `pass` accepts element `e` for the lower-cased selector
/// `s`: 0 exact label, 1 label contains, 2 name, 3 input type (all compared
/// lower-cased).
pub open spec fn pass_accepts(pass: nat, e: Element, s: Seq<char>) -> bool {
    if pass == 0 {
        unicode_lower(e.label@) == s
    } else if pass == 1 {
        contains(unicode_lower(e.label@), s)
    } else if pass == 2 {
        e.name matches Some(n) && unicode_lower(n@) == s
    } else {
        e.input_type matches Some(t) && unicode_lower(t@) == s
    }
}

/// Id of the first element accepted by the pass.
pub open spec fn first_accepted(els: Seq<Element>, pass: nat, s: Seq<char>) -> Option<u32>
    decreases els.len(),
{
    if els.len() == 0 {
        None
    } else if pass_accepts(pass, els[0], s) {
        Some(els[0].id)
    } else {
        first_accepted(els.drop_first(), pass, s)
    }
}

/// Element matched by a selector: the first pass with an accepted element
/// decides.
pub open spec fn selector_target(els: Seq<Element>, selector: Seq<char>) -> Option<u32> {
    let s = unicode_lower(selector);
    match first_accepted(els, 0, s) {
        Some(id) => Some(id),
        None => match first_accepted(els, 1, s) {
            Some(id) => Some(id),
            None => match first_accepted(els, 2, s) {
                Some(id) => Some(id),
                None => first_accepted(els, 3, s),
            },
        },
    }
}

fn opt_lower_is(o: &Option<String>, s: &[char]) -> (b: bool)
    ensures
        b == (o matches Some(n) && unicode_lower(n@) == s@),
{
    match o {
        Some(n) => {
            let l = chars_of(to_lower(n.as_str()).as_str());
            crate::text::eq_chars(l.as_slice(), s)
        },
        None => false,
    }
}

fn run_pass(els: &Vec<Element>, pass: u8, s: &[char]) -> (r: Option<u32>)
    requires
        pass <= 3,
    ensures
        r == first_accepted(els@, pass as nat, s@),
{
    let mut i: usize = 0;
    assert(els@.skip(0) =~= els@);
    while i < els.len()
        invariant
            i <= els@.len(),
            pass <= 3,
            first_accepted(els@, pass as nat, s@) == first_accepted(
                els@.skip(i as int),
                pass as nat,
                s@,
            ),
        decreases els@.len() - i,
    {
        let e = &els[i];
        proof {
            assert(els@.skip(i as int)[0] == els@[i as int]);
            assert(els@.skip(i as int).drop_first() =~= els@.skip(i + 1));
        }
        let ok = if pass == 0 {
            let l = chars_of(to_lower(e.label.as_str()).as_str());
            crate::text::eq_chars(l.as_slice(), s)
        } else if pass == 1 {
            let l = chars_of(to_lower(e.label.as_str()).as_str());
            crate::text::contains_exec(l.as_slice(), s)
        } else if pass == 2 {
            opt_lower_is(&e.name, s)
        } else {
            opt_lower_is(&e.input_type, s)
        };
        if ok {
            return Some(e.id);
        }
        i = i + 1;
    }
    None
}

/// Find an element in the `SemanticView` that matches a selector string.
///
/// Matching strategy (in order of priority), all case-insensitive:
/// 1. Exact label match
/// 2. Label contains the selector
/// 3. Name attribute matches
/// 4. Input type matches (for selectors like `"password"`)
pub fn match_selector(view: &SemanticView, selector: &str) -> (r: Option<u32>)
    ensures
        r == selector_target(view.elements@, selector@),
{
    let sel_lower = chars_of(to_lower(selector).as_str());
    let s = sel_lower.as_slice();
    if let Some(id) = run_pass(&view.elements, 0, s) {
        return Some(id);
    }
    if let Some(id) = run_pass(&view.elements, 1, s) {
        return Some(id);
    }
    if let Some(id) = run_pass(&view.elements, 2, s) {
        return Some(id);
    }
    run_pass(&view.elements, 3, s)
}

/// Element found by a fallback selector: `name=X` finds the first element
/// whose `name` is `X` and `type=X` the first whose input type is `X` (both
/// ASCII and Unicode case-insensitive, as the selector passes are); any
/// other fallback is matched as a selector.
pub open spec fn fallback_target(els: Seq<Element>, f: Seq<char>) -> Option<u32> {
    if starts_with(f, "name="@) {
        first_accepted(els, 2, unicode_lower(f.skip(5)))
    } else if starts_with(f, "type="@) {
        first_accepted(els, 3, unicode_lower(f.skip(5)))
    } else {
        selector_target(els, f)
    }
}

/// Target of the first of `sels` that finds an element.
pub open spec fn first_target(els: Seq<Element>, sels: Seq<String>) -> Option<u32>
    decreases sels.len(),
{
    if sels.len() == 0 {
        None
    } else {
        match fallback_target(els, sels[0]@) {
            Some(id) => Some(id),
            None => first_target(els, sels.drop_first()),
        }
    }
}

/// Target of a step: its selector, then its fallbacks in order.
pub open spec fn step_target(els: Seq<Element>, step: PlaybookStep) -> Option<u32> {
    match selector_target(els, step.selector@) {
        Some(id) => Some(id),
        None => first_target(els, step.fallbacks@),
    }
}

/// The element a fallback selector finds.
fn match_fallback(view: &SemanticView, f: &str) -> (r: Option<u32>)
    ensures
        r == fallback_target(view.elements@, f@),
{
    proof {
        reveal_strlit("name=");
        reveal_strlit("type=");
    }
    let fv = chars_of(f);
    let name_p: Vec<char> = chars_of("name=");
    let type_p: Vec<char> = chars_of("type=");
    if starts_with_exec(fv.as_slice(), name_p.as_slice()) {
        let rest = string_of(slice_vec(fv.as_slice(), 5, fv.len()).as_slice());
        assert(rest@ =~= f@.skip(5));
        let l = chars_of(to_lower(rest.as_str()).as_str());
        return run_pass(&view.elements, 2, l.as_slice());
    }
    if starts_with_exec(fv.as_slice(), type_p.as_slice()) {
        let rest = string_of(slice_vec(fv.as_slice(), 5, fv.len()).as_slice());
        assert(rest@ =~= f@.skip(5));
        let l = chars_of(to_lower(rest.as_str()).as_str());
        return run_pass(&view.elements, 3, l.as_slice());
    }
    match_selector(view, f)
}

/// Try the selector, then the fallbacks in order (`name=`/`type=` fallbacks
/// by that attribute), and return the first element found.
pub fn match_step_selector(view: &SemanticView, step: &PlaybookStep) -> (r: Option<u32>)
    ensures
        r == step_target(view.elements@, *step),
{
    if let Some(id) = match_selector(view, step.selector.as_str()) {
        return Some(id);
    }
    let mut i: usize = 0;
    assert(step.fallbacks@.skip(0) =~= step.fallbacks@);
    while i < step.fallbacks.len()
        invariant
            i <= step.fallbacks@.len(),
            step_target(view.elements@, *step) == first_target(
                view.elements@,
                step.fallbacks@.skip(i as int),
            ),
        decreases step.fallbacks@.len() - i,
    {
        proof {
            assert(step.fallbacks@.skip(i as int)[0] == step.fallbacks@[i as int]);
            assert(step.fallbacks@.skip(i as int).drop_first() =~= step.fallbacks@.skip(i + 1));
        }
        if let Some(id) = match_fallback(view, step.fallbacks[i].as_str()) {
            return Some(id);
        }
        i = i + 1;
    }
    None
}

// ── URL patterns ──────────────────────────────────────────────────────

/// `current` starts with `prefix` (trailing slashes dropped) on a path
/// segment boundary; the prefix `/` matches every path.
pub open spec fn path_prefix_ok(current: Seq<char>, prefix: Seq<char>) -> bool {
    if prefix == "/"@ {
        true
    } else {
        let t = strip_trailing(prefix, '/');
        starts_with(current, t) && (current.len() == t.len() || current[t.len() as int] == '/')
    }
}

/// Does `current` start with `pattern_prefix` on a path-segment boundary?
///
/// `starts_with` alone would let a pattern like `/login` match
/// `/loginregister`; the match has to end at a `/` or at the end of the path.
fn path_prefix_matches(current: &str, pattern_prefix: &str) -> (b: bool)
    ensures
        b == path_prefix_ok(current@, pattern_prefix@),
{
    proof {
        reveal_strlit("/");
    }
    if str_eq(pattern_prefix, "/") {
        return true;
    }
    let pv = chars_of(pattern_prefix);
    let mut n = pv.len();
    assert(pv@.take(n as int) =~= pv@);
    while n > 0 && pv[n - 1] == '/'
        invariant
            n <= pv@.len(),
            strip_trailing(pv@, '/') == strip_trailing(pv@.take(n as int), '/'),
        decreases n,
    {
        proof {
            assert(pv@.take(n as int).drop_last() =~= pv@.take(n - 1));
        }
        n = n - 1;
    }
    assert(pv@.take(pv@.len() as int) =~= pv@);
    let t = slice_vec(pv.as_slice(), 0, n);
    assert(t@ == strip_trailing(pv@, '/'));
    let cv = chars_of(current);
    if !starts_with_exec(cv.as_slice(), t.as_slice()) {
        return false;
    }
    cv.len() == t.len() || cv[t.len()] == '/'
}

/// `host[/rest]` split into the host and `/rest` (`/` when there is no
/// path); `None` for an empty pattern or an empty host.
pub open spec fn split_pattern(p: Seq<char>) -> Option<(Seq<char>, Seq<char>)> {
    if p.len() == 0 {
        None
    } else {
        match char_pos(p, '/') {
            Some(i) => if i == 0 {
                None
            } else {
                Some((p.take(i as int), "/"@ + p.skip((i + 1) as int)))
            },
            None => Some((p, "/"@)),
        }
    }
}

/// Split a `host[/path_prefix]` pattern into `(host, path_prefix)` where the
/// path is `/` when no path is present.
fn split_url_pattern(pattern: &str) -> (r: Option<(String, String)>)
    ensures
        match r {
            Some((h, p)) => split_pattern(pattern@) == Some((h@, p@)),
            None => split_pattern(pattern@) is None,
        },
{
    let pv = chars_of(pattern);
    if pv.len() == 0 {
        return None;
    }
    proof {
        lemma_char_pos_from(pv@, '/', 0);
        reveal_strlit("/");
    }
    match char_pos_exec(pv.as_slice(), '/') {
        Some(i) => {
            if i == 0 {
                return None;
            }
            let host = string_of(slice_vec(pv.as_slice(), 0, i).as_slice());
            let rest = slice_vec(pv.as_slice(), i + 1, pv.len());
            let mut path = copy_str("/");
            push_chars(&mut path, rest.as_slice());
            assert(host@ =~= pv@.take(i as int));
            assert(path@ =~= "/"@ + pv@.skip((i + 1) as int));
            Some((host, path))
        },
        None => Some((copy_str(pattern), copy_str("/"))),
    }
}

/// The playbook applies to a page with this host and path: same host
/// (ASCII case-insensitive) and a path under the pattern's path.
pub open spec fn playbook_applies(pb: Playbook, host: Seq<char>, path: Seq<char>) -> bool {
    match split_pattern(pb.url_pattern@) {
        Some((h, pp)) => ascii_lower(host) == ascii_lower(h) && path_prefix_ok(path, pp),
        None => false,
    }
}

/// Index of the first playbook from `i` on that applies.
pub open spec fn first_applicable(pbs: Seq<Playbook>, host: Seq<char>, path: Seq<char>, i: nat) -> Option<nat>
    decreases pbs.len() - i,
{
    if i >= pbs.len() {
        None
    } else if playbook_applies(pbs[i as int], host, path) {
        Some(i)
    } else {
        first_applicable(pbs, host, path, i + 1)
    }
}

/// Index of the playbook chosen for a URL: none when the URL does not parse
/// or has no host.
pub open spec fn playbook_for(pbs: Seq<Playbook>, url: Seq<char>) -> Option<nat> {
    match url_parse(url) {
        Ok(u) => match u.host {
            Some(h) => first_applicable(pbs, h, u.path, 0),
            None => None,
        },
        Err(_) => None,
    }
}

fn eq_ignore_ascii_case(a: &str, b: &str) -> (r: bool)
    ensures
        r == (ascii_lower(a@) == ascii_lower(b@)),
{
    let av = chars_of(a);
    let bv = chars_of(b);
    let al = ascii_lower_exec(av.as_slice());
    let bl = ascii_lower_exec(bv.as_slice());
    eq_chars(al.as_slice(), bl.as_slice())
}

/// Find the first playbook whose `url_pattern` structurally matches the
/// given URL: same host (exact, ASCII case-insensitive) and a path starting
/// with the pattern's path on a segment boundary. When the URL does not
/// parse or has no host, nothing matches.
pub fn find_playbook<'a>(playbooks: &'a [Playbook], url: &str) -> (r: Option<&'a Playbook>)
    requires
        url_len_ok(url@),
    ensures
        match playbook_for(playbooks@, url@) {
            Some(i) => r matches Some(p) && i < playbooks@.len() && *p == playbooks@[i as int],
            None => r is None,
        },
{
    let current = match parse_url(url) {
        Ok(u) => u,
        Err(_) => return None,
    };
    let host = match &current.host {
        Some(h) => h,
        None => return None,
    };
    let mut i: usize = 0;
    while i < playbooks.len()
        invariant
            i <= playbooks@.len(),
            url_parse(url@) == Ok::<UrlView, Seq<char>>(current@),
            current.host == Some(*host),
            playbook_for(playbooks@, url@) == first_applicable(
                playbooks@,
                host@,
                current.path@,
                i as nat,
            ),
        decreases playbooks@.len() - i,
    {
        let pb = &playbooks[i];
        let applies = match split_url_pattern(pb.url_pattern.as_str()) {
            Some((ph, pp)) => eq_ignore_ascii_case(host.as_str(), ph.as_str())
                && path_prefix_matches(current.path.as_str(), pp.as_str()),
            None => false,
        };
        if applies {
            return Some(pb);
        }
        i = i + 1;
    }
    None
}

/// The non-empty pieces, in order.
pub open spec fn nonempty_only(parts: Seq<Seq<char>>) -> Seq<Seq<char>>
    decreases parts.len(),
{
    if parts.len() == 0 {
        seq![]
    } else if parts.last().len() == 0 {
        nonempty_only(parts.drop_last())
    } else {
        nonempty_only(parts.drop_last()).push(parts.last())
    }
}

/// At most the first `n` items.
pub open spec fn at_most<T>(s: Seq<T>, n: nat) -> Seq<T> {
    if s.len() <= n {
        s
    } else {
        s.take(n as int)
    }
}

/// `Url::path_segments`: the pieces of a path that starts with `/`, split
/// at `/`; none for any other path.
pub open spec fn path_segments(path: Seq<char>) -> Seq<Seq<char>> {
    if path.len() > 0 && path[0] == '/' {
        split_char(path.skip(1), '/')
    } else {
        seq![]
    }
}

/// `host` plus up to two non-empty path segments of a URL, or the reason it
/// has none.
pub open spec fn url_pattern_of(url: Seq<char>) -> Result<Seq<char>, Seq<char>> {
    if url.len() == 0 {
        Err("empty url"@)
    } else {
        match url_parse(url) {
            Err(e) => Err(e),
            Ok(u) => match u.host {
                None => Err("no host in "@ + url),
                Some(h) => {
                    let segs = at_most(nonempty_only(path_segments(u.path)), 2);
                    if segs.len() == 0 {
                        Ok(h)
                    } else {
                        Ok(h + "/"@ + join(segs, "/"@))
                    }
                },
            },
        }
    }
}

/// The path segments that a URL pattern keeps: the first two non-empty ones.
pub open spec fn kept_segments(path: Seq<char>) -> Seq<Seq<char>> {
    at_most(nonempty_only(path_segments(path)), 2)
}

/// Every piece that `nonempty_only` keeps is non-empty.
proof fn lemma_nonempty_only_pieces(parts: Seq<Seq<char>>)
    ensures
        nonempty_only(parts).len() <= parts.len(),
        forall|i: int| 0 <= i < nonempty_only(parts).len() ==> #[trigger] nonempty_only(parts)[i].len()
            > 0,
    decreases parts.len(),
{
    if parts.len() > 0 {
        let front = parts.drop_last();
        lemma_nonempty_only_pieces(front);
        if parts.last().len() > 0 {
            let r = nonempty_only(parts);
            assert(r == nonempty_only(front).push(parts.last()));
            assert forall|i: int| 0 <= i < r.len() implies #[trigger] r[i].len() > 0 by {
                if i < nonempty_only(front).len() {
                    assert(r[i] == nonempty_only(front)[i]);
                }
            }
        }
    }
}

/// A playbook that applies at `k` makes the search find one at or before `k`.
proof fn lemma_first_applicable_found(pbs: Seq<Playbook>, host: Seq<char>, path: Seq<char>, i: nat, k: nat)
    requires
        i <= k < pbs.len(),
        playbook_applies(pbs[k as int], host, path),
    ensures
        first_applicable(pbs, host, path, i) matches Some(j) && i <= j <= k,
    decreases k - i,
{
    if i < k && !playbook_applies(pbs[i as int], host, path) {
        lemma_first_applicable_found(pbs, host, path, i + 1, k);
    }
}

/// The URL parses to a non-empty host without `/`, and its path has no
/// empty segment before the ones a URL pattern keeps (on `/a//b` the pattern
/// keeps `a/b`, which `/a//b` does not start with).
pub open spec fn pattern_shaped(url: Seq<char>) -> bool {
    match url_parse(url) {
        Ok(u) => match u.host {
            Some(h) => h.len() > 0 && !has_char(h, '/') && path_segments(u.path).take(
                kept_segments(u.path).len() as int,
            ) == kept_segments(u.path),
            None => false,
        },
        Err(_) => false,
    }
}

/// A playbook learned from a URL is found again for that URL: when the
/// pattern derived from `url` is `pbs[k]`'s pattern, the search for `url`
/// picks a playbook, `pbs[k]` or one listed before it.
pub proof fn lemma_learned_pattern_matches_its_url(pbs: Seq<Playbook>, k: nat, url: Seq<char>)
    requires
        k < pbs.len(),
        pattern_shaped(url),
        url_pattern_of(url) == Ok::<Seq<char>, Seq<char>>(pbs[k as int].url_pattern@),
    ensures
        playbook_for(pbs, url) matches Some(j) && j <= k,
{
    reveal_strlit("/");
    let u = url_parse(url)->Ok_0;
    let h = u.host->Some_0;
    let path = u.path;
    let segs = path_segments(path);
    let kept = kept_segments(path);
    let p = pbs[k as int].url_pattern@;
    lemma_char_pos_from(h, '/', 0);
    if kept.len() == 0 {
        assert(p == h);
        assert(split_pattern(p) == Some((h, "/"@)));
    } else {
        assert(path.len() > 0 && path[0] == '/');
        lemma_split_pieces_lack_sep(path.skip(1), '/');
        lemma_nonempty_only_pieces(path_segments(path));
        let jk = join(kept, "/"@);
        assert(p == h + "/"@ + jk);
        lemma_char_pos_is(p, '/', h.len() as int);
        let pp = "/"@ + jk;
        assert(p.take(h.len() as int) =~= h);
        assert(p.skip((h.len() + 1) as int) =~= jk);
        assert(split_pattern(p) == Some((h, pp)));
        // the kept segments are the path's first segments
        assert forall|i: int| 0 <= i < kept.len() implies kept[i] == segs[i] by {
            assert(segs.take(kept.len() as int)[i] == segs[i]);
        }
        // the joined text ends with the last kept segment's last character
        assert(kept.last().len() > 0);
        if kept.len() == 1 {
            assert(jk == kept[0]);
        } else {
            assert(jk == join(kept.drop_last(), "/"@) + "/"@ + kept.last());
        }
        assert(jk.len() > 0 && jk.last() == kept.last().last());
        assert(kept.last().last() == segs[kept.len() - 1][kept.last().len() - 1]);
        assert(pp.last() != '/');
        assert(strip_trailing(pp, '/') == pp);
        assert(pp.len() >= 2);
        assert(pp != "/"@);
        // the path is '/' and its segments joined
        lemma_join_split(path.skip(1), '/');
        assert(seq!['/'] == "/"@);
        assert(path =~= "/"@ + join(segs, "/"@));
        let rest = segs.skip(kept.len() as int);
        assert(segs =~= kept + rest);
        if rest.len() == 0 {
            assert(join(segs, "/"@) == jk);
            assert(path =~= pp);
            assert(path.subrange(0, pp.len() as int) =~= pp);
        } else {
            lemma_join_append(kept, rest, "/"@);
            assert(path =~= pp + "/"@ + join(rest, "/"@));
            assert(path.subrange(0, pp.len() as int) =~= pp);
            assert(path[pp.len() as int] == '/');
        }
        assert(starts_with(path, strip_trailing(pp, '/')));
        assert(path_prefix_ok(path, pp));
    }
    assert(playbook_applies(pbs[k as int], h, path));
    lemma_first_applicable_found(pbs, h, path, 0, k);
}

fn nonempty_exec(parts: &Vec<Vec<char>>) -> (r: Vec<String>)
    ensures
        string_views(r@) == nonempty_only(views(parts@)),
{
    let mut r: Vec<String> = Vec::new();
    let mut i: usize = 0;
    while i < parts.len()
        invariant
            i <= parts@.len(),
            string_views(r@) == nonempty_only(views(parts@).take(i as int)),
        decreases parts@.len() - i,
    {
        proof {
            assert(views(parts@).take(i + 1).drop_last() =~= views(parts@).take(i as int));
            assert(views(parts@).take(i + 1).last() == parts@[i as int]@);
        }
        if parts[i].len() > 0 {
            let s = string_of(parts[i].as_slice());
            let ghost before = r@;
            r.push(s);
            assert(string_views(r@) =~= string_views(before).push(s@));
        }
        i = i + 1;
    }
    assert(views(parts@).take(parts@.len() as int) =~= views(parts@));
    r
}

/// Extract `host + up to two path segments` from a URL, e.g.
/// `https://github.com/owner/repo/settings?x=1` -> `github.com/owner/repo`.
/// When the path is empty the pattern is just the host.
pub fn derive_url_pattern(url: &str) -> (r: Result<String, SynthesizeError>)
    requires
        url_len_ok(url@),
    ensures
        match r {
            Ok(p) => url_pattern_of(url@) == Ok::<Seq<char>, Seq<char>>(p@),
            Err(e) => e matches SynthesizeError::InvalidUrl(m) && url_pattern_of(url@) == Err::<
                Seq<char>,
                Seq<char>,
            >(m@),
        },
{
    proof {
        reveal_strlit("empty url");
        reveal_strlit("no host in ");
        reveal_strlit("/");
    }
    if url.is_empty() {
        return Err(SynthesizeError::InvalidUrl(copy_str("empty url")));
    }
    let parsed = match parse_url(url) {
        Ok(u) => u,
        Err(e) => return Err(SynthesizeError::InvalidUrl(e)),
    };
    let host = match &parsed.host {
        Some(h) => h,
        None => {
            let mut m = copy_str("no host in ");
            push_str(&mut m, url);
            return Err(SynthesizeError::InvalidUrl(m));
        },
    };
    let pv = chars_of(parsed.path.as_str());
    let pieces: Vec<Vec<char>> = if pv.len() > 0 && pv[0] == '/' {
        let rest = slice_vec(pv.as_slice(), 1, pv.len());
        assert(rest@ =~= pv@.skip(1));
        split_char_exec(rest.as_slice(), '/')
    } else {
        let e: Vec<Vec<char>> = Vec::new();
        assert(views(e@) =~= Seq::<Seq<char>>::empty());
        e
    };
    let segs = nonempty_exec(&pieces);
    let mut out = copy_str(host.as_str());
    if segs.len() == 0 {
        return Ok(out);
    }
    push_str(&mut out, "/");
    let shown: Vec<String> = if segs.len() > 2 {
        let mut v: Vec<String> = Vec::new();
        v.push(segs[0].clone());
        v.push(segs[1].clone());
        assert(string_views(v@) =~= string_views(segs@).take(2));
        v
    } else {
        segs
    };
    let joined = join_strings(shown.as_slice(), "/");
    push_str(&mut out, joined.as_str());
    Ok(out)
}

// ── Names ─────────────────────────────────────────────────────────────

/// Error returned by [`synthesize_from_history`] when a run cannot be turned
/// into a replayable playbook.
#[derive(Debug)]
pub enum SynthesizeError {
    /// The history contains no steps at all.
    EmptyHistory,
    /// The run did not end with a successful `Done` action.
    NoCompletion,
    /// The run ended with a `Done` whose `result.success` was `false` or
    /// missing.
    RunNotSuccessful,
    /// The initial URL could not be parsed into a `host + path` pattern.
    InvalidUrl(String),
    /// No explicit name was supplied and the goal was too empty to derive one.
    NameDerivationFailed,
    /// The playbook name contained unsafe characters or was too long.
    InvalidName {
        /// The offending name.
        name: String,
        /// Why it was rejected.
        reason: String,
    },
    /// A secret-like param was not substituted into any captured step.
    SecretNotTemplatized {
        /// The param key whose value was not templatized.
        key: String,
    },
}

/// Why a playbook name is unsafe as a file name, if it is.
pub open spec fn name_problem(name: Seq<char>) -> Option<Seq<char>> {
    if name.len() == 0 {
        Some("name is empty"@)
    } else if utf8_size(name) > 128 {
        Some("name exceeds 128 chars"@)
    } else if name[0] == '.' {
        Some("name starts with '.' (dotfile/parent traversal)"@)
    } else if contains(name, ".."@) {
        Some("name contains '..'"@)
    } else if has_char(name, '/') {
        Some("name contains '/'"@)
    } else if has_char(name, '\\') {
        Some("name contains '\\'"@)
    } else if has_char(name, '\0') {
        Some("name contains NUL"@)
    } else if exists|i: int| 0 <= i < name.len() && is_ctrl(name[i]) {
        Some("name contains a control character"@)
    } else {
        None
    }
}

fn invalid_name(name: &str, reason: &str) -> (e: SynthesizeError)
    ensures
        e matches SynthesizeError::InvalidName { name: n, reason: r } && n@ == name@ && r@
            == reason@,
{
    SynthesizeError::InvalidName { name: copy_str(name), reason: copy_str(reason) }
}

/// Is the UTF-8 encoding of `s` longer than `limit` bytes?
fn utf8_longer_than(s: &[char], limit: usize) -> (b: bool)
    ensures
        b == (utf8_size(s@) > limit),
{
    let mut total: usize = 0;
    let mut i: usize = 0;
    while i < s.len()
        invariant
            i <= s@.len(),
            total == utf8_size(s@.take(i as int)),
            total <= limit,
        decreases s@.len() - i,
    {
        proof {
            assert(s@.take(i + 1).drop_last() =~= s@.take(i as int));
            lemma_utf8_size_prefix(s@, (i + 1) as nat);
        }
        let w = utf8_len_exec(s[i]);
        if w > limit - total {
            proof {
                lemma_utf8_size_prefix(s@, s@.len());
                assert(s@.take(s@.len() as int) =~= s@);
            }
            return true;
        }
        total = total + w;
        i = i + 1;
    }
    assert(s@.take(s@.len() as int) =~= s@);
    false
}

/// Validate a playbook name used as a file name component: reject empty or
/// oversized names, dotfiles, `..`, slashes, backslashes, NUL and control
/// characters.
pub fn validate_playbook_name(name: &str) -> (r: Result<(), SynthesizeError>)
    ensures
        match r {
            Ok(()) => name_problem(name@) is None,
            Err(e) => e matches SynthesizeError::InvalidName { name: n, reason } && n@ == name@
                && name_problem(name@) == Some(reason@),
        },
{
    let v = chars_of(name);
    let s = v.as_slice();
    if s.len() == 0 {
        return Err(invalid_name(name, "name is empty"));
    }
    if utf8_longer_than(s, 128) {
        return Err(invalid_name(name, "name exceeds 128 chars"));
    }
    if s[0] == '.' {
        return Err(invalid_name(name, "name starts with '.' (dotfile/parent traversal)"));
    }
    if has(s, "..") {
        return Err(invalid_name(name, "name contains '..'"));
    }
    if has_char_exec(s, '/') {
        return Err(invalid_name(name, "name contains '/'"));
    }
    if has_char_exec(s, '\\') {
        return Err(invalid_name(name, "name contains '\\'"));
    }
    if has_char_exec(s, '\0') {
        return Err(invalid_name(name, "name contains NUL"));
    }
    if has_ctrl(s) {
        return Err(invalid_name(name, "name contains a control character"));
    }
    Ok(())
}

fn has_ctrl(s: &[char]) -> (b: bool)
    ensures
        b == exists|i: int| 0 <= i < s@.len() && is_ctrl(s@[i]),
{
    let mut i: usize = 0;
    while i < s.len()
        invariant
            i <= s@.len(),
            forall|j: int| 0 <= j < i ==> !is_ctrl(s@[j]),
        decreases s@.len() - i,
    {
        if is_ctrl_exec(s[i]) {
            assert(is_ctrl(s@[i as int]));
            return true;
        }
        i = i + 1;
    }
    false
}

/// `w` reduced to its ASCII letters and digits, lower-cased.
pub open spec fn alnum_lower(w: Seq<char>) -> Seq<char>
    decreases w.len(),
{
    if w.len() == 0 {
        seq![]
    } else if is_ascii_alnum(w.last()) {
        alnum_lower(w.drop_last()).push(ascii_lower_char(w.last()))
    } else {
        alnum_lower(w.drop_last())
    }
}

/// The name derived from a goal: its first three words that keep some ASCII
/// letter or digit, reduced to those and lower-cased, joined with `_`.
pub open spec fn goal_name(goal: Seq<char>) -> Option<Seq<char>> {
    let tokens = at_most(
        nonempty_only(words(goal).map_values(|w: Seq<char>| alnum_lower(w))),
        3,
    );
    if tokens.len() == 0 {
        None
    } else {
        Some(join(tokens, "_"@))
    }
}

fn alnum_lower_exec(w: &[char]) -> (r: Vec<char>)
    ensures
        r@ == alnum_lower(w@),
{
    let mut r: Vec<char> = Vec::new();
    let mut i: usize = 0;
    while i < w.len()
        invariant
            i <= w@.len(),
            r@ == alnum_lower(w@.take(i as int)),
        decreases w@.len() - i,
    {
        proof {
            assert(w@.take(i + 1).drop_last() =~= w@.take(i as int));
        }
        let c = w[i];
        if ('A' <= c && c <= 'Z') || ('a' <= c && c <= 'z') || ('0' <= c && c <= '9') {
            r.push(ascii_lower_char_exec(c));
        }
        i = i + 1;
    }
    assert(w@.take(w@.len() as int) =~= w@);
    r
}

/// Derive a playbook name from the goal: the first three alphanumeric
/// words, lowercase, joined with underscores; `None` when there is none.
fn derive_name_from_goal(goal: &str) -> (r: Option<String>)
    ensures
        match r {
            Some(n) => goal_name(goal@) == Some(n@),
            None => goal_name(goal@) is None,
        },
{
    let gv = chars_of(goal);
    let ws = words_exec(gv.as_slice());
    let mut lowered: Vec<Vec<char>> = Vec::new();
    let mut i: usize = 0;
    while i < ws.len()
        invariant
            i <= ws@.len(),
            views(lowered@) == views(ws@).take(i as int).map_values(
                |w: Seq<char>| alnum_lower(w),
            ),
        decreases ws@.len() - i,
    {
        let l = alnum_lower_exec(ws[i].as_slice());
        let ghost before = lowered@;
        lowered.push(l);
        proof {
            assert(views(lowered@) =~= views(before).push(l@));
            assert(views(ws@).take(i + 1) =~= views(ws@).take(i as int).push(ws@[i as int]@));
            assert(views(lowered@) =~= views(ws@).take(i + 1).map_values(
                |w: Seq<char>| alnum_lower(w),
            ));
        }
        i = i + 1;
    }
    assert(views(ws@).take(ws@.len() as int) =~= views(ws@));
    let kept = nonempty_exec(&lowered);
    if kept.len() == 0 {
        return None;
    }
    let shown: Vec<String> = if kept.len() > 3 {
        let mut v: Vec<String> = Vec::new();
        v.push(kept[0].clone());
        v.push(kept[1].clone());
        v.push(kept[2].clone());
        assert(string_views(v@) =~= string_views(kept@).take(3));
        v
    } else {
        kept
    };
    Some(join_strings(shown.as_slice(), "_"))
}

// ── Selectors for recorded steps ──────────────────────────────────────

/// The first element with the given id.
pub open spec fn element_with_id(els: Seq<Element>, id: u32) -> Option<Element>
    decreases els.len(),
{
    if els.len() == 0 {
        None
    } else if els[0].id == id {
        Some(els[0])
    } else {
        element_with_id(els.drop_first(), id)
    }
}

/// The string is present and not blank.
pub open spec fn filled(o: Option<String>) -> bool {
    o matches Some(s) && trim(s@).len() > 0
}

/// Primary selector and fallbacks recorded for an element: the label (else
/// the name, else the input type) first, then `name=…` and `type=…` for
/// the attributes present, non-blank and different from the primary.
pub open spec fn selector_with_fallbacks(e: Element) -> Option<(Seq<char>, Seq<Seq<char>>)> {
    let label_ok = trim(e.label@).len() > 0;
    let name_ok = filled(e.name);
    let primary: Option<Seq<char>> = if label_ok {
        Some(e.label@)
    } else if name_ok {
        Some(e.name.unwrap()@)
    } else {
        match e.input_type {
            Some(t) => Some(t@),
            None => None,
        }
    };
    match primary {
        None => None,
        Some(p) => {
            let by_name = if label_ok && name_ok {
                seq!["name="@ + e.name.unwrap()@]
            } else if name_ok && p != e.name.unwrap()@ {
                seq!["name="@ + e.name.unwrap()@]
            } else {
                seq![]
            };
            let by_type = if filled(e.input_type) && p != e.input_type.unwrap()@ {
                seq!["type="@ + e.input_type.unwrap()@]
            } else {
                seq![]
            };
            Some((p, by_name + by_type))
        },
    }
}

/// The selector of the element with the given id, if there is one.
pub open spec fn selector_for(els: Seq<Element>, id: u32) -> Option<(Seq<char>, Seq<Seq<char>>)> {
    match element_with_id(els, id) {
        Some(e) => selector_with_fallbacks(e),
        None => None,
    }
}

fn filled_exec(o: &Option<String>) -> (b: bool)
    ensures
        b == filled(*o),
{
    match o {
        Some(s) => {
            let v = chars_of(s.as_str());
            trim_exec(v.as_slice()).len() > 0
        },
        None => false,
    }
}

fn prefixed(pre: &str, s: &str) -> (r: String)
    ensures
        r@ == pre@ + s@,
{
    let mut r = copy_str(pre);
    push_str(&mut r, s);
    r
}

fn index_with_id(els: &Vec<Element>, id: u32) -> (r: Option<usize>)
    ensures
        match r {
            Some(i) => i < els@.len() && element_with_id(els@, id) == Some(els@[i as int]),
            None => element_with_id(els@, id) is None,
        },
{
    let mut i: usize = 0;
    assert(els@.skip(0) =~= els@);
    while i < els.len()
        invariant
            i <= els@.len(),
            element_with_id(els@, id) == element_with_id(els@.skip(i as int), id),
        decreases els@.len() - i,
    {
        assert(els@.skip(i as int)[0] == els@[i as int]);
        if els[i].id == id {
            return Some(i);
        }
        proof {
            assert(els@.skip(i as int).drop_first() =~= els@.skip(i + 1));
        }
        i = i + 1;
    }
    assert(els@.skip(i as int) =~= Seq::<Element>::empty());
    None
}

/// Primary selector plus observable-attribute fallbacks (`name=X`,
/// `type=X`) for the element with the given id.
pub fn element_selector_with_fallbacks(view: &SemanticView, element_id: u32) -> (r: Option<
    (String, Vec<String>),
>)
    ensures
        match r {
            Some((p, f)) => selector_for(view.elements@, element_id) == Some(
                (p@, string_views(f@)),
            ),
            None => selector_for(view.elements@, element_id) is None,
        },
{
    let i = match index_with_id(&view.elements, element_id) {
        Some(i) => i,
        None => return None,
    };
    let el = &view.elements[i];
    let lv = chars_of(el.label.as_str());
    let label_ok = trim_exec(lv.as_slice()).len() > 0;
    let name_ok = filled_exec(&el.name);
    let primary = if label_ok {
        el.label.clone()
    } else if name_ok {
        match &el.name {
            Some(n) => n.clone(),
            None => String::new(),
        }
    } else {
        match &el.input_type {
            Some(t) => t.clone(),
            None => return None,
        }
    };
    proof {
        reveal_strlit("name=");
        reveal_strlit("type=");
    }
    let mut fallbacks: Vec<String> = Vec::new();
    match &el.name {
        Some(n) => {
            if label_ok && name_ok {
                fallbacks.push(prefixed("name=", n.as_str()));
            } else if name_ok && !str_eq(primary.as_str(), n.as_str()) {
                fallbacks.push(prefixed("name=", n.as_str()));
            }
        },
        None => {},
    }
    let ghost mid = fallbacks@;
    match &el.input_type {
        Some(t) => {
            if filled_exec(&el.input_type) && !str_eq(primary.as_str(), t.as_str()) {
                let f = prefixed("type=", t.as_str());
                fallbacks.push(f);
                assert(string_views(fallbacks@) =~= string_views(mid).push(f@));
            }
        },
        None => {},
    }
    assert(string_views(fallbacks@) =~= selector_with_fallbacks(*el).unwrap().1);
    Some((primary, fallbacks))
}

// ── Templatizing recorded values ──────────────────────────────────────

/// A recorded value after the first `n` parameters were templatized: each
/// nonempty parameter value is replaced by `${key}`.
pub open spec fn templ_state(raw: Seq<char>, ps: Seq<(Seq<char>, Seq<char>)>, n: nat) -> Seq<char>
    decreases n,
{
    if n == 0 || n > ps.len() {
        raw
    } else {
        let prev = templ_state(raw, ps, (n - 1) as nat);
        let (k, v) = ps[n - 1];
        if v.len() == 0 {
            prev
        } else {
            replace_all(prev, v, placeholder(k))
        }
    }
}

/// The recorded value with every parameter templatized.
pub open spec fn templatized(raw: Seq<char>, ps: Seq<(Seq<char>, Seq<char>)>) -> Seq<char> {
    templ_state(raw, ps, ps.len())
}

/// Parameter `i` changed the value when it was templatized.
pub open spec fn substituted(raw: Seq<char>, ps: Seq<(Seq<char>, Seq<char>)>, i: int) -> bool {
    let prev = templ_state(raw, ps, i as nat);
    ps[i].1.len() > 0 && replace_all(prev, ps[i].1, placeholder(ps[i].0)) != prev
}

/// A placeholder whose key holds no `}` has no border: a proper prefix
/// ends before the placeholder's only `}`, which ends every suffix.
pub proof fn lemma_placeholder_border_free(key: Seq<char>)
    requires
        !has_char(key, '}'),
    ensures
        border_free(placeholder(key)),
{
    reveal_strlit("${");
    reveal_strlit("}");
    let q = placeholder(key);
    assert forall|m: int| 0 < m < q.len() implies #[trigger] q.take(m) != q.skip(q.len() - m) by {
        assert(q.skip(q.len() - m)[m - 1] == '}');
        if q.take(m) == q.skip(q.len() - m) {
            assert(q.take(m)[m - 1] == q[m - 1]);
            if m - 1 >= 2 {
                assert(q[m - 1] == key[m - 3]);
            }
        }
    }
}

/// Templatizing a recorded value with a parameter and interpolating the
/// result with the same parameter gives the value back, when the value
/// holds no `${key}` of its own and that placeholder has no border (no
/// proper prefix that is also a suffix; see
/// [`lemma_placeholder_border_free`]).
pub proof fn lemma_interpolate_undoes_templatize(raw: Seq<char>, key: Seq<char>, value: Seq<char>)
    requires
        !contains(raw, placeholder(key)),
        border_free(placeholder(key)),
    ensures
        interpolated(templatized(raw, seq![(key, value)]), seq![(key, value)]) == raw,
{
    reveal_strlit("${");
    reveal_strlit("}");
    let ps = seq![(key, value)];
    let q = placeholder(key);
    assert(templ_state(raw, ps, 0) == raw);
    if value.len() == 0 {
        assert(templatized(raw, ps) == raw);
        lemma_replace_absent(raw, q, value);
    } else {
        assert(templatized(raw, ps) == replace_all(raw, value, q));
        lemma_replace_round_trip(raw, value, q);
    }
    assert(ps.drop_first() =~= Seq::<(Seq<char>, Seq<char>)>::empty());
    assert(interpolated(templatized(raw, ps), ps) == interpolated(
        replace_all(templatized(raw, ps), q, value),
        ps.drop_first(),
    ));
}

/// Replace any occurrence of each parameter value in `raw` with `${key}`,
/// recording in `hits` which parameters substituted at least once.
fn templatize_tracking(raw: &str, params: &Params, hits: &mut Vec<bool>) -> (r: String)
    requires
        old(hits)@.len() == params@.len(),
    ensures
        r@ == templatized(raw@, params@),
        final(hits)@.len() == params@.len(),
        forall|i: int| 0 <= i < params@.len() ==> final(hits)@[i] == (old(hits)@[i] || substituted(
            raw@,
            params@,
            i,
        )),
{
    let entries = params.entries();
    let ghost ps = params@;
    let mut out = chars_of(raw);
    let mut i: usize = 0;
    while i < entries.len()
        invariant
            pair_views(entries@) == ps,
            i <= entries@.len(),
            out@ == templ_state(raw@, ps, i as nat),
            hits@.len() == ps.len(),
            forall|j: int| 0 <= j < i ==> hits@[j] == (old(hits)@[j] || substituted(raw@, ps, j)),
            forall|j: int| i <= j < ps.len() ==> hits@[j] == old(hits)@[j],
        decreases entries@.len() - i,
    {
        let key = entries[i].0.as_str();
        let value = chars_of(entries[i].1.as_str());
        assert(ps[i as int] == (entries@[i as int].0@, entries@[i as int].1@));
        if value.len() > 0 {
            let ph = placeholder_of(key);
            let replaced = replace_all_exec(out.as_slice(), value.as_slice(), ph.as_slice());
            if !eq_chars(replaced.as_slice(), out.as_slice()) {
                hits.set(i, true);
                out = replaced;
            }
        }
        i = i + 1;
    }
    crate::text::string_of(out.as_slice())
}

// ── Success signal ────────────────────────────────────────────────────

impl View for SuccessSignal {
    type V = (Option<Seq<char>>, Option<Seq<char>>);

    open spec fn view(&self) -> (Option<Seq<char>>, Option<Seq<char>>) {
        (opt_view(self.url_contains), opt_view(self.title_contains))
    }
}

/// Success signal derived from the final view: the initial URL's host when
/// the final URL contains it and differs from the initial URL, and the
/// title when it is not blank; `None` when neither applies.
pub open spec fn success_of(final_url: Seq<char>, title: Seq<char>, initial_url: Seq<char>) -> Option<
    (Option<Seq<char>>, Option<Seq<char>>),
> {
    let host: Option<Seq<char>> = match url_parse(initial_url) {
        Ok(u) => u.host,
        Err(_) => None,
    };
    let url_contains = match host {
        Some(h) => if contains(final_url, h) && final_url != initial_url {
            Some(h)
        } else {
            None
        },
        None => None,
    };
    let title_contains = if trim(title).len() == 0 {
        None
    } else {
        Some(title)
    };
    if url_contains is None && title_contains is None {
        None
    } else {
        Some((url_contains, title_contains))
    }
}

/// Derive a [`SuccessSignal`] from the final view URL and title, when
/// either differs usefully from the initial URL.
fn derive_success(final_view: &SemanticView, initial_url: &str) -> (r: Option<SuccessSignal>)
    requires
        url_len_ok(initial_url@),
    ensures
        match r {
            Some(s) => success_of(final_view.url@, final_view.title@, initial_url@) == Some(s@),
            None => success_of(final_view.url@, final_view.title@, initial_url@) is None,
        },
{
    let host: Option<String> = match parse_url(initial_url) {
        Ok(u) => u.host,
        Err(_) => None,
    };
    let url_contains = match host {
        Some(h) => {
            let cur = chars_of(final_view.url.as_str());
            let hv = chars_of(h.as_str());
            if contains_exec(cur.as_slice(), hv.as_slice()) && !str_eq(
                final_view.url.as_str(),
                initial_url,
            ) {
                Some(h)
            } else {
                None
            }
        },
        None => None,
    };
    let tv = chars_of(final_view.title.as_str());
    let title_contains = if trim_exec(tv.as_slice()).len() == 0 {
        None
    } else {
        Some(final_view.title.clone())
    };
    if url_contains.is_none() && title_contains.is_none() {
        None
    } else {
        Some(SuccessSignal { url_contains, title_contains })
    }
}

// ── Models ────────────────────────────────────────────────────────────

/// Model of a [`PlaybookStep`].
pub struct StepView {
    pub kind: StepKind,
    pub selector: Seq<char>,
    pub value: Option<Seq<char>>,
    pub fallbacks: Seq<Seq<char>>,
}

impl View for PlaybookStep {
    type V = StepView;

    open spec fn view(&self) -> StepView {
        StepView {
            kind: self.kind,
            selector: self.selector@,
            value: opt_view(self.value),
            fallbacks: string_views(self.fallbacks@),
        }
    }
}

/// Models of a sequence of steps.
pub open spec fn step_views(s: Seq<PlaybookStep>) -> Seq<StepView> {
    s.map_values(|st: PlaybookStep| st@)
}

/// Model of a [`Playbook`].
pub struct PlaybookView {
    pub name: Seq<char>,
    pub url_pattern: Seq<char>,
    pub steps: Seq<StepView>,
    pub params: Seq<Seq<char>>,
    pub success: Option<(Option<Seq<char>>, Option<Seq<char>>)>,
}

impl View for Playbook {
    type V = PlaybookView;

    open spec fn view(&self) -> PlaybookView {
        PlaybookView {
            name: self.name@,
            url_pattern: self.url_pattern@,
            steps: step_views(self.steps@),
            params: string_views(self.params@),
            success: match self.success {
                Some(s) => Some(s@),
                None => None,
            },
        }
    }
}

/// Model of a [`SynthesizeError`].
pub enum SynthFault {
    EmptyHistory,
    NoCompletion,
    RunNotSuccessful,
    InvalidUrl(Seq<char>),
    NameDerivationFailed,
    InvalidName(Seq<char>, Seq<char>),
    SecretNotTemplatized(Seq<char>),
}

impl View for SynthesizeError {
    type V = SynthFault;

    open spec fn view(&self) -> SynthFault {
        match self {
            SynthesizeError::EmptyHistory => SynthFault::EmptyHistory,
            SynthesizeError::NoCompletion => SynthFault::NoCompletion,
            SynthesizeError::RunNotSuccessful => SynthFault::RunNotSuccessful,
            SynthesizeError::InvalidUrl(m) => SynthFault::InvalidUrl(m@),
            SynthesizeError::NameDerivationFailed => SynthFault::NameDerivationFailed,
            SynthesizeError::InvalidName { name, reason } => SynthFault::InvalidName(
                name@,
                reason@,
            ),
            SynthesizeError::SecretNotTemplatized { key } => SynthFault::SecretNotTemplatized(
                key@,
            ),
        }
    }
}

/// Model of a synthesis result.
pub open spec fn outcome_view(r: Result<Playbook, SynthesizeError>) -> Result<
    PlaybookView,
    SynthFault,
> {
    match r {
        Ok(p) => Ok(p@),
        Err(e) => Err(e@),
    }
}

// ── Step-to-action conversion ─────────────────────────────────────────

/// `pre` + `"sel"`.
pub open spec fn quoted_selector(pre: Seq<char>, sel: Seq<char>) -> Seq<char> {
    pre + "\""@ + sel + "\""@
}

/// The action a playbook step replays as on a page with these elements:
/// `None` when no selector of the step matches an element.
pub open spec fn step_action(
    els: Seq<Element>,
    step: PlaybookStep,
    ps: Seq<(Seq<char>, Seq<char>)>,
) -> Option<ActionView> {
    let raw: Seq<char> = match step.value {
        Some(v) => v@,
        None => seq![],
    };
    match step.kind {
        StepKind::Navigate => {
            let url = match step.value {
                Some(v) => v@,
                None => step.selector@,
            };
            Some(
                ActionView::Scroll {
                    direction: "down"@,
                    reasoning: "playbook: navigate to "@ + interpolated(url, ps)
                        + " (not yet implemented)"@,
                },
            )
        },
        StepKind::Click => match step_target(els, step) {
            Some(id) => Some(
                ActionView::Click {
                    element: id,
                    reasoning: quoted_selector("playbook: click "@, step.selector@),
                },
            ),
            None => None,
        },
        StepKind::Type => match step_target(els, step) {
            Some(id) => Some(
                ActionView::Type {
                    element: id,
                    value: interpolated(raw, ps),
                    reasoning: quoted_selector("playbook: type into "@, step.selector@),
                },
            ),
            None => None,
        },
        StepKind::Select => match step_target(els, step) {
            Some(id) => Some(
                ActionView::Select {
                    element: id,
                    value: interpolated(raw, ps),
                    reasoning: quoted_selector("playbook: select in "@, step.selector@),
                },
            ),
            None => None,
        },
    }
}

fn quote_selector(pre: &str, sel: &str) -> (r: String)
    ensures
        r@ == quoted_selector(pre@, sel@),
{
    let mut r = copy_str(pre);
    push_str(&mut r, "\"");
    push_str(&mut r, sel);
    push_str(&mut r, "\"");
    r
}

/// Convert a playbook step into a pilot `Action`; `None` when the selector
/// can't be matched to any element. A navigate step becomes a scroll whose
/// reasoning names the interpolated URL.
pub fn step_to_action(view: &SemanticView, step: &PlaybookStep, params: &Params) -> (r: Option<
    Action,
>)
    ensures
        match r {
            Some(a) => step_action(view.elements@, *step, params@) == Some(a@),
            None => step_action(view.elements@, *step, params@) is None,
        },
{
    match step.kind {
        StepKind::Navigate => {
            let url = match &step.value {
                Some(v) => v.as_str(),
                None => step.selector.as_str(),
            };
            let resolved = interpolate(url, params);
            let mut reasoning = copy_str("playbook: navigate to ");
            push_str(&mut reasoning, resolved.as_str());
            push_str(&mut reasoning, " (not yet implemented)");
            assert(reasoning@ =~= "playbook: navigate to "@ + resolved@ + " (not yet implemented)"@);
            Some(Action::Scroll { direction: copy_str("down"), reasoning })
        },
        StepKind::Click => {
            let element = match match_step_selector(view, step) {
                Some(id) => id,
                None => return None,
            };
            Some(
                Action::Click {
                    element,
                    reasoning: quote_selector("playbook: click ", step.selector.as_str()),
                },
            )
        },
        StepKind::Type => {
            let element = match match_step_selector(view, step) {
                Some(id) => id,
                None => return None,
            };
            let raw = match &step.value {
                Some(v) => v.as_str(),
                None => "",
            };
            proof {
                reveal_strlit("");
            }
            assert(raw@ =~= (match step.value {
                Some(v) => v@,
                None => Seq::<char>::empty(),
            }));
            let value = interpolate(raw, params);
            Some(
                Action::Type {
                    element,
                    value,
                    reasoning: quote_selector("playbook: type into ", step.selector.as_str()),
                },
            )
        },
        StepKind::Select => {
            let element = match match_step_selector(view, step) {
                Some(id) => id,
                None => return None,
            };
            let raw = match &step.value {
                Some(v) => v.as_str(),
                None => "",
            };
            proof {
                reveal_strlit("");
            }
            assert(raw@ =~= (match step.value {
                Some(v) => v@,
                None => Seq::<char>::empty(),
            }));
            let value = interpolate(raw, params);
            Some(
                Action::Select {
                    element,
                    value,
                    reasoning: quote_selector("playbook: select in ", step.selector.as_str()),
                },
            )
        },
    }
}

// ── JSON text of a step ───────────────────────────────────────────────

/// Lower-case hexadecimal digit.
pub open spec fn hex_digit(d: nat) -> char {
    if d < 10 {
        (48 + d) as char
    } else {
        (87 + d) as char
    }
}

/// A character inside a JSON string as `serde_json` writes it: quote and
/// backslash escaped, control characters as short escapes or `\u00XX`.
pub open spec fn json_escape_char(c: char) -> Seq<char> {
    if c == '"' {
        seq!['\\', '"']
    } else if c == '\\' {
        seq!['\\', '\\']
    } else if c == '\u{8}' {
        seq!['\\', 'b']
    } else if c == '\t' {
        seq!['\\', 't']
    } else if c == '\n' {
        seq!['\\', 'n']
    } else if c == '\u{c}' {
        seq!['\\', 'f']
    } else if c == '\r' {
        seq!['\\', 'r']
    } else if is_ctrl_low(c) {
        seq!['\\', 'u', '0', '0', hex_digit((c as u32 / 16) as nat), hex_digit((c as u32 % 16) as nat)]
    } else {
        seq![c]
    }
}

/// A character below U+0020.
pub open spec fn is_ctrl_low(c: char) -> bool {
    (c as u32) < 32
}

/// The escaped contents of a JSON string.
pub open spec fn json_escape(s: Seq<char>) -> Seq<char>
    decreases s.len(),
{
    if s.len() == 0 {
        seq![]
    } else {
        json_escape(s.drop_last()) + json_escape_char(s.last())
    }
}

/// A JSON string literal.
pub open spec fn json_str(s: Seq<char>) -> Seq<char> {
    "\""@ + json_escape(s) + "\""@
}

/// Serialized name of a step kind.
pub open spec fn kind_json(k: StepKind) -> Seq<char> {
    match k {
        StepKind::Click => "click"@,
        StepKind::Type => "type"@,
        StepKind::Select => "select"@,
        StepKind::Navigate => "navigate"@,
    }
}

/// Compact JSON of a step, fields in declaration order, `value` left out
/// when absent.
pub open spec fn step_json(st: StepView) -> Seq<char> {
    "{\"kind\":\""@ + kind_json(st.kind) + "\",\"selector\":"@ + json_str(st.selector) + match st.value {
        Some(v) => ",\"value\":"@ + json_str(v),
        None => seq![],
    } + ",\"fallbacks\":["@ + join(st.fallbacks.map_values(|f: Seq<char>| json_str(f)), ","@)
        + "]}"@
}

fn hex_char(d: u32) -> (c: char)
    requires
        d < 16,
    ensures
        c == hex_digit(d as nat),
{
    if d == 0 { '0' } else if d == 1 { '1' } else if d == 2 { '2' } else if d == 3 { '3' }
    else if d == 4 { '4' } else if d == 5 { '5' } else if d == 6 { '6' } else if d == 7 { '7' }
    else if d == 8 { '8' } else if d == 9 { '9' } else if d == 10 { 'a' } else if d == 11 { 'b' }
    else if d == 12 { 'c' } else if d == 13 { 'd' } else if d == 14 { 'e' } else { 'f' }
}

fn push_json_str(out: &mut String, s: &str)
    ensures
        final(out)@ == old(out)@ + json_str(s@),
{
    let v = chars_of(s);
    push_char(out, '"');
    let ghost start = out@;
    let mut i: usize = 0;
    while i < v.len()
        invariant
            i <= v@.len(),
            out@ == start + json_escape(v@.take(i as int)),
        decreases v@.len() - i,
    {
        proof {
            assert(v@.take(i + 1).drop_last() =~= v@.take(i as int));
        }
        let c = v[i];
        let code: u32 = c as u32;
        let ghost before = out@;
        if c == '"' {
            push_char(out, '\\');
            push_char(out, '"');
        } else if c == '\\' {
            push_char(out, '\\');
            push_char(out, '\\');
        } else if c == '\u{8}' {
            push_char(out, '\\');
            push_char(out, 'b');
        } else if c == '\t' {
            push_char(out, '\\');
            push_char(out, 't');
        } else if c == '\n' {
            push_char(out, '\\');
            push_char(out, 'n');
        } else if c == '\u{c}' {
            push_char(out, '\\');
            push_char(out, 'f');
        } else if c == '\r' {
            push_char(out, '\\');
            push_char(out, 'r');
        } else if code < 32 {
            push_char(out, '\\');
            push_char(out, 'u');
            push_char(out, '0');
            push_char(out, '0');
            push_char(out, hex_char(code / 16));
            push_char(out, hex_char(code % 16));
        } else {
            push_char(out, c);
        }
        assert(out@ =~= before + json_escape_char(c));
        i = i + 1;
    }
    push_char(out, '"');
    proof {
        reveal_strlit("\"");
    }
    assert(v@.take(v@.len() as int) =~= v@);
    assert(out@ =~= old(out)@ + json_str(s@));
}

fn kind_json_exec(k: StepKind) -> (s: &'static str)
    ensures
        s@ == kind_json(k),
{
    match k {
        StepKind::Click => "click",
        StepKind::Type => "type",
        StepKind::Select => "select",
        StepKind::Navigate => "navigate",
    }
}

/// Compact JSON of a step, as `serde_json::to_string` writes it.
fn step_to_json(st: &PlaybookStep) -> (r: String)
    ensures
        r@ == step_json(st@),
{
    let mut out = copy_str("{\"kind\":\"");
    push_str(&mut out, kind_json_exec(st.kind));
    push_str(&mut out, "\",\"selector\":");
    push_json_str(&mut out, st.selector.as_str());
    let ghost mid = out@;
    match &st.value {
        Some(v) => {
            push_str(&mut out, ",\"value\":");
            push_json_str(&mut out, v.as_str());
        },
        None => {},
    }
    push_str(&mut out, ",\"fallbacks\":[");
    let ghost list_start = out@;
    let ghost items = string_views(st.fallbacks@).map_values(|f: Seq<char>| json_str(f));
    let mut i: usize = 0;
    while i < st.fallbacks.len()
        invariant
            i <= st.fallbacks@.len(),
            items == string_views(st.fallbacks@).map_values(|f: Seq<char>| json_str(f)),
            out@ == list_start + join(items.take(i as int), ","@),
        decreases st.fallbacks@.len() - i,
    {
        let ghost before = out@;
        if i > 0 {
            push_str(&mut out, ",");
        }
        push_json_str(&mut out, st.fallbacks[i].as_str());
        proof {
            let t = items.take(i + 1);
            assert(t.drop_last() =~= items.take(i as int));
            assert(t.last() == json_str(st.fallbacks@[i as int]@));
            if i == 0 {
                assert(out@ =~= list_start + t[0]);
            } else {
                assert(out@ =~= list_start + (join(t.drop_last(), ","@) + ","@ + t.last()));
            }
        }
        i = i + 1;
    }
    push_str(&mut out, "]}");
    assert(items.take(items.len() as int) =~= items);
    assert(out@ =~= step_json(st@));
    out
}

// ── Sorting parameter names ───────────────────────────────────────────

/// Lexicographic order of character sequences (the order of `String`).
pub open spec fn lex_lt(a: Seq<char>, b: Seq<char>) -> bool
    decreases a.len(),
{
    if a.len() == 0 {
        b.len() > 0
    } else if b.len() == 0 {
        false
    } else if a[0] != b[0] {
        a[0] < b[0]
    } else {
        lex_lt(a.drop_first(), b.drop_first())
    }
}

/// `x` inserted into `s` before the first item greater than it.
pub open spec fn insert_sorted(s: Seq<Seq<char>>, x: Seq<char>) -> Seq<Seq<char>>
    decreases s.len(),
{
    if s.len() == 0 {
        seq![x]
    } else if lex_lt(x, s[0]) {
        seq![x] + s
    } else {
        seq![s[0]] + insert_sorted(s.drop_first(), x)
    }
}

/// The items of `s` in ascending order (insertion sort, stable).
pub open spec fn sorted_seq(s: Seq<Seq<char>>) -> Seq<Seq<char>>
    decreases s.len(),
{
    if s.len() == 0 {
        seq![]
    } else {
        insert_sorted(sorted_seq(s.drop_last()), s.last())
    }
}

/// The keys of parameter entries, in order.
pub open spec fn keys_of(ps: Seq<(Seq<char>, Seq<char>)>) -> Seq<Seq<char>> {
    ps.map_values(|p: (Seq<char>, Seq<char>)| p.0)
}

fn lex_lt_exec(a: &[char], b: &[char]) -> (r: bool)
    ensures
        r == lex_lt(a@, b@),
{
    let mut i: usize = 0;
    assert(a@.skip(0) =~= a@);
    assert(b@.skip(0) =~= b@);
    while i < a.len() && i < b.len() && a[i] == b[i]
        invariant
            i <= a@.len(),
            i <= b@.len(),
            lex_lt(a@, b@) == lex_lt(a@.skip(i as int), b@.skip(i as int)),
        decreases a@.len() - i,
    {
        proof {
            assert(a@.skip(i as int).drop_first() =~= a@.skip(i + 1));
            assert(b@.skip(i as int).drop_first() =~= b@.skip(i + 1));
        }
        i = i + 1;
    }
    if i == a.len() {
        i < b.len()
    } else if i == b.len() {
        false
    } else {
        a[i] < b[i]
    }
}

fn insertion_point(s: &Vec<String>, x: &String) -> (k: usize)
    ensures
        k <= s@.len(),
        k < s@.len() ==> lex_lt(x@, s@[k as int]@),
        insert_sorted(string_views(s@), x@) == string_views(s@).take(k as int) + insert_sorted(
            string_views(s@).skip(k as int),
            x@,
        ),
{
    let xv = chars_of(x.as_str());
    let mut k: usize = 0;
    let ghost sv = string_views(s@);
    assert(sv.skip(0) =~= sv);
    assert(sv.take(0) + insert_sorted(sv.skip(0), x@) =~= insert_sorted(sv, x@));
    while k < s.len()
        invariant
            k <= s@.len(),
            sv == string_views(s@),
            xv@ == x@,
            insert_sorted(sv, x@) == sv.take(k as int) + insert_sorted(sv.skip(k as int), x@),
        decreases s@.len() - k,
    {
        let sk = chars_of(s[k].as_str());
        if lex_lt_exec(xv.as_slice(), sk.as_slice()) {
            return k;
        }
        proof {
            let t = sv.skip(k as int);
            assert(t[0] == sv[k as int]);
            assert(t.drop_first() =~= sv.skip(k + 1));
            assert(insert_sorted(t, x@) == seq![t[0]] + insert_sorted(t.drop_first(), x@));
            assert(sv.take(k + 1) =~= sv.take(k as int) + seq![sv[k as int]]);
            assert(sv.take(k as int) + (seq![sv[k as int]] + insert_sorted(sv.skip(k + 1), x@))
                =~= sv.take(k + 1) + insert_sorted(sv.skip(k + 1), x@));
        }
        k = k + 1;
    }
    k
}

fn insert_sorted_exec(s: Vec<String>, x: String) -> (r: Vec<String>)
    ensures
        string_views(r@) == insert_sorted(string_views(s@), x@),
{
    let k = insertion_point(&s, &x);
    let ghost sv = string_views(s@);
    let mut r: Vec<String> = Vec::new();
    let mut j: usize = 0;
    assert(string_views(r@) =~= sv.take(0));
    while j < k
        invariant
            j <= k <= s@.len(),
            string_views(r@) == sv.take(j as int),
            sv == string_views(s@),
        decreases k - j,
    {
        let ghost before = r@;
        let c = s[j].clone();
        r.push(c);
        assert(r@ == before.push(c));
        assert(string_views(before.push(c)) =~= string_views(before).push(c@));
        assert(sv.take(j + 1) =~= sv.take(j as int).push(sv[j as int]));
        j = j + 1;
    }
    let ghost before = r@;
    let xc = x.clone();
    r.push(xc);
    assert(r@ == before.push(xc));
    assert(string_views(r@) =~= sv.take(k as int) + seq![x@] + sv.subrange(k as int, k as int));
    let mut j: usize = k;
    while j < s.len()
        invariant
            k <= j <= s@.len(),
            sv == string_views(s@),
            string_views(r@) == sv.take(k as int) + seq![x@] + sv.subrange(k as int, j as int),
        decreases s@.len() - j,
    {
        let ghost before = r@;
        let c = s[j].clone();
        r.push(c);
        assert(r@ == before.push(c));
        assert(string_views(before.push(c)) =~= string_views(before).push(c@));
        assert(sv.subrange(k as int, j + 1) =~= sv.subrange(k as int, j as int).push(sv[j as int]));
        assert(string_views(r@) =~= sv.take(k as int) + seq![x@] + sv.subrange(k as int, j + 1));
        j = j + 1;
    }
    proof {
        let t = sv.skip(k as int);
        if k < s@.len() {
            assert(t[0] == sv[k as int]);
            assert(insert_sorted(t, x@) == seq![x@] + t);
        } else {
            assert(t =~= Seq::<Seq<char>>::empty());
            assert(insert_sorted(t, x@) == seq![x@]);
        }
        assert(sv.subrange(k as int, sv.len() as int) =~= t);
        assert(string_views(r@) =~= sv.take(k as int) + insert_sorted(t, x@));
    }
    r
}

/// The parameter names in ascending order.
fn sorted_keys(params: &Params) -> (r: Vec<String>)
    ensures
        string_views(r@) == sorted_seq(keys_of(params@)),
{
    let entries = params.entries();
    let ghost ks = keys_of(params@);
    let mut r: Vec<String> = Vec::new();
    let mut i: usize = 0;
    assert(string_views(r@) =~= sorted_seq(ks.take(0)));
    while i < entries.len()
        invariant
            i <= entries@.len(),
            ks == keys_of(pair_views(entries@)),
            string_views(r@) == sorted_seq(ks.take(i as int)),
        decreases entries@.len() - i,
    {
        proof {
            assert(ks.take(i + 1).drop_last() =~= ks.take(i as int));
            assert(ks.take(i + 1).last() == entries@[i as int].0@);
        }
        let k = entries[i].0.clone();
        r = insert_sorted_exec(r, k);
        i = i + 1;
    }
    assert(ks.take(ks.len() as int) =~= ks);
    r
}

// ── Synthesis: trajectory -> Playbook ─────────────────────────────────

/// Index of the final step of a history when that step is a `Done`: a run
/// has to end with its completion.
pub open spec fn last_done(h: Seq<Step>) -> Option<int> {
    if h.len() > 0 && h.last().action is Done {
        Some(h.len() - 1)
    } else {
        None
    }
}

/// The recorded step kind and typed value of a history step, for the
/// actions that are recorded: clicks, typed and selected values.
pub open spec fn recorded_action(a: Action) -> Option<(StepKind, u32, Option<Seq<char>>)> {
    match a {
        Action::Click { element, .. } => Some((StepKind::Click, element, None)),
        Action::Type { element, value, .. } => Some((StepKind::Type, element, Some(value@))),
        Action::Select { element, value, .. } => Some((StepKind::Select, element, Some(value@))),
        _ => None,
    }
}

/// The raw value a history step records, when it records one (a typed or
/// selected value on an element that has a selector).
pub open spec fn recorded_value(st: Step) -> Option<Seq<char>> {
    match recorded_action(st.action) {
        Some((_, element, Some(v))) => if selector_for(st.observation.elements@, element) is Some {
            Some(v)
        } else {
            None
        },
        _ => None,
    }
}

/// The playbook step a history step turns into, if any.
pub open spec fn recorded(st: Step, ps: Seq<(Seq<char>, Seq<char>)>) -> Option<StepView> {
    match recorded_action(st.action) {
        Some((kind, element, value)) => match selector_for(st.observation.elements@, element) {
            Some((sel, fb)) => Some(
                StepView {
                    kind,
                    selector: sel,
                    value: match value {
                        Some(v) => Some(templatized(v, ps)),
                        None => None,
                    },
                    fallbacks: fb,
                },
            ),
            None => None,
        },
        None => None,
    }
}

/// The playbook steps of a history, in order.
pub open spec fn recorded_steps(h: Seq<Step>, ps: Seq<(Seq<char>, Seq<char>)>) -> Seq<StepView>
    decreases h.len(),
{
    if h.len() == 0 {
        seq![]
    } else {
        match recorded(h.last(), ps) {
            Some(v) => recorded_steps(h.drop_last(), ps).push(v),
            None => recorded_steps(h.drop_last(), ps),
        }
    }
}

/// Parameter `i` was substituted into a value recorded by one of the first
/// `n` history steps.
pub open spec fn hit_within(h: Seq<Step>, ps: Seq<(Seq<char>, Seq<char>)>, i: int, n: int) -> bool {
    exists|j: int|
        0 <= j < n && (#[trigger] recorded_value(h[j]) matches Some(v) && substituted(v, ps, i))
}

/// First parameter from `i` on with a nonempty value, a secret-like name,
/// and no substitution into any recorded value.
pub open spec fn first_untemplatized(h: Seq<Step>, ps: Seq<(Seq<char>, Seq<char>)>, i: nat) -> Option<nat>
    decreases ps.len() - i,
{
    if i >= ps.len() {
        None
    } else if ps[i as int].1.len() > 0 && secret_key(ps[i as int].0) && !hit_within(
        h,
        ps,
        i as int,
        h.len() as int,
    ) {
        Some(i)
    } else {
        first_untemplatized(h, ps, i + 1)
    }
}

/// Some step's JSON text contains `v`.
pub open spec fn leaks_into(steps: Seq<StepView>, v: Seq<char>) -> bool {
    exists|j: int| 0 <= j < steps.len() && contains(#[trigger] step_json(steps[j]), v)
}

/// First parameter from `i` on with a secret-like name whose value (six
/// bytes or longer) still shows verbatim in a step's JSON.
pub open spec fn first_leaked(steps: Seq<StepView>, ps: Seq<(Seq<char>, Seq<char>)>, i: nat) -> Option<nat>
    decreases ps.len() - i,
{
    if i >= ps.len() {
        None
    } else if ps[i as int].1.len() > 0 && secret_key(ps[i as int].0) && utf8_size(ps[i as int].1)
        >= 6 && leaks_into(steps, ps[i as int].1) {
        Some(i)
    } else {
        first_leaked(steps, ps, i + 1)
    }
}

/// A validated name, or why it is refused.
pub open spec fn checked_name(n: Seq<char>) -> Result<Seq<char>, SynthFault> {
    match name_problem(n) {
        Some(reason) => Err(SynthFault::InvalidName(n, reason)),
        None => Ok(n),
    }
}

/// The playbook name: the trimmed explicit name when it is not blank, else
/// the name derived from the goal; validated either way.
pub open spec fn name_choice(name: Option<Seq<char>>, goal: Seq<char>) -> Result<Seq<char>, SynthFault> {
    match name {
        Some(n) if trim(n).len() > 0 => checked_name(trim(n)),
        _ => match goal_name(goal) {
            Some(d) => checked_name(d),
            None => Err(SynthFault::NameDerivationFailed),
        },
    }
}

/// What learning from a history gives, given whether its last `Done`
/// reported success.
pub open spec fn learned(
    h: Seq<Step>,
    run_succeeded: bool,
    goal: Seq<char>,
    initial_url: Seq<char>,
    ps: Seq<(Seq<char>, Seq<char>)>,
    name: Option<Seq<char>>,
) -> Result<PlaybookView, SynthFault> {
    if h.len() == 0 {
        Err(SynthFault::EmptyHistory)
    } else if last_done(h) is None {
        Err(SynthFault::NoCompletion)
    } else if !run_succeeded {
        Err(SynthFault::RunNotSuccessful)
    } else {
        match name_choice(name, goal) {
            Err(f) => Err(f),
            Ok(n) => match url_pattern_of(initial_url) {
                Err(m) => Err(SynthFault::InvalidUrl(m)),
                Ok(pattern) => {
                    let steps = recorded_steps(h, ps);
                    match first_untemplatized(h, ps, 0) {
                        Some(i) => Err(SynthFault::SecretNotTemplatized(ps[i as int].0)),
                        None => match first_leaked(steps, ps, 0) {
                            Some(i) => Err(SynthFault::SecretNotTemplatized(ps[i as int].0)),
                            None => Ok(
                                PlaybookView {
                                    name: n,
                                    url_pattern: pattern,
                                    steps,
                                    params: sorted_seq(keys_of(ps)),
                                    success: success_of(
                                        h.last().observation.url@,
                                        h.last().observation.title@,
                                        initial_url,
                                    ),
                                },
                            ),
                        },
                    }
                },
            },
        }
    }
}

/// A run that did not succeed is never learned from.
pub proof fn lemma_failed_run_not_learned(
    h: Seq<Step>,
    goal: Seq<char>,
    initial_url: Seq<char>,
    ps: Seq<(Seq<char>, Seq<char>)>,
    name: Option<Seq<char>>,
)
    ensures
        learned(h, false, goal, initial_url, ps, name) is Err,
{
}

/// A learned playbook has a safe file name, and none of its steps carries
/// the raw value (six bytes or more) of a secret-like parameter; every
/// secret-like parameter with a value was substituted into some step.
pub proof fn lemma_learned_is_safe(
    h: Seq<Step>,
    goal: Seq<char>,
    initial_url: Seq<char>,
    ps: Seq<(Seq<char>, Seq<char>)>,
    name: Option<Seq<char>>,
)
    ensures
        learned(h, true, goal, initial_url, ps, name) matches Ok(pb) ==> {
            &&& name_problem(pb.name) is None
            &&& first_leaked(pb.steps, ps, 0) is None
            &&& first_untemplatized(h, ps, 0) is None
        },
{
}

fn find_last_done(history: &[Step]) -> (r: Option<usize>)
    ensures
        match r {
            Some(i) => last_done(history@) == Some(i as int) && i < history@.len(),
            None => last_done(history@) is None,
        },
{
    if history.len() == 0 {
        return None;
    }
    let k = history.len() - 1;
    if let Action::Done { .. } = &history[k].action {
        Some(k)
    } else {
        None
    }
}

fn resolve_name(name: Option<&str>, goal: &str) -> (r: Result<String, SynthesizeError>)
    ensures
        match r {
            Ok(n) => name_choice(oview(name), goal@) == Ok::<Seq<char>, SynthFault>(n@),
            Err(e) => name_choice(oview(name), goal@) == Err::<Seq<char>, SynthFault>(e@),
        },
{
    let explicit: Option<String> = match name {
        Some(n) => {
            let t = trim_exec(chars_of(n).as_slice());
            if t.len() > 0 {
                Some(string_of(t.as_slice()))
            } else {
                None
            }
        },
        None => None,
    };
    let chosen = match explicit {
        Some(t) => t,
        None => match derive_name_from_goal(goal) {
            Some(d) => d,
            None => return Err(SynthesizeError::NameDerivationFailed),
        },
    };
    match validate_playbook_name(chosen.as_str()) {
        Ok(()) => Ok(chosen),
        Err(e) => Err(e),
    }
}

/// Turn a pilot run whose outcome is known into a replayable [`Playbook`].
///
/// Keeps only click, type and select steps on elements that have a
/// selector; typed and selected values have each parameter value replaced
/// by `${key}`. Refuses empty histories, runs without a `Done` or without
/// success, unsafe names, URLs without host, and runs where a secret-like
/// parameter was never templatized or still shows in a step.
pub fn synthesize_with_outcome(
    history: &[Step],
    run_succeeded: bool,
    goal: &str,
    initial_url: &str,
    explicit_params: &Params,
    name: Option<&str>,
) -> (r: Result<Playbook, SynthesizeError>)
    requires
        url_len_ok(initial_url@),
    ensures
        outcome_view(r) == learned(
            history@,
            run_succeeded,
            goal@,
            initial_url@,
            explicit_params@,
            oview(name),
        ),
{
    if history.len() == 0 {
        return Err(SynthesizeError::EmptyHistory);
    }
    if find_last_done(history).is_none() {
        return Err(SynthesizeError::NoCompletion);
    }
    if !run_succeeded {
        return Err(SynthesizeError::RunNotSuccessful);
    }
    let playbook_name = resolve_name(name, goal)?;
    let url_pattern = derive_url_pattern(initial_url)?;
    let param_keys = sorted_keys(explicit_params);
    let ghost ps = explicit_params@;
    let ghost h = history@;

    let mut steps: Vec<PlaybookStep> = Vec::new();
    let mut hits: Vec<bool> = Vec::new();
    let mut k: usize = 0;
    while k < explicit_params.len()
        invariant
            k <= ps.len(),
            ps == explicit_params@,
            hits@.len() == k,
            forall|m: int| 0 <= m < k ==> !hits@[m],
        decreases ps.len() - k,
    {
        hits.push(false);
        k = k + 1;
    }
    let mut i: usize = 0;
    while i < history.len()
        invariant
            i <= h.len(),
            h == history@,
            ps == explicit_params@,
            hits@.len() == ps.len(),
            step_views(steps@) == recorded_steps(h.take(i as int), ps),
            forall|m: int| 0 <= m < ps.len() ==> hits@[m] == hit_within(h, ps, m, i as int),
        decreases h.len() - i,
    {
        let st = &history[i];
        proof {
            assert(h.take(i + 1).drop_last() =~= h.take(i as int));
            assert(h.take(i + 1).last() == h[i as int]);
        }
        let ghost hits0 = hits@;
        let ghost steps0 = steps@;
        let (kind, element, value): (StepKind, u32, Option<&String>) = match &st.action {
            Action::Click { element, .. } => (StepKind::Click, *element, None),
            Action::Type { element, value, .. } => (StepKind::Type, *element, Some(value)),
            Action::Select { element, value, .. } => (StepKind::Select, *element, Some(value)),
            _ => {
                proof {
                    assert forall|m: int| 0 <= m < ps.len() implies hits@[m] == hit_within(
                        h,
                        ps,
                        m,
                        i + 1,
                    ) by {
                        if hit_within(h, ps, m, i + 1) {
                            let j = choose|j: int|
                                0 <= j < i + 1 && (#[trigger] recorded_value(h[j]) matches Some(
                                    v,
                                ) && substituted(v, ps, m));
                            assert(j != i);
                        }
                    }
                }
                i = i + 1;
                continue;
            },
        };
        assert(recorded_action(st.action) == Some((kind, element, match value {
            Some(v) => Some(v@),
            None => None,
        })));
        match element_selector_with_fallbacks(&st.observation, element) {
            Some((selector, fallbacks)) => {
                let templated = match value {
                    Some(v) => Some(templatize_tracking(v.as_str(), explicit_params, &mut hits)),
                    None => None,
                };
                let ps_step = PlaybookStep { kind, selector, value: templated, fallbacks };
                steps.push(ps_step);
                proof {
                    assert(step_views(steps@) =~= step_views(steps0).push(ps_step@));
                    assert forall|m: int| 0 <= m < ps.len() implies hits@[m] == hit_within(
                        h,
                        ps,
                        m,
                        i + 1,
                    ) by {
                        if hit_within(h, ps, m, i + 1) && !hit_within(h, ps, m, i as int) {
                            let j = choose|j: int|
                                0 <= j < i + 1 && (#[trigger] recorded_value(h[j]) matches Some(
                                    v,
                                ) && substituted(v, ps, m));
                            assert(j == i);
                        }
                        if value is Some && substituted(value.unwrap()@, ps, m) {
                            assert(recorded_value(h[i as int]) == Some(value.unwrap()@));
                        }
                    }
                }
            },
            None => {
                proof {
                    assert forall|m: int| 0 <= m < ps.len() implies hits@[m] == hit_within(
                        h,
                        ps,
                        m,
                        i + 1,
                    ) by {
                        if hit_within(h, ps, m, i + 1) {
                            let j = choose|j: int|
                                0 <= j < i + 1 && (#[trigger] recorded_value(h[j]) matches Some(
                                    v,
                                ) && substituted(v, ps, m));
                            assert(j != i);
                        }
                    }
                }
            },
        }
        i = i + 1;
    }
    assert(h.take(h.len() as int) =~= h);
    let ghost rec = recorded_steps(h, ps);

    let entries = explicit_params.entries();
    if let Some(k) = find_untemplatized(explicit_params, &hits, Ghost(h)) {
        assert(ps[k as int].0 == entries@[k as int].0@);
        return Err(SynthesizeError::SecretNotTemplatized { key: entries[k].0.clone() });
    }
    if let Some(k) = find_leaked(explicit_params, &steps) {
        assert(ps[k as int].0 == entries@[k as int].0@);
        return Err(SynthesizeError::SecretNotTemplatized { key: entries[k].0.clone() });
    }

    let last = history.len() - 1;
    let success = derive_success(&history[last].observation, initial_url);
    let pb = Playbook { name: playbook_name, url_pattern, steps, params: param_keys, success };
    assert(h.last() == h[last as int]);
    Ok(pb)
}

/// First secret-like parameter with a value that was never substituted.
fn find_untemplatized(params: &Params, hits: &Vec<bool>, Ghost(h): Ghost<Seq<Step>>) -> (r: Option<
    usize,
>)
    requires
        hits@.len() == params@.len(),
        forall|m: int| 0 <= m < params@.len() ==> hits@[m] == hit_within(h, params@, m, h.len() as int),
    ensures
        match r {
            Some(k) => first_untemplatized(h, params@, 0) == Some(k as nat) && k < params@.len(),
            None => first_untemplatized(h, params@, 0) is None,
        },
{
    let entries = params.entries();
    let ghost ps = params@;
    let mut k: usize = 0;
    while k < entries.len()
        invariant
            k <= entries@.len(),
            pair_views(entries@) == ps,
            ps == params@,
            hits@.len() == ps.len(),
            forall|m: int| 0 <= m < ps.len() ==> hits@[m] == hit_within(h, ps, m, h.len() as int),
            first_untemplatized(h, ps, 0) == first_untemplatized(h, ps, k as nat),
        decreases entries@.len() - k,
    {
        let key = &entries[k].0;
        let value = &entries[k].1;
        assert(ps[k as int] == (key@, value@));
        if !value.as_str().is_empty() && is_secret_key(key.as_str()) && !hits[k] {
            return Some(k);
        }
        k = k + 1;
    }
    None
}

/// First secret-like parameter whose value (six bytes or longer) still
/// shows verbatim in a step's JSON.
fn find_leaked(params: &Params, steps: &Vec<PlaybookStep>) -> (r: Option<usize>)
    ensures
        match r {
            Some(k) => first_leaked(step_views(steps@), params@, 0) == Some(k as nat) && k
                < params@.len(),
            None => first_leaked(step_views(steps@), params@, 0) is None,
        },
{
    let entries = params.entries();
    let ghost ps = params@;
    let ghost rec = step_views(steps@);
    let mut k: usize = 0;
    while k < entries.len()
        invariant
            k <= entries@.len(),
            pair_views(entries@) == ps,
            ps == params@,
            rec == step_views(steps@),
            first_leaked(rec, ps, 0) == first_leaked(rec, ps, k as nat),
        decreases entries@.len() - k,
    {
        let key = &entries[k].0;
        let value = &entries[k].1;
        assert(ps[k as int] == (key@, value@));
        if !value.as_str().is_empty() && is_secret_key(key.as_str()) {
            let vv = chars_of(value.as_str());
            if utf8_longer_than(vv.as_slice(), 5) && steps_leak(steps, vv.as_slice()) {
                return Some(k);
            }
        }
        k = k + 1;
    }
    None
}

fn steps_leak(steps: &Vec<PlaybookStep>, v: &[char]) -> (b: bool)
    ensures
        b == leaks_into(step_views(steps@), v@),
{
    let mut j: usize = 0;
    while j < steps.len()
        invariant
            j <= steps@.len(),
            forall|m: int| 0 <= m < j ==> !contains(step_json(step_views(steps@)[m]), v@),
        decreases steps@.len() - j,
    {
        let json = step_to_json(&steps[j]);
        let jv = chars_of(json.as_str());
        if contains_exec(jv.as_slice(), v) {
            assert(contains(step_json(step_views(steps@)[j as int]), v@));
            return true;
        }
        j = j + 1;
    }
    false
}

/// What `result.get("success").and_then(Value::as_bool)` gives for a JSON
/// value: its `success` member when it is an object holding a boolean
/// there, else `None`.
pub uninterp spec fn json_success(result: serde_json::Value) -> Option<bool>;

/// `serde_json::Value::get("success")` then `Value::as_bool`. The result is
/// named by [`json_success`].
#[verifier::external_body]
fn success_member(result: &serde_json::Value) -> (r: Option<bool>)
    ensures
        r == json_success(*result),
{
    result.get("success").and_then(serde_json::Value::as_bool)
}

/// The run succeeded: its final step is a `Done` whose result has a
/// boolean `success` member that is `true` (missing or non-boolean counts
/// as failure).
pub open spec fn run_succeeded(h: Seq<Step>) -> bool {
    h.len() > 0 && match h.last().action {
        Action::Done { result, .. } => json_success(result) == Some(true),
        _ => false,
    }
}

/// Turn a successful pilot run into a replayable [`Playbook`].
///
/// The run has to end with a `Done` (else `NoCompletion`), and counts as
/// successful when that result has a boolean `success` member that is
/// `true`; a missing or non-boolean member counts as failure. What follows is [`synthesize_with_outcome`].
pub fn synthesize_from_history(
    history: &[Step],
    goal: &str,
    initial_url: &str,
    explicit_params: &Params,
    name: Option<&str>,
) -> (r: Result<Playbook, SynthesizeError>)
    requires
        url_len_ok(initial_url@),
    ensures
        outcome_view(r) == learned(
            history@,
            run_succeeded(history@),
            goal@,
            initial_url@,
            explicit_params@,
            oview(name),
        ),
{
    let succeeded = match find_last_done(history) {
        Some(i) => match &history[i].action {
            Action::Done { result, .. } => match success_member(result) {
                Some(b) => b,
                None => false,
            },
            _ => false,
        },
        None => false,
    };
    let r = synthesize_with_outcome(history, succeeded, goal, initial_url, explicit_params, name);
    r
}

// ── Parameter extraction ──────────────────────────────────────────────

/// Goal keywords that introduce the value of a parameter.
pub open spec fn prefixes_for(name: Seq<char>) -> Seq<Seq<char>> {
    if name == "username"@ || name == "user"@ || name == "email"@ {
        seq!["as "@, "user "@, "username "@, "email "@, "login "@]
    } else if name == "password"@ || name == "pass"@ || name == "pw"@ {
        seq!["password "@, "pass "@, "pw "@]
    } else {
        seq![name + " "@]
    }
}

/// Leading run of non-whitespace characters.
pub open spec fn leading_token(t: Seq<char>) -> Seq<char> {
    t.take(word_run(t, 0) as int)
}

/// One prefix on the case-preserving path: the prefix is located in the
/// goal character by character, case-insensitively, and the token after it
/// is read from the goal as given; `Some(None)` when the prefix does not
/// occur or no token follows it. (Never `None`.)
pub open spec fn token_after(goal: Seq<char>, prefix: Seq<char>) -> Option<Option<Seq<char>>> {
    match ci_find(goal, prefix, 0) {
        None => Some(None),
        Some(k) => {
            let tok = leading_token(goal.skip((k + prefix.len()) as int));
            if tok.len() == 0 {
                Some(None)
            } else {
                Some(Some(tok))
            }
        },
    }
}

/// The case-preserving path over the prefixes in order.
pub open spec fn case_preserving(goal: Seq<char>, prefixes: Seq<Seq<char>>) -> Option<
    Option<Seq<char>>,
>
    decreases prefixes.len(),
{
    if prefixes.len() == 0 {
        Some(None)
    } else {
        match token_after(goal, prefixes[0]) {
            None => None,
            Some(Some(t)) => Some(Some(t)),
            Some(None) => case_preserving(goal, prefixes.drop_first()),
        }
    }
}

/// The first whitespace-delimited token after the first prefix (in order)
/// that occurs in `text` and is followed by one.
pub open spec fn credential_in(text: Seq<char>, prefixes: Seq<Seq<char>>) -> Option<Seq<char>>
    decreases prefixes.len(),
{
    if prefixes.len() == 0 {
        None
    } else {
        let found: Option<Seq<char>> = match find(text, prefixes[0]) {
            Some(pos) => {
                let ws = words(text.skip((pos + prefixes[0].len()) as int));
                if ws.len() > 0 {
                    Some(ws[0])
                } else {
                    None
                }
            },
            None => None,
        };
        match found {
            Some(t) => Some(t),
            None => credential_in(text, prefixes.drop_first()),
        }
    }
}

/// The value of a parameter in a goal: the case-preserving path, then the
/// token after a prefix in the lower-cased goal. `None` when the
/// case-preserving path would slice inside a character.
pub open spec fn credential_value(goal: Seq<char>, prefixes: Seq<Seq<char>>) -> Option<
    Option<Seq<char>>,
> {
    let lower = unicode_lower(goal);
    match case_preserving(goal, prefixes) {
        None => None,
        Some(Some(t)) => Some(Some(t)),
        Some(None) => Some(credential_in(lower, prefixes)),
    }
}

/// Parameters found for the names from `i` on, added to `acc`; `None` when
/// reading one of them would slice inside a character.
pub open spec fn extracted_from(
    goal: Seq<char>,
    names: Seq<Seq<char>>,
    i: nat,
    acc: Seq<(Seq<char>, Seq<char>)>,
) -> Option<Seq<(Seq<char>, Seq<char>)>>
    decreases names.len() - i,
{
    if i >= names.len() {
        Some(acc)
    } else {
        match credential_value(goal, prefixes_for(names[i as int])) {
            None => None,
            Some(None) => extracted_from(goal, names, i + 1, acc),
            Some(Some(v)) => extracted_from(goal, names, i + 1, upsert(acc, names[i as int], v)),
        }
    }
}

/// The parameters a goal gives for the names, in the order of the names.
pub open spec fn extracted(goal: Seq<char>, names: Seq<Seq<char>>) -> Option<Seq<(Seq<char>, Seq<char>)>> {
    extracted_from(goal, names, 0, seq![])
}

fn prefixes_exec(name: &str) -> (r: Vec<String>)
    ensures
        string_views(r@) == prefixes_for(name@),
{
    let mut r: Vec<String> = Vec::new();
    if str_eq(name, "username") || str_eq(name, "user") || str_eq(name, "email") {
        r.push(copy_str("as "));
        r.push(copy_str("user "));
        r.push(copy_str("username "));
        r.push(copy_str("email "));
        r.push(copy_str("login "));
    } else if str_eq(name, "password") || str_eq(name, "pass") || str_eq(name, "pw") {
        r.push(copy_str("password "));
        r.push(copy_str("pass "));
        r.push(copy_str("pw "));
    } else {
        let mut p = copy_str(name);
        push_str(&mut p, " ");
        r.push(p);
    }
    assert(string_views(r@) =~= prefixes_for(name@));
    r
}

/// The case-preserving path for one prefix.
fn token_after_exec(goal: &[char], prefix: &[char]) -> (r: Option<Option<Vec<char>>>)
    ensures
        match r {
            None => token_after(goal@, prefix@) is None,
            Some(None) => token_after(goal@, prefix@) == Some(None::<Seq<char>>),
            Some(Some(t)) => token_after(goal@, prefix@) == Some(Some(t@)),
        },
{
    let lows = char_lowers(goal);
    let pos = match ci_find_exec(&lows, goal, prefix) {
        None => {
            return Some(None);
        },
        Some(p) => p,
    };
    assert(ci_find(goal@, prefix@, 0) == Some(pos as nat));
    let n = goal.len();
    assert(pos + prefix@.len() <= n);
    let tail = slice_vec(goal, pos + prefix.len(), goal.len());
    assert(tail@ =~= goal@.skip((pos + prefix@.len()) as int));
    let mut e: usize = 0;
    while e < tail.len() && !is_ws_exec(tail[e])
        invariant
            e <= tail@.len(),
            word_run(tail@, 0) == e + word_run(tail@, e as nat),
        decreases tail@.len() - e,
    {
        e = e + 1;
    }
    let tok = slice_vec(tail.as_slice(), 0, e);
    assert(tok@ =~= leading_token(tail@));
    if tok.len() == 0 {
        Some(None)
    } else {
        Some(Some(tok))
    }
}

/// The token after the first prefix (in order) found in `text`.
fn credential_in_exec(text: &[char], prefixes: &Vec<String>) -> (r: Option<Vec<char>>)
    ensures
        match r {
            Some(t) => credential_in(text@, string_views(prefixes@)) == Some(t@),
            None => credential_in(text@, string_views(prefixes@)) is None,
        },
{
    let ghost ps = string_views(prefixes@);
    let mut i: usize = 0;
    assert(ps.skip(0) =~= ps);
    while i < prefixes.len()
        invariant
            i <= prefixes@.len(),
            ps == string_views(prefixes@),
            credential_in(text@, ps) == credential_in(text@, ps.skip(i as int)),
        decreases prefixes@.len() - i,
    {
        let pv = chars_of(prefixes[i].as_str());
        proof {
            assert(ps.skip(i as int)[0] == pv@);
            assert(ps.skip(i as int).drop_first() =~= ps.skip(i + 1));
        }
        if let Some(pos) = find_exec(text, pv.as_slice()) {
            proof {
                lemma_find_contains(text@, pv@);
            }
            let tlen = text.len();
            assert(pos + pv@.len() <= tlen);
            let tail = slice_vec(text, pos + pv.len(), text.len());
            assert(tail@ =~= text@.skip((pos + pv@.len()) as int));
            let ws = words_exec(tail.as_slice());
            if ws.len() > 0 {
                let w = slice_vec(ws[0].as_slice(), 0, ws[0].len());
                assert(w@ =~= ws@[0]@);
                return Some(w);
            }
        }
        i = i + 1;
    }
    None
}

/// The value of one parameter: the case-preserving path, then the token in
/// the lower-cased goal.
fn extract_credential_preserve_case(goal: &[char], lower: &[char], prefixes: &Vec<String>) -> (r: Option<Option<Vec<char>>>)
    requires
        lower@ == unicode_lower(goal@),
    ensures
        match r {
            None => credential_value(goal@, string_views(prefixes@)) is None,
            Some(None) => credential_value(goal@, string_views(prefixes@)) == Some(None::<Seq<char>>),
            Some(Some(t)) => credential_value(goal@, string_views(prefixes@)) == Some(Some(t@)),
        },
{
    let ghost ps = string_views(prefixes@);
    let mut i: usize = 0;
    assert(ps.skip(0) =~= ps);
    while i < prefixes.len()
        invariant
            i <= prefixes@.len(),
            ps == string_views(prefixes@),
            lower@ == unicode_lower(goal@),
            case_preserving(goal@, ps) == case_preserving(goal@, ps.skip(i as int)),
        decreases prefixes@.len() - i,
    {
        let pv = chars_of(prefixes[i].as_str());
        proof {
            assert(ps.skip(i as int)[0] == pv@);
            assert(ps.skip(i as int).drop_first() =~= ps.skip(i + 1));
        }
        match token_after_exec(goal, pv.as_slice()) {
            None => return None,
            Some(Some(t)) => return Some(Some(t)),
            Some(None) => {},
        }
        i = i + 1;
    }
    assert(ps.skip(i as int) =~= Seq::<Seq<char>>::empty());
    Some(credential_in_exec(lower, prefixes))
}

/// Reading a goal never fails: every prefix path gives a token or none.
proof fn lemma_case_preserving_some(goal: Seq<char>, prefixes: Seq<Seq<char>>)
    ensures
        case_preserving(goal, prefixes) is Some,
    decreases prefixes.len(),
{
    if prefixes.len() > 0 {
        lemma_case_preserving_some(goal, prefixes.drop_first());
    }
}

/// The parameters of any goal can be read.
pub proof fn lemma_extracted_some(goal: Seq<char>, names: Seq<Seq<char>>, i: nat, acc: Seq<(Seq<char>, Seq<char>)>)
    ensures
        extracted_from(goal, names, i, acc) is Some,
    decreases names.len() - i,
{
    if i < names.len() {
        lemma_case_preserving_some(goal, prefixes_for(names[i as int]));
        match credential_value(goal, prefixes_for(names[i as int])) {
            Some(Some(v)) => lemma_extracted_some(goal, names, i + 1, upsert(acc, names[i as int], v)),
            _ => lemma_extracted_some(goal, names, i + 1, acc),
        }
    }
}

/// Parameters for all names.
fn extract_core(goal: &str, param_names: &[String]) -> (r: Option<Params>)
    ensures
        match r {
            Some(p) => extracted(goal@, string_views(param_names@)) == Some(p@),
            None => extracted(goal@, string_views(param_names@)) is None,
        },
{
    let gv = chars_of(goal);
    let lower = to_lower(goal);
    let lv = chars_of(lower.as_str());
    let ghost names = string_views(param_names@);
    let mut params = Params::new();
    let mut i: usize = 0;
    while i < param_names.len()
        invariant
            i <= param_names@.len(),
            names == string_views(param_names@),
            gv@ == goal@,
            lv@ == unicode_lower(goal@),
            extracted(goal@, names) == extracted_from(goal@, names, i as nat, params@),
        decreases param_names@.len() - i,
    {
        let name = &param_names[i];
        let prefixes = prefixes_exec(name.as_str());
        assert(names[i as int] == name@);
        match extract_credential_preserve_case(gv.as_slice(), lv.as_slice(), &prefixes) {
            None => return None,
            Some(None) => {},
            Some(Some(v)) => {
                params.insert(name.clone(), string_of(v.as_slice()));
            },
        }
        i = i + 1;
    }
    Some(params)
}

/// Extract parameter values from a goal string.
///
/// Each name has goal keywords: `username`, `user` and `email` try
/// `as `, `user `, `username `, `email `, `login `; `password`, `pass` and
/// `pw` try `password `, `pass `, `pw `; any other name tries `<name> `.
/// A keyword is located in the goal case-insensitively, character by
/// character, and the value is the token that follows it in the given
/// goal, so its case is kept; when no keyword gives one, the token after a
/// keyword in the lower-cased goal is taken.
pub fn extract_params(goal: &str, param_names: &[String]) -> (r: Params)
    ensures
        extracted(goal@, string_views(param_names@)) == Some(r@),
{
    proof {
        lemma_extracted_some(goal@, string_views(param_names@), 0, seq![]);
    }
    match extract_core(goal, param_names) {
        Some(p) => p,
        None => Params::new(),
    }
}

} // verus!
