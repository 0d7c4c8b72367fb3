//! jq queries over the JSON form of a page, run by the `jaq` crates, on a
//! fragment of jq whose queries always end.
use vstd::prelude::*;

use jaq_core::data::JustLut;
use jaq_core::load::{Arena, File, Loader};
use jaq_core::{defs as core_defs, funs as core_funs, unwrap_valr, Compiler, Ctx, Vars};
use jaq_json::read::parse_single;
use jaq_json::{defs as json_defs, funs as json_funs, Val};
use jaq_std::{defs as std_defs, funs as std_funs};

use crate::text::{chars_of, copy_str, debug_string, debug_text, push_str, string_of, slice_vec, str_eq, string_views};
use crate::tools::{jq_answer, JqAnswer};

verus! {

// ── The supported fragment ───────────────────────────────────────────

/// Deepest bracket nesting accepted in the JSON input.
pub const MAX_INPUT_DEPTH: usize = 64;

/// Deepest bracket nesting accepted in a query.
pub const MAX_QUERY_DEPTH: usize = 32;

/// Longest query accepted, in characters.
pub const MAX_QUERY_LEN: usize = 512;

/// Where a left-to-right scan of a text stands: the bracket depth, whether
/// it is inside a string literal, whether the last character was a
/// backslash escape inside one, and the deepest nesting so far.
pub struct ScanState {
    pub depth: nat,
    pub in_str: bool,
    pub escaped: bool,
    pub deepest: nat,
}

/// The scan after one more character: `"` opens and closes strings (a
/// backslash escapes the next character inside one), and outside strings
/// `(`, `[` and `{` open a level and `)`, `]` and `}` close one.
pub open spec fn scan_step(st: ScanState, c: char) -> ScanState {
    if st.in_str {
        if st.escaped {
            ScanState { escaped: false, ..st }
        } else if c == '\\' {
            ScanState { escaped: true, ..st }
        } else if c == '"' {
            ScanState { in_str: false, ..st }
        } else {
            st
        }
    } else if c == '"' {
        ScanState { in_str: true, ..st }
    } else if c == '(' || c == '[' || c == '{' {
        ScanState {
            depth: st.depth + 1,
            deepest: if st.depth + 1 > st.deepest { st.depth + 1 } else { st.deepest },
            ..st
        }
    } else if c == ')' || c == ']' || c == '}' {
        ScanState { depth: if st.depth > 0 { (st.depth - 1) as nat } else { 0 }, ..st }
    } else {
        st
    }
}

/// The scan of the first `n` characters.
pub open spec fn scan(s: Seq<char>, n: nat) -> ScanState
    decreases n,
{
    if n == 0 || n > s.len() {
        ScanState { depth: 0, in_str: false, escaped: false, deepest: 0 }
    } else {
        scan_step(scan(s, (n - 1) as nat), s[n - 1])
    }
}

/// The JSON text nests brackets at most [`MAX_INPUT_DEPTH`] deep.
pub open spec fn input_supported(input: Seq<char>) -> bool {
    scan(input, input.len()).deepest <= MAX_INPUT_DEPTH
}

/// A character of a jq identifier.
pub open spec fn ident_char(c: char) -> bool {
    ('a' <= c && c <= 'z') || ('A' <= c && c <= 'Z') || ('0' <= c && c <= '9') || c == '_'
}

/// A character that starts a jq identifier.
pub open spec fn ident_first(c: char) -> bool {
    ('a' <= c && c <= 'z') || ('A' <= c && c <= 'Z') || c == '_'
}

/// Length of the run of identifier characters at `i`.
pub open spec fn ident_run(q: Seq<char>, i: nat) -> nat
    decreases q.len() - i,
{
    if i >= q.len() || !ident_char(q[i as int]) {
        0
    } else {
        1 + ident_run(q, i + 1)
    }
}

/// The builtins a supported query may call: each ends on every finite
/// input, and none reads the clock, the environment or further inputs.
pub open spec fn allowed_word(w: Seq<char>) -> bool {
    ||| w == "map"@ ||| w == "select"@ ||| w == "length"@ ||| w == "keys"@
    ||| w == "values"@ ||| w == "has"@ ||| w == "type"@ ||| w == "not"@
    ||| w == "and"@ ||| w == "or"@ ||| w == "if"@ ||| w == "then"@
    ||| w == "elif"@ ||| w == "else"@ ||| w == "end"@ ||| w == "first"@
    ||| w == "last"@ ||| w == "add"@ ||| w == "min"@ ||| w == "max"@
    ||| w == "unique"@ ||| w == "sort"@ ||| w == "reverse"@ ||| w == "to_entries"@
    ||| w == "from_entries"@ ||| w == "any"@ ||| w == "all"@ ||| w == "empty"@
    ||| w == "null"@ ||| w == "true"@ ||| w == "false"@ ||| w == "tostring"@
    ||| w == "contains"@ ||| w == "startswith"@ ||| w == "endswith"@ ||| w == "join"@
    ||| w == "ascii_downcase"@ ||| w == "ascii_upcase"@
}

/// An identifier starts at `i`, outside a string literal.
pub open spec fn word_start(q: Seq<char>, i: int) -> bool {
    &&& 0 <= i < q.len()
    &&& ident_first(q[i])
    &&& (i == 0 || !ident_char(q[i - 1]))
    &&& !scan(q, i as nat).in_str
}

/// The identifier at `i` is a field name (after `.`), an object key
/// (before `:`), or an allowed builtin.
pub open spec fn word_ok(q: Seq<char>, i: int) -> bool {
    let e = i + ident_run(q, i as nat);
    ||| (i > 0 && q[i - 1] == '.')
    ||| (e < q.len() && q[e] == ':')
    ||| allowed_word(q.subrange(i, e))
}

/// A query in the fragment this library runs: at most [`MAX_QUERY_LEN`]
/// characters, no `$`, `\`, `@` or `#` (so no variables, environment,
/// string interpolation, formats or comments), brackets nested at most
/// [`MAX_QUERY_DEPTH`] deep, and every identifier outside string literals a
/// field name, an object key or an allowed builtin (so no `def`, `reduce`,
/// `repeat`, `range`, `now`, `env` or `input`). Such a query ends on every
/// finite input and its result depends on the query and input alone.
pub open spec fn query_supported(q: Seq<char>) -> bool {
    &&& q.len() <= MAX_QUERY_LEN
    &&& forall|i: int| 0 <= i < q.len() ==> #[trigger] q[i] != '$' && q[i] != '\\' && q[i] != '@'
        && q[i] != '#'
    &&& scan(q, q.len()).deepest <= MAX_QUERY_DEPTH
    &&& forall|i: int| #[trigger] word_start(q, i) ==> word_ok(q, i)
}

fn scan_step_exec(depth: usize, in_str: bool, escaped: bool, deepest: usize, c: char) -> (r: (usize, bool, bool, usize))
    requires
        depth <= deepest,
        deepest < usize::MAX,
    ensures
        ({
            let st = scan_step(ScanState { depth: depth as nat, in_str, escaped, deepest: deepest as nat }, c);
            &&& r.0 == st.depth && r.1 == st.in_str && r.2 == st.escaped && r.3 == st.deepest
            &&& r.0 <= r.3 && r.3 <= deepest + 1
        }),
{
    if in_str {
        if escaped {
            (depth, true, false, deepest)
        } else if c == '\\' {
            (depth, true, true, deepest)
        } else if c == '"' {
            (depth, false, false, deepest)
        } else {
            (depth, in_str, escaped, deepest)
        }
    } else if c == '"' {
        (depth, true, escaped, deepest)
    } else if c == '(' || c == '[' || c == '{' {
        let d = depth + 1;
        (d, in_str, escaped, if d > deepest { d } else { deepest })
    } else if c == ')' || c == ']' || c == '}' {
        (if depth > 0 { depth - 1 } else { 0 }, in_str, escaped, deepest)
    } else {
        (depth, in_str, escaped, deepest)
    }
}

/// Whether a JSON text nests brackets at most [`MAX_INPUT_DEPTH`] deep.
pub fn jq_input_supported(input: &str) -> (b: bool)
    ensures
        b == input_supported(input@),
{
    let v = chars_of(input);
    let mut depth: usize = 0;
    let mut in_str = false;
    let mut escaped = false;
    let mut deepest: usize = 0;
    let mut i: usize = 0;
    while i < v.len()
        invariant
            i <= v@.len(),
            v@ == input@,
            depth <= deepest <= MAX_INPUT_DEPTH,
            scan(v@, i as nat) == (ScanState { depth: depth as nat, in_str, escaped, deepest: deepest as nat }),
        decreases v@.len() - i,
    {
        let r = scan_step_exec(depth, in_str, escaped, deepest, v[i]);
        depth = r.0;
        in_str = r.1;
        escaped = r.2;
        deepest = r.3;
        if deepest > MAX_INPUT_DEPTH {
            proof {
                lemma_scan_deepest_grows(v@, (i + 1) as nat, v@.len());
            }
            return false;
        }
        i = i + 1;
    }
    true
}

/// The deepest nesting only grows as the scan goes on.
proof fn lemma_scan_deepest_grows(s: Seq<char>, a: nat, b: nat)
    requires
        a <= b <= s.len(),
    ensures
        scan(s, a).deepest <= scan(s, b).deepest,
    decreases b - a,
{
    if a < b {
        lemma_scan_deepest_grows(s, a, (b - 1) as nat);
    }
}

fn allowed_word_exec(w: &str) -> (b: bool)
    ensures
        b == allowed_word(w@),
{
    str_eq(w, "map") || str_eq(w, "select") || str_eq(w, "length") || str_eq(w, "keys")
        || str_eq(w, "values") || str_eq(w, "has") || str_eq(w, "type") || str_eq(w, "not")
        || str_eq(w, "and") || str_eq(w, "or") || str_eq(w, "if") || str_eq(w, "then")
        || str_eq(w, "elif") || str_eq(w, "else") || str_eq(w, "end") || str_eq(w, "first")
        || str_eq(w, "last") || str_eq(w, "add") || str_eq(w, "min") || str_eq(w, "max")
        || str_eq(w, "unique") || str_eq(w, "sort") || str_eq(w, "reverse") || str_eq(
        w,
        "to_entries",
    ) || str_eq(w, "from_entries") || str_eq(w, "any") || str_eq(w, "all") || str_eq(w, "empty")
        || str_eq(w, "null") || str_eq(w, "true") || str_eq(w, "false") || str_eq(w, "tostring")
        || str_eq(w, "contains") || str_eq(w, "startswith") || str_eq(w, "endswith") || str_eq(
        w,
        "join",
    ) || str_eq(w, "ascii_downcase") || str_eq(w, "ascii_upcase")
}

fn ident_char_exec(c: char) -> (b: bool)
    ensures
        b == ident_char(c),
{
    ('a' <= c && c <= 'z') || ('A' <= c && c <= 'Z') || ('0' <= c && c <= '9') || c == '_'
}

/// The end of the identifier run at `i`.
fn ident_end(q: &[char], i: usize) -> (e: usize)
    requires
        i <= q@.len(),
    ensures
        e == i + ident_run(q@, i as nat),
        e <= q@.len(),
{
    let mut e: usize = i;
    while e < q.len() && ident_char_exec(q[e])
        invariant
            i <= e <= q@.len(),
            ident_run(q@, i as nat) == (e - i) + ident_run(q@, e as nat),
        decreases q@.len() - e,
    {
        e = e + 1;
    }
    e
}

/// Whether a query is in the supported fragment ([`query_supported`]).
pub fn jq_query_supported(query: &str) -> (b: bool)
    ensures
        b == query_supported(query@),
{
    let q = chars_of(query);
    if q.len() > MAX_QUERY_LEN {
        return false;
    }
    let mut depth: usize = 0;
    let mut in_str = false;
    let mut escaped = false;
    let mut deepest: usize = 0;
    let mut i: usize = 0;
    while i < q.len()
        invariant
            i <= q@.len() <= MAX_QUERY_LEN,
            q@ == query@,
            depth <= deepest <= MAX_QUERY_DEPTH,
            scan(q@, i as nat) == (ScanState { depth: depth as nat, in_str, escaped, deepest: deepest as nat }),
            forall|j: int| 0 <= j < i ==> #[trigger] q@[j] != '$' && q@[j] != '\\' && q@[j] != '@'
                && q@[j] != '#',
            forall|j: int| 0 <= j < i && #[trigger] word_start(q@, j) ==> word_ok(q@, j),
        decreases q@.len() - i,
    {
        let c = q[i];
        if c == '$' || c == '\\' || c == '@' || c == '#' {
            return false;
        }
        if !in_str && (('a' <= c && c <= 'z') || ('A' <= c && c <= 'Z') || c == '_') && (i == 0
            || !ident_char_exec(q[i - 1])) {
            assert(word_start(q@, i as int));
            let e = ident_end(q.as_slice(), i);
            let after_dot = i > 0 && q[i - 1] == '.';
            let before_colon = e < q.len() && q[e] == ':';
            let w = string_of(slice_vec(q.as_slice(), i, e).as_slice());
            if !(after_dot || before_colon || allowed_word_exec(w.as_str())) {
                return false;
            }
            assert(word_ok(q@, i as int));
        } else {
            assert(!word_start(q@, i as int));
        }
        let r = scan_step_exec(depth, in_str, escaped, deepest, c);
        depth = r.0;
        in_str = r.1;
        escaped = r.2;
        deepest = r.3;
        if deepest > MAX_QUERY_DEPTH {
            proof {
                lemma_scan_deepest_grows(q@, (i + 1) as nat, q@.len());
            }
            return false;
        }
        i = i + 1;
    }
    true
}

// ── Running a query ──────────────────────────────────────────────────

/// What running the jq program `query` on the JSON text `input` gives,
/// with the jq core, standard and JSON definitions loaded: each output
/// value as JSON text (`jaq_json`'s writer), in output order, or the
/// message of the first failure (loading, compiling, reading the input or
/// running). A function of the two texts for queries in the supported
/// fragment, which reads neither the clock nor the environment.
pub uninterp spec fn jq_result(query: Seq<char>, input: Seq<char>) -> Result<Seq<Seq<char>>, Seq<char>>;

/// A list of outputs, or an error, by the views of its strings.
pub open spec fn outputs_view(r: Result<Vec<String>, String>) -> Result<Seq<Seq<char>>, Seq<char>> {
    match r {
        Ok(v) => Ok(string_views(v@)),
        Err(e) => Err(e@),
    }
}

/// `jaq_core`'s loader, compiler and interpreter with the core, standard
/// and JSON definitions, and `jaq_json`'s reader (`parse_single`) and
/// writer: runs `query` on the JSON text `input`. The result is named by
/// [`jq_result`]. The query is in the supported fragment, so it ends and
/// its recursion is bounded by its nesting; the input nests at most
/// [`MAX_INPUT_DEPTH`] deep, which bounds the reader's recursion.
#[verifier::external_body]
fn jq_outputs(query: &str, input: &str) -> (r: Result<Vec<String>, String>)
    requires
        query_supported(query@),
        input_supported(input@),
    ensures
        outputs_view(r) == jq_result(query@, input@),
{
    let arena = Arena::default();
    let filter = Compiler::default().with_funs(core_funs().chain(std_funs()).chain(json_funs())).compile(Loader::new(core_defs().chain(std_defs()).chain(json_defs())).load(&arena, File { code: query, path: () }).map_err(|e| format!("load error: {e:?}"))?).map_err(|e| format!("compile error: {e:?}"))?;
    filter.id.run((Ctx::<JustLut<Val>>::new(&filter.lut, Vars::default()), parse_single(input.as_bytes()).map_err(|e| format!("cannot feed input to jaq: {e}"))?)).map(|r| unwrap_valr(r).map(|v| v.to_string()).map_err(|e| format!("runtime error: {e}"))).collect()
}

/// What `serde_json::from_str::<Value>` reports for a text: `None` when it
/// decodes, else the error's `Display` text.
pub uninterp spec fn json_decode_error(s: Seq<char>) -> Option<Seq<char>>;

/// `serde_json::from_str::<serde_json::Value>(s)`, reduced to its error's
/// `Display` text. The result is named by [`json_decode_error`].
#[verifier::external_body]
fn json_decodes(s: &str) -> (r: Option<String>)
    ensures
        opt_text(r) == json_decode_error(s@),
{
    match serde_json::from_str::<serde_json::Value>(s) {
        Ok(_) => None,
        Err(e) => Some(e.to_string()),
    }
}

/// An optional string by its view.
pub open spec fn opt_text(o: Option<String>) -> Option<Seq<char>> {
    match o {
        Some(s) => Some(s@),
        None => None,
    }
}

/// The first output that is not valid JSON, by its decode error, with the
/// `output decode error: ` prefix.
pub open spec fn first_decode_error(outs: Seq<Seq<char>>) -> Option<Seq<char>>
    decreases outs.len(),
{
    if outs.len() == 0 {
        None
    } else {
        match json_decode_error(outs[0]) {
            Some(e) => Some("output decode error: "@ + e),
            None => first_decode_error(outs.drop_first()),
        }
    }
}

/// The message of a failed jq query.
pub open spec fn jq_failure(query: Seq<char>, reason: Seq<char>) -> Seq<char> {
    "jq query "@ + debug_text(query) + " failed: "@ + reason
}

/// The answer shaped from these outputs: `null` for none, the one output,
/// or the array of them in order.
pub open spec fn answer_of(a: JqAnswer, outs: Seq<Seq<char>>) -> bool {
    if outs.len() == 0 {
        a is Null
    } else if outs.len() == 1 {
        a matches JqAnswer::One(v) && v@ == outs[0]
    } else {
        a matches JqAnswer::Many(vs) && string_views(vs@) == outs
    }
}

fn check_outputs(outs: &Vec<String>) -> (r: Option<String>)
    ensures
        opt_text(r) == first_decode_error(string_views(outs@)),
{
    let ghost all = string_views(outs@);
    let mut i: usize = 0;
    assert(all.skip(0) =~= all);
    while i < outs.len()
        invariant
            i <= outs@.len(),
            all == string_views(outs@),
            first_decode_error(all) == first_decode_error(all.skip(i as int)),
        decreases outs@.len() - i,
    {
        assert(all.skip(i as int)[0] == outs@[i as int]@);
        assert(all.skip(i as int).drop_first() =~= all.skip(i + 1));
        if let Some(e) = json_decodes(outs[i].as_str()) {
            let mut m = copy_str("output decode error: ");
            push_str(&mut m, e.as_str());
            return Some(m);
        }
        i = i + 1;
    }
    assert(all.skip(i as int) =~= Seq::<Seq<char>>::empty());
    None
}

/// Run a jq query over a page's JSON (`lad_jq`): each output must decode
/// as JSON, and the outputs are shaped into the answer (`null`, the one
/// value, or the array of them); a failure (of jq or of decoding an
/// output) is reported with the query quoted and the reason.
pub fn lad_jq(query: &str, view_json: &str) -> (r: Result<JqAnswer, String>)
    requires
        query_supported(query@),
        input_supported(view_json@),
    ensures
        match jq_result(query@, view_json@) {
            Err(e) => r matches Err(m) && m@ == jq_failure(query@, e),
            Ok(outs) => match first_decode_error(outs) {
                Some(e) => r matches Err(m) && m@ == jq_failure(query@, e),
                None => r matches Ok(a) && answer_of(a, outs),
            },
        },
{
    let reason = match jq_outputs(query, view_json) {
        Ok(outputs) => match check_outputs(&outputs) {
            None => {
                let a = jq_answer(outputs);
                return Ok(a);
            },
            Some(e) => e,
        },
        Err(e) => e,
    };
    let mut m = copy_str("jq query ");
    let q = debug_string(query);
    push_str(&mut m, q.as_str());
    push_str(&mut m, " failed: ");
    push_str(&mut m, reason.as_str());
    Err(m)
}

} // verus!
