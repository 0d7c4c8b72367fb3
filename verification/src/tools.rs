//! Decisions of the tool server around the browser work: the session
//! record kept across browse calls, the step budget of a browse, which
//! elements a batch form fill writes to and which button submits it, and
//! the request filter of the network tool.
use vstd::prelude::*;

use crate::assertions::{check_assertion, holds};
use crate::helpers::{build_element_js, element_script};
use crate::network::{find_req, is_new_record, lemma_find_req_from, CapturedRequest, NetworkCapture, RequestKind};
use crate::sanitize::{redact_credentials_from_goal, redact_url_secrets, replaced_or_same, goal_credential_pattern};
use crate::semantic::{Element, ElementKind, ElementModel, SemanticView, models};
use crate::target::{js_escape, js_escaped};
use crate::text::{
    ascii_lower, ascii_lower_exec, chars_of, contains, contains_exec, copy_str, dec, eq_lit, has,
    push_dec, push_str, str_eq, string_views, to_lower, unicode_lower, lemma_dec_injective,
};
use crate::weburl::{redacted_url, url_len_ok};

verus! {

// ── Session record ───────────────────────────────────────────────────

/// The most URLs the session remembers.
pub const VISITED_CAP: usize = 100;

/// What the server remembers across browse calls.
#[derive(Debug, Clone)]
pub struct McpSessionState {
    /// Whether a browse whose goal was to log in has succeeded.
    pub authenticated: bool,
    /// Number of browse calls.
    pub browse_count: u32,
    /// Visited URLs, secrets redacted, most recent last.
    pub visited_urls: Vec<String>,
    /// The last goal that succeeded, credentials redacted.
    pub last_success_goal: Option<String>,
}

impl Default for McpSessionState {
    fn default() -> (s: Self)
        ensures
            !s.authenticated,
            s.browse_count == 0,
            s.visited_urls@.len() == 0,
            s.last_success_goal is None,
    {
        McpSessionState {
            authenticated: false,
            browse_count: 0,
            visited_urls: Vec::new(),
            last_success_goal: None,
        }
    }
}

/// A goal is about logging in.
pub open spec fn is_login_goal(goal: Seq<char>) -> bool {
    contains(unicode_lower(goal), "login"@) || contains(unicode_lower(goal), "sign in"@)
}

impl McpSessionState {
    /// Record a finished browse: one more call, the URL (redacted) appended
    /// with the oldest dropped beyond the cap, and, on success, the goal
    /// (credentials redacted), which authenticates the session when it is
    /// about logging in.
    pub fn record_browse(&mut self, url: &str, goal: &str, success: bool)
        requires
            old(self).browse_count < u32::MAX,
            url_len_ok(url@),
        ensures
            final(self).browse_count == old(self).browse_count + 1,
            ({
                let pushed = old(self).visited_urls@.map_values(|s: String| s@).push(redacted_url(url@));
                final(self).visited_urls@.map_values(|s: String| s@) == if pushed.len()
                    > VISITED_CAP {
                    pushed.drop_first()
                } else {
                    pushed
                }
            }),
            success ==> (final(self).last_success_goal matches Some(g) && g@ == replaced_or_same(
                goal_credential_pattern(),
                goal@,
                "$1 [REDACTED]"@,
            )),
            !success ==> final(self).last_success_goal == old(self).last_success_goal,
            final(self).authenticated == (old(self).authenticated || (success && is_login_goal(
                goal@,
            ))),
    {
        self.browse_count = self.browse_count + 1;
        let ghost before = self.visited_urls@.map_values(|s: String| s@);
        let r = redact_url_secrets(url);
        let ghost rv = r@;
        self.visited_urls.push(r);
        assert(self.visited_urls@.map_values(|s: String| s@) =~= before.push(rv));
        if self.visited_urls.len() > VISITED_CAP {
            let ghost full = self.visited_urls@;
            self.visited_urls.remove(0);
            assert(self.visited_urls@.map_values(|s: String| s@) =~= full.map_values(
                |s: String| s@,
            ).drop_first());
        }
        if success {
            self.last_success_goal = Some(redact_credentials_from_goal(goal));
            let lower = to_lower(goal);
            let lv = chars_of(lower.as_str());
            if has(lv.as_slice(), "login") || has(lv.as_slice(), "sign in") {
                self.authenticated = true;
            }
        }
    }
}

/// The session's URL list stays within the cap: appending a URL to a list
/// within the cap and dropping the oldest beyond it leaves a list within
/// the cap that ends with the new URL.
pub proof fn lemma_visited_stays_capped(before: Seq<Seq<char>>, url: Seq<char>)
    requires
        before.len() <= VISITED_CAP,
    ensures
        ({
            let pushed = before.push(url);
            let after = if pushed.len() > VISITED_CAP {
                pushed.drop_first()
            } else {
                pushed
            };
            after.len() <= VISITED_CAP && after.last() == url
        }),
{
}

/// The step budget of a browse: at most 50.
pub fn clamp_max_steps(requested: u32) -> (r: u32)
    ensures
        r == if requested < 50 { requested } else { 50 },
{
    if requested < 50 {
        requested
    } else {
        50
    }
}

// ── Batch form fill ──────────────────────────────────────────────────

/// Script text before a field's escaped value.
pub const FILL_JS_HEAD: &'static str = r#"el.focus();
const nativeSetter = Object.getOwnPropertyDescriptor(
el.tagName === 'TEXTAREA' ? HTMLTextAreaElement.prototype : HTMLInputElement.prototype,
'value'
)?.set;
if (nativeSetter) { nativeSetter.call(el, '"#;

/// Script text between the two copies of the escaped value.
pub const FILL_JS_MID: &'static str = r#"'); }
else { el.value = '"#;

/// Script text after the escaped value.
pub const FILL_JS_TAIL: &'static str = r#"'; }
el.dispatchEvent(new Event('input', { bubbles: true }));
el.dispatchEvent(new Event('change', { bubbles: true }));"#;

/// The script body that sets an element's value through the native setter
/// (so framework-controlled inputs see it) and fires `input` and `change`.
pub open spec fn fill_body(escaped: Seq<char>) -> Seq<char> {
    FILL_JS_HEAD@ + escaped + FILL_JS_MID@ + escaped + FILL_JS_TAIL@
}

/// The element is in the requested form (any form when none is).
pub open spec fn in_form(e: ElementModel, form_index: Option<u32>) -> bool {
    match form_index {
        Some(f) => e.form_index == Some(f),
        None => true,
    }
}

/// The element's label, name or placeholder (lower-cased) contains the
/// lower-cased field key.
pub open spec fn field_matches(e: ElementModel, key_lower: Seq<char>) -> bool {
    ||| contains(unicode_lower(e.label), key_lower)
    ||| (e.name matches Some(n) && contains(unicode_lower(n), key_lower))
    ||| (e.placeholder matches Some(p) && contains(unicode_lower(p), key_lower))
}

/// The first element of the form that a field key matches.
pub open spec fn first_field_match(els: Seq<ElementModel>, key_lower: Seq<char>, form_index: Option<u32>) -> Option<ElementModel>
    decreases els.len(),
{
    if els.len() == 0 {
        None
    } else if in_form(els[0], form_index) && field_matches(els[0], key_lower) {
        Some(els[0])
    } else {
        first_field_match(els.drop_first(), key_lower, form_index)
    }
}

/// The fill script for the fields, in order, and how many fields found an
/// element: each matched field adds its element's script and `";\n"`.
pub open spec fn fill_script(
    els: Seq<ElementModel>,
    fields: Seq<(Seq<char>, Seq<char>)>,
    form_index: Option<u32>,
) -> (Seq<char>, nat)
    decreases fields.len(),
{
    if fields.len() == 0 {
        (seq![], 0)
    } else {
        let prev = fill_script(els, fields.drop_last(), form_index);
        let f = fields.last();
        match first_field_match(els, unicode_lower(f.0), form_index) {
            Some(e) => (
                prev.0 + element_script(dec(e.id as nat), fill_body(js_escaped(f.1))) + ";\n"@,
                prev.1 + 1,
            ),
            None => prev,
        }
    }
}

/// A button of the form that submits it: of type `submit` (any ASCII
/// case), or labelled like submitting (submit, login, log in, sign in, sign
/// up, register, continue, send, save).
pub open spec fn is_submit_button(e: ElementModel, form_index: Option<u32>) -> bool {
    let l = unicode_lower(e.label);
    &&& in_form(e, form_index)
    &&& e.kind == ElementKind::Button
    &&& {
        ||| (e.input_type matches Some(t) && ascii_lower(t) == "submit"@)
        ||| contains(l, "submit"@) || contains(l, "login"@) || contains(l, "log in"@)
        ||| contains(l, "sign in"@) || contains(l, "sign up"@) || contains(l, "register"@)
        ||| contains(l, "continue"@) || contains(l, "send"@) || contains(l, "save"@)
    }
}

/// The id of the first submit button of the form.
pub open spec fn first_submit(els: Seq<ElementModel>, form_index: Option<u32>) -> Option<u32>
    decreases els.len(),
{
    if els.len() == 0 {
        None
    } else if is_submit_button(els[0], form_index) {
        Some(els[0].id)
    } else {
        first_submit(els.drop_first(), form_index)
    }
}

/// What a batch form fill will do.
#[derive(Debug)]
pub struct FillPlan {
    /// One script filling every matched field.
    pub script: String,
    /// How many fields found an element.
    pub matched: u32,
    /// The button to click afterwards, when submitting and one was found.
    pub submit_button: Option<u32>,
}

/// Why a batch form fill cannot be done.
#[derive(Debug, Clone, Copy, PartialEq, Eq, Structural)]
pub enum FillFormError {
    /// No fields were given and no submission was asked for.
    EmptyFields,
    /// Fields were given but none matched an element.
    NoMatch,
}

/// Views of field pairs.
pub open spec fn field_views(v: Seq<(String, String)>) -> Seq<(Seq<char>, Seq<char>)> {
    v.map_values(|p: (String, String)| (p.0@, p.1@))
}

fn field_matches_exec(e: &Element, key_lower: &[char]) -> (b: bool)
    ensures
        b == field_matches(e@, key_lower@),
{
    let l = to_lower(e.label.as_str());
    if contains_exec(chars_of(l.as_str()).as_slice(), key_lower) {
        return true;
    }
    if let Some(n) = &e.name {
        let nl = to_lower(n.as_str());
        if contains_exec(chars_of(nl.as_str()).as_slice(), key_lower) {
            return true;
        }
    }
    if let Some(p) = &e.placeholder {
        let pl = to_lower(p.as_str());
        if contains_exec(chars_of(pl.as_str()).as_slice(), key_lower) {
            return true;
        }
    }
    false
}

fn in_form_exec(e: &Element, form_index: Option<u32>) -> (b: bool)
    ensures
        b == in_form(e@, form_index),
{
    match form_index {
        Some(f) => e.form_index == Some(f),
        None => true,
    }
}

fn first_field_match_exec(els: &Vec<Element>, key_lower: &[char], form_index: Option<u32>) -> (r: Option<usize>)
    ensures
        match r {
            Some(i) => i < els@.len() && first_field_match(models(els@), key_lower@, form_index)
                == Some(els@[i as int]@),
            None => first_field_match(models(els@), key_lower@, form_index) is None,
        },
{
    let ghost ms = models(els@);
    let mut i: usize = 0;
    assert(ms.skip(0) =~= ms);
    while i < els.len()
        invariant
            i <= els@.len(),
            ms == models(els@),
            first_field_match(ms, key_lower@, form_index) == first_field_match(
                ms.skip(i as int),
                key_lower@,
                form_index,
            ),
        decreases els@.len() - i,
    {
        assert(ms.skip(i as int)[0] == els@[i as int]@);
        assert(ms.skip(i as int).drop_first() =~= ms.skip(i + 1));
        if in_form_exec(&els[i], form_index) && field_matches_exec(&els[i], key_lower) {
            return Some(i);
        }
        i = i + 1;
    }
    None
}

fn is_submit_button_exec(e: &Element, form_index: Option<u32>) -> (b: bool)
    ensures
        b == is_submit_button(e@, form_index),
{
    if !in_form_exec(e, form_index) || e.kind != ElementKind::Button {
        return false;
    }
    let typed = match &e.input_type {
        Some(t) => {
            let tl = ascii_lower_exec(chars_of(t.as_str()).as_slice());
            eq_lit(tl.as_slice(), "submit")
        },
        None => false,
    };
    let ls = to_lower(e.label.as_str());
    let lv = chars_of(ls.as_str());
    let l = lv.as_slice();
    typed || has(l, "submit") || has(l, "login") || has(l, "log in") || has(l, "sign in") || has(
        l,
        "sign up",
    ) || has(l, "register") || has(l, "continue") || has(l, "send") || has(l, "save")
}

fn first_submit_exec(els: &Vec<Element>, form_index: Option<u32>) -> (r: Option<u32>)
    ensures
        r == first_submit(models(els@), form_index),
{
    let ghost ms = models(els@);
    let mut i: usize = 0;
    assert(ms.skip(0) =~= ms);
    while i < els.len()
        invariant
            i <= els@.len(),
            ms == models(els@),
            first_submit(ms, form_index) == first_submit(ms.skip(i as int), form_index),
        decreases els@.len() - i,
    {
        assert(ms.skip(i as int)[0] == els@[i as int]@);
        assert(ms.skip(i as int).drop_first() =~= ms.skip(i + 1));
        if is_submit_button_exec(&els[i], form_index) {
            return Some(els[i].id);
        }
        i = i + 1;
    }
    None
}

/// Plan a batch form fill on a page view: each field (key, value) fills
/// the first element of the form (`form_index`, or any) whose label, name
/// or placeholder contains the key, case-insensitively; with `submit`, the
/// form's first submit button is picked. Refused when nothing is asked
/// (no fields, no submit) or when fields were given and none matched.
pub fn plan_fill_form(
    view: &SemanticView,
    fields: &[(String, String)],
    form_index: Option<u32>,
    submit: bool,
) -> (r: Result<FillPlan, FillFormError>)
    requires
        fields@.len() <= u32::MAX,
    ensures
        ({
            let (js, n) = fill_script(models(view.elements@), field_views(fields@), form_index);
            if fields@.len() == 0 && !submit {
                r == Err::<FillPlan, FillFormError>(FillFormError::EmptyFields)
            } else if n == 0 && fields@.len() > 0 {
                r == Err::<FillPlan, FillFormError>(FillFormError::NoMatch)
            } else {
                r matches Ok(plan) && plan.script@ == js && plan.matched == n
                    && plan.submit_button == (if submit {
                    first_submit(models(view.elements@), form_index)
                } else {
                    None
                })
            }
        }),
{
    if fields.len() == 0 && !submit {
        return Err(FillFormError::EmptyFields);
    }
    let ghost els = models(view.elements@);
    let ghost fv = field_views(fields@);
    let mut script = String::new();
    let mut matched: u32 = 0;
    let mut i: usize = 0;
    while i < fields.len()
        invariant
            i <= fields@.len() <= u32::MAX,
            els == models(view.elements@),
            fv == field_views(fields@),
            (script@, matched as nat) == fill_script(els, fv.take(i as int), form_index),
            matched <= i,
        decreases fields@.len() - i,
    {
        proof {
            assert(fv.take(i + 1).drop_last() =~= fv.take(i as int));
            assert(fv.take(i + 1).last() == (fields@[i as int].0@, fields@[i as int].1@));
        }
        let key_lower = to_lower(fields[i].0.as_str());
        let kv = chars_of(key_lower.as_str());
        match first_field_match_exec(&view.elements, kv.as_slice(), form_index) {
            Some(j) => {
                let escaped = js_escape(fields[i].1.as_str());
                let mut body = copy_str(FILL_JS_HEAD);
                push_str(&mut body, escaped.as_str());
                push_str(&mut body, FILL_JS_MID);
                push_str(&mut body, escaped.as_str());
                push_str(&mut body, FILL_JS_TAIL);
                let js = build_element_js(view.elements[j].id, body.as_str());
                push_str(&mut script, js.as_str());
                push_str(&mut script, ";\n");
                matched = matched + 1;
            },
            None => {},
        }
        i = i + 1;
    }
    assert(fv.take(fields@.len() as int) =~= fv);
    if matched == 0 && fields.len() > 0 {
        return Err(FillFormError::NoMatch);
    }
    let submit_button = if submit {
        first_submit_exec(&view.elements, form_index)
    } else {
        None
    };
    Ok(FillPlan { script, matched, submit_button })
}

/// The first line of a batch fill's answer: how many fields were filled,
/// and whether the form was submitted (or no button was found for it).
pub open spec fn fill_summary_text(matched: u32, total: usize, submit: bool, submitted: bool) -> Seq<char> {
    "Filled "@ + dec(matched as nat) + "/"@ + dec(total as nat) + " fields"@ + if submit {
        if submitted {
            " + submitted"@
        } else {
            " (submit requested but no button found)"@
        }
    } else {
        seq![]
    }
}

/// The first line of a batch fill's answer.
pub fn fill_summary(matched: u32, total: usize, submit: bool, submitted: bool) -> (r: String)
    ensures
        r@ == fill_summary_text(matched, total, submit, submitted),
{
    let mut r = copy_str("Filled ");
    push_dec(&mut r, matched as u64);
    push_str(&mut r, "/");
    push_dec(&mut r, total as u64);
    push_str(&mut r, " fields");
    if submit {
        if submitted {
            push_str(&mut r, " + submitted");
        } else {
            push_str(&mut r, " (submit requested but no button found)");
        }
    }
    proof {
        reveal_strlit("");
    }
    r
}

// ── Network tool ─────────────────────────────────────────────────────

/// The request kind a filter name selects (`auth`, `api`, `navigation`,
/// `asset`); any other name selects every request.
pub open spec fn filter_kind_of(filter: Seq<char>) -> Option<RequestKind> {
    if filter == "auth"@ {
        Some(RequestKind::Auth)
    } else if filter == "api"@ {
        Some(RequestKind::Api)
    } else if filter == "navigation"@ {
        Some(RequestKind::Navigation)
    } else if filter == "asset"@ {
        Some(RequestKind::Asset)
    } else {
        None
    }
}

/// The request kind a filter name selects.
pub fn network_filter_kind(filter: &str) -> (r: Option<RequestKind>)
    ensures
        r == filter_kind_of(filter@),
{
    if str_eq(filter, "auth") {
        Some(RequestKind::Auth)
    } else if str_eq(filter, "api") {
        Some(RequestKind::Api)
    } else if str_eq(filter, "navigation") {
        Some(RequestKind::Navigation)
    } else if str_eq(filter, "asset") {
        Some(RequestKind::Asset)
    } else {
        None
    }
}

/// The HTTP method guessed for a resource entry from its initiator type:
/// `POST` for a beacon, `GET` otherwise.
pub fn method_for_initiator(initiator: &str) -> (r: &'static str)
    ensures
        r@ == if initiator@ == "beacon"@ { "POST"@ } else { "GET"@ },
{
    if str_eq(initiator, "beacon") {
        "POST"
    } else {
        "GET"
    }
}

/// The method a performance entry's initiator suggests: `POST` for a
/// beacon, else `GET`.
pub open spec fn initiator_method(initiator: Seq<char>) -> Seq<char> {
    if initiator == "beacon"@ {
        "POST"@
    } else {
        "GET"@
    }
}

/// Build a capture from the page's performance entries, each a URL and its
/// initiator type, in order: entry `i` becomes the request with id `i` (in
/// decimal), its URL, and the method its initiator suggests, classified
/// like any request and without a body.
pub fn capture_entries(entries: &[(String, String)]) -> (c: NetworkCapture)
    ensures
        c.wf(),
        c.requests@.len() == entries@.len(),
        forall|i: int|
            0 <= i < entries@.len() ==> is_new_record(
                #[trigger] c.requests@[i],
                dec(i as nat),
                entries@[i].0@,
                initiator_method(entries@[i].1@),
                None,
            ),
{
    let mut c = NetworkCapture::new();
    let mut i: usize = 0;
    while i < entries.len()
        invariant
            i <= entries@.len(),
            c.wf(),
            c.requests@.len() == i,
            forall|j: int|
                0 <= j < i ==> is_new_record(
                    #[trigger] c.requests@[j],
                    dec(j as nat),
                    entries@[j].0@,
                    initiator_method(entries@[j].1@),
                    None,
                ),
        decreases entries@.len() - i,
    {
        let mut id = String::new();
        push_dec(&mut id, i as u64);
        let method = method_for_initiator(entries[i].1.as_str());
        proof {
            lemma_find_req_from(c.requests@, id@, 0);
            if find_req(c.requests@, id@) is Some {
                let k = find_req(c.requests@, id@)->Some_0;
                assert(c.requests@[k as int].request_id@ == dec(k as nat));
                lemma_dec_injective(k as nat, i as nat);
            }
            reveal_strlit("beacon");
        }
        let ghost before = c.requests@;
        c.on_request(id, copy_str(entries[i].0.as_str()), copy_str(method), None);
        proof {
            assert forall|j: int| 0 <= j < i + 1 implies is_new_record(
                #[trigger] c.requests@[j],
                dec(j as nat),
                entries@[j].0@,
                initiator_method(entries@[j].1@),
                None,
            ) by {
                if j < i {
                    assert(c.requests@[j] == before[j]);
                }
            }
        }
        i = i + 1;
    }
    c
}

/// Indices of the requests from `i` on of the given kind (all kinds with
/// none), in order.
pub open spec fn kind_indices(rs: Seq<CapturedRequest>, kind: Option<RequestKind>, n: nat) -> Seq<nat>
    decreases n,
{
    if n == 0 || n > rs.len() {
        seq![]
    } else {
        let rest = kind_indices(rs, kind, (n - 1) as nat);
        match kind {
            Some(k) => if rs[n - 1].kind == k {
                rest.push((n - 1) as nat)
            } else {
                rest
            },
            None => rest.push((n - 1) as nat),
        }
    }
}

/// The captured requests the network filter keeps, by their indices in
/// capture order: those of the kind, or all when there is no kind.
pub fn requests_of_kind(c: &NetworkCapture, kind: Option<RequestKind>) -> (r: Vec<usize>)
    ensures
        r@.map_values(|i: usize| i as nat) == kind_indices(c.requests@, kind, c.requests@.len()),
{
    let mut r: Vec<usize> = Vec::new();
    let mut i: usize = 0;
    while i < c.requests.len()
        invariant
            i <= c.requests@.len(),
            r@.map_values(|x: usize| x as nat) == kind_indices(c.requests@, kind, i as nat),
        decreases c.requests@.len() - i,
    {
        let keep = match kind {
            Some(k) => c.requests[i].kind == k,
            None => true,
        };
        let ghost before = r@;
        if keep {
            r.push(i);
            assert(r@.map_values(|x: usize| x as nat) =~= before.map_values(|x: usize| x as nat).push(
                i as nat,
            ));
        }
        i = i + 1;
    }
    r
}

// ── Assertions and waits ─────────────────────────────────────────────

/// Evaluate each assertion (lower-cased) against the page and its prompt
/// text; the second result says whether all passed.
pub fn assert_all(assertions: &[String], view: &SemanticView, prompt: &str) -> (r: (Vec<bool>, bool))
    ensures
        r.0@.len() == assertions@.len(),
        forall|i: int| 0 <= i < assertions@.len() ==> #[trigger] r.0@[i] == holds(
            unicode_lower(assertions@[i]@),
            *view,
            prompt@,
        ),
        r.1 == forall|i: int| 0 <= i < assertions@.len() ==> #[trigger] r.0@[i],
{
    let mut results: Vec<bool> = Vec::new();
    let mut all = true;
    let mut i: usize = 0;
    while i < assertions.len()
        invariant
            i <= assertions@.len(),
            results@.len() == i,
            forall|j: int| 0 <= j < i ==> #[trigger] results@[j] == holds(
                unicode_lower(assertions@[j]@),
                *view,
                prompt@,
            ),
            all == forall|j: int| 0 <= j < i ==> #[trigger] results@[j],
        decreases assertions@.len() - i,
    {
        let lower = to_lower(assertions[i].as_str());
        let pass = check_assertion(lower.as_str(), view, prompt);
        let ghost before = results@;
        results.push(pass);
        proof {
            assert(results@[i as int] == pass);
            assert forall|j: int| 0 <= j < i implies #[trigger] results@[j] == before[j] by {}
        }
        all = all && pass;
        proof {
            if all {
                assert forall|j: int| 0 <= j < i + 1 implies #[trigger] results@[j] by {
                    if j < i {
                        assert(before[j]);
                    }
                }
            } else {
                if !pass {
                    assert(!results@[i as int]);
                } else {
                    let j = choose|j: int| 0 <= j < i && !#[trigger] before[j];
                    assert(!results@[j]);
                }
            }
        }
        i = i + 1;
    }
    (results, all)
}

/// The conditions of a wait: the single one first, then the listed ones.
pub open spec fn wait_conditions_of(condition: Option<Seq<char>>, conditions: Option<Seq<Seq<char>>>) -> Seq<Seq<char>> {
    let head: Seq<Seq<char>> = match condition {
        Some(c) => seq![c],
        None => seq![],
    };
    match conditions {
        Some(cs) => head + cs,
        None => head,
    }
}

/// Gather the conditions of a wait from its single and listed forms.
pub fn wait_conditions(condition: &Option<String>, conditions: &Option<Vec<String>>) -> (r: Vec<String>)
    ensures
        string_views(r@) == wait_conditions_of(
            match condition {
                Some(c) => Some(c@),
                None => None,
            },
            match conditions {
                Some(cs) => Some(string_views(cs@)),
                None => None,
            },
        ),
{
    let mut out: Vec<String> = Vec::new();
    if let Some(c) = condition {
        out.push(copy_str(c.as_str()));
    }
    let ghost head = string_views(out@);
    if let Some(cs) = conditions {
        let mut i: usize = 0;
        while i < cs.len()
            invariant
                i <= cs@.len(),
                string_views(out@) == head + string_views(cs@).take(i as int),
            decreases cs@.len() - i,
        {
            let c = copy_str(cs[i].as_str());
            let ghost before = out@;
            out.push(c);
            assert(string_views(out@) =~= string_views(before).push(c@));
            assert(string_views(cs@).take(i + 1) =~= string_views(cs@).take(i as int).push(cs@[i as int]@));
            i = i + 1;
        }
        assert(string_views(cs@).take(cs@.len() as int) =~= string_views(cs@));
    } else {
        assert(head + Seq::<Seq<char>>::empty() =~= head);
    }
    proof {
        match condition {
            Some(c) => assert(head =~= seq![c@]),
            None => assert(head =~= Seq::<Seq<char>>::empty()),
        }
    }
    out
}

/// What one poll of a wait found.
#[derive(Debug, Clone, PartialEq, Eq)]
pub enum WaitVerdict {
    /// In "any" mode: the first condition (by index) that holds.
    Matched(usize),
    /// In "all" mode: every condition holds.
    AllPassed,
    /// Not yet: the indices of the conditions that do not hold.
    Pending(Vec<usize>),
}

/// Poll the wait conditions once against a page: in "any" mode the first
/// that holds, in "all" mode whether all hold; otherwise the failing ones.
pub fn poll_wait(conditions: &[String], any_mode: bool, view: &SemanticView, prompt: &str) -> (r: WaitVerdict)
    ensures
        match r {
            WaitVerdict::Matched(k) => any_mode && k < conditions@.len() && holds(
                unicode_lower(conditions@[k as int]@),
                *view,
                prompt@,
            ) && forall|j: int| 0 <= j < k ==> !holds(
                unicode_lower(#[trigger] conditions@[j]@),
                *view,
                prompt@,
            ),
            WaitVerdict::AllPassed => !any_mode && forall|j: int| 0 <= j < conditions@.len() ==> holds(
                unicode_lower(#[trigger] conditions@[j]@),
                *view,
                prompt@,
            ),
            WaitVerdict::Pending(failed) => {
                &&& (any_mode ==> forall|j: int| 0 <= j < conditions@.len() ==> !holds(
                    unicode_lower(#[trigger] conditions@[j]@),
                    *view,
                    prompt@,
                ))
                &&& (!any_mode ==> exists|j: int| 0 <= j < conditions@.len() && !holds(
                    unicode_lower(#[trigger] conditions@[j]@),
                    *view,
                    prompt@,
                ))
                &&& forall|j: int| 0 <= j < failed@.len() ==> #[trigger] failed@[j] < conditions@.len()
                &&& forall|j: int, k: int| 0 <= j < k < failed@.len() ==> #[trigger] failed@[j] < #[trigger] failed@[k]
                &&& forall|c: int| 0 <= c < conditions@.len() ==> (!holds(
                    unicode_lower(#[trigger] conditions@[c]@),
                    *view,
                    prompt@,
                ) <==> failed@.contains(c as usize))
            },
        },
{
    let (results, all) = assert_all(conditions, view, prompt);
    let mut failed: Vec<usize> = Vec::new();
    let mut i: usize = 0;
    while i < results.len()
        invariant
            i <= results@.len(),
            results@.len() == conditions@.len(),
            forall|j: int| 0 <= j < conditions@.len() ==> #[trigger] results@[j] == holds(
                unicode_lower(conditions@[j]@),
                *view,
                prompt@,
            ),
            any_mode ==> forall|j: int| 0 <= j < i ==> !#[trigger] results@[j],
            forall|j: int| 0 <= j < failed@.len() ==> #[trigger] failed@[j] < i,
            forall|j: int, k: int| 0 <= j < k < failed@.len() ==> #[trigger] failed@[j] < #[trigger] failed@[k],
            forall|c: int| 0 <= c < i ==> (!#[trigger] results@[c] <==> failed@.contains(c as usize)),
        decreases results@.len() - i,
    {
        if results[i] {
            if any_mode {
                proof {
                    assert forall|j: int| 0 <= j < i implies !holds(
                        unicode_lower(#[trigger] conditions@[j]@),
                        *view,
                        prompt@,
                    ) by {
                        assert(!results@[j]);
                    }
                }
                return WaitVerdict::Matched(i);
            }
        } else {
            let ghost before = failed@;
            failed.push(i);
            proof {
                assert forall|c: int| 0 <= c < i + 1 implies (!#[trigger] results@[c] <==> failed@.contains(c as usize)) by {
                    if c < i {
                        if before.contains(c as usize) {
                            let k = choose|k: int| 0 <= k < before.len() && before[k] == c as usize;
                            assert(failed@[k] == c as usize);
                        }
                        if failed@.contains(c as usize) {
                            let k = choose|k: int| 0 <= k < failed@.len() && failed@[k] == c as usize;
                            if k < before.len() {
                                assert(before[k] == c as usize);
                            }
                        }
                    } else {
                        assert(failed@[failed@.len() - 1] == i);
                    }
                }
            }
        }
        i = i + 1;
    }
    if !any_mode && all {
        proof {
            assert forall|j: int| 0 <= j < conditions@.len() implies holds(
                unicode_lower(#[trigger] conditions@[j]@),
                *view,
                prompt@,
            ) by {
                assert(results@[j]);
            }
        }
        return WaitVerdict::AllPassed;
    }
    proof {
        if !any_mode {
            assert(!all);
            let j = choose|j: int| 0 <= j < results@.len() && !#[trigger] results@[j];
            assert(!results@[j]);
            assert(!holds(unicode_lower(conditions@[j]@), *view, prompt@));
        } else {
            assert forall|j: int| 0 <= j < conditions@.len() implies !holds(
                unicode_lower(#[trigger] conditions@[j]@),
                *view,
                prompt@,
            ) by {
                assert(!results@[j]);
            }
        }
        assert forall|c: int| 0 <= c < conditions@.len() implies (!holds(
            unicode_lower(#[trigger] conditions@[c]@),
            *view,
            prompt@,
        ) <==> failed@.contains(c as usize)) by {
            assert(results@[c] == holds(unicode_lower(conditions@[c]@), *view, prompt@));
        }
    }
    WaitVerdict::Pending(failed)
}


// ── lad_jq ───────────────────────────────────────────────────────────

/// The answer of a jq query, from its output values (as JSON text).
#[derive(Debug)]
pub enum JqAnswer {
    /// The query produced nothing: the answer is `null`.
    Null,
    /// The query produced one value: the answer is that value.
    One(String),
    /// The query produced several values: the answer is their array.
    Many(Vec<String>),
}

/// Shape a jq query's outputs into its answer: nothing answers `null`, a
/// single output answers itself, several answer the array of them in order.
pub fn jq_answer(outputs: Vec<String>) -> (r: JqAnswer)
    ensures
        outputs@.len() == 0 ==> r is Null,
        outputs@.len() == 1 ==> (r matches JqAnswer::One(v) && v@ == outputs@[0]@),
        outputs@.len() > 1 ==> (r matches JqAnswer::Many(vs) && vs@ == outputs@),
{
    if outputs.len() == 0 {
        JqAnswer::Null
    } else if outputs.len() == 1 {
        let mut outputs = outputs;
        let v = outputs.pop().unwrap();
        JqAnswer::One(v)
    } else {
        JqAnswer::Many(outputs)
    }
}

} // verus!
