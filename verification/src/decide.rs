//! Reading a goal sentence: the element selector it names and the value
//! it asks to type.
use vstd::prelude::*;

use crate::text::{
    ascii_lower, ascii_lower_exec, before_char, before_char_exec, char_pos, char_pos_exec, chars_of,
    eq_lit, find, find_exec, has_char, has_char_exec, lemma_char_pos_from, lemma_find_contains,
    slice_vec, starts, starts_with, string_of, to_lower, trim, trim_exec, unicode_lower, views,
    words, words_exec, contains, contains_exec, copy_str, push_str, string_views, utf8_size,
};
use crate::pilot::{Action, ActionView};
use crate::playbook::{
    extract_params, extracted, find_playbook, match_step_selector, playbook_for, step_action,
    step_target, step_to_action, Playbook, PlaybookStep,
};
use crate::semantic::{Element, SemanticView};
use crate::weburl::url_len_ok;

verus! {

/// The first `[...]` group of the goal, brackets included.
pub open spec fn attr_selector(goal: Seq<char>) -> Option<Seq<char>> {
    match char_pos(goal, '[') {
        Some(s) => match char_pos(goal.skip(s as int), ']') {
            Some(e) => Some(goal.subrange(s as int, (s + e + 1) as int)),
            None => None,
        },
        None => None,
    }
}

/// An element kind a `kind:label` selector may start with (any ASCII case).
pub open spec fn is_kind_word(p: Seq<char>) -> bool {
    let l = ascii_lower(p);
    ||| l == "button"@ || l == "btn"@ || l == "input"@ || l == "field"@ || l == "link"@
    ||| l == "select"@ || l == "textarea"@ || l == "checkbox"@ || l == "radio"@
}

/// A `kind:label` word (and not a URL).
pub open spec fn kind_label_word(w: Seq<char>) -> bool {
    has_char(w, ':') && !starts_with(w, "http"@) && is_kind_word(before_char(w, ':'))
}

/// A `#id` word.
pub open spec fn id_word(w: Seq<char>) -> bool {
    w.len() > 1 && w[0] == '#'
}

/// The first `kind:label` word.
pub open spec fn first_kind_label(ws: Seq<Seq<char>>) -> Option<Seq<char>>
    decreases ws.len(),
{
    if ws.len() == 0 {
        None
    } else if kind_label_word(ws[0]) {
        Some(ws[0])
    } else {
        first_kind_label(ws.drop_first())
    }
}

/// The first `#id` word.
pub open spec fn first_id_word(ws: Seq<Seq<char>>) -> Option<Seq<char>>
    decreases ws.len(),
{
    if ws.len() == 0 {
        None
    } else if id_word(ws[0]) {
        Some(ws[0])
    } else {
        first_id_word(ws.drop_first())
    }
}

/// What follows the first occurrence of `verb`, trimmed, when nonempty.
pub open spec fn after_verb(lower: Seq<char>, verb: Seq<char>) -> Option<Seq<char>> {
    match find(lower, verb) {
        Some(pos) => {
            let rest = trim(lower.skip((pos + verb.len()) as int));
            if rest.len() > 0 {
                Some(rest)
            } else {
                None
            }
        },
        None => None,
    }
}

/// The selector a goal names: an attribute selector anywhere, else the
/// first `kind:label` word, else the first `#id` word, else (lower-cased)
/// the target after `click `, `go to `, `navigate to `, `open `, `press `
/// or ` into `.
pub open spec fn selector_text_of(goal: Seq<char>) -> Option<Seq<char>> {
    let lower = unicode_lower(goal);
    if attr_selector(goal) is Some {
        attr_selector(goal)
    } else if first_kind_label(words(goal)) is Some {
        first_kind_label(words(goal))
    } else if first_id_word(words(goal)) is Some {
        first_id_word(words(goal))
    } else if after_verb(lower, "click "@) is Some {
        after_verb(lower, "click "@)
    } else if after_verb(lower, "go to "@) is Some {
        after_verb(lower, "go to "@)
    } else if after_verb(lower, "navigate to "@) is Some {
        after_verb(lower, "navigate to "@)
    } else if after_verb(lower, "open "@) is Some {
        after_verb(lower, "open "@)
    } else if after_verb(lower, "press "@) is Some {
        after_verb(lower, "press "@)
    } else {
        after_verb(lower, " into "@)
    }
}

fn attr_selector_exec(g: &[char]) -> (r: Option<Vec<char>>)
    ensures
        match r {
            Some(v) => attr_selector(g@) == Some(v@),
            None => attr_selector(g@) is None,
        },
{
    match char_pos_exec(g, '[') {
        Some(s) => {
            proof {
                lemma_char_pos_from(g@, '[', 0);
            }
            let rest = slice_vec(g, s, g.len());
            assert(rest@ =~= g@.skip(s as int));
            match char_pos_exec(rest.as_slice(), ']') {
                Some(e) => {
                    proof {
                        lemma_char_pos_from(rest@, ']', 0);
                    }
                    Some(slice_vec(g, s, s + e + 1))
                },
                None => None,
            }
        },
        None => None,
    }
}

fn is_kind_word_exec(p: &[char]) -> (b: bool)
    ensures
        b == is_kind_word(p@),
{
    let lv = ascii_lower_exec(p);
    let l = lv.as_slice();
    eq_lit(l, "button") || eq_lit(l, "btn") || eq_lit(l, "input") || eq_lit(l, "field") || eq_lit(
        l,
        "link",
    ) || eq_lit(l, "select") || eq_lit(l, "textarea") || eq_lit(l, "checkbox") || eq_lit(l, "radio")
}

fn kind_label_word_exec(w: &[char]) -> (b: bool)
    ensures
        b == kind_label_word(w@),
{
    if !has_char_exec(w, ':') || starts(w, "http") {
        return false;
    }
    let head = before_char_exec(w, ':');
    is_kind_word_exec(head.as_slice())
}

fn after_verb_exec(lower: &[char], verb: &str) -> (r: Option<Vec<char>>)
    ensures
        match r {
            Some(v) => after_verb(lower@, verb@) == Some(v@),
            None => after_verb(lower@, verb@) is None,
        },
{
    let vv = chars_of(verb);
    match find_exec(lower, vv.as_slice()) {
        Some(pos) => {
            proof {
                lemma_find_contains(lower@, vv@);
                assert(crate::text::matches_at(lower@, vv@, pos as int));
                assert(lower@.len() == lower.len());
            }
            let rest = slice_vec(lower, pos + vv.len(), lower.len());
            assert(rest@ =~= lower@.skip(pos + verb@.len()));
            let t = trim_exec(rest.as_slice());
            if t.len() > 0 {
                Some(t)
            } else {
                None
            }
        },
        None => None,
    }
}

/// Extract a selector pattern from a goal string: an attribute selector
/// (`[name=email]`), a `kind:label` word (`button:Login`), an `#id` word,
/// or the natural-language target after an action verb.
pub fn extract_selector_text(goal: &str) -> (r: Option<String>)
    ensures
        match r {
            Some(s) => selector_text_of(goal@) == Some(s@),
            None => selector_text_of(goal@) is None,
        },
{
    let g = chars_of(goal);
    let lower_s = to_lower(goal);
    let lower = chars_of(lower_s.as_str());
    if let Some(a) = attr_selector_exec(g.as_slice()) {
        return Some(string_of(a.as_slice()));
    }
    let ws = words_exec(g.as_slice());
    let ghost wv = views(ws@);
    assert(wv.skip(0) =~= wv);
    let mut i: usize = 0;
    while i < ws.len()
        invariant
            i <= ws@.len(),
            wv == views(ws@),
            wv == words(g@),
            g@ == goal@,
            attr_selector(goal@) is None,
            first_kind_label(wv) == first_kind_label(wv.skip(i as int)),
        decreases ws@.len() - i,
    {
        assert(wv.skip(i as int)[0] == ws@[i as int]@);
        assert(wv.skip(i as int).drop_first() =~= wv.skip(i + 1));
        if kind_label_word_exec(ws[i].as_slice()) {
            assert(first_kind_label(wv.skip(i as int)) == Some(ws@[i as int]@));
            return Some(string_of(ws[i].as_slice()));
        }
        i = i + 1;
    }
    assert(wv.skip(ws@.len() as int).len() == 0);
    let mut j: usize = 0;
    while j < ws.len()
        invariant
            j <= ws@.len(),
            wv == views(ws@),
            wv == words(g@),
            g@ == goal@,
            attr_selector(goal@) is None,
            first_kind_label(wv) is None,
            first_id_word(wv) == first_id_word(wv.skip(j as int)),
        decreases ws@.len() - j,
    {
        assert(wv.skip(j as int)[0] == ws@[j as int]@);
        assert(wv.skip(j as int).drop_first() =~= wv.skip(j + 1));
        if ws[j].len() > 1 && ws[j][0] == '#' {
            assert(id_word(ws@[j as int]@));
            assert(first_id_word(wv.skip(j as int)) == Some(ws@[j as int]@));
            return Some(string_of(ws[j].as_slice()));
        }
        j = j + 1;
    }
    assert(wv.skip(ws@.len() as int).len() == 0);
    let l = lower.as_slice();
    if let Some(t) = after_verb_exec(l, "click ") {
        return Some(string_of(t.as_slice()));
    }
    if let Some(t) = after_verb_exec(l, "go to ") {
        return Some(string_of(t.as_slice()));
    }
    if let Some(t) = after_verb_exec(l, "navigate to ") {
        return Some(string_of(t.as_slice()));
    }
    if let Some(t) = after_verb_exec(l, "open ") {
        return Some(string_of(t.as_slice()));
    }
    if let Some(t) = after_verb_exec(l, "press ") {
        return Some(string_of(t.as_slice()));
    }
    match after_verb_exec(l, " into ") {
        Some(t) => Some(string_of(t.as_slice())),
        None => None,
    }
}

// ── Values to type ───────────────────────────────────────────────────

/// The value after `verb` in the lower-cased goal: a quoted value (its
/// opening quote closed later), else the trimmed text before ` into ` when
/// nonempty.
pub open spec fn value_after_verb(lower: Seq<char>, verb: Seq<char>) -> Option<Seq<char>> {
    match find(lower, verb) {
        None => None,
        Some(vp) => {
            let after = lower.skip((vp + verb.len()) as int);
            let quoted = if after.len() > 0 && (after[0] == '"' || after[0] == '\'') {
                match char_pos(after.skip(1), after[0]) {
                    Some(e) => Some(after.subrange(1, (1 + e) as int)),
                    None => None,
                }
            } else {
                None
            };
            match quoted {
                Some(q) => Some(q),
                None => match find(after, " into "@) {
                    Some(ip) => {
                        let v = trim(after.take(ip as int));
                        if v.len() > 0 {
                            Some(v)
                        } else {
                            None
                        }
                    },
                    None => None,
                },
            }
        },
    }
}

/// The value a goal asks to type, after `type `, `enter ` or `fill ` (in
/// that order), lower-cased; empty when there is none.
pub open spec fn type_value_of(goal: Seq<char>) -> Seq<char> {
    let lower = unicode_lower(goal);
    match value_after_verb(lower, "type "@) {
        Some(v) => v,
        None => match value_after_verb(lower, "enter "@) {
            Some(v) => v,
            None => match value_after_verb(lower, "fill "@) {
                Some(v) => v,
                None => seq![],
            },
        },
    }
}

fn value_after_verb_exec(lower: &[char], verb: &str) -> (r: Option<Vec<char>>)
    ensures
        match r {
            Some(v) => value_after_verb(lower@, verb@) == Some(v@),
            None => value_after_verb(lower@, verb@) is None,
        },
{
    let vv = chars_of(verb);
    let vp = match find_exec(lower, vv.as_slice()) {
        Some(p) => p,
        None => return None,
    };
    proof {
        lemma_find_contains(lower@, vv@);
        assert(crate::text::matches_at(lower@, vv@, vp as int));
        assert(lower@.len() == lower.len());
    }
    let after = slice_vec(lower, vp + vv.len(), lower.len());
    assert(after@ =~= lower@.skip(vp + verb@.len()));
    if after.len() > 0 && (after[0] == '"' || after[0] == '\'') {
        let q = after[0];
        let tail = slice_vec(after.as_slice(), 1, after.len());
        assert(tail@ =~= after@.skip(1));
        if let Some(e) = char_pos_exec(tail.as_slice(), q) {
            proof {
                lemma_char_pos_from(tail@, q, 0);
            }
            return Some(slice_vec(after.as_slice(), 1, 1 + e));
        }
    }
    let into: Vec<char> = vec![' ', 'i', 'n', 't', 'o', ' '];
    proof {
        reveal_strlit(" into ");
    }
    assert(into@ =~= " into "@);
    match find_exec(after.as_slice(), into.as_slice()) {
        Some(ip) => {
            proof {
                lemma_find_contains(after@, into@);
            }
            let head = slice_vec(after.as_slice(), 0, ip);
            assert(head@ =~= after@.take(ip as int));
            let v = trim_exec(head.as_slice());
            if v.len() > 0 {
                Some(v)
            } else {
                None
            }
        },
        None => None,
    }
}

/// Extract the value to type from a goal string (`type "hello" into ...`,
/// `enter foo into bar`); empty when the goal names none.
pub fn extract_type_value(goal: &str) -> (r: String)
    ensures
        r@ == type_value_of(goal@),
{
    let lower_s = to_lower(goal);
    let lower = chars_of(lower_s.as_str());
    let l = lower.as_slice();
    if let Some(v) = value_after_verb_exec(l, "type ") {
        return string_of(v.as_slice());
    }
    if let Some(v) = value_after_verb_exec(l, "enter ") {
        return string_of(v.as_slice());
    }
    if let Some(v) = value_after_verb_exec(l, "fill ") {
        return string_of(v.as_slice());
    }
    String::new()
}


// ── Acting on selector matches ───────────────────────────────────────

/// Matches as `(element id, reason)` pairs, the reasons as sequences.
pub open spec fn match_views(ms: Seq<(u32, String)>) -> Seq<(u32, Seq<char>)> {
    ms.map_values(|m: (u32, String)| (m.0, m.1@))
}

/// Index of the first match from `i` on whose element was not acted on.
pub open spec fn first_fresh(ms: Seq<(u32, Seq<char>)>, acted: Seq<u32>, i: nat) -> Option<nat>
    decreases ms.len() - i,
{
    if i >= ms.len() {
        None
    } else if !acted.contains(ms[i as int].0) {
        Some(i)
    } else {
        first_fresh(ms, acted, i + 1)
    }
}

/// The goal asks to type: its lower-cased text holds `type `, `enter ` or
/// `fill `.
pub open spec fn type_goal(goal: Seq<char>) -> bool {
    let l = unicode_lower(goal);
    contains(l, "type "@) || contains(l, "enter "@) || contains(l, "fill "@)
}

/// Reasoning attached to an action chosen through a selector.
pub open spec fn selector_reasoning(reason: Seq<char>, sel: Seq<char>) -> Seq<char> {
    "selector: "@ + reason + " ("@ + sel + ")"@
}

/// The action for the first match not acted on yet: typing the goal's value
/// when the goal asks to type and names a value, else a click; none when
/// every match was acted on.
pub open spec fn selector_action_of(
    goal: Seq<char>,
    sel: Seq<char>,
    ms: Seq<(u32, Seq<char>)>,
    acted: Seq<u32>,
) -> Option<ActionView> {
    match first_fresh(ms, acted, 0) {
        None => None,
        Some(i) => {
            let why = selector_reasoning(ms[i as int].1, sel);
            if type_goal(goal) && type_value_of(goal).len() > 0 {
                Some(
                    ActionView::Type { element: ms[i as int].0, value: type_value_of(goal), reasoning: why },
                )
            } else {
                Some(ActionView::Click { element: ms[i as int].0, reasoning: why })
            }
        },
    }
}

/// Does `xs` hold `x`?
fn holds(xs: &[u32], x: u32) -> (b: bool)
    ensures
        b == xs@.contains(x),
{
    let mut j: usize = 0;
    while j < xs.len()
        invariant
            j <= xs@.len(),
            !xs@.take(j as int).contains(x),
        decreases xs@.len() - j,
    {
        if xs[j] == x {
            assert(xs@[j as int] == x);
            return true;
        }
        assert(xs@.take(j + 1) =~= xs@.take(j as int).push(xs@[j as int]));
        j = j + 1;
    }
    assert(xs@.take(xs@.len() as int) =~= xs@);
    false
}

fn first_fresh_exec(matches: &[(u32, String)], acted_on: &[u32]) -> (r: Option<usize>)
    ensures
        match r {
            Some(k) => first_fresh(match_views(matches@), acted_on@, 0) == Some(k as nat) && k
                < matches@.len(),
            None => first_fresh(match_views(matches@), acted_on@, 0) is None,
        },
{
    let ghost ms = match_views(matches@);
    let mut i: usize = 0;
    while i < matches.len()
        invariant
            i <= matches@.len(),
            ms == match_views(matches@),
            first_fresh(ms, acted_on@, 0) == first_fresh(ms, acted_on@, i as nat),
        decreases matches@.len() - i,
    {
        assert(ms[i as int].0 == matches@[i as int].0);
        if !holds(acted_on, matches[i].0) {
            return Some(i);
        }
        i = i + 1;
    }
    None
}

/// Turn the matches that a goal's selector found on the page (in match
/// order, each with its element id and reason) into an action: the first
/// element not acted on yet is typed into when the goal asks to type a
/// value, else clicked.
pub fn selector_action(goal: &str, selector_text: &str, matches: &[(u32, String)], acted_on: &[u32]) -> (r: Option<Action>)
    ensures
        match r {
            Some(a) => selector_action_of(goal@, selector_text@, match_views(matches@), acted_on@)
                == Some(a@),
            None => selector_action_of(goal@, selector_text@, match_views(matches@), acted_on@) is None,
        },
{
    let ghost ms = match_views(matches@);
    let k = match first_fresh_exec(matches, acted_on) {
        Some(k) => k,
        None => {
            return None;
        },
    };
    assert(first_fresh(ms, acted_on@, 0) == Some(k as nat));
    proof {
        reveal_strlit("type ");
        reveal_strlit("enter ");
        reveal_strlit("fill ");
    }
    let mut why = copy_str("selector: ");
    push_str(&mut why, matches[k].1.as_str());
    push_str(&mut why, " (");
    push_str(&mut why, selector_text);
    push_str(&mut why, ")");
    let id = matches[k].0;
    let lower_s = to_lower(goal);
    let lower = chars_of(lower_s.as_str());
    let ty: Vec<char> = chars_of("type ");
    let en: Vec<char> = chars_of("enter ");
    let fi: Vec<char> = chars_of("fill ");
    let is_type = contains_exec(lower.as_slice(), ty.as_slice()) || contains_exec(
        lower.as_slice(),
        en.as_slice(),
    ) || contains_exec(lower.as_slice(), fi.as_slice());
    if is_type {
        let value = extract_type_value(goal);
        if !value.as_str().is_empty() {
            return Some(Action::Type { element: id, value, reasoning: why });
        }
    }
    Some(Action::Click { element: id, reasoning: why })
}


// ── Replaying a playbook ─────────────────────────────────────────────

/// The action of the first step from `i` on whose element is on the page,
/// was not acted on yet, and turns into an action.
pub open spec fn first_step_action(
    els: Seq<Element>,
    steps: Seq<PlaybookStep>,
    acted: Seq<u32>,
    ps: Seq<(Seq<char>, Seq<char>)>,
    i: nat,
) -> Option<ActionView>
    decreases steps.len() - i,
{
    if i >= steps.len() {
        None
    } else {
        match step_target(els, steps[i as int]) {
            Some(id) => if acted.contains(id) {
                first_step_action(els, steps, acted, ps, i + 1)
            } else {
                match step_action(els, steps[i as int], ps) {
                    Some(a) => Some(a),
                    None => first_step_action(els, steps, acted, ps, i + 1),
                }
            },
            None => first_step_action(els, steps, acted, ps, i + 1),
        }
    }
}

/// Replaying playbooks on a page: the playbook chosen for the page's URL,
/// its parameters read from the goal, gives the action of its first step
/// that applies; nothing when no playbook is chosen or no step applies.
pub open spec fn playbook_choice(
    view: SemanticView,
    goal: Seq<char>,
    acted: Seq<u32>,
    pbs: Seq<Playbook>,
) -> Option<ActionView> {
    match playbook_for(pbs, view.url@) {
        Some(i) => match extracted(goal, string_views(pbs[i as int].params@)) {
            Some(ps) => first_step_action(view.elements@, pbs[i as int].steps@, acted, ps, 0),
            None => None,
        },
        None => None,
    }
}

/// The action of the first playbook step whose element is on the page, was
/// not acted on yet, and turns into an action with `params`.
pub fn playbook_step_action(view: &SemanticView, pb: &Playbook, params: &crate::playbook::Params, acted_on: &[u32]) -> (r: Option<Action>)
    ensures
        match r {
            Some(a) => first_step_action(view.elements@, pb.steps@, acted_on@, params@, 0) == Some(a@),
            None => first_step_action(view.elements@, pb.steps@, acted_on@, params@, 0) is None,
        },
{
    let mut i: usize = 0;
    while i < pb.steps.len()
        invariant
            i <= pb.steps@.len(),
            first_step_action(view.elements@, pb.steps@, acted_on@, params@, 0) == first_step_action(
                view.elements@,
                pb.steps@,
                acted_on@,
                params@,
                i as nat,
            ),
        decreases pb.steps@.len() - i,
    {
        let step = &pb.steps[i];
        if let Some(id) = match_step_selector(view, step) {
            if !holds(acted_on, id) {
                if let Some(action) = step_to_action(view, step, params) {
                    return Some(action);
                }
            }
        }
        i = i + 1;
    }
    None
}

/// Tier 0 of the pilot's decision: replay the playbook that matches the
/// page's URL, with the parameters read from the goal, skipping steps
/// whose element was already acted on.
pub fn playbook_action(view: &SemanticView, goal: &str, acted_on: &[u32], playbooks: &[Playbook]) -> (r: Option<Action>)
    requires
        url_len_ok(view.url@),
    ensures
        match r {
            Some(a) => playbook_choice(*view, goal@, acted_on@, playbooks@) == Some(a@),
            None => playbook_choice(*view, goal@, acted_on@, playbooks@) is None,
        },
{
    match find_playbook(playbooks, view.url.as_str()) {
        Some(pb) => {
            let params = extract_params(goal, pb.params.as_slice());
            playbook_step_action(view, pb, &params, acted_on)
        },
        None => None,
    }
}

} // verus!
