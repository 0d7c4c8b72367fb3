//! Semantic selectors: describe the element to find instead of giving a CSS
//! path. This module parses selector strings.
use vstd::prelude::*;

use crate::semantic::ElementKind;
use crate::text::{
    char_lowers, char_pos, char_pos_exec, chars_of, ci_rfind, ci_rfind_exec, copy_str,
    lemma_char_pos_from, lemma_ci_rfind_from, lemma_trim_len, parse_u32, parse_u32_exec, slice_vec,
    str_eq, strip_char_exec, strip_both, string_of, string_views, to_lower, trim, trim_exec,
    unicode_lower, utf8_size, views, words, words_exec,
};

verus! {

/// A semantic selector that describes what element to find.
#[derive(Debug)]
pub enum Selector {
    /// Natural language description: "the login button", "email input"
    Natural(String),
    /// Match by element kind + label pattern
    KindAndLabel { kind: Option<ElementKind>, label_contains: String },
    /// Match by role attribute pattern (aria role)
    Role { role: String, label_contains: Option<String> },
    /// Match by form context: "the submit button in form 0"
    InForm { form_index: u32, inner: Box<Selector> },
    /// Match by numeric lad-id
    Id(u32),
    /// CSS-like attribute match: `[name="email"]`, `[type="password"]`
    Attribute { attr: String, value: String },
}

/// Model of a [`Selector`], its strings as character sequences.
pub enum SelectorView {
    Natural(Seq<char>),
    KindAndLabel { kind: Option<ElementKind>, label_contains: Seq<char> },
    Role { role: Seq<char>, label_contains: Option<Seq<char>> },
    InForm { form_index: u32, inner: Box<SelectorView> },
    Id(u32),
    Attribute { attr: Seq<char>, value: Seq<char> },
}

/// Model of a selector.
pub open spec fn selector_view(s: Selector) -> SelectorView
    decreases s,
{
    match s {
        Selector::Natural(d) => SelectorView::Natural(d@),
        Selector::KindAndLabel { kind, label_contains } => SelectorView::KindAndLabel {
            kind,
            label_contains: label_contains@,
        },
        Selector::Role { role, label_contains } => SelectorView::Role {
            role: role@,
            label_contains: match label_contains {
                Some(l) => Some(l@),
                None => None,
            },
        },
        Selector::InForm { form_index, inner } => SelectorView::InForm {
            form_index,
            inner: Box::new(selector_view(*inner)),
        },
        Selector::Id(id) => SelectorView::Id(id),
        Selector::Attribute { attr, value } => SelectorView::Attribute {
            attr: attr@,
            value: value@,
        },
    }
}

impl View for Selector {
    type V = SelectorView;

    open spec fn view(&self) -> SelectorView {
        selector_view(*self)
    }
}

/// Element kind named by a lower-cased word.
pub open spec fn kind_from(l: Seq<char>) -> Option<ElementKind> {
    if l == "button"@ || l == "btn"@ {
        Some(ElementKind::Button)
    } else if l == "input"@ || l == "field"@ {
        Some(ElementKind::Input)
    } else if l == "link"@ || l == "a"@ {
        Some(ElementKind::Link)
    } else if l == "select"@ || l == "dropdown"@ {
        Some(ElementKind::Select)
    } else if l == "textarea"@ || l == "text"@ {
        Some(ElementKind::Textarea)
    } else if l == "checkbox"@ || l == "check"@ {
        Some(ElementKind::Checkbox)
    } else if l == "radio"@ {
        Some(ElementKind::Radio)
    } else {
        None
    }
}

/// The attribute selector of the text between `[` and `]`: the trimmed
/// name before the first `=`, and the trimmed value after it without
/// surrounding double, then single, quotes.
pub open spec fn attribute_of(inner: Seq<char>, eq: nat) -> SelectorView {
    SelectorView::Attribute {
        attr: trim(inner.take(eq as int)),
        value: strip_both(strip_both(trim(inner.skip((eq + 1) as int)), '"'), '\''),
    }
}

/// What parsing a selector string gives: an id (`3`, `#3`), an attribute
/// (`[name=email]`), a kind and label (`button:Login`), a form context
/// (`X in form N`), or a natural description. (Never `None`.)
pub open spec fn parsed(s0: Seq<char>) -> Option<SelectorView>
    decreases s0.len(), 1nat,
{
    let s = trim(s0);
    let inner = s.subrange(1, s.len() - 1);
    if parse_u32(s) is Some {
        Some(SelectorView::Id(parse_u32(s).unwrap()))
    } else if s.len() > 0 && s[0] == '#' && parse_u32(s.skip(1)) is Some {
        Some(SelectorView::Id(parse_u32(s.skip(1)).unwrap()))
    } else if s.len() >= 2 && s[0] == '[' && s.last() == ']' && char_pos(inner, '=') is Some {
        Some(attribute_of(inner, char_pos(inner, '=').unwrap()))
    } else if char_pos(s, ':') is Some && kind_from(
        unicode_lower(s.take(char_pos(s, ':').unwrap() as int)),
    ) is Some {
        let c = char_pos(s, ':').unwrap();
        Some(
            SelectorView::KindAndLabel {
                kind: kind_from(unicode_lower(s.take(c as int))),
                label_contains: s.skip((c + 1) as int),
            },
        )
    } else {
        proof {
            lemma_trim_len(s0);
        }
        match form_parsed(s) {
            None => None,
            Some(None) => Some(SelectorView::Natural(s)),
            Some(Some(v)) => Some(v),
        }
    }
}

/// The `X in form N` form of a trimmed selector string: `N` is the number
/// after the last ` in form ` (found character by character,
/// case-insensitively) and `X` the selector before it. `Some(None)` when
/// the string has no such form.
pub open spec fn form_parsed(s: Seq<char>) -> Option<Option<SelectorView>>
    decreases s.len(), 0nat,
{
    match ci_rfind(s, " in form "@) {
        None => Some(None),
        Some(k) => match parse_u32(trim(s.skip((k + 9) as int))) {
            None => Some(None),
            Some(n) => {
                proof {
                    lemma_ci_rfind_from(s, " in form "@, s.len() + 1);
                    reveal_strlit(" in form ");
                }
                if k < s.len() {
                    match parsed(s.take(k as int)) {
                        Some(iv) => Some(
                            Some(SelectorView::InForm { form_index: n, inner: Box::new(iv) }),
                        ),
                        None => None,
                    }
                } else {
                    Some(None)
                }
            },
        },
    }
}

/// Parse an element kind from a word (case-insensitive).
pub fn parse_kind(s: &str) -> (r: Option<ElementKind>)
    ensures
        r == kind_from(unicode_lower(s@)),
{
    let l = to_lower(s);
    let w = l.as_str();
    if str_eq(w, "button") || str_eq(w, "btn") {
        Some(ElementKind::Button)
    } else if str_eq(w, "input") || str_eq(w, "field") {
        Some(ElementKind::Input)
    } else if str_eq(w, "link") || str_eq(w, "a") {
        Some(ElementKind::Link)
    } else if str_eq(w, "select") || str_eq(w, "dropdown") {
        Some(ElementKind::Select)
    } else if str_eq(w, "textarea") || str_eq(w, "text") {
        Some(ElementKind::Textarea)
    } else if str_eq(w, "checkbox") || str_eq(w, "check") {
        Some(ElementKind::Checkbox)
    } else if str_eq(w, "radio") {
        Some(ElementKind::Radio)
    } else {
        None
    }
}

/// Selector strings always parse.
pub proof fn lemma_parsed_some(s0: Seq<char>)
    ensures
        parsed(s0) is Some,
    decreases s0.len(),
{
    let s = trim(s0);
    lemma_trim_len(s0);
    reveal_strlit(" in form ");
    lemma_ci_rfind_from(s, " in form "@, s.len() + 1);
    if let Some(k) = ci_rfind(s, " in form "@) {
        if k < s.len() {
            lemma_parsed_some(s.take(k as int));
        }
    }
}

/// The `X in form N` form of a trimmed selector string; `Some(None)` when
/// it does not have that form.
fn parse_form_context(s: &str) -> (r: Option<Option<Selector>>)
    ensures
        match r {
            None => form_parsed(s@) is None,
            Some(None) => form_parsed(s@) == Some(None::<SelectorView>),
            Some(Some(sel)) => form_parsed(s@) == Some(Some(sel@)),
        },
    decreases s@.len(), 0nat,
{
    let sv = chars_of(s);
    let lows = char_lowers(sv.as_slice());
    let marker = chars_of(" in form ");
    proof {
        reveal_strlit(" in form ");
    }
    let k = match ci_rfind_exec(&lows, sv.as_slice(), marker.as_slice()) {
        None => return Some(None),
        Some(p) => p,
    };
    let n_all = sv.len();
    assert(k + marker@.len() <= n_all);
    let rest = slice_vec(sv.as_slice(), k + 9, n_all);
    let rest_trimmed = trim_exec(rest.as_slice());
    assert(rest@ =~= s@.skip((k + 9) as int));
    match parse_u32_exec(rest_trimmed.as_slice()) {
        None => Some(None),
        Some(n) => {
            let inner_text = string_of(slice_vec(sv.as_slice(), 0, k).as_slice());
            assert(inner_text@ =~= s@.take(k as int));
            match parse_core(inner_text.as_str()) {
                Some(inner) => Some(Some(Selector::InForm { form_index: n, inner: Box::new(inner) })),
                None => None,
            }
        },
    }
}

/// Parse a selector string.
fn parse_core(s0: &str) -> (r: Option<Selector>)
    ensures
        match r {
            Some(sel) => parsed(s0@) == Some(sel@),
            None => parsed(s0@) is None,
        },
    decreases s0@.len(), 1nat,
{
    let v = chars_of(s0);
    let t = trim_exec(v.as_slice());
    let s = t.as_slice();
    if let Some(id) = parse_u32_exec(s) {
        return Some(Selector::Id(id));
    }
    if s.len() > 0 && s[0] == '#' {
        let rest = slice_vec(s, 1, s.len());
        assert(rest@ =~= s@.skip(1));
        if let Some(id) = parse_u32_exec(rest.as_slice()) {
            return Some(Selector::Id(id));
        }
    }
    if s.len() >= 2 && s[0] == '[' && s[s.len() - 1] == ']' {
        let inner = slice_vec(s, 1, s.len() - 1);
        proof {
            lemma_char_pos_from(inner@, '=', 0);
        }
        if let Some(eq) = char_pos_exec(inner.as_slice(), '=') {
            let name = trim_exec(slice_vec(inner.as_slice(), 0, eq).as_slice());
            let raw = trim_exec(slice_vec(inner.as_slice(), eq + 1, inner.len()).as_slice());
            let unquoted = strip_char_exec(raw.as_slice(), '"');
            let value = strip_char_exec(unquoted.as_slice(), '\'');
            return Some(
                Selector::Attribute {
                    attr: string_of(name.as_slice()),
                    value: string_of(value.as_slice()),
                },
            );
        }
    }
    proof {
        lemma_char_pos_from(s@, ':', 0);
    }
    if let Some(colon) = char_pos_exec(s, ':') {
        let kind_text = string_of(slice_vec(s, 0, colon).as_slice());
        if let Some(kind) = parse_kind(kind_text.as_str()) {
            let label = string_of(slice_vec(s, colon + 1, s.len()).as_slice());
            return Some(Selector::KindAndLabel { kind: Some(kind), label_contains: label });
        }
    }
    let trimmed = string_of(s);
    proof {
        lemma_trim_len(s0@);
    }
    match parse_form_context(trimmed.as_str()) {
        None => None,
        Some(None) => Some(Selector::Natural(trimmed)),
        Some(Some(sel)) => Some(sel),
    }
}

impl Selector {
    /// Parse a selector from a string:
    /// - `"#3"` or `"3"` → `Id(3)`
    /// - `"button:Submit"` → `KindAndLabel { kind: Button, label: "Submit" }`
    /// - `"[name=email]"` → `Attribute { attr: "name", value: "email" }`
    /// - `"input in form 0"` → `InForm { form_index: 0, inner: Natural("input") }`
    /// - anything else → `Natural(..)` of the trimmed text
    pub fn parse(s: &str) -> (r: Self)
        ensures
            parsed(s@) == Some(r@),
    {
        proof {
            lemma_parsed_some(s@);
        }
        match parse_core(s) {
            Some(sel) => sel,
            None => Selector::Natural(copy_str(s)),
        }
    }
}

// ── Roles and keywords ──────────────────────────────────────────────

/// ARIA role of an element kind.
pub open spec fn aria_role(kind: ElementKind) -> Seq<char> {
    match kind {
        ElementKind::Button => "button"@,
        ElementKind::Link => "link"@,
        ElementKind::Checkbox => "checkbox"@,
        ElementKind::Radio => "radio"@,
        ElementKind::Input | ElementKind::Textarea => "textbox"@,
        ElementKind::Select => "combobox"@,
        ElementKind::Other => "generic"@,
    }
}

/// ARIA role of an element kind.
pub fn kind_to_aria_role(kind: ElementKind) -> (r: &'static str)
    ensures
        r@ == aria_role(kind),
{
    match kind {
        ElementKind::Button => "button",
        ElementKind::Link => "link",
        ElementKind::Checkbox => "checkbox",
        ElementKind::Radio => "radio",
        ElementKind::Input | ElementKind::Textarea => "textbox",
        ElementKind::Select => "combobox",
        ElementKind::Other => "generic",
    }
}

/// Words that carry no meaning in a description.
pub open spec fn is_stop_word(w: Seq<char>) -> bool {
    w == "the"@ || w == "a"@ || w == "an"@ || w == "this"@ || w == "that"@ || w == "in"@ || w
        == "on"@ || w == "of"@ || w == "for"@ || w == "to"@ || w == "my"@ || w == "field"@ || w
        == "element"@
}

/// The words of `ws` that are not stop words, in order.
pub open spec fn content_words(ws: Seq<Seq<char>>) -> Seq<Seq<char>>
    decreases ws.len(),
{
    if ws.len() == 0 {
        seq![]
    } else if is_stop_word(ws.last()) {
        content_words(ws.drop_last())
    } else {
        content_words(ws.drop_last()).push(ws.last())
    }
}

/// Meaningful keywords of a description: its whitespace-separated words
/// without the stop words.
pub fn extract_keywords(desc: &str) -> (r: Vec<String>)
    ensures
        string_views(r@) == content_words(words(desc@)),
{
    let dv = chars_of(desc);
    let ws = words_exec(dv.as_slice());
    let mut r: Vec<String> = Vec::new();
    let mut i: usize = 0;
    while i < ws.len()
        invariant
            i <= ws@.len(),
            views(ws@) == words(desc@),
            string_views(r@) == content_words(views(ws@).take(i as int)),
        decreases ws@.len() - i,
    {
        proof {
            assert(views(ws@).take(i + 1).drop_last() =~= views(ws@).take(i as int));
            assert(views(ws@).take(i + 1).last() == ws@[i as int]@);
        }
        let w = string_of(ws[i].as_slice());
        let t = w.as_str();
        let stop = str_eq(t, "the") || str_eq(t, "a") || str_eq(t, "an") || str_eq(t, "this")
            || str_eq(t, "that") || str_eq(t, "in") || str_eq(t, "on") || str_eq(t, "of")
            || str_eq(t, "for") || str_eq(t, "to") || str_eq(t, "my") || str_eq(t, "field")
            || str_eq(t, "element");
        if !stop {
            let ghost before = r@;
            r.push(w);
            assert(string_views(r@) =~= string_views(before).push(w@));
        }
        i = i + 1;
    }
    assert(views(ws@).take(ws@.len() as int) =~= views(ws@));
    r
}

} // verus!
