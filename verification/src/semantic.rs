//! `SemanticView`: compressed DOM representation for LLM consumption, and
//! its text rendering for prompts.
use vstd::prelude::*;
use vstd::utf8::encode_utf8;

use crate::text::{
    dec, debug_text, join, push_dec, push_str, debug_string, join_strings, string_views, opt_view,
    contains, matches_at, lemma_contains_self, lemma_contains_within, starts_with, ends_with,
    lemma_contains_then, lemma_contains_after, lemma_starts_then,
};
use crate::session::{any_auth_cookie, AuthState, NavigationEntry, SessionState};
use crate::weburl::{redact_url_secrets, redacted_url, url_len_ok};

verus! {

/// Compressed view of a web page.
#[derive(Debug, Clone)]
pub struct SemanticView {
    /// Current page URL.
    pub url: String,
    /// Document title.
    pub title: String,
    /// Heuristic page classification (e.g. "login page").
    pub page_hint: String,
    /// Interactive elements on the page.
    pub elements: Vec<Element>,
    /// Metadata for each `<form>` on the page (matches `Element::form_index`).
    pub forms: Vec<FormMeta>,
    /// Concatenated visible headings/paragraphs.
    pub visible_text: String,
    /// Individual text blocks extracted from the DOM.
    pub text_blocks: Vec<String>,
    /// Current page lifecycle state.
    pub state: PageState,
    /// Element cap indicator: `"50/316"` means 50 kept out of 316 total.
    pub element_cap: Option<String>,
    /// Reason when the page is blocked (CAPTCHA, WAF, etc.).
    pub blocked_reason: Option<String>,
    /// Session context for multi-page flows.
    pub session_context: Option<String>,
    /// Structural card groups detected in the DOM.
    pub cards: Option<Vec<Card>>,
    /// Whether the card list was truncated.
    pub cards_truncated: Option<bool>,
}

/// A structural card: a repeated sibling in the DOM.
#[derive(Debug, Clone)]
pub struct Card {
    /// Stable string ID prefixed `c`, e.g. `c0`.
    pub id: String,
    /// First heading or first external link text inside the container.
    pub title: String,
    /// Key-value metadata (points, comments, author, age).
    pub metadata: Vec<(String, String)>,
    /// IDs of interactive elements inside the card.
    pub child_element_ids: Vec<u32>,
}

/// A single interactive element extracted from the DOM.
#[derive(Debug, Clone)]
pub struct Element {
    /// Stable numeric ID (`data-lad-id`).
    pub id: u32,
    /// Semantic element kind.
    pub kind: ElementKind,
    /// Best-effort label (aria-label, text content, placeholder, etc.).
    pub label: String,
    /// HTML `name` attribute.
    pub name: Option<String>,
    /// Current input value.
    pub value: Option<String>,
    /// Placeholder text.
    pub placeholder: Option<String>,
    /// `href` attribute (links only).
    pub href: Option<String>,
    /// `type` attribute for inputs.
    pub input_type: Option<String>,
    /// Whether the element is disabled.
    pub disabled: bool,
    /// Index of the `<form>` this element belongs to.
    pub form_index: Option<u32>,
    /// Optional contextual hint added by heuristics.
    pub context: Option<String>,
    /// Semantic hint from `@lad/hints`.
    pub hint: Option<ElementHint>,
    /// Whether a checkbox/radio is checked.
    pub checked: Option<bool>,
    /// Visible option labels for `<select>` elements.
    pub options: Option<Vec<String>>,
    /// Index of the iframe this element belongs to.
    pub frame_index: Option<u32>,
    /// `Some(false)` when the element was flagged hidden.
    pub is_visible: Option<bool>,
}

/// Semantic hint from `@lad/hints` (`data-lad="field:email"`).
#[derive(Debug, Clone, PartialEq)]
pub struct ElementHint {
    /// Hint category: `"field"`, `"form"`, or `"action"`.
    pub hint_type: String,
    /// Hint value: `"email"`, `"login"`, `"submit"`, etc.
    pub value: String,
}

/// Metadata about a `<form>` element on the page.
#[derive(Debug, Clone, PartialEq)]
pub struct FormMeta {
    /// Sequential index matching `Element::form_index`.
    pub index: u32,
    /// `action` attribute.
    pub action: Option<String>,
    /// HTTP method (`"GET"`, `"POST"`, etc.).
    pub method: String,
    /// `id` attribute, if present.
    pub id: Option<String>,
    /// `name` attribute, if present.
    pub name: Option<String>,
}

/// Semantic classification of an interactive element.
#[derive(Debug, Clone, Copy, PartialEq, Eq, Structural)]
pub enum ElementKind {
    Button,
    Input,
    Link,
    Select,
    Textarea,
    Checkbox,
    Radio,
    Other,
}

/// Page lifecycle state.
#[derive(Debug, Clone, PartialEq)]
pub enum PageState {
    /// Page is fully loaded and interactive.
    Ready,
    /// Page is still loading.
    Loading,
    /// An error prevented the page from loading.
    Error,
    /// Page is blocked by a bot-challenge / CAPTCHA / WAF.
    Blocked(String),
}

// ── Prompt model ─────────────────────────────────────────────────────

/// `{:?}` of an element kind.
pub open spec fn kind_name(k: ElementKind) -> Seq<char> {
    match k {
        ElementKind::Button => "Button"@,
        ElementKind::Input => "Input"@,
        ElementKind::Link => "Link"@,
        ElementKind::Select => "Select"@,
        ElementKind::Textarea => "Textarea"@,
        ElementKind::Checkbox => "Checkbox"@,
        ElementKind::Radio => "Radio"@,
        ElementKind::Other => "Other"@,
    }
}

/// `{:?}` of a page state.
pub open spec fn state_text(s: PageState) -> Seq<char> {
    match s {
        PageState::Ready => "Ready"@,
        PageState::Loading => "Loading"@,
        PageState::Error => "Error"@,
        PageState::Blocked(r) => "Blocked("@ + debug_text(r@) + ")"@,
    }
}

/// `{:?}` of a list of strings.
pub open spec fn list_text(v: Seq<String>) -> Seq<char> {
    "["@ + join(string_views(v).map_values(|s: Seq<char>| debug_text(s)), ", "@) + "]"@
}

/// `pre` + value + `"` when the attribute is present.
pub open spec fn quoted_attr(pre: Seq<char>, o: Option<String>) -> Seq<char> {
    match o {
        Some(s) => pre + s@ + "\""@,
        None => seq![],
    }
}

/// Start of an element's line: id, kind, type and label.
pub open spec fn line_head(e: Element) -> Seq<char> {
    "["@ + dec(e.id as nat) + "] "@ + kind_name(e.kind) + match e.input_type {
        Some(t) => " type="@ + t@,
        None => seq![],
    } + " \""@ + e.label@ + "\""@
}

/// Middle of an element's line: quoted attributes and form index.
pub open spec fn line_attrs(e: Element) -> Seq<char> {
    quoted_attr(" name=\""@, e.name) + quoted_attr(" ph=\""@, e.placeholder) + quoted_attr(
        " val=\""@,
        e.value,
    ) + quoted_attr(" href=\""@, e.href) + match e.form_index {
        Some(fi) => " form="@ + dec(fi as nat),
        None => seq![],
    }
}

/// Checked marker and select options of an element's line.
pub open spec fn line_marks(e: Element) -> Seq<char> {
    (if e.checked == Some(true) {
        " checked"@
    } else {
        seq![]
    }) + match e.options {
        Some(o) => " options="@ + list_text(o@),
        None => seq![],
    }
}

/// End of an element's line: markers, options, hint, frame, newline.
pub open spec fn line_tail(e: Element) -> Seq<char> {
    line_marks(e) + match e.hint {
        Some(h) => " [hint:"@ + h.hint_type@ + ":"@ + h.value@ + "]"@,
        None => seq![],
    } + match e.frame_index {
        Some(fi) => " [iframe:"@ + dec(fi as nat) + "]"@,
        None => seq![],
    } + if e.disabled {
        " [disabled]"@
    } else {
        seq![]
    } + "\n"@
}

/// One element's line in the prompt.
pub open spec fn element_line(e: Element) -> Seq<char> {
    line_head(e) + line_attrs(e) + line_tail(e)
}

/// The element lines, in order.
pub open spec fn elements_text(els: Seq<Element>) -> Seq<char>
    decreases els.len(),
{
    if els.len() == 0 {
        seq![]
    } else {
        elements_text(els.drop_last()) + element_line(els.last())
    }
}

/// Number of elements of kind `k`.
pub open spec fn count_of(els: Seq<Element>, k: ElementKind) -> nat
    decreases els.len(),
{
    if els.len() == 0 {
        0
    } else {
        count_of(els.drop_last(), k) + if els.last().kind == k {
            1nat
        } else {
            0nat
        }
    }
}

/// `"<n> <word>"` with the plural suffix unless `n == 1`; nothing when `n == 0`.
pub open spec fn count_part(n: nat, word: Seq<char>, plural: Seq<char>) -> Seq<Seq<char>> {
    if n > 0 {
        seq![dec(n) + " "@ + word + if n == 1 {
            seq![]
        } else {
            plural
        }]
    } else {
        seq![]
    }
}

/// The per-kind parts of the element summary.
pub open spec fn count_parts(els: Seq<Element>) -> Seq<Seq<char>> {
    count_part(count_of(els, ElementKind::Button), "button"@, "s"@) + count_part(
        count_of(els, ElementKind::Input),
        "input"@,
        "s"@,
    ) + count_part(count_of(els, ElementKind::Link), "link"@, "s"@) + count_part(
        count_of(els, ElementKind::Select),
        "select"@,
        "s"@,
    ) + count_part(count_of(els, ElementKind::Textarea), "textarea"@, "s"@) + count_part(
        count_of(els, ElementKind::Checkbox),
        "checkbox"@,
        "es"@,
    ) + count_part(count_of(els, ElementKind::Radio), "radio"@, "s"@) + if count_of(
        els,
        ElementKind::Other,
    ) > 0 {
        seq![dec(count_of(els, ElementKind::Other)) + " other"@]
    } else {
        seq![]
    }
}

/// The element summary line.
pub open spec fn count_line(els: Seq<Element>) -> Seq<char> {
    if count_parts(els).len() == 0 {
        "ELEMENTS: 0\n"@
    } else {
        "ELEMENTS: "@ + dec(els.len()) + " ("@ + join(count_parts(els), ", "@) + ")\n"@
    }
}

/// `pre` + value + newline when present.
pub open spec fn opt_line(pre: Seq<char>, o: Option<String>) -> Seq<char> {
    match o {
        Some(s) => pre + s@ + "\n"@,
        None => seq![],
    }
}

/// The prompt for view `v` showing the elements `els`.
pub open spec fn prompt_with(v: SemanticView, els: Seq<Element>) -> Seq<char> {
    "URL: "@ + redacted_url(v.url@) + "\n"@ + "TITLE: "@ + v.title@ + "\n"@ + "HINT: "@
        + v.page_hint@ + "\n"@ + "STATE: "@ + state_text(v.state) + "\n"@ + opt_line(
        "ELEMENT_CAP: "@,
        v.element_cap,
    ) + opt_line("BLOCKED: "@, v.blocked_reason) + "\n"@ + count_line(els) + elements_text(els)
        + if v.visible_text@.len() > 0 {
        "\nVISIBLE TEXT: "@ + v.visible_text@ + "\n"@
    } else {
        seq![]
    } + match v.session_context {
        Some(c) => "\n"@ + c@,
        None => seq![],
    }
}

/// The prompt for view `v`.
pub open spec fn prompt_text(v: SemanticView) -> Seq<char> {
    prompt_with(v, v.elements@)
}

/// Number of pages of `total` elements with `size` per page (rounded up).
pub open spec fn page_count(total: nat, size: nat) -> nat {
    ((total + size - 1) / size as int) as nat
}

/// The paginated prompt.
pub open spec fn paginated_text(v: SemanticView, page: nat, size0: nat) -> Seq<char> {
    let size = if size0 == 0 {
        1nat
    } else {
        size0
    };
    let total = v.elements@.len();
    if total == 0 || size >= total {
        "Page 1/1\n"@ + prompt_text(v)
    } else {
        let pages = page_count(total, size);
        let idx = if page < pages - 1 {
            page
        } else {
            (pages - 1) as nat
        };
        let start = idx * size;
        let end = if start + size < total {
            start + size
        } else {
            total
        };
        let slice = v.elements@.subrange(start as int, end as int);
        (if slice.len() == 0 {
            "Page "@ + dec(idx + 1) + "/"@ + dec(pages) + " (empty)\n"@
        } else {
            "Page "@ + dec(idx + 1) + "/"@ + dec(pages) + "\n"@
        }) + prompt_with(v, slice)
    }
}

/// The element is kept by the hidden-element filter.
pub open spec fn shown(e: Element) -> bool {
    e.is_visible != Some(false)
}

/// The elements kept by the hidden-element filter, in order.
pub open spec fn shown_only(els: Seq<Element>) -> Seq<Element>
    decreases els.len(),
{
    if els.len() == 0 {
        seq![]
    } else if shown(els.last()) {
        shown_only(els.drop_last()).push(els.last())
    } else {
        shown_only(els.drop_last())
    }
}

// ── Prompt laws ──────────────────────────────────────────────────────

/// Every element's line is part of the element list.
proof fn lemma_elements_text_has_line(els: Seq<Element>, i: int)
    requires
        0 <= i < els.len(),
    ensures
        contains(elements_text(els), element_line(els[i])),
    decreases els.len(),
{
    if i == els.len() - 1 {
        lemma_contains_self(element_line(els[i]));
        lemma_contains_within(elements_text(els.drop_last()), element_line(els[i]), seq![], element_line(els[i]));
        assert(elements_text(els.drop_last()) + element_line(els[i]) + Seq::<char>::empty() =~= elements_text(els));
    } else {
        lemma_elements_text_has_line(els.drop_last(), i);
        assert(els.drop_last()[i] == els[i]);
        lemma_contains_within(seq![], elements_text(els.drop_last()), element_line(els.last()), element_line(els[i]));
        assert(Seq::<char>::empty() + elements_text(els.drop_last()) + element_line(els.last()) =~= elements_text(els));
    }
}

/// The attribute part of a line shows each attribute the element has.
#[verifier::spinoff_prover]
proof fn lemma_line_attrs_show(el: Element)
    ensures
        el.name matches Some(x) ==> contains(line_attrs(el), " name=\""@ + x@ + "\""@),
        el.placeholder matches Some(x) ==> contains(line_attrs(el), " ph=\""@ + x@ + "\""@),
        el.value matches Some(x) ==> contains(line_attrs(el), " val=\""@ + x@ + "\""@),
        el.href matches Some(x) ==> contains(line_attrs(el), " href=\""@ + x@ + "\""@),
{
    let qn = quoted_attr(" name=\""@, el.name);
    let qp = quoted_attr(" ph=\""@, el.placeholder);
    let qv = quoted_attr(" val=\""@, el.value);
    let qh = quoted_attr(" href=\""@, el.href);
    let fm = match el.form_index {
        Some(fi) => " form="@ + dec(fi as nat),
        None => seq![],
    };
    let attrs = line_attrs(el);
    assert(attrs == qn + qp + qv + qh + fm);
    if let Some(x) = el.name {
        lemma_contains_self(qn);
        lemma_contains_within(seq![], qn, qp + qv + qh + fm, qn);
        assert(Seq::<char>::empty() + qn + (qp + qv + qh + fm) =~= attrs);
    }
    if let Some(x) = el.placeholder {
        lemma_contains_self(qp);
        lemma_contains_within(qn, qp, qv + qh + fm, qp);
        assert(qn + qp + (qv + qh + fm) =~= attrs);
    }
    if let Some(x) = el.value {
        lemma_contains_self(qv);
        lemma_contains_within(qn + qp, qv, qh + fm, qv);
        assert(qn + qp + qv + (qh + fm) =~= attrs);
    }
    if let Some(x) = el.href {
        lemma_contains_self(qh);
        lemma_contains_within(qn + qp + qv, qh, fm, qh);
    }
}

/// An element's line shows each attribute it has, quoted: `name="…"`,
/// `ph="…"` (placeholder), `val="…"` (value) and `href="…"`.
#[verifier::spinoff_prover]
pub proof fn lemma_element_line_shows_attributes(el: Element)
    ensures
        el.name matches Some(x) ==> contains(element_line(el), " name=\""@ + x@ + "\""@),
        el.placeholder matches Some(x) ==> contains(element_line(el), " ph=\""@ + x@ + "\""@),
        el.value matches Some(x) ==> contains(element_line(el), " val=\""@ + x@ + "\""@),
        el.href matches Some(x) ==> contains(element_line(el), " href=\""@ + x@ + "\""@),
{
    lemma_line_attrs_show(el);
    let attrs = line_attrs(el);
    assert forall|x: Seq<char>| contains(attrs, x) implies contains(element_line(el), x) by {
        lemma_contains_within(line_head(el), attrs, line_tail(el), x);
    }
}

/// A prompt built over `els` holds each of their lines, and whatever such a
/// line holds.
#[verifier::spinoff_prover]
proof fn lemma_prompt_with_has_line(v: SemanticView, els: Seq<Element>, i: int)
    requires
        0 <= i < els.len(),
    ensures
        forall|x: Seq<char>| contains(element_line(els[i]), x) ==> contains(prompt_with(v, els), x),
{
    lemma_elements_text_has_line(els, i);
    let pre = "URL: "@ + redacted_url(v.url@) + "\n"@ + "TITLE: "@ + v.title@ + "\n"@ + "HINT: "@
        + v.page_hint@ + "\n"@ + "STATE: "@ + state_text(v.state) + "\n"@ + opt_line(
        "ELEMENT_CAP: "@,
        v.element_cap,
    ) + opt_line("BLOCKED: "@, v.blocked_reason) + "\n"@ + count_line(els);
    let post = (if v.visible_text@.len() > 0 {
        "\nVISIBLE TEXT: "@ + v.visible_text@ + "\n"@
    } else {
        seq![]
    }) + match v.session_context {
        Some(c) => "\n"@ + c@,
        None => seq![],
    };
    let whole = prompt_with(v, els);
    let line = element_line(els[i]);
    let lt = elements_text(els);
    assert(whole =~= pre + lt + post);
    let lk = choose|k: int| matches_at(lt, line, k);
    assert forall|x: Seq<char>| contains(line, x) implies contains(whole, x) by {
        let j = choose|j: int| matches_at(line, x, j);
        assert(whole.subrange(pre.len() + lk + j, pre.len() + lk + j + x.len()) =~= line.subrange(j, j + x.len()));
        assert(matches_at(whole, x, pre.len() + lk + j));
    }
}

/// The prompt shows every element's line, so each attribute an element has
/// (`name`, placeholder, value, `href`) appears quoted in the prompt.
pub proof fn lemma_prompt_shows_elements(v: SemanticView, i: int)
    requires
        0 <= i < v.elements@.len(),
    ensures
        contains(prompt_text(v), element_line(v.elements@[i])),
        v.elements@[i].href matches Some(x) ==> contains(prompt_text(v), " href=\""@ + x@ + "\""@),
        v.elements@[i].name matches Some(x) ==> contains(prompt_text(v), " name=\""@ + x@ + "\""@),
        v.elements@[i].placeholder matches Some(x) ==> contains(prompt_text(v), " ph=\""@ + x@ + "\""@),
        v.elements@[i].value matches Some(x) ==> contains(prompt_text(v), " val=\""@ + x@ + "\""@),
{
    let e = v.elements@[i];
    lemma_prompt_with_has_line(v, v.elements@, i);
    lemma_contains_self(element_line(e));
    lemma_element_line_shows_attributes(e);
}

/// Paging: with a page size (0 taken as 1) that holds every element, the
/// paginated prompt is `Page 1/1` and the whole prompt; otherwise page `p`
/// (counted from 0, below the number of pages) opens with
/// `Page <p+1>/<pages>` and shows the lines of the elements from `p * size`
/// up to the next page or the end.
#[verifier::spinoff_prover]
pub proof fn lemma_pages(v: SemanticView, page: nat, size0: nat)
    ensures
        ({
            let size = if size0 == 0 {
                1nat
            } else {
                size0
            };
            size >= v.elements@.len() ==> paginated_text(v, page, size0) == "Page 1/1\n"@
                + prompt_text(v)
        }),
        ({
            let size = if size0 == 0 {
                1nat
            } else {
                size0
            };
            let total = v.elements@.len();
            let pages = page_count(total, size);
            (size < total && page < pages) ==> {
                &&& starts_with(
                    paginated_text(v, page, size0),
                    "Page "@ + dec(page + 1) + "/"@ + dec(pages),
                )
                &&& forall|i: int|
                    page * size <= i < total && i < page * size + size ==> contains(
                        paginated_text(v, page, size0),
                        #[trigger] element_line(v.elements@[i]),
                    )
            }
        }),
{
    let size = if size0 == 0 {
        1nat
    } else {
        size0
    };
    let total = v.elements@.len();
    let pages = page_count(total, size);
    if size < total && page < pages {
        let idx = if page < pages - 1 {
            page
        } else {
            (pages - 1) as nat
        };
        assert(idx == page);
        let start = page * size;
        let end = if start + size < total {
            start + size
        } else {
            total
        };
        let slice = v.elements@.subrange(start as int, end as int);
        let head = "Page "@ + dec(page + 1) + "/"@ + dec(pages);
        let body = prompt_with(v, slice);
        let whole = paginated_text(v, page, size0);
        let tl = if slice.len() == 0 {
            " (empty)\n"@
        } else {
            "\n"@
        };
        assert(whole == head + tl + body);
        assert(whole.subrange(0, head.len() as int) =~= head);
        assert forall|i: int|
            page * size <= i < total && i < page * size + size implies contains(
                whole,
                #[trigger] element_line(v.elements@[i]),
            ) by {
            assert(slice[i - start] == v.elements@[i]);
            lemma_prompt_with_has_line(v, slice, i - start);
            lemma_contains_self(element_line(v.elements@[i]));
            lemma_contains_after(head + tl, body, element_line(v.elements@[i]));
        }
    }
}

/// The prompt's optional lines: `ELEMENT_CAP: c` and `BLOCKED: r` when
/// set, the visible text under `VISIBLE TEXT:` when there is any, and the
/// session context last, after a newline.
#[verifier::spinoff_prover]
pub proof fn lemma_prompt_optional_lines(v: SemanticView)
    ensures
        v.element_cap matches Some(c) ==> contains(prompt_text(v), "ELEMENT_CAP: "@ + c@ + "\n"@),
        v.blocked_reason matches Some(r) ==> contains(prompt_text(v), "BLOCKED: "@ + r@ + "\n"@),
        v.visible_text@.len() > 0 ==> contains(
            prompt_text(v),
            "\nVISIBLE TEXT: "@ + v.visible_text@ + "\n"@,
        ),
        v.session_context matches Some(c) ==> ends_with(prompt_text(v), "\n"@ + c@),
{
    let els = v.elements@;
    let head = "URL: "@ + redacted_url(v.url@) + "\n"@ + "TITLE: "@ + v.title@ + "\n"@ + "HINT: "@
        + v.page_hint@ + "\n"@ + "STATE: "@ + state_text(v.state) + "\n"@;
    let cap = opt_line("ELEMENT_CAP: "@, v.element_cap);
    let blk = opt_line("BLOCKED: "@, v.blocked_reason);
    let vis = if v.visible_text@.len() > 0 {
        "\nVISIBLE TEXT: "@ + v.visible_text@ + "\n"@
    } else {
        seq![]
    };
    let ses = match v.session_context {
        Some(c) => "\n"@ + c@,
        None => seq![],
    };
    let upto = head + cap + blk + "\n"@ + count_line(els) + elements_text(els) + vis;
    let whole = prompt_text(v);
    assert(whole == upto + ses);
    assert forall|x: Seq<char>| contains(head + cap + blk, x) implies contains(whole, x) by {
        lemma_contains_then(head + cap + blk, "\n"@, x);
        lemma_contains_then(head + cap + blk + "\n"@, count_line(els), x);
        lemma_contains_then(head + cap + blk + "\n"@ + count_line(els), elements_text(els), x);
        lemma_contains_then(
            head + cap + blk + "\n"@ + count_line(els) + elements_text(els),
            vis,
            x,
        );
        lemma_contains_then(upto, ses, x);
    }
    if v.element_cap is Some {
        lemma_contains_self(cap);
        lemma_contains_after(head, cap, cap);
        lemma_contains_then(head + cap, blk, cap);
    }
    if v.blocked_reason is Some {
        lemma_contains_self(blk);
        lemma_contains_after(head + cap, blk, blk);
    }
    if v.visible_text@.len() > 0 {
        lemma_contains_self(vis);
        lemma_contains_after(head + cap + blk + "\n"@ + count_line(els) + elements_text(els), vis, vis);
        lemma_contains_then(upto, ses, vis);
    }
    if v.session_context is Some {
        assert(whole.subrange(whole.len() - ses.len(), whole.len() as int) =~= ses);
    }
}

/// The per-kind counts add up to the number of elements.
proof fn lemma_kind_counts_total(els: Seq<Element>)
    ensures
        count_of(els, ElementKind::Button) + count_of(els, ElementKind::Input) + count_of(
            els,
            ElementKind::Link,
        ) + count_of(els, ElementKind::Select) + count_of(els, ElementKind::Textarea) + count_of(
            els,
            ElementKind::Checkbox,
        ) + count_of(els, ElementKind::Radio) + count_of(els, ElementKind::Other) == els.len(),
    decreases els.len(),
{
    if els.len() > 0 {
        lemma_kind_counts_total(els.drop_last());
    }
}

/// The prompt gives the number of elements: `ELEMENTS: 0` for none, else
/// `ELEMENTS: <n> (` followed by the per-kind counts.
#[verifier::spinoff_prover]
pub proof fn lemma_prompt_counts(v: SemanticView)
    ensures
        v.elements@.len() == 0 ==> contains(prompt_text(v), "ELEMENTS: 0\n"@),
        v.elements@.len() > 0 ==> contains(
            prompt_text(v),
            "ELEMENTS: "@ + dec(v.elements@.len()) + " ("@,
        ),
{
    let els = v.elements@;
    lemma_kind_counts_total(els);
    let parts = count_parts(els);
    if els.len() > 0 {
        assert(parts.len() > 0);
    } else {
        assert(count_of(els, ElementKind::Other) == 0);
        assert(parts.len() == 0);
    }
    let cl = count_line(els);
    let pre = "URL: "@ + redacted_url(v.url@) + "\n"@ + "TITLE: "@ + v.title@ + "\n"@ + "HINT: "@
        + v.page_hint@ + "\n"@ + "STATE: "@ + state_text(v.state) + "\n"@ + opt_line(
        "ELEMENT_CAP: "@,
        v.element_cap,
    ) + opt_line("BLOCKED: "@, v.blocked_reason) + "\n"@;
    let post = elements_text(els) + (if v.visible_text@.len() > 0 {
        "\nVISIBLE TEXT: "@ + v.visible_text@ + "\n"@
    } else {
        seq![]
    }) + match v.session_context {
        Some(c) => "\n"@ + c@,
        None => seq![],
    };
    assert(prompt_text(v) =~= pre + cl + post);
    if els.len() > 0 {
        let opening = "ELEMENTS: "@ + dec(els.len()) + " ("@;
        let rest = join(parts, ", "@) + ")\n"@;
        assert(cl =~= opening + rest);
        lemma_contains_self(opening);
        lemma_contains_within(seq![], opening, rest, opening);
        assert(Seq::<char>::empty() + opening + rest =~= cl);
    } else {
        lemma_contains_self(cl);
    }
    lemma_contains_within(pre, cl, post, if els.len() > 0 {
        "ELEMENTS: "@ + dec(els.len()) + " ("@
    } else {
        "ELEMENTS: 0\n"@
    });
}

/// The prompt opens with the page's URL (secrets redacted), title, hint
/// and state, one per line.
#[verifier::spinoff_prover]
pub proof fn lemma_prompt_header(v: SemanticView)
    ensures
        starts_with(
            prompt_text(v),
            "URL: "@ + redacted_url(v.url@) + "\nTITLE: "@ + v.title@ + "\nHINT: "@ + v.page_hint@
                + "\nSTATE: "@ + state_text(v.state) + "\n"@,
        ),
{
    reveal_strlit("\nTITLE: ");
    reveal_strlit("\nHINT: ");
    reveal_strlit("\nSTATE: ");
    reveal_strlit("\n");
    reveal_strlit("TITLE: ");
    reveal_strlit("HINT: ");
    reveal_strlit("STATE: ");
    let head = "URL: "@ + redacted_url(v.url@) + "\nTITLE: "@ + v.title@ + "\nHINT: "@
        + v.page_hint@ + "\nSTATE: "@ + state_text(v.state) + "\n"@;
    let spelled = "URL: "@ + redacted_url(v.url@) + "\n"@ + "TITLE: "@ + v.title@ + "\n"@
        + "HINT: "@ + v.page_hint@ + "\n"@ + "STATE: "@ + state_text(v.state) + "\n"@;
    assert(head =~= spelled);
    let els = v.elements@;
    let s1 = spelled + opt_line("ELEMENT_CAP: "@, v.element_cap);
    let s2 = s1 + opt_line("BLOCKED: "@, v.blocked_reason);
    let s3 = s2 + "\n"@;
    let s4 = s3 + count_line(els);
    let s5 = s4 + elements_text(els);
    let vis = if v.visible_text@.len() > 0 {
        "\nVISIBLE TEXT: "@ + v.visible_text@ + "\n"@
    } else {
        seq![]
    };
    let s6 = s5 + vis;
    let ses = match v.session_context {
        Some(c) => "\n"@ + c@,
        None => seq![],
    };
    assert(prompt_text(v) == s6 + ses);
    assert(spelled.subrange(0, spelled.len() as int) =~= spelled);
    lemma_starts_then(spelled, opt_line("ELEMENT_CAP: "@, v.element_cap), head);
    lemma_starts_then(s1, opt_line("BLOCKED: "@, v.blocked_reason), head);
    lemma_starts_then(s2, "\n"@, head);
    lemma_starts_then(s3, count_line(els), head);
    lemma_starts_then(s4, elements_text(els), head);
    lemma_starts_then(s5, vis, head);
    lemma_starts_then(s6, ses, head);
}

/// The head of a line: `[id] Kind`, then the quoted label.
proof fn lemma_line_head_shape(el: Element)
    ensures
        starts_with(line_head(el), "["@ + dec(el.id as nat) + "] "@ + kind_name(el.kind)),
        contains(line_head(el), " \""@ + el.label@ + "\""@),
{
    let opening = "["@ + dec(el.id as nat) + "] "@ + kind_name(el.kind);
    let ty = match el.input_type {
        Some(t) => " type="@ + t@,
        None => seq![],
    };
    let quoted = " \""@ + el.label@ + "\""@;
    let head = line_head(el);
    assert(head =~= opening + ty + quoted);
    assert(head.subrange(0, opening.len() as int) =~= opening);
    lemma_contains_self(quoted);
    lemma_contains_within(opening + ty, quoted, seq![], quoted);
    assert(opening + ty + quoted + Seq::<char>::empty() =~= head);
}

/// The tail of a line: the checked and disabled markers, then the newline.
proof fn lemma_line_tail_shape(el: Element)
    ensures
        ends_with(line_tail(el), "\n"@),
        el.disabled ==> contains(line_tail(el), " [disabled]"@),
        el.checked == Some(true) ==> contains(line_tail(el), " checked"@),
{
    reveal_strlit("\n");
    let marks = line_marks(el);
    let opts = match el.options {
        Some(o) => " options="@ + list_text(o@),
        None => seq![],
    };
    let hint = match el.hint {
        Some(h) => " [hint:"@ + h.hint_type@ + ":"@ + h.value@ + "]"@,
        None => seq![],
    };
    let frame = match el.frame_index {
        Some(fi) => " [iframe:"@ + dec(fi as nat) + "]"@,
        None => seq![],
    };
    let dis = if el.disabled {
        " [disabled]"@
    } else {
        seq![]
    };
    let tail = line_tail(el);
    let body = marks + hint + frame + dis;
    assert(tail == body + "\n"@);
    assert(tail.subrange(tail.len() - 1, tail.len() as int) =~= "\n"@);
    assert forall|x: Seq<char>| contains(body, x) implies contains(tail, x) by {
        lemma_contains_then(body, "\n"@, x);
    }
    if el.disabled {
        lemma_contains_self(dis);
        lemma_contains_after(marks + hint + frame, dis, dis);
    }
    if el.checked == Some(true) {
        let chk = " checked"@;
        assert(marks == chk + opts);
        lemma_contains_self(chk);
        lemma_contains_then(chk, opts, chk);
        lemma_contains_then(marks, hint, chk);
        lemma_contains_then(marks + hint, frame, chk);
        lemma_contains_then(marks + hint + frame, dis, chk);
    }
}

/// The rest of a line's head and middle: the input type and the form index.
proof fn lemma_line_type_and_form(el: Element)
    ensures
        el.input_type matches Some(t) ==> contains(line_head(el), " type="@ + t@),
        el.form_index matches Some(fi) ==> contains(line_attrs(el), " form="@ + dec(fi as nat)),
{
    let opening = "["@ + dec(el.id as nat) + "] "@ + kind_name(el.kind);
    let ty = match el.input_type {
        Some(t) => " type="@ + t@,
        None => seq![],
    };
    let quoted = " \""@ + el.label@ + "\""@;
    assert(line_head(el) =~= opening + ty + quoted);
    if el.input_type is Some {
        lemma_contains_self(ty);
        lemma_contains_within(opening, ty, quoted, ty);
    }
    let front = quoted_attr(" name=\""@, el.name) + quoted_attr(" ph=\""@, el.placeholder)
        + quoted_attr(" val=\""@, el.value) + quoted_attr(" href=\""@, el.href);
    let fm = match el.form_index {
        Some(fi) => " form="@ + dec(fi as nat),
        None => seq![],
    };
    assert(line_attrs(el) =~= front + fm);
    if el.form_index is Some {
        lemma_contains_self(fm);
        lemma_contains_within(front, fm, seq![], fm);
        assert(front + fm + Seq::<char>::empty() =~= line_attrs(el));
    }
}

/// The markers of a line's tail: options, hint and iframe.
proof fn lemma_line_tail_marks(el: Element)
    ensures
        el.options matches Some(o) ==> contains(line_tail(el), " options="@ + list_text(o@)),
        el.hint matches Some(h) ==> contains(
            line_tail(el),
            " [hint:"@ + h.hint_type@ + ":"@ + h.value@ + "]"@,
        ),
        el.frame_index matches Some(fi) ==> contains(
            line_tail(el),
            " [iframe:"@ + dec(fi as nat) + "]"@,
        ),
{
    let chk = if el.checked == Some(true) {
        " checked"@
    } else {
        seq![]
    };
    let opts = match el.options {
        Some(o) => " options="@ + list_text(o@),
        None => seq![],
    };
    let marks = line_marks(el);
    let hint = match el.hint {
        Some(h) => " [hint:"@ + h.hint_type@ + ":"@ + h.value@ + "]"@,
        None => seq![],
    };
    let frame = match el.frame_index {
        Some(fi) => " [iframe:"@ + dec(fi as nat) + "]"@,
        None => seq![],
    };
    let dis = if el.disabled {
        " [disabled]"@
    } else {
        seq![]
    };
    assert(marks == chk + opts);
    assert(line_tail(el) == marks + hint + frame + dis + "\n"@);
    assert forall|x: Seq<char>| contains(marks + hint + frame, x) implies contains(line_tail(el), x) by {
        lemma_contains_then(marks + hint + frame, dis, x);
        lemma_contains_then(marks + hint + frame + dis, "\n"@, x);
    }
    if el.options is Some {
        lemma_contains_self(opts);
        lemma_contains_after(chk, opts, opts);
        lemma_contains_then(marks, hint, opts);
        lemma_contains_then(marks + hint, frame, opts);
    }
    if el.hint is Some {
        lemma_contains_self(hint);
        lemma_contains_after(marks, hint, hint);
        lemma_contains_then(marks + hint, frame, hint);
    }
    if el.frame_index is Some {
        lemma_contains_self(frame);
        lemma_contains_after(marks + hint, frame, frame);
    }
}

/// An element's line also shows its input type ` type=T`, its form
/// ` form=N`, its options ` options=[...]`, its hint ` [hint:type:value]`
/// and its frame ` [iframe:N]`, each when present.
pub proof fn lemma_element_line_markers(el: Element)
    ensures
        el.input_type matches Some(t) ==> contains(element_line(el), " type="@ + t@),
        el.form_index matches Some(fi) ==> contains(element_line(el), " form="@ + dec(fi as nat)),
        el.options matches Some(o) ==> contains(element_line(el), " options="@ + list_text(o@)),
        el.hint matches Some(h) ==> contains(
            element_line(el),
            " [hint:"@ + h.hint_type@ + ":"@ + h.value@ + "]"@,
        ),
        el.frame_index matches Some(fi) ==> contains(
            element_line(el),
            " [iframe:"@ + dec(fi as nat) + "]"@,
        ),
{
    lemma_line_type_and_form(el);
    lemma_line_tail_marks(el);
    let head = line_head(el);
    let attrs = line_attrs(el);
    let tail = line_tail(el);
    let line = element_line(el);
    assert forall|x: Seq<char>| contains(head, x) implies contains(line, x) by {
        lemma_contains_within(seq![], head, attrs + tail, x);
        assert(Seq::<char>::empty() + head + (attrs + tail) =~= line);
    }
    assert forall|x: Seq<char>| contains(attrs, x) implies contains(line, x) by {
        lemma_contains_within(head, attrs, tail, x);
    }
    assert forall|x: Seq<char>| contains(tail, x) implies contains(line, x) by {
        lemma_contains_within(head + attrs, tail, seq![], x);
        assert(head + attrs + tail + Seq::<char>::empty() =~= line);
    }
}

/// An element's line opens with `[id] Kind`, shows the label quoted, marks
/// a disabled element ` [disabled]` and a checked one ` checked`, and ends
/// the line.
pub proof fn lemma_element_line_shape(el: Element)
    ensures
        starts_with(element_line(el), "["@ + dec(el.id as nat) + "] "@ + kind_name(el.kind)),
        contains(element_line(el), " \""@ + el.label@ + "\""@),
        ends_with(element_line(el), "\n"@),
        el.disabled ==> contains(element_line(el), " [disabled]"@),
        el.checked == Some(true) ==> contains(element_line(el), " checked"@),
{
    reveal_strlit("\n");
    lemma_line_head_shape(el);
    lemma_line_tail_shape(el);
    let head = line_head(el);
    let attrs = line_attrs(el);
    let tail = line_tail(el);
    let line = element_line(el);
    let opening = "["@ + dec(el.id as nat) + "] "@ + kind_name(el.kind);
    assert(line.subrange(0, opening.len() as int) =~= head.subrange(0, opening.len() as int));
    assert(line.subrange(line.len() - 1, line.len() as int) =~= tail.subrange(
        tail.len() - 1,
        tail.len() as int,
    ));
    assert forall|x: Seq<char>| contains(head, x) implies contains(line, x) by {
        lemma_contains_within(seq![], head, attrs + tail, x);
        assert(Seq::<char>::empty() + head + (attrs + tail) =~= line);
    }
    assert forall|x: Seq<char>| contains(tail, x) implies contains(line, x) by {
        lemma_contains_within(head + attrs, tail, seq![], x);
        assert(head + attrs + tail + Seq::<char>::empty() =~= line);
    }
}

// ── Element models ───────────────────────────────────────────────────

/// An element with its strings taken as character sequences.
pub struct ElementModel {
    pub id: u32,
    pub kind: ElementKind,
    pub label: Seq<char>,
    pub name: Option<Seq<char>>,
    pub value: Option<Seq<char>>,
    pub placeholder: Option<Seq<char>>,
    pub href: Option<Seq<char>>,
    pub input_type: Option<Seq<char>>,
    pub disabled: bool,
    pub form_index: Option<u32>,
    pub context: Option<Seq<char>>,
    pub hint: Option<(Seq<char>, Seq<char>)>,
    pub checked: Option<bool>,
    pub options: Option<Seq<Seq<char>>>,
    pub frame_index: Option<u32>,
    pub is_visible: Option<bool>,
}

/// View of an optional hint: its type and value.
pub open spec fn hint_view(h: Option<ElementHint>) -> Option<(Seq<char>, Seq<char>)> {
    match h {
        Some(h) => Some((h.hint_type@, h.value@)),
        None => None,
    }
}

/// View of an optional list of strings.
pub open spec fn options_view(o: Option<Vec<String>>) -> Option<Seq<Seq<char>>> {
    match o {
        Some(v) => Some(string_views(v@)),
        None => None,
    }
}

impl View for Element {
    type V = ElementModel;

    open spec fn view(&self) -> ElementModel {
        ElementModel {
            id: self.id,
            kind: self.kind,
            label: self.label@,
            name: opt_view(self.name),
            value: opt_view(self.value),
            placeholder: opt_view(self.placeholder),
            href: opt_view(self.href),
            input_type: opt_view(self.input_type),
            disabled: self.disabled,
            form_index: self.form_index,
            context: opt_view(self.context),
            hint: hint_view(self.hint),
            checked: self.checked,
            options: options_view(self.options),
            frame_index: self.frame_index,
            is_visible: self.is_visible,
        }
    }
}

/// Models of a sequence of elements.
pub open spec fn models(s: Seq<Element>) -> Seq<ElementModel> {
    s.map_values(|e: Element| e@)
}

fn copy_opt_string(o: &Option<String>) -> (r: Option<String>)
    ensures
        opt_view(r) == opt_view(*o),
{
    match o {
        Some(s) => Some(s.clone()),
        None => None,
    }
}

fn copy_strings(v: &Vec<String>) -> (r: Vec<String>)
    ensures
        string_views(r@) == string_views(v@),
{
    let mut r: Vec<String> = Vec::new();
    let mut i: usize = 0;
    while i < v.len()
        invariant
            i <= v@.len(),
            string_views(r@) == string_views(v@.take(i as int)),
        decreases v@.len() - i,
    {
        let ghost before = r@;
        let c = v[i].clone();
        r.push(c);
        assert(r@ == before.push(c));
        assert(v@.take(i + 1) =~= v@.take(i as int).push(v@[i as int]));
        assert(string_views(before.push(c)) =~= string_views(before).push(c@));
        assert(string_views(v@.take(i as int).push(v@[i as int])) =~= string_views(
            v@.take(i as int),
        ).push(v@[i as int]@));
        assert(string_views(r@) =~= string_views(v@.take(i + 1)));
        i = i + 1;
    }
    assert(v@.take(v@.len() as int) =~= v@);
    r
}

/// A copy of an element, field by field.
pub fn copy_element(e: &Element) -> (r: Element)
    ensures
        r@ == e@,
{
    Element {
        id: e.id,
        kind: e.kind,
        label: e.label.clone(),
        name: copy_opt_string(&e.name),
        value: copy_opt_string(&e.value),
        placeholder: copy_opt_string(&e.placeholder),
        href: copy_opt_string(&e.href),
        input_type: copy_opt_string(&e.input_type),
        disabled: e.disabled,
        form_index: e.form_index,
        context: copy_opt_string(&e.context),
        hint: match &e.hint {
            Some(h) => Some(ElementHint { hint_type: h.hint_type.clone(), value: h.value.clone() }),
            None => None,
        },
        checked: e.checked,
        options: match &e.options {
            Some(v) => Some(copy_strings(v)),
            None => None,
        },
        frame_index: e.frame_index,
        is_visible: e.is_visible,
    }
}

/// UTF-8 byte length of a string.
pub open spec fn blen(s: String) -> nat {
    encode_utf8(s@).len()
}

/// UTF-8 byte length of an optional string (0 when absent).
pub open spec fn oblen(o: Option<String>) -> nat {
    match o {
        Some(s) => blen(s),
        None => 0,
    }
}

/// Estimated size of one element's line.
pub open spec fn element_weight(e: Element) -> nat {
    blen(e.label) + oblen(e.name) + oblen(e.value) + oblen(e.placeholder) + oblen(e.href) + oblen(
        e.input_type,
    ) + 30
}

/// Sum of the element weights.
pub open spec fn elements_weight(els: Seq<Element>) -> nat
    decreases els.len(),
{
    if els.len() == 0 {
        0
    } else {
        elements_weight(els.drop_last()) + element_weight(els.last())
    }
}

/// The token estimate: a quarter of the approximate prompt size in bytes.
pub open spec fn token_estimate(v: SemanticView) -> nat {
    (blen(v.url) + blen(v.title) + blen(v.page_hint) + 50 + elements_weight(v.elements@) + blen(
        v.visible_text,
    )) / 4
}

// ── Rendering ────────────────────────────────────────────────────────

fn kind_name_exec(k: ElementKind) -> (s: &'static str)
    ensures
        s@ == kind_name(k),
{
    match k {
        ElementKind::Button => "Button",
        ElementKind::Input => "Input",
        ElementKind::Link => "Link",
        ElementKind::Select => "Select",
        ElementKind::Textarea => "Textarea",
        ElementKind::Checkbox => "Checkbox",
        ElementKind::Radio => "Radio",
        ElementKind::Other => "Other",
    }
}

fn push_state(out: &mut String, s: &PageState)
    ensures
        final(out)@ == old(out)@ + state_text(*s),
{
    match s {
        PageState::Ready => push_str(out, "Ready"),
        PageState::Loading => push_str(out, "Loading"),
        PageState::Error => push_str(out, "Error"),
        PageState::Blocked(r) => {
            push_str(out, "Blocked(");
            let d = debug_string(r.as_str());
            push_str(out, d.as_str());
            push_str(out, ")");
        },
    }
    assert(out@ =~= old(out)@ + state_text(*s));
}

fn push_list(out: &mut String, v: &Vec<String>)
    ensures
        final(out)@ == old(out)@ + list_text(v@),
{
    let mut parts: Vec<String> = Vec::new();
    let mut i: usize = 0;
    while i < v.len()
        invariant
            i <= v@.len(),
            string_views(parts@) == string_views(v@).take(i as int).map_values(
                |s: Seq<char>| debug_text(s),
            ),
        decreases v@.len() - i,
    {
        let d = debug_string(v[i].as_str());
        let ghost before = parts@;
        parts.push(d);
        proof {
            assert(string_views(parts@) =~= string_views(before).push(d@));
            assert(string_views(v@).take(i + 1) =~= string_views(v@).take(i as int).push(
                v@[i as int]@,
            ));
            assert(string_views(parts@) =~= string_views(v@).take(i + 1).map_values(
                |s: Seq<char>| debug_text(s),
            ));
        }
        i = i + 1;
    }
    assert(string_views(v@).take(v@.len() as int) =~= string_views(v@));
    let joined = join_strings(parts.as_slice(), ", ");
    push_str(out, "[");
    push_str(out, joined.as_str());
    push_str(out, "]");
    assert(out@ =~= old(out)@ + list_text(v@));
}

fn push_quoted_attr(out: &mut String, pre: &str, o: &Option<String>)
    ensures
        final(out)@ == old(out)@ + quoted_attr(pre@, *o),
{
    match o {
        Some(s) => {
            push_str(out, pre);
            push_str(out, s.as_str());
            push_str(out, "\"");
        },
        None => {},
    }
    assert(out@ =~= old(out)@ + quoted_attr(pre@, *o));
}

fn push_line_head(out: &mut String, e: &Element)
    ensures
        final(out)@ == old(out)@ + line_head(*e),
{
    push_str(out, "[");
    push_dec(out, e.id as u64);
    push_str(out, "] ");
    push_str(out, kind_name_exec(e.kind));
    match &e.input_type {
        Some(t) => {
            push_str(out, " type=");
            push_str(out, t.as_str());
        },
        None => {},
    }
    push_str(out, " \"");
    push_str(out, e.label.as_str());
    push_str(out, "\"");
    assert(out@ =~= old(out)@ + line_head(*e));
}

fn push_line_attrs(out: &mut String, e: &Element)
    ensures
        final(out)@ == old(out)@ + line_attrs(*e),
{
    push_quoted_attr(out, " name=\"", &e.name);
    push_quoted_attr(out, " ph=\"", &e.placeholder);
    push_quoted_attr(out, " val=\"", &e.value);
    push_quoted_attr(out, " href=\"", &e.href);
    match e.form_index {
        Some(fi) => {
            push_str(out, " form=");
            push_dec(out, fi as u64);
        },
        None => {},
    }
    assert(out@ =~= old(out)@ + line_attrs(*e));
}

fn push_line_marks(out: &mut String, e: &Element)
    ensures
        final(out)@ == old(out)@ + line_marks(*e),
{
    let ghost start = out@;
    let is_checked = match e.checked {
        Some(b) => b,
        None => false,
    };
    if is_checked {
        push_str(out, " checked");
    }
    let ghost mid = out@;
    assert(mid =~= start + (if e.checked == Some(true) {
        " checked"@
    } else {
        Seq::<char>::empty()
    }));
    match &e.options {
        Some(o) => {
            push_str(out, " options=");
            push_list(out, o);
        },
        None => {},
    }
    assert(out@ =~= old(out)@ + line_marks(*e));
}

fn push_hint(out: &mut String, hint: &Option<ElementHint>)
    ensures
        final(out)@ == old(out)@ + match *hint {
            Some(h) => " [hint:"@ + h.hint_type@ + ":"@ + h.value@ + "]"@,
            None => Seq::<char>::empty(),
        },
{
    match hint {
        Some(h) => {
            push_str(out, " [hint:");
            push_str(out, h.hint_type.as_str());
            push_str(out, ":");
            push_str(out, h.value.as_str());
            push_str(out, "]");
            assert(out@ =~= old(out)@ + (" [hint:"@ + h.hint_type@ + ":"@ + h.value@ + "]"@));
        },
        None => {
            assert(out@ =~= old(out)@ + Seq::<char>::empty());
        },
    }
}

fn push_frame(out: &mut String, frame: Option<u32>)
    ensures
        final(out)@ == old(out)@ + match frame {
            Some(fi) => " [iframe:"@ + dec(fi as nat) + "]"@,
            None => Seq::<char>::empty(),
        },
{
    match frame {
        Some(fi) => {
            push_str(out, " [iframe:");
            push_dec(out, fi as u64);
            push_str(out, "]");
            assert(out@ =~= old(out)@ + (" [iframe:"@ + dec(fi as nat) + "]"@));
        },
        None => {
            assert(out@ =~= old(out)@ + Seq::<char>::empty());
        },
    }
}

fn push_line_tail(out: &mut String, e: &Element)
    ensures
        final(out)@ == old(out)@ + line_tail(*e),
{
    push_line_marks(out, e);
    let ghost a = out@;
    push_hint(out, &e.hint);
    let ghost b = out@;
    push_frame(out, e.frame_index);
    let ghost c = out@;
    if e.disabled {
        push_str(out, " [disabled]");
    }
    let ghost d = out@;
    assert(d =~= c + (if e.disabled {
        " [disabled]"@
    } else {
        Seq::<char>::empty()
    }));
    push_str(out, "\n");
    assert(out@ =~= old(out)@ + line_tail(*e));
}

fn push_element_line(out: &mut String, e: &Element)
    ensures
        final(out)@ == old(out)@ + element_line(*e),
{
    push_line_head(out, e);
    push_line_attrs(out, e);
    push_line_tail(out, e);
    assert(out@ =~= old(out)@ + element_line(*e));
}

/// Counts per kind of `els`.
fn kind_counts(els: &[Element]) -> (r: (u32, u32, u32, u32, u32, u32, u32, u32))
    requires
        els@.len() <= u32::MAX,
    ensures
        r.0 == count_of(els@, ElementKind::Button),
        r.1 == count_of(els@, ElementKind::Input),
        r.2 == count_of(els@, ElementKind::Link),
        r.3 == count_of(els@, ElementKind::Select),
        r.4 == count_of(els@, ElementKind::Textarea),
        r.5 == count_of(els@, ElementKind::Checkbox),
        r.6 == count_of(els@, ElementKind::Radio),
        r.7 == count_of(els@, ElementKind::Other),
{
    let mut c: (u32, u32, u32, u32, u32, u32, u32, u32) = (0, 0, 0, 0, 0, 0, 0, 0);
    let mut i: usize = 0;
    while i < els.len()
        invariant
            i <= els@.len() <= u32::MAX,
            c.0 == count_of(els@.take(i as int), ElementKind::Button),
            c.1 == count_of(els@.take(i as int), ElementKind::Input),
            c.2 == count_of(els@.take(i as int), ElementKind::Link),
            c.3 == count_of(els@.take(i as int), ElementKind::Select),
            c.4 == count_of(els@.take(i as int), ElementKind::Textarea),
            c.5 == count_of(els@.take(i as int), ElementKind::Checkbox),
            c.6 == count_of(els@.take(i as int), ElementKind::Radio),
            c.7 == count_of(els@.take(i as int), ElementKind::Other),
        decreases els@.len() - i,
    {
        proof {
            assert(els@.take(i + 1).drop_last() =~= els@.take(i as int));
            lemma_count_le(els@.take(i as int), ElementKind::Button);
            lemma_count_le(els@.take(i as int), ElementKind::Input);
            lemma_count_le(els@.take(i as int), ElementKind::Link);
            lemma_count_le(els@.take(i as int), ElementKind::Select);
            lemma_count_le(els@.take(i as int), ElementKind::Textarea);
            lemma_count_le(els@.take(i as int), ElementKind::Checkbox);
            lemma_count_le(els@.take(i as int), ElementKind::Radio);
            lemma_count_le(els@.take(i as int), ElementKind::Other);
        }
        match els[i].kind {
            ElementKind::Button => c.0 = c.0 + 1,
            ElementKind::Input => c.1 = c.1 + 1,
            ElementKind::Link => c.2 = c.2 + 1,
            ElementKind::Select => c.3 = c.3 + 1,
            ElementKind::Textarea => c.4 = c.4 + 1,
            ElementKind::Checkbox => c.5 = c.5 + 1,
            ElementKind::Radio => c.6 = c.6 + 1,
            ElementKind::Other => c.7 = c.7 + 1,
        }
        i = i + 1;
    }
    assert(els@.take(els@.len() as int) =~= els@);
    c
}

/// A kind count never exceeds the number of elements.
proof fn lemma_count_le(els: Seq<Element>, k: ElementKind)
    ensures
        count_of(els, k) <= els.len(),
    decreases els.len(),
{
    if els.len() > 0 {
        lemma_count_le(els.drop_last(), k);
    }
}

fn push_count_part(parts: &mut Vec<String>, n: u32, word: &str, plural: &str)
    ensures
        string_views(final(parts)@) == string_views(old(parts)@) + count_part(
            n as nat,
            word@,
            plural@,
        ),
{
    if n > 0 {
        let mut s = String::new();
        push_dec(&mut s, n as u64);
        push_str(&mut s, " ");
        push_str(&mut s, word);
        if n != 1 {
            push_str(&mut s, plural);
        }
        let ghost before = parts@;
        parts.push(s);
        assert(string_views(parts@) =~= string_views(before) + count_part(n as nat, word@, plural@));
    } else {
        assert(string_views(parts@) =~= string_views(old(parts)@) + count_part(
            n as nat,
            word@,
            plural@,
        ));
    }
}

fn push_count_line(out: &mut String, els: &[Element])
    requires
        els@.len() <= u32::MAX,
    ensures
        final(out)@ == old(out)@ + count_line(els@),
{
    let c = kind_counts(els);
    let mut parts: Vec<String> = Vec::new();
    push_count_part(&mut parts, c.0, "button", "s");
    push_count_part(&mut parts, c.1, "input", "s");
    push_count_part(&mut parts, c.2, "link", "s");
    push_count_part(&mut parts, c.3, "select", "s");
    push_count_part(&mut parts, c.4, "textarea", "s");
    push_count_part(&mut parts, c.5, "checkbox", "es");
    push_count_part(&mut parts, c.6, "radio", "s");
    let ghost before = parts@;
    if c.7 > 0 {
        let mut s = String::new();
        push_dec(&mut s, c.7 as u64);
        push_str(&mut s, " other");
        parts.push(s);
    }
    assert(string_views(parts@) =~= count_parts(els@));
    if parts.len() == 0 {
        push_str(out, "ELEMENTS: 0\n");
    } else {
        push_str(out, "ELEMENTS: ");
        push_dec(out, els.len() as u64);
        push_str(out, " (");
        let joined = join_strings(parts.as_slice(), ", ");
        push_str(out, joined.as_str());
        push_str(out, ")\n");
    }
    assert(out@ =~= old(out)@ + count_line(els@));
}

fn push_opt_line(out: &mut String, pre: &str, o: &Option<String>)
    ensures
        final(out)@ == old(out)@ + opt_line(pre@, *o),
{
    match o {
        Some(s) => {
            push_str(out, pre);
            push_str(out, s.as_str());
            push_str(out, "\n");
        },
        None => {},
    }
    assert(out@ =~= old(out)@ + opt_line(pre@, *o));
}

impl SemanticView {
    /// The prompt for this view showing the elements `els`.
    #[verifier::spinoff_prover]
    #[verifier::rlimit(40)]
    fn prompt_for(&self, els: &[Element]) -> (r: String)
        requires
            url_len_ok(self.url@),
            els@.len() <= u32::MAX,
        ensures
            r@ == prompt_with(*self, els@),
    {
        let mut out = String::new();
        push_str(&mut out, "URL: ");
        let u = redact_url_secrets(self.url.as_str());
        push_str(&mut out, u.as_str());
        push_str(&mut out, "\n");
        push_str(&mut out, "TITLE: ");
        push_str(&mut out, self.title.as_str());
        push_str(&mut out, "\n");
        push_str(&mut out, "HINT: ");
        push_str(&mut out, self.page_hint.as_str());
        push_str(&mut out, "\n");
        push_str(&mut out, "STATE: ");
        push_state(&mut out, &self.state);
        push_str(&mut out, "\n");
        push_opt_line(&mut out, "ELEMENT_CAP: ", &self.element_cap);
        push_opt_line(&mut out, "BLOCKED: ", &self.blocked_reason);
        push_str(&mut out, "\n");
        let ghost head = out@;
        push_count_line(&mut out, els);
        let ghost mid = out@;
        let mut i: usize = 0;
        while i < els.len()
            invariant
                i <= els@.len(),
                out@ == mid + elements_text(els@.take(i as int)),
            decreases els@.len() - i,
        {
            push_element_line(&mut out, &els[i]);
            proof {
                assert(els@.take(i + 1).drop_last() =~= els@.take(i as int));
            }
            i = i + 1;
        }
        assert(els@.take(els@.len() as int) =~= els@);
        let ghost tail = out@;
        if !self.visible_text.as_str().is_empty() {
            push_str(&mut out, "\nVISIBLE TEXT: ");
            push_str(&mut out, self.visible_text.as_str());
            push_str(&mut out, "\n");
        }
        match &self.session_context {
            Some(ctx) => {
                push_str(&mut out, "\n");
                push_str(&mut out, ctx.as_str());
            },
            None => {},
        }
        assert(out@ =~= prompt_with(*self, els@));
        out
    }

    /// Format as compact text for an LLM prompt. The URL is shown with its
    /// secret query values redacted.
    pub fn to_prompt(&self) -> (r: String)
        requires
            url_len_ok(self.url@),
            self.elements@.len() <= u32::MAX,
        ensures
            r@ == prompt_text(*self),
    {
        self.prompt_for(self.elements.as_slice())
    }

    /// Paginated prompt: only one page of `size` elements (`size == 0` counts
    /// as 1) under a `Page n/m` header; the page index is clamped to the
    /// last page.
    pub fn to_prompt_paginated(&self, page: u32, size: u32) -> (r: String)
        requires
            url_len_ok(self.url@),
            self.elements@.len() <= u32::MAX,
        ensures
            r@ == paginated_text(*self, page as nat, size as nat),
    {
        let size: usize = if size == 0 {
            1
        } else {
            size as usize
        };
        let total = self.elements.len();
        if total == 0 || size >= total {
            let body = self.to_prompt();
            let mut out = String::new();
            push_str(&mut out, "Page 1/1\n");
            push_str(&mut out, body.as_str());
            assert(out@ =~= paginated_text(*self, page as nat, size as nat));
            return out;
        }
        proof {
            lemma_page_count(total as nat, size as nat);
            lemma_div_le(total as nat, size as nat);
        }
        let total_pages: usize = (total - 1) / size + 1;
        assert(total_pages == page_count(total as nat, size as nat));
        let page_idx: usize = if (page as usize) < total_pages - 1 {
            page as usize
        } else {
            total_pages - 1
        };
        proof {
            lemma_page_start(total as nat, size as nat, page_idx as nat);
        }
        let start = page_idx * size;
        assert(start < total);
        let end = if size < total - start {
            start + size
        } else {
            total
        };
        let slice = &self.elements.as_slice()[start..end];
        let mut out = String::new();
        push_str(&mut out, "Page ");
        push_dec(&mut out, (page_idx + 1) as u64);
        push_str(&mut out, "/");
        push_dec(&mut out, total_pages as u64);
        if start == end {
            push_str(&mut out, " (empty)\n");
        } else {
            push_str(&mut out, "\n");
        }
        let body = self.prompt_for(slice);
        push_str(&mut out, body.as_str());
        assert(out@ =~= paginated_text(*self, page as nat, size as nat));
        out
    }

    /// Drop elements flagged `is_visible: Some(false)`; the others keep
    /// their order.
    pub fn retain_visible_elements(&mut self)
        ensures
            final(self).elements@ == shown_only(old(self).elements@),
            final(self).url == old(self).url,
            final(self).title == old(self).title,
            final(self).page_hint == old(self).page_hint,
            final(self).visible_text == old(self).visible_text,
            final(self).state == old(self).state,
            final(self).session_context == old(self).session_context,
            final(self).forms == old(self).forms,
            final(self).text_blocks == old(self).text_blocks,
            final(self).element_cap == old(self).element_cap,
            final(self).blocked_reason == old(self).blocked_reason,
            final(self).cards == old(self).cards,
            final(self).cards_truncated == old(self).cards_truncated,
    {
        let mut kept: Vec<Element> = Vec::new();
        let mut old_els: Vec<Element> = Vec::new();
        std::mem::swap(&mut old_els, &mut self.elements);
        let ghost all = old_els@;
        let mut i: usize = 0;
        let n = old_els.len();
        let mut rest = old_els;
        while i < n
            invariant
                n == all.len(),
                i <= n,
                rest@ == all.skip(i as int),
                kept@ == shown_only(all.take(i as int)),
            decreases n - i,
        {
            let e = rest.remove(0);
            proof {
                assert(e == all[i as int]);
                assert(all.take(i + 1).drop_last() =~= all.take(i as int));
                assert(rest@ =~= all.skip(i + 1));
            }
            if e.is_visible != Some(false) {
                kept.push(e);
            }
            i = i + 1;
        }
        assert(all.take(n as int) =~= all);
        self.elements = kept;
    }

    /// Rough token estimate: a quarter of the approximate prompt size in
    /// bytes (url, title, hint, element attributes, visible text, plus fixed
    /// overheads).
    pub fn estimated_tokens(&self) -> (n: usize)
        requires
            blen(self.url) + blen(self.title) + blen(self.page_hint) + 50 + elements_weight(
                self.elements@,
            ) + blen(self.visible_text) <= usize::MAX,
        ensures
            n == token_estimate(*self),
    {
        let header = self.url.as_str().len() + self.title.as_str().len()
            + self.page_hint.as_str().len() + 50;
        let mut total: usize = 0;
        let mut i: usize = 0;
        while i < self.elements.len()
            invariant
                i <= self.elements@.len(),
                total == elements_weight(self.elements@.take(i as int)),
                header + elements_weight(self.elements@) + blen(self.visible_text) <= usize::MAX,
            decreases self.elements@.len() - i,
        {
            proof {
                assert(self.elements@.take(i + 1).drop_last() =~= self.elements@.take(i as int));
                assert(self.elements@.take(i + 1).last() == self.elements@[i as int]);
                lemma_weight_mono(self.elements@, (i + 1) as nat);
            }
            let e = &self.elements[i];
            let w = e.label.as_str().len() + opt_len(&e.name) + opt_len(&e.value) + opt_len(
                &e.placeholder,
            ) + opt_len(&e.href) + opt_len(&e.input_type) + 30;
            total = total + w;
            i = i + 1;
        }
        assert(self.elements@.take(self.elements@.len() as int) =~= self.elements@);
        (header + total + self.visible_text.as_str().len()) / 4
    }
}

/// Byte length of an optional string.
fn opt_len(o: &Option<String>) -> (n: usize)
    requires
        oblen(*o) <= usize::MAX,
    ensures
        n == oblen(*o),
{
    match o {
        Some(s) => s.as_str().len(),
        None => 0,
    }
}

/// Prefix weights never exceed the total weight.
proof fn lemma_weight_mono(els: Seq<Element>, n: nat)
    requires
        n <= els.len(),
    ensures
        elements_weight(els.take(n as int)) <= elements_weight(els),
    decreases els.len(),
{
    if n < els.len() {
        lemma_weight_mono(els.drop_last(), n);
        assert(els.drop_last().take(n as int) =~= els.take(n as int));
    } else {
        assert(els.take(n as int) =~= els);
    }
}

/// `page_count` is the rounded-up quotient, which `/` and `%` compute.
proof fn lemma_page_count(total: nat, size: nat)
    requires
        size > 0,
        total > 0,
    ensures
        page_count(total, size) == (total - 1) / size as int + 1,
        page_count(total, size) == total / size + if total % size == 0 {
            0nat
        } else {
            1nat
        },
        (total - 1) / size as int <= total - 1,
{
    assert((total + size - 1) / size as int == (total - 1) / size as int + 1) by (nonlinear_arith)
        requires
            size > 0,
            total > 0,
    ;
    assert((total - 1) / size as int + 1 == total / size + if total % size == 0 {
        0nat
    } else {
        1nat
    }) by (nonlinear_arith)
        requires
            size > 0,
            total > 0,
    ;
    assert((total - 1) / size as int <= total - 1) by (nonlinear_arith)
        requires
            size > 0,
            total > 0,
    ;
}

/// Quotient bound used for the page count.
proof fn lemma_div_le(total: nat, size: nat)
    requires
        0 < size < total,
    ensures
        1 <= total / size <= total,
{
    assert(1 <= total / size <= total) by (nonlinear_arith)
        requires
            0 < size < total,
    ;
}

/// A clamped page starts inside the element list.
proof fn lemma_page_start(total: nat, size: nat, idx: nat)
    requires
        0 < size < total,
        idx < page_count(total, size),
    ensures
        idx * size < total,
{
    lemma_page_count(total, size);
    assert(idx * size < total) by (nonlinear_arith)
        requires
            0 < size < total,
            idx < total / size + if total % size == 0 {
                0nat
            } else {
                1nat
            },
    ;
}

// ── Session context ──────────────────────────────────────────────────

/// `"    action: <a>\n"` for each action, in order.
pub open spec fn actions_text(a: Seq<String>) -> Seq<char>
    decreases a.len(),
{
    if a.len() == 0 {
        seq![]
    } else {
        actions_text(a.drop_last()) + "    action: "@ + a.last()@ + "\n"@
    }
}

/// The lines of one visited page: its redacted URL, its title and its
/// actions.
pub open spec fn visit_text(e: NavigationEntry) -> Seq<char> {
    "  - visited: "@ + redacted_url(e.url@) + " ("@ + e.title@ + ")\n"@ + actions_text(
        e.actions_taken@,
    )
}

/// The last `k` visited pages, most recent first.
pub open spec fn recent_visits(h: Seq<NavigationEntry>, k: nat) -> Seq<char>
    decreases k,
{
    if k == 0 || k > h.len() {
        seq![]
    } else {
        recent_visits(h, (k - 1) as nat) + visit_text(h[h.len() - k])
    }
}

/// The session context: the last three visited pages (most recent first)
/// under a header, the authentication state, and whether auth cookies are
/// present.
pub open spec fn session_text(s: SessionState) -> Seq<char> {
    let h = s.navigation_history@;
    let k: nat = if h.len() < 3 {
        h.len()
    } else {
        3
    };
    (if h.len() == 0 {
        seq![]
    } else {
        "SESSION CONTEXT:\n"@ + recent_visits(h, k)
    }) + match s.auth_state {
        AuthState::InProgress => "AUTH: in progress\n"@,
        AuthState::Authenticated => "AUTH: authenticated\n"@,
        AuthState::Failed => "AUTH: failed\n"@,
        AuthState::NoActivity => seq![],
    } + if any_auth_cookie(s.cookies@) {
        "AUTH COOKIES: present\n"@
    } else {
        seq![]
    }
}

/// Every visited URL is short enough to be parsed for redaction.
pub open spec fn history_urls_ok(h: Seq<NavigationEntry>) -> bool {
    forall|i: int| 0 <= i < h.len() ==> url_len_ok(#[trigger] h[i].url@)
}

/// Build a compact session context string for LLM prompt injection:
/// recent navigation history (last 3 pages, URLs redacted) and auth state.
pub fn format_session_context(session: &SessionState) -> (r: String)
    requires
        history_urls_ok(session.navigation_history@),
    ensures
        r@ == session_text(*session),
{
    let h = &session.navigation_history;
    let mut out = String::new();
    if h.len() > 0 {
        push_str(&mut out, "SESSION CONTEXT:\n");
        let n = h.len();
        let k: usize = if n < 3 {
            n
        } else {
            3
        };
        let ghost start = out@;
        let mut j: usize = 0;
        while j < k
            invariant
                n == h@.len(),
                k <= n,
                j <= k,
                history_urls_ok(h@),
                out@ == start + recent_visits(h@, j as nat),
            decreases k - j,
        {
            let e = &h[n - 1 - j];
            let ghost before = out@;
            push_str(&mut out, "  - visited: ");
            let safe = redact_url_secrets(e.url.as_str());
            push_str(&mut out, safe.as_str());
            push_str(&mut out, " (");
            push_str(&mut out, e.title.as_str());
            push_str(&mut out, ")\n");
            let ghost mid = out@;
            let mut a: usize = 0;
            while a < e.actions_taken.len()
                invariant
                    a <= e.actions_taken@.len(),
                    out@ == mid + actions_text(e.actions_taken@.take(a as int)),
                decreases e.actions_taken@.len() - a,
            {
                proof {
                    assert(e.actions_taken@.take(a + 1).drop_last() =~= e.actions_taken@.take(
                        a as int,
                    ));
                }
                push_str(&mut out, "    action: ");
                push_str(&mut out, e.actions_taken[a].as_str());
                push_str(&mut out, "\n");
                a = a + 1;
            }
            proof {
                assert(e.actions_taken@.take(e.actions_taken@.len() as int) =~= e.actions_taken@);
                assert(h@[h@.len() - (j + 1)] == *e);
                assert(out@ =~= before + visit_text(*e));
            }
            j = j + 1;
        }
    }
    let ghost after_history = out@;
    match session.auth_state {
        AuthState::InProgress => push_str(&mut out, "AUTH: in progress\n"),
        AuthState::Authenticated => push_str(&mut out, "AUTH: authenticated\n"),
        AuthState::Failed => push_str(&mut out, "AUTH: failed\n"),
        AuthState::NoActivity => {},
    }
    if session.has_auth_cookies() {
        push_str(&mut out, "AUTH COOKIES: present\n");
    }
    proof {
        reveal_strlit("");
    }
    assert(out@ =~= session_text(*session));
    out
}

impl SemanticView {
    /// The prompt followed by a newline and the session context.
    pub fn to_prompt_with_session(&self, session: &SessionState) -> (r: String)
        requires
            url_len_ok(self.url@),
            self.elements@.len() <= u32::MAX,
            history_urls_ok(session.navigation_history@),
        ensures
            r@ == prompt_text(*self) + "\n"@ + session_text(*session),
    {
        let mut out = self.to_prompt();
        push_str(&mut out, "\n");
        let ctx = format_session_context(session);
        push_str(&mut out, ctx.as_str());
        out
    }
}

} // verus!
