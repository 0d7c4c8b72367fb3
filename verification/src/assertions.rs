//! The assertion language of `lad_assert` and `lad_wait`: checks such as
//! `has login form`, `title contains X` or `has button Save` evaluated
//! against a semantic view.
use vstd::prelude::*;

use crate::semantic::{ElementKind, SemanticView, Element};
use crate::text::{
    chars_of, contains, contains_exec, copy_str, eq_chars, join, join_strings, push_str,
    slice_vec, starts_with, starts_with_exec, str_eq, strip_both, strip_char_exec, string_of,
    string_views, to_lower, trim, trim_exec, unicode_lower, views, words, words_exec,
};

verus! {

/// What `char::is_alphanumeric` says of a character (Unicode `Alphabetic`
/// or `Numeric`).
pub uninterp spec fn unicode_alnum(c: char) -> bool;

/// `char::is_alphanumeric`. The result is named by [`unicode_alnum`].
#[verifier::external_body]
fn is_alphanumeric(c: char) -> (b: bool)
    ensures
        b == unicode_alnum(c),
{
    c.is_alphanumeric()
}

/// `s` keeping only alphanumeric characters and spaces.
pub open spec fn alnum_and_spaces(s: Seq<char>) -> Seq<char>
    decreases s.len(),
{
    if s.len() == 0 {
        seq![]
    } else if unicode_alnum(s.last()) || s.last() == ' ' {
        alnum_and_spaces(s.drop_last()).push(s.last())
    } else {
        alnum_and_spaces(s.drop_last())
    }
}

/// Fuzzy label match: the lower-cased label contains the lower-cased
/// target, or does so once both keep only alphanumerics and spaces.
pub open spec fn fuzzy_match(label: Seq<char>, target: Seq<char>) -> bool {
    let el = unicode_lower(label);
    let tgt = unicode_lower(target);
    contains(el, tgt) || contains(alnum_and_spaces(el), alnum_and_spaces(tgt))
}

fn alnum_and_spaces_exec(s: &[char]) -> (r: Vec<char>)
    ensures
        r@ == alnum_and_spaces(s@),
{
    let mut r: Vec<char> = Vec::new();
    let mut i: usize = 0;
    while i < s.len()
        invariant
            i <= s@.len(),
            r@ == alnum_and_spaces(s@.take(i as int)),
        decreases s@.len() - i,
    {
        proof {
            assert(s@.take(i + 1).drop_last() =~= s@.take(i as int));
        }
        if is_alphanumeric(s[i]) || s[i] == ' ' {
            r.push(s[i]);
        }
        i = i + 1;
    }
    assert(s@.take(s@.len() as int) =~= s@);
    r
}

fn lower_chars(s: &str) -> (r: Vec<char>)
    ensures
        r@ == unicode_lower(s@),
{
    chars_of(to_lower(s).as_str())
}

/// Fuzzy label match: checks `contains` after lower-casing, then again
/// after keeping only alphanumeric characters and spaces.
pub fn fuzzy_label_match(element_label: &str, target: &str) -> (b: bool)
    ensures
        b == fuzzy_match(element_label@, target@),
{
    let el = lower_chars(element_label);
    let tgt = lower_chars(target);
    if contains_exec(el.as_slice(), tgt.as_slice()) {
        return true;
    }
    let clean_el = alnum_and_spaces_exec(el.as_slice());
    let clean_tgt = alnum_and_spaces_exec(tgt.as_slice());
    contains_exec(clean_el.as_slice(), clean_tgt.as_slice())
}

/// Words naming an element kind in an assertion.
pub open spec fn kind_keyword(w: Seq<char>) -> bool {
    w == "input"@ || w == "button"@ || w == "link"@
}

/// An assertion trimmed and lower-cased, with `has <qualifier> <kind>`
/// rewritten to `has <kind> <qualifier>`.
pub open spec fn normalized(assertion: Seq<char>) -> Seq<char> {
    let a = unicode_lower(trim(assertion));
    let ws = words(a);
    if ws.len() >= 3 && ws[0] == "has"@ && kind_keyword(ws.last()) && !kind_keyword(ws[1]) {
        "has "@ + ws.last() + " "@ + join(ws.subrange(1, ws.len() - 1), " "@)
    } else {
        a
    }
}

fn is_kind_keyword(w: &[char]) -> (b: bool)
    ensures
        b == kind_keyword(w@),
{
    crate::text::eq_lit(w, "input") || crate::text::eq_lit(w, "button") || crate::text::eq_lit(
        w,
        "link",
    )
}

/// Normalize assertion word order so callers can write either
/// `"has email input"` or `"has input email"` and get the same result.
pub fn normalize_assertion(assertion: &str) -> (r: String)
    ensures
        r@ == normalized(assertion@),
{
    let t = string_of(trim_exec(chars_of(assertion).as_slice()).as_slice());
    let a = to_lower(t.as_str());
    let av = chars_of(a.as_str());
    let ws = words_exec(av.as_slice());
    let n = ws.len();
    if n >= 3 && crate::text::eq_lit(ws[0].as_slice(), "has") && is_kind_keyword(
        ws[n - 1].as_slice(),
    ) && !is_kind_keyword(ws[1].as_slice()) {
        let mut qualifier: Vec<String> = Vec::new();
        let mut i: usize = 1;
        while i < n - 1
            invariant
                1 <= i <= n - 1,
                n == ws@.len(),
                n >= 3,
                string_views(qualifier@) == views(ws@).subrange(1, i as int),
            decreases n - 1 - i,
        {
            let w = string_of(ws[i].as_slice());
            let ghost before = qualifier@;
            qualifier.push(w);
            assert(qualifier@ == before.push(w));
            assert(string_views(before.push(w)) =~= string_views(before).push(w@));
            assert(views(ws@).subrange(1, i + 1) =~= views(ws@).subrange(1, i as int).push(
                ws@[i as int]@,
            ));
            assert(string_views(qualifier@) =~= views(ws@).subrange(1, i + 1));
            i = i + 1;
        }
        let mut out = copy_str("has ");
        push_str(&mut out, string_of(ws[n - 1].as_slice()).as_str());
        push_str(&mut out, " ");
        push_str(&mut out, join_strings(qualifier.as_slice(), " ").as_str());
        proof {
            reveal_strlit("has ");
            reveal_strlit(" ");
        }
        assert(out@ =~= normalized(assertion@));
        return out;
    }
    a
}

/// `rest` trimmed and without surrounding double quotes.
pub open spec fn operand(rest: Seq<char>) -> Seq<char> {
    strip_both(trim(rest), '"')
}

/// `o` is present and its lower-cased text contains `s`.
pub open spec fn lower_has(o: Option<String>, s: Seq<char>) -> bool {
    o matches Some(t) && contains(unicode_lower(t@), s)
}

/// A button (by label) or any element (by value) matches the label.
pub open spec fn button_matches(e: Element, label: Seq<char>) -> bool {
    (e.kind == ElementKind::Button && fuzzy_match(e.label@, label)) || (e.value matches Some(v)
        && fuzzy_match(v@, label))
}

/// A link matches by label or by its lower-cased href.
pub open spec fn link_matches(e: Element, label: Seq<char>) -> bool {
    e.kind == ElementKind::Link && (fuzzy_match(e.label@, label) || lower_has(e.href, label))
}

/// An input matches by name, label, type or placeholder.
pub open spec fn input_matches(e: Element, name: Seq<char>) -> bool {
    e.kind == ElementKind::Input && (lower_has(e.name, name) || contains(
        unicode_lower(e.label@),
        name,
    ) || (e.input_type matches Some(t) && unicode_lower(t@) == name) || lower_has(
        e.placeholder,
        name,
    ))
}

/// Every word of `ws` occurs in `text`.
pub open spec fn all_words_in(ws: Seq<Seq<char>>, text: Seq<char>) -> bool {
    forall|i: int| 0 <= i < ws.len() ==> contains(text, #[trigger] ws[i])
}

/// The lower-cased union text of a view: URL, title, visible text and the
/// prompt, separated by spaces.
pub open spec fn union_text(view: SemanticView, prompt: Seq<char>) -> Seq<char> {
    unicode_lower(view.url@ + " "@ + view.title@ + " "@ + view.visible_text@ + " "@ + prompt)
}

/// Whether an assertion holds of a view, after normalization; the first
/// pattern that applies decides.
pub open spec fn holds(assertion: Seq<char>, view: SemanticView, prompt: Seq<char>) -> bool {
    let full = union_text(view, prompt);
    let a = normalized(assertion);
    let els = view.elements@;
    if contains(a, "has login form"@) || contains(a, "has login"@) {
        view.page_hint@ == "login page"@
    } else if contains(a, "has password"@) {
        exists|i: int|
            0 <= i < els.len() && (#[trigger] els[i].input_type matches Some(t) && t@
                == "password"@)
    } else if starts_with(a, "title contains "@) {
        contains(unicode_lower(view.title@), operand(a.skip(15)))
    } else if starts_with(a, "url contains "@) {
        contains(unicode_lower(view.url@), operand(a.skip(13)))
    } else if starts_with(a, "text contains "@) || starts_with(a, "page contains "@) {
        let needle = operand(a.skip(14));
        needle.len() > 0 && contains(full, needle)
    } else if starts_with(a, "has button "@) {
        let label = unicode_lower(operand(a.skip(11)));
        exists|i: int| 0 <= i < els.len() && button_matches(#[trigger] els[i], label)
    } else if starts_with(a, "has link "@) {
        let label = unicode_lower(operand(a.skip(9)));
        exists|i: int| 0 <= i < els.len() && link_matches(#[trigger] els[i], label)
    } else if starts_with(a, "has input "@) {
        let name = unicode_lower(operand(a.skip(10)));
        exists|i: int| 0 <= i < els.len() && input_matches(#[trigger] els[i], name)
    } else if a == "has form"@ {
        view.forms@.len() > 0 || exists|i: int|
            0 <= i < els.len() && (#[trigger] els[i].form_index) is Some
    } else if a == "has image"@ || a == "has img"@ {
        contains(full, "img"@) || contains(full, "image"@)
    } else if starts_with(a, "page has section "@) {
        contains(unicode_lower(view.visible_text@), unicode_lower(operand(a.skip(17))))
    } else {
        all_words_in(words(a), full)
    }
}

// ── Assertion laws ──────────────────────────────────────────────────

/// A text that holds `has login form` holds `has login`.
proof fn lemma_login_form_names_login(t: Seq<char>)
    ensures
        contains(t, "has login form"@) ==> contains(t, "has login"@),
{
    reveal_strlit("has login form");
    reveal_strlit("has login");
    if contains(t, "has login form"@) {
        let at = choose|at: int| crate::text::matches_at(t, "has login form"@, at);
        assert(t.subrange(at, at + 9) =~= t.subrange(at, at + 14).subrange(0, 9));
        assert("has login form"@.subrange(0, 9) =~= "has login"@);
        assert(crate::text::matches_at(t, "has login"@, at));
    }
}

/// Word order does not matter: `has <qualifier> <kind>` (such as
/// `has email input`) normalizes to the same text as the spelled-out
/// `has <kind> <qualifier>` (`has input email`), the qualifier's words
/// joined by single spaces.
pub proof fn lemma_qualifier_order(
    first: Seq<char>,
    second: Seq<char>,
    qualifier: Seq<Seq<char>>,
    kind: Seq<char>,
)
    requires
        kind == "input"@ || kind == "button"@ || kind == "link"@,
        qualifier.len() >= 1,
        qualifier[0] != "input"@ && qualifier[0] != "button"@ && qualifier[0] != "link"@,
        words(unicode_lower(trim(first))) == seq!["has"@] + qualifier + seq![kind],
        words(unicode_lower(trim(second))) == seq!["has"@, kind] + qualifier,
        unicode_lower(trim(second)) == "has "@ + kind + " "@ + join(qualifier, " "@),
    ensures
        normalized(first) == normalized(second),
{
    let ws = words(unicode_lower(trim(first)));
    assert(ws[0] == "has"@);
    assert(ws[1] == qualifier[0]);
    assert(ws.last() == kind);
    assert(ws.subrange(1, ws.len() - 1) =~= qualifier);
    let ws2 = words(unicode_lower(trim(second)));
    assert(ws2[1] == kind);
}

/// An assertion that, once normalized, names a login (`has login`,
/// `has login form`) holds exactly when the page hint is `login page`; one
/// that names no login but a password (`has password`) holds exactly when
/// some element is a password input.
pub proof fn lemma_login_and_password_checks(
    assertion: Seq<char>,
    view: SemanticView,
    prompt: Seq<char>,
)
    ensures
        contains(normalized(assertion), "has login"@) ==> (holds(assertion, view, prompt) <==> (
        view.page_hint@ == "login page"@)),
        !contains(normalized(assertion), "has login"@) && contains(
            normalized(assertion),
            "has password"@,
        ) ==> (holds(assertion, view, prompt) <==> exists|k: int|
            #![trigger view.elements@[k]]
            0 <= k < view.elements@.len() && (view.elements@[k].input_type matches Some(ty)
                && ty@ == "password"@)),
{
    lemma_login_form_names_login(normalized(assertion));
}

/// A text that starts with `p` does not start with `q` when the two
/// differ at an index both reach.
proof fn lemma_prefixes_clash(a: Seq<char>, p: Seq<char>, q: Seq<char>, i: int)
    requires
        starts_with(a, p),
        0 <= i < p.len(),
        i < q.len(),
        p[i] != q[i],
    ensures
        !starts_with(a, q),
{
    assert(a.subrange(0, p.len() as int)[i] == a[i]);
    if starts_with(a, q) {
        assert(a.subrange(0, q.len() as int)[i] == a[i]);
    }
}

/// The checks that name no login and no password, by their leading words
/// once normalized: `title contains X` and `url contains X` look for `X` in
/// the lower-cased title or URL; `text contains X` and `page contains X` for
/// a non-empty `X` in the lower-cased URL, title, visible text and prompt
/// joined by spaces; `has button X` for a button whose label, or any element
/// whose value, fuzzily matches `X` lower-cased; `has link X` for a link
/// whose label fuzzily matches `X` lower-cased or whose lower-cased href
/// contains it; `has form` for a form or an element that belongs to one;
/// `has image` and `has img` for `img` or `image` in the lower-cased page
/// text; `page has section X` for `X` lower-cased in the lower-cased visible
/// text.
#[verifier::spinoff_prover]
pub proof fn lemma_assertion_checks(assertion: Seq<char>, view: SemanticView, prompt: Seq<char>)
    requires
        !contains(normalized(assertion), "has login"@),
        !contains(normalized(assertion), "has password"@),
    ensures
        starts_with(normalized(assertion), "title contains "@) ==> (holds(assertion, view, prompt)
            <==> contains(unicode_lower(view.title@), operand(normalized(assertion).skip(15)))),
        starts_with(normalized(assertion), "url contains "@) ==> (holds(assertion, view, prompt)
            <==> contains(unicode_lower(view.url@), operand(normalized(assertion).skip(13)))),
        (starts_with(normalized(assertion), "text contains "@) || starts_with(
            normalized(assertion),
            "page contains "@,
        )) ==> (holds(assertion, view, prompt) <==> ({
            let needle = operand(normalized(assertion).skip(14));
            needle.len() > 0 && contains(
                unicode_lower(view.url@ + " "@ + view.title@ + " "@ + view.visible_text@ + " "@
                    + prompt),
                needle,
            )
        })),
        starts_with(normalized(assertion), "has button "@) ==> (holds(assertion, view, prompt)
            <==> exists|k: int|
            #![trigger view.elements@[k]]
            0 <= k < view.elements@.len() && {
                let target = unicode_lower(operand(normalized(assertion).skip(11)));
                let el = view.elements@[k];
                ||| (el.kind == ElementKind::Button && fuzzy_match(el.label@, target))
                ||| (el.value matches Some(val) && fuzzy_match(val@, target))
            }),
        starts_with(normalized(assertion), "has link "@) ==> (holds(assertion, view, prompt)
            <==> exists|k: int|
            #![trigger view.elements@[k]]
            0 <= k < view.elements@.len() && view.elements@[k].kind == ElementKind::Link && {
                let target = unicode_lower(operand(normalized(assertion).skip(9)));
                let el = view.elements@[k];
                ||| fuzzy_match(el.label@, target)
                ||| (el.href matches Some(h) && contains(unicode_lower(h@), target))
            }),
        normalized(assertion) == "has form"@ ==> (holds(assertion, view, prompt) <==> (
        view.forms@.len() > 0 || exists|k: int|
            #![trigger view.elements@[k]]
            0 <= k < view.elements@.len() && view.elements@[k].form_index is Some)),
        (normalized(assertion) == "has image"@ || normalized(assertion) == "has img"@) ==> (holds(
            assertion,
            view,
            prompt,
        ) <==> ({
            let page = unicode_lower(
                view.url@ + " "@ + view.title@ + " "@ + view.visible_text@ + " "@ + prompt,
            );
            contains(page, "img"@) || contains(page, "image"@)
        })),
        starts_with(normalized(assertion), "page has section "@) ==> (holds(assertion, view, prompt)
            <==> contains(
            unicode_lower(view.visible_text@),
            unicode_lower(operand(normalized(assertion).skip(17))),
        )),
{
    let a = normalized(assertion);
    lemma_login_form_names_login(a);
    reveal_strlit("title contains ");
    reveal_strlit("url contains ");
    reveal_strlit("text contains ");
    reveal_strlit("page contains ");
    reveal_strlit("has button ");
    reveal_strlit("has link ");
    reveal_strlit("has form");
    if starts_with(a, "url contains "@) {
        lemma_prefixes_clash(a, "url contains "@, "title contains "@, 0);
    }
    if starts_with(a, "text contains "@) {
        lemma_prefixes_clash(a, "text contains "@, "title contains "@, 1);
        lemma_prefixes_clash(a, "text contains "@, "url contains "@, 0);
    }
    if starts_with(a, "page contains "@) {
        lemma_prefixes_clash(a, "page contains "@, "title contains "@, 0);
        lemma_prefixes_clash(a, "page contains "@, "url contains "@, 0);
    }
    if starts_with(a, "has button "@) {
        lemma_prefixes_clash(a, "has button "@, "title contains "@, 0);
        lemma_prefixes_clash(a, "has button "@, "url contains "@, 0);
        lemma_prefixes_clash(a, "has button "@, "text contains "@, 0);
        lemma_prefixes_clash(a, "has button "@, "page contains "@, 0);
    }
    if starts_with(a, "has link "@) {
        lemma_prefixes_clash(a, "has link "@, "title contains "@, 0);
        lemma_prefixes_clash(a, "has link "@, "url contains "@, 0);
        lemma_prefixes_clash(a, "has link "@, "text contains "@, 0);
        lemma_prefixes_clash(a, "has link "@, "page contains "@, 0);
        lemma_prefixes_clash(a, "has link "@, "has button "@, 4);
    }
    if a == "has form"@ {
        reveal_strlit("has input ");
        assert(!starts_with(a, "title contains "@));
        assert(!starts_with(a, "url contains "@));
        assert(!starts_with(a, "text contains "@));
        assert(!starts_with(a, "page contains "@));
        assert(!starts_with(a, "has button "@));
        assert(!starts_with(a, "has link "@)) by {
            if starts_with(a, "has link "@) {
                assert(a.subrange(0, 9)[4] == a[4]);
            }
        }
        assert(!starts_with(a, "has input "@));
    }
    reveal_strlit("has image");
    reveal_strlit("has img");
    reveal_strlit("has input ");
    reveal_strlit("page has section ");
    if a == "has image"@ || a == "has img"@ {
        assert(a[0] == 'h' && a[4] == 'i' && a[5] == 'm');
        assert(!starts_with(a, "title contains "@));
        assert(!starts_with(a, "url contains "@));
        assert(!starts_with(a, "text contains "@));
        assert(!starts_with(a, "page contains "@));
        assert(!starts_with(a, "has button "@));
        assert(!starts_with(a, "has link "@)) by {
            if starts_with(a, "has link "@) {
                assert(a.subrange(0, 9)[4] == a[4]);
            }
        }
        assert(!starts_with(a, "has input "@));
        assert(a != "has form"@);
    }
    if starts_with(a, "page has section "@) {
        lemma_prefixes_clash(a, "page has section "@, "title contains "@, 0);
        lemma_prefixes_clash(a, "page has section "@, "url contains "@, 0);
        lemma_prefixes_clash(a, "page has section "@, "text contains "@, 0);
        lemma_prefixes_clash(a, "page has section "@, "page contains "@, 5);
        lemma_prefixes_clash(a, "page has section "@, "has button "@, 0);
        lemma_prefixes_clash(a, "page has section "@, "has link "@, 0);
        lemma_prefixes_clash(a, "page has section "@, "has input "@, 0);
        assert(a.subrange(0, 17)[0] == a[0]);
        assert(a != "has form"@ && a != "has image"@ && a != "has img"@);
    }
}

/// `has input X`: once normalized, an assertion of this form that names
/// neither a login nor a password holds exactly when the view has an input
/// element whose lower-cased name, label or placeholder contains `X`
/// lower-cased, or whose lower-cased type equals it.
#[verifier::spinoff_prover]
pub proof fn lemma_has_input_found(assertion: Seq<char>, view: SemanticView, prompt: Seq<char>)
    requires
        starts_with(normalized(assertion), "has input "@),
        !contains(normalized(assertion), "has login"@),
        !contains(normalized(assertion), "has password"@),
    ensures
        holds(assertion, view, prompt) <==> exists|k: int|
            #![trigger view.elements@[k]]
            0 <= k < view.elements@.len() && view.elements@[k].kind == ElementKind::Input && {
                let wanted = unicode_lower(operand(normalized(assertion).skip(10)));
                let el = view.elements@[k];
                ||| (el.name matches Some(nm) && contains(unicode_lower(nm@), wanted))
                ||| contains(unicode_lower(el.label@), wanted)
                ||| (el.input_type matches Some(ty) && unicode_lower(ty@) == wanted)
                ||| (el.placeholder matches Some(ph) && contains(unicode_lower(ph@), wanted))
            },
{
    let a = normalized(assertion);
    lemma_login_form_names_login(a);
    reveal_strlit("has input ");
    reveal_strlit("title contains ");
    reveal_strlit("url contains ");
    reveal_strlit("text contains ");
    reveal_strlit("page contains ");
    reveal_strlit("has button ");
    reveal_strlit("has link ");
    reveal_strlit("has form");
    reveal_strlit("has image");
    reveal_strlit("has img");
    reveal_strlit("page has section ");
    let head = a.subrange(0, 10);
    assert(head == "has input "@);
    assert(a[0] == head[0] && a[4] == head[4]);
    assert(a[0] == 'h' && a[4] == 'i');
    assert(!starts_with(a, "title contains "@)) by {
        if starts_with(a, "title contains "@) {
            assert(a.subrange(0, 15)[0] == a[0]);
        }
    }
    assert(!starts_with(a, "url contains "@)) by {
        if starts_with(a, "url contains "@) {
            assert(a.subrange(0, 13)[0] == a[0]);
        }
    }
    assert(!starts_with(a, "text contains "@)) by {
        if starts_with(a, "text contains "@) {
            assert(a.subrange(0, 14)[0] == a[0]);
        }
    }
    assert(!starts_with(a, "page contains "@)) by {
        if starts_with(a, "page contains "@) {
            assert(a.subrange(0, 14)[0] == a[0]);
        }
    }
    assert(!starts_with(a, "has button "@)) by {
        if starts_with(a, "has button "@) {
            assert(a.subrange(0, 11)[4] == a[4]);
        }
    }
    assert(!starts_with(a, "has link "@)) by {
        if starts_with(a, "has link "@) {
            assert(a.subrange(0, 9)[4] == a[4]);
        }
    }
    assert(a != "has form"@ && a != "has image"@ && a != "has img"@);
    assert(!starts_with(a, "page has section "@)) by {
        if starts_with(a, "page has section "@) {
            assert(a.subrange(0, 17)[0] == a[0]);
        }
    }
}

fn operand_exec(a: &[char], skip: usize) -> (r: Vec<char>)
    requires
        skip <= a@.len(),
    ensures
        r@ == operand(a@.skip(skip as int)),
{
    let rest = slice_vec(a, skip, a.len());
    assert(rest@ =~= a@.skip(skip as int));
    let t = trim_exec(rest.as_slice());
    strip_char_exec(t.as_slice(), '"')
}

fn lower_has_exec(o: &Option<String>, s: &[char]) -> (b: bool)
    ensures
        b == lower_has(*o, s@),
{
    match o {
        Some(t) => contains_exec(lower_chars(t.as_str()).as_slice(), s),
        None => false,
    }
}

/// Evaluate one assertion against a semantic view (and the prompt text
/// rendered from it). After normalization the first pattern that applies
/// decides: `has login[ form]`, `has password`, `title contains X`,
/// `url contains X`, `text|page contains X` (anywhere in URL, title,
/// visible text or prompt), `has button|link|input X`, `has form`,
/// `has image|img`, `page has section X`; otherwise every word of the
/// assertion must occur in the page text.
pub fn check_assertion(assertion: &str, view: &SemanticView, prompt_text: &str) -> (b: bool)
    ensures
        b == holds(assertion@, *view, prompt_text@),
{
    let mut joined = copy_str(view.url.as_str());
    push_str(&mut joined, " ");
    push_str(&mut joined, view.title.as_str());
    push_str(&mut joined, " ");
    push_str(&mut joined, view.visible_text.as_str());
    push_str(&mut joined, " ");
    push_str(&mut joined, prompt_text);
    let full = lower_chars(joined.as_str());
    proof {
        reveal_strlit(" ");
    }
    assert(full@ == union_text(*view, prompt_text@));
    let norm = normalize_assertion(assertion);
    let av = chars_of(norm.as_str());
    let a = av.as_slice();
    let els = &view.elements;
    if crate::text::has(a, "has login form") || crate::text::has(a, "has login") {
        return str_eq(view.page_hint.as_str(), "login page");
    }
    if crate::text::has(a, "has password") {
        return any_password_input(els);
    }
    proof {
        reveal_strlit("title contains ");
        reveal_strlit("url contains ");
        reveal_strlit("text contains ");
        reveal_strlit("page contains ");
        reveal_strlit("has button ");
        reveal_strlit("has link ");
        reveal_strlit("has input ");
        reveal_strlit("page has section ");
    }
    if crate::text::starts(a, "title contains ") {
        let needle = operand_exec(a, 15);
        return contains_exec(lower_chars(view.title.as_str()).as_slice(), needle.as_slice());
    }
    if crate::text::starts(a, "url contains ") {
        let needle = operand_exec(a, 13);
        return contains_exec(lower_chars(view.url.as_str()).as_slice(), needle.as_slice());
    }
    if crate::text::starts(a, "text contains ") || crate::text::starts(a, "page contains ") {
        let needle = operand_exec(a, 14);
        if needle.len() == 0 {
            return false;
        }
        return contains_exec(full.as_slice(), needle.as_slice());
    }
    if crate::text::starts(a, "has button ") {
        let op = operand_exec(a, 11);
        let label = lower_chars(string_of(op.as_slice()).as_str());
        return any_button(els, label.as_slice());
    }
    if crate::text::starts(a, "has link ") {
        let op = operand_exec(a, 9);
        let label = lower_chars(string_of(op.as_slice()).as_str());
        return any_link(els, label.as_slice());
    }
    if crate::text::starts(a, "has input ") {
        let op = operand_exec(a, 10);
        let name = lower_chars(string_of(op.as_slice()).as_str());
        return any_input(els, name.as_slice());
    }
    if crate::text::eq_lit(a, "has form") {
        return view.forms.len() > 0 || any_form_member(els);
    }
    if crate::text::eq_lit(a, "has image") || crate::text::eq_lit(a, "has img") {
        return crate::text::has(full.as_slice(), "img") || crate::text::has(full.as_slice(), "image");
    }
    if crate::text::starts(a, "page has section ") {
        let op = operand_exec(a, 17);
        let section = lower_chars(string_of(op.as_slice()).as_str());
        return contains_exec(lower_chars(view.visible_text.as_str()).as_slice(), section.as_slice());
    }
    let ws = words_exec(a);
    all_words_present(&ws, full.as_slice())
}

fn any_password_input(els: &Vec<Element>) -> (b: bool)
    ensures
        b == exists|i: int|
            0 <= i < els@.len() && (#[trigger] els@[i].input_type matches Some(t) && t@
                == "password"@),
{
    let mut i: usize = 0;
    while i < els.len()
        invariant
            i <= els@.len(),
            forall|j: int|
                0 <= j < i ==> !(#[trigger] els@[j].input_type matches Some(t) && t@
                    == "password"@),
        decreases els@.len() - i,
    {
        if let Some(t) = &els[i].input_type {
            if str_eq(t.as_str(), "password") {
                return true;
            }
        }
        i = i + 1;
    }
    false
}

fn any_button(els: &Vec<Element>, label: &[char]) -> (b: bool)
    ensures
        b == exists|i: int| 0 <= i < els@.len() && button_matches(#[trigger] els@[i], label@),
{
    let lt = string_of(label);
    let mut i: usize = 0;
    while i < els.len()
        invariant
            i <= els@.len(),
            lt@ == label@,
            forall|j: int| 0 <= j < i ==> !button_matches(#[trigger] els@[j], label@),
        decreases els@.len() - i,
    {
        let e = &els[i];
        let by_value = match &e.value {
            Some(v) => fuzzy_label_match(v.as_str(), lt.as_str()),
            None => false,
        };
        if (e.kind == ElementKind::Button && fuzzy_label_match(e.label.as_str(), lt.as_str()))
            || by_value {
            return true;
        }
        i = i + 1;
    }
    false
}

fn any_link(els: &Vec<Element>, label: &[char]) -> (b: bool)
    ensures
        b == exists|i: int| 0 <= i < els@.len() && link_matches(#[trigger] els@[i], label@),
{
    let lt = string_of(label);
    let mut i: usize = 0;
    while i < els.len()
        invariant
            i <= els@.len(),
            lt@ == label@,
            forall|j: int| 0 <= j < i ==> !link_matches(#[trigger] els@[j], label@),
        decreases els@.len() - i,
    {
        let e = &els[i];
        if e.kind == ElementKind::Link && (fuzzy_label_match(e.label.as_str(), lt.as_str())
            || lower_has_exec(&e.href, label)) {
            return true;
        }
        i = i + 1;
    }
    false
}

fn any_input(els: &Vec<Element>, name: &[char]) -> (b: bool)
    ensures
        b == exists|i: int| 0 <= i < els@.len() && input_matches(#[trigger] els@[i], name@),
{
    let mut i: usize = 0;
    while i < els.len()
        invariant
            i <= els@.len(),
            forall|j: int| 0 <= j < i ==> !input_matches(#[trigger] els@[j], name@),
        decreases els@.len() - i,
    {
        let e = &els[i];
        let by_type = match &e.input_type {
            Some(t) => eq_chars(lower_chars(t.as_str()).as_slice(), name),
            None => false,
        };
        if e.kind == ElementKind::Input && (lower_has_exec(&e.name, name) || contains_exec(
            lower_chars(e.label.as_str()).as_slice(),
            name,
        ) || by_type || lower_has_exec(&e.placeholder, name)) {
            return true;
        }
        i = i + 1;
    }
    false
}

fn any_form_member(els: &Vec<Element>) -> (b: bool)
    ensures
        b == exists|i: int| 0 <= i < els@.len() && (#[trigger] els@[i].form_index) is Some,
{
    let mut i: usize = 0;
    while i < els.len()
        invariant
            i <= els@.len(),
            forall|j: int| 0 <= j < i ==> (#[trigger] els@[j].form_index) is None,
        decreases els@.len() - i,
    {
        if els[i].form_index.is_some() {
            return true;
        }
        i = i + 1;
    }
    false
}

fn all_words_present(ws: &Vec<Vec<char>>, full: &[char]) -> (b: bool)
    ensures
        b == all_words_in(views(ws@), full@),
{
    let mut i: usize = 0;
    while i < ws.len()
        invariant
            i <= ws@.len(),
            forall|j: int| 0 <= j < i ==> contains(full@, #[trigger] views(ws@)[j]),
        decreases ws@.len() - i,
    {
        if !contains_exec(full, ws[i].as_slice()) {
            assert(!contains(full@, views(ws@)[i as int]));
            return false;
        }
        i = i + 1;
    }
    true
}

} // verus!
