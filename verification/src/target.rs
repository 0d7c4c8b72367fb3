//! Semantic element targeting: a `TargetSpec` (role, text, label, test
//! id, selector, enclosing text, index) rendered into the JavaScript that
//! finds the element inside the page.
use vstd::prelude::*;

use crate::text::{chars_of, copy_str, dec, join, join_strings, push_char, push_dec, push_str, string_views};

verus! {

/// A semantic description of an element to interact with. Fields combine
/// with AND semantics; omitted fields are "don't care".
#[derive(Debug, Clone)]
pub struct TargetSpec {
    /// ARIA role or implicit role (button, link, textbox, checkbox, etc).
    pub role: Option<String>,
    /// Visible text or accessible name (case-insensitive substring).
    pub text: Option<String>,
    /// Associated form `<label>` text.
    pub label: Option<String>,
    /// `data-testid` attribute exact match.
    pub testid: Option<String>,
    /// CSS selector narrowing the candidates.
    pub selector: Option<String>,
    /// Scope to elements within an ancestor whose text contains this.
    pub within_text: Option<String>,
    /// Zero-based index among multiple matches.
    pub nth: Option<u32>,
}

impl Default for TargetSpec {
    fn default() -> (t: Self)
        ensures
            t.role is None && t.text is None && t.label is None && t.testid is None
                && t.selector is None && t.within_text is None && t.nth is None,
    {
        TargetSpec {
            role: None,
            text: None,
            label: None,
            testid: None,
            selector: None,
            within_text: None,
            nth: None,
        }
    }
}

/// A character inside a single-quoted JavaScript string literal: backslash
/// and both quotes escaped, line breaks and tabs as escapes, and the two
/// Unicode line terminators as `\u` escapes.
pub open spec fn js_escape_char(c: char) -> Seq<char> {
    if c == '\\' {
        seq!['\\', '\\']
    } else if c == '\'' {
        seq!['\\', '\'']
    } else if c == '"' {
        seq!['\\', '"']
    } else if c == '\n' {
        seq!['\\', 'n']
    } else if c == '\r' {
        seq!['\\', 'r']
    } else if c == '\t' {
        seq!['\\', 't']
    } else if c == '\u{2028}' {
        "\\u2028"@
    } else if c == '\u{2029}' {
        "\\u2029"@
    } else {
        seq![c]
    }
}

/// A string escaped for a single-quoted JavaScript string literal.
pub open spec fn js_escaped(s: Seq<char>) -> Seq<char>
    decreases s.len(),
{
    if s.len() == 0 {
        seq![]
    } else {
        js_escaped(s.drop_last()) + js_escape_char(s.last())
    }
}

/// Escaping leaves no line break (`\n`, `\r`, U+2028, U+2029) and no
/// unescaped quote in the text: every `'` and `"` of the result follows a
/// backslash.
pub proof fn lemma_js_escaped_is_one_literal(s: Seq<char>)
    ensures
        forall|i: int| 0 <= i < js_escaped(s).len() ==> {
            let c = #[trigger] js_escaped(s)[i];
            c != '\n' && c != '\r' && c != '\u{2028}' && c != '\u{2029}'
        },
        forall|i: int| 0 <= i < js_escaped(s).len() && (#[trigger] js_escaped(s)[i] == '\'' || js_escaped(s)[i] == '"')
            ==> i > 0 && js_escaped(s)[i - 1] == '\\',
    decreases s.len(),
{
    reveal_strlit("\\u2028");
    reveal_strlit("\\u2029");
    if s.len() > 0 {
        lemma_js_escaped_is_one_literal(s.drop_last());
        let a = js_escaped(s.drop_last());
        let b = js_escape_char(s.last());
        let r = a + b;
        assert(js_escaped(s) == r);
        assert forall|i: int| 0 <= i < r.len() implies {
            let c = #[trigger] r[i];
            c != '\n' && c != '\r' && c != '\u{2028}' && c != '\u{2029}'
        } by {
            if i >= a.len() {
                assert(r[i] == b[i - a.len()]);
            } else {
                assert(r[i] == a[i]);
            }
        }
        assert forall|i: int| 0 <= i < r.len() && (#[trigger] r[i] == '\'' || r[i] == '"') implies i > 0 && r[i
            - 1] == '\\' by {
            if i >= a.len() {
                assert(r[i] == b[i - a.len()]);
                assert(i - a.len() == 1);
                assert(r[i - 1] == b[0]);
            } else {
                assert(r[i] == a[i]);
                assert(r[i - 1] == a[i - 1]);
            }
        }
    }
}

/// Escape a string for embedding inside a single-quoted JavaScript string
/// literal.
pub fn js_escape(s: &str) -> (r: String)
    ensures
        r@ == js_escaped(s@),
{
    let v = chars_of(s);
    let mut out = String::new();
    let mut i: usize = 0;
    while i < v.len()
        invariant
            i <= v@.len(),
            out@ == js_escaped(v@.take(i as int)),
        decreases v@.len() - i,
    {
        proof {
            assert(v@.take(i + 1).drop_last() =~= v@.take(i as int));
        }
        let c = v[i];
        let ghost before = out@;
        if c == '\\' {
            push_char(&mut out, '\\');
            push_char(&mut out, '\\');
        } else if c == '\'' {
            push_char(&mut out, '\\');
            push_char(&mut out, '\'');
        } else if c == '"' {
            push_char(&mut out, '\\');
            push_char(&mut out, '"');
        } else if c == '\n' {
            push_char(&mut out, '\\');
            push_char(&mut out, 'n');
        } else if c == '\r' {
            push_char(&mut out, '\\');
            push_char(&mut out, 'r');
        } else if c == '\t' {
            push_char(&mut out, '\\');
            push_char(&mut out, 't');
        } else if c == '\u{2028}' {
            push_str(&mut out, "\\u2028");
        } else if c == '\u{2029}' {
            push_str(&mut out, "\\u2029");
        } else {
            push_char(&mut out, c);
        }
        proof {
            reveal_strlit("\\u2028");
            reveal_strlit("\\u2029");
        }
        assert(out@ =~= before + js_escape_char(c));
        i = i + 1;
    }
    assert(v@.take(v@.len() as int) =~= v@);
    out
}

/// `key: 'escaped value'` when the field is set.
pub open spec fn js_field(key: Seq<char>, o: Option<String>) -> Seq<Seq<char>> {
    match o {
        Some(v) => seq![key + ": '"@ + js_escaped(v@) + "'"@],
        None => seq![],
    }
}

/// The fields of a spec as JavaScript object entries, in declaration order.
pub open spec fn js_entries(t: TargetSpec) -> Seq<Seq<char>> {
    js_field("role"@, t.role) + js_field("text"@, t.text) + js_field("label"@, t.label) + js_field(
        "testid"@,
        t.testid,
    ) + js_field("selector"@, t.selector) + js_field("within"@, t.within_text) + match t.nth {
        Some(n) => seq!["nth: "@ + dec(n as nat)],
        None => seq![],
    }
}

/// The spec as a JavaScript object literal.
pub open spec fn js_object(t: TargetSpec) -> Seq<char> {
    "{ "@ + join(js_entries(t), ", "@) + " }"@
}

fn push_js_field(parts: &mut Vec<String>, key: &str, o: &Option<String>)
    ensures
        string_views(final(parts)@) == string_views(old(parts)@) + js_field(key@, *o),
{
    match o {
        Some(v) => {
            let mut p = copy_str(key);
            push_str(&mut p, ": '");
            let e = js_escape(v.as_str());
            push_str(&mut p, e.as_str());
            push_str(&mut p, "'");
            let ghost before = parts@;
            parts.push(p);
            assert(string_views(parts@) =~= string_views(before).push(p@));
        },
        None => {
            assert(string_views(parts@) =~= string_views(parts@) + Seq::<Seq<char>>::empty());
        },
    }
}

impl TargetSpec {
    /// Whether the spec has at least one targeting constraint (`nth` alone
    /// is none).
    pub fn is_populated(&self) -> (b: bool)
        ensures
            b == (self.role is Some || self.text is Some || self.label is Some || self.testid is Some
                || self.selector is Some || self.within_text is Some),
    {
        self.role.is_some() || self.text.is_some() || self.label.is_some() || self.testid.is_some()
            || self.selector.is_some() || self.within_text.is_some()
    }

    /// Render this spec as a JavaScript object literal for the matcher,
    /// every string escaped with [`js_escape`].
    pub fn to_js_object(&self) -> (r: String)
        ensures
            r@ == js_object(*self),
    {
        let mut parts: Vec<String> = Vec::new();
        assert(string_views(parts@) =~= Seq::<Seq<char>>::empty());
        push_js_field(&mut parts, "role", &self.role);
        push_js_field(&mut parts, "text", &self.text);
        push_js_field(&mut parts, "label", &self.label);
        push_js_field(&mut parts, "testid", &self.testid);
        push_js_field(&mut parts, "selector", &self.selector);
        push_js_field(&mut parts, "within", &self.within_text);
        let ghost before = parts@;
        match self.nth {
            Some(n) => {
                let mut p = copy_str("nth: ");
                push_dec(&mut p, n as u64);
                parts.push(p);
                assert(string_views(parts@) =~= string_views(before).push(p@));
            },
            None => {},
        }
        assert(string_views(parts@) =~= js_entries(*self));
        let mut out = copy_str("{ ");
        let joined = join_strings(parts.as_slice(), ", ");
        push_str(&mut out, joined.as_str());
        push_str(&mut out, " }");
        out
    }
}

/// JS source for the semantic matcher: a top-level function
/// `__ladFindTarget(spec, root)` returning the first visible element that
/// satisfies every constraint of the spec, or null.
pub const MATCHER_JS: &'static str = r#"
function __ladNormText(s) {
    return (s || '').replace(/\s+/g, ' ').trim().toLowerCase();
}

function __ladImplicitRole(el) {
    const tag = el.tagName.toLowerCase();
    const type = (el.type || '').toLowerCase();
    if (tag === 'button') return 'button';
    if (tag === 'a' && el.hasAttribute('href')) return 'link';
    if (tag === 'input' && ['button','submit','reset','image'].includes(type)) return 'button';
    if (tag === 'input' && ['text','email','url','tel','password','search',''].includes(type)) return 'textbox';
    if (tag === 'textarea') return 'textbox';
    if (tag === 'input' && type === 'checkbox') return 'checkbox';
    if (tag === 'input' && type === 'radio') return 'radio';
    if (tag === 'select') return 'combobox';
    if (tag === 'img' && el.hasAttribute('alt')) return 'img';
    if (tag === 'nav') return 'navigation';
    if (['h1','h2','h3','h4','h5','h6'].includes(tag)) return 'heading';
    if (tag === 'ul' || tag === 'ol') return 'list';
    if (tag === 'li') return 'listitem';
    if (el.isContentEditable) return 'textbox';
    return null;
}

function __ladAccessibleName(el) {
    // Priority: aria-label > labelledby > label for > innerText > placeholder > alt > title > value
    const label = el.getAttribute('aria-label');
    if (label) return label;
    const lbid = el.getAttribute('aria-labelledby');
    if (lbid) {
        const other = document.getElementById(lbid);
        if (other) return other.innerText || other.textContent || '';
    }
    if (el.id) {
        const forLabel = document.querySelector('label[for="' + el.id + '"]');
        if (forLabel) return forLabel.innerText || '';
    }
    // Wrapping <label>
    let p = el.parentElement;
    while (p && p.tagName) {
        if (p.tagName.toLowerCase() === 'label') return p.innerText || '';
        p = p.parentElement;
    }
    return (el.innerText || '').trim()
        || el.getAttribute('placeholder')
        || el.getAttribute('alt')
        || el.getAttribute('title')
        || el.value
        || '';
}

function __ladIsVisible(el) {
    if (!el || !el.getClientRects) return false;
    const rect = el.getBoundingClientRect();
    if (rect.width === 0 && rect.height === 0) return false;
    const style = window.getComputedStyle(el);
    if (style.display === 'none' || style.visibility === 'hidden' || parseFloat(style.opacity) === 0) return false;
    return true;
}

function __ladFindTarget(spec, root) {
    root = root || document;
    // Narrow candidates via selector if provided, else all elements.
    let candidates = spec.selector
        ? Array.from(root.querySelectorAll(spec.selector))
        : Array.from(root.querySelectorAll('*'));

    // Filter out hidden elements early.
    candidates = candidates.filter(__ladIsVisible);

    // within_text: keep only elements whose ancestor innerText contains the string.
    if (spec.within) {
        const needle = __ladNormText(spec.within);
        candidates = candidates.filter(el => {
            let p = el.parentElement;
            while (p) {
                const t = __ladNormText(p.innerText);
                if (t.includes(needle)) return true;
                p = p.parentElement;
            }
            return false;
        });
    }

    // testid exact match
    if (spec.testid) {
        candidates = candidates.filter(el =>
            el.getAttribute('data-testid') === spec.testid
        );
    }

    // role match (ARIA explicit or HTML implicit)
    if (spec.role) {
        const wanted = spec.role.toLowerCase();
        candidates = candidates.filter(el => {
            const explicit = (el.getAttribute('role') || '').toLowerCase();
            if (explicit === wanted) return true;
            return __ladImplicitRole(el) === wanted;
        });
    }

    // label: match the element whose associated <label> contains the text
    if (spec.label) {
        const wanted = __ladNormText(spec.label);
        candidates = candidates.filter(el => {
            if (el.id) {
                const forLabel = document.querySelector('label[for="' + el.id + '"]');
                if (forLabel && __ladNormText(forLabel.innerText).includes(wanted)) return true;
            }
            let p = el.parentElement;
            while (p && p.tagName) {
                if (p.tagName.toLowerCase() === 'label' &&
                    __ladNormText(p.innerText).includes(wanted)) return true;
                p = p.parentElement;
            }
            // Also check placeholder as a weaker label source.
            const ph = (el.getAttribute('placeholder') || '').toLowerCase();
            if (ph && ph.includes(wanted)) return true;
            return false;
        });
    }

    // text: match accessible name / visible text / aria-label / value / placeholder
    if (spec.text) {
        const wanted = __ladNormText(spec.text);
        candidates = candidates.filter(el => {
            const name = __ladNormText(__ladAccessibleName(el));
            return name.includes(wanted);
        });
    }

    // If still multiple, prefer leaf elements (innerHTML has no child elements)
    // so we hit the button text rather than a wrapper div containing it.
    if (candidates.length > 1) {
        const leaves = candidates.filter(el => {
            return !Array.from(el.children).some(child => candidates.includes(child));
        });
        if (leaves.length > 0) candidates = leaves;
    }

    const idx = spec.nth || 0;
    return candidates[idx] || null;
}
"#;

/// The text of the script around the matcher, the spec and the body.
pub open spec fn target_script(spec_js: Seq<char>, body: Seq<char>) -> Seq<char> {
    r#"(() => {
            "#@ + MATCHER_JS@ + r#"
            const spec = "#@ + spec_js + r#";
            const el = __ladFindTarget(spec);
            if (!el) {
                // Collect near-misses: elements matching at least one constraint.
                const near = [];
                const all = Array.from(document.querySelectorAll('*')).filter(__ladIsVisible);
                for (const cand of all) {
                    const role = __ladImplicitRole(cand) || cand.getAttribute('role') || '';
                    const name = __ladAccessibleName(cand).slice(0, 60).trim();
                    if (spec.text && __ladNormText(name).includes(__ladNormText(spec.text))) {
                        near.push({ role, name, tag: cand.tagName.toLowerCase() });
                    } else if (spec.role && (role === spec.role.toLowerCase())) {
                        near.push({ role, name, tag: cand.tagName.toLowerCase() });
                    }
                    if (near.length >= 5) break;
                }
                return JSON.stringify({ error: "target not found", spec: spec, candidates: near });
            }
            "#@ + body + r#"
            return JSON.stringify({ ok: true });
        })()"#@
}

/// Build a JS IIFE that resolves the given target, binds it to `el`, and
/// runs `body`; when nothing matches it returns a JSON error with up to 5
/// near-miss candidates.
pub fn build_target_js(spec: &TargetSpec, body: &str) -> (r: String)
    ensures
        r@ == target_script(js_object(*spec), body@),
{
    let spec_js = spec.to_js_object();
    let mut out = copy_str(r#"(() => {
            "#);
    push_str(&mut out, MATCHER_JS);
    push_str(&mut out, r#"
            const spec = "#);
    push_str(&mut out, spec_js.as_str());
    push_str(&mut out, r#";
            const el = __ladFindTarget(spec);
            if (!el) {
                // Collect near-misses: elements matching at least one constraint.
                const near = [];
                const all = Array.from(document.querySelectorAll('*')).filter(__ladIsVisible);
                for (const cand of all) {
                    const role = __ladImplicitRole(cand) || cand.getAttribute('role') || '';
                    const name = __ladAccessibleName(cand).slice(0, 60).trim();
                    if (spec.text && __ladNormText(name).includes(__ladNormText(spec.text))) {
                        near.push({ role, name, tag: cand.tagName.toLowerCase() });
                    } else if (spec.role && (role === spec.role.toLowerCase())) {
                        near.push({ role, name, tag: cand.tagName.toLowerCase() });
                    }
                    if (near.length >= 5) break;
                }
                return JSON.stringify({ error: "target not found", spec: spec, candidates: near });
            }
            "#);
    push_str(&mut out, body);
    push_str(&mut out, r#"
            return JSON.stringify({ ok: true });
        })()"#);
    out
}

} // verus!
