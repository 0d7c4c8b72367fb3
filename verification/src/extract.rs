//! Filtering a page view by what the caller asks about: elements that
//! mention the query's words come first (or alone), and the visible text
//! becomes the text blocks that mention them most.
use vstd::prelude::*;

use crate::rx::{regex_capture, regex_group};
use crate::semantic::{copy_element, models, Element, ElementModel, SemanticView};
use crate::text::{
    chars_of, contains, contains_exec, join, join_strings, string_views, to_lower, unicode_lower,
    utf8_size, utf8_size_checked, utf8_take, utf8_truncate, words, words_exec, views, copy_str,
    string_of, parse_u32, parse_u32_exec,
};

verus! {

// ── Stable sort, highest key first ───────────────────────────────────

/// Position of the first entry whose key is not at least `k` (all of
/// them when every key is).
pub open spec fn first_below<K, A>(s: Seq<(K, A)>, k: K, ge: spec_fn(K, K) -> bool) -> nat
    decreases s.len(),
{
    if s.len() == 0 {
        0
    } else if !ge(s[0].0, k) {
        0
    } else {
        1 + first_below(s.drop_first(), k, ge)
    }
}

/// Insertion sort, highest key first: each entry goes after every earlier
/// entry whose key is at least its own, so equal keys keep their order.
pub open spec fn sort_desc<K, A>(s: Seq<(K, A)>, ge: spec_fn(K, K) -> bool) -> Seq<(K, A)>
    decreases s.len(),
{
    if s.len() == 0 {
        s
    } else {
        let t = sort_desc(s.drop_last(), ge);
        t.insert(first_below(t, s.last().0, ge) as int, s.last())
    }
}

/// The entries without their keys.
pub open spec fn unkeyed<K, A>(s: Seq<(K, A)>) -> Seq<A> {
    s.map_values(|p: (K, A)| p.1)
}

/// `first_below` stays within the sequence.
pub proof fn lemma_first_below_bound<K, A>(s: Seq<(K, A)>, k: K, ge: spec_fn(K, K) -> bool)
    ensures
        first_below(s, k, ge) <= s.len(),
    decreases s.len(),
{
    if s.len() > 0 && ge(s[0].0, k) {
        lemma_first_below_bound(s.drop_first(), k, ge);
    }
}

/// `first_below` after skipping a prefix whose keys are all at least `k`.
proof fn lemma_first_below_skip<K, A>(s: Seq<(K, A)>, k: K, ge: spec_fn(K, K) -> bool, p: int)
    requires
        0 <= p < s.len(),
        first_below(s, k, ge) == p + first_below(s.skip(p), k, ge),
        ge(s[p].0, k),
    ensures
        first_below(s, k, ge) == p + 1 + first_below(s.skip(p + 1), k, ge),
{
    assert(s.skip(p).drop_first() =~= s.skip(p + 1));
}

/// Keys ordered from highest to lowest.
pub open spec fn sorted_desc<K, A>(s: Seq<(K, A)>, ge: spec_fn(K, K) -> bool) -> bool {
    forall|i: int, j: int| 0 <= i < j < s.len() ==> ge(#[trigger] s[i].0, #[trigger] s[j].0)
}

/// `ge` is a total preorder.
pub open spec fn total_preorder<K>(ge: spec_fn(K, K) -> bool) -> bool {
    &&& forall|a: K, b: K| #[trigger] ge(a, b) || ge(b, a)
    &&& forall|a: K, b: K, c: K| #[trigger] ge(a, b) && #[trigger] ge(b, c) ==> ge(a, c)
}

proof fn lemma_first_below_facts<K, A>(s: Seq<(K, A)>, k: K, ge: spec_fn(K, K) -> bool)
    ensures
        first_below(s, k, ge) <= s.len(),
        forall|i: int| 0 <= i < first_below(s, k, ge) ==> ge(#[trigger] s[i].0, k),
        first_below(s, k, ge) < s.len() ==> !ge(s[first_below(s, k, ge) as int].0, k),
    decreases s.len(),
{
    if s.len() > 0 && ge(s[0].0, k) {
        let t = s.drop_first();
        lemma_first_below_facts(t, k, ge);
        assert forall|i: int| 0 <= i < first_below(s, k, ge) implies ge(#[trigger] s[i].0, k) by {
            if i > 0 {
                assert(s[i] == t[i - 1]);
            }
        }
    }
}

/// Inserting after the entries whose key is at least the new one keeps a
/// sequence sorted.
proof fn lemma_insert_sorted<K, A>(t: Seq<(K, A)>, x: (K, A), ge: spec_fn(K, K) -> bool)
    requires
        total_preorder(ge),
        sorted_desc(t, ge),
    ensures
        sorted_desc(t.insert(first_below(t, x.0, ge) as int, x), ge),
{
    let p = first_below(t, x.0, ge) as int;
    lemma_first_below_facts(t, x.0, ge);
    let r = t.insert(p, x);
    assert forall|i: int, j: int| 0 <= i < j < r.len() implies ge(#[trigger] r[i].0, #[trigger] r[j].0) by {
        if j < p {
            assert(r[i] == t[i] && r[j] == t[j]);
        } else if j == p {
            assert(r[i] == t[i] && r[j] == x);
        } else if i < p {
            assert(r[i] == t[i] && r[j] == t[j - 1]);
            assert(ge(t[i].0, t[j - 1].0));
        } else if i == p {
            assert(r[j] == t[j - 1]);
            assert(!ge(t[p].0, x.0));
            assert(ge(x.0, t[p].0));
            if j - 1 > p {
                assert(ge(t[p].0, t[j - 1].0));
            }
        } else {
            assert(r[i] == t[i - 1] && r[j] == t[j - 1]);
            assert(ge(t[i - 1].0, t[j - 1].0));
        }
    }
}

/// The sort orders the keys from highest to lowest, under any total
/// preorder.
pub proof fn lemma_sort_desc_sorted<K, A>(s: Seq<(K, A)>, ge: spec_fn(K, K) -> bool)
    requires
        total_preorder(ge),
    ensures
        sorted_desc(sort_desc(s, ge), ge),
        sort_desc(s, ge).len() == s.len(),
    decreases s.len(),
{
    if s.len() > 0 {
        lemma_sort_desc_sorted(s.drop_last(), ge);
        let t = sort_desc(s.drop_last(), ge);
        lemma_first_below_bound(t, s.last().0, ge);
        lemma_insert_sorted(t, s.last(), ge);
    }
}

/// The element and block orders are total preorders, so the filter's
/// elements come out highest score first and its blocks highest score,
/// then longest, first.
pub proof fn lemma_filter_orders_are_total()
    ensures
        total_preorder(score_ge()),
        total_preorder(block_ge()),
{
}

/// Scores order as numbers.
pub open spec fn score_ge() -> spec_fn(nat, nat) -> bool {
    |a: nat, b: nat| a >= b
}

/// (score, length) pairs order by score, then by length.
pub open spec fn block_ge() -> spec_fn((nat, nat), (nat, nat)) -> bool {
    |a: (nat, nat), b: (nat, nat)| a.0 > b.0 || (a.0 == b.0 && a.1 >= b.1)
}

/// With all keys zero the sort keeps the order.
pub proof fn lemma_sort_zero_keys<A>(s: Seq<(nat, A)>)
    requires
        forall|i: int| 0 <= i < s.len() ==> #[trigger] s[i].0 == 0,
    ensures
        sort_desc(s, score_ge()) == s,
    decreases s.len(),
{
    if s.len() > 0 {
        let t = s.drop_last();
        lemma_sort_zero_keys(t);
        lemma_first_below_all(t, 0, score_ge());
        assert(t.insert(t.len() as int, s.last()) =~= s);
    }
}

proof fn lemma_first_below_all<K, A>(s: Seq<(K, A)>, k: K, ge: spec_fn(K, K) -> bool)
    requires
        forall|i: int| 0 <= i < s.len() ==> ge(#[trigger] s[i].0, k),
    ensures
        first_below(s, k, ge) == s.len(),
    decreases s.len(),
{
    if s.len() > 0 {
        assert(ge(s[0].0, k));
        assert forall|i: int| 0 <= i < s.drop_first().len() implies ge(#[trigger] s.drop_first()[i].0, k) by {
            assert(s.drop_first()[i] == s[i + 1]);
        }
        lemma_first_below_all(s.drop_first(), k, ge);
    }
}

// ── Query and scores ─────────────────────────────────────────────────

/// Words of at least two bytes, in order.
pub open spec fn long_words(ws: Seq<Seq<char>>) -> Seq<Seq<char>>
    decreases ws.len(),
{
    if ws.len() == 0 {
        seq![]
    } else if utf8_size(ws.last()) >= 2 {
        long_words(ws.drop_last()).push(ws.last())
    } else {
        long_words(ws.drop_last())
    }
}

/// The query words: the lower-cased words of `what`, single-byte ones
/// dropped.
pub open spec fn query_words(what: Seq<char>) -> Seq<Seq<char>> {
    long_words(words(unicode_lower(what)))
}

/// An optional text, or the empty text.
pub open spec fn or_empty(o: Option<Seq<char>>) -> Seq<char> {
    match o {
        Some(s) => s,
        None => seq![],
    }
}

/// One for a hit.
pub open spec fn hit(b: bool) -> nat {
    if b {
        1
    } else {
        0
    }
}

/// How many of the element's lower-cased label, name, placeholder and href
/// contain the word.
pub open spec fn field_hits(e: ElementModel, w: Seq<char>) -> nat {
    hit(contains(unicode_lower(e.label), w)) + hit(contains(unicode_lower(or_empty(e.name)), w))
        + hit(contains(unicode_lower(or_empty(e.placeholder)), w)) + hit(
        contains(unicode_lower(or_empty(e.href)), w),
    )
}

/// An element's score: field hits summed over the query words.
pub open spec fn element_score(q: Seq<Seq<char>>, e: ElementModel) -> nat
    decreases q.len(),
{
    if q.len() == 0 {
        0
    } else {
        element_score(q.drop_last(), e) + field_hits(e, q.last())
    }
}

/// The elements with their scores, in page order.
pub open spec fn scored_elements(q: Seq<Seq<char>>, els: Seq<ElementModel>) -> Seq<(nat, ElementModel)> {
    els.map_values(|e: ElementModel| (element_score(q, e), e))
}

/// The entries with a positive score, in order.
pub open spec fn positive<A>(s: Seq<(nat, A)>) -> Seq<(nat, A)>
    decreases s.len(),
{
    if s.len() == 0 {
        seq![]
    } else if s.last().0 > 0 {
        positive(s.drop_last()).push(s.last())
    } else {
        positive(s.drop_last())
    }
}

/// How many query words a text block (lower-cased) contains.
pub open spec fn block_score(q: Seq<Seq<char>>, b: Seq<char>) -> nat
    decreases q.len(),
{
    if q.len() == 0 {
        0
    } else {
        block_score(q.drop_last(), b) + hit(contains(unicode_lower(b), q.last()))
    }
}

/// The byte length of a text (`str::len`).
pub open spec fn blen(b: Seq<char>) -> nat {
    (vstd::utf8::encode_utf8(b).len() as usize) as nat
}

/// The blocks that mention a query word, keyed by (score, byte length).
pub open spec fn scored_blocks(q: Seq<Seq<char>>, bs: Seq<Seq<char>>) -> Seq<((nat, nat), Seq<char>)>
    decreases bs.len(),
{
    if bs.len() == 0 {
        seq![]
    } else if block_score(q, bs.last()) > 0 {
        scored_blocks(q, bs.drop_last()).push(((block_score(q, bs.last()), blen(bs.last())), bs.last()))
    } else {
        scored_blocks(q, bs.drop_last())
    }
}

/// How many blocks make up the visible text: `max_length / 240` (at least
/// 3) when a length is given, else 8, within 3 to 20.
pub open spec fn top_k(max_length: Option<usize>) -> nat {
    let base: nat = match max_length {
        Some(m) => if m / 240 >= 3 {
            (m / 240) as nat
        } else {
            3
        },
        None => 8,
    };
    if base > 20 {
        20
    } else {
        base
    }
}

/// The elements after filtering: sorted by score (stable, highest first),
/// and, in strict mode with a query, only those that scored.
pub open spec fn filtered_elements(q: Seq<Seq<char>>, els: Seq<ElementModel>, strict: bool) -> Seq<
    ElementModel,
> {
    let sorted = sort_desc(scored_elements(q, els), score_ge());
    if strict && q.len() > 0 {
        unkeyed(positive(sorted))
    } else {
        unkeyed(sorted)
    }
}

/// The number of elements that scored.
pub open spec fn relevant_count(q: Seq<Seq<char>>, els: Seq<ElementModel>) -> nat {
    positive(sort_desc(scored_elements(q, els), score_ge())).len()
}

/// The visible text before the length cap: with a query and text blocks,
/// the best `top_k` matching blocks joined by `" … "` (the old text when
/// none matches).
pub open spec fn focused_text(
    q: Seq<Seq<char>>,
    blocks: Seq<Seq<char>>,
    text: Seq<char>,
    max_length: Option<usize>,
) -> Seq<char> {
    if q.len() > 0 && blocks.len() > 0 {
        let best = unkeyed(sort_desc(scored_blocks(q, blocks), block_ge()));
        let joined = join(best.take(if best.len() < top_k(max_length) { best.len() as int } else { top_k(max_length) as int }), " … "@);
        if joined.len() > 0 {
            joined
        } else {
            text
        }
    } else {
        text
    }
}

/// The visible text after the filter: the focused text, cut to its
/// longest prefix of at most `max_length` bytes when it is longer.
pub open spec fn filtered_text(
    q: Seq<Seq<char>>,
    blocks: Seq<Seq<char>>,
    text: Seq<char>,
    max_length: Option<usize>,
) -> Seq<char> {
    let t = focused_text(q, blocks, text, max_length);
    match max_length {
        Some(m) => if utf8_size(t) > m {
            utf8_take(t, m as nat)
        } else {
            t
        },
        None => t,
    }
}

/// With no query word every element scores zero.
pub proof fn lemma_no_query_scores_zero(e: ElementModel)
    ensures
        element_score(seq![], e) == 0,
{
}

/// An empty query keeps the elements in page order (strict or not) and the
/// visible text as it was, before the length cap.
pub proof fn lemma_empty_query_keeps_view(
    els: Seq<ElementModel>,
    blocks: Seq<Seq<char>>,
    text: Seq<char>,
    max_length: Option<usize>,
    strict: bool,
)
    ensures
        filtered_elements(seq![], els, strict) == els,
        relevant_count(seq![], els) == 0,
        focused_text(seq![], blocks, text, max_length) == text,
{
    let s = scored_elements(seq![], els);
    assert forall|i: int| 0 <= i < s.len() implies #[trigger] s[i].0 == 0 by {
        lemma_no_query_scores_zero(els[i]);
    }
    lemma_sort_zero_keys(s);
    assert(unkeyed(s) =~= els);
    lemma_positive_of_zero(s);
}

proof fn lemma_positive_of_zero<A>(s: Seq<(nat, A)>)
    requires
        forall|i: int| 0 <= i < s.len() ==> #[trigger] s[i].0 == 0,
    ensures
        positive(s).len() == 0,
    decreases s.len(),
{
    if s.len() > 0 {
        assert forall|i: int| 0 <= i < s.drop_last().len() implies #[trigger] s.drop_last()[i].0 == 0 by {
            assert(s.drop_last()[i] == s[i]);
        }
        lemma_positive_of_zero(s.drop_last());
        assert(s[s.len() - 1].0 == 0);
    }
}

// ── Executable pieces ────────────────────────────────────────────────

fn query_words_exec(what: &str) -> (r: Vec<Vec<char>>)
    ensures
        views(r@) == query_words(what@),
{
    let lower = to_lower(what);
    let lv = chars_of(lower.as_str());
    let ws = words_exec(lv.as_slice());
    let mut out: Vec<Vec<char>> = Vec::new();
    let mut i: usize = 0;
    while i < ws.len()
        invariant
            i <= ws@.len(),
            views(out@) == long_words(views(ws@).take(i as int)),
        decreases ws@.len() - i,
    {
        proof {
            assert(views(ws@).take(i + 1).drop_last() =~= views(ws@).take(i as int));
        }
        let long = match utf8_size_checked(ws[i].as_slice()) {
            Some(n) => n >= 2,
            None => true,
        };
        if long {
            let ghost before = out@;
            out.push(ws[i].clone());
            assert(views(out@) =~= views(before).push(ws@[i as int]@));
        }
        i = i + 1;
    }
    assert(views(ws@).take(ws@.len() as int) =~= views(ws@));
    out
}

fn lowered(o: &Option<String>) -> (r: Vec<char>)
    ensures
        r@ == unicode_lower(or_empty(match o {
            Some(s) => Some(s@),
            None => None,
        })),
{
    let empty = String::new();
    let s: &str = match o {
        Some(s) => s.as_str(),
        None => empty.as_str(),
    };
    let l = to_lower(s);
    chars_of(l.as_str())
}

fn element_score_exec(q: &Vec<Vec<char>>, e: &Element) -> (r: u128)
    ensures
        r == element_score(views(q@), e@),
{
    let label_s = to_lower(e.label.as_str());
    let label = chars_of(label_s.as_str());
    let name = lowered(&e.name);
    let placeholder = lowered(&e.placeholder);
    let href = lowered(&e.href);
    let mut score: u128 = 0;
    let mut i: usize = 0;
    while i < q.len()
        invariant
            i <= q@.len(),
            score == element_score(views(q@).take(i as int), e@),
            score <= 4 * i,
            label@ == unicode_lower(e@.label),
            name@ == unicode_lower(or_empty(e@.name)),
            placeholder@ == unicode_lower(or_empty(e@.placeholder)),
            href@ == unicode_lower(or_empty(e@.href)),
        decreases q@.len() - i,
    {
        let w = q[i].as_slice();
        proof {
            assert(views(q@).take(i + 1).drop_last() =~= views(q@).take(i as int));
        }
        if contains_exec(label.as_slice(), w) {
            score = score + 1;
        }
        if contains_exec(name.as_slice(), w) {
            score = score + 1;
        }
        if contains_exec(placeholder.as_slice(), w) {
            score = score + 1;
        }
        if contains_exec(href.as_slice(), w) {
            score = score + 1;
        }
        i = i + 1;
    }
    assert(views(q@).take(q@.len() as int) =~= views(q@));
    score
}

fn block_score_exec(q: &Vec<Vec<char>>, b: &str) -> (r: usize)
    ensures
        r == block_score(views(q@), b@),
{
    let ls = to_lower(b);
    let l = chars_of(ls.as_str());
    let mut score: usize = 0;
    let mut i: usize = 0;
    while i < q.len()
        invariant
            i <= q@.len(),
            score == block_score(views(q@).take(i as int), b@),
            score <= i,
            l@ == unicode_lower(b@),
        decreases q@.len() - i,
    {
        proof {
            assert(views(q@).take(i + 1).drop_last() =~= views(q@).take(i as int));
        }
        if contains_exec(l.as_slice(), q[i].as_slice()) {
            score = score + 1;
        }
        i = i + 1;
    }
    assert(views(q@).take(q@.len() as int) =~= views(q@));
    score
}

/// Keyed elements as (score, model) pairs.
pub open spec fn keyed_elements(v: Seq<(u128, Element)>) -> Seq<(nat, ElementModel)> {
    v.map_values(|p: (u128, Element)| (p.0 as nat, p.1@))
}

/// Keyed blocks as ((score, length), text) pairs.
pub open spec fn keyed_blocks(v: Seq<((usize, usize), String)>) -> Seq<((nat, nat), Seq<char>)> {
    v.map_values(|p: ((usize, usize), String)| ((p.0.0 as nat, p.0.1 as nat), p.1@))
}

fn insert_element(out: &mut Vec<(u128, Element)>, x: (u128, Element))
    ensures
        keyed_elements(final(out)@) == keyed_elements(old(out)@).insert(
            first_below(keyed_elements(old(out)@), x.0 as nat, score_ge()) as int,
            (x.0 as nat, x.1@),
        ),
{
    let ghost t = keyed_elements(out@);
    let ghost k = x.0 as nat;
    let mut p: usize = 0;
    assert(t.skip(0) =~= t);
    while p < out.len() && out[p].0 >= x.0
        invariant
            p <= out@.len(),
            t == keyed_elements(out@),
            k == x.0 as nat,
            first_below(t, k, score_ge()) == p + first_below(t.skip(p as int), k, score_ge()),
        decreases out@.len() - p,
    {
        proof {
            assert(t[p as int].0 == out@[p as int].0 as nat);
            lemma_first_below_skip(t, k, score_ge(), p as int);
        }
        p = p + 1;
    }
    proof {
        if p < out@.len() {
            assert(t.skip(p as int)[0] == t[p as int]);
        }
    }
    out.insert(p, x);
    assert(keyed_elements(out@) =~= t.insert(p as int, (x.0 as nat, x.1@)));
}

fn insert_block(out: &mut Vec<((usize, usize), String)>, x: ((usize, usize), String))
    ensures
        keyed_blocks(final(out)@) == keyed_blocks(old(out)@).insert(
            first_below(keyed_blocks(old(out)@), (x.0.0 as nat, x.0.1 as nat), block_ge()) as int,
            ((x.0.0 as nat, x.0.1 as nat), x.1@),
        ),
{
    let ghost t = keyed_blocks(out@);
    let ghost k = (x.0.0 as nat, x.0.1 as nat);
    let mut p: usize = 0;
    assert(t.skip(0) =~= t);
    while p < out.len() && (out[p].0.0 > x.0.0 || (out[p].0.0 == x.0.0 && out[p].0.1 >= x.0.1))
        invariant
            p <= out@.len(),
            t == keyed_blocks(out@),
            k == (x.0.0 as nat, x.0.1 as nat),
            first_below(t, k, block_ge()) == p + first_below(t.skip(p as int), k, block_ge()),
        decreases out@.len() - p,
    {
        proof {
            assert(t[p as int].0 == (out@[p as int].0.0 as nat, out@[p as int].0.1 as nat));
            lemma_first_below_skip(t, k, block_ge(), p as int);
        }
        p = p + 1;
    }
    proof {
        if p < out@.len() {
            assert(t.skip(p as int)[0] == t[p as int]);
        }
    }
    out.insert(p, x);
    assert(keyed_blocks(out@) =~= t.insert(p as int, ((x.0.0 as nat, x.0.1 as nat), x.1@)));
}

/// The elements sorted by score, highest first, equal scores in page order.
fn sort_elements(q: &Vec<Vec<char>>, els: &Vec<Element>) -> (r: Vec<(u128, Element)>)
    ensures
        keyed_elements(r@) == sort_desc(scored_elements(views(q@), models(els@)), score_ge()),
{
    let ghost s = scored_elements(views(q@), models(els@));
    let mut out: Vec<(u128, Element)> = Vec::new();
    let mut i: usize = 0;
    while i < els.len()
        invariant
            i <= els@.len(),
            s == scored_elements(views(q@), models(els@)),
            keyed_elements(out@) == sort_desc(s.take(i as int), score_ge()),
        decreases els@.len() - i,
    {
        let score = element_score_exec(q, &els[i]);
        let e = copy_element(&els[i]);
        proof {
            assert(s.take(i + 1).drop_last() =~= s.take(i as int));
            assert(s.take(i + 1).last() == (score as nat, e@));
        }
        insert_element(&mut out, (score, e));
        i = i + 1;
    }
    assert(s.take(els@.len() as int) =~= s);
    out
}

/// The blocks that scored, sorted by (score, length), highest first.
fn sort_blocks(q: &Vec<Vec<char>>, blocks: &Vec<String>) -> (r: Vec<((usize, usize), String)>)
    ensures
        keyed_blocks(r@) == sort_desc(scored_blocks(views(q@), string_views(blocks@)), block_ge()),
{
    let ghost bs = string_views(blocks@);
    let mut out: Vec<((usize, usize), String)> = Vec::new();
    let mut i: usize = 0;
    while i < blocks.len()
        invariant
            i <= blocks@.len(),
            bs == string_views(blocks@),
            keyed_blocks(out@) == sort_desc(scored_blocks(views(q@), bs.take(i as int)), block_ge()),
        decreases blocks@.len() - i,
    {
        proof {
            assert(bs.take(i + 1).drop_last() =~= bs.take(i as int));
            assert(bs.take(i + 1).last() == blocks@[i as int]@);
        }
        let score = block_score_exec(q, blocks[i].as_str());
        if score > 0 {
            let len = blocks[i].as_str().len();
            let b = copy_str(blocks[i].as_str());
            proof {
                assert(scored_blocks(views(q@), bs.take(i + 1)).last() == ((score as nat, len as nat), b@));
                assert(scored_blocks(views(q@), bs.take(i + 1)).drop_last() == scored_blocks(views(q@), bs.take(i as int)));
            }
            insert_block(&mut out, ((score, len), b));
        }
        i = i + 1;
    }
    assert(bs.take(blocks@.len() as int) =~= bs);
    out
}

/// Apply `what` as a semantic filter to a page view and return how many
/// elements matched. Elements are stably sorted by how many query words
/// their label, name, placeholder and href contain (strict mode keeps only
/// matches); with text blocks, the visible text becomes the best-matching
/// blocks; `max_length` then caps the visible text in bytes, at a
/// character boundary. An empty query sorts nothing away and keeps the
/// text.
pub fn apply_what_filter(view: &mut SemanticView, what: &str, max_length: Option<usize>, strict: bool) -> (r: usize)
    ensures
        r == relevant_count(query_words(what@), models(old(view).elements@)),
        models(final(view).elements@) == filtered_elements(
            query_words(what@),
            models(old(view).elements@),
            strict,
        ),
        final(view).visible_text@ == filtered_text(
            query_words(what@),
            string_views(old(view).text_blocks@),
            old(view).visible_text@,
            max_length,
        ),
        final(view).url == old(view).url,
        final(view).title == old(view).title,
        final(view).page_hint == old(view).page_hint,
        final(view).forms == old(view).forms,
        final(view).text_blocks == old(view).text_blocks,
        final(view).state == old(view).state,
        final(view).element_cap == old(view).element_cap,
        final(view).blocked_reason == old(view).blocked_reason,
        final(view).session_context == old(view).session_context,
        final(view).cards == old(view).cards,
        final(view).cards_truncated == old(view).cards_truncated,
{
    let q = query_words_exec(what);
    let ghost qv = views(q@);
    let has_query = q.len() > 0;
    let sorted = sort_elements(&q, &view.elements);
    let ghost ks = keyed_elements(sorted@);
    // Count the scored entries and collect the kept elements.
    let mut relevant: usize = 0;
    let mut kept: Vec<Element> = Vec::new();
    let mut i: usize = 0;
    while i < sorted.len()
        invariant
            i <= sorted@.len(),
            ks == keyed_elements(sorted@),
            relevant == positive(ks.take(i as int)).len(),
            relevant <= i,
            models(kept@) == if strict && has_query {
                unkeyed(positive(ks.take(i as int)))
            } else {
                unkeyed(ks.take(i as int))
            },
        decreases sorted@.len() - i,
    {
        proof {
            assert(ks.take(i + 1).drop_last() =~= ks.take(i as int));
            assert(ks.take(i + 1).last() == ks[i as int]);
        }
        let positive_score = sorted[i].0 > 0;
        if positive_score {
            relevant = relevant + 1;
        }
        if !(strict && has_query) || positive_score {
            let e = copy_element(&sorted[i].1);
            let ghost before = kept@;
            kept.push(e);
            proof {
                assert(models(kept@) =~= models(before).push(e@));
                if strict && has_query {
                    assert(unkeyed(positive(ks.take(i + 1))) =~= unkeyed(positive(ks.take(i as int))).push(ks[i as int].1));
                } else {
                    assert(unkeyed(ks.take(i + 1)) =~= unkeyed(ks.take(i as int)).push(ks[i as int].1));
                }
            }
        }
        i = i + 1;
    }
    assert(ks.take(sorted@.len() as int) =~= ks);
    view.elements = kept;
    // Focus the visible text on the best-matching blocks.
    if has_query && view.text_blocks.len() > 0 {
        let best = sort_blocks(&q, &view.text_blocks);
        let k: usize = match max_length {
            Some(m) => if m / 240 >= 3 {
                m / 240
            } else {
                3
            },
            None => 8,
        };
        let k = if k > 20 {
            20
        } else {
            k
        };
        let n = if best.len() < k {
            best.len()
        } else {
            k
        };
        let mut parts: Vec<String> = Vec::new();
        let mut j: usize = 0;
        let ghost bv = unkeyed(keyed_blocks(best@));
        while j < n
            invariant
                j <= n <= best@.len(),
                bv == unkeyed(keyed_blocks(best@)),
                string_views(parts@) == bv.take(j as int),
            decreases n - j,
        {
            let p = copy_str(best[j].1.as_str());
            assert(bv[j as int] == best@[j as int].1@);
            let ghost before = parts@;
            parts.push(p);
            assert(string_views(parts@) =~= string_views(before).push(p@));
            assert(bv.take(j + 1) =~= bv.take(j as int).push(bv[j as int]));
            assert(string_views(parts@) =~= bv.take(j + 1));
            j = j + 1;
        }
        let joined = join_strings(parts.as_slice(), " … ");
        assert(n == if bv.len() < top_k(max_length) { bv.len() } else { top_k(max_length) });
        if !joined.as_str().is_empty() {
            view.visible_text = joined;
        }
    }
    assert(view.visible_text@ == focused_text(
        qv,
        string_views(view.text_blocks@),
        old(view).visible_text@,
        max_length,
    ));
    // Final byte cap, at a character boundary.
    if let Some(m) = max_length {
        let tv = chars_of(view.visible_text.as_str());
        let over = match utf8_size_checked(tv.as_slice()) {
            Some(size) => size > m,
            None => true,
        };
        if over {
            view.visible_text = utf8_truncate(view.visible_text.as_str(), m);
        }
    }
    relevant
}

// ── Element limit and pages ──────────────────────────────────────────

/// Most elements an extraction returns.
pub const EXTRACT_LIMIT_HARD_CAP: u32 = 200;

/// The pattern of a leading count in a query (`top 5`, `first 3`,
/// `best 10`, `primeiros 3`, `melhores 5`).
pub open spec fn numeral_pattern() -> Seq<char> {
    "(?i)\\b(?:top|first|primeir[oa]s?|best|melhores)\\s+(\\d+)\\b"@
}

/// A limit clamped to 1 ..= 200.
pub open spec fn clamp_limit(n: u32) -> u32 {
    if n > EXTRACT_LIMIT_HARD_CAP {
        EXTRACT_LIMIT_HARD_CAP
    } else if n < 1 {
        1
    } else {
        n
    }
}

/// The effective element limit and whether the caller asked for more than
/// the cap: an explicit nonzero limit, clamped; else, in strict mode, a
/// nonzero count read from the query, clamped; else no limit.
pub open spec fn extract_limit_of(explicit: Option<u32>, strict: bool, what: Seq<char>) -> (Option<u32>, bool) {
    match explicit {
        Some(n) if n > 0 => (Some(clamp_limit(n)), n > clamp_limit(n)),
        _ => if !strict || what.len() == 0 {
            (None, false)
        } else {
            match regex_group(numeral_pattern(), what, 1) {
                Some(Some(d)) => match parse_u32(d) {
                    Some(n) => if n > 0 {
                        (Some(clamp_limit(n)), false)
                    } else {
                        (None, false)
                    },
                    None => (None, false),
                },
                _ => (None, false),
            }
        },
    }
}

fn clamp_limit_exec(n: u32) -> (r: u32)
    ensures
        r == clamp_limit(n),
{
    if n > EXTRACT_LIMIT_HARD_CAP {
        EXTRACT_LIMIT_HARD_CAP
    } else if n < 1 {
        1
    } else {
        n
    }
}

/// Resolve the effective element limit of an extraction: an explicit
/// `limit` (0 meaning none) wins, clamped to 1..=200, with a flag when it
/// asked for more; otherwise, in strict mode, a count like `top 5` in the
/// query; otherwise no limit.
pub fn resolve_extract_limit(explicit: Option<u32>, strict: bool, what: &str) -> (r: (Option<u32>, bool))
    ensures
        r == extract_limit_of(explicit, strict, what@),
{
    if let Some(n) = explicit {
        if n > 0 {
            let clamped = clamp_limit_exec(n);
            return (Some(clamped), n > clamped);
        }
    }
    if !strict || what.is_empty() {
        return (None, false);
    }
    match regex_capture("(?i)\\b(?:top|first|primeir[oa]s?|best|melhores)\\s+(\\d+)\\b", what, 1) {
        Some(Some(d)) => {
            let dv = chars_of(d.as_str());
            match parse_u32_exec(dv.as_slice()) {
                Some(n) => if n > 0 {
                    (Some(clamp_limit_exec(n)), false)
                } else {
                    (None, false)
                },
                None => (None, false),
            }
        },
        _ => (None, false),
    }
}

/// The page of elements to return: `(start, end, page, total_pages)` for
/// `total` elements, the requested page clamped to the last one, pages of
/// `page_size` (at least 1) elements.
pub open spec fn page_bounds_of(total: nat, page: nat, page_size: nat) -> (nat, nat, nat, nat) {
    let size = if page_size < 1 { 1 } else { page_size };
    let total_pages: nat = if total == 0 || size >= total {
        1
    } else {
        ((total + size - 1) as nat / size) as nat
    };
    let clamped: nat = if page < total_pages - 1 { page } else { (total_pages - 1) as nat };
    let start = clamped * size;
    let end = if start + size < total { start + size } else { total };
    (start, end, clamped, total_pages)
}

/// The bounds of the requested page of `total` elements.
pub fn page_bounds(total: usize, page: u32, page_size: u32) -> (r: (usize, usize, u32, u32))
    requires
        total <= u32::MAX,
    ensures
        (r.0 as nat, r.1 as nat, r.2 as nat, r.3 as nat) == page_bounds_of(total as nat, page as nat, page_size as nat),
        r.0 <= r.1 <= total,
{
    let size: usize = if page_size < 1 {
        1
    } else {
        page_size as usize
    };
    let total_pages: usize = if total == 0 || size >= total {
        1
    } else {
        let q = (total - 1) / size + 1;
        proof {
            assert(((total + size - 1) as nat / size as nat) == (total - 1) as int / size as int + 1) by (nonlinear_arith)
                requires
                    size >= 1,
                    total >= 1,
            ;
            assert(q <= total) by (nonlinear_arith)
                requires
                    size >= 1,
                    total >= 1,
                    q == (total - 1) as int / size as int + 1,
            ;
        }
        q
    };
    let clamped: usize = if (page as usize) < total_pages - 1 {
        page as usize
    } else {
        total_pages - 1
    };
    proof {
        if total == 0 || size >= total {
            assert(clamped * size <= total) by (nonlinear_arith)
                requires
                    clamped == 0,
            ;
        } else {
            assert(clamped * size <= total) by (nonlinear_arith)
                requires
                    size >= 1,
                    total >= 1,
                    clamped <= total_pages - 1,
                    total_pages == (total - 1) as int / size as int + 1,
            ;
        }
    }
    let start = clamped * size;
    let end = if size < total - start {
        start + size
    } else {
        total
    };
    (start, end, clamped as u32, total_pages as u32)
}

} // verus!
