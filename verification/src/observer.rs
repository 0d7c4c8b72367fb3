//! Diffing two semantic views: which elements appeared, disappeared or
//! changed, with a human-readable note for each event.
use vstd::prelude::*;

use crate::semantic::{blen, copy_element, models, Element, ElementModel, SemanticView};
use crate::text::{opt_view, push_str, string_views};

verus! {

/// Result of diffing two `SemanticView`s.
#[derive(Debug, Clone)]
pub struct SemanticDiff {
    pub added: Vec<Element>,
    pub removed: Vec<Element>,
    /// Pairs of (old element, new element).
    pub changed: Vec<(Element, Element)>,
    pub notifications: Vec<String>,
}

/// The last element of `els` with the given id: the one an id-keyed map
/// built from `els` in order keeps.
pub open spec fn last_with_id(els: Seq<Element>, id: u32) -> Option<Element>
    decreases els.len(),
{
    if els.len() == 0 {
        None
    } else if els.last().id == id {
        Some(els.last())
    } else {
        last_with_id(els.drop_last(), id)
    }
}

/// Some element of `els` has the given id.
pub open spec fn has_id(els: Seq<Element>, id: u32) -> bool {
    exists|i: int| 0 <= i < els.len() && els[i].id == id
}

/// The input value differs.
pub open spec fn value_changed(o: Element, n: Element) -> bool {
    opt_view(o.value) != opt_view(n.value)
}

/// The value or the disabled flag differs.
pub open spec fn differs(o: Element, n: Element) -> bool {
    value_changed(o, n) || o.disabled != n.disabled
}

/// `pre` + `'label'` + `post`.
pub open spec fn quoted_label(pre: Seq<char>, label: Seq<char>, post: Seq<char>) -> Seq<char> {
    pre + "'"@ + label + "'"@ + post
}

/// Notes for one element of the new view, given the old element with its
/// id, if any.
pub open spec fn element_notes(prev: Option<Element>, n: Element) -> Seq<Seq<char>> {
    match prev {
        None => seq![quoted_label("New element appeared: "@, n.label@, seq![])],
        Some(o) => {
            let value_note = if !value_changed(o, n) {
                seq![]
            } else if o.value is None && n.value is Some {
                seq![quoted_label("Text added to "@, n.label@, seq![])]
            } else {
                seq![quoted_label("Text changed in "@, n.label@, seq![])]
            };
            let state_note = if o.disabled == n.disabled {
                seq![]
            } else if n.disabled {
                seq![quoted_label("Element "@, n.label@, " disabled"@)]
            } else {
                seq![quoted_label("Element "@, n.label@, " enabled"@)]
            };
            value_note + state_note
        },
    }
}

/// Elements of `new` whose id does not occur in `old`, in order.
pub open spec fn added_of(old: Seq<Element>, new: Seq<Element>) -> Seq<Element>
    decreases new.len(),
{
    if new.len() == 0 {
        seq![]
    } else {
        let rest = added_of(old, new.drop_last());
        if last_with_id(old, new.last().id) is None {
            rest.push(new.last())
        } else {
            rest
        }
    }
}

/// (old, new) pairs of the elements of `new` whose id occurs in `old` and
/// whose value or disabled flag differs, in the order of `new`.
pub open spec fn changed_of(old: Seq<Element>, new: Seq<Element>) -> Seq<(Element, Element)>
    decreases new.len(),
{
    if new.len() == 0 {
        seq![]
    } else {
        let rest = changed_of(old, new.drop_last());
        match last_with_id(old, new.last().id) {
            Some(o) => if differs(o, new.last()) {
                rest.push((o, new.last()))
            } else {
                rest
            },
            None => rest,
        }
    }
}

/// Elements of `old` whose id does not occur in `new`, in order.
pub open spec fn removed_of(old: Seq<Element>, new: Seq<Element>) -> Seq<Element>
    decreases old.len(),
{
    if old.len() == 0 {
        seq![]
    } else {
        let rest = removed_of(old.drop_last(), new);
        if has_id(new, old.last().id) {
            rest
        } else {
            rest.push(old.last())
        }
    }
}

/// Notes for the elements of `new`, in order.
pub open spec fn arrival_notes(old: Seq<Element>, new: Seq<Element>) -> Seq<Seq<char>>
    decreases new.len(),
{
    if new.len() == 0 {
        seq![]
    } else {
        arrival_notes(old, new.drop_last()) + element_notes(
            last_with_id(old, new.last().id),
            new.last(),
        )
    }
}

/// One note per removed element.
pub open spec fn removal_notes(removed: Seq<Element>) -> Seq<Seq<char>> {
    removed.map_values(|e: Element| quoted_label("Element removed: "@, e.label@, seq![]))
}

/// Notes on the page as a whole: a visible-text change of more than ten
/// bytes, and a title change.
pub open spec fn page_notes(old: SemanticView, new: SemanticView) -> Seq<Seq<char>> {
    let a = blen(old.visible_text) as int;
    let b = blen(new.visible_text) as int;
    let text_note = if old.visible_text@ != new.visible_text@ && (a - b > 10 || b - a > 10) {
        seq!["Visible text on page changed noticeably"@]
    } else {
        seq![]
    };
    let title_note = if old.title@ != new.title@ {
        seq![quoted_label("Title changed to "@, new.title@, seq![])]
    } else {
        seq![]
    };
    text_note + title_note
}

/// All notes of a diff, in the order they are emitted.
pub open spec fn diff_notes(old: SemanticView, new: SemanticView) -> Seq<Seq<char>> {
    arrival_notes(old.elements@, new.elements@) + removal_notes(
        removed_of(old.elements@, new.elements@),
    ) + page_notes(old, new)
}

/// Models of (old, new) pairs.
pub open spec fn pair_models(s: Seq<(Element, Element)>) -> Seq<(ElementModel, ElementModel)> {
    s.map_values(|p: (Element, Element)| (p.0@, p.1@))
}

/// No two elements share an id.
pub open spec fn unique_ids(els: Seq<Element>) -> bool {
    forall|i: int, j: int| 0 <= i < j < els.len() ==> els[i].id != els[j].id
}

proof fn lemma_last_with_id_unique(els: Seq<Element>, i: int)
    requires
        unique_ids(els),
        0 <= i < els.len(),
    ensures
        last_with_id(els, els[i].id) == Some(els[i]),
    decreases els.len(),
{
    if i < els.len() - 1 {
        assert(els.last().id != els[i].id);
        lemma_last_with_id_unique(els.drop_last(), i);
    }
}

proof fn lemma_self_arrivals(els: Seq<Element>, n: nat)
    requires
        unique_ids(els),
        n <= els.len(),
    ensures
        added_of(els, els.take(n as int)) == Seq::<Element>::empty(),
        changed_of(els, els.take(n as int)) == Seq::<(Element, Element)>::empty(),
        arrival_notes(els, els.take(n as int)) == Seq::<Seq<char>>::empty(),
    decreases n,
{
    if n > 0 {
        let p = els.take(n as int);
        assert(p.drop_last() =~= els.take(n - 1));
        lemma_self_arrivals(els, (n - 1) as nat);
        lemma_last_with_id_unique(els, n - 1);
        assert(p.last() == els[n - 1]);
        assert(element_notes(Some(els[n - 1]), els[n - 1]) =~= Seq::<Seq<char>>::empty());
        assert(arrival_notes(els, p) =~= Seq::<Seq<char>>::empty());
    } else {
        assert(els.take(0) =~= Seq::<Element>::empty());
    }
}

proof fn lemma_none_removed(p: Seq<Element>, els: Seq<Element>)
    requires
        forall|j: int| 0 <= j < p.len() ==> has_id(els, #[trigger] p[j].id),
    ensures
        removed_of(p, els) == Seq::<Element>::empty(),
    decreases p.len(),
{
    if p.len() > 0 {
        assert(has_id(els, p[p.len() - 1].id));
        lemma_none_removed(p.drop_last(), els);
    }
}

/// Diffing a view against itself reports nothing: no element is added,
/// removed or changed, and there are no notes (element ids distinct).
pub proof fn lemma_diff_self_is_empty(v: SemanticView)
    requires
        unique_ids(v.elements@),
    ensures
        added_of(v.elements@, v.elements@) == Seq::<Element>::empty(),
        removed_of(v.elements@, v.elements@) == Seq::<Element>::empty(),
        changed_of(v.elements@, v.elements@) == Seq::<(Element, Element)>::empty(),
        diff_notes(v, v) == Seq::<Seq<char>>::empty(),
{
    let els = v.elements@;
    lemma_self_arrivals(els, els.len());
    assert(els.take(els.len() as int) =~= els);
    assert forall|j: int| 0 <= j < els.len() implies has_id(els, #[trigger] els[j].id) by {}
    lemma_none_removed(els, els);
    assert(removal_notes(Seq::<Element>::empty()) =~= Seq::<Seq<char>>::empty());
    assert(diff_notes(v, v) =~= Seq::<Seq<char>>::empty());
}

/// An element with the id is found exactly when the id occurs.
proof fn lemma_last_with_id_has(els: Seq<Element>, id: u32)
    ensures
        last_with_id(els, id) is Some <==> has_id(els, id),
    decreases els.len(),
{
    if els.len() > 0 {
        lemma_last_with_id_has(els.drop_last(), id);
        if els.last().id != id && has_id(els, id) {
            let i = choose|i: int| 0 <= i < els.len() && els[i].id == id;
            assert(els.drop_last()[i] == els[i]);
        }
        if has_id(els.drop_last(), id) {
            let i = choose|i: int| 0 <= i < els.len() - 1 && els.drop_last()[i].id == id;
            assert(els[i] == els.drop_last()[i]);
        }
    }
}

/// Diffing the other way round swaps arrivals and departures: the elements
/// added going from `a` to `b` are those removed going from `b` to `a`, in
/// the same order.
pub proof fn lemma_diff_reversed_swaps_added_removed(a: Seq<Element>, b: Seq<Element>)
    ensures
        added_of(a, b) == removed_of(b, a),
    decreases b.len(),
{
    if b.len() > 0 {
        lemma_diff_reversed_swaps_added_removed(a, b.drop_last());
        lemma_last_with_id_has(a, b.last().id);
    }
}

/// An element kept by id whose input value or disabled flag differs is
/// reported changed, as its (old, new) pair; and every reported pair is such
/// an element: the same id in both views, with a different value or
/// disabled flag (element ids distinct in the old view).
#[verifier::spinoff_prover]
pub proof fn lemma_changed_pairs(before: Seq<Element>, after: Seq<Element>)
    requires
        unique_ids(before),
    ensures
        forall|j: int, k: int|
            0 <= j < after.len() && 0 <= k < before.len() && before[k].id == after[j].id && (
            before[k].disabled != after[j].disabled || opt_view(before[k].value) != opt_view(
                after[j].value,
            )) ==> #[trigger] changed_of(before, after).contains((before[k], after[j])),
        forall|p: (Element, Element)|
            #[trigger] changed_of(before, after).contains(p) ==> exists|j: int, k: int|
                0 <= j < after.len() && 0 <= k < before.len() && p == (before[k], after[j])
                    && before[k].id == after[j].id && (before[k].disabled != after[j].disabled
                    || opt_view(before[k].value) != opt_view(after[j].value)),
    decreases after.len(),
{
    if after.len() > 0 {
        let front = after.drop_last();
        lemma_changed_pairs(before, front);
        let n = after.last();
        let prev = changed_of(before, front);
        let cur = changed_of(before, after);
        assert forall|j: int, k: int|
            0 <= j < after.len() && 0 <= k < before.len() && before[k].id == after[j].id && (
            before[k].disabled != after[j].disabled || opt_view(before[k].value) != opt_view(
                after[j].value,
            )) implies #[trigger] cur.contains((before[k], after[j])) by {
            if j < after.len() - 1 {
                assert(front[j] == after[j]);
                assert(prev.contains((before[k], front[j])));
                let t = choose|t: int| 0 <= t < prev.len() && prev[t] == (before[k], front[j]);
                if cur != prev {
                    assert(cur == prev.push((last_with_id(before, n.id)->Some_0, n)));
                    assert(cur[t] == prev[t]);
                }
            } else {
                lemma_last_with_id_unique(before, k);
                assert(cur == prev.push((before[k], n)));
                assert(cur[prev.len() as int] == (before[k], n));
            }
        }
        assert forall|p: (Element, Element)| #[trigger] cur.contains(p) implies exists|j: int, k: int|
            0 <= j < after.len() && 0 <= k < before.len() && p == (before[k], after[j])
                && before[k].id == after[j].id && (before[k].disabled != after[j].disabled
                || opt_view(before[k].value) != opt_view(after[j].value)) by {
            let t = choose|t: int| 0 <= t < cur.len() && cur[t] == p;
            if t < prev.len() {
                if cur != prev {
                    assert(cur == prev.push((last_with_id(before, n.id)->Some_0, n)));
                }
                assert(cur[t] == prev[t]);
                assert(prev.contains(p));
                let (j, k) = choose|j: int, k: int|
                    0 <= j < front.len() && 0 <= k < before.len() && p == (before[k], front[j])
                        && before[k].id == front[j].id && (before[k].disabled != front[j].disabled
                        || opt_view(before[k].value) != opt_view(front[j].value));
                assert(front[j] == after[j]);
            } else {
                lemma_last_with_id_found(before, n.id);
                let k = choose|k: int| 0 <= k < before.len() && last_with_id(before, n.id) == Some(before[k]);
                assert(p == (before[k], after[after.len() - 1]));
            }
        }
    }
}

/// What `last_with_id` finds is an element of the sequence with that id.
proof fn lemma_last_with_id_found(els: Seq<Element>, id: u32)
    ensures
        last_with_id(els, id) matches Some(e) ==> exists|k: int| 0 <= k < els.len() && els[k] == e
            && e.id == id && last_with_id(els, id) == Some(els[k]),
    decreases els.len(),
{
    if els.len() > 0 && els.last().id != id {
        lemma_last_with_id_found(els.drop_last(), id);
        if let Some(e) = last_with_id(els.drop_last(), id) {
            let k = choose|k: int| 0 <= k < els.len() - 1 && els.drop_last()[k] == e && e.id == id;
            assert(els[k] == e);
        }
    } else if els.len() > 0 {
        assert(els[els.len() - 1] == els.last());
    }
}

/// The elements reported added are exactly those of the new view whose id
/// no element of the old view has.
#[verifier::spinoff_prover]
pub proof fn lemma_added_members(before: Seq<Element>, after: Seq<Element>)
    ensures
        forall|j: int|
            0 <= j < after.len() && (forall|k: int|
                0 <= k < before.len() ==> before[k].id != after[j].id) ==> #[trigger] added_of(
                before,
                after,
            ).contains(after[j]),
        forall|x: Element| #[trigger]
            added_of(before, after).contains(x) ==> exists|j: int|
                0 <= j < after.len() && after[j] == x && forall|k: int|
                    0 <= k < before.len() ==> before[k].id != x.id,
    decreases after.len(),
{
    if after.len() > 0 {
        let front = after.drop_last();
        lemma_added_members(before, front);
        let n = after.last();
        lemma_last_with_id_has(before, n.id);
        let prev = added_of(before, front);
        let cur = added_of(before, after);
        assert forall|j: int|
            0 <= j < after.len() && (forall|k: int|
                0 <= k < before.len() ==> before[k].id != after[j].id) implies #[trigger] cur.contains(
            after[j]) by {
            if j < after.len() - 1 {
                assert(front[j] == after[j]);
                assert(prev.contains(front[j]));
                let t = choose|t: int| 0 <= t < prev.len() && prev[t] == front[j];
                if cur != prev {
                    assert(cur == prev.push(n));
                    assert(cur[t] == prev[t]);
                }
            } else {
                assert(!has_id(before, n.id));
                assert(cur == prev.push(n));
                assert(cur[prev.len() as int] == n);
            }
        }
        assert forall|x: Element| #[trigger] cur.contains(x) implies exists|j: int|
            0 <= j < after.len() && after[j] == x && forall|k: int|
                0 <= k < before.len() ==> before[k].id != x.id by {
            let t = choose|t: int| 0 <= t < cur.len() && cur[t] == x;
            if t < prev.len() {
                if cur != prev {
                    assert(cur == prev.push(n));
                }
                assert(cur[t] == prev[t]);
                assert(prev.contains(x));
                let j = choose|j: int|
                    0 <= j < front.len() && front[j] == x && forall|k: int|
                        0 <= k < before.len() ==> before[k].id != x.id;
                assert(after[j] == front[j]);
            } else {
                assert(cur == prev.push(n));
                assert(x == n);
                assert(after[after.len() - 1] == n);
            }
        }
    }
}

/// The elements reported removed are exactly those of the old view whose
/// id no element of the new view has.
#[verifier::spinoff_prover]
pub proof fn lemma_removed_members(before: Seq<Element>, after: Seq<Element>)
    ensures
        forall|k: int|
            0 <= k < before.len() && (forall|j: int|
                0 <= j < after.len() ==> after[j].id != before[k].id) ==> #[trigger] removed_of(
                before,
                after,
            ).contains(before[k]),
        forall|x: Element| #[trigger]
            removed_of(before, after).contains(x) ==> exists|k: int|
                0 <= k < before.len() && before[k] == x && forall|j: int|
                    0 <= j < after.len() ==> after[j].id != x.id,
    decreases before.len(),
{
    if before.len() > 0 {
        let front = before.drop_last();
        lemma_removed_members(front, after);
        let o = before.last();
        let prev = removed_of(front, after);
        let cur = removed_of(before, after);
        assert forall|k: int|
            0 <= k < before.len() && (forall|j: int|
                0 <= j < after.len() ==> after[j].id != before[k].id) implies #[trigger] cur.contains(
            before[k]) by {
            if k < before.len() - 1 {
                assert(front[k] == before[k]);
                assert(prev.contains(front[k]));
                let t = choose|t: int| 0 <= t < prev.len() && prev[t] == front[k];
                if cur != prev {
                    assert(cur == prev.push(o));
                    assert(cur[t] == prev[t]);
                }
            } else {
                assert(!has_id(after, o.id));
                assert(cur == prev.push(o));
                assert(cur[prev.len() as int] == o);
            }
        }
        assert forall|x: Element| #[trigger] cur.contains(x) implies exists|k: int|
            0 <= k < before.len() && before[k] == x && forall|j: int|
                0 <= j < after.len() ==> after[j].id != x.id by {
            let t = choose|t: int| 0 <= t < cur.len() && cur[t] == x;
            if t < prev.len() {
                if cur != prev {
                    assert(cur == prev.push(o));
                }
                assert(cur[t] == prev[t]);
                assert(prev.contains(x));
                let k = choose|k: int|
                    0 <= k < front.len() && front[k] == x && forall|j: int|
                        0 <= j < after.len() ==> after[j].id != x.id;
                assert(before[k] == front[k]);
            } else {
                assert(cur == prev.push(o));
                assert(x == o);
                assert(!has_id(after, o.id));
                assert(before[before.len() - 1] == o);
            }
        }
    }
}

/// Every note made for an element of the new view is among the arrival notes.
proof fn lemma_arrival_notes_cover(before: Seq<Element>, after: Seq<Element>, j: int)
    requires
        0 <= j < after.len(),
    ensures
        forall|x: Seq<char>|
            #[trigger] element_notes(last_with_id(before, after[j].id), after[j]).contains(x)
                ==> arrival_notes(before, after).contains(x),
    decreases after.len(),
{
    let front = after.drop_last();
    let own = element_notes(last_with_id(before, after.last().id), after.last());
    let all = arrival_notes(before, after);
    assert(all == arrival_notes(before, front) + own);
    if j < after.len() - 1 {
        lemma_arrival_notes_cover(before, front, j);
        assert(front[j] == after[j]);
        assert forall|x: Seq<char>|
            #[trigger] element_notes(last_with_id(before, after[j].id), after[j]).contains(x)
                implies all.contains(x) by {
            let t = choose|t: int|
                0 <= t < arrival_notes(before, front).len() && arrival_notes(before, front)[t] == x;
            assert(all[t] == x);
        }
    } else {
        assert forall|x: Seq<char>| #[trigger] own.contains(x) implies all.contains(x) by {
            let t = choose|t: int| 0 <= t < own.len() && own[t] == x;
            assert(all[arrival_notes(before, front).len() + t] == x);
        }
    }
}

/// The notes of a diff name each event, with the element's label quoted:
/// an element whose id is new `New element appeared: 'L'`; one found again
/// by id that became disabled `Element 'L' disabled`, enabled
/// `Element 'L' enabled`, that got a value `Text added to 'L'`, whose value
/// changed otherwise `Text changed in 'L'` (element ids distinct in the old
/// view).
#[verifier::spinoff_prover]
pub proof fn lemma_diff_notes_name_events(before: SemanticView, after: SemanticView, j: int)
    requires
        unique_ids(before.elements@),
        0 <= j < after.elements@.len(),
    ensures
        (forall|k: int|
            0 <= k < before.elements@.len() ==> before.elements@[k].id != after.elements@[j].id)
            ==> diff_notes(before, after).contains(
            "New element appeared: '"@ + after.elements@[j].label@ + "'"@,
        ),
        forall|k: int|
            0 <= k < before.elements@.len() && #[trigger] before.elements@[k].id
                == after.elements@[j].id ==> {
                let was = before.elements@[k];
                let now = after.elements@[j];
                let notes = diff_notes(before, after);
                &&& (!was.disabled && now.disabled) ==> notes.contains(
                    "Element '"@ + now.label@ + "' disabled"@,
                )
                &&& (was.disabled && !now.disabled) ==> notes.contains(
                    "Element '"@ + now.label@ + "' enabled"@,
                )
                &&& (was.value is None && now.value is Some) ==> notes.contains(
                    "Text added to '"@ + now.label@ + "'"@,
                )
                &&& (was.value is Some && opt_view(was.value) != opt_view(now.value)) ==> notes.contains(
                    "Text changed in '"@ + now.label@ + "'"@,
                )
            },
{
    reveal_strlit("New element appeared: '");
    reveal_strlit("New element appeared: ");
    reveal_strlit("'");
    reveal_strlit("Element '");
    reveal_strlit("Element ");
    reveal_strlit("' disabled");
    reveal_strlit("' enabled");
    reveal_strlit(" disabled");
    reveal_strlit(" enabled");
    reveal_strlit("Text added to '");
    reveal_strlit("Text added to ");
    reveal_strlit("Text changed in '");
    reveal_strlit("Text changed in ");
    let b = before.elements@;
    let a = after.elements@;
    let now = a[j];
    let notes = diff_notes(before, after);
    let arrivals = arrival_notes(b, a);
    let rest = removal_notes(removed_of(b, a)) + page_notes(before, after);
    assert(notes =~= arrivals + rest);
    lemma_arrival_notes_cover(b, a, j);
    assert forall|x: Seq<char>| arrivals.contains(x) implies notes.contains(x) by {
        let t = choose|t: int| 0 <= t < arrivals.len() && arrivals[t] == x;
        assert(notes[t] == x);
    }
    let own = element_notes(last_with_id(b, now.id), now);
    if forall|k: int| 0 <= k < b.len() ==> b[k].id != now.id {
        lemma_last_with_id_has(b, now.id);
        let msg = quoted_label("New element appeared: "@, now.label@, seq![]);
        assert(own == seq![msg]);
        assert(own[0] == msg);
        assert(msg =~= "New element appeared: '"@ + now.label@ + "'"@);
        assert(own.contains(msg));
        assert(arrivals.contains(msg));
    }
    assert forall|k: int|
        0 <= k < b.len() && #[trigger] b[k].id == now.id implies {
            let was = b[k];
            &&& (!was.disabled && now.disabled) ==> notes.contains(
                "Element '"@ + now.label@ + "' disabled"@,
            )
            &&& (was.disabled && !now.disabled) ==> notes.contains(
                "Element '"@ + now.label@ + "' enabled"@,
            )
            &&& (was.value is None && now.value is Some) ==> notes.contains(
                "Text added to '"@ + now.label@ + "'"@,
            )
            &&& (was.value is Some && opt_view(was.value) != opt_view(now.value)) ==> notes.contains(
                "Text changed in '"@ + now.label@ + "'"@,
            )
        } by {
        let was = b[k];
        lemma_last_with_id_unique(b, k);
        let vn = if !value_changed(was, now) {
            Seq::<Seq<char>>::empty()
        } else if was.value is None && now.value is Some {
            seq![quoted_label("Text added to "@, now.label@, seq![])]
        } else {
            seq![quoted_label("Text changed in "@, now.label@, seq![])]
        };
        let sn = if was.disabled == now.disabled {
            Seq::<Seq<char>>::empty()
        } else if now.disabled {
            seq![quoted_label("Element "@, now.label@, " disabled"@)]
        } else {
            seq![quoted_label("Element "@, now.label@, " enabled"@)]
        };
        assert(own == vn + sn);
        if was.disabled != now.disabled {
            let m = sn[0];
            assert(own[vn.len() as int] == m);
            assert(own.contains(m));
            assert(arrivals.contains(m));
            assert(quoted_label("Element "@, now.label@, " disabled"@) =~= "Element '"@ + now.label@
                + "' disabled"@);
            assert(quoted_label("Element "@, now.label@, " enabled"@) =~= "Element '"@ + now.label@
                + "' enabled"@);
        }
        if was.value is None && now.value is Some {
            assert(value_changed(was, now));
        }
        if value_changed(was, now) {
            let m = vn[0];
            assert(own[0] == m);
            assert(own.contains(m));
            assert(arrivals.contains(m));
            assert(quoted_label("Text added to "@, now.label@, seq![]) =~= "Text added to '"@
                + now.label@ + "'"@);
            assert(quoted_label("Text changed in "@, now.label@, seq![]) =~= "Text changed in '"@
                + now.label@ + "'"@);
        }
    }
}

/// An element of the old view whose id the new view lacks is noted
/// `Element removed: 'L'`, with its label.
pub proof fn lemma_diff_notes_name_removals(before: SemanticView, after: SemanticView, k: int)
    requires
        0 <= k < before.elements@.len(),
        forall|j: int|
            0 <= j < after.elements@.len() ==> after.elements@[j].id != before.elements@[k].id,
    ensures
        diff_notes(before, after).contains(
            "Element removed: '"@ + before.elements@[k].label@ + "'"@,
        ),
{
    reveal_strlit("Element removed: '");
    reveal_strlit("Element removed: ");
    reveal_strlit("'");
    let b = before.elements@;
    let a = after.elements@;
    let gone = removed_of(b, a);
    lemma_removed_members(b, a);
    assert(gone.contains(b[k]));
    let t = choose|t: int| 0 <= t < gone.len() && gone[t] == b[k];
    let rn = removal_notes(gone);
    let msg = quoted_label("Element removed: "@, b[k].label@, seq![]);
    assert(rn[t] == msg);
    assert(msg =~= "Element removed: '"@ + b[k].label@ + "'"@);
    let notes = diff_notes(before, after);
    let arrivals = arrival_notes(b, a);
    assert(notes =~= arrivals + rn + page_notes(before, after));
    assert(notes[arrivals.len() + t] == msg);
}

/// Index of the last element with the given id.
fn find_last_id(els: &Vec<Element>, id: u32) -> (r: Option<usize>)
    ensures
        match r {
            Some(k) => k < els@.len() && last_with_id(els@, id) == Some(els@[k as int]),
            None => last_with_id(els@, id) is None,
        },
{
    let mut k: usize = els.len();
    assert(els@.take(els@.len() as int) =~= els@);
    while k > 0
        invariant
            k <= els@.len(),
            last_with_id(els@, id) == last_with_id(els@.take(k as int), id),
        decreases k,
    {
        proof {
            assert(els@.take(k as int).drop_last() =~= els@.take(k - 1));
        }
        if els[k - 1].id == id {
            return Some(k - 1);
        }
        k = k - 1;
    }
    None
}

fn has_id_exec(els: &Vec<Element>, id: u32) -> (b: bool)
    ensures
        b == has_id(els@, id),
{
    let mut i: usize = 0;
    while i < els.len()
        invariant
            i <= els@.len(),
            forall|j: int| 0 <= j < i ==> els@[j].id != id,
        decreases els@.len() - i,
    {
        if els[i].id == id {
            return true;
        }
        i = i + 1;
    }
    false
}

fn opt_string_eq(a: &Option<String>, b: &Option<String>) -> (r: bool)
    ensures
        r == (opt_view(*a) == opt_view(*b)),
{
    match (a, b) {
        (Some(x), Some(y)) => crate::text::str_eq(x.as_str(), y.as_str()),
        (None, None) => true,
        _ => false,
    }
}

fn label_note(pre: &str, label: &str, post: &str) -> (r: String)
    ensures
        r@ == quoted_label(pre@, label@, post@),
{
    let mut s = String::new();
    push_str(&mut s, pre);
    push_str(&mut s, "'");
    push_str(&mut s, label);
    push_str(&mut s, "'");
    push_str(&mut s, post);
    proof {
        reveal_strlit("'");
    }
    assert(s@ =~= quoted_label(pre@, label@, post@));
    s
}

proof fn lemma_removed_step(old: Seq<Element>, new: Seq<Element>, i: int)
    requires
        0 <= i < old.len(),
    ensures
        removed_of(old.take(i + 1), new) == (if has_id(new, old[i].id) {
            removed_of(old.take(i), new)
        } else {
            removed_of(old.take(i), new).push(old[i])
        }),
{
    assert(old.take(i + 1).drop_last() =~= old.take(i));
}

/// Diff two semantic views, matching elements by id: the added, removed
/// and changed elements, and a note for each event.
pub fn diff(old: &SemanticView, new: &SemanticView) -> (d: SemanticDiff)
    requires
        blen(old.visible_text) <= usize::MAX,
        blen(new.visible_text) <= usize::MAX,
    ensures
        models(d.added@) == models(added_of(old.elements@, new.elements@)),
        models(d.removed@) == models(removed_of(old.elements@, new.elements@)),
        pair_models(d.changed@) == pair_models(changed_of(old.elements@, new.elements@)),
        string_views(d.notifications@) == diff_notes(*old, *new),
{
    let mut added: Vec<Element> = Vec::new();
    let mut removed: Vec<Element> = Vec::new();
    let mut changed: Vec<(Element, Element)> = Vec::new();
    let mut notifications: Vec<String> = Vec::new();
    let ghost olds = old.elements@;
    let ghost news = new.elements@;

    let mut i: usize = 0;
    while i < new.elements.len()
        invariant
            olds == old.elements@,
            news == new.elements@,
            i <= news.len(),
            models(added@) == models(added_of(olds, news.take(i as int))),
            pair_models(changed@) == pair_models(changed_of(olds, news.take(i as int))),
            string_views(notifications@) == arrival_notes(olds, news.take(i as int)),
        decreases news.len() - i,
    {
        let ghost pre = news.take(i as int);
        let ghost cur = news.take(i + 1);
        proof {
            assert(cur.drop_last() =~= pre);
            assert(cur.last() == news[i as int]);
        }
        let new_el = &new.elements[i];
        let ghost prev = last_with_id(olds, new_el.id);
        let ghost notes0 = notifications@;
        match find_last_id(&old.elements, new_el.id) {
            Some(k) => {
                let old_el = &old.elements[k];
                let same_value = opt_string_eq(&old_el.value, &new_el.value);
                if !same_value {
                    let note = if old_el.value.is_none() && new_el.value.is_some() {
                        label_note("Text added to ", new_el.label.as_str(), "")
                    } else {
                        label_note("Text changed in ", new_el.label.as_str(), "")
                    };
                    notifications.push(note);
                }
                let ghost notes1 = notifications@;
                if old_el.disabled != new_el.disabled {
                    let note = if new_el.disabled {
                        label_note("Element ", new_el.label.as_str(), " disabled")
                    } else {
                        label_note("Element ", new_el.label.as_str(), " enabled")
                    };
                    notifications.push(note);
                }
                proof {
                    reveal_strlit("");
                    assert(string_views(notifications@) =~= string_views(notes0)
                        + element_notes(prev, *new_el));
                }
                if !same_value || old_el.disabled != new_el.disabled {
                    let ghost before = changed@;
                    let pair = (copy_element(old_el), copy_element(new_el));
                    changed.push(pair);
                    assert(pair_models(changed@) =~= pair_models(before).push(
                        (old_el@, new_el@),
                    ));
                }
            },
            None => {
                let ghost before = added@;
                let c = copy_element(new_el);
                added.push(c);
                assert(models(added@) =~= models(before).push(new_el@));
                let note = label_note("New element appeared: ", new_el.label.as_str(), "");
                notifications.push(note);
                proof {
                    reveal_strlit("");
                    assert(string_views(notifications@) =~= string_views(notes0)
                        + element_notes(prev, *new_el));
                }
            },
        }
        proof {
            assert(pair_models(changed_of(olds, cur)) =~= if prev matches Some(o) && differs(
                o,
                *new_el,
            ) {
                pair_models(changed_of(olds, pre)).push((prev.unwrap()@, new_el@))
            } else {
                pair_models(changed_of(olds, pre))
            });
            assert(models(added_of(olds, cur)) =~= if prev is None {
                models(added_of(olds, pre)).push(new_el@)
            } else {
                models(added_of(olds, pre))
            });
        }
        i = i + 1;
    }
    assert(news.take(news.len() as int) =~= news);
    let ghost arrivals = notifications@;

    let mut j: usize = 0;
    while j < old.elements.len()
        invariant
            olds == old.elements@,
            news == new.elements@,
            j <= olds.len(),
            models(removed@) == models(removed_of(olds.take(j as int), news)),
            string_views(notifications@) == string_views(arrivals) + removal_notes(
                removed_of(olds.take(j as int), news),
            ),
        decreases olds.len() - j,
    {
        proof {
            lemma_removed_step(olds, news, j as int);
        }
        let old_el = &old.elements[j];
        if !has_id_exec(&new.elements, old_el.id) {
            let ghost before = removed@;
            let ghost notes0 = notifications@;
            let c = copy_element(old_el);
            removed.push(c);
            assert(models(removed@) =~= models(before).push(old_el@));
            let note = label_note("Element removed: ", old_el.label.as_str(), "");
            notifications.push(note);
            proof {
                reveal_strlit("");
                let r0 = removed_of(olds.take(j as int), news);
                assert(removal_notes(r0.push(*old_el)) =~= removal_notes(r0).push(
                    quoted_label("Element removed: "@, old_el.label@, seq![]),
                ));
                assert(string_views(notifications@) =~= string_views(notes0).push(note@));
            }
        }
        j = j + 1;
    }
    assert(olds.take(olds.len() as int) =~= olds);
    let ghost page0 = notifications@;

    let a = old.visible_text.as_str().len();
    let b = new.visible_text.as_str().len();
    let far = if a > b {
        a - b > 10
    } else {
        b - a > 10
    };
    assert(a == blen(old.visible_text) && b == blen(new.visible_text));
    let ghost na = blen(old.visible_text) as int;
    let ghost nb = blen(new.visible_text) as int;
    assert(far == (na - nb > 10 || nb - na > 10));
    if !crate::text::str_eq(old.visible_text.as_str(), new.visible_text.as_str()) && far {
        let note = crate::text::copy_str("Visible text on page changed noticeably");
        notifications.push(note);
        assert(string_views(notifications@) =~= string_views(page0).push(note@));
    }
    let ghost page1 = notifications@;
    if !crate::text::str_eq(old.title.as_str(), new.title.as_str()) {
        let note = label_note("Title changed to ", new.title.as_str(), "");
        notifications.push(note);
        assert(string_views(notifications@) =~= string_views(page1).push(note@));
    }
    proof {
        reveal_strlit("");
        assert(string_views(notifications@) =~= string_views(page0) + page_notes(*old, *new));
    }
    SemanticDiff { added, removed, changed, notifications }
}

} // verus!
