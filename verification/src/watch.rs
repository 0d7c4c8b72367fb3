//! Watching a page: the bounded log of change events with their sequence
//! numbers, and the decision taken on each polling tick.
use vstd::prelude::*;

use crate::clock::epoch_millis;
use crate::netguard::{is_safe_url, url_is_safe};
use crate::observer::{added_of, changed_of, diff, diff_notes, pair_models, removed_of, SemanticDiff};
use crate::semantic::{blen, copy_element, models, Element, ElementModel, SemanticView};
use crate::text::{copy_str, push_str, starts, string_views, slice_vec, chars_of, string_of};
use crate::weburl::{redact_url_secrets, redacted_url, url_len_ok};

verus! {

/// Most events the log keeps.
pub const EVENT_CAP: usize = 1000;

/// A non-empty diff between two polling ticks.
#[derive(Debug)]
pub struct WatchEvent {
    /// Sequence number, increasing.
    pub seq: u64,
    /// Unix-epoch milliseconds when the diff was captured.
    pub timestamp_ms: u64,
    /// URL being watched, secrets redacted.
    pub url: String,
    /// The semantic diff.
    pub diff: SemanticDiff,
}

/// Model of a [`SemanticDiff`].
pub struct DiffView {
    pub added: Seq<ElementModel>,
    pub removed: Seq<ElementModel>,
    pub changed: Seq<(ElementModel, ElementModel)>,
    pub notifications: Seq<Seq<char>>,
}

/// Model of a [`WatchEvent`].
pub struct EventView {
    pub seq: u64,
    pub timestamp_ms: u64,
    pub url: Seq<char>,
    pub diff: DiffView,
}

/// The model of a diff.
pub open spec fn diff_view(d: SemanticDiff) -> DiffView {
    DiffView {
        added: models(d.added@),
        removed: models(d.removed@),
        changed: pair_models(d.changed@),
        notifications: string_views(d.notifications@),
    }
}

impl View for WatchEvent {
    type V = EventView;

    open spec fn view(&self) -> EventView {
        EventView { seq: self.seq, timestamp_ms: self.timestamp_ms, url: self.url@, diff: diff_view(self.diff) }
    }
}

/// Models of events.
pub open spec fn event_views(v: Seq<WatchEvent>) -> Seq<EventView> {
    v.map_values(|e: WatchEvent| e@)
}

fn copy_elements(v: &Vec<Element>) -> (r: Vec<Element>)
    ensures
        models(r@) == models(v@),
{
    let mut r: Vec<Element> = Vec::new();
    let mut i: usize = 0;
    while i < v.len()
        invariant
            i <= v@.len(),
            models(r@) == models(v@.take(i as int)),
        decreases v@.len() - i,
    {
        let ghost before = r@;
        let e = copy_element(&v[i]);
        r.push(e);
        assert(models(r@) =~= models(before).push(e@));
        assert(v@.take(i + 1) =~= v@.take(i as int).push(v@[i as int]));
        assert(models(r@) =~= models(v@.take(i + 1)));
        i = i + 1;
    }
    assert(v@.take(v@.len() as int) =~= v@);
    r
}

fn copy_diff(d: &SemanticDiff) -> (r: SemanticDiff)
    ensures
        diff_view(r) == diff_view(*d),
{
    let mut changed: Vec<(Element, Element)> = Vec::new();
    let mut i: usize = 0;
    while i < d.changed.len()
        invariant
            i <= d.changed@.len(),
            pair_models(changed@) == pair_models(d.changed@.take(i as int)),
        decreases d.changed@.len() - i,
    {
        let a = copy_element(&d.changed[i].0);
        let b = copy_element(&d.changed[i].1);
        let ghost before = changed@;
        changed.push((a, b));
        assert(pair_models(changed@) =~= pair_models(before).push((a@, b@)));
        assert(d.changed@.take(i + 1) =~= d.changed@.take(i as int).push(d.changed@[i as int]));
        assert(pair_models(changed@) =~= pair_models(d.changed@.take(i + 1)));
        i = i + 1;
    }
    assert(d.changed@.take(d.changed@.len() as int) =~= d.changed@);
    let mut notes: Vec<String> = Vec::new();
    let mut j: usize = 0;
    while j < d.notifications.len()
        invariant
            j <= d.notifications@.len(),
            string_views(notes@) == string_views(d.notifications@.take(j as int)),
        decreases d.notifications@.len() - j,
    {
        let n = copy_str(d.notifications[j].as_str());
        let ghost before = notes@;
        notes.push(n);
        assert(string_views(notes@) =~= string_views(before).push(n@));
        assert(d.notifications@.take(j + 1) =~= d.notifications@.take(j as int).push(d.notifications@[j as int]));
        assert(string_views(notes@) =~= string_views(d.notifications@.take(j + 1)));
        j = j + 1;
    }
    assert(d.notifications@.take(d.notifications@.len() as int) =~= d.notifications@);
    SemanticDiff {
        added: copy_elements(&d.added),
        removed: copy_elements(&d.removed),
        changed,
        notifications: notes,
    }
}

fn copy_event(e: &WatchEvent) -> (r: WatchEvent)
    ensures
        r@ == e@,
{
    WatchEvent {
        seq: e.seq,
        timestamp_ms: e.timestamp_ms,
        url: copy_str(e.url.as_str()),
        diff: copy_diff(&e.diff),
    }
}

/// The events with a sequence number above the cursor (all with none), in
/// order.
pub open spec fn events_after(events: Seq<EventView>, cursor: Option<u64>) -> Seq<EventView>
    decreases events.len(),
{
    if events.len() == 0 {
        seq![]
    } else {
        let rest = events_after(events.drop_last(), cursor);
        match cursor {
            Some(c) => if events.last().seq > c {
                rest.push(events.last())
            } else {
                rest
            },
            None => rest.push(events.last()),
        }
    }
}

/// The log after appending `e`, the oldest event dropped when it was full.
pub open spec fn pushed(events: Seq<EventView>, e: EventView) -> Seq<EventView> {
    if events.len() >= EVENT_CAP {
        events.drop_first().push(e)
    } else {
        events.push(e)
    }
}

/// No event above the cursor: nothing to read.
proof fn lemma_events_after_none_newer(events: Seq<EventView>, c: u64)
    requires
        forall|i: int| 0 <= i < events.len() ==> #[trigger] events[i].seq <= c,
    ensures
        events_after(events, Some(c)) == Seq::<EventView>::empty(),
    decreases events.len(),
{
    if events.len() > 0 {
        lemma_events_after_none_newer(events.drop_last(), c);
    }
}

/// Reading from the cursor of the newest event seen gives exactly the
/// event pushed since: when every logged event is at or below the cursor
/// and the new one is above it, the read returns just the new one.
pub proof fn lemma_cursor_reads_the_new_event(events: Seq<EventView>, e: EventView, c: u64)
    requires
        forall|i: int| 0 <= i < events.len() ==> #[trigger] events[i].seq <= c,
        e.seq > c,
    ensures
        events_after(pushed(events, e), Some(c)) == seq![e],
{
    let kept = if events.len() >= EVENT_CAP {
        events.drop_first()
    } else {
        events
    };
    assert(pushed(events, e) == kept.push(e));
    assert forall|i: int| 0 <= i < kept.len() implies #[trigger] kept[i].seq <= c by {
        if events.len() >= EVENT_CAP {
            assert(kept[i] == events[i + 1]);
        }
    }
    lemma_events_after_none_newer(kept, c);
    assert(kept.push(e).drop_last() =~= kept);
    assert(Seq::<EventView>::empty().push(e) =~= seq![e]);
}

/// The log after appending each of `es` in turn.
pub open spec fn pushed_all(events: Seq<EventView>, es: Seq<EventView>) -> Seq<EventView>
    decreases es.len(),
{
    if es.len() == 0 {
        events
    } else {
        pushed(pushed_all(events, es.drop_last()), es.last())
    }
}

/// The newest [`EVENT_CAP`] events of a sequence (all of them when fewer).
pub open spec fn newest(s: Seq<EventView>) -> Seq<EventView> {
    if s.len() > EVENT_CAP {
        s.skip(s.len() - EVENT_CAP)
    } else {
        s
    }
}

/// After any number of pushes the log holds the newest [`EVENT_CAP`] of
/// the events it held and the events pushed, in order (a log within the cap
/// to start with).
pub proof fn lemma_pushes_keep_newest(events: Seq<EventView>, es: Seq<EventView>)
    requires
        events.len() <= EVENT_CAP,
    ensures
        pushed_all(events, es) == newest(events + es),
    decreases es.len(),
{
    if es.len() > 0 {
        lemma_pushes_keep_newest(events, es.drop_last());
        let all = events + es;
        assert(events + es.drop_last() =~= all.drop_last());
        let prev = newest(all.drop_last());
        if all.drop_last().len() >= EVENT_CAP {
            assert(prev.drop_first().push(es.last()) =~= newest(all));
        } else {
            assert(prev.push(es.last()) =~= newest(all));
        }
    }
}

/// Reading from a cursor keeps exactly the events above it, in order
/// (and everything without a cursor).
pub proof fn lemma_events_after_is_filter(events: Seq<EventView>, c: u64)
    ensures
        events_after(events, Some(c)) == events.filter(|e: EventView| e.seq > c),
        events_after(events, None) == events,
    decreases events.len(),
{
    reveal(Seq::filter);
    if events.len() > 0 {
        lemma_events_after_is_filter(events.drop_last(), c);
        assert(events.drop_last().push(events.last()) =~= events);
    }
}

/// The ring buffer of watch events: at most [`EVENT_CAP`] of them, their
/// sequence numbers increasing and below the next one to be given.
pub struct EventBuffer {
    events: Vec<WatchEvent>,
    next_seq: u64,
}

impl EventBuffer {
    /// The events held, oldest first.
    pub closed spec fn events(&self) -> Seq<EventView> {
        event_views(self.events@)
    }

    /// The sequence number the next event gets.
    pub closed spec fn next(&self) -> u64 {
        self.next_seq
    }

    /// At most [`EVENT_CAP`] events, sequence numbers increasing and below
    /// the next one.
    pub open spec fn wf(&self) -> bool {
        &&& self.events().len() <= EVENT_CAP
        &&& forall|i: int, j: int| 0 <= i < j < self.events().len() ==> #[trigger] self.events()[i].seq < #[trigger] self.events()[j].seq
        &&& forall|i: int| 0 <= i < self.events().len() ==> #[trigger] self.events()[i].seq < self.next()
    }

    /// An empty log whose first event gets sequence number 0.
    pub fn new() -> (b: Self)
        ensures
            b.wf(),
            b.events().len() == 0,
            b.next() == 0,
    {
        EventBuffer { events: Vec::new(), next_seq: 0 }
    }

    /// Append an event for `url` (secrets redacted) with the current time,
    /// dropping the oldest when the log is full; returns its sequence
    /// number.
    pub fn push(&mut self, url: &str, diff: SemanticDiff) -> (seq: u64)
        requires
            old(self).wf(),
            old(self).next() < u64::MAX,
            url_len_ok(url@),
        ensures
            final(self).wf(),
            seq == old(self).next(),
            final(self).next() == old(self).next() + 1,
            ({
                let kept = if old(self).events().len() >= EVENT_CAP {
                    old(self).events().drop_first()
                } else {
                    old(self).events()
                };
                &&& final(self).events().len() == kept.len() + 1
                &&& final(self).events().drop_last() == kept
                &&& final(self).events().last().seq == seq
                &&& final(self).events().last().url == redacted_url(url@)
                &&& final(self).events().last().diff == diff_view(diff)
            }),
            final(self).events() == pushed(old(self).events(), final(self).events().last()),
            push_step(*old(self), *final(self), url@, diff_view(diff)),
    {
        let seq = self.next_seq;
        self.next_seq = self.next_seq + 1;
        let event = WatchEvent {
            seq,
            timestamp_ms: epoch_millis(),
            url: redact_url_secrets(url),
            diff,
        };
        let ghost before = event_views(self.events@);
        if self.events.len() >= EVENT_CAP {
            self.events.remove(0);
            assert(event_views(self.events@) =~= before.drop_first());
        }
        let ghost kept = event_views(self.events@);
        self.events.push(event);
        assert(event_views(self.events@).drop_last() =~= kept);
        assert(event_views(self.events@) =~= kept.push(event@));
        seq
    }

    /// The events with a sequence number above `since_seq` (all of them
    /// when it is `None`), oldest first.
    pub fn events_since(&self, since_seq: Option<u64>) -> (r: Vec<WatchEvent>)
        ensures
            event_views(r@) == events_after(self.events(), since_seq),
    {
        let ghost ev = event_views(self.events@);
        let mut out: Vec<WatchEvent> = Vec::new();
        let mut i: usize = 0;
        while i < self.events.len()
            invariant
                i <= self.events@.len(),
                ev == event_views(self.events@),
                event_views(out@) == events_after(ev.take(i as int), since_seq),
            decreases self.events@.len() - i,
        {
            proof {
                assert(ev.take(i + 1).drop_last() =~= ev.take(i as int));
                assert(ev.take(i + 1).last() == self.events@[i as int]@);
            }
            let keep = match since_seq {
                Some(c) => self.events[i].seq > c,
                None => true,
            };
            if keep {
                let e = copy_event(&self.events[i]);
                let ghost before = out@;
                out.push(e);
                assert(event_views(out@) =~= event_views(before).push(e@));
            }
            i = i + 1;
        }
        assert(ev.take(self.events@.len() as int) =~= ev);
        out
    }

    /// Number of events held.
    pub fn len(&self) -> (n: usize)
        ensures
            n == self.events().len(),
    {
        self.events.len()
    }

    /// Whether no event is held.
    pub fn is_empty(&self) -> (b: bool)
        ensures
            b == (self.events().len() == 0),
    {
        self.events.len() == 0
    }

    /// The sequence number the next event gets.
    pub fn current_seq(&self) -> (s: u64)
        ensures
            s == self.next(),
    {
        self.next_seq
    }
}

/// One push, as [`EventBuffer::push`] states it: the next sequence number
/// goes to a new event for the URL (secrets redacted) and the diff,
/// appended to the log with the oldest dropped when it was full.
pub open spec fn push_step(b: EventBuffer, b2: EventBuffer, url: Seq<char>, d: DiffView) -> bool {
    &&& b2.next() == b.next() + 1
    &&& b2.events().len() > 0
    &&& b2.events() == pushed(b.events(), b2.events().last())
    &&& b2.events().last().seq == b.next()
    &&& b2.events().last().url == redacted_url(url)
    &&& b2.events().last().diff == d
}

/// Pushing `k` events into a new log, one call after another (each call
/// related to the next state as `push` states it): call `i` gets sequence
/// number `i` and the counter ends at `k`; the log holds the newest
/// `min(k, 1000)` events, with sequence numbers `k - len .. k` in order,
/// event `j` of them for URL number `k - len + j` (redacted); and a read
/// from any cursor keeps exactly the held events above it.
pub proof fn lemma_k_pushes(
    states: Seq<EventBuffer>,
    urls: Seq<Seq<char>>,
    diffs: Seq<DiffView>,
    c: u64,
)
    requires
        states.len() == urls.len() + 1,
        diffs.len() == urls.len(),
        states[0].events().len() == 0,
        states[0].next() == 0,
        forall|i: int| 0 <= i < urls.len() ==> #[trigger] push_step(states[i], states[i + 1], urls[i], diffs[i]),
    ensures
        ({
            let k = urls.len();
            let last = states[k as int].events();
            let len = if k > EVENT_CAP { EVENT_CAP as int } else { k as int };
            &&& forall|i: int| 0 <= i <= k ==> #[trigger] states[i].next() == i
            &&& last.len() == len
            &&& forall|j: int| 0 <= j < len ==> #[trigger] last[j].seq == k - len + j
            &&& forall|j: int| 0 <= j < len ==> #[trigger] last[j].url == redacted_url(urls[k - len + j])
            &&& events_after(last, Some(c)) == last.filter(|e: EventView| e.seq > c)
            &&& events_after(last, None) == last
        }),
    decreases urls.len(),
{
    let k = urls.len();
    if k == 0 {
        lemma_events_after_is_filter(states[0].events(), c);
    } else {
        let k1 = (k - 1) as nat;
        assert forall|i: int| 0 <= i < k1 implies #[trigger] push_step(
            states.take(k as int)[i],
            states.take(k as int)[i + 1],
            urls.take(k1 as int)[i],
            diffs.take(k1 as int)[i],
        ) by {
            assert(push_step(states[i], states[i + 1], urls[i], diffs[i]));
        }
        lemma_k_pushes(states.take(k as int), urls.take(k1 as int), diffs.take(k1 as int), c);
        assert(push_step(states[k1 as int], states[k as int], urls[k1 as int], diffs[k1 as int]));
        let prev = states[k1 as int].events();
        let last = states[k as int].events();
        let plen = if k1 > EVENT_CAP { EVENT_CAP as int } else { k1 as int };
        let len = if k > EVENT_CAP { EVENT_CAP as int } else { k as int };
        assert(states.take(k as int)[k1 as int] == states[k1 as int]);
        assert forall|i: int| 0 <= i <= k implies #[trigger] states[i].next() == i by {
            if i < k {
                assert(states.take(k as int)[i] == states[i]);
            }
        }
        assert forall|j: int| 0 <= j < len implies #[trigger] last[j].seq == k - len + j
            && last[j].url == redacted_url(urls[k - len + j]) by {
            if j == len - 1 {
                assert(last[j] == last.last());
            } else {
                let pj = if prev.len() >= EVENT_CAP { j + 1 } else { j };
                if prev.len() >= EVENT_CAP {
                    assert(last[j] == prev.drop_first()[j]);
                } else {
                    assert(last[j] == prev[j]);
                }
                assert(prev[pj].seq == k1 - plen + pj);
                assert(urls.take(k1 as int)[k1 - plen + pj] == urls[k1 - plen + pj]);
            }
        }
        lemma_events_after_is_filter(last, c);
    }
}

// ── Resource names ───────────────────────────────────────────────────

/// Every leading copy of a nonempty prefix removed (`trim_start_matches`).
pub open spec fn strip_prefix_all(s: Seq<char>, p: Seq<char>) -> Seq<char>
    decreases s.len(),
{
    if p.len() > 0 && p.len() <= s.len() && s.take(p.len() as int) == p {
        strip_prefix_all(s.skip(p.len() as int), p)
    } else {
        s
    }
}

/// A URL without its leading `http://` and then `https://` prefixes.
pub open spec fn sanitized_uri(url: Seq<char>) -> Seq<char> {
    strip_prefix_all(strip_prefix_all(url, "http://"@), "https://"@)
}

fn prefix_at(s: &[char], a: usize, p: &[char]) -> (b: bool)
    requires
        a <= s@.len(),
    ensures
        b == (p@.len() <= s@.skip(a as int).len() && s@.skip(a as int).take(p@.len() as int) == p@),
{
    if p.len() > s.len() - a {
        return false;
    }
    let mut k: usize = 0;
    while k < p.len()
        invariant
            k <= p@.len(),
            a + p@.len() <= s@.len(),
            s@.len() == s.len(),
            forall|j: int| 0 <= j < k ==> s@[a + j] == p@[j],
        decreases p@.len() - k,
    {
        if s[a + k] != p[k] {
            assert(s@.skip(a as int).take(p@.len() as int)[k as int] != p@[k as int]);
            return false;
        }
        k = k + 1;
    }
    assert(s@.skip(a as int).take(p@.len() as int) =~= p@);
    true
}

fn strip_prefix_all_exec(s: &[char], p: &str) -> (r: Vec<char>)
    ensures
        r@ == strip_prefix_all(s@, p@),
{
    let pv = chars_of(p);
    let mut a: usize = 0;
    assert(s@.skip(0) =~= s@);
    while pv.len() > 0 && prefix_at(s, a, pv.as_slice())
        invariant
            a <= s@.len(),
            pv@ == p@,
            strip_prefix_all(s@, p@) == strip_prefix_all(s@.skip(a as int), p@),
        decreases s@.len() - a,
    {
        assert(s@.skip(a as int).len() == s@.len() - a);
        assert(s@.len() == s.len());
        assert(s@.skip(a as int).skip(p@.len() as int) =~= s@.skip(a + p@.len()));
        a = a + pv.len();
    }
    let r = slice_vec(s, a, s.len());
    assert(r@ =~= s@.skip(a as int));
    r
}

/// Strip the scheme prefixes for use in a `watch://` URI.
pub fn sanitize_uri(url: &str) -> (r: String)
    ensures
        r@ == sanitized_uri(url@),
{
    let v = chars_of(url);
    let a = strip_prefix_all_exec(v.as_slice(), "http://");
    let b = strip_prefix_all_exec(a.as_slice(), "https://");
    string_of(b.as_slice())
}

/// The `watch://` resource URI of a watched URL, its secrets redacted.
pub fn resource_uri(url: &str) -> (r: String)
    requires
        url_len_ok(url@),
    ensures
        r@ == "watch://"@ + sanitized_uri(redacted_url(url@)),
{
    let safe = redact_url_secrets(url);
    let mut r = copy_str("watch://");
    let s = sanitize_uri(safe.as_str());
    push_str(&mut r, s.as_str());
    r
}

// ── Polling ──────────────────────────────────────────────────────────

/// What a polling tick decided.
#[derive(Debug, Clone, Copy, PartialEq, Eq, Structural)]
pub enum WatchTick {
    /// The page could not be read: try again next tick.
    Skip,
    /// The page moved to an unsafe URL: stop watching.
    Stop,
    /// Nothing changed.
    Unchanged,
    /// A change was logged under this sequence number.
    Recorded(u64),
}

/// A diff with something in it.
pub open spec fn diff_nonempty(d: DiffView) -> bool {
    d.added.len() > 0 || d.removed.len() > 0 || d.changed.len() > 0 || d.notifications.len() > 0
}

/// The diff between two views, as `diff` computes it.
pub open spec fn diff_of(old: SemanticView, new: SemanticView) -> DiffView {
    DiffView {
        added: models(added_of(old.elements@, new.elements@)),
        removed: models(removed_of(old.elements@, new.elements@)),
        changed: pair_models(changed_of(old.elements@, new.elements@)),
        notifications: diff_notes(old, new),
    }
}

/// One polling tick: without a fresh view nothing happens; a view on an
/// unsafe URL stops the watch; otherwise the diff from the last view is
/// logged for the watched URL exactly when it is not empty. The caller
/// keeps the fresh view as the next tick's last view unless the tick
/// skipped or stopped.
pub fn watch_tick(
    events: &mut EventBuffer,
    watched_url: &str,
    last: &SemanticView,
    current: Option<&SemanticView>,
) -> (t: WatchTick)
    requires
        old(events).wf(),
        old(events).next() < u64::MAX,
        url_len_ok(watched_url@),
        blen(last.visible_text) <= usize::MAX,
        current matches Some(c) ==> url_len_ok(c.url@) && blen(c.visible_text) <= usize::MAX,
    ensures
        final(events).wf(),
        match current {
            None => t == WatchTick::Skip && final(events).events() == old(events).events()
                && final(events).next() == old(events).next(),
            Some(c) => if !url_is_safe(c.url@, false) {
                t == WatchTick::Stop && final(events).events() == old(events).events()
                    && final(events).next() == old(events).next()
            } else if diff_nonempty(diff_of(*last, *c)) {
                &&& t == WatchTick::Recorded(old(events).next())
                &&& final(events).next() == old(events).next() + 1
                &&& final(events).events() == pushed(old(events).events(), final(events).events().last())
                &&& final(events).events().last().seq == old(events).next()
                &&& final(events).events().last().url == redacted_url(watched_url@)
                &&& final(events).events().last().diff == diff_of(*last, *c)
            } else {
                t == WatchTick::Unchanged && final(events).events() == old(events).events()
                    && final(events).next() == old(events).next()
            },
        },
{
    let c = match current {
        Some(c) => c,
        None => return WatchTick::Skip,
    };
    if !is_safe_url(c.url.as_str()) {
        return WatchTick::Stop;
    }
    let d = diff(last, c);
    assert(diff_view(d) == diff_of(*last, *c));
    if d.added.len() > 0 || d.removed.len() > 0 || d.changed.len() > 0 || d.notifications.len() > 0 {
        let seq = events.push(watched_url, d);
        WatchTick::Recorded(seq)
    } else {
        WatchTick::Unchanged
    }
}

} // verus!
