//! The decisions of the pilot's observe / decide / act loop: when the page
//! has gone stale, which decisions end the run, when a page the run landed
//! on must stop it, how a blocked page (challenge, WAF, auth wall) is met,
//! and whether a finished run has anything new to learn.
use vstd::prelude::*;

use crate::netguard::{is_safe_url, is_safe_url_with, url_is_safe};
use crate::target::{js_escape, js_escaped};
use crate::pilot::{json_debug, json_debug_string, Action, ActionView, DecisionSource, Step};
use crate::semantic::{ElementKind, ElementModel, models};
use crate::session::{any_auth_cookie, with_cookie, AuthState, CookieEntry, SessionState};
use crate::text::{
    chars_of, contains, copy_str, debug_string, debug_text, dec, has, push_dec, push_str, str_eq, to_lower,
    unicode_lower,
};
use crate::weburl::url_len_ok;

verus! {

// ── The loop ─────────────────────────────────────────────────────────

/// Where the loop is within a step.
#[derive(Debug, Clone, Copy, PartialEq, Eq, Structural)]
pub enum LoopPhase {
    /// The page is to be observed.
    Observe,
    /// An action is to be decided.
    Decide,
    /// The decided action is being performed.
    Act,
    /// The run has ended.
    Finished,
}

/// The pilot loop's own state: the step, what was acted on, how each
/// decision tier fared, and what the last observation looked like.
pub struct PilotLoop {
    pub max_steps: u32,
    pub step: u32,
    pub phase: LoopPhase,
    pub acted_on: Vec<u32>,
    pub playbook_hits: u32,
    pub hints_hits: u32,
    pub heuristic_hits: u32,
    pub llm_hits: u32,
    pub stale_streak: u32,
    pub prev_url: Option<String>,
    pub prev_element_count: Option<usize>,
    pub prev_acted_count: Option<usize>,
    pub initial_url: Option<String>,
}

/// Text of the escalation when the page stopped changing.
pub open spec fn stale_reason(streak: nat) -> Seq<char> {
    "stale state: URL and element count unchanged for "@ + dec(streak)
        + " consecutive observations"@
}

/// Text of the escalation when an action led to an unsafe page.
pub open spec fn unsafe_reason(url: Seq<char>) -> Seq<char> {
    "redirected to unsafe URL after action: "@ + url
}

/// Text of the escalation when the step budget ran out.
pub open spec fn max_steps_reason(max_steps: u32) -> Seq<char> {
    "max steps ("@ + dec(max_steps as nat) + ") reached"@
}

/// The element an action clicks or types into.
pub open spec fn acted_element(a: ActionView) -> Option<u32> {
    match a {
        ActionView::Type { element, .. } => Some(element),
        ActionView::Click { element, .. } => Some(element),
        _ => None,
    }
}

/// Whether a decision ends the run, and with success: `Done` succeeds,
/// `Escalate` fails, anything else goes on.
pub open spec fn terminal_of(a: ActionView) -> Option<bool> {
    match a {
        ActionView::Done { .. } => Some(true),
        ActionView::Escalate { .. } => Some(false),
        _ => None,
    }
}

impl PilotLoop {
    /// Decisions counted so far.
    pub open spec fn hits(&self) -> int {
        self.playbook_hits + self.hints_hits + self.heuristic_hits + self.llm_hits
    }

    /// Steps whose decision has been made: those before the current one,
    /// and the current one once decided.
    pub open spec fn decided(&self) -> int {
        self.step + (if self.phase == LoopPhase::Act || self.phase == LoopPhase::Finished {
            1int
        } else {
            0int
        })
    }

    /// The loop's counters stay within the steps taken: at most one counted
    /// decision and one acted-on element per decided step, and a streak of
    /// identical observations no longer than the steps observed.
    pub open spec fn wf(&self) -> bool {
        &&& self.step <= self.max_steps
        &&& self.phase != LoopPhase::Finished ==> self.step < self.max_steps
        &&& self.hits() <= self.decided()
        &&& self.acted_on@.len() <= self.decided()
        &&& self.stale_streak <= self.step
        &&& self.phase == LoopPhase::Observe ==> (self.stale_streak < self.step
            || self.stale_streak == 0)
    }

    /// A loop about to take its first step (finished at once when no step
    /// is allowed), starting from the configured URL when there is one.
    pub fn new(max_steps: u32, initial_url: Option<String>) -> (l: Self)
        ensures
            l.wf(),
            l.max_steps == max_steps,
            l.step == 0,
            l.phase == (if max_steps > 0 { LoopPhase::Observe } else { LoopPhase::Finished }),
            l.acted_on@.len() == 0,
            l.hits() == 0,
            l.stale_streak == 0,
            l.prev_url is None && l.prev_element_count is None && l.prev_acted_count is None,
            l.initial_url == initial_url,
    {
        PilotLoop {
            max_steps,
            step: 0,
            phase: if max_steps > 0 {
                LoopPhase::Observe
            } else {
                LoopPhase::Finished
            },
            acted_on: Vec::new(),
            playbook_hits: 0,
            hints_hits: 0,
            heuristic_hits: 0,
            llm_hits: 0,
            stale_streak: 0,
            prev_url: None,
            prev_element_count: None,
            prev_acted_count: None,
            initial_url,
        }
    }

    /// Record an observation of the page (its URL and element count). The
    /// streak of observations identical in URL, element count and acted-on
    /// count grows, or restarts at zero; at three the run escalates with
    /// the returned reason and is finished.
    pub fn observe(&mut self, url: &str, element_count: usize) -> (r: Option<String>)
        requires
            old(self).wf(),
            old(self).phase == LoopPhase::Observe,
        ensures
            final(self).wf(),
            opt_str_view(final(self).initial_url) == (match opt_str_view(old(self).initial_url) {
                Some(u) => Some(u),
                None => Some(url@),
            }),
            final(self).stale_streak == (if opt_str_view(old(self).prev_url) == Some(url@)
                && old(self).prev_element_count == Some(element_count)
                && old(self).prev_acted_count == Some(old(self).acted_on@.len() as usize)
                && old(self).step > 0 {
                old(self).stale_streak + 1
            } else {
                0
            }),
            opt_str_view(final(self).prev_url) == Some(url@),
            final(self).prev_element_count == Some(element_count),
            final(self).prev_acted_count == Some(old(self).acted_on@.len() as usize),
            final(self).step == old(self).step,
            final(self).max_steps == old(self).max_steps,
            final(self).acted_on@ == old(self).acted_on@,
            final(self).hits() == old(self).hits(),
            match r {
                Some(reason) => final(self).stale_streak >= 3 && reason@ == stale_reason(
                    final(self).stale_streak as nat,
                ) && final(self).phase == LoopPhase::Finished,
                None => final(self).stale_streak < 3 && final(self).phase == LoopPhase::Decide,
            },
    {
        if self.initial_url.is_none() {
            self.initial_url = Some(copy_str(url));
        }
        let same_url = match &self.prev_url {
            Some(p) => str_eq(p.as_str(), url),
            None => false,
        };
        let acted = self.acted_on.len();
        if same_url && self.prev_element_count == Some(element_count) && self.prev_acted_count
            == Some(acted) && self.step > 0 {
            self.stale_streak = self.stale_streak + 1;
        } else {
            self.stale_streak = 0;
        }
        self.prev_url = Some(copy_str(url));
        self.prev_element_count = Some(element_count);
        self.prev_acted_count = Some(acted);
        if self.stale_streak >= 3 {
            self.phase = LoopPhase::Finished;
            let mut reason = copy_str("stale state: URL and element count unchanged for ");
            push_dec(&mut reason, self.stale_streak as u64);
            push_str(&mut reason, " consecutive observations");
            Some(reason)
        } else {
            self.phase = LoopPhase::Decide;
            None
        }
    }

    /// Skip the rest of the step (a blocked page was resolved): the next
    /// step is observed, or the run is finished when none is left.
    pub fn skip_step(&mut self)
        requires
            old(self).wf(),
            old(self).phase == LoopPhase::Decide,
        ensures
            final(self).wf(),
            final(self).step == old(self).step + 1,
            final(self).phase == (if final(self).step < final(self).max_steps {
                LoopPhase::Observe
            } else {
                LoopPhase::Finished
            }),
            final(self).acted_on@ == old(self).acted_on@,
            final(self).hits() == old(self).hits(),
            final(self).max_steps == old(self).max_steps,
    {
        self.step = self.step + 1;
        self.phase = if self.step < self.max_steps {
            LoopPhase::Observe
        } else {
            LoopPhase::Finished
        };
    }

    /// Record a decision: its tier is counted, the element a click or a
    /// typing targets is remembered, and `Done` (success) or `Escalate`
    /// (failure) ends the run.
    pub fn decide(&mut self, source: DecisionSource, action: &Action) -> (terminal: Option<bool>)
        requires
            old(self).wf(),
            old(self).phase == LoopPhase::Decide,
        ensures
            final(self).wf(),
            terminal == terminal_of(action@),
            final(self).phase == (if terminal is Some {
                LoopPhase::Finished
            } else {
                LoopPhase::Act
            }),
            final(self).playbook_hits == old(self).playbook_hits + (if source
                == DecisionSource::Playbook { 1int } else { 0int }),
            final(self).hints_hits == old(self).hints_hits + (if source == DecisionSource::Hints {
                1int
            } else {
                0int
            }),
            final(self).heuristic_hits == old(self).heuristic_hits + (if source
                == DecisionSource::Heuristic { 1int } else { 0int }),
            final(self).llm_hits == old(self).llm_hits + (if source == DecisionSource::Llm {
                1int
            } else {
                0int
            }),
            final(self).acted_on@ == match acted_element(action@) {
                Some(e) => old(self).acted_on@.push(e),
                None => old(self).acted_on@,
            },
            final(self).step == old(self).step,
            final(self).max_steps == old(self).max_steps,
    {
        match source {
            DecisionSource::Playbook => self.playbook_hits = self.playbook_hits + 1,
            DecisionSource::Hints => self.hints_hits = self.hints_hits + 1,
            DecisionSource::Heuristic => self.heuristic_hits = self.heuristic_hits + 1,
            DecisionSource::Llm => self.llm_hits = self.llm_hits + 1,
        }
        match action {
            Action::Type { element, .. } => self.acted_on.push(*element),
            Action::Click { element, .. } => self.acted_on.push(*element),
            _ => {},
        }
        let terminal = match action {
            Action::Done { .. } => Some(true),
            Action::Escalate { .. } => Some(false),
            _ => None,
        };
        self.phase = if terminal.is_some() {
            LoopPhase::Finished
        } else {
            LoopPhase::Act
        };
        terminal
    }

    /// After the action: when the page's URL is known and not safe to be
    /// on, the run escalates with the returned reason; otherwise the next
    /// step is observed, or the run is finished when none is left.
    pub fn after_action(&mut self, current_url: Option<&str>) -> (r: Option<String>)
        requires
            old(self).wf(),
            old(self).phase == LoopPhase::Act,
            current_url matches Some(u) ==> url_len_ok(u@),
        ensures
            final(self).wf(),
            match current_url {
                Some(u) if !url_is_safe(u@, false) => r matches Some(reason) && reason@
                    == unsafe_reason(u@) && final(self).phase == LoopPhase::Finished
                    && final(self).step == old(self).step,
                _ => r is None && final(self).step == old(self).step + 1 && final(self).phase == (
                if final(self).step < final(self).max_steps {
                    LoopPhase::Observe
                } else {
                    LoopPhase::Finished
                }),
            },
            final(self).acted_on@ == old(self).acted_on@,
            final(self).hits() == old(self).hits(),
            final(self).max_steps == old(self).max_steps,
    {
        if let Some(u) = current_url {
            if !is_safe_url(u) {
                self.phase = LoopPhase::Finished;
                let mut reason = copy_str("redirected to unsafe URL after action: ");
                push_str(&mut reason, u);
                return Some(reason);
            }
        }
        self.step = self.step + 1;
        self.phase = if self.step < self.max_steps {
            LoopPhase::Observe
        } else {
            LoopPhase::Finished
        };
        None
    }

    /// The escalation reason when the step budget is used up.
    pub fn max_steps_reason(&self) -> (r: String)
        ensures
            r@ == max_steps_reason(self.max_steps),
    {
        let mut reason = copy_str("max steps (");
        push_dec(&mut reason, self.max_steps as u64);
        push_str(&mut reason, ") reached");
        reason
    }
}

/// View of an optional string.
pub open spec fn opt_str_view(o: Option<String>) -> Option<Seq<char>> {
    match o {
        Some(s) => Some(s@),
        None => None,
    }
}

// ── Learning ─────────────────────────────────────────────────────────

/// Whether a finished run has something to learn from.
#[derive(Debug, Clone, Copy, PartialEq, Eq, Structural)]
pub enum LearnDecision {
    /// Some non-terminal step came from a heuristic or the LLM.
    Synthesize,
    /// Every such step came from a playbook match: a pure replay.
    PureReplay,
    /// No playbook matched and nothing actionable was decided either.
    NoActionable,
}

/// A step is new work: a heuristic or LLM decision other than `Done`.
pub open spec fn new_work(source: DecisionSource, a: ActionView) -> bool {
    (source == DecisionSource::Llm || source == DecisionSource::Heuristic) && !(a is Done)
}

/// The decision for a history (sources and actions) and a playbook hit
/// count.
pub open spec fn learn_decision_of(history: Seq<Step>, playbook_hits: u32) -> LearnDecision {
    if exists|i: int| 0 <= i < history.len() && new_work(history[i].source, #[trigger] history[i].action@) {
        LearnDecision::Synthesize
    } else if playbook_hits > 0 {
        LearnDecision::PureReplay
    } else {
        LearnDecision::NoActionable
    }
}

/// Decide whether the history is new work to synthesize a playbook from,
/// or just a pure replay of a playbook (or nothing at all).
pub fn learn_decision(history: &[Step], playbook_hits: u32) -> (r: LearnDecision)
    ensures
        r == learn_decision_of(history@, playbook_hits),
{
    let mut i: usize = 0;
    while i < history.len()
        invariant
            i <= history@.len(),
            forall|j: int| 0 <= j < i ==> !new_work(history@[j].source, #[trigger] history@[j].action@),
        decreases history@.len() - i,
    {
        let s = &history[i];
        let done = match &s.action {
            Action::Done { .. } => true,
            _ => false,
        };
        let from_rules = match s.source {
            DecisionSource::Llm => true,
            DecisionSource::Heuristic => true,
            _ => false,
        };
        if from_rules && !done {
            assert(new_work(history@[i as int].source, history@[i as int].action@));
            return LearnDecision::Synthesize;
        }
        i = i + 1;
    }
    if playbook_hits > 0 {
        LearnDecision::PureReplay
    } else {
        LearnDecision::NoActionable
    }
}

/// `name: ` followed by the text of a field.
pub open spec fn field(name: Seq<char>, text: Seq<char>) -> Seq<char> {
    name + ": "@ + text
}

/// What `format!("{:?}", action)` prints for an action: its derived
/// `Debug` text, the variant name and its fields in order, strings quoted
/// as `{:?}` quotes them and the element id in decimal.
pub open spec fn action_debug_text(a: ActionView) -> Seq<char> {
    match a {
        ActionView::Click { element, reasoning } => "Click { "@ + field("element"@, dec(element as nat))
            + ", "@ + field("reasoning"@, debug_text(reasoning)) + " }"@,
        ActionView::Type { element, value, reasoning } => "Type { "@ + field("element"@, dec(element as nat))
            + ", "@ + field("value"@, debug_text(value)) + ", "@ + field("reasoning"@, debug_text(reasoning))
            + " }"@,
        ActionView::Select { element, value, reasoning } => "Select { "@ + field(
            "element"@,
            dec(element as nat),
        ) + ", "@ + field("value"@, debug_text(value)) + ", "@ + field("reasoning"@, debug_text(reasoning))
            + " }"@,
        ActionView::Scroll { direction, reasoning } => "Scroll { "@ + field("direction"@, debug_text(direction))
            + ", "@ + field("reasoning"@, debug_text(reasoning)) + " }"@,
        ActionView::Wait { reasoning } => "Wait { "@ + field("reasoning"@, debug_text(reasoning)) + " }"@,
        ActionView::Done { result, reasoning } => "Done { "@ + field("result"@, json_debug(result)) + ", "@
            + field("reasoning"@, debug_text(reasoning)) + " }"@,
        ActionView::Navigate { url, reasoning } => "Navigate { "@ + field("url"@, debug_text(url)) + ", "@
            + field("reasoning"@, debug_text(reasoning)) + " }"@,
        ActionView::Escalate { reason } => "Escalate { "@ + field("reason"@, debug_text(reason)) + " }"@,
    }
}

fn push_field(out: &mut String, name: &str, text: &str)
    ensures
        final(out)@ == old(out)@ + field(name@, text@),
{
    push_str(out, name);
    push_str(out, ": ");
    push_str(out, text);
}

fn push_debug_field(out: &mut String, name: &str, s: &str)
    ensures
        final(out)@ == old(out)@ + field(name@, debug_text(s@)),
{
    let d = debug_string(s);
    push_field(out, name, d.as_str());
}

fn push_id_field(out: &mut String, id: u32)
    ensures
        final(out)@ == old(out)@ + field("element"@, dec(id as nat)),
{
    push_str(out, "element: ");
    push_dec(out, id as u64);
    proof {
        reveal_strlit("element: ");
        reveal_strlit("element");
        reveal_strlit(": ");
    }
}

/// The derived `Debug` text of an action.
fn debug_action(a: &Action) -> (r: String)
    ensures
        r@ == action_debug_text(a@),
{
    match a {
        Action::Click { element, reasoning } => {
            let mut o = copy_str("Click { ");
            push_id_field(&mut o, *element);
            push_str(&mut o, ", ");
            push_debug_field(&mut o, "reasoning", reasoning.as_str());
            push_str(&mut o, " }");
            o
        },
        Action::Type { element, value, reasoning } => {
            let mut o = copy_str("Type { ");
            push_id_field(&mut o, *element);
            push_str(&mut o, ", ");
            push_debug_field(&mut o, "value", value.as_str());
            push_str(&mut o, ", ");
            push_debug_field(&mut o, "reasoning", reasoning.as_str());
            push_str(&mut o, " }");
            o
        },
        Action::Select { element, value, reasoning } => {
            let mut o = copy_str("Select { ");
            push_id_field(&mut o, *element);
            push_str(&mut o, ", ");
            push_debug_field(&mut o, "value", value.as_str());
            push_str(&mut o, ", ");
            push_debug_field(&mut o, "reasoning", reasoning.as_str());
            push_str(&mut o, " }");
            o
        },
        Action::Scroll { direction, reasoning } => {
            let mut o = copy_str("Scroll { ");
            push_debug_field(&mut o, "direction", direction.as_str());
            push_str(&mut o, ", ");
            push_debug_field(&mut o, "reasoning", reasoning.as_str());
            push_str(&mut o, " }");
            o
        },
        Action::Wait { reasoning } => {
            let mut o = copy_str("Wait { ");
            push_debug_field(&mut o, "reasoning", reasoning.as_str());
            push_str(&mut o, " }");
            o
        },
        Action::Done { result, reasoning } => {
            let mut o = copy_str("Done { ");
            let j = json_debug_string(result);
            push_field(&mut o, "result", j.as_str());
            push_str(&mut o, ", ");
            push_debug_field(&mut o, "reasoning", reasoning.as_str());
            push_str(&mut o, " }");
            o
        },
        Action::Navigate { url, reasoning } => {
            let mut o = copy_str("Navigate { ");
            push_debug_field(&mut o, "url", url.as_str());
            push_str(&mut o, ", ");
            push_debug_field(&mut o, "reasoning", reasoning.as_str());
            push_str(&mut o, " }");
            o
        },
        Action::Escalate { reason } => {
            let mut o = copy_str("Escalate { ");
            push_debug_field(&mut o, "reason", reason.as_str());
            push_str(&mut o, " }");
            o
        },
    }
}

/// The log text of an action in learn mode: a `Type` shows its element and
/// the byte length of its value, never the value; any other action its
/// `Debug` text.
pub open spec fn redacted_action_text(a: ActionView) -> Seq<char> {
    match a {
        ActionView::Type { element, value, .. } => "Type { element: "@ + dec(element as nat)
            + ", value: <redacted len="@ + dec(
            (vstd::utf8::encode_utf8(value).len() as usize) as nat,
        ) + "> }"@,
        _ => action_debug_text(a),
    }
}

/// Render an action for logging in learn mode, hiding the typed value.
pub fn redact_action_for_learn(action: &Action) -> (r: String)
    ensures
        r@ == redacted_action_text(action@),
{
    match action {
        Action::Type { element, value, .. } => {
            let mut out = copy_str("Type { element: ");
            push_dec(&mut out, *element as u64);
            push_str(&mut out, ", value: <redacted len=");
            push_dec(&mut out, value.as_str().len() as u64);
            push_str(&mut out, "> }");
            out
        },
        _ => debug_action(action),
    }
}

// ── Blocked pages ────────────────────────────────────────────────────

/// What kind of obstacle blocks a page.
#[derive(Debug, Clone, Copy, PartialEq, Eq, Structural)]
pub enum ChallengeKind {
    /// A CAPTCHA a human must solve.
    Captcha,
    /// A Cloudflare Turnstile check, which often resolves by itself.
    CloudflareTurnstile,
    /// A web application firewall refusing the client.
    WafBlock,
    /// A login wall: the pilot can go on and sign in.
    AuthWall,
}

/// What the loop does next about a blocked page.
#[derive(Debug)]
pub enum BlockedAction {
    /// Wait up to this many seconds for the page to be unblocked; with
    /// `announce`, ask the human at the terminal to resolve it.
    WaitForResolution { timeout_secs: u64, announce: bool },
    /// The block is gone: go on with the next step.
    Continue,
    /// Nothing to wait for: decide an action on this page.
    FallThrough,
    /// Give up with this reason.
    Escalate { reason: String },
}

/// Model of a [`BlockedAction`].
pub enum BlockedActionView {
    WaitForResolution { timeout_secs: u64, announce: bool },
    Continue,
    FallThrough,
    Escalate { reason: Seq<char> },
}

impl View for BlockedAction {
    type V = BlockedActionView;

    open spec fn view(&self) -> BlockedActionView {
        match self {
            BlockedAction::WaitForResolution { timeout_secs, announce } => {
                BlockedActionView::WaitForResolution { timeout_secs: *timeout_secs, announce: *announce }
            },
            BlockedAction::Continue => BlockedActionView::Continue,
            BlockedAction::FallThrough => BlockedActionView::FallThrough,
            BlockedAction::Escalate { reason } => BlockedActionView::Escalate { reason: reason@ },
        }
    }
}

/// The plan for a blocked page given what the waits so far gave: a WAF
/// block escalates at once; a Turnstile first gets 5 seconds to resolve
/// itself; in interactive mode a CAPTCHA (or an unresolved Turnstile) gets
/// 120 seconds of human help; an auth wall falls through to deciding; any
/// other unresolved challenge escalates.
pub open spec fn blocked_plan_of(
    kind: ChallengeKind,
    reason: Seq<char>,
    interactive: bool,
    auto_resolved: Option<bool>,
    human_resolved: Option<bool>,
) -> BlockedActionView {
    if kind == ChallengeKind::WafBlock {
        BlockedActionView::Escalate { reason: "page blocked (WAF): "@ + reason }
    } else if kind == ChallengeKind::CloudflareTurnstile && auto_resolved is None {
        BlockedActionView::WaitForResolution { timeout_secs: 5, announce: false }
    } else if kind == ChallengeKind::CloudflareTurnstile && auto_resolved == Some(true) {
        BlockedActionView::Continue
    } else if interactive && (kind == ChallengeKind::Captcha || kind
        == ChallengeKind::CloudflareTurnstile) {
        match human_resolved {
            None => BlockedActionView::WaitForResolution { timeout_secs: 120, announce: true },
            Some(true) => BlockedActionView::Continue,
            Some(false) => BlockedActionView::Escalate { reason: "page blocked: "@ + reason },
        }
    } else if kind == ChallengeKind::AuthWall {
        BlockedActionView::FallThrough
    } else {
        BlockedActionView::Escalate { reason: "page blocked: "@ + reason }
    }
}

/// Decide the next move about a blocked page, from its kind, the block's
/// reason, whether the run is interactive, and what the automatic and the
/// human waits gave so far (`None` while not waited for).
pub fn blocked_plan(
    kind: ChallengeKind,
    reason: &str,
    interactive: bool,
    auto_resolved: Option<bool>,
    human_resolved: Option<bool>,
) -> (r: BlockedAction)
    ensures
        r@ == blocked_plan_of(kind, reason@, interactive, auto_resolved, human_resolved),
{
    if kind == ChallengeKind::WafBlock {
        let mut m = copy_str("page blocked (WAF): ");
        push_str(&mut m, reason);
        return BlockedAction::Escalate { reason: m };
    }
    if kind == ChallengeKind::CloudflareTurnstile {
        match auto_resolved {
            None => return BlockedAction::WaitForResolution { timeout_secs: 5, announce: false },
            Some(true) => return BlockedAction::Continue,
            Some(false) => {},
        }
    }
    if interactive && (kind == ChallengeKind::Captcha || kind == ChallengeKind::CloudflareTurnstile) {
        match human_resolved {
            None => return BlockedAction::WaitForResolution { timeout_secs: 120, announce: true },
            Some(true) => return BlockedAction::Continue,
            Some(false) => {},
        }
    }
    if kind == ChallengeKind::AuthWall {
        return BlockedAction::FallThrough;
    }
    let mut m = copy_str("page blocked: ");
    push_str(&mut m, reason);
    BlockedAction::Escalate { reason: m }
}

// ── Session tracking ─────────────────────────────────────────────────

/// The jar after adding the cookies in order.
pub open spec fn with_cookies(cs: Seq<CookieEntry>, new: Seq<CookieEntry>) -> Seq<CookieEntry>
    decreases new.len(),
{
    if new.len() == 0 {
        cs
    } else {
        with_cookie(with_cookies(cs, new.drop_last()), new.last())
    }
}

/// The note a step's action leaves in the navigation history (empty for
/// `Done` and `Escalate`).
pub open spec fn action_note(a: ActionView) -> Seq<char> {
    match a {
        ActionView::Click { reasoning, .. } => "click: "@ + reasoning,
        ActionView::Type { reasoning, .. } => "type: "@ + reasoning,
        ActionView::Select { reasoning, .. } => "select: "@ + reasoning,
        ActionView::Scroll { reasoning, .. } => "scroll: "@ + reasoning,
        ActionView::Wait { reasoning } => "wait: "@ + reasoning,
        ActionView::Navigate { url, reasoning } => "navigate to "@ + url + ": "@ + reasoning,
        _ => seq![],
    }
}

/// A click on a page with a button counts as a form submission.
pub open spec fn submits_form(a: ActionView, els: Seq<ElementModel>) -> bool {
    a is Click && exists|i: int| 0 <= i < els.len() && #[trigger] els[i].kind == ElementKind::Button
}

/// A page is about authentication when its hint mentions login or auth, or
/// its URL mentions OAuth (all lower-cased).
pub open spec fn auth_page(hint: Seq<char>, url: Seq<char>) -> bool {
    contains(unicode_lower(hint), "login"@) || contains(unicode_lower(hint), "auth"@) || contains(
        unicode_lower(url),
        "oauth"@,
    )
}

/// The authentication state after a step: an auth page starts a flow, and
/// a flow with an auth cookie in the jar is authenticated.
pub open spec fn next_auth_state(s: AuthState, auth_related: bool, has_auth_cookie: bool) -> AuthState {
    let s1 = if auth_related && s == AuthState::NoActivity {
        AuthState::InProgress
    } else {
        s
    };
    if has_auth_cookie && s1 == AuthState::InProgress {
        AuthState::Authenticated
    } else {
        s1
    }
}

fn action_note_exec(a: &Action) -> (r: String)
    ensures
        r@ == action_note(a@),
{
    let (head, reason): (&str, &String) = match a {
        Action::Click { reasoning, .. } => ("click: ", reasoning),
        Action::Type { reasoning, .. } => ("type: ", reasoning),
        Action::Select { reasoning, .. } => ("select: ", reasoning),
        Action::Scroll { reasoning, .. } => ("scroll: ", reasoning),
        Action::Wait { reasoning } => ("wait: ", reasoning),
        Action::Navigate { url, reasoning } => {
            let mut r = copy_str("navigate to ");
            push_str(&mut r, url.as_str());
            push_str(&mut r, ": ");
            push_str(&mut r, reasoning.as_str());
            return r;
        },
        _ => {
            let r = String::new();
            return r;
        },
    };
    let mut r = copy_str(head);
    push_str(&mut r, reason.as_str());
    r
}

/// Track the session after a step: remember where it started, merge the
/// cookies read from the browser, record the page with what was done on it
/// (and whether a form was submitted and the page is about
/// authentication), and move the authentication state along.
pub fn track_session(sess: &mut SessionState, step: &Step, action: &Action, new_cookies: Vec<CookieEntry>)
    ensures
        opt_str_view(final(sess).origin_url) == match opt_str_view(old(sess).origin_url) {
            Some(u) => Some(u),
            None => Some(step.observation.url@),
        },
        final(sess).cookies@ == with_cookies(old(sess).cookies@, new_cookies@),
        final(sess).navigation_history@.len() == old(sess).navigation_history@.len() + 1,
        final(sess).navigation_history@.drop_last() == old(sess).navigation_history@,
        ({
            let e = final(sess).navigation_history@.last();
            let note = action_note(action@);
            &&& e.url@ == step.observation.url@
            &&& e.title@ == step.observation.title@
            &&& (if note.len() == 0 {
                e.actions_taken@.len() == 0
            } else {
                e.actions_taken@.len() == 1 && e.actions_taken@[0]@ == note
            })
            &&& e.form_submitted == submits_form(action@, models(step.observation.elements@))
            &&& e.auth_related == auth_page(step.observation.page_hint@, step.observation.url@)
        }),
        final(sess).auth_state == next_auth_state(
            old(sess).auth_state,
            auth_page(step.observation.page_hint@, step.observation.url@),
            any_auth_cookie(with_cookies(old(sess).cookies@, new_cookies@)),
        ),
        final(sess).page_memory == old(sess).page_memory,
{
    if sess.origin_url.is_none() {
        sess.origin_url = Some(copy_str(step.observation.url.as_str()));
    }
    let ghost start = sess.cookies@;
    let ghost all = new_cookies@;
    let mut rest = new_cookies;
    let n = rest.len();
    let mut i: usize = 0;
    assert(all.skip(0) =~= all);
    while rest.len() > 0
        invariant
            n == all.len(),
            i <= all.len(),
            rest@ == all.skip(i as int),
            sess.cookies@ == with_cookies(start, all.take(i as int)),
            sess.page_memory == old(sess).page_memory,
            sess.navigation_history == old(sess).navigation_history,
            sess.auth_state == old(sess).auth_state,
            opt_str_view(sess.origin_url) == match opt_str_view(old(sess).origin_url) {
                Some(u) => Some(u),
                None => Some(step.observation.url@),
            },
        decreases rest@.len(),
    {
        proof {
            assert(all.take(i + 1).drop_last() =~= all.take(i as int));
        }
        let c = rest.remove(0);
        assert(c == all[i as int]);
        sess.add_cookie(c);
        assert(rest@ =~= all.skip(i + 1));
        i = i + 1;
    }
    assert(all.take(i as int) =~= all);
    let note = action_note_exec(action);
    let is_click = match action {
        Action::Click { .. } => true,
        _ => false,
    };
    let mut has_button = false;
    let mut j: usize = 0;
    while j < step.observation.elements.len()
        invariant
            j <= step.observation.elements@.len(),
            has_button == exists|k: int| 0 <= k < j && #[trigger] step.observation.elements@[k].kind == ElementKind::Button,
        decreases step.observation.elements@.len() - j,
    {
        if step.observation.elements[j].kind == ElementKind::Button {
            has_button = true;
        }
        j = j + 1;
    }
    proof {
        let els = models(step.observation.elements@);
        if has_button {
            let k = choose|k: int| 0 <= k < step.observation.elements@.len() && #[trigger] step.observation.elements@[k].kind == ElementKind::Button;
            assert(els[k].kind == ElementKind::Button);
        }
        if exists|k: int| 0 <= k < els.len() && #[trigger] els[k].kind == ElementKind::Button {
            let k = choose|k: int| 0 <= k < els.len() && #[trigger] els[k].kind == ElementKind::Button;
            assert(step.observation.elements@[k].kind == ElementKind::Button);
        }
    }
    let form_submitted = is_click && has_button;
    let hint_l = chars_of(to_lower(step.observation.page_hint.as_str()).as_str());
    let url_l = chars_of(to_lower(step.observation.url.as_str()).as_str());
    let auth_related = has(hint_l.as_slice(), "login") || has(hint_l.as_slice(), "auth") || has(
        url_l.as_slice(),
        "oauth",
    );
    let actions: Vec<String> = if note.as_str().is_empty() {
        Vec::new()
    } else {
        vec![note]
    };
    sess.record_navigation(
        copy_str(step.observation.url.as_str()),
        copy_str(step.observation.title.as_str()),
        actions,
        form_submitted,
        auth_related,
    );
    if auth_related && sess.auth_state == AuthState::NoActivity {
        sess.auth_state = AuthState::InProgress;
    }
    if sess.has_auth_cookies() && sess.auth_state == AuthState::InProgress {
        sess.auth_state = AuthState::Authenticated;
    }
}


// ── Performing an action ─────────────────────────────────────────────

/// Script text before the element id of a click, type or select.
pub const ACTION_JS_HEAD: &'static str = r#"(() => {
                    
function deepQuerySelector(root, sel, depth) {
    if (depth === undefined) depth = 0;
    if (depth > 5) return null;
    const found = root.querySelector(sel);
    if (found) return found;
    const all = root.querySelectorAll('*');
    for (const node of all) {
        if (node.shadowRoot) {
            const sr = deepQuerySelector(node.shadowRoot, sel, depth + 1);
            if (sr) return sr;
        }
    }
    const iframes = root.querySelectorAll('iframe');
    for (const iframe of iframes) {
        try {
            if (iframe.contentDocument) {
                const ir = deepQuerySelector(iframe.contentDocument, sel, depth + 1);
                if (ir) return ir;
            }
        } catch(_) {}
    }
    return null;
}

                    const el = deepQuerySelector(document, '[data-lad-id=""#;

/// Script text after the element id of a click.
pub const CLICK_JS_TAIL: &'static str = r#""]');
                    if (el) el.click();
                })()"#;

/// Script text between the element id and the value of a typing.
pub const TYPE_JS_MID: &'static str = r#""]');
                    if (el) {
                        el.focus();
                        el.value = '"#;

/// Script text after the value of a typing.
pub const TYPE_JS_TAIL: &'static str = r#"';
                        el.dispatchEvent(new Event('input', { bubbles: true }));
                        el.dispatchEvent(new Event('change', { bubbles: true }));
                    }
                })()"#;

/// Script text between the element id and the value of a selection.
pub const SELECT_JS_MID: &'static str = r#""]');
                    if (el) { el.value = '"#;

/// Script text after the value of a selection.
pub const SELECT_JS_TAIL: &'static str = r#"'; el.dispatchEvent(new Event('change', { bubbles: true })); }
                })()"#;

/// The script that clicks the element with `data-lad-id` `id` (searching
/// shadow roots and same-origin iframes, at most 5 levels deep).
pub open spec fn click_script(id: u32) -> Seq<char> {
    ACTION_JS_HEAD@ + dec(id as nat) + CLICK_JS_TAIL@
}

/// The script that focuses the element, sets its value to the escaped
/// text and fires `input` and `change`.
pub open spec fn type_script(id: u32, escaped: Seq<char>) -> Seq<char> {
    ACTION_JS_HEAD@ + dec(id as nat) + TYPE_JS_MID@ + escaped + TYPE_JS_TAIL@
}

/// The script that sets the element's value to the escaped text and fires
/// `change`.
pub open spec fn select_script(id: u32, escaped: Seq<char>) -> Seq<char> {
    ACTION_JS_HEAD@ + dec(id as nat) + SELECT_JS_MID@ + escaped + SELECT_JS_TAIL@
}

/// The script that scrolls the window 300 pixels `up`, `down`, `left` or
/// `right` (down for any other direction).
pub open spec fn scroll_script(direction: Seq<char>) -> Seq<char> {
    if direction == "up"@ {
        "window.scrollBy(0, -300)"@
    } else if direction == "left"@ {
        "window.scrollBy(-300, 0)"@
    } else if direction == "right"@ {
        "window.scrollBy(300, 0)"@
    } else {
        "window.scrollBy(0, 300)"@
    }
}

/// What performing an action asks of the page.
#[derive(Debug)]
pub enum ActionEffect {
    /// Evaluate this script on the page.
    Script(String),
    /// Let the page settle for this many milliseconds.
    Pause(u64),
    /// Navigate to this URL, wait a second, and check where the page landed.
    Visit(String),
    /// The action is refused, with this message.
    Refused(String),
    /// Nothing is done on the page.
    Nothing,
}

/// The message of a navigation refused as unsafe.
pub open spec fn unsafe_navigation(url: Seq<char>) -> Seq<char> {
    "blocked navigation to unsafe URL: "@ + url
}

/// What performing `action` asks of the page: a script for a click, a
/// typing (value escaped), a selection or a scroll; a two-second pause for
/// a wait; a visit for a navigation to a safe URL (`bypass` lifting the
/// address checks), a refusal for an unsafe one; nothing for done and
/// escalate.
pub fn action_effect(action: &Action, bypass: bool) -> (r: ActionEffect)
    requires
        action@ matches ActionView::Navigate { url, .. } ==> url_len_ok(url),
    ensures
        match action@ {
            ActionView::Click { element, .. } => r matches ActionEffect::Script(s) && s@ == click_script(element),
            ActionView::Type { element, value, .. } => r matches ActionEffect::Script(s) && s@
                == type_script(element, js_escaped(value)),
            ActionView::Select { element, value, .. } => r matches ActionEffect::Script(s) && s@
                == select_script(element, js_escaped(value)),
            ActionView::Scroll { direction, .. } => r matches ActionEffect::Script(s) && s@
                == scroll_script(direction),
            ActionView::Wait { .. } => r matches ActionEffect::Pause(ms) && ms == 2000,
            ActionView::Navigate { url, .. } => if url_is_safe(url, bypass) {
                r matches ActionEffect::Visit(u) && u@ == url
            } else {
                r matches ActionEffect::Refused(m) && m@ == unsafe_navigation(url)
            },
            _ => r is Nothing,
        },
{
    proof {
        reveal_strlit("up");
        reveal_strlit("left");
        reveal_strlit("right");
    }
    match action {
        Action::Click { element, .. } => {
            let mut s = copy_str(ACTION_JS_HEAD);
            push_dec(&mut s, *element as u64);
            push_str(&mut s, CLICK_JS_TAIL);
            ActionEffect::Script(s)
        },
        Action::Type { element, value, .. } => {
            let mut s = copy_str(ACTION_JS_HEAD);
            push_dec(&mut s, *element as u64);
            push_str(&mut s, TYPE_JS_MID);
            let escaped = js_escape(value.as_str());
            push_str(&mut s, escaped.as_str());
            push_str(&mut s, TYPE_JS_TAIL);
            ActionEffect::Script(s)
        },
        Action::Select { element, value, .. } => {
            let mut s = copy_str(ACTION_JS_HEAD);
            push_dec(&mut s, *element as u64);
            push_str(&mut s, SELECT_JS_MID);
            let escaped = js_escape(value.as_str());
            push_str(&mut s, escaped.as_str());
            push_str(&mut s, SELECT_JS_TAIL);
            ActionEffect::Script(s)
        },
        Action::Scroll { direction, .. } => {
            let d = direction.as_str();
            let s = if str_eq(d, "up") {
                copy_str("window.scrollBy(0, -300)")
            } else if str_eq(d, "left") {
                copy_str("window.scrollBy(-300, 0)")
            } else if str_eq(d, "right") {
                copy_str("window.scrollBy(300, 0)")
            } else {
                copy_str("window.scrollBy(0, 300)")
            };
            ActionEffect::Script(s)
        },
        Action::Wait { .. } => ActionEffect::Pause(2000),
        Action::Navigate { url, .. } => {
            if is_safe_url_with(url.as_str(), bypass) {
                ActionEffect::Visit(copy_str(url.as_str()))
            } else {
                let mut m = copy_str("blocked navigation to unsafe URL: ");
                push_str(&mut m, url.as_str());
                ActionEffect::Refused(m)
            }
        },
        _ => ActionEffect::Nothing,
    }
}

} // verus!
