//! The pilot's actions, its recorded steps and the opt-in playbook learning
//! configuration.
use vstd::prelude::*;

use crate::playbook::Params;
use crate::semantic::SemanticView;

verus! {

/// A JSON value, carried through the library without being inspected.
#[verifier::external_type_specification]
#[verifier::external_body]
pub struct ExJsonValue(serde_json::Value);

/// What `{:?}` prints for a JSON value (`serde_json::Value`'s `Debug`).
pub uninterp spec fn json_debug(v: serde_json::Value) -> Seq<char>;

/// `format!("{:?}", v)` of a JSON value. The result is named by
/// [`json_debug`].
#[verifier::external_body]
pub(crate) fn json_debug_string(v: &serde_json::Value) -> (r: String)
    ensures
        r@ == json_debug(*v),
{
    format!("{v:?}")
}

/// A file system path.
#[verifier::external_type_specification]
#[verifier::external_body]
pub struct ExPathBuf(std::path::PathBuf);

/// A single action the pilot can take on the page.
#[derive(Debug)]
pub enum Action {
    /// Click an interactive element by its `data-lad-id`.
    Click { element: u32, reasoning: String },
    /// Type text into an input/textarea by its `data-lad-id`.
    Type { element: u32, value: String, reasoning: String },
    /// Select an option in a `<select>` element.
    Select { element: u32, value: String, reasoning: String },
    /// Scroll the viewport in a given direction.
    Scroll { direction: String, reasoning: String },
    /// Pause and wait for the page to settle.
    Wait { reasoning: String },
    /// Goal achieved -- includes the structured result.
    Done { result: serde_json::Value, reasoning: String },
    /// Navigate to a different URL (multi-page flow support).
    Navigate { url: String, reasoning: String },
    /// Cannot proceed -- escalate to the caller.
    Escalate { reason: String },
}

/// Model of an [`Action`], its strings as character sequences.
pub enum ActionView {
    Click { element: u32, reasoning: Seq<char> },
    Type { element: u32, value: Seq<char>, reasoning: Seq<char> },
    Select { element: u32, value: Seq<char>, reasoning: Seq<char> },
    Scroll { direction: Seq<char>, reasoning: Seq<char> },
    Wait { reasoning: Seq<char> },
    Done { result: serde_json::Value, reasoning: Seq<char> },
    Navigate { url: Seq<char>, reasoning: Seq<char> },
    Escalate { reason: Seq<char> },
}

impl View for Action {
    type V = ActionView;

    open spec fn view(&self) -> ActionView {
        match self {
            Action::Click { element, reasoning } => ActionView::Click {
                element: *element,
                reasoning: reasoning@,
            },
            Action::Type { element, value, reasoning } => ActionView::Type {
                element: *element,
                value: value@,
                reasoning: reasoning@,
            },
            Action::Select { element, value, reasoning } => ActionView::Select {
                element: *element,
                value: value@,
                reasoning: reasoning@,
            },
            Action::Scroll { direction, reasoning } => ActionView::Scroll {
                direction: direction@,
                reasoning: reasoning@,
            },
            Action::Wait { reasoning } => ActionView::Wait { reasoning: reasoning@ },
            Action::Done { result, reasoning } => ActionView::Done {
                result: *result,
                reasoning: reasoning@,
            },
            Action::Navigate { url, reasoning } => ActionView::Navigate {
                url: url@,
                reasoning: reasoning@,
            },
            Action::Escalate { reason } => ActionView::Escalate { reason: reason@ },
        }
    }
}

/// How the action was resolved, in priority order (Tier 0 highest).
#[derive(Debug, Clone, Copy, PartialEq, Eq, Structural)]
pub enum DecisionSource {
    /// Tier 0: Resolved by replaying a trained playbook.
    Playbook,
    /// Tier 1: Resolved by explicit `data-lad` developer hints.
    Hints,
    /// Tier 2: Resolved by a deterministic heuristic rule.
    Heuristic,
    /// Tier 3: Resolved by the LLM backend.
    Llm,
}

/// A step of the pilot's action history, with what playbook learning reads
/// of it.
#[derive(Debug)]
pub struct Step {
    /// Zero-based step index within the pilot run.
    pub index: u32,
    /// Semantic view observed at this step.
    pub observation: SemanticView,
    /// The action decided upon.
    pub action: Action,
    /// Whether a heuristic or the LLM produced the action.
    pub source: DecisionSource,
}

/// Opt-in playbook-learning configuration for a pilot run.
#[derive(Debug)]
pub struct LearnConfig {
    /// Explicit playbook name. When `None`, the name is derived from the goal.
    pub name: Option<String>,
    /// Param key/value pairs used to templatize captured `Type` / `Select`
    /// values.
    pub explicit_params: Params,
    /// Directory where the synthesized playbook JSON will be written.
    pub output_dir: std::path::PathBuf,
}

/// What `PathBuf::from` builds from a string.
pub uninterp spec fn path_from(s: Seq<char>) -> std::path::PathBuf;

/// `std::path::PathBuf::from(s)`. The result is named by [`path_from`].
#[verifier::external_body]
fn path_buf(s: &str) -> (p: std::path::PathBuf)
    ensures
        p == path_from(s@),
{
    std::path::PathBuf::from(s)
}

/// The directory playbooks are learned into by default.
pub open spec fn default_playbook_dir() -> Seq<char> {
    ".lad/playbooks"@
}

impl LearnConfig {
    /// Learning configuration writing to the default `.lad/playbooks/`
    /// directory.
    pub fn new(name: Option<String>, explicit_params: Params) -> (c: Self)
        ensures
            c.name == name,
            c.explicit_params@ == explicit_params@,
            c.output_dir == path_from(default_playbook_dir()),
    {
        LearnConfig { name, explicit_params, output_dir: path_buf(".lad/playbooks") }
    }
}

/// Configuration for a pilot run. The session shared across runs, when
/// there is one, is held by the caller beside it.
pub struct PilotConfig {
    /// Natural-language goal to accomplish.
    pub goal: String,
    /// Maximum number of steps before auto-escalation.
    pub max_steps: u32,
    /// Whether to check developer hints before other strategies.
    pub use_hints: bool,
    /// Whether to try rule-based heuristics before the LLM.
    pub use_heuristics: bool,
    /// Directory of `.json` playbooks for replay.
    pub playbook_dir: Option<std::path::PathBuf>,
    /// Maximum retries per step when an action fails.
    pub max_retries_per_step: u32,
    /// Whether to pause for a human on captchas.
    pub interactive: bool,
    /// Opt-in playbook learning.
    pub learn: Option<LearnConfig>,
    /// The URL the pilot was first pointed at.
    pub initial_url: Option<String>,
}

impl Default for PilotConfig {
    fn default() -> (c: Self)
        ensures
            c.goal@ == Seq::<char>::empty(),
            c.max_steps == 10,
            c.use_hints,
            c.use_heuristics,
            c.playbook_dir is None,
            c.max_retries_per_step == 2,
            !c.interactive,
            c.learn is None,
            c.initial_url is None,
    {
        PilotConfig {
            goal: String::new(),
            max_steps: 10,
            use_hints: true,
            use_heuristics: true,
            playbook_dir: None,
            max_retries_per_step: 2,
            interactive: false,
            learn: None,
            initial_url: None,
        }
    }
}

} // verus!
