//! OAuth flow detection, provider identification, and flow state tracking.
use vstd::prelude::*;

use crate::text::{chars_of, contains, copy_str, concat2, has, to_lower, unicode_lower};

verus! {

/// Known OAuth providers.
#[derive(Debug, Clone, Copy, PartialEq, Eq, Structural)]
pub enum OAuthProvider {
    Google,
    GitHub,
    Facebook,
    Microsoft,
    Apple,
    Twitter,
    /// Any provider not in the known list.
    Generic,
}

/// OAuth flow state machine.
#[derive(Debug, Clone)]
pub enum OAuthFlowState {
    /// No OAuth flow detected.
    Idle,
    /// Redirect to OAuth provider detected. Contains the origin URL.
    Redirecting { origin_url: String },
    /// On the provider's login page.
    AtProvider { provider: OAuthProvider, origin_url: String },
    /// On the consent/scope approval page.
    Consent { provider: OAuthProvider, origin_url: String },
    /// Redirected back to the origin with auth code/token.
    Callback { provider: OAuthProvider, origin_url: String },
    /// OAuth flow completed successfully.
    Completed { provider: OAuthProvider },
    /// OAuth flow failed.
    Failed { reason: String },
}

/// Mathematical model of a flow state: strings by their views.
pub enum FlowView {
    Idle,
    Redirecting { origin_url: Seq<char> },
    AtProvider { provider: OAuthProvider, origin_url: Seq<char> },
    Consent { provider: OAuthProvider, origin_url: Seq<char> },
    Callback { provider: OAuthProvider, origin_url: Seq<char> },
    Completed { provider: OAuthProvider },
    Failed { reason: Seq<char> },
}

impl View for OAuthFlowState {
    type V = FlowView;

    open spec fn view(&self) -> FlowView {
        match self {
            OAuthFlowState::Idle => FlowView::Idle,
            OAuthFlowState::Redirecting { origin_url } => FlowView::Redirecting {
                origin_url: origin_url@,
            },
            OAuthFlowState::AtProvider { provider, origin_url } => FlowView::AtProvider {
                provider: *provider,
                origin_url: origin_url@,
            },
            OAuthFlowState::Consent { provider, origin_url } => FlowView::Consent {
                provider: *provider,
                origin_url: origin_url@,
            },
            OAuthFlowState::Callback { provider, origin_url } => FlowView::Callback {
                provider: *provider,
                origin_url: origin_url@,
            },
            OAuthFlowState::Completed { provider } => FlowView::Completed { provider: *provider },
            OAuthFlowState::Failed { reason } => FlowView::Failed { reason: reason@ },
        }
    }
}

impl Default for OAuthFlowState {
    fn default() -> (s: Self)
        ensures
            s@ == FlowView::Idle,
    {
        OAuthFlowState::Idle
    }
}

// ── Model ────────────────────────────────────────────────────────────

/// Provider of a lower-cased URL: the first known pattern it contains.
pub open spec fn provider_of(u: Seq<char>) -> Option<OAuthProvider> {
    if contains(u, "accounts.google.com"@) {
        Some(OAuthProvider::Google)
    } else if contains(u, "accounts.youtube.com"@) {
        Some(OAuthProvider::Google)
    } else if contains(u, "github.com/login/oauth"@) {
        Some(OAuthProvider::GitHub)
    } else if contains(u, "github.com/login"@) {
        Some(OAuthProvider::GitHub)
    } else if contains(u, "facebook.com/v"@) {
        Some(OAuthProvider::Facebook)
    } else if contains(u, "facebook.com/dialog/oauth"@) {
        Some(OAuthProvider::Facebook)
    } else if contains(u, "login.microsoftonline.com"@) {
        Some(OAuthProvider::Microsoft)
    } else if contains(u, "login.live.com"@) {
        Some(OAuthProvider::Microsoft)
    } else if contains(u, "appleid.apple.com"@) {
        Some(OAuthProvider::Apple)
    } else if contains(u, "api.twitter.com/oauth"@) {
        Some(OAuthProvider::Twitter)
    } else if contains(u, "twitter.com/i/oauth2"@) {
        Some(OAuthProvider::Twitter)
    } else {
        None
    }
}

/// The URL (as given) carries an OAuth callback parameter.
pub open spec fn has_callback_param(u: Seq<char>) -> bool {
    ||| contains(u, "code="@)
    ||| contains(u, "access_token="@)
    ||| contains(u, "token="@)
    ||| contains(u, "id_token="@)
    ||| contains(u, "state="@)
    ||| contains(u, "oauth_token="@)
    ||| contains(u, "oauth_verifier="@)
}

/// Lower-cased visible text mentions consent / authorization.
pub open spec fn has_consent_keyword(t: Seq<char>) -> bool {
    ||| contains(t, "authorize"@)
    ||| contains(t, "allow access"@)
    ||| contains(t, "grant access"@)
    ||| contains(t, "permission"@)
    ||| contains(t, "consent"@)
    ||| contains(t, "approve"@)
    ||| contains(t, "continue as"@)
    ||| contains(t, "wants to access"@)
    ||| contains(t, "is requesting access"@)
    ||| contains(t, "sign in to continue"@)
}

/// Provider detected for a URL (matched case-insensitively).
pub open spec fn spec_detect_provider(url: Seq<char>) -> Option<OAuthProvider> {
    provider_of(unicode_lower(url))
}

/// Visible text suggests a consent page.
pub open spec fn spec_is_consent(text: Seq<char>) -> bool {
    has_consent_keyword(unicode_lower(text))
}

/// Next flow state, given the current one and a page observation.
pub open spec fn next_flow(
    cur: FlowView,
    url: Seq<char>,
    text: Seq<char>,
    origin: Option<Seq<char>>,
) -> FlowView {
    match cur {
        FlowView::Idle => match spec_detect_provider(url) {
            Some(p) => FlowView::AtProvider {
                provider: p,
                origin_url: match origin {
                    Some(o) => o,
                    None => Seq::empty(),
                },
            },
            None => FlowView::Idle,
        },
        FlowView::Redirecting { origin_url } => match spec_detect_provider(url) {
            Some(p) => FlowView::AtProvider { provider: p, origin_url },
            None => FlowView::Idle,
        },
        FlowView::AtProvider { provider, origin_url } => {
            if spec_is_consent(text) {
                FlowView::Consent { provider, origin_url }
            } else if has_callback_param(url) {
                FlowView::Callback { provider, origin_url }
            } else if spec_detect_provider(url) is None {
                if contains(url, origin_url) {
                    FlowView::Callback { provider, origin_url }
                } else {
                    FlowView::Failed { reason: "navigated away from provider without callback"@ }
                }
            } else {
                cur
            }
        },
        FlowView::Consent { provider, origin_url } => {
            if spec_detect_provider(url) is None || has_callback_param(url) {
                FlowView::Callback { provider, origin_url }
            } else {
                cur
            }
        },
        FlowView::Callback { provider, .. } => FlowView::Completed { provider },
        _ => cur,
    }
}

/// The provider a flow state is about, if any.
pub open spec fn flow_provider(f: FlowView) -> Option<OAuthProvider> {
    match f {
        FlowView::AtProvider { provider, .. } => Some(provider),
        FlowView::Consent { provider, .. } => Some(provider),
        FlowView::Callback { provider, .. } => Some(provider),
        FlowView::Completed { provider } => Some(provider),
        _ => None,
    }
}

/// A completed or failed flow stays as it is whatever is observed next,
/// and a callback always completes, with its provider.
pub proof fn lemma_flow_ends(cur: FlowView, url: Seq<char>, text: Seq<char>, origin: Option<Seq<char>>)
    ensures
        (cur is Completed || cur is Failed) ==> next_flow(cur, url, text, origin) == cur,
        (cur matches FlowView::Callback { provider, .. } ==> next_flow(cur, url, text, origin)
            == (FlowView::Completed { provider })),
{
}

/// Once at a provider, a flow keeps that provider until it fails: the next
/// state is about the same provider, or a failure.
pub proof fn lemma_flow_keeps_provider(
    cur: FlowView,
    url: Seq<char>,
    text: Seq<char>,
    origin: Option<Seq<char>>,
)
    requires
        flow_provider(cur) is Some,
    ensures
        (next_flow(cur, url, text, origin) is Failed) || flow_provider(
            next_flow(cur, url, text, origin),
        ) == flow_provider(cur),
{
}

/// The consent wording: lower-cased visible text suggests a consent page
/// exactly when it contains one of `authorize`, `allow access`,
/// `grant access`, `permission`, `consent`, `approve`, `continue as`,
/// `wants to access`, `is requesting access`, `sign in to continue`.
pub proof fn lemma_consent_wording(text: Seq<char>)
    ensures
        spec_is_consent(text) <==> {
            let low = unicode_lower(text);
            contains(low, "authorize"@) || contains(low, "allow access"@) || contains(
                low,
                "grant access"@,
            ) || contains(low, "permission"@) || contains(low, "consent"@) || contains(
                low,
                "approve"@,
            ) || contains(low, "continue as"@) || contains(low, "wants to access"@) || contains(
                low,
                "is requesting access"@,
            ) || contains(low, "sign in to continue"@)
        },
{
}

/// The callback parameters: a URL, as given, carries an OAuth callback
/// exactly when it contains one of `code=`, `access_token=`, `token=`,
/// `id_token=`, `state=`, `oauth_token=`, `oauth_verifier=`.
pub proof fn lemma_callback_wording(url: Seq<char>)
    ensures
        has_callback_param(url) <==> (contains(url, "code="@) || contains(url, "access_token="@)
            || contains(url, "token="@) || contains(url, "id_token="@) || contains(url, "state="@)
            || contains(url, "oauth_token="@) || contains(url, "oauth_verifier="@)),
{
}

/// The steps of a flow. Idle or redirecting, a page at a known provider
/// moves the flow to that provider (keeping the redirect's origin, or taking
/// the given one), any other page leaves it idle. At a provider, consent
/// wording moves it to consent; else a callback parameter, or a page off the
/// providers that is on the origin, to callback; else a page off the
/// providers to failure; a page at a provider keeps it. At consent, a
/// callback parameter or a page off the providers moves it to callback.
pub proof fn lemma_flow_steps(cur: FlowView, url: Seq<char>, text: Seq<char>, origin: Option<Seq<char>>)
    ensures
        cur is Idle ==> next_flow(cur, url, text, origin) == match spec_detect_provider(url) {
            Some(pv) => FlowView::AtProvider {
                provider: pv,
                origin_url: match origin {
                    Some(o) => o,
                    None => Seq::<char>::empty(),
                },
            },
            None => FlowView::Idle,
        },
        cur matches FlowView::Redirecting { origin_url } ==> next_flow(cur, url, text, origin)
            == match spec_detect_provider(url) {
            Some(pv) => FlowView::AtProvider { provider: pv, origin_url },
            None => FlowView::Idle,
        },
        cur matches FlowView::AtProvider { provider, origin_url } ==> next_flow(
            cur,
            url,
            text,
            origin,
        ) == (if spec_is_consent(text) {
            FlowView::Consent { provider, origin_url }
        } else if has_callback_param(url) || (spec_detect_provider(url) is None && contains(
            url,
            origin_url,
        )) {
            FlowView::Callback { provider, origin_url }
        } else if spec_detect_provider(url) is None {
            FlowView::Failed { reason: "navigated away from provider without callback"@ }
        } else {
            cur
        }),
        cur matches FlowView::Consent { provider, origin_url } ==> next_flow(cur, url, text, origin)
            == (if has_callback_param(url) || spec_detect_provider(url) is None {
            FlowView::Callback { provider, origin_url }
        } else {
            cur
        }),
{
}

/// The name of a provider as `{:?}` prints it.
pub open spec fn provider_name(p: OAuthProvider) -> Seq<char> {
    match p {
        OAuthProvider::Google => "Google"@,
        OAuthProvider::GitHub => "GitHub"@,
        OAuthProvider::Facebook => "Facebook"@,
        OAuthProvider::Microsoft => "Microsoft"@,
        OAuthProvider::Apple => "Apple"@,
        OAuthProvider::Twitter => "Twitter"@,
        OAuthProvider::Generic => "Generic"@,
    }
}

/// Human-readable description of a flow state.
pub open spec fn flow_text(s: FlowView) -> Option<Seq<char>> {
    match s {
        FlowView::Idle => None,
        FlowView::Redirecting { origin_url } => Some(
            "OAuth: redirecting from "@ + origin_url + " to auth provider"@,
        ),
        FlowView::AtProvider { provider, origin_url } => Some(
            "OAuth: at "@ + provider_name(provider) + " login page (started from "@ + origin_url
                + "). Fill credentials to continue."@,
        ),
        FlowView::Consent { provider, .. } => Some(
            "OAuth: "@ + provider_name(provider)
                + " asking for permission. Click 'Allow' or 'Authorize' to proceed."@,
        ),
        FlowView::Callback { provider, .. } => Some(
            "OAuth: "@ + provider_name(provider) + " redirected back. Auth flow completing."@,
        ),
        FlowView::Completed { provider } => Some(
            "OAuth: "@ + provider_name(provider) + " flow completed successfully."@,
        ),
        FlowView::Failed { reason } => Some("OAuth: flow failed \u{2014} "@ + reason),
    }
}

// ── Provider laws ────────────────────────────────────────────────────

/// The lower-cased URL names Google's sign-in host.
pub open spec fn names_google(s: Seq<char>) -> bool {
    contains(s, "accounts.google.com"@) || contains(s, "accounts.youtube.com"@)
}

/// The lower-cased URL names GitHub's sign-in pages.
pub open spec fn names_github(s: Seq<char>) -> bool {
    contains(s, "github.com/login/oauth"@) || contains(s, "github.com/login"@)
}

/// The lower-cased URL names Facebook's login dialog or versioned API.
pub open spec fn names_facebook(s: Seq<char>) -> bool {
    contains(s, "facebook.com/v"@) || contains(s, "facebook.com/dialog/oauth"@)
}

/// The lower-cased URL names a Microsoft sign-in host.
pub open spec fn names_microsoft(s: Seq<char>) -> bool {
    contains(s, "login.microsoftonline.com"@) || contains(s, "login.live.com"@)
}

/// The lower-cased URL names Apple's sign-in host.
pub open spec fn names_apple(s: Seq<char>) -> bool {
    contains(s, "appleid.apple.com"@)
}

/// The lower-cased URL names a Twitter OAuth endpoint.
pub open spec fn names_twitter(s: Seq<char>) -> bool {
    contains(s, "api.twitter.com/oauth"@) || contains(s, "twitter.com/i/oauth2"@)
}

/// Which provider a URL names decides the detected provider, earlier
/// providers in the order Google, GitHub, Facebook, Microsoft, Apple,
/// Twitter winning when a URL names several; a URL that names none has no
/// provider, and a detected provider is always one the URL names.
pub proof fn lemma_provider_by_name(lu: Seq<char>)
    ensures
        names_google(lu) ==> provider_of(lu) == Some(OAuthProvider::Google),
        !names_google(lu) && names_github(lu) ==> provider_of(lu) == Some(OAuthProvider::GitHub),
        !names_google(lu) && !names_github(lu) && names_facebook(lu) ==> provider_of(lu) == Some(
            OAuthProvider::Facebook,
        ),
        !names_google(lu) && !names_github(lu) && !names_facebook(lu) && names_microsoft(lu)
            ==> provider_of(lu) == Some(OAuthProvider::Microsoft),
        !names_google(lu) && !names_github(lu) && !names_facebook(lu) && !names_microsoft(lu)
            && names_apple(lu) ==> provider_of(lu) == Some(OAuthProvider::Apple),
        !names_google(lu) && !names_github(lu) && !names_facebook(lu) && !names_microsoft(lu)
            && !names_apple(lu) && names_twitter(lu) ==> provider_of(lu) == Some(
            OAuthProvider::Twitter,
        ),
        !names_google(lu) && !names_github(lu) && !names_facebook(lu) && !names_microsoft(lu)
            && !names_apple(lu) && !names_twitter(lu) ==> provider_of(lu) is None,
        provider_of(lu) == Some(OAuthProvider::Microsoft) ==> names_microsoft(lu),
        provider_of(lu) == Some(OAuthProvider::Google) ==> names_google(lu),
        provider_of(lu) == Some(OAuthProvider::GitHub) ==> names_github(lu),
        provider_of(lu) == Some(OAuthProvider::Facebook) ==> names_facebook(lu),
        provider_of(lu) == Some(OAuthProvider::Apple) ==> names_apple(lu),
        provider_of(lu) == Some(OAuthProvider::Twitter) ==> names_twitter(lu),
        provider_of(lu) != Some(OAuthProvider::Generic),
{
}

// ── Executable ───────────────────────────────────────────────────────

/// Detect if a URL belongs to a known OAuth provider.
pub fn detect_provider(url: &str) -> (r: Option<OAuthProvider>)
    ensures
        r == spec_detect_provider(url@),
{
    let lower = to_lower(url);
    let u = chars_of(lower.as_str());
    let u = u.as_slice();
    if has(u, "accounts.google.com") {
        Some(OAuthProvider::Google)
    } else if has(u, "accounts.youtube.com") {
        Some(OAuthProvider::Google)
    } else if has(u, "github.com/login/oauth") {
        Some(OAuthProvider::GitHub)
    } else if has(u, "github.com/login") {
        Some(OAuthProvider::GitHub)
    } else if has(u, "facebook.com/v") {
        Some(OAuthProvider::Facebook)
    } else if has(u, "facebook.com/dialog/oauth") {
        Some(OAuthProvider::Facebook)
    } else if has(u, "login.microsoftonline.com") {
        Some(OAuthProvider::Microsoft)
    } else if has(u, "login.live.com") {
        Some(OAuthProvider::Microsoft)
    } else if has(u, "appleid.apple.com") {
        Some(OAuthProvider::Apple)
    } else if has(u, "api.twitter.com/oauth") {
        Some(OAuthProvider::Twitter)
    } else if has(u, "twitter.com/i/oauth2") {
        Some(OAuthProvider::Twitter)
    } else {
        None
    }
}

/// Check if a URL contains OAuth callback parameters.
pub fn is_callback_url(url: &str) -> (b: bool)
    ensures
        b == has_callback_param(url@),
{
    let v = chars_of(url);
    let u = v.as_slice();
    has(u, "code=") || has(u, "access_token=") || has(u, "token=") || has(u, "id_token=") || has(
        u,
        "state=",
    ) || has(u, "oauth_token=") || has(u, "oauth_verifier=")
}

/// Check if visible text suggests a consent/authorization page.
pub fn is_consent_page(visible_text: &str) -> (b: bool)
    ensures
        b == spec_is_consent(visible_text@),
{
    let lower = to_lower(visible_text);
    let v = chars_of(lower.as_str());
    let t = v.as_slice();
    has(t, "authorize") || has(t, "allow access") || has(t, "grant access") || has(t, "permission")
        || has(t, "consent") || has(t, "approve") || has(t, "continue as") || has(
        t,
        "wants to access",
    ) || has(t, "is requesting access") || has(t, "sign in to continue")
}

/// Copy of a flow state.
fn copy_state(s: &OAuthFlowState) -> (r: OAuthFlowState)
    ensures
        r@ == s@,
{
    match s {
        OAuthFlowState::Idle => OAuthFlowState::Idle,
        OAuthFlowState::Redirecting { origin_url } => OAuthFlowState::Redirecting {
            origin_url: copy_str(origin_url.as_str()),
        },
        OAuthFlowState::AtProvider { provider, origin_url } => OAuthFlowState::AtProvider {
            provider: *provider,
            origin_url: copy_str(origin_url.as_str()),
        },
        OAuthFlowState::Consent { provider, origin_url } => OAuthFlowState::Consent {
            provider: *provider,
            origin_url: copy_str(origin_url.as_str()),
        },
        OAuthFlowState::Callback { provider, origin_url } => OAuthFlowState::Callback {
            provider: *provider,
            origin_url: copy_str(origin_url.as_str()),
        },
        OAuthFlowState::Completed { provider } => OAuthFlowState::Completed { provider: *provider },
        OAuthFlowState::Failed { reason } => OAuthFlowState::Failed {
            reason: copy_str(reason.as_str()),
        },
    }
}

/// Determine the next OAuth flow state from the current state and a page
/// observation.
pub fn advance_flow(
    current: &OAuthFlowState,
    url: &str,
    visible_text: &str,
    origin_url: Option<&str>,
) -> (r: OAuthFlowState)
    ensures
        r@ == next_flow(
            current@,
            url@,
            visible_text@,
            match origin_url {
                Some(o) => Some(o@),
                None => None,
            },
        ),
{
    match current {
        OAuthFlowState::Idle => {
            match detect_provider(url) {
                Some(provider) => OAuthFlowState::AtProvider {
                    provider,
                    origin_url: match origin_url {
                        Some(o) => copy_str(o),
                        None => String::new(),
                    },
                },
                None => OAuthFlowState::Idle,
            }
        },
        OAuthFlowState::Redirecting { origin_url } => {
            match detect_provider(url) {
                Some(provider) => OAuthFlowState::AtProvider {
                    provider,
                    origin_url: copy_str(origin_url.as_str()),
                },
                None => OAuthFlowState::Idle,
            }
        },
        OAuthFlowState::AtProvider { provider, origin_url } => {
            if is_consent_page(visible_text) {
                OAuthFlowState::Consent { provider: *provider, origin_url: copy_str(origin_url.as_str()) }
            } else if is_callback_url(url) {
                OAuthFlowState::Callback { provider: *provider, origin_url: copy_str(origin_url.as_str()) }
            } else if detect_provider(url).is_none() {
                let uv = chars_of(url);
                let ov = chars_of(origin_url.as_str());
                if is_callback_url(url) || crate::text::contains_exec(uv.as_slice(), ov.as_slice()) {
                    OAuthFlowState::Callback {
                        provider: *provider,
                        origin_url: copy_str(origin_url.as_str()),
                    }
                } else {
                    OAuthFlowState::Failed {
                        reason: copy_str("navigated away from provider without callback"),
                    }
                }
            } else {
                copy_state(current)
            }
        },
        OAuthFlowState::Consent { provider, origin_url } => {
            if detect_provider(url).is_none() || is_callback_url(url) {
                OAuthFlowState::Callback { provider: *provider, origin_url: copy_str(origin_url.as_str()) }
            } else {
                copy_state(current)
            }
        },
        OAuthFlowState::Callback { provider, .. } => OAuthFlowState::Completed { provider: *provider },
        _ => copy_state(current),
    }
}

/// The name of a provider as `{:?}` prints it.
fn provider_name_exec(p: OAuthProvider) -> (s: &'static str)
    ensures
        s@ == provider_name(p),
{
    match p {
        OAuthProvider::Google => "Google",
        OAuthProvider::GitHub => "GitHub",
        OAuthProvider::Facebook => "Facebook",
        OAuthProvider::Microsoft => "Microsoft",
        OAuthProvider::Apple => "Apple",
        OAuthProvider::Twitter => "Twitter",
        OAuthProvider::Generic => "Generic",
    }
}

/// Concatenation of three strings.
fn cat3(a: &str, b: &str, c: &str) -> (r: String)
    ensures
        r@ == a@ + b@ + c@,
{
    let ab = concat2(a, b);
    concat2(ab.as_str(), c)
}

/// Human-readable description of the OAuth flow for LLM context.
pub fn flow_context(state: &OAuthFlowState) -> (r: Option<String>)
    ensures
        match r {
            Some(s) => flow_text(state@) == Some(s@),
            None => flow_text(state@) is None,
        },
{
    match state {
        OAuthFlowState::Idle => None,
        OAuthFlowState::Redirecting { origin_url } => Some(
            cat3("OAuth: redirecting from ", origin_url.as_str(), " to auth provider"),
        ),
        OAuthFlowState::AtProvider { provider, origin_url } => {
            let a = cat3("OAuth: at ", provider_name_exec(*provider), " login page (started from ");
            Some(cat3(a.as_str(), origin_url.as_str(), "). Fill credentials to continue."))
        },
        OAuthFlowState::Consent { provider, .. } => Some(
            cat3(
                "OAuth: ",
                provider_name_exec(*provider),
                " asking for permission. Click 'Allow' or 'Authorize' to proceed.",
            ),
        ),
        OAuthFlowState::Callback { provider, .. } => Some(
            cat3(
                "OAuth: ",
                provider_name_exec(*provider),
                " redirected back. Auth flow completing.",
            ),
        ),
        OAuthFlowState::Completed { provider } => Some(
            cat3("OAuth: ", provider_name_exec(*provider), " flow completed successfully."),
        ),
        OAuthFlowState::Failed { reason } => Some(
            concat2("OAuth: flow failed \u{2014} ", reason.as_str()),
        ),
    }
}

} // verus!
