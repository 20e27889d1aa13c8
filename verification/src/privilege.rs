//! Privilege detection and opt-in elevation.
//!
//! Two questions are kept apart: what privilege the process already holds, and
//! whether it may acquire more. Elevation may widen what a scan can observe; it
//! never widens what a deletion is allowed to touch.

use vstd::prelude::*;
use vstd::string::StringExecFns;
use crate::native_path::{NativeName, NativePath};
use crate::text::concat;

verus! {

/// Whether the current process already holds host-defined elevated privilege.
///
/// A backend that cannot answer must say so instead of guessing `NotElevated`.
#[derive(Debug, Clone, Copy, PartialEq, Eq, Structural)]
pub enum PrivilegeLevel {
    /// The process runs with ordinary user privilege.
    NotElevated,
    /// The process already holds elevated privilege.
    Elevated,
    /// The host could not be queried. Treated as "not elevated" for granting
    /// capability, and as "possibly elevated" for refusing destructive mode.
    Unknown,
}

impl PrivilegeLevel {
    /// Only a definite `Elevated` grants anything.
    pub open spec fn grants(self) -> bool {
        self is Elevated
    }

    /// Anything but a definite `NotElevated` refuses destructive mode.
    pub open spec fn refuses_destruction(self) -> bool {
        !(self is NotElevated)
    }

    pub open spec fn spelling(self) -> Seq<char> {
        match self {
            PrivilegeLevel::NotElevated => "not_elevated"@,
            PrivilegeLevel::Elevated => "elevated"@,
            PrivilegeLevel::Unknown => "unknown"@,
        }
    }

    /// Reports whether an elevation-gated read-only capability may be enabled.
    pub fn grants_elevated_capability(self) -> (r: bool)
        ensures
            r == self.grants(),
    {
        matches!(self, PrivilegeLevel::Elevated)
    }

    /// Reports whether destructive mode must be refused.
    pub fn must_refuse_destructive_mode(self) -> (r: bool)
        ensures
            r == self.refuses_destruction(),
    {
        matches!(self, PrivilegeLevel::Elevated | PrivilegeLevel::Unknown)
    }

    /// The level as text.
    pub fn text(self) -> (r: &'static str)
        ensures
            r@ == self.spelling(),
    {
        match self {
            PrivilegeLevel::NotElevated => "not_elevated",
            PrivilegeLevel::Elevated => "elevated",
            PrivilegeLevel::Unknown => "unknown",
        }
    }
}

/// Uncertainty resolves toward safety both ways: an unknown level grants
/// nothing and still refuses destruction, and a level that grants refuses too.
pub proof fn uncertainty_is_resolved_safely(level: PrivilegeLevel)
    ensures
        level is Unknown ==> !level.grants() && level.refuses_destruction(),
        level.grants() ==> level.refuses_destruction(),
        !level.refuses_destruction() ==> level is NotElevated,
{
}

/// How the current privilege level was established.
#[derive(Debug, Clone, Copy, PartialEq, Eq, Structural)]
pub enum PrivilegeOrigin {
    /// Privilege was inherited from how the user launched the process.
    InheritedFromSession,
    /// Privilege was granted by the user in response to an explicit request.
    GrantedOnRequest,
    /// No elevated privilege is held.
    Unprivileged,
}

/// A read-only observation of the process privilege state.
#[derive(Debug, Clone, Copy, PartialEq, Eq, Structural)]
pub struct PrivilegeObservation {
    /// The privilege level held at observation time.
    pub level: PrivilegeLevel,
    /// How that level came to be held.
    pub origin: PrivilegeOrigin,
}

impl PrivilegeObservation {
    /// Records an unelevated process.
    pub fn not_elevated() -> (r: PrivilegeObservation)
        ensures
            r.level == PrivilegeLevel::NotElevated,
            r.origin == PrivilegeOrigin::Unprivileged,
    {
        PrivilegeObservation {
            level: PrivilegeLevel::NotElevated,
            origin: PrivilegeOrigin::Unprivileged,
        }
    }

    /// Records privilege inherited from the launching session.
    pub fn inherited() -> (r: PrivilegeObservation)
        ensures
            r.level == PrivilegeLevel::Elevated,
            r.origin == PrivilegeOrigin::InheritedFromSession,
    {
        PrivilegeObservation {
            level: PrivilegeLevel::Elevated,
            origin: PrivilegeOrigin::InheritedFromSession,
        }
    }

    /// Records an indeterminate observation.
    pub fn unknown() -> (r: PrivilegeObservation)
        ensures
            r.level == PrivilegeLevel::Unknown,
            r.origin == PrivilegeOrigin::Unprivileged,
    {
        PrivilegeObservation {
            level: PrivilegeLevel::Unknown,
            origin: PrivilegeOrigin::Unprivileged,
        }
    }
}

/// Whether the host may be asked to raise privilege.
#[derive(Debug, Clone, Copy, PartialEq, Eq, Structural)]
pub enum ElevationPolicy {
    /// Observe existing privilege only. Never prompt.
    DetectOnly,
    /// The user explicitly opted in, so a host elevation prompt is permitted.
    RequestWhenUserOptedIn,
}

impl Default for ElevationPolicy {
    /// Requesting elevation requires naming the other variant explicitly.
    fn default() -> (r: ElevationPolicy)
        ensures
            r == ElevationPolicy::DetectOnly,
    {
        ElevationPolicy::DetectOnly
    }
}

/// Why an elevation request did not result in elevated privilege.
#[derive(Debug, Clone, PartialEq, Eq)]
pub enum ElevationRefusal {
    /// The user or the OS declined the request.
    Declined,
    /// The policy in effect did not permit requesting elevation.
    PolicyForbidsRequest,
    /// The host offers no elevation mechanism that may be used.
    Unavailable(String),
    /// The request mechanism itself failed.
    Failed(String),
}

/// What a refusal says.
#[verifier::ext_equal]
pub enum RefusalView {
    Declined,
    PolicyForbidsRequest,
    Unavailable(Seq<char>),
    Failed(Seq<char>),
}

impl View for ElevationRefusal {
    type V = RefusalView;

    open spec fn view(&self) -> RefusalView {
        match self {
            ElevationRefusal::Declined => RefusalView::Declined,
            ElevationRefusal::PolicyForbidsRequest => RefusalView::PolicyForbidsRequest,
            ElevationRefusal::Unavailable(text) => RefusalView::Unavailable(text@),
            ElevationRefusal::Failed(text) => RefusalView::Failed(text@),
        }
    }
}

impl ElevationRefusal {
    /// The refusal as a sentence.
    pub fn message(&self) -> (r: String)
        ensures
            r@ == (match self@ {
                RefusalView::Declined => "elevation was declined"@,
                RefusalView::PolicyForbidsRequest =>
                    "elevation was not requested because the policy is detect-only"@,
                RefusalView::Unavailable(text) =>
                    "no supported elevation mechanism is available on this host: "@ + text,
                RefusalView::Failed(text) => "the elevation request failed: "@ + text,
            }),
    {
        match self {
            ElevationRefusal::Declined => String::from_str("elevation was declined"),
            ElevationRefusal::PolicyForbidsRequest => String::from_str(
                "elevation was not requested because the policy is detect-only",
            ),
            ElevationRefusal::Unavailable(text) => concat(
                "no supported elevation mechanism is available on this host: ",
                text.as_str(),
            ),
            ElevationRefusal::Failed(text) => concat(
                "the elevation request failed: ",
                text.as_str(),
            ),
        }
    }
}

/// What to re-run when elevating by relaunch.
///
/// The forwarded arguments exclude the opt-in flag itself, so that the child
/// cannot evaluate the same opt-in again.
#[derive(Debug, Clone, PartialEq, Eq)]
pub struct ElevatedRelaunch {
    /// Absolute path to the executable image to run.
    pub program: NativePath,
    /// Arguments to forward, without the program name and without the opt-in flag.
    pub arguments: Vec<NativeName>,
}

impl ElevatedRelaunch {
    /// Describes a relaunch of `program` with `arguments`.
    pub fn new(program: NativePath, arguments: Vec<NativeName>) -> (r: ElevatedRelaunch)
        ensures
            r == (ElevatedRelaunch { program, arguments }),
    {
        ElevatedRelaunch { program, arguments }
    }
}

/// Host-specific privilege detection and opt-in elevation.
///
/// Implementations must keep detection free of side effects: no prompt, no process launch, no
/// persistent change. Only [`Self::request_elevation`] and [`Self::relaunch_elevated`] may
/// surface a host consent dialog.
pub trait PrivilegeProvider: Send + Sync {
    /// Whether the host may be asked to raise privilege under `policy`. Anybody may who knows the
    /// backend, unless it says otherwise. Code that serves every backend knows of no leave but the
    /// one that its own caller gave.
    open spec fn may_request(&self, policy: ElevationPolicy) -> bool {
        true
    }

    /// Whether `request` may be run elevated, with the same meaning.
    open spec fn may_relaunch(&self, request: &ElevatedRelaunch) -> bool {
        true
    }

    /// Names the backend, for diagnostics and evidence records.
    fn provider_name(&self) -> &'static str;

    /// Observes current privilege without prompting or mutating any state.
    fn observe(&self) -> PrivilegeObservation;

    /// Asks the host to raise privilege, honoring `policy`.
    ///
    /// Implementations must return [`ElevationRefusal::PolicyForbidsRequest`] without
    /// contacting the host when `policy` is [`ElevationPolicy::DetectOnly`]. By default
    /// everything is refused.
    fn request_elevation(&self, policy: ElevationPolicy) -> (r: Result<
        PrivilegeObservation,
        ElevationRefusal,
    >)
        requires
            self.may_request(policy),
        default_ensures
            exists|name: &'static str| #[trigger]
                call_ensures(Self::provider_name, (self,), name) && (r matches Err(refusal)
                    && refusal@ == request_refusal(policy, name@)),
    {
        Err(refuse_request(policy, self.provider_name()))
    }

    /// Re-runs this program elevated and reports the child's exit code.
    ///
    /// Returning `Ok` means a child ran to completion and its exit code is authoritative for
    /// the whole invocation. Every refusal leaves the current process intact and responsible
    /// for continuing unprivileged.
    fn relaunch_elevated(&self, _request: &ElevatedRelaunch) -> (r: Result<u8, ElevationRefusal>)
        requires
            self.may_relaunch(_request),
        default_ensures
            exists|name: &'static str| #[trigger]
                call_ensures(Self::provider_name, (self,), name) && (r matches Err(refusal)
                    && refusal@ == relaunch_refusal(name@)),
    {
        Err(refuse_relaunch(self.provider_name()))
    }
}

/// How a backend without elevation answers a request.
pub open spec fn request_refusal(policy: ElevationPolicy, provider: Seq<char>) -> RefusalView {
    if policy == ElevationPolicy::DetectOnly {
        RefusalView::PolicyForbidsRequest
    } else {
        RefusalView::Unavailable(provider + " does not implement elevation requests"@)
    }
}

/// How a backend without elevation answers a relaunch.
pub open spec fn relaunch_refusal(provider: Seq<char>) -> RefusalView {
    RefusalView::Unavailable(provider + " does not implement elevated relaunch"@)
}

/// The answer of a backend that does not implement elevation requests.
pub fn refuse_request(policy: ElevationPolicy, provider: &str) -> (r: ElevationRefusal)
    ensures
        r@ == request_refusal(policy, provider@),
{
    if policy == ElevationPolicy::DetectOnly {
        return ElevationRefusal::PolicyForbidsRequest;
    }
    ElevationRefusal::Unavailable(concat(provider, " does not implement elevation requests"))
}

/// The answer of a backend that does not implement elevated relaunch.
pub fn refuse_relaunch(provider: &str) -> (r: ElevationRefusal)
    ensures
        r@ == relaunch_refusal(provider@),
{
    ElevationRefusal::Unavailable(concat(provider, " does not implement elevated relaunch"))
}

// ---------------------------------------------------------------------------
// Decisions
// ---------------------------------------------------------------------------

/// The host is asked only when the user opted in and the process is
/// definitely not elevated.
pub open spec fn asks_host(level: PrivilegeLevel, policy: ElevationPolicy) -> bool {
    level is NotElevated && policy is RequestWhenUserOptedIn
}

/// Whether the host is to be asked for more privilege.
pub fn should_ask_host(level: PrivilegeLevel, policy: ElevationPolicy) -> (r: bool)
    ensures
        r == asks_host(level, policy),
{
    level == PrivilegeLevel::NotElevated && policy == ElevationPolicy::RequestWhenUserOptedIn
}

/// The detect-only policy never contacts the host, and neither a process that
/// is elevated already nor one of unknown level ever asks for more.
pub proof fn the_host_is_asked_only_by_an_opted_in_unelevated_process(
    level: PrivilegeLevel,
    policy: ElevationPolicy,
)
    ensures
        policy is DetectOnly ==> !asks_host(level, policy),
        level is Elevated ==> !asks_host(level, policy),
        level is Unknown ==> !asks_host(level, policy),
        level is NotElevated && policy is RequestWhenUserOptedIn ==> asks_host(level, policy),
{
}

/// The privilege of a run after a request: what was granted, or what was
/// observed together with the refusal.
pub open spec fn settled(
    observed: PrivilegeObservation,
    answer: Result<PrivilegeObservation, ElevationRefusal>,
) -> (PrivilegeObservation, Option<ElevationRefusal>) {
    match answer {
        Ok(granted) => (granted, None),
        Err(refusal) => (observed, Some(refusal)),
    }
}

/// Takes the host's answer into account.
pub fn settle_request(
    observed: PrivilegeObservation,
    answer: Result<PrivilegeObservation, ElevationRefusal>,
) -> (r: (PrivilegeObservation, Option<ElevationRefusal>))
    ensures
        r == settled(observed, answer),
{
    match answer {
        Ok(granted) => (granted, None),
        Err(refusal) => (observed, Some(refusal)),
    }
}

/// Resolves the privilege to use for a run, applying `policy` at most once.
///
/// Returns the observation plus the refusal of a request that was made. Elevation is requested
/// only when the process is definitely not elevated: prompting on an unreadable token would nag
/// a user who may already hold privilege.
///
/// Leave to ask the host is needed, and had, only where the user opted in and the process was
/// observed not to be elevated. So the request is made in no other case, and nothing is
/// relaunched in any.
pub fn resolve_privilege<P: PrivilegeProvider + ?Sized>(
    provider: &P,
    policy: ElevationPolicy,
) -> (r: (PrivilegeObservation, Option<ElevationRefusal>))
    requires
        forall|observed: PrivilegeObservation| #[trigger]
            call_ensures(P::observe, (provider,), observed) && asks_host(observed.level, policy)
                ==> provider.may_request(policy),
    ensures
        exists|observed: PrivilegeObservation| #[trigger]
            call_ensures(P::observe, (provider,), observed) && if asks_host(
                observed.level,
                policy,
            ) {
                exists|answer: Result<PrivilegeObservation, ElevationRefusal>| #[trigger]
                    call_ensures(P::request_elevation, (provider, policy), answer) && r == settled(
                        observed,
                        answer,
                    )
            } else {
                r.0 == observed && r.1 is None
            },
{
    let observed = provider.observe();
    if !should_ask_host(observed.level, policy) {
        return (observed, None);
    }
    let answer = provider.request_elevation(policy);
    settle_request(observed, answer)
}

/// What an entry point should do about privilege, decided before any work begins.
#[derive(Debug, Clone, PartialEq, Eq)]
pub enum StartupPrivilegeDecision {
    /// Continue in this process with the given privilege.
    Continue {
        /// Privilege this process holds.
        observed: PrivilegeObservation,
        /// Set when an opt-in elevation was attempted and did not succeed. The run
        /// continues unprivileged; this is reportable, not fatal.
        refusal: Option<ElevationRefusal>,
    },
    /// An elevated child already performed the work. Exit with this code and do nothing else.
    ElevatedChildCompleted {
        /// The child's exit code, authoritative for this invocation.
        exit_code: u8,
    },
}

/// The decision after a relaunch: the child's exit code, or going on as observed.
pub open spec fn decided(
    observed: PrivilegeObservation,
    answer: Result<u8, ElevationRefusal>,
) -> StartupPrivilegeDecision {
    match answer {
        Ok(exit_code) => StartupPrivilegeDecision::ElevatedChildCompleted { exit_code },
        Err(refusal) => StartupPrivilegeDecision::Continue { observed, refusal: Some(refusal) },
    }
}

/// Takes the outcome of a relaunch into account.
pub fn settle_relaunch(
    observed: PrivilegeObservation,
    answer: Result<u8, ElevationRefusal>,
) -> (r: StartupPrivilegeDecision)
    ensures
        r == decided(observed, answer),
{
    match answer {
        Ok(exit_code) => StartupPrivilegeDecision::ElevatedChildCompleted { exit_code },
        Err(refusal) => StartupPrivilegeDecision::Continue { observed, refusal: Some(refusal) },
    }
}

/// Decides, at process start, whether to elevate by relaunch or to continue as-is.
///
/// Detection runs first, so an already-elevated process never prompts and never relaunches;
/// the detect-only policy returns before anything host-facing happens; an unknown level
/// continues; and any refusal keeps the current process running.
///
/// Leave to relaunch is needed, and had, only where the user opted in and the process was
/// observed not to be elevated. So there is a relaunch in no other case, and the host is never
/// asked to raise the privilege of this process.
pub fn decide_startup_privilege<P: PrivilegeProvider + ?Sized>(
    provider: &P,
    policy: ElevationPolicy,
    relaunch: &ElevatedRelaunch,
) -> (r: StartupPrivilegeDecision)
    requires
        forall|observed: PrivilegeObservation| #[trigger]
            call_ensures(P::observe, (provider,), observed) && asks_host(observed.level, policy)
                ==> provider.may_relaunch(relaunch),
    ensures
        exists|observed: PrivilegeObservation| #[trigger]
            call_ensures(P::observe, (provider,), observed) && if asks_host(
                observed.level,
                policy,
            ) {
                exists|answer: Result<u8, ElevationRefusal>| #[trigger]
                    call_ensures(P::relaunch_elevated, (provider, relaunch), answer) && r
                        == decided(observed, answer)
            } else {
                r == (StartupPrivilegeDecision::Continue { observed, refusal: None })
            },
{
    let observed = provider.observe();
    if !should_ask_host(observed.level, policy) {
        return StartupPrivilegeDecision::Continue { observed, refusal: None };
    }
    let answer = provider.relaunch_elevated(relaunch);
    settle_relaunch(observed, answer)
}

/// Only a definite `Elevated` grants anything, and only a definite `NotElevated` leaves
/// destructive mode open.
pub proof fn only_definite_levels_decide(level: PrivilegeLevel)
    ensures
        level.grants() <==> level is Elevated,
        level.refuses_destruction() <==> level is Elevated || level is Unknown,
{
}

/// What the host grants replaces what was observed; a refusal is reported beside it. The exit
/// code of a child is taken over as it is, and a refused relaunch goes on as observed.
pub proof fn answers_of_the_host_are_kept(
    observed: PrivilegeObservation,
    granted: PrivilegeObservation,
    refusal: ElevationRefusal,
    exit_code: u8,
)
    ensures
        settled(observed, Ok(granted)).0 == granted,
        settled(observed, Ok(granted)).1 is None,
        settled(observed, Err(refusal)).0 == observed,
        settled(observed, Err(refusal)).1 == Some(refusal),
        decided(observed, Ok(exit_code)) == (StartupPrivilegeDecision::ElevatedChildCompleted {
            exit_code,
        }),
        decided(observed, Err(refusal)) == (StartupPrivilegeDecision::Continue {
            observed,
            refusal: Some(refusal),
        }),
{
}

/// A backend without elevation refuses by policy first, and otherwise says that it has none.
pub proof fn backends_without_elevation_refuse(provider: Seq<char>)
    ensures
        request_refusal(ElevationPolicy::DetectOnly, provider) is PolicyForbidsRequest,
        request_refusal(ElevationPolicy::RequestWhenUserOptedIn, provider) is Unavailable,
        relaunch_refusal(provider) is Unavailable,
{
}

/// The spellings of the levels never change.
pub proof fn levels_are_spelled_out()
    ensures
        PrivilegeLevel::NotElevated.spelling() == "not_elevated"@,
        PrivilegeLevel::Elevated.spelling() == "elevated"@,
        PrivilegeLevel::Unknown.spelling() == "unknown"@,
{
}

/// Refusals say which one they are, with their own text.
pub proof fn refusals_say_what_they_are(refusal: ElevationRefusal)
    ensures
        refusal@ is Declined <==> refusal is Declined,
        refusal@ is PolicyForbidsRequest <==> refusal is PolicyForbidsRequest,
        refusal matches ElevationRefusal::Unavailable(text) ==> refusal@
            == RefusalView::Unavailable(text@),
        refusal matches ElevationRefusal::Failed(text) ==> refusal@ == RefusalView::Failed(text@),
{
}

} // verus!
