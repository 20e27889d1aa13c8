use sweepx_platform::native_path::{NativeName, NativePath};
use sweepx_platform::privilege::{
    decide_startup_privilege, resolve_privilege, ElevatedRelaunch, ElevationPolicy,
    ElevationRefusal, PrivilegeLevel, PrivilegeObservation, PrivilegeOrigin, PrivilegeProvider,
    StartupPrivilegeDecision,
};

struct FixedProvider {
    observation: PrivilegeObservation,
    request_result: Option<Result<PrivilegeObservation, ElevationRefusal>>,
    requests: std::sync::atomic::AtomicUsize,
    relaunch_result: Option<Result<u8, ElevationRefusal>>,
    relaunches: std::sync::atomic::AtomicUsize,
}

impl FixedProvider {
    fn new(observation: PrivilegeObservation) -> Self {
        Self {
            observation,
            request_result: None,
            requests: std::sync::atomic::AtomicUsize::new(0),
            relaunch_result: None,
            relaunches: std::sync::atomic::AtomicUsize::new(0),
        }
    }

    fn with_request(mut self, result: Result<PrivilegeObservation, ElevationRefusal>) -> Self {
        self.request_result = Some(result);
        self
    }

    fn with_relaunch(mut self, result: Result<u8, ElevationRefusal>) -> Self {
        self.relaunch_result = Some(result);
        self
    }

    fn request_count(&self) -> usize {
        self.requests.load(std::sync::atomic::Ordering::SeqCst)
    }

    fn relaunch_count(&self) -> usize {
        self.relaunches.load(std::sync::atomic::Ordering::SeqCst)
    }
}

impl PrivilegeProvider for FixedProvider {
    fn provider_name(&self) -> &'static str {
        "fixed-test-provider"
    }

    fn observe(&self) -> PrivilegeObservation {
        self.observation
    }

    fn request_elevation(
        &self,
        policy: ElevationPolicy,
    ) -> Result<PrivilegeObservation, ElevationRefusal> {
        self.requests
            .fetch_add(1, std::sync::atomic::Ordering::SeqCst);
        if policy == ElevationPolicy::DetectOnly {
            return Err(ElevationRefusal::PolicyForbidsRequest);
        }
        self.request_result
            .clone()
            .unwrap_or(Err(ElevationRefusal::Declined))
    }

    fn relaunch_elevated(&self, _request: &ElevatedRelaunch) -> Result<u8, ElevationRefusal> {
        self.relaunches
            .fetch_add(1, std::sync::atomic::Ordering::SeqCst);
        self.relaunch_result
            .clone()
            .unwrap_or(Err(ElevationRefusal::Declined))
    }
}

fn test_relaunch() -> ElevatedRelaunch {
    ElevatedRelaunch::new(
        NativePath::unix(b"/test/sweepx".to_vec()),
        vec![NativeName::unix(b"scan".to_vec())],
    )
}

#[test]
fn detect_only_never_contacts_the_host() {
    let provider = FixedProvider::new(PrivilegeObservation::not_elevated());
    let (observed, refusal) = resolve_privilege(&provider, ElevationPolicy::DetectOnly);

    assert_eq!(observed, PrivilegeObservation::not_elevated());
    assert_eq!(refusal, None);
    assert_eq!(provider.request_count(), 0);
}

#[test]
fn inherited_privilege_is_used_without_requesting_more() {
    let provider = FixedProvider::new(PrivilegeObservation::inherited());
    let (observed, refusal) =
        resolve_privilege(&provider, ElevationPolicy::RequestWhenUserOptedIn);

    assert_eq!(observed.level, PrivilegeLevel::Elevated);
    assert_eq!(observed.origin, PrivilegeOrigin::InheritedFromSession);
    assert_eq!(refusal, None);
    assert_eq!(provider.request_count(), 0);
}

#[test]
fn opted_in_request_records_granted_origin() {
    let granted = PrivilegeObservation {
        level: PrivilegeLevel::Elevated,
        origin: PrivilegeOrigin::GrantedOnRequest,
    };
    let provider =
        FixedProvider::new(PrivilegeObservation::not_elevated()).with_request(Ok(granted));
    let (observed, refusal) =
        resolve_privilege(&provider, ElevationPolicy::RequestWhenUserOptedIn);

    assert_eq!(observed, granted);
    assert_eq!(refusal, None);
    assert_eq!(provider.request_count(), 1);
}

#[test]
fn declined_elevation_keeps_the_unprivileged_observation() {
    let provider = FixedProvider::new(PrivilegeObservation::not_elevated())
        .with_request(Err(ElevationRefusal::Declined));
    let (observed, refusal) =
        resolve_privilege(&provider, ElevationPolicy::RequestWhenUserOptedIn);

    assert_eq!(observed.level, PrivilegeLevel::NotElevated);
    assert_eq!(refusal, Some(ElevationRefusal::Declined));
    assert!(!observed.level.grants_elevated_capability());
}

#[test]
fn unknown_privilege_does_not_prompt_and_resolves_both_ways_safely() {
    let provider = FixedProvider::new(PrivilegeObservation::unknown());
    let (observed, refusal) =
        resolve_privilege(&provider, ElevationPolicy::RequestWhenUserOptedIn);

    assert_eq!(observed.level, PrivilegeLevel::Unknown);
    assert_eq!(refusal, None);
    assert_eq!(provider.request_count(), 0);
    assert!(!observed.level.grants_elevated_capability());
    assert!(observed.level.must_refuse_destructive_mode());
}

#[test]
fn default_provider_refuses_elevation_fail_closed() {
    struct Minimal;
    impl PrivilegeProvider for Minimal {
        fn provider_name(&self) -> &'static str {
            "minimal"
        }
        fn observe(&self) -> PrivilegeObservation {
            PrivilegeObservation::not_elevated()
        }
    }

    assert_eq!(
        Minimal.request_elevation(ElevationPolicy::DetectOnly),
        Err(ElevationRefusal::PolicyForbidsRequest)
    );
    assert!(matches!(
        Minimal.request_elevation(ElevationPolicy::RequestWhenUserOptedIn),
        Err(ElevationRefusal::Unavailable(_))
    ));
}

#[test]
fn r23_destructive_refusal_covers_elevated_and_unknown_only() {
    assert!(!PrivilegeLevel::NotElevated.must_refuse_destructive_mode());
    assert!(PrivilegeLevel::Elevated.must_refuse_destructive_mode());
    assert!(PrivilegeLevel::Unknown.must_refuse_destructive_mode());

    assert!(!PrivilegeLevel::NotElevated.grants_elevated_capability());
    assert!(PrivilegeLevel::Elevated.grants_elevated_capability());
    assert!(!PrivilegeLevel::Unknown.grants_elevated_capability());
}

#[test]
fn startup_default_policy_neither_prompts_nor_relaunches() {
    let provider = FixedProvider::new(PrivilegeObservation::not_elevated())
        .with_relaunch(Ok(0))
        .with_request(Ok(PrivilegeObservation::inherited()));

    let decision =
        decide_startup_privilege(&provider, ElevationPolicy::default(), &test_relaunch());

    assert_eq!(
        decision,
        StartupPrivilegeDecision::Continue {
            observed: PrivilegeObservation::not_elevated(),
            refusal: None,
        }
    );
    assert_eq!(provider.relaunch_count(), 0);
    assert_eq!(provider.request_count(), 0);
}

#[test]
fn startup_does_not_relaunch_when_already_elevated() {
    let provider = FixedProvider::new(PrivilegeObservation::inherited()).with_relaunch(Ok(0));

    let decision = decide_startup_privilege(
        &provider,
        ElevationPolicy::RequestWhenUserOptedIn,
        &test_relaunch(),
    );

    assert_eq!(
        decision,
        StartupPrivilegeDecision::Continue {
            observed: PrivilegeObservation::inherited(),
            refusal: None,
        }
    );
    assert_eq!(provider.relaunch_count(), 0);
}

#[test]
fn startup_adopts_the_elevated_child_exit_code() {
    let provider =
        FixedProvider::new(PrivilegeObservation::not_elevated()).with_relaunch(Ok(4));

    let decision = decide_startup_privilege(
        &provider,
        ElevationPolicy::RequestWhenUserOptedIn,
        &test_relaunch(),
    );

    assert_eq!(
        decision,
        StartupPrivilegeDecision::ElevatedChildCompleted { exit_code: 4 }
    );
    assert_eq!(provider.relaunch_count(), 1);
}

#[test]
fn startup_declined_elevation_continues_unprivileged() {
    let provider = FixedProvider::new(PrivilegeObservation::not_elevated())
        .with_relaunch(Err(ElevationRefusal::Declined));

    let decision = decide_startup_privilege(
        &provider,
        ElevationPolicy::RequestWhenUserOptedIn,
        &test_relaunch(),
    );

    match decision {
        StartupPrivilegeDecision::Continue { observed, refusal } => {
            assert_eq!(observed.level, PrivilegeLevel::NotElevated);
            assert_eq!(refusal, Some(ElevationRefusal::Declined));
            assert!(!observed.level.grants_elevated_capability());
        }
        other => panic!("a declined elevation must continue in-process, got {other:?}"),
    }
}

#[test]
fn startup_unknown_privilege_does_not_relaunch() {
    let provider = FixedProvider::new(PrivilegeObservation::unknown()).with_relaunch(Ok(0));

    let decision = decide_startup_privilege(
        &provider,
        ElevationPolicy::RequestWhenUserOptedIn,
        &test_relaunch(),
    );

    assert_eq!(
        decision,
        StartupPrivilegeDecision::Continue {
            observed: PrivilegeObservation::unknown(),
            refusal: None,
        }
    );
    assert_eq!(provider.relaunch_count(), 0);
}

#[test]
fn startup_default_backend_refuses_relaunch_fail_closed() {
    struct Minimal;
    impl PrivilegeProvider for Minimal {
        fn provider_name(&self) -> &'static str {
            "minimal"
        }
        fn observe(&self) -> PrivilegeObservation {
            PrivilegeObservation::not_elevated()
        }
    }

    let decision = decide_startup_privilege(
        &Minimal,
        ElevationPolicy::RequestWhenUserOptedIn,
        &test_relaunch(),
    );

    match decision {
        StartupPrivilegeDecision::Continue { refusal, .. } => {
            assert!(matches!(refusal, Some(ElevationRefusal::Unavailable(_))));
        }
        other => panic!("an unimplemented relaunch must not appear to succeed: {other:?}"),
    }
}
