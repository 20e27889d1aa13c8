use sweepx_platform::native_path::{NativeName, NativePath};
use sweepx_platform::platform::{IoErrorKind, IoFailure};
use sweepx_platform::privilege::{
    resolve_privilege, ElevatedRelaunch, ElevationPolicy, ElevationRefusal, PrivilegeLevel,
    PrivilegeObservation, PrivilegeOrigin, PrivilegeProvider,
};
use sweepx_platform::windows_privilege::{
    conclude_relaunch, join_arguments, observe_token, prepare_relaunch, RelaunchObservation,
    TokenReading, WindowsPrivilegeProvider,
};

fn wide(text: &str) -> Vec<u16> {
    text.encode_utf16().collect()
}

#[test]
fn detection_is_stable_and_side_effect_free() {
    let provider = WindowsPrivilegeProvider::new();
    let first = provider.observe();
    for _ in 0..64 {
        assert_eq!(provider.observe(), first);
    }
}

#[test]
fn detect_only_policy_refuses_before_touching_the_host() {
    assert_eq!(
        WindowsPrivilegeProvider::new().request_elevation(ElevationPolicy::DetectOnly),
        Err(ElevationRefusal::PolicyForbidsRequest)
    );
}

#[test]
fn opted_in_request_reports_relaunch_requirement_without_prompting() {
    let refusal = WindowsPrivilegeProvider::new()
        .request_elevation(ElevationPolicy::RequestWhenUserOptedIn)
        .expect_err("in-process elevation is impossible on Windows");

    assert!(matches!(refusal, ElevationRefusal::Unavailable(_)));
}

#[test]
fn resolution_falls_back_to_the_detected_level() {
    let provider = WindowsPrivilegeProvider::new();
    let detected = provider.observe();
    let (resolved, refusal) = resolve_privilege(&provider, ElevationPolicy::RequestWhenUserOptedIn);

    assert_eq!(resolved, detected);
    if detected.level == PrivilegeLevel::NotElevated {
        assert!(matches!(refusal, Some(ElevationRefusal::Unavailable(_))));
    }
}

#[test]
fn relaunch_refuses_a_relative_program_path() {
    let request = ElevatedRelaunch::new(
        NativePath::windows_utf16(wide("sweepx.exe")),
        vec![NativeName::windows_utf16(wide("scan"))],
    );

    let refusal =
        prepare_relaunch(&request).expect_err("a relative program path must not be relaunched");

    assert!(matches!(refusal, ElevationRefusal::Failed(_)));
}

#[test]
fn arguments_with_spaces_are_quoted_as_single_arguments() {
    let line = join_arguments(&[wide("scan"), wide(r"C:\Program Files\App")]);

    assert_eq!(line, wide(r#""scan" "C:\Program Files\App""#));
}

#[test]
fn a_trailing_backslash_does_not_escape_the_closing_quote() {
    let line = join_arguments(&[wide(r"E:\dir\")]);

    assert_eq!(line, wide(r#""E:\dir\\""#));
}

#[test]
fn embedded_quotes_are_escaped_with_their_backslash_run() {
    let line = join_arguments(&[wide(r#"a\"b"#)]);

    assert_eq!(line, wide(r#""a\\\"b""#));
}

#[test]
fn a_lone_surrogate_argument_is_preserved() {
    let argument = vec![u16::from(b'x'), 0xD800, u16::from(b'y')];
    let units = join_arguments(std::slice::from_ref(&argument));

    assert_eq!(
        units,
        vec![
            u16::from(b'"'),
            u16::from(b'x'),
            0xD800,
            u16::from(b'y'),
            u16::from(b'"')
        ],
        "a lossy conversion would have replaced the surrogate"
    );
}

#[test]
fn no_arguments_produces_an_empty_command_line() {
    assert_eq!(join_arguments(&[]), Vec::<u16>::new());
}

#[test]
fn a_relaunch_command_is_terminated_and_quoted() {
    let request = ElevatedRelaunch::new(
        NativePath::windows_utf16(wide(r"C:\bin\sweepx.exe")),
        vec![
            NativeName::windows_utf16(wide("scan")),
            NativeName::windows_utf16(Vec::new()),
        ],
    );
    let command = prepare_relaunch(&request).unwrap();
    assert_eq!(command.program, wide("C:\\bin\\sweepx.exe\0"));
    assert_eq!(command.parameters, wide("\"scan\" \"\"\0"));

    let foreign = ElevatedRelaunch::new(
        NativePath::windows_utf16(wide(r"C:\bin\sweepx.exe")),
        vec![NativeName::unix(b"scan".to_vec())],
    );
    assert!(matches!(
        prepare_relaunch(&foreign),
        Err(ElevationRefusal::Failed(_))
    ));
}

#[test]
fn token_readings_give_a_level_only_when_complete() {
    let read = |succeeded, returned, elevated_field| {
        observe_token(TokenReading::Queried {
            succeeded,
            returned,
            elevated_field,
        })
    };
    assert_eq!(
        observe_token(TokenReading::Unreadable),
        PrivilegeObservation::unknown()
    );
    assert_eq!(read(false, 4, 1), PrivilegeObservation::unknown());
    assert_eq!(read(true, 3, 1), PrivilegeObservation::unknown());
    assert_eq!(read(true, 4, 0), PrivilegeObservation::not_elevated());
    assert_eq!(read(true, 4, 1), PrivilegeObservation::inherited());
    assert_eq!(
        read(true, 4, 7).origin,
        PrivilegeOrigin::InheritedFromSession
    );
}

#[test]
fn only_an_exit_byte_is_adopted() {
    let failure = |raw| IoFailure {
        kind: IoErrorKind::Other,
        raw_os_error: raw,
        detail: "access is denied".to_string(),
    };
    assert_eq!(conclude_relaunch(RelaunchObservation::Exited(0)), Ok(0));
    assert_eq!(conclude_relaunch(RelaunchObservation::Exited(255)), Ok(255));
    assert_eq!(
        conclude_relaunch(RelaunchObservation::Exited(256)),
        Err(ElevationRefusal::Failed(
            "the elevated process returned exit code 256, which does not fit a process exit byte"
                .to_string()
        ))
    );
    assert_eq!(
        conclude_relaunch(RelaunchObservation::LaunchFailed(failure(Some(1223)))),
        Err(ElevationRefusal::Declined)
    );
    assert_eq!(
        conclude_relaunch(RelaunchObservation::LaunchFailed(failure(Some(5)))),
        Err(ElevationRefusal::Failed(
            "ShellExecuteExW failed: access is denied".to_string()
        ))
    );
    assert_eq!(
        conclude_relaunch(RelaunchObservation::NoHandle),
        Err(ElevationRefusal::Failed(
            "the elevated process started without returning a handle".to_string()
        ))
    );
    assert_eq!(
        conclude_relaunch(RelaunchObservation::WaitEnded(258)),
        Err(ElevationRefusal::Failed(
            "waiting for the elevated process failed (result 258, WAIT_FAILED=4294967295)"
                .to_string()
        ))
    );
    assert_eq!(
        conclude_relaunch(RelaunchObservation::ExitCodeUnreadable(failure(None))),
        Err(ElevationRefusal::Failed(
            "could not read the elevated process exit code: access is denied".to_string()
        ))
    );
}

#[test]
fn refusals_read_as_sentences() {
    assert_eq!(
        ElevationRefusal::Declined.message(),
        "elevation was declined"
    );
    assert_eq!(
        ElevationRefusal::PolicyForbidsRequest.message(),
        "elevation was not requested because the policy is detect-only"
    );
    assert_eq!(
        ElevationRefusal::Unavailable("x".to_string()).message(),
        "no supported elevation mechanism is available on this host: x"
    );
    assert_eq!(
        ElevationRefusal::Failed("x".to_string()).message(),
        "the elevation request failed: x"
    );
    assert_eq!(PrivilegeLevel::NotElevated.text(), "not_elevated");
    assert_eq!(PrivilegeLevel::Elevated.text(), "elevated");
    assert_eq!(PrivilegeLevel::Unknown.text(), "unknown");
}

/// Reads a command line as a Windows child does.
fn parse_line(line: &[u16]) -> Vec<Vec<u16>> {
    let (quote, backslash, space) = (0x22u16, 0x5cu16, 0x20u16);
    let mut arguments = Vec::new();
    let mut current: Option<Vec<u16>> = None;
    let mut quoted = false;
    let mut at = 0;
    while at < line.len() {
        let run = line[at..].iter().take_while(|unit| **unit == backslash).count();
        at += run;
        if run > 0 && line.get(at) != Some(&quote) {
            current
                .get_or_insert_with(Vec::new)
                .extend(std::iter::repeat(backslash).take(run));
            continue;
        }
        if run > 0 {
            current
                .get_or_insert_with(Vec::new)
                .extend(std::iter::repeat(backslash).take(run / 2));
        }
        let unit = line[at];
        at += 1;
        if unit == quote && run % 2 == 0 {
            quoted = !quoted;
            current.get_or_insert_with(Vec::new);
        } else if unit == space && !quoted {
            arguments.extend(current.take());
        } else {
            current.get_or_insert_with(Vec::new).push(unit);
        }
    }
    arguments.extend(current);
    arguments
}

#[test]
fn joined_arguments_are_read_back_unchanged() {
    let arguments: Vec<Vec<u16>> = [
        "",
        "scan",
        r"C:\Program Files\App\",
        r#"say "hi""#,
        r#"\"\\"\\\"#,
        r"\\server\share\\",
        " ",
        "\t",
    ]
    .iter()
    .map(|text| wide(text))
    .collect();
    assert_eq!(parse_line(&join_arguments(&arguments)), arguments);
}
