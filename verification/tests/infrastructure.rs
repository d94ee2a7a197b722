use kettle::brew::CatalogEntry;
use kettle::domain::{BrewAction, PackageId, PackageKind, Version};
use kettle::infrastructure::github::{
    classify_token_response, delete_outcome, ensure_poll_allowed, load_outcome, response_failure,
    store_outcome, transport_failure, AccessToken, DeviceAuthorization, ErrorResponse,
    KeychainFailure, PollResult, TokenResponse, SCOPE,
};
use kettle::infrastructure::homebrew::backend::{after_plan, brew_environment, finish_plans, plan_commands, PlanStep};
use kettle::infrastructure::homebrew::catalog::{
    after_parse, after_read, api_packages, cache_packages, payload_of, read_is_stable, FileStamp, ParseStep, ReadStep,
    READ_ATTEMPTS,
};
use kettle::infrastructure::homebrew::installed::{installed_packages, PackageDir};
use kettle::infrastructure::homebrew::process::{kill_now, run_outcome, wait_over, Heard};
use kettle::infrastructure::homebrew::{outdated_packages, OutdatedItem};
use kettle::infrastructure::privilege::{check_helper_directory, check_helper_file, check_helper_location};
use kettle::infrastructure::InfrastructureError;
use std::time::Duration;

fn id(kind: PackageKind) -> PackageId {
    PackageId::new("shared", kind).unwrap()
}

fn entry(name: &str, desc: &str, version: &str) -> CatalogEntry {
    CatalogEntry { name: name.into(), desc: Some(desc.into()), version: Some(version.into()) }
}

#[test]
fn cancellation_and_expiry_are_terminal() {
    assert!(matches!(
        ensure_poll_allowed(Duration::ZERO.as_nanos(), Duration::from_secs(10).as_nanos(), true),
        Err(InfrastructureError::Cancelled)
    ));
    assert!(matches!(
        ensure_poll_allowed(
            Duration::from_secs(10).as_nanos(),
            Duration::from_secs(10).as_nanos(),
            false
        ),
        Err(InfrastructureError::OAuthExpired)
    ));
}

#[test]
fn polling_continues_before_expiry() {
    assert!(ensure_poll_allowed(9, 10, false).is_ok());
}

#[test]
fn debug_never_contains_device_secret() {
    let authorization = DeviceAuthorization::new(
        "device-secret".to_owned(),
        "ABCD-1234".to_owned(),
        "https://github.com/login/device".to_owned(),
        5,
        900,
    );
    assert!(!format!("{authorization:?}").contains("device-secret"));
    assert_eq!(authorization.device_code(), "device-secret");
}

#[test]
fn zero_interval_becomes_one_second() {
    let authorization = DeviceAuthorization::new("d".into(), "u".into(), "v".into(), 0, 900);
    assert_eq!(authorization.interval_seconds(), 1);
    assert_eq!(authorization.expires_in_seconds(), 900);
    assert_eq!(authorization.user_code(), "u");
}

#[test]
fn scope_is_profile_only() {
    assert_eq!(SCOPE, "read:user");
    assert!(!SCOPE.contains("repo"));
    assert!(!SCOPE.contains("write"));
}

#[test]
fn oauth_errors_keep_the_server_description() {
    let error = response_failure(
        400,
        Some(ErrorResponse {
            error: Some("bad_verification_code".into()),
            error_description: Some("Code was invalid".into()),
            message: None,
        }),
    )
    .expect("expected OAuth error response");
    assert!(error.message().contains("Code was invalid"));
}

#[test]
fn unparsed_error_bodies_report_the_status() {
    let error = response_failure(503, None).unwrap();
    assert!(matches!(&error, InfrastructureError::OAuthProtocol(d) if d == "HTTP 503"));
    assert!(response_failure(200, None).is_none());
}

#[test]
fn token_debug_is_redacted() {
    let token = AccessToken::new("bearer-secret".to_owned());
    assert!(!format!("{token:?}").contains("bearer-secret"));
    assert_eq!(token.expose(), "bearer-secret");
}

#[test]
fn token_replies_are_classified() {
    let reply = |token: Option<&str>, error: Option<&str>, description: Option<&str>| TokenResponse {
        access_token: token.map(str::to_owned),
        error: error.map(str::to_owned),
        error_description: description.map(str::to_owned),
    };
    assert!(matches!(
        classify_token_response(reply(Some("t"), None, None)),
        Ok(PollResult::Token(t)) if t.expose() == "t"
    ));
    assert!(matches!(classify_token_response(reply(None, Some("authorization_pending"), None)), Ok(PollResult::Pending)));
    assert!(matches!(classify_token_response(reply(None, Some("slow_down"), None)), Ok(PollResult::SlowDown(5))));
    assert!(matches!(
        classify_token_response(reply(None, Some("access_denied"), Some("no"))),
        Err(InfrastructureError::OAuthDenied(d)) if d == "no"
    ));
    assert!(matches!(classify_token_response(reply(None, Some("expired_token"), None)), Err(InfrastructureError::OAuthExpired)));
    assert!(matches!(
        classify_token_response(reply(None, Some("weird"), None)),
        Err(InfrastructureError::OAuthProtocol(d)) if d == "weird: GitHub did not provide a description"
    ));
}

#[test]
fn network_timeout_stays_distinct_from_protocol_failure() {
    assert!(matches!(transport_failure(true, "slow".into()), InfrastructureError::NetworkTimeout));
    assert!(matches!(
        transport_failure(false, "reset".into()),
        InfrastructureError::NetworkTransport(m) if m == "reset"
    ));
}

#[test]
fn keychain_outcomes() {
    assert!(store_outcome(Ok(())).is_ok());
    assert!(matches!(
        store_outcome(Err(KeychainFailure { code: -1, message: "denied".into() })),
        Err(InfrastructureError::Keychain(m)) if m == "denied"
    ));
    assert!(matches!(load_outcome(Ok(Some("tok".into()))), Ok(Some(t)) if t.expose() == "tok"));
    assert!(matches!(load_outcome(Ok(None)), Err(InfrastructureError::InvalidUtf8(_))));
    assert!(matches!(load_outcome(Err(KeychainFailure { code: -25300, message: "missing".into() })), Ok(None)));
    assert!(delete_outcome(Err(KeychainFailure { code: -25300, message: "missing".into() })).is_ok());
    assert!(delete_outcome(Err(KeychainFailure { code: -5, message: "locked".into() })).is_err());
}

#[test]
fn formula_and_cask_commands_are_namespace_explicit() {
    for action in [BrewAction::Install, BrewAction::Upgrade] {
        let plans = plan_commands(action, vec![id(PackageKind::Cask), id(PackageKind::Formula)]);
        assert_eq!(plans.len(), 2);
        assert_eq!(plans[0].arguments(), vec![action.command(), "shared"]);
        assert_eq!(plans[1].arguments(), vec![action.command(), "--cask", "shared"]);
    }
}

#[test]
fn plan_targets_are_sorted_within_a_kind() {
    let b = PackageId::new("b", PackageKind::Formula).unwrap();
    let a = PackageId::new("a", PackageKind::Formula).unwrap();
    let plans = plan_commands(BrewAction::Install, vec![b.clone(), a.clone()]);
    assert_eq!(plans.len(), 1);
    assert_eq!(plans[0].targets, vec![a, b]);
    assert!(plan_commands(BrewAction::Install, Vec::new()).is_empty());
}

#[test]
fn independent_namespaces_are_attempted_after_one_fails() {
    let plans = plan_commands(BrewAction::Upgrade, vec![id(PackageKind::Formula), id(PackageKind::Cask)]);
    let mut attempted = Vec::new();
    let mut first = None;
    let mut stopped = None;
    for plan in &plans {
        attempted.push(plan.kind);
        let outcome = if plan.kind == PackageKind::Formula {
            Err(InfrastructureError::NonZeroExit {
                program: "brew".into(),
                code: Some(1),
                stdout: String::new(),
                stderr: "formula failed".into(),
            })
        } else {
            Ok(())
        };
        match after_plan(first.take(), outcome) {
            PlanStep::Next(kept) => first = kept,
            PlanStep::Stop(result) => {
                stopped = Some(result);
                break;
            }
        }
    }
    assert!(stopped.is_none());
    assert!(finish_plans(first).is_err());
    assert_eq!(attempted, vec![PackageKind::Formula, PackageKind::Cask]);
}

#[test]
fn cancellation_stops_a_batch_at_once() {
    assert!(matches!(
        after_plan(Some(InfrastructureError::NetworkTimeout), Err(InfrastructureError::Cancelled)),
        PlanStep::Stop(Err(InfrastructureError::Cancelled))
    ));
    assert!(matches!(after_plan(None, Ok(())), PlanStep::Next(None)));
    assert!(finish_plans(None).is_ok());
}

#[test]
fn outdated_report_becomes_sorted_packages() {
    let packages = outdated_packages(
        vec![OutdatedItem {
            name: "zsh".into(),
            installed_versions: vec!["5.8".into(), "5.9".into()],
            current_version: Some("5.9.1".into()),
            pinned: true,
        }],
        vec![
            OutdatedItem { name: "arc".into(), installed_versions: vec![], current_version: None, pinned: false },
            OutdatedItem { name: "  ".into(), installed_versions: vec![], current_version: None, pinned: false },
        ],
    );
    assert_eq!(packages.len(), 2);
    assert_eq!(packages[0].id().name().as_str(), "arc");
    assert_eq!(packages[1].installed_version().unwrap().as_str(), "5.9");
    assert_eq!(packages[1].latest_version().unwrap().as_str(), "5.9.1");
    assert!(packages[1].is_pinned());
}

#[test]
fn formula_and_cask_descriptions_do_not_cross_join() {
    let packages = cache_packages(
        vec![entry("shared", "formula", "1")],
        vec![entry("shared", "cask", "2")],
    )
    .unwrap();
    assert_eq!(packages.len(), 2);
    assert_eq!(packages[0].description(), Some("formula"));
    assert_eq!(packages[1].description(), Some("cask"));
}

#[test]
fn empty_cache_is_an_error_not_an_empty_catalog() {
    assert!(matches!(
        cache_packages(Vec::new(), Vec::new()),
        Err(InfrastructureError::CatalogUnavailable { .. })
    ));
}

#[test]
fn cache_of_blank_names_is_an_error() {
    assert!(matches!(
        cache_packages(vec![entry("  ", "formula", "1")], vec![entry("", "cask", "2")]),
        Err(InfrastructureError::CatalogUnavailable { .. })
    ));
}

fn api_formulae() -> Vec<CatalogEntry> {
    vec![entry("shared", "formula", "1")]
}

fn api_casks() -> Vec<CatalogEntry> {
    vec![entry("shared", "cask", "2")]
}

#[test]
fn supported_api_parser_requires_both_namespaces() {
    let packages = api_packages(api_formulae(), api_casks()).unwrap();
    assert_eq!(packages.len(), 2);
    assert_ne!(packages[0].id(), packages[1].id());
    assert!(api_packages(api_formulae(), Vec::new()).is_err());
    assert!(serde_json::from_str::<serde_json::Value>("not json").is_err());
}

#[test]
fn replacement_race_is_detected() {
    let old = FileStamp { device: 1, inode: 1, len: 3, modified: None };
    let new = FileStamp { device: 1, inode: 2, len: 4, modified: None };
    assert!(!read_is_stable(old, 3, new));
    assert!(read_is_stable(new, 4, new));
    assert!(!read_is_stable(new, 3, new));
}

/// Reads with `read` the way the cache provider does, counting attempts.
fn read_with(mut read: impl FnMut() -> (FileStamp, Vec<u8>, FileStamp)) -> (Result<Vec<u8>, InfrastructureError>, u32) {
    let mut attempt = 0;
    loop {
        let (before, bytes, after) = read();
        match after_read(attempt, before, bytes, after) {
            ReadStep::Accept(bytes) => return (Ok(bytes), attempt + 1),
            ReadStep::Retry => attempt += 1,
            ReadStep::GiveUp(error) => return (Err(error), attempt + 1),
        }
    }
}

#[test]
fn replacement_race_retries_a_bounded_number_of_times() {
    let old = FileStamp { device: 1, inode: 1, len: 3, modified: None };
    let new = FileStamp { device: 1, inode: 2, len: 4, modified: None };
    let mut calls = 0;
    let (bytes, attempts) = read_with(|| {
        calls += 1;
        if calls == 1 {
            (old, b"old".to_vec(), new)
        } else {
            (new, b"good".to_vec(), new)
        }
    });
    assert_eq!(bytes.unwrap(), b"good");
    assert_eq!(calls, 2);
    assert_eq!(attempts, 2);

    let (always, attempts) = read_with(|| (old, b"old".to_vec(), new));
    assert!(matches!(always, Err(InfrastructureError::CatalogUnavailable { .. })));
    assert_eq!(attempts, READ_ATTEMPTS);
}

#[test]
fn payload_follows_the_signature_line() {
    assert_eq!(payload_of(b"signature\n{}"), b"{}");
    assert_eq!(payload_of(b"no newline"), b"");
}

#[test]
fn scan_is_isolated_and_pins_only_formulae() {
    let packages = installed_packages(
        vec![
            PackageDir { name: "shared".into(), kind: PackageKind::Formula, versions: vec!["1.9".into(), "1.10".into()] },
            PackageDir { name: "shared".into(), kind: PackageKind::Cask, versions: vec!["99".into()] },
        ],
        vec!["shared".into()],
    );
    let formula = packages.iter().find(|p| p.id().kind() == PackageKind::Formula).unwrap();
    let cask = packages.iter().find(|p| p.id().kind() == PackageKind::Cask).unwrap();
    assert_eq!(formula.installed_version().unwrap().as_str(), "1.10");
    assert!(formula.is_pinned());
    assert!(!cask.is_pinned());
}

#[test]
fn exit_status_is_authoritative_and_streams_stay_distinct() {
    let output = run_outcome("sh".into(), false, true, Some(0), vec!["normal".into()], vec!["warning".into()]).unwrap();
    assert_eq!(output.stdout, "normal");
    assert_eq!(output.stderr, "warning");
    let error = run_outcome("sh".into(), false, false, Some(3), vec!["normal".into()], vec![]).unwrap_err();
    assert!(matches!(error, InfrastructureError::NonZeroExit { code: Some(3), .. }));
    assert!(matches!(
        run_outcome("sh".into(), true, true, Some(0), vec![], vec![]),
        Err(InfrastructureError::Cancelled)
    ));
    let joined = run_outcome("sh".into(), false, true, None, vec!["a".into(), "b".into()], vec![]).unwrap();
    assert_eq!(joined.stdout, "a\nb");
}

#[test]
fn helper_checks_fail_closed() {
    assert!(check_helper_file(true, 501, 0o700, 501).is_ok());
    assert!(check_helper_file(false, 501, 0o700, 501).is_err());
    assert!(check_helper_file(true, 0, 0o700, 501).is_err());
    assert!(check_helper_file(true, 501, 0o722, 501).is_err());
    assert!(check_helper_file(true, 501, 0o600, 501).is_err());
    assert!(check_helper_directory(true, 501, 0o700, 501).is_ok());
    assert!(check_helper_directory(true, 501, 0o777, 501).is_err());
    assert!(check_helper_location(true).is_ok());
    assert!(check_helper_location(false).is_err());
}

#[test]
fn error_messages_read_like_the_adapters() {
    let nested = InfrastructureError::CatalogFallback {
        cache: Box::new(InfrastructureError::CatalogUnavailable { reason: "gone".into() }),
        fallback: Box::new(InfrastructureError::NetworkTimeout),
    };
    assert_eq!(
        nested.message(),
        "both Homebrew catalog sources failed (cache: Homebrew catalog is unavailable: gone; supported fallback: network request timed out)"
    );
    let exit = InfrastructureError::NonZeroExit {
        program: "/opt/homebrew/bin/brew".into(),
        code: Some(-3),
        stdout: String::new(),
        stderr: String::new(),
    };
    assert_eq!(exit.message(), "/opt/homebrew/bin/brew exited with status Some(-3)");
    assert_eq!(
        InfrastructureError::filesystem("/tmp/x".into(), "denied".into()).message(),
        "filesystem operation failed for /tmp/x"
    );
}

#[test]
fn helper_must_stay_in_a_non_writable_executable_directory() {
    let owner = 501;
    // helper, directory and location as they stand next to the executable
    assert!(check_helper_file(true, owner, 0o100700, owner).is_ok());
    assert!(check_helper_directory(true, owner, 0o40700, owner).is_ok());
    assert!(check_helper_location(true).is_ok());
    // the same directory made world-writable
    assert!(matches!(
        check_helper_directory(true, owner, 0o40777, owner),
        Err(InfrastructureError::PrivilegeHelper(message)) if message == "helper directory has unsafe ownership or permissions"
    ));
}

#[test]
fn the_wait_kills_once_and_ends_when_all_is_done() {
    assert!(kill_now(true, false));
    assert!(!kill_now(true, true));
    assert!(!kill_now(false, false));
    assert!(!wait_over(Heard::Line));
    assert!(!wait_over(Heard::Quiet { exited: true, readers_done: false }));
    assert!(!wait_over(Heard::Quiet { exited: false, readers_done: true }));
    assert!(wait_over(Heard::Quiet { exited: true, readers_done: true }));
    assert!(wait_over(Heard::Closed));
}

#[test]
fn brew_runs_without_updates_hints_analytics_or_color() {
    let env = brew_environment("/opt/homebrew");
    assert_eq!(
        env,
        vec![
            ("PATH".to_string(), "/opt/homebrew/bin:/opt/homebrew/sbin:/usr/bin:/bin:/usr/sbin:/sbin".to_string()),
            ("HOMEBREW_NO_AUTO_UPDATE".to_string(), "1".to_string()),
            ("HOMEBREW_NO_ENV_HINTS".to_string(), "1".to_string()),
            ("HOMEBREW_NO_ANALYTICS".to_string(), "1".to_string()),
            ("HOMEBREW_NO_COLOR".to_string(), "1".to_string()),
        ]
    );
}

#[test]
fn an_unparseable_cache_is_retried_then_malformed() {
    assert!(matches!(after_parse(0, "/c".to_string(), Err("bad".to_string())), ParseStep::Retry));
    assert!(matches!(after_parse(1, "/c".to_string(), Err("bad".to_string())), ParseStep::Retry));
    match after_parse(READ_ATTEMPTS - 1, "/c".to_string(), Err("bad".to_string())) {
        ParseStep::Done(Err(InfrastructureError::CatalogMalformed { path, source })) => {
            assert_eq!(path, "/c");
            assert_eq!(source, "bad");
        }
        _ => panic!("expected a malformed catalog"),
    }
    match after_parse(0, "/c".to_string(), Ok((vec![entry("wget", "get", "1")], Vec::new()))) {
        ParseStep::Done(Ok(packages)) => assert_eq!(packages.len(), 1),
        _ => panic!("expected the packages"),
    }
    assert!(matches!(
        after_parse(2, "/c".to_string(), Ok((Vec::new(), Vec::new()))),
        ParseStep::Done(Err(InfrastructureError::CatalogUnavailable { .. }))
    ));
}

#[test]
fn trimming_removes_unicode_white_space() {
    assert_eq!(Version::new("\u{a0} 1.2\u{3000}\t").unwrap().as_str(), "1.2");
    assert_eq!(Version::new("\u{2028}"), None);
    assert_eq!(Version::new("a b").unwrap().as_str(), "a b");
}
