use kettle::application::session::{next_poll, output_event, plan_event, primary_action, stream_level, PollStep};
use kettle::application::state::{AuthFailure, AuthState, DevicePrompt, GitHubUser, LogLevel, LogSource, OperationState, RefreshStage};
use kettle::application::{AppController, View};
use kettle::domain::{BrewAction, Package, PackageId, PackageKind, Version};
use kettle::infrastructure::github::{AccessToken, PollResult};
use kettle::infrastructure::homebrew::backend::CommandPlan;
use kettle::infrastructure::homebrew::process::{ProcessEvent, ProcessStream};
use kettle::infrastructure::InfrastructureError;

fn id(name: &str) -> PackageId {
    PackageId::new(name, PackageKind::Formula).unwrap()
}

fn last_message(controller: &AppController) -> (LogLevel, LogSource, String) {
    let event = controller.state.logs().back().unwrap();
    (event.level, event.source, event.message.clone())
}

#[test]
fn refresh_stages_advance_only_for_the_current_generation() {
    let mut controller = AppController::default();
    let (stale, _) = controller.begin_refresh();
    let (current, _) = controller.begin_refresh();
    let installed = Ok(vec![Package::installed(id("wget"), Version::new("1.0"), false)]);
    controller.installed_loaded(stale, &installed);
    assert_eq!(controller.state.operation, OperationState::Refreshing(RefreshStage::InstalledState));
    controller.installed_loaded(current, &installed);
    assert_eq!(controller.state.operation, OperationState::Refreshing(RefreshStage::Catalog));
    assert!(controller.state.packages.package(&id("wget")).is_some());
    controller.catalog_loaded(current, &Err(InfrastructureError::NetworkTimeout));
    assert_eq!(controller.state.operation, OperationState::Refreshing(RefreshStage::Outdated));
    assert_eq!(
        last_message(&controller),
        (LogLevel::Error, LogSource::Catalog, "GitHub did not respond before the request deadline.".to_string())
    );
}

#[test]
fn a_complete_refresh_replaces_the_store_and_goes_idle() {
    let mut controller = AppController::default();
    let (generation, _) = controller.begin_refresh();
    controller.refresh_completed(
        generation,
        Ok(vec![Package::installed(id("wget"), Version::new("1.0"), false)]),
        Ok(vec![Package::catalog(id("jq"), Version::new("1.7"), Some("JSON processor"))]),
        Ok(Vec::new()),
    );
    assert_eq!(controller.state.operation, OperationState::Idle);
    assert!(controller.state.packages.package(&id("wget")).is_some());
    assert!(controller.state.packages.package(&id("jq")).is_some());
    assert!(!controller.refresh_is_current(generation));
}

#[test]
fn a_failed_outdated_report_is_logged() {
    let mut controller = AppController::default();
    let (generation, _) = controller.begin_refresh();
    controller.refresh_completed(
        generation,
        Ok(Vec::new()),
        Ok(Vec::new()),
        Err(InfrastructureError::Cancelled),
    );
    assert_eq!(controller.state.operation, OperationState::Idle);
    assert_eq!(
        last_message(&controller),
        (LogLevel::Error, LogSource::Homebrew, "The operation was cancelled.".to_string())
    );
}

#[test]
fn refresh_steps_follow_the_currency_answer() {
    let mut controller = AppController::default();
    let (_generation, _) = controller.begin_refresh();
    let installed = Ok(vec![Package::installed(id("wget"), Version::new("1.0"), false)]);
    controller.apply_installed(false, &installed);
    assert_eq!(controller.state.operation, OperationState::Refreshing(RefreshStage::InstalledState));
    assert!(controller.state.packages.package(&id("wget")).is_none());
    controller.apply_installed(true, &installed);
    assert_eq!(controller.state.operation, OperationState::Refreshing(RefreshStage::Catalog));
    assert!(controller.state.packages.package(&id("wget")).is_some());
    let catalog = Ok(vec![Package::catalog(id("jq"), Version::new("1.7"), Some("JSON processor"))]);
    controller.apply_catalog(false, &catalog);
    assert_eq!(controller.state.operation, OperationState::Refreshing(RefreshStage::Catalog));
    controller.apply_catalog(true, &catalog);
    assert_eq!(controller.state.operation, OperationState::Refreshing(RefreshStage::Outdated));
    assert!(controller.state.packages.package(&id("jq")).is_some());
    controller.complete_refresh(false, Ok(Vec::new()), Ok(Vec::new()), Err(InfrastructureError::Cancelled));
    assert_eq!(controller.state.operation, OperationState::Refreshing(RefreshStage::Outdated));
    assert!(controller.state.logs().is_empty());
    controller.complete_refresh(true, Ok(Vec::new()), Ok(Vec::new()), Err(InfrastructureError::Cancelled));
    assert_eq!(controller.state.operation, OperationState::Idle);
    assert_eq!(
        last_message(&controller),
        (LogLevel::Error, LogSource::Homebrew, "The operation was cancelled.".to_string())
    );
    assert!(controller.state.packages.package(&id("wget")).is_some());
}

#[test]
fn finishing_follows_the_currency_answer() {
    let mut controller = AppController::default();
    let (generation, _) = controller.begin_refresh();
    controller.finish_refresh_when(false);
    assert_eq!(controller.state.operation, OperationState::Refreshing(RefreshStage::InstalledState));
    assert!(controller.refresh_is_current(generation));
    controller.finish_refresh_when(true);
    assert_eq!(controller.state.operation, OperationState::Idle);
    assert!(!controller.refresh_is_current(generation));
}

#[test]
fn no_refresh_during_a_mutation() {
    let mut controller = AppController::default();
    assert!(controller.may_refresh());
    controller.begin_mutation(BrewAction::Upgrade, 1).unwrap();
    assert!(!controller.may_refresh());
}

#[test]
fn a_restored_session_only_fills_a_signed_out_app() {
    let mut controller = AppController::default();
    controller.session_restored(Ok(None));
    assert_eq!(controller.state.auth, AuthState::SignedOut);
    controller.session_restored(Ok(Some("octocat".into())));
    assert_eq!(controller.state.auth, AuthState::SignedIn(GitHubUser("octocat".into())));
    controller.session_restored(Err(InfrastructureError::OAuthExpired));
    assert_eq!(controller.state.auth, AuthState::SignedIn(GitHubUser("octocat".into())));

    let mut fresh = AppController::default();
    fresh.session_restored(Err(InfrastructureError::OAuthExpired));
    assert_eq!(fresh.state.auth, AuthState::Failed(AuthFailure::Expired));
    assert_eq!(last_message(&fresh).1, LogSource::GitHub);
}

#[test]
fn sign_in_steps_respect_cancellation() {
    let mut controller = AppController::default();
    controller.begin_authentication();
    let prompt = DevicePrompt { user_code: "ABCD-1234".into(), verification_uri: "https://github.com/login/device".into(), expires_in_seconds: 900 };
    controller.awaiting_approval(prompt.clone(), true);
    assert_eq!(controller.state.auth, AuthState::RequestingDeviceCode);
    controller.awaiting_approval(prompt.clone(), false);
    assert_eq!(controller.state.auth, AuthState::AwaitingApproval(prompt));
    controller.sign_in_settled(Ok("octocat".into()), true);
    assert!(matches!(controller.state.auth, AuthState::AwaitingApproval(_)));
    controller.sign_in_settled(Ok("octocat".into()), false);
    assert_eq!(controller.state.auth, AuthState::SignedIn(GitHubUser("octocat".into())));

    controller.sign_in_failed(&InfrastructureError::OAuthDenied("access_denied".into()));
    assert_eq!(controller.state.auth, AuthState::Failed(AuthFailure::Denied("access_denied".into())));
    controller.browser_not_opened();
    assert_eq!(
        last_message(&controller).2,
        "Could not open the browser; use the verification URL shown in Settings."
    );
}

#[test]
fn signing_out_keeps_the_session_when_the_keychain_fails() {
    let mut controller = AppController::default();
    controller.state.auth = AuthState::SignedIn(GitHubUser("octocat".into()));
    assert!(controller.sign_out_finished(Err(InfrastructureError::Keychain("locked".into()))));
    assert_eq!(controller.state.auth, AuthState::SignedIn(GitHubUser("octocat".into())));
    assert_eq!(
        last_message(&controller).2,
        "The OAuth token could not be updated in the macOS Keychain."
    );
    assert!(!controller.sign_out_finished(Ok(())));
    assert_eq!(controller.state.auth, AuthState::SignedOut);
}

#[test]
fn polling_slows_down_as_asked() {
    assert!(matches!(next_poll(5, Ok(PollResult::Pending)), PollStep::Wait(5)));
    assert!(matches!(next_poll(5, Ok(PollResult::SlowDown(5))), PollStep::Wait(10)));
    match next_poll(5, Ok(PollResult::Token(AccessToken::new("gho_token".into())))) {
        PollStep::Authorized(token) => assert_eq!(token.expose(), "gho_token"),
        _ => panic!("a token authorizes"),
    }
    assert!(matches!(
        next_poll(5, Err(InfrastructureError::OAuthExpired)),
        PollStep::Failed(InfrastructureError::OAuthExpired)
    ));
}

#[test]
fn refused_mutations_say_why() {
    let mut controller = AppController::default();
    controller.mutation_refused();
    assert_eq!(
        last_message(&controller),
        (LogLevel::Info, LogSource::Application, "No eligible packages selected.".to_string())
    );
    controller.begin_mutation(BrewAction::Install, 1).unwrap();
    controller.mutation_refused();
    assert_eq!(last_message(&controller).2, "Another Homebrew operation is already running.");
}

#[test]
fn finished_mutations_log_their_outcome_and_go_idle() {
    let mut controller = AppController::default();
    controller.begin_mutation(BrewAction::Upgrade, 1).unwrap();
    controller.mutation_finished(BrewAction::Upgrade, Ok(()));
    assert_eq!(controller.state.operation, OperationState::Idle);
    assert_eq!(
        last_message(&controller),
        (LogLevel::Success, LogSource::Application, "Packages upgraded.".to_string())
    );
    let before = controller.state.logs().len();
    controller.begin_mutation(BrewAction::Install, 1).unwrap();
    controller.mutation_finished(BrewAction::Install, Err(InfrastructureError::Cancelled));
    assert_eq!(controller.state.logs().len(), before);
    controller.begin_mutation(BrewAction::Install, 1).unwrap();
    controller.mutation_finished(BrewAction::Install, Err(InfrastructureError::OAuthExpired));
    assert_eq!(last_message(&controller), (LogLevel::Error, LogSource::Homebrew, "The GitHub device code expired.".to_string()));
}

#[test]
fn brew_output_and_commands_become_log_events() {
    assert_eq!(primary_action(View::Browse), BrewAction::Install);
    assert_eq!(primary_action(View::Installed), BrewAction::Upgrade);
    assert_eq!(stream_level(ProcessStream::Stdout), LogLevel::Trace);
    assert_eq!(stream_level(ProcessStream::Stderr), LogLevel::Info);
    let event = output_event(ProcessEvent { stream: ProcessStream::Stderr, message: "Warning: x".into() });
    assert_eq!((event.level, event.source, event.message.as_str()), (LogLevel::Info, LogSource::Homebrew, "Warning: x"));
    let plan = CommandPlan {
        action: BrewAction::Upgrade,
        kind: PackageKind::Cask,
        targets: vec![PackageId::new("firefox", PackageKind::Cask).unwrap()],
    };
    let event = plan_event(&plan);
    assert_eq!(event.message, "brew upgrade --cask firefox");
    assert_eq!(event.level, LogLevel::Trace);
}
