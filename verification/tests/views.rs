use kettle::application::state::{AuthFailure, AuthState, DevicePrompt, GitHubUser, OperationState, RefreshStage};
use kettle::domain::{BrewAction, Package, PackageId, PackageKind, Version};
use kettle::ui::views::{
    activates, auth_control, auth_status, count_badge, is_busy, primary_label, status_bar, version_column, AuthControl,
};

fn id(name: &str) -> PackageId {
    PackageId::new(name, PackageKind::Formula).unwrap()
}

#[test]
fn the_settings_panel_says_where_sign_in_stands() {
    assert_eq!(auth_status(&AuthState::SignedOut), "Not signed in");
    assert_eq!(auth_status(&AuthState::RequestingDeviceCode), "Contacting GitHub…");
    let prompt = DevicePrompt { user_code: "ABCD".into(), verification_uri: "https://github.com/login/device".into(), expires_in_seconds: 900 };
    assert_eq!(auth_status(&AuthState::AwaitingApproval(prompt.clone())), "Waiting for browser approval");
    assert_eq!(auth_status(&AuthState::SignedIn(GitHubUser("octocat".into()))), "Signed in as octocat");
    assert_eq!(auth_status(&AuthState::Failed(AuthFailure::Expired)), "The device code expired");
    assert_eq!(auth_control(&AuthState::SignedIn(GitHubUser("octocat".into()))), AuthControl::SignOut);
    assert_eq!(auth_control(&AuthState::AwaitingApproval(prompt)), AuthControl::CancelSignIn);
    assert_eq!(auth_control(&AuthState::Failed(AuthFailure::Expired)), AuthControl::SignIn);
}

#[test]
fn the_status_bar_reports_selection_matches_and_progress() {
    assert_eq!(status_bar(OperationState::Idle, 3, 10, ""), "3 selected");
    assert_eq!(status_bar(OperationState::Idle, 0, 10, "rip"), "10 matches");
    assert_eq!(status_bar(OperationState::Idle, 0, 10, ""), "");
    assert_eq!(status_bar(OperationState::Refreshing(RefreshStage::Catalog), 3, 10, ""), "Refreshing: Catalog");
    assert_eq!(
        status_bar(OperationState::Mutating { action: BrewAction::Upgrade, targets: 2 }, 0, 0, ""),
        "Upgrading 2 package(s)…"
    );
    assert!(!is_busy(OperationState::Idle));
    assert!(is_busy(OperationState::Refreshing(RefreshStage::Outdated)));
}

#[test]
fn the_primary_button_counts_what_it_acts_on() {
    assert_eq!(primary_label(BrewAction::Install, 0), "Install Selected");
    assert_eq!(primary_label(BrewAction::Upgrade, 12), "Upgrade 12");
}

#[test]
fn the_version_column_points_from_installed_to_latest() {
    let outdated = Package::outdated(id("wget"), Version::new("1.0"), Version::new("1.1"), false);
    let column = version_column(&outdated);
    assert_eq!(column.shown, "1.0");
    assert_eq!(column.target.as_deref(), Some("1.1"));
    assert!(column.available);

    let catalog = Package::catalog(id("jq"), Version::new("1.7"), None);
    let column = version_column(&catalog);
    assert_eq!(column.shown, "1.7");
    assert_eq!(column.target, None);

    let bare = Package::catalog(id("fd"), None, None);
    assert_eq!(version_column(&bare).shown, "unknown");
}

#[test]
fn sidebar_badges_and_key_activation() {
    assert_eq!(count_badge(0), "");
    assert_eq!(count_badge(42), "42");
    assert!(activates("enter"));
    assert!(activates("space"));
    assert!(!activates("tab"));
}
