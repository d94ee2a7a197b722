//! What the main window writes: the sign-in status, the status bar, the
//! primary button, and the version column of a package row.
use crate::application::state::{AuthFailure, AuthState, GitHubUser, OperationState, RefreshStage};
use crate::domain::package::{Package, PackageView, UpdateState};
use crate::domain::BrewAction;
use crate::text::{chars_of, concat, count_text, digits, owned};
use crate::ui::messages::auth_failure_message;
use vstd::prelude::*;

verus! {

/// What a sign-in failure says.
pub open spec fn failure_text(f: AuthFailure) -> Seq<char> {
    match f {
        AuthFailure::Denied(m) => m@,
        AuthFailure::Network(m) => m@,
        AuthFailure::Keychain(m) => m@,
        AuthFailure::Protocol(m) => m@,
        AuthFailure::Expired => "The device code expired"@,
    }
}

/// Where sign-in stands, as the settings panel says it.
pub open spec fn auth_status_text(auth: AuthState) -> Seq<char> {
    match auth {
        AuthState::SignedOut => "Not signed in"@,
        AuthState::RequestingDeviceCode => "Contacting GitHub…"@,
        AuthState::AwaitingApproval(_) => "Waiting for browser approval"@,
        AuthState::SignedIn(GitHubUser(login)) => "Signed in as "@ + login@,
        AuthState::Failed(f) => failure_text(f),
    }
}

/// Where sign-in stands.
pub fn auth_status(auth: &AuthState) -> (r: String)
    ensures
        r@ == auth_status_text(*auth),
{
    match auth {
        AuthState::SignedOut => owned("Not signed in"),
        AuthState::RequestingDeviceCode => owned("Contacting GitHub…"),
        AuthState::AwaitingApproval(_) => owned("Waiting for browser approval"),
        AuthState::SignedIn(GitHubUser(login)) => concat("Signed in as ", login.as_str()),
        AuthState::Failed(failure) => auth_failure_message(failure),
    }
}

/// A refresh stage by name.
pub open spec fn stage_text(stage: RefreshStage) -> Seq<char> {
    match stage {
        RefreshStage::InstalledState => "InstalledState"@,
        RefreshStage::Catalog => "Catalog"@,
        RefreshStage::Outdated => "Outdated"@,
    }
}

/// The present participle of an action.
pub open spec fn progressive_of(action: BrewAction) -> Seq<char> {
    match action {
        BrewAction::Install => "Installing"@,
        BrewAction::Upgrade => "Upgrading"@,
    }
}

/// What the status bar says: when idle, the size of the selection, else
/// how many rows a search shows; else the stage of a refresh or the
/// progress of a mutation.
pub open spec fn status_bar_text(operation: OperationState, selected: nat, visible: nat, query: Seq<char>) -> Seq<
    char,
> {
    match operation {
        OperationState::Idle => if selected > 0 {
            digits(selected) + " selected"@
        } else if query.len() > 0 {
            digits(visible) + " matches"@
        } else {
            ""@
        },
        OperationState::Refreshing(stage) => "Refreshing: "@ + stage_text(stage),
        OperationState::Mutating { action, targets } => progressive_of(action) + " "@ + digits(
            targets as nat,
        ) + " package(s)…"@,
    }
}

/// What the status bar says, given the size of the selection and of the
/// shown rows.
pub fn status_bar(operation: OperationState, selected: usize, visible: usize, query: &str) -> (r: String)
    ensures
        r@ == status_bar_text(operation, selected as nat, visible as nat, query@),
{
    match operation {
        OperationState::Idle => {
            if selected > 0 {
                concat(count_text(selected).as_str(), " selected")
            } else if chars_of(query).len() > 0 {
                concat(count_text(visible).as_str(), " matches")
            } else {
                proof {
                    reveal_strlit("");
                }
                String::new()
            }
        },
        OperationState::Refreshing(stage) => concat(
            "Refreshing: ",
            match stage {
                RefreshStage::InstalledState => "InstalledState",
                RefreshStage::Catalog => "Catalog",
                RefreshStage::Outdated => "Outdated",
            },
        ),
        OperationState::Mutating { action, targets } => {
            let head = concat(action.progressive(), " ");
            let counted = concat(head.as_str(), count_text(targets).as_str());
            concat(counted.as_str(), " package(s)…")
        },
    }
}

/// The imperative label of an action.
pub open spec fn label_of(action: BrewAction) -> Seq<char> {
    match action {
        BrewAction::Install => "Install"@,
        BrewAction::Upgrade => "Upgrade"@,
    }
}

/// The primary button's label: the action, then how many rows it acts on,
/// or "Selected" while nothing is.
pub fn primary_label(action: BrewAction, selected: usize) -> (r: String)
    ensures
        r@ == (if selected == 0 {
            label_of(action) + " Selected"@
        } else {
            label_of(action) + " "@ + digits(selected as nat)
        }),
{
    if selected == 0 {
        concat(action.label(), " Selected")
    } else {
        let head = concat(action.label(), " ");
        concat(head.as_str(), count_text(selected).as_str())
    }
}

/// How a package's version column reads.
pub struct VersionColumn {
    /// The installed version, else the latest, else "unknown".
    pub shown: String,
    /// The version an available update goes to, when both ends are known.
    pub target: Option<String>,
    /// An update is available: the shown version recedes.
    pub available: bool,
    pub pinned: bool,
}

/// The version shown first in a row.
pub open spec fn shown_version(p: PackageView) -> Seq<char> {
    match p.installed {
        Some(v) => v,
        None => match p.latest {
            Some(v) => v,
            None => "unknown"@,
        },
    }
}

/// The version column of a package.
pub fn version_column(p: &Package) -> (r: VersionColumn)
    ensures
        r.shown@ == shown_version(p@),
        r.available == (p@.update == UpdateState::UpdateAvailable),
        match r.target {
            Some(t) => r.available && p@.installed is Some && p@.latest == Some(t@),
            None => !(r.available && p@.installed is Some && p@.latest is Some),
        },
        r.pinned == p@.pinned,
{
    let installed = p.installed_version();
    let latest = p.latest_version();
    let available = match p.update_state() {
        UpdateState::UpdateAvailable => true,
        _ => false,
    };
    let shown = match installed {
        Some(v) => owned(v.as_str()),
        None => match latest {
            Some(v) => owned(v.as_str()),
            None => owned("unknown"),
        },
    };
    let target = match (installed, latest) {
        (Some(_), Some(l)) => if available {
            Some(owned(l.as_str()))
        } else {
            None
        },
        _ => None,
    };
    VersionColumn { shown, target, available, pinned: p.is_pinned() }
}

/// The sign-in control the settings panel offers.
#[derive(Clone, Copy, Debug, PartialEq, Eq, Structural)]
pub enum AuthControl {
    SignOut,
    CancelSignIn,
    SignIn,
}

/// Signed in: sign out; signing in: cancel; otherwise: sign in.
pub fn auth_control(auth: &AuthState) -> (r: AuthControl)
    ensures
        r == (match *auth {
            AuthState::SignedIn(_) => AuthControl::SignOut,
            AuthState::RequestingDeviceCode | AuthState::AwaitingApproval(_) => AuthControl::CancelSignIn,
            _ => AuthControl::SignIn,
        }),
{
    match auth {
        AuthState::SignedIn(_) => AuthControl::SignOut,
        AuthState::RequestingDeviceCode => AuthControl::CancelSignIn,
        AuthState::AwaitingApproval(_) => AuthControl::CancelSignIn,
        _ => AuthControl::SignIn,
    }
}

/// Whether the app is busy: anything but idle.
pub fn is_busy(operation: OperationState) -> (r: bool)
    ensures
        r == (operation != OperationState::Idle),
{
    match operation {
        OperationState::Idle => false,
        _ => true,
    }
}

/// The count beside a sidebar entry: blank for none.
pub fn count_badge(count: usize) -> (r: String)
    ensures
        r@ == (if count > 0 {
            digits(count as nat)
        } else {
            Seq::empty()
        }),
{
    if count > 0 {
        count_text(count)
    } else {
        String::new()
    }
}

/// Whether a key press activates a focused button or sidebar entry: Return
/// or Space.
pub fn activates(key: &str) -> (r: bool)
    ensures
        r == (key@ == "enter"@ || key@ == "space"@),
{
    crate::text::text_eq(key, "enter") || crate::text::text_eq(key, "space")
}

} // verus!
