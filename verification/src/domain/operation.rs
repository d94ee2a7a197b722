use vstd::prelude::*;

verus! {

/// A Homebrew mutation that the user can request.
#[derive(Clone, Copy, Debug, PartialEq, Eq, Structural, Hash)]
pub enum BrewAction {
    Install,
    Upgrade,
}

impl BrewAction {
    /// The literal `brew` subcommand for this action.
    pub fn command(self) -> (s: &'static str)
        ensures
            self == BrewAction::Install ==> s@ == "install"@,
            self == BrewAction::Upgrade ==> s@ == "upgrade"@,
    {
        match self {
            BrewAction::Install => "install",
            BrewAction::Upgrade => "upgrade",
        }
    }

    /// The button label for this action.
    pub fn label(self) -> (s: &'static str)
        ensures
            self == BrewAction::Install ==> s@ == "Install"@,
            self == BrewAction::Upgrade ==> s@ == "Upgrade"@,
    {
        match self {
            BrewAction::Install => "Install",
            BrewAction::Upgrade => "Upgrade",
        }
    }

    /// The status-bar wording while the action runs.
    pub fn progressive(self) -> (s: &'static str)
        ensures
            self == BrewAction::Install ==> s@ == "Installing"@,
            self == BrewAction::Upgrade ==> s@ == "Upgrading"@,
    {
        match self {
            BrewAction::Install => "Installing",
            BrewAction::Upgrade => "Upgrading",
        }
    }

    /// The wording once the action has finished.
    pub fn completed(self) -> (s: &'static str)
        ensures
            self == BrewAction::Install ==> s@ == "Installed"@,
            self == BrewAction::Upgrade ==> s@ == "Upgraded"@,
    {
        match self {
            BrewAction::Install => "Installed",
            BrewAction::Upgrade => "Upgraded",
        }
    }
}

} // verus!
