use crate::domain::{BrewAction, PackageId};
use vstd::prelude::*;

verus! {

/// The screens of the app.
#[derive(Clone, Copy, Debug, PartialEq, Eq, Structural)]
pub enum View {
    Outdated,
    Installed,
    Browse,
    Settings,
}

impl Default for View {
    fn default() -> (r: View)
        ensures
            r == View::Outdated,
    {
        View::Outdated
    }
}

/// What the user asked the app to do.
#[derive(Debug, PartialEq, Eq)]
pub enum AppAction {
    ChangeView(View),
    Refresh,
    Mutate { action: BrewAction, targets: Vec<PackageId> },
    SearchChanged(String),
    CancelAuthentication,
    SignOut,
}

} // verus!
