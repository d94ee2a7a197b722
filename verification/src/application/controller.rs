use crate::application::session::{
    browser_not_opened_text, completion_text, error_logged, log_error, logged, refresh_finished, refreshed_store,
    refusal_text, same_but_log, stage_reported,
};
use crate::application::state::{
    refiltered, AppState, AuthState, DevicePrompt, GitHubUser, LogEvent, LogLevel, LogSource, OperationState,
    RefreshStage,
};
use crate::application::store::Overlay;
use crate::domain::package::Package;
use crate::infrastructure::InfrastructureError;
use crate::text::owned;
use crate::ui::messages::{auth_failure, failure_of, present_error, presented};
use crate::domain::BrewAction;
use std::sync::atomic::AtomicBool;
use std::sync::atomic::Ordering;
use std::sync::Arc;
use vstd::prelude::*;

verus! {

/// A flag shared between the controller and the work it started: the
/// controller raises it, the work polls it. Clones share one flag.
///
/// What `is_cancelled` answers depends on every holder of the flag, so no
/// contract here states it.
#[derive(Clone)]
pub struct CancellationToken(Arc<AtomicBool>);

impl CancellationToken {
    /// A fresh token, not cancelled.
    pub fn new() -> CancellationToken {
        CancellationToken(Arc::new(AtomicBool::new(false)))
    }

    /// Raise the flag for every clone of this token.
    pub fn cancel(&self)
        opens_invariants none
        no_unwind
    {
        raise_flag(&self.0);
    }

    /// Whether any holder has raised the flag.
    pub fn is_cancelled(&self) -> bool {
        self.0.load(Ordering::Acquire)
    }
}

impl Default for CancellationToken {
    fn default() -> CancellationToken {
        CancellationToken::new()
    }
}

/// Calls `AtomicBool::store(true, Ordering::Release)`. std documents that
/// `store` panics only for the `Acquire` and `AcqRel` orderings, so with
/// `Release` the call returns; the contract claims that and nothing of the
/// flag's value, which other threads share.
#[verifier::external_body]
fn raise_flag(flag: &AtomicBool)
    opens_invariants none
    no_unwind
{
    flag.store(true, Ordering::Release);
}

/// The controller's bookkeeping: the generation of the newest refresh and
/// which kinds of work hold a live token.
pub struct ControllerView {
    pub generation: u64,
    pub refreshing: bool,
    pub authenticating: bool,
    pub mutating: bool,
}

/// Starts and finishes refreshes, mutations and sign-ins on the app state,
/// cancelling work that a newer request supersedes.
pub struct AppController {
    pub state: AppState,
    refresh_generation: u64,
    refresh_cancel: Option<CancellationToken>,
    auth_cancel: Option<CancellationToken>,
    mutation_cancel: Option<CancellationToken>,
}

impl View for AppController {
    type V = ControllerView;

    closed spec fn view(&self) -> ControllerView {
        ControllerView {
            generation: self.refresh_generation,
            refreshing: self.refresh_cancel is Some,
            authenticating: self.auth_cancel is Some,
            mutating: self.mutation_cancel is Some,
        }
    }
}

/// Whether sign-in is under way: a device code is requested or awaits
/// approval.
pub open spec fn signing_in(auth: AuthState) -> bool {
    auth is RequestingDeviceCode || auth is AwaitingApproval
}

impl AppController {
    /// The app state the controller drives.
    pub closed spec fn app(&self) -> AppState {
        self.state
    }

    pub fn new() -> (r: AppController)
        ensures
            r.app().wf(),
            r.app().operation == OperationState::Idle,
            r.app().auth == AuthState::SignedOut,
            r@ == (ControllerView {
                generation: 0,
                refreshing: false,
                authenticating: false,
                mutating: false,
            }),
    {
        AppController {
            state: AppState::default(),
            refresh_generation: 0,
            refresh_cancel: None,
            auth_cancel: None,
            mutation_cancel: None,
        }
    }

    /// Start a refresh: the running one (if any) is cancelled, and the new
    /// one gets the next generation and a fresh token.
    pub fn begin_refresh(&mut self) -> (r: (u64, CancellationToken))
        requires
            old(self)@.generation < u64::MAX,
        ensures
            r.0 == old(self)@.generation + 1,
            final(self)@ == (ControllerView {
                generation: r.0,
                refreshing: true,
                ..old(self)@
            }),
            final(self).app() == (AppState {
                operation: OperationState::Refreshing(RefreshStage::InstalledState),
                ..old(self).app()
            }),
    {
        match self.refresh_cancel.take() {
            Some(token) => token.cancel(),
            None => {},
        }
        self.refresh_generation = self.refresh_generation + 1;
        let generation = self.refresh_generation;
        let token = CancellationToken::new();
        self.refresh_cancel = Some(token.clone());
        self.state.operation = OperationState::Refreshing(RefreshStage::InstalledState);
        (generation, token)
    }

    /// Whether `generation` is the newest refresh and it has not been
    /// cancelled. A superseded generation is never current.
    pub fn refresh_is_current(&self, generation: u64) -> (r: bool)
        ensures
            r ==> generation == self@.generation && self@.refreshing,
            generation != self@.generation ==> !r,
            !self@.refreshing ==> !r,
    {
        if generation != self.refresh_generation {
            return false;
        }
        match &self.refresh_cancel {
            Some(token) => !token.is_cancelled(),
            None => false,
        }
    }

    /// Finish refresh `generation`: if it is still current, the app goes
    /// idle; a stale or cancelled refresh changes nothing. Whether it is
    /// current is `refresh_is_current`'s answer; `finish_refresh_when`
    /// states what follows from each answer.
    pub fn finish_refresh(&mut self, generation: u64)
        ensures
            generation != old(self)@.generation ==> final(self)@ == old(self)@ && final(self).app()
                == old(self).app(),
            final(self)@ == old(self)@ && final(self).app() == old(self).app() || (generation
                == old(self)@.generation && old(self)@.refreshing && final(self)@ == (ControllerView {
                refreshing: false,
                ..old(self)@
            }) && final(self).app() == (AppState {
                operation: OperationState::Idle,
                ..old(self).app()
            })),
    {
        let current = self.refresh_is_current(generation);
        self.finish_refresh_when(current);
    }

    /// End the running refresh when `current`: its token is dropped and the
    /// app goes idle. Otherwise nothing changes.
    pub fn finish_refresh_when(&mut self, current: bool)
        ensures
            current ==> final(self)@ == (ControllerView { refreshing: false, ..old(self)@ })
                && final(self).app() == (AppState { operation: OperationState::Idle, ..old(self).app() }),
            !current ==> final(self)@ == old(self)@ && final(self).app() == old(self).app(),
    {
        if current {
            self.refresh_cancel = None;
            self.state.operation = OperationState::Idle;
        }
    }

    /// Start a mutation of `targets` packages. Refused (`None`) while
    /// anything else runs or when there is nothing to act on.
    pub fn begin_mutation(&mut self, action: BrewAction, targets: usize) -> (r: Option<
        CancellationToken,
    >)
        ensures
            r is None <==> (old(self).app().operation != OperationState::Idle || targets == 0),
            r is None ==> final(self)@ == old(self)@ && final(self).app() == old(self).app(),
            r is Some ==> final(self)@ == (ControllerView { mutating: true, ..old(self)@ })
                && final(self).app() == (AppState {
                operation: OperationState::Mutating { action, targets },
                ..old(self).app()
            }),
    {
        let idle = match self.state.operation {
            OperationState::Idle => true,
            _ => false,
        };
        if !idle || targets == 0 {
            return None;
        }
        let token = CancellationToken::new();
        self.mutation_cancel = Some(token.clone());
        self.state.operation = OperationState::Mutating { action, targets };
        Some(token)
    }

    /// The mutation is over: drop its token and go idle.
    pub fn finish_mutation(&mut self)
        ensures
            final(self)@ == (ControllerView { mutating: false, ..old(self)@ }),
            final(self).app() == (AppState { operation: OperationState::Idle, ..old(self).app() }),
    {
        self.mutation_cancel = None;
        self.state.operation = OperationState::Idle;
    }

    /// Start signing in: any sign-in under way is cancelled first, then a
    /// device code is requested under a fresh token.
    pub fn begin_authentication(&mut self) -> (r: CancellationToken)
        ensures
            final(self)@ == (ControllerView { authenticating: true, ..old(self)@ }),
            final(self).app() == (AppState {
                auth: AuthState::RequestingDeviceCode,
                ..old(self).app()
            }),
    {
        self.cancel_authentication();
        let token = CancellationToken::new();
        self.auth_cancel = Some(token.clone());
        self.state.auth = AuthState::RequestingDeviceCode;
        token
    }

    /// Cancel the sign-in under way: its token is raised and dropped, and a
    /// pending device flow returns to signed out. A settled state (signed
    /// in, failed, signed out) stays.
    pub fn cancel_authentication(&mut self)
        ensures
            final(self)@ == (ControllerView { authenticating: false, ..old(self)@ }),
            signing_in(old(self).app().auth) ==> final(self).app() == (AppState {
                auth: AuthState::SignedOut,
                ..old(self).app()
            }),
            !signing_in(old(self).app().auth) ==> final(self).app() == old(self).app(),
    {
        match self.auth_cancel.take() {
            Some(token) => token.cancel(),
            None => {},
        }
        let pending = match self.state.auth {
            AuthState::RequestingDeviceCode => true,
            AuthState::AwaitingApproval(_) => true,
            _ => false,
        };
        if pending {
            self.state.auth = AuthState::SignedOut;
        }
    }

    /// The sign-in flow ended on its own: drop its token.
    pub fn finish_authentication(&mut self)
        ensures
            final(self)@ == (ControllerView { authenticating: false, ..old(self)@ }),
            final(self).app() == old(self).app(),
    {
        self.auth_cancel = None;
    }

    /// Raise every live token, so no work outlives the controller.
    pub fn shutdown(&self)
        opens_invariants none
        no_unwind
    {
        match &self.refresh_cancel {
            Some(token) => token.cancel(),
            None => {},
        }
        match &self.auth_cancel {
            Some(token) => token.cancel(),
            None => {},
        }
        match &self.mutation_cancel {
            Some(token) => token.cancel(),
            None => {},
        }
    }
}

impl Default for AppController {
    fn default() -> (r: AppController)
        ensures
            r.app().wf(),
            r.app().operation == OperationState::Idle,
            r.app().auth == AuthState::SignedOut,
            r@ == (ControllerView {
                generation: 0,
                refreshing: false,
                authenticating: false,
                mutating: false,
            }),
    {
        AppController::new()
    }
}

impl Drop for AppController {
    fn drop(&mut self)
        opens_invariants none
        no_unwind
    {
        self.shutdown();
    }
}

// ---- what the window does as work reports back ------------------------------------

impl AppController {
    /// Whether a refresh may start: never during a mutation.
    pub fn may_refresh(&self) -> (r: bool)
        ensures
            r == !(self.app().operation is Mutating),
    {
        match self.state.operation {
            OperationState::Mutating { .. } => false,
            _ => true,
        }
    }

    /// The installed scan of refresh `generation` came back. A superseded
    /// or cancelled refresh changes nothing; a current one takes the report
    /// (see `apply_installed`).
    pub fn installed_loaded(&mut self, generation: u64, installed: &Result<Vec<Package>, InfrastructureError>)
        requires
            old(self).app().wf(),
        ensures
            final(self).app().wf(),
            final(self)@ == old(self)@,
            (generation != old(self)@.generation || !old(self)@.refreshing) ==> final(self).app() == old(self).app(),
            final(self).app() == old(self).app() || (generation == old(self)@.generation
                && old(self)@.refreshing && stage_reported(
                old(self).app(),
                final(self).app(),
                *installed,
                Overlay::Installed,
                LogSource::Homebrew,
                RefreshStage::Catalog,
            )),
    {
        let current = self.refresh_is_current(generation);
        self.apply_installed(current, installed);
    }

    /// Take the installed scan when `current`: the packages are previewed
    /// (or the failure logged), the refresh moves on to the catalog and the
    /// rows are refiltered. Otherwise nothing changes.
    pub fn apply_installed(&mut self, current: bool, installed: &Result<Vec<Package>, InfrastructureError>)
        requires
            old(self).app().wf(),
        ensures
            final(self).app().wf(),
            final(self)@ == old(self)@,
            current ==> stage_reported(
                old(self).app(),
                final(self).app(),
                *installed,
                Overlay::Installed,
                LogSource::Homebrew,
                RefreshStage::Catalog,
            ),
            !current ==> final(self).app() == old(self).app(),
    {
        if !current {
            return;
        }
        match installed {
            Ok(packages) => self.state.packages.preview_installed(packages.as_slice()),
            Err(error) => log_error(&mut self.state, LogSource::Homebrew, present_error(error)),
        }
        self.state.operation = OperationState::Refreshing(RefreshStage::Catalog);
        self.state.refilter();
    }

    /// The catalog of refresh `generation` came back. A superseded or
    /// cancelled refresh changes nothing; a current one takes the catalog
    /// (see `apply_catalog`).
    pub fn catalog_loaded(&mut self, generation: u64, catalog: &Result<Vec<Package>, InfrastructureError>)
        requires
            old(self).app().wf(),
        ensures
            final(self).app().wf(),
            final(self)@ == old(self)@,
            (generation != old(self)@.generation || !old(self)@.refreshing) ==> final(self).app() == old(self).app(),
            final(self).app() == old(self).app() || (generation == old(self)@.generation
                && old(self)@.refreshing && stage_reported(
                old(self).app(),
                final(self).app(),
                *catalog,
                Overlay::Catalog,
                LogSource::Catalog,
                RefreshStage::Outdated,
            )),
    {
        let current = self.refresh_is_current(generation);
        self.apply_catalog(current, catalog);
    }

    /// Take the catalog when `current`: its packages are previewed (or the
    /// failure logged), the refresh moves on to the outdated report and the
    /// rows are refiltered. Otherwise nothing changes.
    pub fn apply_catalog(&mut self, current: bool, catalog: &Result<Vec<Package>, InfrastructureError>)
        requires
            old(self).app().wf(),
        ensures
            final(self).app().wf(),
            final(self)@ == old(self)@,
            current ==> stage_reported(
                old(self).app(),
                final(self).app(),
                *catalog,
                Overlay::Catalog,
                LogSource::Catalog,
                RefreshStage::Outdated,
            ),
            !current ==> final(self).app() == old(self).app(),
    {
        if !current {
            return;
        }
        match catalog {
            Ok(packages) => self.state.packages.preview_catalog(packages.as_slice()),
            Err(error) => log_error(&mut self.state, LogSource::Catalog, present_error(error)),
        }
        self.state.operation = OperationState::Refreshing(RefreshStage::Outdated);
        self.state.refilter();
    }

    /// Refresh `generation` finished with all three results. A superseded
    /// or cancelled refresh changes nothing; a current one is completed
    /// (see `complete_refresh`).
    pub fn refresh_completed(
        &mut self,
        generation: u64,
        installed: Result<Vec<Package>, InfrastructureError>,
        catalog: Result<Vec<Package>, InfrastructureError>,
        outdated: Result<Vec<Package>, InfrastructureError>,
    )
        requires
            old(self).app().wf(),
        ensures
            final(self).app().wf(),
            (generation != old(self)@.generation || !old(self)@.refreshing) ==> final(self).app() == old(self).app() && final(self)@ == old(self)@,
            (final(self).app() == old(self).app() && final(self)@ == old(self)@) || (generation
                == old(self)@.generation && old(self)@.refreshing && final(self)@ == (ControllerView {
                refreshing: false,
                ..old(self)@
            }) && refresh_finished(old(self).app(), final(self).app(), installed, catalog, outdated)),
    {
        let current = self.refresh_is_current(generation);
        self.complete_refresh(current, installed, catalog, outdated);
    }

    /// Complete the running refresh when `current`: a complete answer
    /// replaces the store, a lone outdated report is previewed, a failed one
    /// is logged; the refresh ends and the rows are refiltered. Otherwise
    /// nothing changes.
    pub fn complete_refresh(
        &mut self,
        current: bool,
        installed: Result<Vec<Package>, InfrastructureError>,
        catalog: Result<Vec<Package>, InfrastructureError>,
        outdated: Result<Vec<Package>, InfrastructureError>,
    )
        requires
            old(self).app().wf(),
        ensures
            final(self).app().wf(),
            current ==> final(self)@ == (ControllerView { refreshing: false, ..old(self)@ })
                && refresh_finished(old(self).app(), final(self).app(), installed, catalog, outdated),
            !current ==> final(self).app() == old(self).app() && final(self)@ == old(self)@,
    {
        if !current {
            return;
        }
        let ghost (i0, c0, o0) = (installed, catalog, outdated);
        match outdated {
            Ok(o) => match (installed, catalog) {
                (Ok(i), Ok(c)) => self.state.packages.replace(i, c, o),
                _ => self.state.packages.preview_outdated(o.as_slice()),
            },
            Err(error) => log_error(&mut self.state, LogSource::Homebrew, present_error(&error)),
        }
        assert(refreshed_store(old(self).app().packages@, self.state.packages@, i0, c0, o0));
        self.finish_refresh_when(true);
        self.state.refilter();
    }
}

impl AppController {
    /// A stored token was checked at start-up. Only a signed-out app takes
    /// the answer: a login signs in, no token changes nothing, a failure is
    /// shown and logged.
    pub fn session_restored(&mut self, result: Result<Option<String>, InfrastructureError>)
        requires
            old(self).app().wf(),
        ensures
            final(self).app().wf(),
            final(self)@ == old(self)@,
            !(old(self).app().auth is SignedOut) ==> final(self).app() == old(self).app(),
            old(self).app().auth is SignedOut ==> match result {
                Ok(Some(login)) => final(self).app() == (AppState {
                    auth: AuthState::SignedIn(GitHubUser(login)),
                    ..old(self).app()
                }),
                Ok(None) => final(self).app() == old(self).app(),
                Err(e) => final(self).app().auth matches AuthState::Failed(f) && failure_of(e, f)
                    && error_logged(
                    AppState { auth: final(self).app().auth, ..old(self).app() },
                    final(self).app(),
                    LogSource::GitHub,
                    presented(e),
                ),
            },
    {
        match self.state.auth {
            AuthState::SignedOut => {},
            _ => return,
        }
        match result {
            Ok(Some(login)) => {
                self.state.auth = AuthState::SignedIn(GitHubUser(login));
            },
            Ok(None) => {},
            Err(error) => {
                self.state.auth = AuthState::Failed(auth_failure(&error));
                log_error(&mut self.state, LogSource::GitHub, present_error(&error));
            },
        }
    }

    /// The sign-in flow failed on its own (the device code could not be
    /// had, the code expired, a poll failed): show why and end the flow.
    pub fn sign_in_failed(&mut self, error: &InfrastructureError)
        ensures
            final(self)@ == (ControllerView { authenticating: false, ..old(self)@ }),
            final(self).app().auth matches AuthState::Failed(f) && failure_of(*error, f),
            final(self).app() == (AppState { auth: final(self).app().auth, ..old(self).app() }),
    {
        self.state.auth = AuthState::Failed(auth_failure(error));
        self.finish_authentication();
    }

    /// GitHub handed out a device code: show it, unless the flow was
    /// cancelled meanwhile.
    pub fn awaiting_approval(&mut self, prompt: DevicePrompt, cancelled: bool)
        ensures
            final(self)@ == old(self)@,
            cancelled ==> final(self).app() == old(self).app(),
            !cancelled ==> final(self).app() == (AppState {
                auth: AuthState::AwaitingApproval(prompt),
                ..old(self).app()
            }),
    {
        if !cancelled {
            self.state.auth = AuthState::AwaitingApproval(prompt);
        }
    }

    /// The device page could not be opened in a browser: say where the code
    /// is shown instead.
    pub fn browser_not_opened(&mut self)
        requires
            old(self).app().wf(),
        ensures
            final(self).app().wf(),
            final(self)@ == old(self)@,
            error_logged(old(self).app(), final(self).app(), LogSource::GitHub, browser_not_opened_text()),
    {
        log_error(
            &mut self.state,
            LogSource::GitHub,
            owned("Could not open the browser; use the verification URL shown in Settings."),
        );
    }

    /// The token was stored and the login looked up, or that failed; a
    /// flow cancelled meanwhile changes nothing.
    pub fn sign_in_settled(&mut self, result: Result<String, InfrastructureError>, cancelled: bool)
        ensures
            cancelled ==> final(self)@ == old(self)@ && final(self).app() == old(self).app(),
            !cancelled ==> final(self)@ == (ControllerView { authenticating: false, ..old(self)@ })
                && final(self).app() == (AppState { auth: final(self).app().auth, ..old(self).app() })
                && match result {
                Ok(login) => final(self).app().auth == AuthState::SignedIn(GitHubUser(login)),
                Err(e) => final(self).app().auth matches AuthState::Failed(f) && failure_of(e, f),
            },
    {
        if cancelled {
            return;
        }
        self.state.auth = match result {
            Ok(login) => AuthState::SignedIn(GitHubUser(login)),
            Err(error) => AuthState::Failed(auth_failure(&error)),
        };
        self.finish_authentication();
    }

    /// Signing out removed the stored token, or could not: then the app
    /// stays signed in, logs why, and asks for the log to open (`true`).
    pub fn sign_out_finished(&mut self, result: Result<(), InfrastructureError>) -> (open_log: bool)
        requires
            old(self).app().wf(),
        ensures
            final(self).app().wf(),
            final(self)@ == old(self)@,
            open_log == (result is Err),
            match result {
                Ok(()) => final(self).app() == (AppState { auth: AuthState::SignedOut, ..old(self).app() }),
                Err(e) => error_logged(old(self).app(), final(self).app(), LogSource::GitHub, presented(e)),
            },
    {
        match result {
            Ok(()) => {
                self.state.auth = AuthState::SignedOut;
                false
            },
            Err(error) => {
                log_error(&mut self.state, LogSource::GitHub, present_error(&error));
                true
            },
        }
    }

    /// A mutation was refused: log why.
    pub fn mutation_refused(&mut self)
        requires
            old(self).app().wf(),
        ensures
            final(self).app().wf(),
            final(self)@ == old(self)@,
            logged(
                old(self).app().log_view(),
                final(self).app().log_view(),
                LogLevel::Info,
                LogSource::Application,
                refusal_text(old(self).app().operation),
            ),
            same_but_log(old(self).app(), final(self).app()),
    {
        let idle = match self.state.operation {
            OperationState::Idle => true,
            _ => false,
        };
        let message = if idle {
            owned("No eligible packages selected.")
        } else {
            owned("Another Homebrew operation is already running.")
        };
        self.state.push_log(LogEvent { level: LogLevel::Info, source: LogSource::Application, message });
    }

    /// A mutation ended: success is logged, cancellation is quiet, a
    /// failure is logged as an error; the app goes idle.
    pub fn mutation_finished(&mut self, action: BrewAction, result: Result<(), InfrastructureError>)
        requires
            old(self).app().wf(),
        ensures
            final(self).app().wf(),
            final(self)@ == (ControllerView { mutating: false, ..old(self)@ }),
            final(self).app().operation == OperationState::Idle,
            same_but_log(AppState { operation: OperationState::Idle, ..old(self).app() }, final(self).app()),
            match result {
                Ok(()) => logged(
                    old(self).app().log_view(),
                    final(self).app().log_view(),
                    LogLevel::Success,
                    LogSource::Application,
                    completion_text(action),
                ),
                Err(InfrastructureError::Cancelled) => final(self).app().log_view() == old(self).app().log_view(),
                Err(e) => logged(
                    old(self).app().log_view(),
                    final(self).app().log_view(),
                    LogLevel::Error,
                    LogSource::Homebrew,
                    presented(e),
                ),
            },
    {
        match result {
            Ok(()) => {
                let message = match action {
                    BrewAction::Install => owned("Packages installed."),
                    BrewAction::Upgrade => owned("Packages upgraded."),
                };
                self.state.push_log(LogEvent { level: LogLevel::Success, source: LogSource::Application, message });
            },
            Err(InfrastructureError::Cancelled) => {},
            Err(error) => log_error(&mut self.state, LogSource::Homebrew, present_error(&error)),
        }
        self.finish_mutation();
    }
}

} // verus!
