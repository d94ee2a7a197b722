//! What the window decides as a refresh, a sign-in or a mutation reports
//! back: each step takes what the outside work returned and moves the app
//! state on, leaving the work itself to the caller.
use crate::application::action;
use crate::application::state::{refiltered, ring_push, AppState, LogEvent, LogLevel, LogSource, OperationState, RefreshStage};
use crate::application::store::{is_sorted_ids_of, overlay, package_views, Overlay, StoreView};
use crate::domain::package::Package;
use crate::domain::BrewAction;
use crate::infrastructure::github::{AccessToken, PollResult};
use crate::infrastructure::homebrew::backend::{arguments_of, CommandPlan};
use crate::infrastructure::homebrew::process::{ProcessEvent, ProcessStream};
use crate::infrastructure::InfrastructureError;
use crate::ids::id_views;
use crate::text::concat;
use crate::ui::messages::{display_args, presented, spaced};
use vstd::prelude::*;

verus! {

/// `after` is the log `before` with one more event of this level, source
/// and message; a full log first drops its oldest event.
pub open spec fn logged(
    before: Seq<LogEvent>,
    after: Seq<LogEvent>,
    level: LogLevel,
    source: LogSource,
    message: Seq<char>,
) -> bool {
    &&& after.len() > 0
    &&& after == ring_push(before, after.last())
    &&& after.last().level == level
    &&& after.last().source == source
    &&& after.last().message@ == message
}

/// `after` shows what `before` shows but for its log.
pub open spec fn same_but_log(before: AppState, after: AppState) -> bool {
    &&& after.view == before.view
    &&& after.operation == before.operation
    &&& after.auth == before.auth
    &&& after.packages@ == before.packages@
    &&& after.selection@ == before.selection@
    &&& after.query@ == before.query@
}

/// `after` is `before` with an error logged: nothing else changes.
pub open spec fn error_logged(before: AppState, after: AppState, source: LogSource, message: Seq<char>) -> bool {
    &&& logged(before.log_view(), after.log_view(), LogLevel::Error, source, message)
    &&& same_but_log(before, after)
}

pub(crate) fn log_error(state: &mut AppState, source: LogSource, message: String)
    requires
        old(state).wf(),
    ensures
        final(state).wf(),
        error_logged(*old(state), *final(state), source, message@),
{
    let event = LogEvent { level: LogLevel::Error, source, message };
    state.push_log(event);
}

/// A store after a partial result of one source: the merged packages take
/// its entries, its id list is replaced, the other lists stay.
pub open spec fn previewed(before: StoreView, after: StoreView, rows: Seq<Package>, mode: Overlay) -> bool {
    &&& after.packages == overlay(before.packages, package_views(rows), mode)
    &&& match mode {
        Overlay::Installed => is_sorted_ids_of(after.installed, package_views(rows)) && after.catalog
            == before.catalog && after.outdated == before.outdated,
        Overlay::Catalog => is_sorted_ids_of(after.catalog, package_views(rows)) && after.installed
            == before.installed && after.outdated == before.outdated,
        _ => is_sorted_ids_of(after.outdated, package_views(rows)) && after.installed == before.installed
            && after.catalog == before.catalog,
    }
}

/// `after` is `before` once one stage of a refresh has reported: its rows
/// are previewed, or its failure logged from `source`; the refresh moves on
/// to `next`, and the rows are refiltered.
pub open spec fn stage_reported(
    before: AppState,
    after: AppState,
    result: Result<Vec<Package>, InfrastructureError>,
    mode: Overlay,
    source: LogSource,
    next: RefreshStage,
) -> bool {
    &&& after.wf()
    &&& after.view == before.view
    &&& after.auth == before.auth
    &&& after.query@ == before.query@
    &&& after.operation == OperationState::Refreshing(next)
    &&& match result {
        Ok(rows) => previewed(before.packages@, after.packages@, rows@, mode) && after.log_view()
            == before.log_view(),
        Err(e) => after.packages@ == before.packages@ && logged(
            before.log_view(),
            after.log_view(),
            LogLevel::Error,
            source,
            presented(e),
        ),
    }
    &&& refiltered(before.selection@, after.packages@, before.view, before.query@, after.selection@)
}

/// The packages a complete refresh leaves: everything replaced when all
/// three sources answered, else the outdated report previewed when it
/// answered, else the store as it was.
pub open spec fn refreshed_store(
    before: StoreView,
    after: StoreView,
    installed: Result<Vec<Package>, InfrastructureError>,
    catalog: Result<Vec<Package>, InfrastructureError>,
    outdated: Result<Vec<Package>, InfrastructureError>,
) -> bool {
    match (installed, catalog, outdated) {
        (Ok(i), Ok(c), Ok(o)) => {
            &&& after.packages == overlay(
                overlay(
                    overlay(Map::empty(), package_views(c@), Overlay::Replace),
                    package_views(i@),
                    Overlay::Installed,
                ),
                package_views(o@),
                Overlay::Outdated,
            )
            &&& is_sorted_ids_of(after.installed, package_views(i@))
            &&& is_sorted_ids_of(after.catalog, package_views(c@))
            &&& is_sorted_ids_of(after.outdated, package_views(o@))
        },
        (_, _, Ok(o)) => previewed(before, after, o@, Overlay::Outdated),
        (_, _, Err(_)) => after == before,
    }
}

/// What a finished refresh leaves of the app: the store refreshed from the
/// three results, a failed outdated report logged, the app idle and the rows
/// refiltered; view, sign-in and query as they were.
pub open spec fn refresh_finished(
    before: AppState,
    after: AppState,
    installed: Result<Vec<Package>, InfrastructureError>,
    catalog: Result<Vec<Package>, InfrastructureError>,
    outdated: Result<Vec<Package>, InfrastructureError>,
) -> bool {
    &&& after.wf()
    &&& refreshed_store(before.packages@, after.packages@, installed, catalog, outdated)
    &&& match outdated {
        Err(e) => logged(before.log_view(), after.log_view(), LogLevel::Error, LogSource::Homebrew, presented(e)),
        Ok(_) => after.log_view() == before.log_view(),
    }
    &&& after.view == before.view
    &&& after.auth == before.auth
    &&& after.query@ == before.query@
    &&& after.operation == OperationState::Idle
    &&& refiltered(before.selection@, after.packages@, before.view, before.query@, after.selection@)
}

/// The primary action of a view: install on Browse, upgrade elsewhere.
pub fn primary_action(view: action::View) -> (r: BrewAction)
    ensures
        r == (if view == action::View::Browse {
            BrewAction::Install
        } else {
            BrewAction::Upgrade
        }),
{
    match view {
        action::View::Browse => BrewAction::Install,
        _ => BrewAction::Upgrade,
    }
}

/// How loud a line of `brew` output is: stdout is trace, stderr is info.
pub fn stream_level(stream: ProcessStream) -> (r: LogLevel)
    ensures
        r == (if stream == ProcessStream::Stdout {
            LogLevel::Trace
        } else {
            LogLevel::Info
        }),
{
    match stream {
        ProcessStream::Stdout => LogLevel::Trace,
        ProcessStream::Stderr => LogLevel::Info,
    }
}

/// The log event of a line of `brew` output.
pub fn output_event(event: ProcessEvent) -> (r: LogEvent)
    ensures
        r.level == (if event.stream == ProcessStream::Stdout {
            LogLevel::Trace
        } else {
            LogLevel::Info
        }),
        r.source == LogSource::Homebrew,
        r.message@ == event.message@,
{
    LogEvent { level: stream_level(event.stream), source: LogSource::Homebrew, message: event.message }
}

/// The log event that announces one `brew` invocation.
pub fn plan_event(plan: &CommandPlan) -> (r: LogEvent)
    ensures
        r.level == LogLevel::Trace,
        r.source == LogSource::Homebrew,
        r.message@ == "brew "@ + spaced(arguments_of(plan.action, plan.kind, id_views(plan.targets@))),
{
    let arguments = plan.arguments();
    let line = display_args(arguments.as_slice());
    LogEvent { level: LogLevel::Trace, source: LogSource::Homebrew, message: concat("brew ", line.as_str()) }
}

/// What follows one poll of the token endpoint.
pub enum PollStep {
    /// Poll again after this many seconds.
    Wait(u64),
    /// The user approved: the token.
    Authorized(AccessToken),
    /// The flow failed.
    Failed(InfrastructureError),
}

/// The step after a poll answered at `interval` seconds: pending keeps the
/// interval, a slow-down request lengthens it by what GitHub asked.
pub fn next_poll(interval: u64, poll: Result<PollResult, InfrastructureError>) -> (r: PollStep)
    requires
        poll matches Ok(PollResult::SlowDown(extra)) ==> interval + extra <= u64::MAX,
    ensures
        match poll {
            Ok(PollResult::Pending) => r == PollStep::Wait(interval),
            Ok(PollResult::SlowDown(extra)) => r == PollStep::Wait((interval + extra) as u64),
            Ok(PollResult::Token(t)) => r == PollStep::Authorized(t),
            Err(e) => r == PollStep::Failed(e),
        },
{
    match poll {
        Ok(PollResult::Pending) => PollStep::Wait(interval),
        Ok(PollResult::SlowDown(extra)) => PollStep::Wait(interval + extra),
        Ok(PollResult::Token(token)) => PollStep::Authorized(token),
        Err(error) => PollStep::Failed(error),
    }
}

/// What is logged when the browser could not be opened on the device page.
pub open spec fn browser_not_opened_text() -> Seq<char> {
    "Could not open the browser; use the verification URL shown in Settings."@
}

/// What a refused mutation says: with nothing running, that nothing
/// eligible is selected; else that something already runs.
pub open spec fn refusal_text(operation: OperationState) -> Seq<char> {
    if operation == OperationState::Idle {
        "No eligible packages selected."@
    } else {
        "Another Homebrew operation is already running."@
    }
}

/// The log line of a mutation that succeeded.
pub open spec fn completion_text(action: BrewAction) -> Seq<char> {
    match action {
        BrewAction::Install => "Packages installed."@,
        BrewAction::Upgrade => "Packages upgraded."@,
    }
}

} // verus!
