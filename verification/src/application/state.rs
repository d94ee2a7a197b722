use crate::application::action;
use crate::application::selection::{first_index_from, SelectionModel, SelectionView};
use crate::application::store::{shown, PackageStore, StoreView};
use crate::domain::package::{PackageId, PackageIdView};
use crate::domain::BrewAction;
use crate::ids::{id_views, strictly_sorted_ids};
use std::collections::VecDeque;
use vstd::prelude::*;
use vstd::utf8::encode_utf8;

verus! {

/// The stages of a refresh, in the order they complete.
#[derive(Clone, Copy, Debug, PartialEq, Eq, Structural)]
pub enum RefreshStage {
    InstalledState,
    Catalog,
    Outdated,
}

/// What the app is busy with.
#[derive(Clone, Copy, Debug, PartialEq, Eq, Structural)]
pub enum OperationState {
    Idle,
    Refreshing(RefreshStage),
    Mutating { action: BrewAction, targets: usize },
}

impl Default for OperationState {
    fn default() -> (r: OperationState)
        ensures
            r == OperationState::Idle,
    {
        OperationState::Idle
    }
}

/// The code a user types on GitHub's device page, and where.
#[derive(Clone, Debug, PartialEq, Eq)]
pub struct DevicePrompt {
    pub user_code: String,
    pub verification_uri: String,
    pub expires_in_seconds: u64,
}

/// A signed-in GitHub login.
#[derive(Clone, Debug, PartialEq, Eq)]
pub struct GitHubUser(pub String);

/// Why signing in failed.
#[derive(Clone, Debug, PartialEq, Eq)]
pub enum AuthFailure {
    Denied(String),
    Expired,
    Network(String),
    Keychain(String),
    Protocol(String),
}

/// Where the GitHub sign-in stands.
#[derive(Clone, Debug, PartialEq, Eq)]
pub enum AuthState {
    SignedOut,
    RequestingDeviceCode,
    AwaitingApproval(DevicePrompt),
    SignedIn(GitHubUser),
    Failed(AuthFailure),
}

impl Default for AuthState {
    fn default() -> (r: AuthState)
        ensures
            r == AuthState::SignedOut,
    {
        AuthState::SignedOut
    }
}

#[derive(Clone, Copy, Debug, PartialEq, Eq, Structural)]
pub enum LogLevel {
    Trace,
    Info,
    Success,
    Error,
}

#[derive(Clone, Copy, Debug, PartialEq, Eq, Structural)]
pub enum LogSource {
    Homebrew,
    Catalog,
    GitHub,
    Application,
}

/// One line of the activity log.
#[derive(Clone, Debug, PartialEq, Eq)]
pub struct LogEvent {
    pub level: LogLevel,
    pub source: LogSource,
    pub message: String,
}

/// `log` after `event` is appended to a ring of `MAX_LOG_EVENTS` entries:
/// a full log first drops its oldest entry.
pub open spec fn ring_push<T>(log: Seq<T>, event: T) -> Seq<T> {
    if log.len() >= AppState::MAX_LOG_EVENTS {
        log.subrange(log.len() - AppState::MAX_LOG_EVENTS + 1, log.len() as int).push(event)
    } else {
        log.push(event)
    }
}

/// `log` after each of `events` is pushed, in order.
pub open spec fn ring_push_all<T>(log: Seq<T>, events: Seq<T>) -> Seq<T>
    decreases events.len(),
{
    if events.len() == 0 {
        log
    } else {
        ring_push(ring_push_all(log, events.drop_last()), events.last())
    }
}

/// The newest `MAX_LOG_EVENTS` entries of `s`, oldest first.
pub open spec fn newest<T>(s: Seq<T>) -> Seq<T> {
    if s.len() > AppState::MAX_LOG_EVENTS {
        s.subrange(s.len() - AppState::MAX_LOG_EVENTS, s.len() as int)
    } else {
        s
    }
}

/// The log is a ring buffer: pushing events one by one onto a log that fits
/// leaves exactly the newest `MAX_LOG_EVENTS` of everything pushed, in
/// order.
pub proof fn log_keeps_the_newest_events<T>(log: Seq<T>, events: Seq<T>)
    requires
        log.len() <= AppState::MAX_LOG_EVENTS,
    ensures
        ring_push_all(log, events) == newest(log + events),
        ring_push_all(log, events).len() <= AppState::MAX_LOG_EVENTS,
    decreases events.len(),
{
    if events.len() == 0 {
        assert(log + events =~= log);
    } else {
        let prefix = events.drop_last();
        log_keeps_the_newest_events(log, prefix);
        let before = log + prefix;
        assert(log + events =~= before.push(events.last()));
        let kept = newest(before);
        let all = before.push(events.last());
        if before.len() >= AppState::MAX_LOG_EVENTS {
            assert(kept.len() == AppState::MAX_LOG_EVENTS);
            assert(ring_push(kept, events.last()) =~= newest(all));
        } else {
            assert(ring_push(kept, events.last()) =~= newest(all));
        }
    }
}

/// `after` is the selection once the rows are those that `view` and
/// `query` select from `packages`: what stays shown stays selected, the
/// cursor follows its package (else the first row), and the anchor is
/// clamped into the rows.
pub open spec fn refiltered(
    before: SelectionView,
    packages: StoreView,
    view: action::View,
    query: Seq<char>,
    after: SelectionView,
) -> bool {
    &&& shown(packages, view, encode_utf8(query), after.visible)
    &&& after.selected == before.selected.intersect(after.visible.to_set())
    &&& after.cursor == (if after.visible.len() == 0 {
        None
    } else {
        match before.cursor {
            Some(c) => match first_index_from(after.visible, before.visible[c], 0) {
                Some(p) => Some(p),
                None => Some(0),
            },
            None => Some(0),
        }
    })
    &&& after.anchor == (if after.visible.len() == 0 {
        None
    } else {
        match before.anchor {
            Some(a) => Some(
                if a < after.visible.len() - 1 {
                    a
                } else {
                    after.visible.len() - 1
                },
            ),
            None => None,
        }
    })
}

/// What the state shows as package rows, selection and log.
pub struct AppState {
    pub view: action::View,
    pub operation: OperationState,
    pub auth: AuthState,
    pub packages: PackageStore,
    pub selection: SelectionModel,
    pub query: String,
    /// The activity log, oldest first; `push_log` keeps it within
    /// `MAX_LOG_EVENTS`.
    pub logs: VecDeque<LogEvent>,
}

/// Whether the store holds `id` as a package that is not pinned.
pub open spec fn is_target(s: StoreView, id: PackageIdView) -> bool {
    s.packages.contains_key(id) && !s.packages[id].pinned
}

impl Default for AppState {
    fn default() -> (r: AppState)
        ensures
            r.wf(),
            r.view == action::View::Outdated,
            r.operation == OperationState::Idle,
            r.auth == AuthState::SignedOut,
            r.query@ == Seq::<char>::empty(),
            r.log_view() == Seq::<LogEvent>::empty(),
            r.packages@ == (StoreView {
                packages: Map::empty(),
                installed: Seq::empty(),
                catalog: Seq::empty(),
                outdated: Seq::empty(),
            }),
            r.selection@.visible.len() == 0,
            r.selection@.selected.is_empty(),
            r.selection@.cursor is None,
            r.selection@.anchor is None,
    {
        AppState {
            view: action::View::Outdated,
            operation: OperationState::Idle,
            auth: AuthState::SignedOut,
            packages: PackageStore::new(),
            selection: SelectionModel::new(),
            query: String::new(),
            logs: VecDeque::new(),
        }
    }
}

impl AppState {
    /// How many log events the app keeps.
    pub const MAX_LOG_EVENTS: usize = 2000;

    /// The log, oldest first.
    pub open spec fn log_view(&self) -> Seq<LogEvent> {
        self.logs@
    }

    /// The store and the selection are well formed, and the log fits its
    /// ring.
    pub open spec fn wf(&self) -> bool {
        &&& self.packages.wf()
        &&& self.selection.wf()
        &&& self.log_view().len() <= AppState::MAX_LOG_EVENTS
    }

    /// Show the rows that the current view and query select; the selection
    /// keeps what is still shown.
    pub fn refilter(&mut self)
        requires
            old(self).wf(),
        ensures
            final(self).wf(),
            final(self).view == old(self).view,
            final(self).operation == old(self).operation,
            final(self).auth == old(self).auth,
            final(self).packages@ == old(self).packages@,
            final(self).query@ == old(self).query@,
            final(self).log_view() == old(self).log_view(),
            refiltered(
                old(self).selection@,
                old(self).packages@,
                old(self).view,
                old(self).query@,
                final(self).selection@,
            ),
    {
        let rows = self.packages.filtered(self.view, self.query.as_str());
        self.selection.set_visible(rows);
    }

    /// Switch to `view`: the selection is cleared and the rows refiltered.
    pub fn set_view(&mut self, view: action::View)
        requires
            old(self).wf(),
        ensures
            final(self).wf(),
            final(self).view == view,
            final(self).operation == old(self).operation,
            final(self).auth == old(self).auth,
            final(self).packages@ == old(self).packages@,
            final(self).query@ == old(self).query@,
            final(self).log_view() == old(self).log_view(),
            shown(
                old(self).packages@,
                view,
                encode_utf8(old(self).query@),
                final(self).selection@.visible,
            ),
            final(self).selection@.selected.is_empty(),
            final(self).selection@.anchor is None,
    {
        self.view = view;
        self.selection.clear();
        self.refilter();
    }

    /// Append `event` to the log; a full log drops its oldest entry.
    pub fn push_log(&mut self, event: LogEvent)
        requires
            old(self).wf(),
        ensures
            final(self).wf(),
            final(self).log_view() == ring_push(old(self).log_view(), event),
            final(self).view == old(self).view,
            final(self).operation == old(self).operation,
            final(self).auth == old(self).auth,
            final(self).packages@ == old(self).packages@,
            final(self).selection@ == old(self).selection@,
            final(self).query@ == old(self).query@,
    {
        if self.logs.len() == AppState::MAX_LOG_EVENTS {
            self.logs.pop_front();
        }
        self.logs.push_back(event);
    }

    /// The log, oldest first.
    pub fn logs(&self) -> (r: &VecDeque<LogEvent>)
        ensures
            r@ == self.log_view(),
    {
        &self.logs
    }

    /// The selected packages that a mutation would act on: those the store
    /// holds and that are not pinned, in ascending id order.
    pub fn selected_targets(&self) -> (r: Vec<PackageId>)
        requires
            self.wf(),
        ensures
            strictly_sorted_ids(id_views(r@)),
            id_views(r@).to_set() == self.selection@.selected.filter(
                |id: PackageIdView| is_target(self.packages@, id),
            ),
    {
        let selected = self.selection.selected();
        let ghost s = id_views(selected@);
        let ghost pred = |id: PackageIdView| is_target(self.packages@, id);
        let mut targets: Vec<PackageId> = Vec::new();
        let mut i: usize = 0;
        while i < selected.len()
            invariant
                i <= selected.len(),
                s == id_views(selected@),
                pred == (|id: PackageIdView| is_target(self.packages@, id)),
                self.wf(),
                id_views(targets@) == s.take(i as int).filter(pred),
            decreases selected.len() - i,
        {
            let ghost before = id_views(targets@);
            assert(s.take(i + 1).drop_last() =~= s.take(i as int));
            assert(s.take(i + 1).last() == s[i as int]);
            assert(s[i as int] == selected@[i as int]@);
            proof {
                reveal(Seq::filter);
            }
            match self.packages.package(&selected[i]) {
                Some(p) => {
                    if !p.is_pinned() {
                        targets.push(selected[i].clone());
                        assert(id_views(targets@) =~= before.push(s[i as int]));
                    }
                },
                None => {},
            }
            i = i + 1;
        }
        proof {
            assert(s.take(i as int) =~= s);
            let f = s.filter(pred);
            assert forall|x: PackageIdView| f.to_set().contains(x) == self.selection@.selected.filter(
                pred,
            ).contains(x) by {
                if f.to_set().contains(x) {
                    let k = choose|k: int| 0 <= k < f.len() && f[k] == x;
                    s.lemma_filter_pred(pred, k);
                    assert(f.contains(x));
                    s.lemma_filter_contains_rev(pred, x);
                    assert(s.to_set().contains(x));
                }
                if self.selection@.selected.filter(pred).contains(x) {
                    assert(s.to_set().contains(x));
                    let k = choose|k: int| 0 <= k < s.len() && s[k] == x;
                    s.lemma_filter_contains(pred, k);
                    assert(f.contains(x));
                }
            }
            assert(f.to_set() =~= self.selection@.selected.filter(pred));
            assert forall|a: int, b: int| 0 <= a < b < f.len() implies crate::domain::package::id_order(
                #[trigger] f[a],
                #[trigger] f[b],
            ) < 0 by {
                lemma_filter_keeps_order(s, pred, a, b);
            }
        }
        targets
    }
}

/// A filter keeps elements in their order: any two of its entries come from
/// two ascending positions.
proof fn lemma_filter_keeps_order(
    s: Seq<PackageIdView>,
    pred: spec_fn(PackageIdView) -> bool,
    a: int,
    b: int,
)
    requires
        strictly_sorted_ids(s),
        0 <= a < b < s.filter(pred).len(),
    ensures
        crate::domain::package::id_order(s.filter(pred)[a], s.filter(pred)[b]) < 0,
    decreases s.len(),
{
    reveal(Seq::filter);
    let f = s.filter(pred);
    let rest = s.drop_last();
    assert(strictly_sorted_ids(rest));
    let g = rest.filter(pred);
    if pred(s.last()) && b == f.len() - 1 {
        assert(f[b] == s.last());
        assert(f[a] == g[a]);
        assert(g.contains(g[a]));
        rest.lemma_filter_contains_rev(pred, g[a]);
        let k = choose|k: int| 0 <= k < rest.len() && rest[k] == g[a];
        assert(s[k] == g[a]);
        assert(s.last() == s[s.len() - 1]);
    } else {
        assert(f[a] == g[a]);
        assert(f[b] == g[b]);
        lemma_filter_keeps_order(rest, pred, a, b);
    }
}

} // verus!
