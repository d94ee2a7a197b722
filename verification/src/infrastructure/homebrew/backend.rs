//! `brew` invocations for a mutation, how a batch of them ends, and the
//! packages of Homebrew's outdated report.
use super::sorting::{sort_by_id, sorted_by_id_from};
use crate::application::store::package_views;
use crate::domain::package::{
    Package, PackageId, PackageIdView, PackageKind, PackageView, UpdateState,
};
use crate::domain::{BrewAction, Version};
use crate::ids::{id_views, sort_ids, sorted_ids};
use crate::infrastructure::InfrastructureError;
use crate::text::{concat, owned, trimmed};
use vstd::prelude::*;

pub use crate::brew::detect_prefix;

verus! {

/// One `brew` invocation: an action on targets of one kind.
#[derive(Clone, Debug)]
pub struct CommandPlan {
    pub action: BrewAction,
    pub kind: PackageKind,
    pub targets: Vec<PackageId>,
}

/// The literal subcommand of an action.
pub open spec fn command_text(action: BrewAction) -> Seq<char> {
    match action {
        BrewAction::Install => "install"@,
        BrewAction::Upgrade => "upgrade"@,
    }
}

/// The arguments of an invocation: the subcommand, `--cask` for casks, then
/// the target names.
pub open spec fn arguments_of(action: BrewAction, kind: PackageKind, targets: Seq<PackageIdView>) -> Seq<Seq<char>> {
    seq![command_text(action)] + (if kind == PackageKind::Cask {
        seq!["--cask"@]
    } else {
        Seq::empty()
    }) + targets.map_values(|id: PackageIdView| id.name)
}

impl CommandPlan {
    /// The arguments to pass to `brew`.
    pub fn arguments(&self) -> (r: Vec<String>)
        ensures
            r@.map_values(|a: String| a@) == arguments_of(self.action, self.kind, id_views(self.targets@)),
    {
        let mut arguments: Vec<String> = Vec::new();
        arguments.push(owned(self.action.command()));
        if self.kind == PackageKind::Cask {
            arguments.push(owned("--cask"));
        }
        let ghost head = arguments@.map_values(|a: String| a@);
        proof {
            reveal_strlit("install");
            reveal_strlit("upgrade");
        }
        assert(head =~= seq![command_text(self.action)] + (if self.kind == PackageKind::Cask {
            seq!["--cask"@]
        } else {
            Seq::empty()
        }));
        let ghost names = id_views(self.targets@).map_values(|id: PackageIdView| id.name);
        let mut i: usize = 0;
        while i < self.targets.len()
            invariant
                i <= self.targets.len(),
                names == id_views(self.targets@).map_values(|id: PackageIdView| id.name),
                arguments@.map_values(|a: String| a@) =~= head + names.take(i as int),
            decreases self.targets.len() - i,
        {
            let ghost before = arguments@.map_values(|a: String| a@);
            arguments.push(owned(self.targets[i].name().as_str()));
            assert(arguments@.map_values(|a: String| a@) =~= before.push(names[i as int]));
            assert(names.take(i + 1) =~= names.take(i as int).push(names[i as int]));
            i = i + 1;
        }
        assert(names.take(i as int) =~= names);
        arguments
    }
}

/// The targets of one kind, in order.
pub open spec fn of_kind(targets: Seq<PackageIdView>, kind: PackageKind) -> Seq<PackageIdView> {
    targets.filter(|id: PackageIdView| id.kind == kind)
}

/// `plan` acts with `action` on exactly the targets of `kind`, sorted.
pub open spec fn plans_kind(plan: CommandPlan, action: BrewAction, kind: PackageKind, targets: Seq<PackageIdView>) -> bool {
    &&& plan.action == action
    &&& plan.kind == kind
    &&& sorted_ids(id_views(plan.targets@))
    &&& id_views(plan.targets@).to_multiset() == of_kind(targets, kind).to_multiset()
}

/// Split targets into one invocation for formulae and one for casks, in
/// that order, each with its targets sorted; a kind without targets gets
/// none.
pub fn plan_commands(action: BrewAction, targets: Vec<PackageId>) -> (r: Vec<CommandPlan>)
    ensures
        r@.len() == (if of_kind(id_views(targets@), PackageKind::Formula).len() > 0 {
            1int
        } else {
            0
        }) + (if of_kind(id_views(targets@), PackageKind::Cask).len() > 0 {
            1int
        } else {
            0
        }),
        of_kind(id_views(targets@), PackageKind::Formula).len() > 0 ==> plans_kind(
            r@[0],
            action,
            PackageKind::Formula,
            id_views(targets@),
        ),
        of_kind(id_views(targets@), PackageKind::Cask).len() > 0 ==> plans_kind(
            r@[r@.len() - 1],
            action,
            PackageKind::Cask,
            id_views(targets@),
        ),
{
    let ghost t = id_views(targets@);
    let mut formulae: Vec<PackageId> = Vec::new();
    let mut casks: Vec<PackageId> = Vec::new();
    let mut i: usize = 0;
    while i < targets.len()
        invariant
            i <= targets.len(),
            t == id_views(targets@),
            id_views(formulae@) == of_kind(t.take(i as int), PackageKind::Formula),
            id_views(casks@) == of_kind(t.take(i as int), PackageKind::Cask),
        decreases targets.len() - i,
    {
        proof {
            reveal(Seq::filter);
        }
        assert(t.take(i + 1).drop_last() =~= t.take(i as int));
        assert(t.take(i + 1).last() == t[i as int]);
        assert(t[i as int] == targets@[i as int]@);
        if targets[i].kind() == PackageKind::Formula {
            let ghost before = id_views(formulae@);
            formulae.push(targets[i].clone());
            assert(id_views(formulae@) =~= before.push(t[i as int]));
        } else {
            let ghost before = id_views(casks@);
            casks.push(targets[i].clone());
            assert(id_views(casks@) =~= before.push(t[i as int]));
        }
        i = i + 1;
    }
    assert(t.take(i as int) =~= t);
    let mut plans: Vec<CommandPlan> = Vec::new();
    if formulae.len() > 0 {
        let ghost unsorted = id_views(formulae@);
        sort_ids(&mut formulae);
        plans.push(CommandPlan { action, kind: PackageKind::Formula, targets: formulae });
    }
    if casks.len() > 0 {
        let ghost unsorted = id_views(casks@);
        sort_ids(&mut casks);
        plans.push(CommandPlan { action, kind: PackageKind::Cask, targets: casks });
    }
    plans
}

/// Every target of a plan is of the plan's kind, so a formula and a cask of
/// the same name are never confused.
pub proof fn planned_targets_keep_their_kind(plan: CommandPlan, action: BrewAction, kind: PackageKind, targets: Seq<PackageIdView>)
    requires
        plans_kind(plan, action, kind, targets),
    ensures
        forall|j: int| 0 <= j < plan.targets@.len() ==> (#[trigger] plan.targets@[j])@.kind == kind,
{
    let planned = id_views(plan.targets@);
    let wanted = of_kind(targets, kind);
    assert forall|j: int| 0 <= j < plan.targets@.len() implies (#[trigger] plan.targets@[j])@.kind == kind by {
        let x = planned[j];
        assert(x == plan.targets@[j]@);
        planned.to_multiset_ensures();
        wanted.to_multiset_ensures();
        assert(planned.to_multiset().count(x) > 0);
        assert(wanted.contains(x));
        let k = choose|k: int| 0 <= k < wanted.len() && wanted[k] == x;
        targets.lemma_filter_pred(|id: PackageIdView| id.kind == kind, k);
    }
}

/// What running a batch of invocations does after one of them ends.
pub enum PlanStep {
    /// Run the next invocation; the first failure so far, if any.
    Next(Option<InfrastructureError>),
    /// Stop with this result.
    Stop(Result<(), InfrastructureError>),
}

/// After an invocation ends with `outcome`: a cancellation stops the batch
/// at once; any other failure is kept (the first one wins) and the next
/// invocation still runs, since the other namespace is independent.
pub fn after_plan(first_error: Option<InfrastructureError>, outcome: Result<(), InfrastructureError>) -> (r: PlanStep)
    ensures
        outcome matches Err(InfrastructureError::Cancelled) ==> r matches PlanStep::Stop(
            Err(InfrastructureError::Cancelled),
        ),
        outcome is Ok ==> r == PlanStep::Next(first_error),
        (outcome matches Err(e) && !(e is Cancelled)) ==> (r matches PlanStep::Next(Some(kept))
            && (first_error matches Some(f) ==> kept == f) && (first_error is None ==> outcome
            == Err::<(), InfrastructureError>(kept))),
{
    match outcome {
        Ok(()) => PlanStep::Next(first_error),
        Err(error) => {
            let cancelled = match error {
                InfrastructureError::Cancelled => true,
                _ => false,
            };
            if cancelled {
                PlanStep::Stop(Err(error))
            } else {
                match first_error {
                    Some(first) => PlanStep::Next(Some(first)),
                    None => PlanStep::Next(Some(error)),
                }
            }
        },
    }
}

/// How a batch ends once every invocation ran: its first failure, if any.
pub fn finish_plans(first_error: Option<InfrastructureError>) -> (r: Result<(), InfrastructureError>)
    ensures
        first_error is None ==> r is Ok,
        first_error matches Some(e) ==> r == Err::<(), InfrastructureError>(e),
{
    match first_error {
        Some(error) => Err(error),
        None => Ok(()),
    }
}

/// A package of `brew outdated --json=v2`.
pub struct OutdatedItem {
    pub name: String,
    pub installed_versions: Vec<String>,
    pub current_version: Option<String>,
    pub pinned: bool,
}

/// The `PATH` that `brew` runs with: the prefix's `bin` and `sbin`, then
/// the system's.
pub open spec fn brew_path(prefix: Seq<char>) -> Seq<char> {
    prefix + "/bin:"@ + prefix + "/sbin:/usr/bin:/bin:/usr/sbin:/sbin"@
}

/// The environment `brew` runs in, by name and value: a usable `PATH`, and
/// no auto-update, hints, analytics or color.
pub open spec fn brew_environment_of(prefix: Seq<char>) -> Seq<(Seq<char>, Seq<char>)> {
    seq![
        ("PATH"@, brew_path(prefix)),
        ("HOMEBREW_NO_AUTO_UPDATE"@, "1"@),
        ("HOMEBREW_NO_ENV_HINTS"@, "1"@),
        ("HOMEBREW_NO_ANALYTICS"@, "1"@),
        ("HOMEBREW_NO_COLOR"@, "1"@),
    ]
}

/// Name-value pairs, by their text.
pub open spec fn pair_views(pairs: Seq<(String, String)>) -> Seq<(Seq<char>, Seq<char>)> {
    pairs.map_values(|p: (String, String)| (p.0@, p.1@))
}

/// The environment of a `brew` run under the Homebrew prefix `prefix`.
pub fn brew_environment(prefix: &str) -> (r: Vec<(String, String)>)
    ensures
        pair_views(r@) == brew_environment_of(prefix@),
{
    let path = concat(concat(concat(prefix, "/bin:").as_str(), prefix).as_str(), "/sbin:/usr/bin:/bin:/usr/sbin:/sbin");
    let r = vec![
        (owned("PATH"), path),
        (owned("HOMEBREW_NO_AUTO_UPDATE"), owned("1")),
        (owned("HOMEBREW_NO_ENV_HINTS"), owned("1")),
        (owned("HOMEBREW_NO_ANALYTICS"), owned("1")),
        (owned("HOMEBREW_NO_COLOR"), owned("1")),
    ];
    assert(pair_views(r@) =~= brew_environment_of(prefix@));
    r
}

/// The version a text stands for: the text without surrounding white space,
/// none when that is empty.
pub open spec fn version_of(text: Option<Seq<char>>) -> Option<Seq<char>> {
    match text {
        Some(t) => if trimmed(t).len() > 0 {
            Some(trimmed(t))
        } else {
            None
        },
        None => None,
    }
}

/// The package an outdated item stands for; none for a blank name.
pub open spec fn outdated_package(item: OutdatedItem, kind: PackageKind) -> Option<PackageView> {
    if trimmed(item.name@).len() == 0 {
        None
    } else {
        Some(
            PackageView {
                id: PackageIdView { name: trimmed(item.name@), kind },
                installed: version_of(
                    if item.installed_versions@.len() > 0 {
                        Some(item.installed_versions@.last()@)
                    } else {
                        None
                    },
                ),
                latest: version_of(
                    match item.current_version {
                        Some(v) => Some(v@),
                        None => None,
                    },
                ),
                description: None,
                update: UpdateState::UpdateAvailable,
                pinned: item.pinned,
            },
        )
    }
}

/// The packages of outdated items of one kind, blank names skipped.
pub open spec fn outdated_packages_of(items: Seq<OutdatedItem>, kind: PackageKind) -> Seq<PackageView>
    decreases items.len(),
{
    if items.len() == 0 {
        Seq::empty()
    } else {
        let rest = outdated_packages_of(items.drop_last(), kind);
        match outdated_package(items.last(), kind) {
            Some(p) => rest.push(p),
            None => rest,
        }
    }
}

fn version_from(text: Option<&String>) -> (r: Option<Version>)
    ensures
        version_of(
            match text {
                Some(t) => Some(t@),
                None => None,
            },
        ) == match r {
            Some(v) => Some(v@),
            None => None,
        },
{
    match text {
        Some(t) => Version::new(t.as_str()),
        None => None,
    }
}

fn push_outdated(out: &mut Vec<Package>, items: &Vec<OutdatedItem>, kind: PackageKind)
    ensures
        package_views(final(out)@) == package_views(old(out)@) + outdated_packages_of(items@, kind),
{
    let ghost start = package_views(out@);
    let mut i: usize = 0;
    while i < items.len()
        invariant
            i <= items.len(),
            package_views(out@) == start + outdated_packages_of(items@.take(i as int), kind),
        decreases items.len() - i,
    {
        assert(items@.take(i + 1).drop_last() =~= items@.take(i as int));
        assert(items@.take(i + 1).last() == items@[i as int]);
        let item = &items[i];
        match PackageId::new(item.name.as_str(), kind) {
            Some(id) => {
                let n = item.installed_versions.len();
                let installed = if n > 0 {
                    version_from(Some(&item.installed_versions[n - 1]))
                } else {
                    version_from(None)
                };
                let latest = match &item.current_version {
                    Some(v) => version_from(Some(v)),
                    None => version_from(None),
                };
                let ghost before = package_views(out@);
                out.push(Package::outdated(id, installed, latest, item.pinned));
                assert(package_views(out@) =~= before.push(
                    outdated_package(items@[i as int], kind)->0,
                ));
            },
            None => {},
        }
        i = i + 1;
    }
    assert(items@.take(i as int) =~= items@);
}

/// The packages of Homebrew's outdated report: formulae, then casks, items
/// with a blank name skipped, sorted by id.
pub fn outdated_packages(formulae: Vec<OutdatedItem>, casks: Vec<OutdatedItem>) -> (r: Vec<Package>)
    ensures
        sorted_by_id_from(
            package_views(r@),
            outdated_packages_of(formulae@, PackageKind::Formula) + outdated_packages_of(
                casks@,
                PackageKind::Cask,
            ),
        ),
{
    let mut packages: Vec<Package> = Vec::new();
    assert(package_views(packages@) =~= Seq::<PackageView>::empty());
    push_outdated(&mut packages, &formulae, PackageKind::Formula);
    push_outdated(&mut packages, &casks, PackageKind::Cask);
    assert(package_views(packages@) =~= outdated_packages_of(formulae@, PackageKind::Formula)
        + outdated_packages_of(casks@, PackageKind::Cask));
    sort_by_id(&mut packages);
    packages
}

} // verus!
