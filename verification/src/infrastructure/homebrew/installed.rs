//! Installed packages, as found under the prefix's `Cellar` and `Caskroom`.
use super::sorting::{sort_by_id, sorted_by_id_from};
use crate::application::store::package_views;
use crate::brew::{hidden, is_hidden};
use crate::domain::package::{Package, PackageId, PackageIdView, PackageKind, PackageView, UpdateState};
use crate::domain::version::{lemma_version_text_order, version_text_order};
use crate::domain::Version;
use crate::text::{text_eq, trimmed};
use std::cmp::Ordering;
use vstd::prelude::*;

verus! {

/// A package directory: its name, its kind (`Cellar` holds formulae,
/// `Caskroom` casks) and the names of its version directories.
pub struct PackageDir {
    pub name: String,
    pub kind: PackageKind,
    pub versions: Vec<String>,
}

/// The newest of the version names that make a version, by `Version`'s
/// order; the first of equals is kept (only identical texts are equal).
pub open spec fn newest_installed(names: Seq<Seq<char>>) -> Option<Seq<char>>
    decreases names.len(),
{
    if names.len() == 0 {
        None
    } else {
        let rest = newest_installed(names.drop_last());
        let n = names.last();
        if trimmed(n).len() == 0 {
            rest
        } else {
            match rest {
                None => Some(trimmed(n)),
                Some(b) => if version_text_order(trimmed(n), b) > 0 {
                    Some(trimmed(n))
                } else {
                    Some(b)
                },
            }
        }
    }
}

/// The installed version is the newest of the version directories: there
/// is one exactly when some directory name is not blank, it is one of those
/// names (trimmed), and no name is newer by `Version`'s order.
pub proof fn newest_installed_is_the_newest(names: Seq<Seq<char>>)
    ensures
        newest_installed(names) is Some <==> exists|k: int| 0 <= k < names.len() && trimmed(#[trigger] names[k]).len() > 0,
        newest_installed(names) matches Some(v) ==> exists|k: int| 0 <= k < names.len() && trimmed(#[trigger] names[k]) == v,
        newest_installed(names) matches Some(v) ==> forall|k: int| 0 <= k < names.len() && trimmed(#[trigger] names[k]).len() > 0
            ==> version_text_order(trimmed(names[k]), v) <= 0,
    decreases names.len(),
{
    if names.len() > 0 {
        let t = names.drop_last();
        let n = names.last();
        newest_installed_is_the_newest(t);
        assert forall|k: int| 0 <= k < t.len() implies #[trigger] t[k] == names[k] by {}
        if exists|k: int| 0 <= k < t.len() && trimmed(#[trigger] t[k]).len() > 0 {
            let k = choose|k: int| 0 <= k < t.len() && trimmed(#[trigger] t[k]).len() > 0;
            assert(names[k] == t[k]);
        }
        if exists|k: int| 0 <= k < names.len() && trimmed(#[trigger] names[k]).len() > 0 {
            let k = choose|k: int| 0 <= k < names.len() && trimmed(#[trigger] names[k]).len() > 0;
            if k < t.len() {
                assert(t[k] == names[k]);
            }
        }
        assert(names[names.len() - 1] == n);
        match newest_installed(t) {
            None => {
                if trimmed(n).len() > 0 {
                    assert forall|k: int| 0 <= k < names.len() && trimmed(#[trigger] names[k]).len() > 0
                        implies version_text_order(trimmed(names[k]), trimmed(n)) <= 0 by {
                        if k < t.len() {
                            assert(t[k] == names[k]);
                        }
                        lemma_version_text_order(trimmed(n), trimmed(n), trimmed(n));
                    }
                }
            },
            Some(b) => {
                let kb = choose|k: int| 0 <= k < t.len() && trimmed(#[trigger] t[k]) == b;
                assert(names[kb] == t[kb]);
                if trimmed(n).len() > 0 && version_text_order(trimmed(n), b) > 0 {
                    assert forall|k: int| 0 <= k < names.len() && trimmed(#[trigger] names[k]).len() > 0
                        implies version_text_order(trimmed(names[k]), trimmed(n)) <= 0 by {
                        if k < t.len() {
                            assert(t[k] == names[k]);
                            lemma_version_text_order(trimmed(names[k]), b, trimmed(n));
                            lemma_version_text_order(b, trimmed(n), trimmed(n));
                        } else {
                            lemma_version_text_order(trimmed(n), trimmed(n), trimmed(n));
                        }
                    }
                } else {
                    assert forall|k: int| 0 <= k < names.len() && trimmed(#[trigger] names[k]).len() > 0
                        implies version_text_order(trimmed(names[k]), b) <= 0 by {
                        if k < t.len() {
                            assert(t[k] == names[k]);
                        }
                    }
                }
            },
        }
    }
}

/// Whether `a` is newer than `b`.
fn newer(a: &Version, b: &Version) -> (r: bool)
    ensures
        r == (version_text_order(a@, b@) > 0),
{
    match a.cmp(b) {
        Ordering::Greater => true,
        _ => false,
    }
}

/// The newest version among version directory names.
pub fn newest_child(names: &[String]) -> (r: Option<Version>)
    ensures
        match r {
            Some(v) => Some(v@),
            None => None,
        } == newest_installed(names@.map_values(|s: String| s@)),
{
    let ghost ns = names@.map_values(|s: String| s@);
    let mut newest: Option<Version> = None;
    let mut i: usize = 0;
    while i < names.len()
        invariant
            i <= names.len(),
            ns == names@.map_values(|s: String| s@),
            match newest {
                Some(v) => Some(v@),
                None => None,
            } == newest_installed(ns.take(i as int)),
        decreases names.len() - i,
    {
        assert(ns.take(i + 1).drop_last() =~= ns.take(i as int));
        assert(ns.take(i + 1).last() == ns[i as int]);
        assert(ns[i as int] == names@[i as int]@);
        match Version::new(names[i].as_str()) {
            Some(v) => {
                let replace = match &newest {
                    None => true,
                    Some(current) => newer(&v, current),
                };
                if replace {
                    newest = Some(v);
                }
            },
            None => {},
        }
        i = i + 1;
    }
    assert(ns.take(i as int) =~= ns);
    newest
}

/// Whether `name` is listed as pinned.
pub open spec fn listed(pinned: Seq<String>, name: Seq<char>) -> bool {
    exists|i: int| 0 <= i < pinned.len() && #[trigger] pinned[i]@ == name
}

fn is_listed(pinned: &Vec<String>, name: &str) -> (r: bool)
    ensures
        r == listed(pinned@, name@),
{
    let mut i: usize = 0;
    while i < pinned.len()
        invariant
            i <= pinned.len(),
            forall|j: int| 0 <= j < i ==> pinned@[j]@ != name@,
        decreases pinned.len() - i,
    {
        if text_eq(pinned[i].as_str(), name) {
            return true;
        }
        i = i + 1;
    }
    false
}

/// The package of a directory; none for a hidden or blank name. Only a
/// formula can be pinned.
pub open spec fn installed_package(d: PackageDir, pinned: Seq<String>) -> Option<PackageView> {
    if is_hidden(d.name@) || trimmed(d.name@).len() == 0 {
        None
    } else {
        Some(
            PackageView {
                id: PackageIdView { name: trimmed(d.name@), kind: d.kind },
                installed: newest_installed(d.versions@.map_values(|s: String| s@)),
                latest: None,
                description: None,
                update: UpdateState::Unknown,
                pinned: d.kind == PackageKind::Formula && listed(pinned, d.name@),
            },
        )
    }
}

/// The packages of directories, hidden and blank names skipped.
pub open spec fn installed_packages_of(dirs: Seq<PackageDir>, pinned: Seq<String>) -> Seq<PackageView>
    decreases dirs.len(),
{
    if dirs.len() == 0 {
        Seq::empty()
    } else {
        let rest = installed_packages_of(dirs.drop_last(), pinned);
        match installed_package(dirs.last(), pinned) {
            Some(p) => rest.push(p),
            None => rest,
        }
    }
}

/// Pins belong to formulae: no cask scanned from the Caskroom is pinned,
/// even when a formula of the same name is.
pub proof fn pins_stay_with_formulae(dirs: Seq<PackageDir>, pinned: Seq<String>)
    ensures
        forall|i: int|
            0 <= i < installed_packages_of(dirs, pinned).len() && #[trigger] installed_packages_of(dirs, pinned)[i].pinned
                ==> installed_packages_of(dirs, pinned)[i].id.kind == PackageKind::Formula,
    decreases dirs.len(),
{
    if dirs.len() > 0 {
        pins_stay_with_formulae(dirs.drop_last(), pinned);
    }
}

/// The installed packages of the package directories found, with the names
/// listed under `var/homebrew/pinned`, sorted by id.
pub fn installed_packages(dirs: Vec<PackageDir>, pinned: Vec<String>) -> (r: Vec<Package>)
    ensures
        sorted_by_id_from(package_views(r@), installed_packages_of(dirs@, pinned@)),
{
    let mut packages: Vec<Package> = Vec::new();
    let mut i: usize = 0;
    while i < dirs.len()
        invariant
            i <= dirs.len(),
            package_views(packages@) == installed_packages_of(dirs@.take(i as int), pinned@),
        decreases dirs.len() - i,
    {
        assert(dirs@.take(i + 1).drop_last() =~= dirs@.take(i as int));
        assert(dirs@.take(i + 1).last() == dirs@[i as int]);
        let d = &dirs[i];
        if !hidden(d.name.as_str()) {
            match PackageId::new(d.name.as_str(), d.kind) {
                Some(id) => {
                    let version = newest_child(d.versions.as_slice());
                    let is_pinned = d.kind == PackageKind::Formula && is_listed(&pinned, d.name.as_str());
                    let ghost before = package_views(packages@);
                    packages.push(Package::installed(id, version, is_pinned));
                    assert(package_views(packages@) =~= before.push(
                        installed_package(dirs@[i as int], pinned@)->0,
                    ));
                },
                None => {},
            }
        }
        i = i + 1;
    }
    assert(dirs@.take(i as int) =~= dirs@);
    sort_by_id(&mut packages);
    packages
}

} // verus!
