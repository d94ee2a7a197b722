use crate::application::action;
use crate::ascii::fold_bytes;
use crate::domain::package::{
    id_order, lemma_id_order, merged_catalog, merged_installed, merged_outdated, Package,
    PackageId, PackageIdView, PackageView,
};
use crate::ids::{id_views, keys, search_by_id, sort_ids, sorted_ids, strictly_sorted_ids, HasId};
use crate::maps::{
    last_wins, lemma_last_wins, lemma_last_wins_insert, lemma_last_wins_map_values,
    lemma_last_wins_unique, lemma_last_wins_update, unique_keys,
};
use crate::search::index::{
    candidate_scores, document_of, package_documents, ranked_by, DocumentView, SearchIndex,
};
use vstd::prelude::*;
use vstd::string::StringSliceAdditionalSpecFns;

verus! {

impl HasId for Package {
    open spec fn id_view(&self) -> PackageIdView {
        self@.id
    }

    fn id_ref(&self) -> (r: &PackageId) {
        self.id()
    }
}

/// How a list of packages is laid over the store.
#[derive(Clone, Copy, PartialEq, Eq, Structural)]
pub enum Overlay {
    /// An entry replaces what the store holds for its id.
    Replace,
    /// Catalog entries bring latest versions and descriptions.
    Catalog,
    /// Installed entries bring installed versions and pins.
    Installed,
    /// Outdated entries bring both versions, pins, and an available update.
    Outdated,
}

/// `current` with `other`, an entry for the same package, laid over it.
pub open spec fn merged(mode: Overlay, current: PackageView, other: PackageView) -> PackageView {
    match mode {
        Overlay::Replace => other,
        Overlay::Catalog => merged_catalog(current, other),
        Overlay::Installed => merged_installed(current, other),
        Overlay::Outdated => merged_outdated(current, other),
    }
}

/// One entry laid over a map of packages: merged into the package with its
/// id, or added.
pub open spec fn upsert(m: Map<PackageIdView, PackageView>, p: PackageView, mode: Overlay) -> Map<
    PackageIdView,
    PackageView,
> {
    if m.contains_key(p.id) {
        m.insert(p.id, merged(mode, m[p.id], p))
    } else {
        m.insert(p.id, p)
    }
}

/// Every entry of `list`, in order, laid over `m`.
pub open spec fn overlay(
    m: Map<PackageIdView, PackageView>,
    list: Seq<PackageView>,
    mode: Overlay,
) -> Map<PackageIdView, PackageView>
    decreases list.len(),
{
    if list.len() == 0 {
        m
    } else {
        upsert(overlay(m, list.drop_last(), mode), list.last(), mode)
    }
}

/// Laying entries over the store never touches a package whose identity
/// none of them has: identity is the name together with the kind, so a
/// formula's entries leave the cask of the same name as it was.
pub proof fn overlay_keeps_other_packages(
    m: Map<PackageIdView, PackageView>,
    list: Seq<PackageView>,
    mode: Overlay,
    id: PackageIdView,
)
    requires
        forall|i: int| 0 <= i < list.len() ==> (#[trigger] list[i]).id != id,
    ensures
        overlay(m, list, mode).contains_key(id) == m.contains_key(id),
        m.contains_key(id) ==> overlay(m, list, mode)[id] == m[id],
    decreases list.len(),
{
    if list.len() > 0 {
        assert forall|i: int| 0 <= i < list.drop_last().len() implies (#[trigger] list.drop_last()[i]).id != id by {
            assert(list.drop_last()[i] == list[i]);
        }
        overlay_keeps_other_packages(m, list.drop_last(), mode, id);
        assert(list.last() == list[list.len() - 1]);
    }
}

/// After laying `list` over `m`, a package is known exactly when `m` knew it
/// or some entry of `list` has its id.
pub proof fn lemma_overlay_contains(
    m: Map<PackageIdView, PackageView>,
    list: Seq<PackageView>,
    mode: Overlay,
    k: PackageIdView,
)
    ensures
        overlay(m, list, mode).contains_key(k) <==> (m.contains_key(k) || exists|i: int|
            0 <= i < list.len() && (#[trigger] list[i]).id == k),
    decreases list.len(),
{
    if list.len() > 0 {
        let t = list.drop_last();
        lemma_overlay_contains(m, t, mode, k);
        if exists|i: int| 0 <= i < t.len() && (#[trigger] t[i]).id == k {
            let i = choose|i: int| 0 <= i < t.len() && (#[trigger] t[i]).id == k;
            assert(list[i] == t[i]);
        }
        if exists|i: int| 0 <= i < list.len() && (#[trigger] list[i]).id == k {
            let i = choose|i: int| 0 <= i < list.len() && (#[trigger] list[i]).id == k;
            if i < list.len() - 1 {
                assert(t[i] == list[i]);
            }
        }
    }
}

/// An id of a sorted id list of `list` is the id of an entry of `list`.
proof fn lemma_listed_entry(s: Seq<PackageIdView>, list: Seq<PackageView>, k: PackageIdView)
    requires
        is_sorted_ids_of(s, list),
        s.contains(k),
    ensures
        exists|i: int| 0 <= i < list.len() && (#[trigger] list[i]).id == k,
{
    broadcast use vstd::seq_lib::to_multiset_contains;

    let ids = list.map_values(|p: PackageView| p.id);
    assert(s.to_multiset().count(k) > 0);
    assert(ids.to_multiset().count(k) > 0);
    let j = choose|j: int| 0 <= j < ids.len() && ids[j] == k;
    assert(list[j].id == k);
}

/// Previewing one source keeps every listed id known: the fresh list's ids
/// come from the entries laid over the store, the others were known.
proof fn lemma_preview_listed(
    before: StoreView,
    after: StoreView,
    list: Seq<PackageView>,
    mode: Overlay,
    fresh: Seq<PackageIdView>,
)
    requires
        listed_known(before),
        after.packages == overlay(before.packages, list, mode),
        is_sorted_ids_of(fresh, list),
        forall|k: PackageIdView| #[trigger] listed(after, k) ==> listed(before, k) || fresh.contains(k),
    ensures
        listed_known(after),
{
    assert forall|k: PackageIdView| #[trigger] listed(after, k) implies after.packages.contains_key(k) by {
        lemma_overlay_contains(before.packages, list, mode, k);
        if fresh.contains(k) {
            lemma_listed_entry(fresh, list, k);
        } else {
            assert(listed(before, k));
        }
    }
}

/// Whether `k` is listed in one of the store's views.
pub open spec fn listed(s: StoreView, k: PackageIdView) -> bool {
    s.installed.contains(k) || s.catalog.contains(k) || s.outdated.contains(k)
}

/// Every listed id names a known package.
pub open spec fn listed_known(s: StoreView) -> bool {
    forall|k: PackageIdView| #[trigger] listed(s, k) ==> s.packages.contains_key(k)
}

pub open spec fn package_views(s: Seq<Package>) -> Seq<PackageView> {
    s.map_values(|p: Package| p@)
}

pub open spec fn package_entries(s: Seq<Package>) -> Seq<(PackageIdView, PackageView)> {
    s.map_values(|p: Package| (p@.id, p@))
}

/// `s` is the ids of `list`, sorted.
pub open spec fn is_sorted_ids_of(s: Seq<PackageIdView>, list: Seq<PackageView>) -> bool {
    &&& sorted_ids(s)
    &&& s.to_multiset() == list.map_values(|p: PackageView| p.id).to_multiset()
}

pub struct StoreView {
    pub packages: Map<PackageIdView, PackageView>,
    pub installed: Seq<PackageIdView>,
    pub catalog: Seq<PackageIdView>,
    pub outdated: Seq<PackageIdView>,
}

/// All known packages, merged across the installed, catalog and outdated
/// sources, with the sorted id lists of each source.
pub struct PackageStore {
    packages: Vec<Package>,
    installed: Vec<PackageId>,
    catalog: Vec<PackageId>,
    outdated: Vec<PackageId>,
    search: SearchIndex,
}

impl View for PackageStore {
    type V = StoreView;

    closed spec fn view(&self) -> StoreView {
        StoreView {
            packages: last_wins(package_entries(self.packages@)),
            installed: id_views(self.installed@),
            catalog: id_views(self.catalog@),
            outdated: id_views(self.outdated@),
        }
    }
}

/// The ids of `packages`, sorted.
fn sorted_ids_of(packages: &[Package]) -> (r: Vec<PackageId>)
    ensures
        is_sorted_ids_of(id_views(r@), package_views(packages@)),
{
    let mut ids: Vec<PackageId> = Vec::new();
    let mut i: usize = 0;
    while i < packages.len()
        invariant
            i <= packages.len(),
            id_views(ids@) =~= package_views(packages@).map_values(|p: PackageView| p.id).take(
                i as int,
            ),
        decreases packages.len() - i,
    {
        let ghost before = id_views(ids@);
        ids.push(packages[i].id().clone());
        assert(id_views(ids@) =~= before.push(packages@[i as int]@.id));
        i = i + 1;
    }
    assert(package_views(packages@).map_values(|p: PackageView| p.id).take(i as int)
        =~= package_views(packages@).map_values(|p: PackageView| p.id));
    sort_ids(&mut ids);
    ids
}

impl Default for PackageStore {
    fn default() -> (r: PackageStore)
        ensures
            r.wf(),
            r@ == (StoreView {
                packages: Map::empty(),
                installed: Seq::empty(),
                catalog: Seq::empty(),
                outdated: Seq::empty(),
            }),
    {
        PackageStore::new()
    }
}

impl PackageStore {
    pub closed spec fn wf(&self) -> bool {
        &&& strictly_sorted_ids(keys(self.packages@))
        &&& listed_known(self@)
        &&& self.search.wf()
        &&& self.search@ == self@.packages.map_values(|p: PackageView| document_of(p))
    }

    /// What a well-formed store's search index holds.
    pub closed spec fn documents(&self) -> Map<PackageIdView, DocumentView> {
        self.search@
    }

    /// The search index always mirrors the packages: each package's
    /// searchable document, by identity.
    pub proof fn lemma_documents(&self)
        requires
            self.wf(),
        ensures
            self.documents() == self@.packages.map_values(|p: PackageView| document_of(p)),
    {
    }

    /// Every id that a view lists names a package the store holds, and
    /// each package is held under its own id; Settings lists nothing. This
    /// holds of every store that the store's operations reach.
    pub proof fn listed_ids_have_packages(&self)
        requires
            self.wf(),
        ensures
            forall|v: action::View, k: PackageIdView| #[trigger] view_ids(self@, v).contains(k)
                ==> self@.packages.contains_key(k),
            forall|k: PackageIdView| #[trigger] self@.packages.contains_key(k) ==> self@.packages[k].id == k,
            view_ids(self@, action::View::Settings).len() == 0,
    {
        assert forall|v: action::View, k: PackageIdView| #[trigger] view_ids(self@, v).contains(k)
            implies self@.packages.contains_key(k) by {
            assert(listed(self@, k));
        }
        self.lemma_unique();
        let e = package_entries(self.packages@);
        assert forall|k: PackageIdView| #[trigger] self@.packages.contains_key(k) implies self@.packages[k].id == k by {
            lemma_last_wins(e, k);
            let j = choose|j: int| 0 <= j < e.len() && e[j].0 == k;
            lemma_last_wins_unique(e, j);
        }
    }

    proof fn lemma_unique(&self)
        requires
            strictly_sorted_ids(keys(self.packages@)),
        ensures
            unique_keys(package_entries(self.packages@)),
    {
        let e = package_entries(self.packages@);
        assert forall|a: int, b: int| 0 <= a < b < e.len() implies #[trigger] e[a].0
            != #[trigger] e[b].0 by {
            assert(keys(self.packages@)[a] == e[a].0);
            assert(keys(self.packages@)[b] == e[b].0);
            lemma_id_order(e[a].0, e[b].0, e[b].0);
        }
    }

    pub fn new() -> (r: PackageStore)
        ensures
            r.wf(),
            r@ == (StoreView {
                packages: Map::empty(),
                installed: Seq::empty(),
                catalog: Seq::empty(),
                outdated: Seq::empty(),
            }),
    {
        let r = PackageStore {
            packages: Vec::new(),
            installed: Vec::new(),
            catalog: Vec::new(),
            outdated: Vec::new(),
            search: SearchIndex::new(),
        };
        assert(package_entries(r.packages@) =~= Seq::<(PackageIdView, PackageView)>::empty());
        assert(id_views(r.installed@) =~= Seq::<PackageIdView>::empty());
        assert(r@.packages.map_values(|p: PackageView| document_of(p)) =~= Map::<
            PackageIdView,
            DocumentView,
        >::empty());
        r
    }

    /// Lay one package over the store.
    fn upsert_one(&mut self, p: &Package, mode: Overlay)
        requires
            strictly_sorted_ids(keys(old(self).packages@)),
        ensures
            strictly_sorted_ids(keys(final(self).packages@)),
            final(self)@ == (StoreView {
                packages: upsert(old(self)@.packages, p@, mode),
                ..old(self)@
            }),
            final(self).installed == old(self).installed,
            final(self).catalog == old(self).catalog,
            final(self).outdated == old(self).outdated,
            final(self).search == old(self).search,
    {
        proof {
            self.lemma_unique();
        }
        let ghost entries = package_entries(self.packages@);
        let ghost m = last_wins(entries);
        match search_by_id(self.packages.as_slice(), p.id()) {
            Ok(i) => {
                proof {
                    lemma_last_wins_unique(entries, i as int);
                    assert(entries[i as int].0 == p@.id);
                }
                let mut current = self.packages[i].clone();
                match mode {
                    Overlay::Replace => {
                        current = p.clone();
                    },
                    Overlay::Catalog => {
                        current.merge_catalog(p);
                    },
                    Overlay::Installed => {
                        current.merge_installed(p);
                    },
                    Overlay::Outdated => {
                        current.merge_outdated(p);
                    },
                }
                let ghost v = current@;
                self.packages.set(i, current);
                proof {
                    assert(package_entries(self.packages@) =~= entries.update(
                        i as int,
                        (entries[i as int].0, v),
                    ));
                    lemma_last_wins_update(entries, i as int, v);
                    let ks = keys(self.packages@);
                    assert forall|a: int, b: int| 0 <= a < b < ks.len() implies id_order(
                        #[trigger] ks[a],
                        #[trigger] ks[b],
                    ) < 0 by {
                        assert(ks[a] == package_entries(self.packages@)[a].0);
                        assert(ks[b] == package_entries(self.packages@)[b].0);
                        assert(keys(old(self).packages@)[a] == entries[a].0);
                        assert(keys(old(self).packages@)[b] == entries[b].0);
                    }
                }
            },
            Err(pos) => {
                proof {
                    assert forall|j: int| 0 <= j < entries.len() implies entries[j].0 != p@.id by {
                        assert(keys(self.packages@)[j] == entries[j].0);
                        lemma_id_order(p@.id, p@.id, p@.id);
                    }
                    lemma_last_wins(entries, p@.id);
                }
                let q = p.clone();
                self.packages.insert(pos, q);
                proof {
                    assert(package_entries(self.packages@) =~= entries.insert(
                        pos as int,
                        (p@.id, p@),
                    ));
                    lemma_last_wins_insert(entries, pos as int, (p@.id, p@));
                    entries.insert_ensures(pos as int, (p@.id, p@));
                    let ks = keys(self.packages@);
                    assert forall|a: int, b: int| 0 <= a < b < ks.len() implies id_order(
                        #[trigger] ks[a],
                        #[trigger] ks[b],
                    ) < 0 by {
                        let e2 = package_entries(self.packages@);
                        assert(ks[a] == e2[a].0);
                        assert(ks[b] == e2[b].0);
                        if a < pos && b > pos {
                            assert(e2[b] == entries[b - 1]);
                            assert(keys(old(self).packages@)[b - 1] == entries[b - 1].0);
                            assert(keys(old(self).packages@)[a] == entries[a].0);
                            lemma_id_order(ks[a], p@.id, ks[b]);
                        } else if a < pos && b < pos {
                            assert(keys(old(self).packages@)[a] == entries[a].0);
                            assert(keys(old(self).packages@)[b] == entries[b].0);
                        } else if a > pos {
                            assert(e2[b] == entries[b - 1]);
                            assert(e2[a] == entries[a - 1]);
                            assert(keys(old(self).packages@)[b - 1] == entries[b - 1].0);
                            assert(keys(old(self).packages@)[a - 1] == entries[a - 1].0);
                        } else if a == pos {
                            assert(e2[b] == entries[b - 1]);
                            assert(keys(old(self).packages@)[b - 1] == entries[b - 1].0);
                        } else {
                            assert(keys(old(self).packages@)[a] == entries[a].0);
                        }
                    }
                }
            },
        }
    }

    /// Lay every package of `list`, in order, over the store.
    fn overlay_all(&mut self, list: &[Package], mode: Overlay)
        requires
            strictly_sorted_ids(keys(old(self).packages@)),
        ensures
            strictly_sorted_ids(keys(final(self).packages@)),
            final(self)@ == (StoreView {
                packages: overlay(old(self)@.packages, package_views(list@), mode),
                ..old(self)@
            }),
            final(self).search == old(self).search,
    {
        let ghost m0 = self@.packages;
        let ghost start = self@;
        let mut i: usize = 0;
        while i < list.len()
            invariant
                i <= list.len(),
                strictly_sorted_ids(keys(self.packages@)),
                self@ == (StoreView {
                    packages: overlay(m0, package_views(list@).take(i as int), mode),
                    ..start
                }),
                self.search == old(self).search,
                start == old(self)@,
            decreases list.len() - i,
        {
            self.upsert_one(&list[i], mode);
            assert(package_views(list@).take(i + 1).drop_last() =~= package_views(list@).take(
                i as int,
            ));
            i = i + 1;
        }
        assert(package_views(list@).take(i as int) =~= package_views(list@));
    }

    fn reindex(&mut self)
        requires
            strictly_sorted_ids(keys(old(self).packages@)),
            listed_known(old(self)@),
        ensures
            final(self).wf(),
            final(self)@ == old(self)@,
    {
        self.search.rebuild(self.packages.as_slice());
        proof {
            let f = |p: PackageView| document_of(p);
            lemma_last_wins_map_values(package_entries(self.packages@), f);
            assert(package_entries(self.packages@).map_values(
                |e: (PackageIdView, PackageView)| (e.0, f(e.1)),
            ) =~= package_documents(self.packages@));
        }
    }

    /// Show installed packages before the full refresh completes.
    pub fn preview_installed(&mut self, installed: &[Package])
        requires
            old(self).wf(),
        ensures
            final(self).wf(),
            final(self)@.packages == overlay(
                old(self)@.packages,
                package_views(installed@),
                Overlay::Installed,
            ),
            is_sorted_ids_of(final(self)@.installed, package_views(installed@)),
            final(self)@.catalog == old(self)@.catalog,
            final(self)@.outdated == old(self)@.outdated,
    {
        self.installed = sorted_ids_of(installed);
        self.overlay_all(installed, Overlay::Installed);
        proof {
            lemma_preview_listed(old(self)@, self@, package_views(installed@), Overlay::Installed, self@.installed);
        }
        self.reindex();
    }

    /// Show the catalog before the full refresh completes.
    pub fn preview_catalog(&mut self, catalog: &[Package])
        requires
            old(self).wf(),
        ensures
            final(self).wf(),
            final(self)@.packages == overlay(
                old(self)@.packages,
                package_views(catalog@),
                Overlay::Catalog,
            ),
            is_sorted_ids_of(final(self)@.catalog, package_views(catalog@)),
            final(self)@.installed == old(self)@.installed,
            final(self)@.outdated == old(self)@.outdated,
    {
        self.catalog = sorted_ids_of(catalog);
        self.overlay_all(catalog, Overlay::Catalog);
        proof {
            lemma_preview_listed(old(self)@, self@, package_views(catalog@), Overlay::Catalog, self@.catalog);
        }
        self.reindex();
    }

    /// Show Homebrew's outdated report before the full refresh completes.
    pub fn preview_outdated(&mut self, outdated: &[Package])
        requires
            old(self).wf(),
        ensures
            final(self).wf(),
            final(self)@.packages == overlay(
                old(self)@.packages,
                package_views(outdated@),
                Overlay::Outdated,
            ),
            is_sorted_ids_of(final(self)@.outdated, package_views(outdated@)),
            final(self)@.installed == old(self)@.installed,
            final(self)@.catalog == old(self)@.catalog,
    {
        self.outdated = sorted_ids_of(outdated);
        self.overlay_all(outdated, Overlay::Outdated);
        proof {
            lemma_preview_listed(old(self)@, self@, package_views(outdated@), Overlay::Outdated, self@.outdated);
        }
        self.reindex();
    }

    /// Replace everything with a complete refresh: the catalog first, then
    /// the installed state over it, then Homebrew's outdated report.
    pub fn replace(&mut self, installed: Vec<Package>, catalog: Vec<Package>, outdated: Vec<Package>)
        requires
            old(self).wf(),
        ensures
            final(self).wf(),
            final(self)@.packages == overlay(
                overlay(
                    overlay(Map::empty(), package_views(catalog@), Overlay::Replace),
                    package_views(installed@),
                    Overlay::Installed,
                ),
                package_views(outdated@),
                Overlay::Outdated,
            ),
            is_sorted_ids_of(final(self)@.installed, package_views(installed@)),
            is_sorted_ids_of(final(self)@.catalog, package_views(catalog@)),
            is_sorted_ids_of(final(self)@.outdated, package_views(outdated@)),
    {
        self.packages = Vec::new();
        assert(package_entries(self.packages@) =~= Seq::<(PackageIdView, PackageView)>::empty());
        assert(last_wins(package_entries(self.packages@)) =~= Map::<
            PackageIdView,
            PackageView,
        >::empty());
        self.catalog = sorted_ids_of(catalog.as_slice());
        self.overlay_all(catalog.as_slice(), Overlay::Replace);
        self.installed = sorted_ids_of(installed.as_slice());
        self.overlay_all(installed.as_slice(), Overlay::Installed);
        self.outdated = sorted_ids_of(outdated.as_slice());
        self.overlay_all(outdated.as_slice(), Overlay::Outdated);
        proof {
            let c = package_views(catalog@);
            let i = package_views(installed@);
            let o = package_views(outdated@);
            let m1 = overlay(Map::empty(), c, Overlay::Replace);
            let m2 = overlay(m1, i, Overlay::Installed);
            assert forall|k: PackageIdView| #[trigger] listed(self@, k) implies self@.packages.contains_key(k) by {
                lemma_overlay_contains(Map::empty(), c, Overlay::Replace, k);
                lemma_overlay_contains(m1, i, Overlay::Installed, k);
                lemma_overlay_contains(m2, o, Overlay::Outdated, k);
                if self@.catalog.contains(k) {
                    lemma_listed_entry(self@.catalog, c, k);
                } else if self@.installed.contains(k) {
                    lemma_listed_entry(self@.installed, i, k);
                } else {
                    lemma_listed_entry(self@.outdated, o, k);
                }
            }
        }
        self.reindex();
    }

    /// The merged package with this id, if the store holds one.
    pub fn package(&self, id: &PackageId) -> (r: Option<&Package>)
        requires
            self.wf(),
        ensures
            match r {
                Some(p) => self@.packages.contains_key(id@) && self@.packages[id@] == p@,
                None => !self@.packages.contains_key(id@),
            },
    {
        proof {
            self.lemma_unique();
        }
        let ghost entries = package_entries(self.packages@);
        proof {
            lemma_last_wins(entries, id@);
        }
        match search_by_id(self.packages.as_slice(), id) {
            Ok(i) => {
                proof {
                    lemma_last_wins_unique(entries, i as int);
                }
                Some(&self.packages[i])
            },
            Err(p) => {
                proof {
                    if exists|j: int| 0 <= j < entries.len() && entries[j].0 == id@ {
                        let j = choose|j: int| 0 <= j < entries.len() && entries[j].0 == id@;
                        assert(keys(self.packages@)[j] == entries[j].0);
                        lemma_id_order(id@, id@, id@);
                    }
                }
                None
            },
        }
    }

    /// The sorted ids listed in `view`; Settings lists none.
    pub fn ids(&self, view: action::View) -> (r: &[PackageId])
        ensures
            id_views(r@) == view_ids(self@, view),
    {
        match view {
            action::View::Outdated => self.outdated.as_slice(),
            action::View::Installed => self.installed.as_slice(),
            action::View::Browse => self.catalog.as_slice(),
            action::View::Settings => {
                let r: &[PackageId] = &[];
                assert(id_views(r@) =~= Seq::<PackageIdView>::empty());
                r
            },
        }
    }

    /// The ids of `view` that match `query`, ranked (see `SearchIndex::rank`).
    pub fn filtered(&self, view: action::View, query: &str) -> (r: Vec<PackageId>)
        requires
            self.wf(),
        ensures
            shown(self@, view, query.spec_bytes(), id_views(r@)),
    {
        match view {
            action::View::Outdated => self.search.rank(query, self.outdated.as_slice()),
            action::View::Installed => self.search.rank(query, self.installed.as_slice()),
            action::View::Browse => self.search.rank(query, self.catalog.as_slice()),
            action::View::Settings => Vec::new(),
        }
    }
}

/// The id list that `view` shows.
pub open spec fn view_ids(s: StoreView, view: action::View) -> Seq<PackageIdView> {
    match view {
        action::View::Outdated => s.outdated,
        action::View::Installed => s.installed,
        action::View::Browse => s.catalog,
        action::View::Settings => Seq::empty(),
    }
}

/// `ids` is what `view` lists for the query whose UTF-8 bytes are `query`:
/// nothing on Settings; the view's sorted ids for a query that folds to
/// nothing; else the matching ids, ranked.
pub open spec fn shown(s: StoreView, view: action::View, query: Seq<u8>, ids: Seq<PackageIdView>) -> bool {
    let needle = fold_bytes(query);
    if view == action::View::Settings {
        ids.len() == 0
    } else if needle.len() == 0 {
        ids == view_ids(s, view)
    } else {
        ranked_by(
            ids,
            view_ids(s, view),
            candidate_scores(
                s.packages.map_values(|p: PackageView| document_of(p)),
                needle,
                view_ids(s, view),
            ),
        )
    }
}

} // verus!
