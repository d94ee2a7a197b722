use crate::ascii::fold_bytes;
use crate::domain::package::{id_order, lemma_id_order, Package, PackageId, PackageIdView, PackageView};
use crate::ids::{clone_ids, id_views, keys, search_by_id, strictly_sorted_ids, HasId};
use crate::maps::{last_wins, lemma_last_wins, lemma_last_wins_unique};
use crate::rank::{div_toward_zero, match_score, score};
use crate::search::score::fold;
use std::cmp::Ordering;
use vstd::prelude::*;
use vstd::string::StringSliceAdditionalSpecFns;
use vstd::utf8::encode_utf8;

verus! {

/// What the index searches for one package: its name and description.
pub struct DocumentView {
    pub name: Seq<char>,
    pub description: Seq<char>,
}

/// The searchable text of a package; no description searches as empty.
pub open spec fn document_of(p: PackageView) -> DocumentView {
    DocumentView {
        name: p.id.name,
        description: match p.description {
            Some(d) => d,
            None => Seq::empty(),
        },
    }
}

/// The best of a name match and a description match. A description match is
/// worth a third of its score, less 40, so names win.
pub open spec fn best_match(name: Option<int>, description: Option<int>) -> Option<int> {
    let d = match description {
        Some(v) => Some(div_toward_zero(v, 3) - 40),
        None => None,
    };
    match (name, d) {
        (Some(a), Some(b)) => Some(if a >= b {
            a
        } else {
            b
        }),
        (Some(a), None) => Some(a),
        (None, Some(b)) => Some(b),
        (None, None) => None,
    }
}

/// How well a folded needle matches a document.
pub open spec fn document_score(needle: Seq<u8>, d: DocumentView) -> Option<int> {
    let name = encode_utf8(d.name);
    let description = encode_utf8(d.description);
    best_match(
        match_score(needle, fold_bytes(name), name),
        match_score(needle, fold_bytes(description), description),
    )
}

/// How well a folded needle matches the package `id` in `index`; `None` for
/// a package the index does not hold.
pub open spec fn candidate_score(
    index: Map<PackageIdView, DocumentView>,
    needle: Seq<u8>,
    id: PackageIdView,
) -> Option<int> {
    if index.contains_key(id) {
        document_score(needle, index[id])
    } else {
        None
    }
}

/// `order` lists exactly the positions that have a score, best score first,
/// ties by position.
pub open spec fn ranked_positions(order: Seq<int>, scores: Seq<Option<int>>) -> bool {
    &&& forall|k: int|
        0 <= k < order.len() ==> 0 <= #[trigger] order[k] < scores.len() && scores[order[k]] is Some
    &&& forall|p: int|
        0 <= p < scores.len() && (#[trigger] scores[p]) is Some ==> exists|k: int|
            0 <= k < order.len() && order[k] == p
    &&& forall|k: int, l: int|
        0 <= k < l < order.len() ==> {
            let a = scores[#[trigger] order[k]]->0;
            let b = scores[#[trigger] order[l]]->0;
            a > b || (a == b && order[k] < order[l])
        }
}

/// `order[k]` is the position in `c` of `r[k]`; `r` lists exactly the
/// candidates that have a score, best first, ties in candidate order.
pub open spec fn ranking_order(
    order: Seq<int>,
    r: Seq<PackageIdView>,
    c: Seq<PackageIdView>,
    scores: Seq<Option<int>>,
) -> bool {
    &&& scores.len() == c.len()
    &&& order.len() == r.len()
    &&& ranked_positions(order, scores)
    &&& forall|k: int| 0 <= k < order.len() ==> r[k] == c[#[trigger] order[k]]
}

/// `r` lists the candidates of `c` that have a score, best first, ties in
/// candidate order.
pub open spec fn ranked_by(r: Seq<PackageIdView>, c: Seq<PackageIdView>, scores: Seq<Option<int>>) -> bool {
    exists|order: Seq<int>| #[trigger] ranking_order(order, r, c, scores)
}

/// The scores of the candidates, by position.
pub open spec fn candidate_scores(
    index: Map<PackageIdView, DocumentView>,
    needle: Seq<u8>,
    c: Seq<PackageIdView>,
) -> Seq<Option<int>> {
    Seq::new(c.len(), |p: int| candidate_score(index, needle, c[p]))
}

/// Score first (higher first), then position.
pub open spec fn scored_order(a: (i32, usize), b: (i32, usize)) -> int {
    if a.0 > b.0 {
        -1
    } else if a.0 < b.0 {
        1
    } else if a.1 < b.1 {
        -1
    } else if a.1 > b.1 {
        1
    } else {
        0
    }
}

/// Compares two (score, position) pairs: higher score first, then lower
/// position.
pub fn scored_cmp(a: &(i32, usize), b: &(i32, usize)) -> (o: Ordering)
    ensures
        crate::sign::ordering_sign(o) == scored_order(*a, *b),
{
    if a.0 > b.0 {
        Ordering::Less
    } else if a.0 < b.0 {
        Ordering::Greater
    } else if a.1 < b.1 {
        Ordering::Less
    } else if a.1 > b.1 {
        Ordering::Greater
    } else {
        Ordering::Equal
    }
}

/// Calls `slice::sort_unstable_by` with `scored_cmp`, a total order on
/// pairs. The contract claims what std documents: the result is a
/// permutation of the input in ascending order.
#[verifier::external_body]
pub(crate) fn sort_scored(v: &mut Vec<(i32, usize)>)
    ensures
        final(v)@.to_multiset() == old(v)@.to_multiset(),
        forall|i: int, j: int|
            0 <= i < j < final(v)@.len() ==> scored_order(
                #[trigger] final(v)@[i],
                #[trigger] final(v)@[j],
            ) <= 0,
{
    v.sort_unstable_by(|a, b| scored_cmp(a, b));
}

struct SearchDocument {
    id: PackageId,
    name: String,
    description: String,
    folded_name: Vec<u8>,
    folded_description: Vec<u8>,
}

impl HasId for SearchDocument {
    closed spec fn id_view(&self) -> PackageIdView {
        self.id@
    }

    fn id_ref(&self) -> (r: &PackageId) {
        &self.id
    }
}

spec fn doc_view(d: SearchDocument) -> DocumentView {
    DocumentView { name: d.name@, description: d.description@ }
}

spec fn doc_entries(s: Seq<SearchDocument>) -> Seq<(PackageIdView, DocumentView)> {
    s.map_values(|d: SearchDocument| (d.id@, doc_view(d)))
}

spec fn doc_wf(d: SearchDocument) -> bool {
    &&& d.name@ == d.id@.name
    &&& d.folded_name@ == fold_bytes(encode_utf8(d.name@))
    &&& d.folded_description@ == fold_bytes(encode_utf8(d.description@))
}

/// The entries a sequence of packages contributes to the index.
pub open spec fn package_documents(s: Seq<Package>) -> Seq<(PackageIdView, DocumentView)> {
    s.map_values(|p: Package| (p@.id, document_of(p@)))
}

/// A document the index holds under `k` came from a package with id `k`,
/// and carries that id's name.
proof fn lemma_document_source(s: Seq<Package>, k: PackageIdView)
    requires
        last_wins(package_documents(s)).contains_key(k),
    ensures
        last_wins(package_documents(s))[k].name == k.name,
        exists|j: int| 0 <= j < s.len() && (#[trigger] s[j])@.id == k,
    decreases s.len(),
{
    let t = s.drop_last();
    assert(package_documents(s).drop_last() =~= package_documents(t));
    if s.last()@.id != k {
        lemma_document_source(t, k);
        let j = choose|j: int| 0 <= j < t.len() && (#[trigger] t[j])@.id == k;
        assert(s[j] == t[j]);
    } else {
        assert(s[s.len() - 1]@.id == k);
    }
}

/// Some package of `packages` has id `id`.
pub open spec fn has_package(packages: Seq<Package>, id: PackageIdView) -> bool {
    exists|j: int| 0 <= j < packages.len() && (#[trigger] packages[j])@.id == id
}

/// After the index is rebuilt from `packages`, a ranking lists only
/// packages of that rebuild: whatever earlier rebuilds held is gone.
pub proof fn rebuilt_index_ranks_only_its_packages(
    packages: Seq<Package>,
    needle: Seq<u8>,
    candidates: Seq<PackageIdView>,
    r: Seq<PackageIdView>,
)
    requires
        ranked_by(r, candidates, candidate_scores(last_wins(package_documents(packages)), needle, candidates)),
    ensures
        forall|k: int| 0 <= k < r.len() ==> has_package(packages, #[trigger] r[k]),
{
    let index = last_wins(package_documents(packages));
    let scores = candidate_scores(index, needle, candidates);
    let order = choose|order: Seq<int>| #[trigger] ranking_order(order, r, candidates, scores);
    assert forall|k: int| 0 <= k < r.len() implies has_package(packages, #[trigger] r[k]) by {
        let pos = order[k];
        assert(scores[pos] is Some);
        assert(index.contains_key(candidates[pos]));
        lemma_document_source(packages, candidates[pos]);
    }
}

/// After the index is rebuilt from `packages`, each of them is found by its
/// own name: ranking its id alone for that name gives back its id.
pub proof fn rebuilt_index_finds_each_name(packages: Seq<Package>, j: int, r: Seq<PackageIdView>)
    requires
        0 <= j < packages.len(),
        fold_bytes(encode_utf8(packages[j]@.id.name)).len() > 0,
        ranked_by(
            r,
            seq![packages[j]@.id],
            candidate_scores(
                last_wins(package_documents(packages)),
                fold_bytes(encode_utf8(packages[j]@.id.name)),
                seq![packages[j]@.id],
            ),
        ),
    ensures
        r == seq![packages[j]@.id],
{
    let id = packages[j]@.id;
    let c = seq![id];
    let index = last_wins(package_documents(packages));
    let raw = encode_utf8(id.name);
    let needle = fold_bytes(raw);
    let scores = candidate_scores(index, needle, c);
    assert(package_documents(packages)[j].0 == id);
    lemma_last_wins(package_documents(packages), id);
    lemma_document_source(packages, id);
    crate::rank::score_is_none_iff_no_subsequence(needle, needle, raw);
    let p = Seq::new(needle.len(), |i: int| i);
    assert(crate::rank::places(p, needle, 0, needle.len() as int, needle, 0));
    assert(crate::rank::is_subsequence(needle, needle));
    assert(scores[0] is Some);
    let order = choose|order: Seq<int>| #[trigger] ranking_order(order, r, c, scores);
    assert(exists|k: int| 0 <= k < order.len() && order[k] == 0);
    if order.len() > 1 {
        assert(order[0] == 0 && order[1] == 0);
        assert(false);
    }
    assert(r =~= c);
}

/// Folded names and descriptions of packages, for searching.
pub struct SearchIndex {
    documents: Vec<SearchDocument>,
    sorted: bool,
}

impl View for SearchIndex {
    type V = Map<PackageIdView, DocumentView>;

    closed spec fn view(&self) -> Map<PackageIdView, DocumentView> {
        last_wins(doc_entries(self.documents@))
    }
}

impl Default for SearchIndex {
    fn default() -> (r: SearchIndex)
        ensures
            r.wf(),
            r@ == Map::<PackageIdView, DocumentView>::empty(),
    {
        SearchIndex::new()
    }
}

impl SearchIndex {
    pub closed spec fn wf(&self) -> bool {
        &&& forall|i: int| 0 <= i < self.documents@.len() ==> doc_wf(#[trigger] self.documents@[i])
        &&& self.sorted ==> strictly_sorted_ids(keys(self.documents@))
    }

    pub fn new() -> (r: SearchIndex)
        ensures
            r.wf(),
            r@ == Map::<PackageIdView, DocumentView>::empty(),
    {
        let r = SearchIndex { documents: Vec::new(), sorted: true };
        assert(doc_entries(r.documents@) =~= Seq::<(PackageIdView, DocumentView)>::empty());
        r
    }

    /// Replace the index with the documents of `packages`; a later package
    /// with the same id replaces an earlier one.
    pub fn rebuild(&mut self, packages: &[Package])
        ensures
            final(self).wf(),
            final(self)@ == last_wins(package_documents(packages@)),
    {
        let mut documents: Vec<SearchDocument> = Vec::new();
        let mut sorted = true;
        let mut i: usize = 0;
        while i < packages.len()
            invariant
                i <= packages.len(),
                documents@.len() == i,
                forall|k: int| 0 <= k < i ==> doc_wf(#[trigger] documents@[k]),
                doc_entries(documents@) =~= package_documents(packages@).take(i as int),
                sorted ==> strictly_sorted_ids(keys(documents@)),
            decreases packages.len() - i,
        {
            let p = &packages[i];
            let id = p.id().clone();
            let name = crate::text::owned(id.name().as_str());
            let description = match p.description() {
                Some(d) => crate::text::owned(d),
                None => String::new(),
            };
            let folded_name = fold(name.as_str());
            let folded_description = fold(description.as_str());
            if i > 0 && sorted {
                let prev = documents[i - 1].id_ref();
                if prev.order_sign(&id) >= 0 {
                    sorted = false;
                }
            }
            let ghost before = documents@;
            let doc = SearchDocument { id, name, description, folded_name, folded_description };
            assert(doc_wf(doc));
            documents.push(doc);
            proof {
                assert(doc_entries(documents@) =~= doc_entries(before).push(
                    (doc.id@, doc_view(doc)),
                ));
                assert(package_documents(packages@).take(i + 1) =~= package_documents(
                    packages@,
                ).take(i as int).push(package_documents(packages@)[i as int]));
                if sorted {
                    let ks = keys(documents@);
                    assert forall|a: int, b: int| 0 <= a < b < ks.len() implies id_order(
                        #[trigger] ks[a],
                        #[trigger] ks[b],
                    ) < 0 by {
                        assert(ks[a] == documents@[a].id_view());
                        assert(ks[b] == documents@[b].id_view());
                        if b == i && a < i - 1 {
                            assert(keys(before)[a] == before[a].id_view());
                            assert(keys(before)[i - 1] == before[i - 1].id_view());
                            lemma_id_order(ks[a], ks[i - 1], ks[b]);
                        } else if b < i {
                            assert(keys(before)[a] == before[a].id_view());
                            assert(keys(before)[b] == before[b].id_view());
                        }
                    }
                }
            }
            i = i + 1;
        }
        assert(package_documents(packages@).take(i as int) =~= package_documents(packages@));
        self.documents = documents;
        self.sorted = sorted;
    }

    /// Where the index holds the document for `id`, if it does.
    fn lookup(&self, id: &PackageId) -> (r: Option<usize>)
        requires
            self.wf(),
        ensures
            match r {
                Some(i) => i < self.documents@.len() && self@.contains_key(id@) && self@[id@]
                    == doc_view(self.documents@[i as int]) && self.documents@[i as int].id@
                    == id@,
                None => !self@.contains_key(id@),
            },
    {
        let ghost entries = doc_entries(self.documents@);
        proof {
            lemma_last_wins(entries, id@);
        }
        if self.sorted {
            match search_by_id(self.documents.as_slice(), id) {
                Ok(i) => {
                    proof {
                        assert forall|a: int, b: int| 0 <= a < b < entries.len() implies #[trigger] entries[a].0
                            != #[trigger] entries[b].0 by {
                            assert(keys(self.documents@)[a] == self.documents@[a].id_view());
                            assert(keys(self.documents@)[b] == self.documents@[b].id_view());
                            lemma_id_order(entries[a].0, entries[b].0, entries[b].0);
                        }
                        lemma_last_wins_unique(entries, i as int);
                    }
                    Some(i)
                },
                Err(p) => {
                    proof {
                        if exists|j: int| 0 <= j < entries.len() && entries[j].0 == id@ {
                            let j = choose|j: int| 0 <= j < entries.len() && entries[j].0 == id@;
                            assert(self.documents@[j].id_view() == id@);
                            lemma_id_order(id@, id@, id@);
                        }
                    }
                    None
                },
            }
        } else {
            let mut i = self.documents.len();
            while i > 0
                invariant
                    i <= self.documents@.len(),
                    entries == doc_entries(self.documents@),
                    forall|j: int| i <= j < entries.len() ==> entries[j].0 != id@,
                decreases i,
            {
                let j = i - 1;
                if self.documents[j].id.same(id) {
                    assert(entries[j as int].0 == id@);
                    proof {
                        lemma_last_wins(entries, id@);
                        assert(entries[j as int] == (
                            self.documents@[j as int].id@,
                            doc_view(self.documents@[j as int]),
                        ));
                    }
                    return Some(j);
                }
                i = j;
            }
            None
        }
    }

    /// Rank `candidates` against `query`: every candidate whose name or
    /// description matches, best first, ties in candidate order. An empty
    /// query returns the candidates as they are.
    pub fn rank(&self, query: &str, candidates: &[PackageId]) -> (r: Vec<PackageId>)
        requires
            self.wf(),
        ensures
            fold_bytes(query.spec_bytes()).len() == 0 ==> id_views(r@) == id_views(candidates@),
            fold_bytes(query.spec_bytes()).len() > 0 ==> ranked_by(
                id_views(r@),
                id_views(candidates@),
                candidate_scores(self@, fold_bytes(query.spec_bytes()), id_views(candidates@)),
            ),
    {
        let needle = fold(query);
        if needle.len() == 0 {
            return clone_ids(candidates);
        }
        let ghost c = id_views(candidates@);
        let ghost scores = candidate_scores(self@, needle@, c);
        let mut scored: Vec<(i32, usize)> = Vec::new();
        let mut position: usize = 0;
        while position < candidates.len()
            invariant
                position <= candidates.len(),
                self.wf(),
                c == id_views(candidates@),
                scores == candidate_scores(self@, needle@, c),
                forall|k: int|
                    0 <= k < scored@.len() ==> (#[trigger] scored@[k]).1 < position && scores[scored@[k].1 as int]
                        == Some(scored@[k].0 as int),
                forall|p: int|
                    0 <= p < position && (#[trigger] scores[p]) is Some ==> exists|k: int|
                        0 <= k < scored@.len() && scored@[k].1 == p,
                forall|a: int, b: int|
                    0 <= a < b < scored@.len() ==> (#[trigger] scored@[a]).1 < (#[trigger] scored@[b]).1,
            decreases candidates.len() - position,
        {
            let ghost id = c[position as int];
            let ghost old_scored = scored@;
            assert(id == candidates@[position as int]@);
            match self.lookup(&candidates[position]) {
                None => {
                    assert(scores[position as int] is None);
                },
                Some(i) => {
                    let d = &self.documents[i];
                    assert(doc_wf(*d));
                    let name = score(needle.as_slice(), d.folded_name.as_slice(), d.name.as_str().as_bytes());
                    let description = score(
                        needle.as_slice(),
                        d.folded_description.as_slice(),
                        d.description.as_str().as_bytes(),
                    );
                    let shifted: Option<i32> = match description {
                        Some(v) => {
                            let w = v as i64;
                            let q = if w >= 0 {
                                w / 3
                            } else {
                                -((-w) / 3)
                            };
                            Some((q - 40) as i32)
                        },
                        None => None,
                    };
                    let best: Option<i32> = match (name, shifted) {
                        (Some(a), Some(b)) => Some(
                            if a >= b {
                                a
                            } else {
                                b
                            },
                        ),
                        (Some(a), None) => Some(a),
                        (None, Some(b)) => Some(b),
                        (None, None) => None,
                    };
                    assert(best matches Some(v) ==> scores[position as int] == Some(v as int));
                    assert(best is None ==> scores[position as int] is None);
                    match best {
                        Some(v) => {
                            scored.push((v, position));
                        },
                        None => {},
                    }
                },
            }
            assert forall|p: int|
                0 <= p < position + 1 && (#[trigger] scores[p]) is Some implies exists|k: int|
                    0 <= k < scored@.len() && scored@[k].1 == p by {
                if p == position {
                    assert(scored@[scored@.len() - 1].1 == p);
                } else {
                    let k = choose|k: int| 0 <= k < old_scored.len() && old_scored[k].1 == p;
                    assert(scored@[k] == old_scored[k]);
                }
            }
            position = position + 1;
        }
        let order = order_by_score(scored, Ghost(scores));
        let mut result: Vec<PackageId> = Vec::new();
        let mut k: usize = 0;
        while k < order.len()
            invariant
                k <= order.len(),
                c == id_views(candidates@),
                scores.len() == c.len(),
                ranked_positions(order@.map_values(|x: usize| x as int), scores),
                id_views(result@) =~= Seq::new(k as nat, |j: int| c[order@[j] as int]),
            decreases order.len() - k,
        {
            let ghost o = order@.map_values(|x: usize| x as int);
            assert(o[k as int] == order@[k as int] as int);
            let p = order[k];
            let ghost before = id_views(result@);
            result.push(candidates[p].clone());
            assert(id_views(result@) =~= before.push(c[p as int]));
            k = k + 1;
        }
        proof {
            let o = order@.map_values(|x: usize| x as int);
            assert forall|j: int| 0 <= j < o.len() implies id_views(result@)[j] == c[#[trigger] o[j]] by {
                assert(o[j] == order@[j] as int);
            }
            assert(ranking_order(o, id_views(result@), c, scores));
        }
        result
    }
}

/// Sort scored positions best first, ties by position, and keep the
/// positions: `scored` holds, in ascending position, the score of each
/// position of `scores` that has one.
pub(crate) fn order_by_score(scored: Vec<(i32, usize)>, Ghost(scores): Ghost<Seq<Option<int>>>) -> (r: Vec<usize>)
    requires
        scores.len() <= usize::MAX,
        forall|k: int|
            0 <= k < scored@.len() ==> (#[trigger] scored@[k]).1 < scores.len() && scores[scored@[k].1 as int]
                == Some(scored@[k].0 as int),
        forall|p: int|
            0 <= p < scores.len() && (#[trigger] scores[p]) is Some ==> exists|k: int|
                0 <= k < scored@.len() && scored@[k].1 == p,
        forall|a: int, b: int|
            0 <= a < b < scored@.len() ==> (#[trigger] scored@[a]).1 < (#[trigger] scored@[b]).1,
    ensures
        ranked_positions(r@.map_values(|x: usize| x as int), scores),
{
    let mut scored = scored;
    let ghost unsorted = scored@;
    sort_scored(&mut scored);
    proof {
        scored@.to_multiset_ensures();
        unsorted.to_multiset_ensures();
        assert forall|j: int| 0 <= j < scored@.len() implies unsorted.contains(#[trigger] scored@[j]) by {
            assert(scored@.to_multiset().count(scored@[j]) > 0);
        }
    }
    let mut result: Vec<usize> = Vec::new();
    let mut k: usize = 0;
    while k < scored.len()
        invariant
            k <= scored.len(),
            forall|j: int| 0 <= j < scored@.len() ==> unsorted.contains(#[trigger] scored@[j]),
            forall|k: int| 0 <= k < unsorted.len() ==> (#[trigger] unsorted[k]).1 < scores.len(),
            result@ =~= Seq::new(k as nat, |j: int| scored@[j].1),
        decreases scored.len() - k,
    {
        result.push(scored[k].1);
        k = k + 1;
    }
    proof {
        let sorted = scored@;
        let order = result@.map_values(|x: usize| x as int);
        sorted.to_multiset_ensures();
        unsorted.to_multiset_ensures();
        assert forall|j: int| 0 <= j < unsorted.len() implies sorted.contains(#[trigger] unsorted[j]) by {
            assert(unsorted.to_multiset().count(unsorted[j]) > 0);
        }
        assert forall|j: int| 0 <= j < order.len() implies 0 <= #[trigger] order[j] < scores.len()
            && scores[order[j]] is Some by {
            let u = choose|u: int| 0 <= u < unsorted.len() && unsorted[u] == sorted[j];
            assert(unsorted[u].1 < scores.len());
        }
        assert forall|p: int| 0 <= p < scores.len() && (#[trigger] scores[p]) is Some implies exists|j: int|
            0 <= j < order.len() && order[j] == p by {
            let u = choose|u: int| 0 <= u < unsorted.len() && unsorted[u].1 == p;
            let j = choose|j: int| 0 <= j < sorted.len() && sorted[j] == unsorted[u];
            assert(order[j] == p);
        }
        assert forall|a: int, b: int| 0 <= a < b < order.len() implies {
            let x = scores[#[trigger] order[a]]->0;
            let y = scores[#[trigger] order[b]]->0;
            x > y || (x == y && order[a] < order[b])
        } by {
            let ua = choose|u: int| 0 <= u < unsorted.len() && unsorted[u] == sorted[a];
            let ub = choose|u: int| 0 <= u < unsorted.len() && unsorted[u] == sorted[b];
            assert(scored_order(sorted[a], sorted[b]) <= 0);
            lemma_no_repeats(unsorted, sorted, a, b);
            if ua < ub {
                assert(unsorted[ua].1 < unsorted[ub].1);
            } else {
                assert(unsorted[ub].1 < unsorted[ua].1);
            }
        }
    }
    result
}

/// A permutation of a sequence without repeats has no repeats.
proof fn lemma_no_repeats(unsorted: Seq<(i32, usize)>, sorted: Seq<(i32, usize)>, a: int, b: int)
    requires
        sorted.to_multiset() == unsorted.to_multiset(),
        forall|x: int, y: int| 0 <= x < y < unsorted.len() ==> (#[trigger] unsorted[x]).1 < (#[trigger] unsorted[y]).1,
        0 <= a < b < sorted.len(),
    ensures
        sorted[a] != sorted[b],
{
    if sorted[a] == sorted[b] {
    assert forall|x: int, y: int| 0 <= x < unsorted.len() && 0 <= y < unsorted.len() && x != y implies unsorted[x]
        != unsorted[y] by {
        if x < y {
            assert(unsorted[x].1 < unsorted[y].1);
        } else {
            assert(unsorted[y].1 < unsorted[x].1);
        }
    }
    unsorted.lemma_multiset_has_no_duplicates();
    assert(unsorted.to_multiset().count(sorted[a]) <= 1);
    let rest = sorted.remove(b);
    sorted.to_multiset_ensures();
    rest.to_multiset_ensures();
    assert(rest[a] == sorted[a]);
    assert(rest.to_multiset().count(sorted[a]) > 0);
    assert(sorted.to_multiset().count(sorted[a]) == rest.to_multiset().count(sorted[a]) + 1);
    }
}

} // verus!
