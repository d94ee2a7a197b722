//! Ordered collections of package ids.
use crate::domain::package::{id_order, lemma_id_order, PackageId, PackageIdView};
use vstd::prelude::*;

verus! {

pub open spec fn id_views(s: Seq<PackageId>) -> Seq<PackageIdView> {
    s.map_values(|x: PackageId| x@)
}

/// Ascending by `id_order`, equal ids allowed.
pub open spec fn sorted_ids(s: Seq<PackageIdView>) -> bool {
    forall|i: int, j: int| 0 <= i < j < s.len() ==> id_order(#[trigger] s[i], #[trigger] s[j]) <= 0
}

/// Strictly ascending by `id_order`: sorted and free of repeats.
pub open spec fn strictly_sorted_ids(s: Seq<PackageIdView>) -> bool {
    forall|i: int, j: int| 0 <= i < j < s.len() ==> id_order(#[trigger] s[i], #[trigger] s[j]) < 0
}

/// Calls `slice::sort_by` with `PackageId::compare` as the comparison. The
/// contract claims what std documents for a comparison that is a total order
/// (`package_id_order_is_total` proves that it is): the result is a
/// permutation of the input in ascending order.
#[verifier::external_body]
pub(crate) fn sort_ids(v: &mut Vec<PackageId>)
    ensures
        id_views(final(v)@).to_multiset() == id_views(old(v)@).to_multiset(),
        sorted_ids(id_views(final(v)@)),
{
    v.sort_by(|a, b| a.compare(b));
}

/// Where `id` is in the strictly sorted `v`, or where it would be inserted.
pub fn search_ids(v: &[PackageId], id: &PackageId) -> (r: Result<usize, usize>)
    requires
        strictly_sorted_ids(id_views(v@)),
    ensures
        match r {
            Ok(i) => i < v.len() && v@[i as int]@ == id@,
            Err(p) => p <= v.len() && (forall|j: int|
                0 <= j < p ==> id_order(#[trigger] v@[j]@, id@) < 0) && (forall|j: int|
                p <= j < v.len() ==> id_order(id@, #[trigger] v@[j]@) < 0),
        },
{
    let ghost s = id_views(v@);
    let mut lo: usize = 0;
    let mut hi: usize = v.len();
    while lo < hi
        invariant
            lo <= hi <= v.len(),
            s == id_views(v@),
            strictly_sorted_ids(s),
            forall|j: int| 0 <= j < lo ==> id_order(#[trigger] v@[j]@, id@) < 0,
            forall|j: int| hi <= j < v.len() ==> id_order(id@, #[trigger] v@[j]@) < 0,
        decreases hi - lo,
    {
        let mid = lo + (hi - lo) / 2;
        let o = v[mid].order_sign(id);
        assert(s[mid as int] == v@[mid as int]@);
        proof {
            lemma_id_order(v@[mid as int]@, id@, id@);
        }
        if o < 0 {
                assert forall|j: int| 0 <= j < mid + 1 implies id_order(
                    #[trigger] v@[j]@,
                    id@,
                ) < 0 by {
                    if j < mid {
                        assert(s[j] == v@[j]@);
                        assert(id_order(s[j], s[mid as int]) < 0);
                        lemma_id_order(v@[j]@, v@[mid as int]@, id@);
                    }
                }
                lo = mid + 1;
        } else if o > 0 {
                proof {
                    lemma_id_order(v@[mid as int]@, id@, v@[mid as int]@);
                }
                assert forall|j: int| mid <= j < v.len() implies id_order(
                    id@,
                    #[trigger] v@[j]@,
                ) < 0 by {
                    if j > mid {
                        assert(s[j] == v@[j]@);
                        assert(id_order(s[mid as int], s[j]) < 0);
                        lemma_id_order(id@, v@[mid as int]@, v@[j]@);
                    }
                }
                hi = mid;
        } else {
                return Ok(mid);
        }
    }
    Err(lo)
}

/// Values that carry a package id.
pub trait HasId {
    spec fn id_view(&self) -> PackageIdView;

    fn id_ref(&self) -> (r: &PackageId)
        ensures
            r@ == self.id_view(),
    ;
}

impl HasId for PackageId {
    open spec fn id_view(&self) -> PackageIdView {
        self@
    }

    fn id_ref(&self) -> (r: &PackageId) {
        self
    }
}

/// The ids of a sequence of values that carry one.
pub open spec fn keys<T: HasId>(s: Seq<T>) -> Seq<PackageIdView> {
    s.map_values(|x: T| x.id_view())
}

/// Where `id` is in `v`, whose ids are strictly ascending, or where it
/// would be inserted.
pub fn search_by_id<T: HasId>(v: &[T], id: &PackageId) -> (r: Result<usize, usize>)
    requires
        strictly_sorted_ids(keys(v@)),
    ensures
        match r {
            Ok(i) => i < v.len() && v@[i as int].id_view() == id@,
            Err(p) => p <= v.len() && (forall|j: int|
                0 <= j < p ==> id_order(#[trigger] v@[j].id_view(), id@) < 0) && (forall|j: int|
                p <= j < v.len() ==> id_order(id@, #[trigger] v@[j].id_view()) < 0),
        },
{
    let ghost s = keys(v@);
    let mut lo: usize = 0;
    let mut hi: usize = v.len();
    while lo < hi
        invariant
            lo <= hi <= v.len(),
            s == keys(v@),
            strictly_sorted_ids(s),
            forall|j: int| 0 <= j < lo ==> id_order(#[trigger] v@[j].id_view(), id@) < 0,
            forall|j: int| hi <= j < v.len() ==> id_order(id@, #[trigger] v@[j].id_view()) < 0,
        decreases hi - lo,
    {
        let mid = lo + (hi - lo) / 2;
        let o = v[mid].id_ref().order_sign(id);
        assert(s[mid as int] == v@[mid as int].id_view());
        proof {
            lemma_id_order(v@[mid as int].id_view(), id@, id@);
        }
        if o < 0 {
            assert forall|j: int| 0 <= j < mid + 1 implies id_order(
                #[trigger] v@[j].id_view(),
                id@,
            ) < 0 by {
                if j < mid {
                    assert(s[j] == v@[j].id_view());
                    assert(id_order(s[j], s[mid as int]) < 0);
                    lemma_id_order(v@[j].id_view(), v@[mid as int].id_view(), id@);
                }
            }
            lo = mid + 1;
        } else if o > 0 {
            assert forall|j: int| mid <= j < v.len() implies id_order(
                id@,
                #[trigger] v@[j].id_view(),
            ) < 0 by {
                if j > mid {
                    assert(s[j] == v@[j].id_view());
                    assert(id_order(s[mid as int], s[j]) < 0);
                    lemma_id_order(id@, v@[mid as int].id_view(), v@[j].id_view());
                }
            }
            hi = mid;
        } else {
            return Ok(mid);
        }
    }
    Err(lo)
}

/// Copies of the ids in `v`.
pub fn clone_ids(v: &[PackageId]) -> (r: Vec<PackageId>)
    ensures
        id_views(r@) == id_views(v@),
{
    let mut r: Vec<PackageId> = Vec::new();
    let mut i: usize = 0;
    while i < v.len()
        invariant
            i <= v.len(),
            id_views(r@) =~= id_views(v@).take(i as int),
        decreases v.len() - i,
    {
        let c = v[i].clone();
        let ghost before = id_views(r@);
        r.push(c);
        assert(id_views(r@) =~= before.push(v@[i as int]@));
        i = i + 1;
    }
    assert(id_views(v@).take(i as int) =~= id_views(v@));
    r
}

/// The ids of a sorted sequence with repeats dropped.
fn dedup_sorted(v: &Vec<PackageId>) -> (r: Vec<PackageId>)
    requires
        sorted_ids(id_views(v@)),
    ensures
        strictly_sorted_ids(id_views(r@)),
        id_views(r@).to_set() == id_views(v@).to_set(),
{
    let ghost s = id_views(v@);
    let mut r: Vec<PackageId> = Vec::new();
    let mut i: usize = 0;
    while i < v.len()
        invariant
            i <= v.len(),
            s == id_views(v@),
            sorted_ids(s),
            strictly_sorted_ids(id_views(r@)),
            id_views(r@).to_set() == s.take(i as int).to_set(),
            i > 0 ==> r@.len() > 0 && id_views(r@).last() == s[i - 1],
            i == 0 ==> r@.len() == 0,
        decreases v.len() - i,
    {
        let ghost before = id_views(r@);
        assert(s[i as int] == v@[i as int]@);
        let keep = if r.len() == 0 {
            true
        } else {
            let last = r.len() - 1;
            !r[last].same(&v[i])
        };
        assert(s.take(i + 1) =~= s.take(i as int).push(s[i as int]));
        proof {
            s.take(i as int).lemma_push_to_set_commute(s[i as int]);
        }
        if keep {
            r.push(v[i].clone());
            assert(id_views(r@) =~= before.push(s[i as int]));
            proof {
                before.lemma_push_to_set_commute(s[i as int]);
                if i > 0 {
                    lemma_id_order(s[i - 1], s[i as int], s[i as int]);
                    assert forall|a: int, b: int|
                        0 <= a < b < id_views(r@).len() implies id_order(
                        #[trigger] id_views(r@)[a],
                        #[trigger] id_views(r@)[b],
                    ) < 0 by {
                        if b == id_views(r@).len() - 1 && a < b - 1 {
                            assert(id_order(before[a], before.last()) < 0);
                            lemma_id_order(before[a], before.last(), s[i as int]);
                        }
                    }
                }
            }
        } else {
            proof {
                assert(before.last() == s[i as int]);
                assert(before.to_set().insert(s[i as int]) =~= before.to_set());
            }
        }
        i = i + 1;
    }
    assert(s.take(i as int) =~= s);
    r
}

/// A set of package ids, kept in ascending id order.
pub struct IdSet {
    ids: Vec<PackageId>,
}

impl View for IdSet {
    type V = Set<PackageIdView>;

    closed spec fn view(&self) -> Set<PackageIdView> {
        id_views(self.ids@).to_set()
    }
}

impl IdSet {
    /// The set is kept strictly ascending.
    pub closed spec fn wf(&self) -> bool {
        strictly_sorted_ids(id_views(self.ids@))
    }

    /// The members in ascending order.
    pub closed spec fn members(&self) -> Seq<PackageIdView> {
        id_views(self.ids@)
    }

    /// What a well-formed set's member sequence says.
    pub proof fn lemma_members(&self)
        requires
            self.wf(),
        ensures
            strictly_sorted_ids(self.members()),
            self.members().to_set() == self@,
            self.members().no_duplicates(),
            self.members().len() == self@.len(),
    {
        let s = self.members();
        assert forall|i: int, j: int| 0 <= i < s.len() && 0 <= j < s.len() && i != j implies s[i]
            != s[j] by {
            if i < j {
                lemma_id_order(s[i], s[j], s[j]);
            } else {
                lemma_id_order(s[j], s[i], s[i]);
            }
        }
        s.unique_seq_to_set();
    }

    pub fn new() -> (r: IdSet)
        ensures
            r.wf(),
            r@ == Set::<PackageIdView>::empty(),
    {
        let r = IdSet { ids: Vec::new() };
        assert(id_views(r.ids@) =~= Seq::<PackageIdView>::empty());
        r
    }

    /// The set of the ids in `v`.
    pub fn from_ids(v: &[PackageId]) -> (r: IdSet)
        ensures
            r.wf(),
            r@ == id_views(v@).to_set(),
    {
        let mut copy = clone_ids(v);
        let ghost before = id_views(copy@);
        sort_ids(&mut copy);
        proof {
            lemma_multiset_same_set(before, id_views(copy@));
        }
        let ids = dedup_sorted(&copy);
        IdSet { ids }
    }

    pub fn len(&self) -> (r: usize)
        requires
            self.wf(),
        ensures
            r == self@.len(),
    {
        proof {
            self.lemma_members();
        }
        self.ids.len()
    }

    pub fn is_empty(&self) -> (r: bool)
        requires
            self.wf(),
        ensures
            r == (self@.len() == 0),
    {
        proof {
            self.lemma_members();
        }
        self.ids.len() == 0
    }

    /// The members in ascending order.
    pub fn as_slice(&self) -> (r: &[PackageId])
        ensures
            id_views(r@) == self.members(),
    {
        self.ids.as_slice()
    }

    pub fn contains(&self, id: &PackageId) -> (r: bool)
        requires
            self.wf(),
        ensures
            r == self@.contains(id@),
    {
        match search_ids(self.ids.as_slice(), id) {
            Ok(i) => {
                assert(id_views(self.ids@)[i as int] == id@);
                true
            },
            Err(p) => {
                proof {
                    if id_views(self.ids@).contains(id@) {
                        let k = choose|k: int|
                            0 <= k < id_views(self.ids@).len() && id_views(self.ids@)[k] == id@;
                        assert(id_views(self.ids@)[k] == self.ids@[k]@);
                        lemma_id_order(id@, id@, id@);
                    }
                }
                false
            },
        }
    }

    pub fn insert(&mut self, id: PackageId)
        requires
            old(self).wf(),
        ensures
            final(self).wf(),
            final(self)@ == old(self)@.insert(id@),
    {
        match search_ids(self.ids.as_slice(), &id) {
            Ok(i) => {
                assert(id_views(self.ids@)[i as int] == id@);
                assert(self@.insert(id@) =~= self@);
            },
            Err(p) => {
                let ghost before = id_views(self.ids@);
                let ghost v = id@;
                self.ids.insert(p, id);
                assert(id_views(self.ids@) =~= before.insert(p as int, v));
                proof {
                    before.insert_ensures(p as int, v);
                    let after = id_views(self.ids@);
                    assert forall|a: int, b: int| 0 <= a < b < after.len() implies id_order(
                        #[trigger] after[a],
                        #[trigger] after[b],
                    ) < 0 by {
                        if a < p && b > p {
                            assert(after[b] == before[b - 1]);
                            assert(before[b - 1] == self.ids@[b]@);
                            lemma_id_order(after[a], v, after[b]);
                        } else if a < p && b < p {
                        } else if a > p {
                            assert(after[b] == before[b - 1]);
                            assert(after[a] == before[a - 1]);
                        }
                    }
                    assert(after.to_set() =~= before.to_set().insert(v)) by {
                        assert forall|x: PackageIdView| after.to_set().contains(x) implies before.to_set().insert(
                            v,
                        ).contains(x) by {
                            let k = choose|k: int| 0 <= k < after.len() && after[k] == x;
                            if k < p {
                                assert(before[k] == x);
                            } else if k > p {
                                assert(before[k - 1] == x);
                            }
                        }
                        assert forall|x: PackageIdView| before.to_set().insert(v).contains(
                            x,
                        ) implies after.to_set().contains(x) by {
                            if x == v {
                                assert(after[p as int] == v);
                            } else {
                                let k = choose|k: int| 0 <= k < before.len() && before[k] == x;
                                if k < p {
                                    assert(after[k] == x);
                                } else {
                                    assert(after[k + 1] == x);
                                }
                            }
                        }
                    }
                }
            },
        }
    }

    /// Remove `id`; answers whether it was a member.
    pub fn remove(&mut self, id: &PackageId) -> (r: bool)
        requires
            old(self).wf(),
        ensures
            final(self).wf(),
            final(self)@ == old(self)@.remove(id@),
            r == old(self)@.contains(id@),
    {
        proof {
            self.lemma_members();
        }
        match search_ids(self.ids.as_slice(), id) {
            Ok(i) => {
                let ghost before = id_views(self.ids@);
                assert(before[i as int] == id@);
                self.ids.remove(i);
                assert(id_views(self.ids@) =~= before.remove(i as int));
                proof {
                    before.remove_ensures(i as int);
                    let after = id_views(self.ids@);
                    assert forall|a: int, b: int| 0 <= a < b < after.len() implies id_order(
                        #[trigger] after[a],
                        #[trigger] after[b],
                    ) < 0 by {
                        if a < i && b >= i {
                            assert(after[b] == before[b + 1]);
                        } else if a >= i {
                            assert(after[a] == before[a + 1]);
                            assert(after[b] == before[b + 1]);
                        }
                    }
                    assert(after.to_set() =~= before.to_set().remove(id@)) by {
                        assert forall|x: PackageIdView| after.to_set().contains(x) implies before.to_set().remove(
                            id@,
                        ).contains(x) by {
                            let k = choose|k: int| 0 <= k < after.len() && after[k] == x;
                            if k < i {
                                assert(before[k] == x);
                            } else {
                                assert(before[k + 1] == x);
                                assert(k + 1 != i);
                            }
                        }
                        assert forall|x: PackageIdView| before.to_set().remove(id@).contains(
                            x,
                        ) implies after.to_set().contains(x) by {
                            let k = choose|k: int| 0 <= k < before.len() && before[k] == x;
                            if k < i {
                                assert(after[k] == x);
                            } else {
                                assert(k != i);
                                assert(after[k - 1] == x);
                            }
                        }
                    }
                }
                true
            },
            Err(p) => {
                proof {
                    if self@.contains(id@) {
                        let k = choose|k: int|
                            0 <= k < id_views(self.ids@).len() && id_views(self.ids@)[k] == id@;
                        assert(id_views(self.ids@)[k] == self.ids@[k]@);
                        lemma_id_order(id@, id@, id@);
                    }
                    assert(self@.remove(id@) =~= self@);
                }
                false
            },
        }
    }

    pub fn clear(&mut self)
        ensures
            final(self).wf(),
            final(self)@ == Set::<PackageIdView>::empty(),
    {
        self.ids = Vec::new();
        assert(id_views(self.ids@) =~= Seq::<PackageIdView>::empty());
    }

    /// Keep only the members that occur in `v`.
    pub fn retain_present(&mut self, v: &[PackageId])
        requires
            old(self).wf(),
        ensures
            final(self).wf(),
            final(self)@ == old(self)@.intersect(id_views(v@).to_set()),
    {
        let present = IdSet::from_ids(v);
        let ghost before = id_views(self.ids@);
        let mut kept: Vec<PackageId> = Vec::new();
        let mut i: usize = 0;
        while i < self.ids.len()
            invariant
                i <= self.ids.len(),
                before == id_views(self.ids@),
                strictly_sorted_ids(before),
                present.wf(),
                present@ == id_views(v@).to_set(),
                id_views(kept@).to_set() == before.take(i as int).to_set().intersect(present@),
                forall|a: int| 0 <= a < id_views(kept@).len() ==> exists|b: int|
                    0 <= b < i && #[trigger] id_views(kept@)[a] == before[b],
                forall|a: int, b: int|
                    0 <= a < b < id_views(kept@).len() ==> id_order(
                        #[trigger] id_views(kept@)[a],
                        #[trigger] id_views(kept@)[b],
                    ) < 0,
            decreases self.ids.len() - i,
        {
            let ghost k0 = id_views(kept@);
            assert(before[i as int] == self.ids@[i as int]@);
            assert(before.take(i + 1) =~= before.take(i as int).push(before[i as int]));
            proof {
                before.take(i as int).lemma_push_to_set_commute(before[i as int]);
            }
            if present.contains(&self.ids[i]) {
                kept.push(self.ids[i].clone());
                assert(id_views(kept@) =~= k0.push(before[i as int]));
                proof {
                    k0.lemma_push_to_set_commute(before[i as int]);
                    assert(id_views(kept@).to_set() =~= before.take(i + 1).to_set().intersect(
                        present@,
                    ));
                    assert forall|a: int, b: int|
                        0 <= a < b < id_views(kept@).len() implies id_order(
                        #[trigger] id_views(kept@)[a],
                        #[trigger] id_views(kept@)[b],
                    ) < 0 by {
                        if b == k0.len() {
                            assert(id_views(kept@)[a] == k0[a]);
                            let c = choose|c: int| 0 <= c < i && k0[a] == before[c];
                            assert(id_order(before[c], before[i as int]) < 0);
                        }
                    }
                    assert forall|a: int| 0 <= a < id_views(kept@).len() implies exists|b: int|
                        0 <= b < i + 1 && #[trigger] id_views(kept@)[a] == before[b] by {
                        if a == k0.len() {
                            assert(id_views(kept@)[a] == before[i as int]);
                        } else {
                            assert(id_views(kept@)[a] == k0[a]);
                        }
                    }
                }
            } else {
                proof {
                    assert(id_views(kept@).to_set() =~= before.take(i + 1).to_set().intersect(
                        present@,
                    ));
                }
            }
            i = i + 1;
        }
        assert(before.take(i as int) =~= before);
        self.ids = kept;
    }
}

/// Sequences with the same multiset hold the same set of elements.
pub proof fn lemma_multiset_same_set<A>(a: Seq<A>, b: Seq<A>)
    requires
        a.to_multiset() == b.to_multiset(),
    ensures
        a.to_set() == b.to_set(),
{
    a.to_multiset_ensures();
    b.to_multiset_ensures();
    assert forall|x: A| a.to_set().contains(x) == b.to_set().contains(x) by {
        assert(a.to_multiset().count(x) == b.to_multiset().count(x));
        assert(a.contains(x) == (a.to_multiset().count(x) > 0));
        assert(b.contains(x) == (b.to_multiset().count(x) > 0));
        assert(a.to_set().contains(x) == a.contains(x));
        assert(b.to_set().contains(x) == b.contains(x));
    }
    assert(a.to_set() =~= b.to_set());
}

} // verus!
