//! Package lists ordered by id, stably.
use crate::application::store::package_views;
use crate::domain::package::{id_order, Package, PackageIdView, PackageView};
use crate::sign::ordering_sign;
use std::cmp::Ordering;
use vstd::prelude::*;

verus! {

/// The packages of `s` with id `k`, in order.
pub open spec fn with_id(s: Seq<PackageView>, k: PackageIdView) -> Seq<PackageView> {
    s.filter(|p: PackageView| p.id == k)
}

/// `out` is `inp` sorted by id, packages with equal ids kept in their order
/// in `inp`.
pub open spec fn sorted_by_id_from(out: Seq<PackageView>, inp: Seq<PackageView>) -> bool {
    &&& forall|i: int, j: int| 0 <= i < j < out.len() ==> id_order(#[trigger] out[i].id, #[trigger] out[j].id) <= 0
    &&& forall|k: PackageIdView| #[trigger] with_id(out, k) == with_id(inp, k)
}

/// A stable sort by id leaves a list empty exactly when its input was empty.
pub proof fn lemma_sorted_empty_iff(out: Seq<PackageView>, inp: Seq<PackageView>)
    requires
        sorted_by_id_from(out, inp),
    ensures
        out.len() == 0 <==> inp.len() == 0,
{
    broadcast use vstd::seq_lib::group_filter_ensures;

    if inp.len() > 0 {
        let k = inp[0].id;
        assert(with_id(inp, k).contains(inp[0]));
        assert(with_id(out, k).len() > 0);
    }
    if out.len() > 0 {
        let k = out[0].id;
        assert(with_id(out, k).contains(out[0]));
        assert(with_id(inp, k).len() > 0);
    }
}

/// Compares two packages by id.
fn by_id(a: &Package, b: &Package) -> (o: Ordering)
    ensures
        ordering_sign(o) == id_order(a@.id, b@.id),
{
    a.id().compare(b.id())
}

/// Calls `slice::sort_by` with `by_id`, a total order on ids
/// (`package_id_order_is_total`). The contract claims what std documents of
/// `sort_by`: the result is sorted by the comparison, and the sort is stable,
/// so packages with equal ids keep their order.
#[verifier::external_body]
pub(crate) fn sort_by_id(v: &mut Vec<Package>)
    ensures
        final(v)@.len() == old(v)@.len(),
        sorted_by_id_from(package_views(final(v)@), package_views(old(v)@)),
{
    v.sort_by(|a, b| by_id(a, b));
}

} // verus!
