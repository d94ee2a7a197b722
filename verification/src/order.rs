//! Three-way orders as integers (-1, 0, 1), their laws, and byte-string order.
use vstd::prelude::*;

verus! {

/// The three values a comparison takes.
pub open spec fn is_sign(r: int) -> bool {
    r == -1 || r == 0 || r == 1
}

/// The laws that make `order` a strict total order whose ties are identity.
pub open spec fn is_total_order<T>(order: spec_fn(T, T) -> int) -> bool {
    &&& forall|x: T, y: T| #[trigger] order(x, y) == -order(y, x)
    &&& forall|x: T, y: T| is_sign(#[trigger] order(x, y))
    &&& forall|x: T, y: T| #[trigger] order(x, y) == 0 <==> x == y
    &&& forall|x: T, y: T, z: T|
        #[trigger] order(x, y) < 0 && #[trigger] order(y, z) < 0 ==> order(x, z) < 0
}

/// The laws of a total preorder: ties need not be identity.
pub open spec fn is_total_preorder<T>(order: spec_fn(T, T) -> int) -> bool {
    &&& forall|x: T, y: T| #[trigger] order(x, y) == -order(y, x)
    &&& forall|x: T, y: T| is_sign(#[trigger] order(x, y))
    &&& forall|x: T, y: T, z: T|
        #[trigger] order(x, y) <= 0 && #[trigger] order(y, z) <= 0 ==> order(x, z) <= 0
}

// ---- byte strings ------------------------------------------------------------

/// Lexicographic order of byte strings from position `i` on; a proper prefix
/// sorts first.
pub open spec fn lex_from(a: Seq<u8>, b: Seq<u8>, i: int) -> int
    decreases a.len() + b.len() - i,
{
    if i < 0 || (i >= a.len() && i >= b.len()) {
        0
    } else if i >= a.len() {
        -1
    } else if i >= b.len() {
        1
    } else if a[i] < b[i] {
        -1
    } else if a[i] > b[i] {
        1
    } else {
        lex_from(a, b, i + 1)
    }
}

/// Lexicographic order of byte strings, as `[u8]`'s `Ord` orders them.
pub open spec fn lex(a: Seq<u8>, b: Seq<u8>) -> int {
    lex_from(a, b, 0)
}

proof fn lemma_lex_from(a: Seq<u8>, b: Seq<u8>, i: int)
    requires
        0 <= i <= a.len(),
        i <= b.len(),
    ensures
        lex_from(a, b, i) == -lex_from(b, a, i),
        is_sign(lex_from(a, b, i)),
        lex_from(a, b, i) == 0 <==> (a.len() == b.len() && forall|k: int|
            i <= k < a.len() ==> a[k] == b[k]),
    decreases a.len() - i,
{
    if i < a.len() && i < b.len() {
        lemma_lex_from(a, b, i + 1);
        if a[i] == b[i] {
            assert(forall|k: int| i <= k < a.len() && a[k] != b[k] ==> k >= i + 1);
        }
    }
    if i >= a.len() && i < b.len() {
        assert(!(a.len() == b.len()));
    }
    if i >= b.len() && i < a.len() {
        assert(!(a.len() == b.len()));
    }
}

proof fn lemma_lex_from_trans(a: Seq<u8>, b: Seq<u8>, c: Seq<u8>, i: int)
    requires
        0 <= i <= a.len(),
        i <= b.len(),
        i <= c.len(),
    ensures
        lex_from(a, b, i) < 0 && lex_from(b, c, i) < 0 ==> lex_from(a, c, i) < 0,
    decreases a.len() - i,
{
    if i < a.len() && i < b.len() && i < c.len() {
        lemma_lex_from_trans(a, b, c, i + 1);
    }
}

/// `lex` is a strict total order on byte strings whose ties are equality.
pub proof fn lemma_lex_total()
    ensures
        is_total_order(|x: Seq<u8>, y: Seq<u8>| lex(x, y)),
{
    let order = |x: Seq<u8>, y: Seq<u8>| lex(x, y);
    assert forall|x: Seq<u8>, y: Seq<u8>| #[trigger] order(x, y) == -order(y, x) && is_sign(
        order(x, y),
    ) && (order(x, y) == 0 <==> x == y) by {
        lemma_lex_from(x, y, 0);
        if lex(x, y) == 0 {
            assert(x =~= y);
        }
    }
    assert forall|x: Seq<u8>, y: Seq<u8>, z: Seq<u8>|
        #[trigger] order(x, y) < 0 && #[trigger] order(y, z) < 0 implies order(x, z) < 0 by {
        lemma_lex_from_trans(x, y, z, 0);
    }
}

/// Facts about `lex` used directly by callers.
pub proof fn lemma_lex(a: Seq<u8>, b: Seq<u8>, c: Seq<u8>)
    ensures
        lex(a, b) == -lex(b, a),
        is_sign(lex(a, b)),
        lex(a, b) == 0 <==> a == b,
        lex(a, b) < 0 && lex(b, c) < 0 ==> lex(a, c) < 0,
{
    lemma_lex_from(a, b, 0);
    lemma_lex_from_trans(a, b, c, 0);
    if lex(a, b) == 0 {
        assert(a =~= b);
    }
}

/// Compare two byte strings lexicographically.
pub fn lex_sign(a: &[u8], b: &[u8]) -> (r: i8)
    ensures
        r == lex(a@, b@),
{
    let mut i: usize = 0;
    while i < a.len() && i < b.len()
        invariant
            0 <= i <= a.len(),
            i <= b.len(),
            lex_from(a@, b@, 0) == lex_from(a@, b@, i as int),
        decreases a.len() - i,
    {
        if a[i] < b[i] {
            return -1;
        }
        if a[i] > b[i] {
            return 1;
        }
        i = i + 1;
    }
    if i < a.len() {
        1
    } else if i < b.len() {
        -1
    } else {
        0
    }
}

// ---- element-wise order with an end marker -----------------------------------

/// The element at `i`, or `None` past the end.
pub open spec fn at<T>(s: Seq<T>, i: int) -> Option<T> {
    if 0 <= i < s.len() {
        Some(s[i])
    } else {
        None
    }
}

/// Orders elements, with the end of a sequence ranked between the `low`
/// elements and all others.
pub open spec fn with_end<T>(
    x: Option<T>,
    y: Option<T>,
    order: spec_fn(T, T) -> int,
    low: spec_fn(T) -> bool,
) -> int {
    match (x, y) {
        (None, None) => 0,
        (None, Some(v)) => if low(v) {
            1
        } else {
            -1
        },
        (Some(u), None) => if low(u) {
            -1
        } else {
            1
        },
        (Some(u), Some(v)) => order(u, v),
    }
}

/// Lexicographic order of sequences from position `i`, where a shorter
/// sequence is padded with the end marker of `with_end`.
pub open spec fn padded_from<T>(
    a: Seq<T>,
    b: Seq<T>,
    i: int,
    order: spec_fn(T, T) -> int,
    low: spec_fn(T) -> bool,
) -> int
    decreases a.len() + b.len() - i,
{
    if i < 0 || (i >= a.len() && i >= b.len()) {
        0
    } else {
        let c = with_end(at(a, i), at(b, i), order, low);
        if c != 0 {
            c
        } else {
            padded_from(a, b, i + 1, order, low)
        }
    }
}

/// Two sequences that agree before position `k`, one of them at least `k`
/// long and the other longer, compare as they do from `k` on.
pub proof fn lemma_padded_skip_from<T>(
    a: Seq<T>,
    b: Seq<T>,
    m: int,
    k: int,
    order: spec_fn(T, T) -> int,
    low: spec_fn(T) -> bool,
)
    requires
        0 <= m <= k,
        k <= a.len(),
        k <= b.len(),
        k < a.len() || k < b.len(),
        forall|n: int| 0 <= n < k ==> a[n] == b[n],
        forall|t: T| #[trigger] order(t, t) == 0,
    ensures
        padded_from(a, b, m, order, low) == padded_from(a, b, k, order, low),
    decreases k - m,
{
    if m < k {
        assert(a[m] == b[m]);
        assert(order(a[m], a[m]) == 0);
        lemma_padded_skip_from(a, b, m + 1, k, order, low);
    }
}

/// The condition under which `with_end` is a strict total order.
pub open spec fn low_sorts_first<T>(order: spec_fn(T, T) -> int, low: spec_fn(T) -> bool) -> bool {
    forall|x: T, y: T| low(x) && !low(y) ==> #[trigger] order(x, y) < 0
}

proof fn lemma_with_end<T>(
    x: Option<T>,
    y: Option<T>,
    z: Option<T>,
    order: spec_fn(T, T) -> int,
    low: spec_fn(T) -> bool,
)
    requires
        is_total_order(order),
        low_sorts_first(order, low),
    ensures
        with_end(x, y, order, low) == -with_end(y, x, order, low),
        is_sign(with_end(x, y, order, low)),
        with_end(x, y, order, low) == 0 <==> x == y,
        with_end(x, y, order, low) < 0 && with_end(y, z, order, low) < 0 ==> with_end(
            x,
            z,
            order,
            low,
        ) < 0,
{
    match (x, y, z) {
        (Some(u), Some(v), Some(w)) => {
            assert(order(u, v) == -order(v, u));
            assert(is_sign(order(u, v)));
            assert(order(u, v) < 0 && order(v, w) < 0 ==> order(u, w) < 0);
        },
        (Some(u), Some(v), None) => {
            assert(order(u, v) == -order(v, u));
            assert(is_sign(order(u, v)));
            if low(v) && !low(u) {
                assert(order(v, u) < 0);
            }
        },
        (None, Some(v), Some(w)) => {
            assert(order(v, w) == -order(w, v));
            if low(v) && !low(w) {
                assert(order(v, w) < 0);
            }
        },
        (Some(u), None, Some(w)) => {
            if low(u) && !low(w) {
                assert(order(u, w) < 0);
            }
        },
        _ => {},
    }
}

proof fn lemma_padded_from<T>(
    a: Seq<T>,
    b: Seq<T>,
    i: int,
    order: spec_fn(T, T) -> int,
    low: spec_fn(T) -> bool,
)
    requires
        0 <= i <= a.len(),
        i <= b.len(),
        is_total_order(order),
        low_sorts_first(order, low),
    ensures
        padded_from(a, b, i, order, low) == -padded_from(b, a, i, order, low),
        is_sign(padded_from(a, b, i, order, low)),
        padded_from(a, b, i, order, low) == 0 <==> (a.len() == b.len() && forall|k: int|
            i <= k < a.len() ==> a[k] == b[k]),
    decreases a.len() - i,
{
    lemma_with_end(at(a, i), at(b, i), at(a, i), order, low);
    lemma_with_end(at(b, i), at(a, i), at(a, i), order, low);
    if i < a.len() && i < b.len() {
        lemma_padded_from(a, b, i + 1, order, low);
        if a[i] == b[i] {
            assert(forall|k: int| i <= k < a.len() && a[k] != b[k] ==> k >= i + 1);
        }
    }
    if i >= a.len() && i < b.len() {
        assert(!(a.len() == b.len()));
    }
    if i >= b.len() && i < a.len() {
        assert(!(a.len() == b.len()));
    }
}

proof fn lemma_padded_from_trans<T>(
    a: Seq<T>,
    b: Seq<T>,
    c: Seq<T>,
    i: int,
    order: spec_fn(T, T) -> int,
    low: spec_fn(T) -> bool,
)
    requires
        0 <= i <= a.len(),
        i <= b.len(),
        i <= c.len(),
        is_total_order(order),
        low_sorts_first(order, low),
    ensures
        padded_from(a, b, i, order, low) < 0 && padded_from(b, c, i, order, low) < 0
            ==> padded_from(a, c, i, order, low) < 0,
    decreases a.len() - i,
{
    lemma_with_end(at(a, i), at(b, i), at(c, i), order, low);
    lemma_with_end(at(a, i), at(c, i), at(b, i), order, low);
    lemma_with_end(at(b, i), at(c, i), at(a, i), order, low);
    if i < a.len() && i < b.len() && i < c.len() {
        lemma_padded_from_trans(a, b, c, i + 1, order, low);
    }
}

/// The padded lexicographic order of sequences inherits a strict total order.
pub proof fn lemma_padded_total<T>(
    a: Seq<T>,
    b: Seq<T>,
    c: Seq<T>,
    order: spec_fn(T, T) -> int,
    low: spec_fn(T) -> bool,
)
    requires
        is_total_order(order),
        low_sorts_first(order, low),
    ensures
        padded_from(a, b, 0, order, low) == -padded_from(b, a, 0, order, low),
        is_sign(padded_from(a, b, 0, order, low)),
        padded_from(a, b, 0, order, low) == 0 <==> a == b,
        padded_from(a, b, 0, order, low) < 0 && padded_from(b, c, 0, order, low) < 0
            ==> padded_from(a, c, 0, order, low) < 0,
{
    lemma_padded_from(a, b, 0, order, low);
    lemma_padded_from_trans(a, b, c, 0, order, low);
    if padded_from(a, b, 0, order, low) == 0 {
        assert(a =~= b);
    }
}

/// Lexicographic combination of a primary and a secondary three-way result.
pub open spec fn then(primary: int, secondary: int) -> int {
    if primary != 0 {
        primary
    } else {
        secondary
    }
}

} // verus!
