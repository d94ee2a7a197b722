//! Kettle's local ordering for choosing the newest installed directory.
//! Homebrew remains authoritative for whether a package is actually outdated.
use crate::ascii::{
    alnum_byte, copy_range, digit_byte, fold_bytes, fold_slice, is_alnum, is_digit,
};
use crate::order::{
    is_sign, is_total_order, is_total_preorder, lemma_lex, lemma_padded_skip_from, lemma_padded_total, lex,
    lex_sign, low_sorts_first, padded_from, then, with_end, at,
};
use crate::sign::{ordering_of, ordering_sign};
use std::cmp::Ordering;
use vstd::prelude::*;
use vstd::string::StringSliceAdditionalSpecFns;

verus! {

// ---- splitting a version string ------------------------------------------------

/// The largest index `k < i` with `b[k] == x`, or -1.
pub open spec fn last_index_of(b: Seq<u8>, x: u8, i: int) -> int
    decreases i,
{
    if i <= 0 || i > b.len() {
        -1
    } else if b[i - 1] == x {
        i - 1
    } else {
        last_index_of(b, x, i - 1)
    }
}

pub open spec fn all_digits(s: Seq<u8>) -> bool {
    forall|k: int| 0 <= k < s.len() ==> is_digit(#[trigger] s[k])
}

/// Homebrew appends `_N` for a rebuild of the same upstream version: the text
/// after the last `_` is a revision when it is a non-empty run of digits.
/// Returns the base and, where there is one, the revision's digits.
pub open spec fn revision_split(b: Seq<u8>) -> (Seq<u8>, Option<Seq<u8>>) {
    let u = last_index_of(b, 95, b.len() as int);
    if u >= 0 && u + 1 < b.len() && all_digits(b.subrange(u + 1, b.len() as int)) {
        (b.subrange(0, u), Some(b.subrange(u + 1, b.len() as int)))
    } else {
        (b, None)
    }
}

/// The end of the run starting at `i` of alphanumeric bytes that are all
/// digits (`digits`) or all letters.
pub open spec fn run_end(b: Seq<u8>, i: int, digits: bool) -> int
    decreases b.len() - i,
{
    if 0 <= i < b.len() && is_alnum(b[i]) && is_digit(b[i]) == digits {
        run_end(b, i + 1, digits)
    } else {
        i
    }
}

pub proof fn lemma_run_end(b: Seq<u8>, i: int, digits: bool)
    requires
        0 <= i <= b.len(),
    ensures
        i <= run_end(b, i, digits) <= b.len(),
        forall|k: int|
            i <= k < run_end(b, i, digits) ==> is_alnum(b[k]) && is_digit(b[k]) == digits,
        run_end(b, i, digits) < b.len() ==> !(is_alnum(b[run_end(b, i, digits)]) && is_digit(
            b[run_end(b, i, digits)],
        ) == digits),
    decreases b.len() - i,
{
    if i < b.len() && is_alnum(b[i]) && is_digit(b[i]) == digits {
        lemma_run_end(b, i + 1, digits);
    }
}

/// The words of a version from position `i` on: maximal runs of digits or of
/// letters; every other byte separates.
pub open spec fn words_from(b: Seq<u8>, i: int) -> Seq<Seq<u8>>
    decreases b.len() - i,
{
    if i < 0 || i >= b.len() {
        Seq::empty()
    } else if !is_alnum(b[i]) {
        words_from(b, i + 1)
    } else {
        let j = run_end(b, i, is_digit(b[i]));
        proof {
            lemma_run_end(b, i + 1, is_digit(b[i]));
        }
        seq![b.subrange(i, j)] + words_from(b, j)
    }
}

pub open spec fn words(b: Seq<u8>) -> Seq<Seq<u8>> {
    words_from(b, 0)
}

// ---- tokens and their order ---------------------------------------------------

/// A comparable part of a version.
pub enum VersionToken {
    /// Pre-release marker; lower rank sorts earlier (alpha < beta < pre < rc).
    Pre(nat),
    /// Digits with leading zeros removed.
    Num(Seq<u8>),
    /// Lowercased letters.
    Text(Seq<u8>),
}

/// Index of the first byte at or after `i` that is not `'0'`.
pub open spec fn leading_zeros(d: Seq<u8>, i: int) -> int
    decreases d.len() - i,
{
    if 0 <= i < d.len() && d[i] == 48 {
        leading_zeros(d, i + 1)
    } else {
        i
    }
}

/// A digit string without its leading zeros; all zeros become `"0"`.
pub open spec fn numeric(d: Seq<u8>) -> Seq<u8> {
    let k = leading_zeros(d, 0);
    if k >= d.len() {
        seq![48u8]
    } else {
        d.subrange(k, d.len() as int)
    }
}

/// The rank of a (lowercased) pre-release word.
pub open spec fn pre_rank(w: Seq<u8>) -> Option<nat> {
    if w == seq![97u8, 108, 112, 104, 97] || w == seq![97u8] {
        Some(0)
    } else if w == seq![98u8, 101, 116, 97] || w == seq![98u8] {
        Some(1)
    } else if w == seq![112u8, 114, 101] {
        Some(2)
    } else if w == seq![114u8, 99] {
        Some(3)
    } else {
        None
    }
}

pub open spec fn word_token(w: Seq<u8>) -> VersionToken {
    if w.len() > 0 && is_digit(w[0]) {
        VersionToken::Num(numeric(w))
    } else {
        match pre_rank(fold_bytes(w)) {
            Some(r) => VersionToken::Pre(r),
            None => VersionToken::Text(fold_bytes(w)),
        }
    }
}

pub open spec fn word_token_fn() -> spec_fn(Seq<u8>) -> VersionToken {
    |w: Seq<u8>| word_token(w)
}

pub open spec fn version_tokens(base: Seq<u8>) -> Seq<VersionToken> {
    words(base).map_values(word_token_fn())
}

/// The revision of a version as a digit string, `"0"` where there is none.
pub open spec fn revision(b: Seq<u8>) -> Seq<u8> {
    match revision_split(b).1 {
        Some(r) => numeric(r),
        None => seq![48u8],
    }
}

/// Digit strings without leading zeros ordered as numbers: by length, then
/// lexicographically.
pub open spec fn numeric_order(a: Seq<u8>, b: Seq<u8>) -> int {
    if a.len() < b.len() {
        -1
    } else if a.len() > b.len() {
        1
    } else {
        lex(a, b)
    }
}

pub open spec fn nat_order(a: nat, b: nat) -> int {
    if a < b {
        -1
    } else if a > b {
        1
    } else {
        0
    }
}

/// Pre-release markers sort below everything; numbers above words.
pub open spec fn token_order(x: VersionToken, y: VersionToken) -> int {
    match (x, y) {
        (VersionToken::Num(a), VersionToken::Num(b)) => numeric_order(a, b),
        (VersionToken::Text(a), VersionToken::Text(b)) => lex(a, b),
        (VersionToken::Pre(a), VersionToken::Pre(b)) => nat_order(a, b),
        (VersionToken::Pre(_), _) => -1,
        (_, VersionToken::Pre(_)) => 1,
        (VersionToken::Num(_), VersionToken::Text(_)) => 1,
        (VersionToken::Text(_), VersionToken::Num(_)) => -1,
    }
}

pub open spec fn token_order_fn() -> spec_fn(VersionToken, VersionToken) -> int {
    |x: VersionToken, y: VersionToken| token_order(x, y)
}

pub open spec fn is_pre_fn() -> spec_fn(VersionToken) -> bool {
    |t: VersionToken| t is Pre
}

/// The order of two version strings (as bytes): token by token, where running
/// out sorts above a trailing pre-release (`1.0 > 1.0rc1`) and below anything
/// else; the revision breaks ties.
pub open spec fn version_order(a: Seq<u8>, b: Seq<u8>) -> int {
    then(
        padded_from(
            version_tokens(revision_split(a).0),
            version_tokens(revision_split(b).0),
            0,
            token_order_fn(),
            is_pre_fn(),
        ),
        numeric_order(revision(a), revision(b)),
    )
}

// ---- laws ---------------------------------------------------------------------

proof fn lemma_numeric_order(a: Seq<u8>, b: Seq<u8>, c: Seq<u8>)
    ensures
        numeric_order(a, b) == -numeric_order(b, a),
        is_sign(numeric_order(a, b)),
        numeric_order(a, b) == 0 <==> a == b,
        numeric_order(a, b) < 0 && numeric_order(b, c) < 0 ==> numeric_order(a, c) < 0,
{
    lemma_lex(a, b, c);
    if a.len() != b.len() {
        assert(a != b);
    }
}

proof fn lemma_token_order_total()
    ensures
        is_total_order(token_order_fn()),
        low_sorts_first(token_order_fn(), is_pre_fn()),
{
    let f = token_order_fn();
    assert forall|x: VersionToken, y: VersionToken| #[trigger] f(x, y) == -f(y, x) && is_sign(
        f(x, y),
    ) && (f(x, y) == 0 <==> x == y) by {
        match (x, y) {
            (VersionToken::Num(a), VersionToken::Num(b)) => lemma_numeric_order(a, b, a),
            (VersionToken::Text(a), VersionToken::Text(b)) => lemma_lex(a, b, a),
            _ => {},
        }
    }
    assert forall|x: VersionToken, y: VersionToken, z: VersionToken|
        #[trigger] f(x, y) < 0 && #[trigger] f(y, z) < 0 implies f(x, z) < 0 by {
        match (x, y, z) {
            (VersionToken::Num(a), VersionToken::Num(b), VersionToken::Num(c)) => {
                lemma_numeric_order(a, b, c)
            },
            (VersionToken::Text(a), VersionToken::Text(b), VersionToken::Text(c)) => {
                lemma_lex(a, b, c)
            },
            _ => {},
        }
    }
}

/// The facts about one comparison that the laws are built from.
proof fn lemma_version_order_parts(a: Seq<u8>, b: Seq<u8>, c: Seq<u8>)
    ensures
        version_order(a, b) == -version_order(b, a),
        is_sign(version_order(a, b)),
        version_order(a, b) <= 0 && version_order(b, c) <= 0 ==> version_order(a, c) <= 0,
        version_order(a, b) < 0 && version_order(b, c) <= 0 ==> version_order(a, c) < 0,
{
    let ta = version_tokens(revision_split(a).0);
    let tb = version_tokens(revision_split(b).0);
    let tc = version_tokens(revision_split(c).0);
    lemma_token_order_total();
    lemma_padded_total(ta, tb, tc, token_order_fn(), is_pre_fn());
    lemma_padded_total(tb, tc, ta, token_order_fn(), is_pre_fn());
    lemma_padded_total(ta, tc, tb, token_order_fn(), is_pre_fn());
    lemma_numeric_order(revision(a), revision(b), revision(c));
    lemma_numeric_order(revision(b), revision(c), revision(a));
    lemma_numeric_order(revision(a), revision(c), revision(b));
}

/// Swapping the arguments of `version_cmp` reverses its result.
pub proof fn version_cmp_is_antisymmetric(a: &str, b: &str)
    ensures
        version_order(a.spec_bytes(), b.spec_bytes()) == -version_order(
            b.spec_bytes(),
            a.spec_bytes(),
        ),
{
    lemma_version_order_parts(a.spec_bytes(), b.spec_bytes(), a.spec_bytes());
}

/// `version_cmp` is transitive: `a <= b` and `b <= c` give `a <= c`, and the
/// result is strict when either premise is.
pub proof fn version_cmp_is_transitive(a: &str, b: &str, c: &str)
    ensures
        version_order(a.spec_bytes(), b.spec_bytes()) <= 0 && version_order(
            b.spec_bytes(),
            c.spec_bytes(),
        ) <= 0 ==> version_order(a.spec_bytes(), c.spec_bytes()) <= 0,
        version_order(a.spec_bytes(), b.spec_bytes()) < 0 && version_order(
            b.spec_bytes(),
            c.spec_bytes(),
        ) <= 0 ==> version_order(a.spec_bytes(), c.spec_bytes()) < 0,
        version_order(a.spec_bytes(), b.spec_bytes()) <= 0 && version_order(
            b.spec_bytes(),
            c.spec_bytes(),
        ) < 0 ==> version_order(a.spec_bytes(), c.spec_bytes()) < 0,
{
    let (x, y, z) = (a.spec_bytes(), b.spec_bytes(), c.spec_bytes());
    lemma_version_order_parts(x, y, z);
    lemma_version_order_parts(y, z, x);
    lemma_version_order_parts(z, x, y);
    lemma_version_order_parts(x, z, y);
    lemma_version_order_parts(z, y, x);
    lemma_version_order_parts(y, x, z);
}

/// Every version is equal to itself.
pub proof fn version_cmp_is_reflexive(a: &str)
    ensures
        version_order(a.spec_bytes(), a.spec_bytes()) == 0,
{
    lemma_version_order_parts(a.spec_bytes(), a.spec_bytes(), a.spec_bytes());
}

/// The order is total over byte strings too (used by callers that hold bytes).
pub proof fn lemma_version_order_total()
    ensures
        is_total_preorder(|x: Seq<u8>, y: Seq<u8>| version_order(x, y)),
{
    let f = |x: Seq<u8>, y: Seq<u8>| version_order(x, y);
    assert forall|x: Seq<u8>, y: Seq<u8>| #[trigger] f(x, y) == -f(y, x) && is_sign(f(x, y)) by {
        lemma_version_order_parts(x, y, x);
    }
    assert forall|x: Seq<u8>, y: Seq<u8>, z: Seq<u8>|
        #[trigger] f(x, y) <= 0 && #[trigger] f(y, z) <= 0 implies f(x, z) <= 0 by {
        lemma_version_order_parts(x, y, z);
    }
}

/// The pre-release markers, lowest first: alpha, beta, pre, rc.
pub open spec fn prerelease_markers() -> Seq<Seq<u8>> {
    seq![seq![97u8, 108, 112, 104, 97], seq![98u8, 101, 116, 97], seq![112u8, 114, 101], seq![114u8, 99]]
}

/// Without an underscore a version has no revision: its base is all of it.
pub proof fn lemma_no_revision(b: Seq<u8>)
    requires
        forall|n: int| 0 <= n < b.len() ==> b[n] != 95u8,
    ensures
        revision_split(b) == (b, Option::<Seq<u8>>::None),
{
    lemma_no_underscore_from(b, b.len() as int);
}

proof fn lemma_no_underscore_from(b: Seq<u8>, i: int)
    requires
        0 <= i <= b.len(),
        forall|n: int| 0 <= n < b.len() ==> b[n] != 95u8,
    ensures
        last_index_of(b, 95, i) == -1,
    decreases i,
{
    if i > 0 {
        lemma_no_underscore_from(b, i - 1);
    }
}

/// A word that folds to the `i`-th marker is a letter word with that rank.
pub proof fn lemma_marker_word(w: Seq<u8>, i: int)
    requires
        0 <= i < 4,
        fold_bytes(w) == prerelease_markers()[i],
    ensures
        !(w.len() > 0 && is_digit(w[0])),
        pre_rank(fold_bytes(w)) == Some(i as nat),
{
    let m = prerelease_markers()[i];
    assert(fold_bytes(w)[0] == m[0]);
    assert(m.len() > 0);
    if i == 0 {
        assert(m =~= seq![97u8, 108, 112, 104, 97]);
    } else if i == 1 {
        assert(m =~= seq![98u8, 101, 116, 97]);
        assert(m != seq![97u8, 108, 112, 104, 97]);
        assert(m != seq![97u8]);
    } else if i == 2 {
        assert(m =~= seq![112u8, 114, 101]);
        assert(m != seq![97u8, 108, 112, 104, 97]);
        assert(m != seq![97u8]);
        assert(m != seq![98u8, 101, 116, 97]);
        assert(m != seq![98u8]);
    } else {
        assert(m =~= seq![114u8, 99]);
        assert(m != seq![97u8, 108, 112, 104, 97]);
        assert(m != seq![97u8]);
        assert(m != seq![98u8, 101, 116, 97]);
        assert(m != seq![98u8]);
        assert(m != seq![112u8, 114, 101]);
    }
}

/// Pre-release markers order versions: where two versions without a
/// revision agree word for word up to a word that is a pre-release marker
/// in both, the one with the earlier marker (alpha, beta, pre, rc; any case)
/// is the older, whatever follows.
pub proof fn earlier_prerelease_is_older(x: Seq<u8>, y: Seq<u8>, k: int, i: int, j: int)
    requires
        forall|n: int| 0 <= n < x.len() ==> x[n] != 95u8,
        forall|n: int| 0 <= n < y.len() ==> y[n] != 95u8,
        0 <= k < words(x).len(),
        k < words(y).len(),
        forall|n: int| 0 <= n < k ==> words(x)[n] == words(y)[n],
        0 <= i < j < 4,
        fold_bytes(words(x)[k]) == prerelease_markers()[i],
        fold_bytes(words(y)[k]) == prerelease_markers()[j],
    ensures
        version_order(x, y) < 0,
        version_order(y, x) > 0,
{
    lemma_no_revision(x);
    lemma_no_revision(y);
    let tx = version_tokens(x);
    let ty = version_tokens(y);
    lemma_token_order_total();
    let f = token_order_fn();
    assert forall|t: VersionToken| #[trigger] f(t, t) == 0 by {
        assert(f(t, t) == 0 <==> t == t);
    }
    assert forall|n: int| 0 <= n < k implies tx[n] == ty[n] by {
        assert(words(x)[n] == words(y)[n]);
    }
    lemma_padded_skip_from(tx, ty, 0, k, f, is_pre_fn());
    lemma_padded_skip_from(ty, tx, 0, k, f, is_pre_fn());
    lemma_marker_word(words(x)[k], i);
    lemma_marker_word(words(y)[k], j);
    assert(tx[k] == VersionToken::Pre(i as nat));
    assert(ty[k] == VersionToken::Pre(j as nat));
    assert(at(tx, k) == Some(tx[k]));
    assert(at(ty, k) == Some(ty[k]));
}

/// A release is newer than its pre-releases: where a version without a
/// revision has exactly the first `k` words of another, whose next word is
/// a pre-release marker, the shorter one is the newer (`1.0` after
/// `1.0rc1`).
pub proof fn release_is_newer_than_its_prereleases(x: Seq<u8>, y: Seq<u8>, k: int, j: int)
    requires
        forall|n: int| 0 <= n < x.len() ==> x[n] != 95u8,
        forall|n: int| 0 <= n < y.len() ==> y[n] != 95u8,
        words(x).len() == k,
        k < words(y).len(),
        forall|n: int| 0 <= n < k ==> words(x)[n] == words(y)[n],
        0 <= j < 4,
        fold_bytes(words(y)[k]) == prerelease_markers()[j],
    ensures
        version_order(x, y) > 0,
        version_order(y, x) < 0,
{
    lemma_no_revision(x);
    lemma_no_revision(y);
    let tx = version_tokens(x);
    let ty = version_tokens(y);
    lemma_token_order_total();
    let f = token_order_fn();
    assert forall|t: VersionToken| #[trigger] f(t, t) == 0 by {
        assert(f(t, t) == 0 <==> t == t);
    }
    assert forall|n: int| 0 <= n < k implies tx[n] == ty[n] by {
        assert(words(x)[n] == words(y)[n]);
    }
    lemma_padded_skip_from(tx, ty, 0, k, f, is_pre_fn());
    lemma_padded_skip_from(ty, tx, 0, k, f, is_pre_fn());
    lemma_marker_word(words(y)[k], j);
    assert(ty[k] == VersionToken::Pre(j as nat));
    assert(at(tx, k) == Option::<VersionToken>::None);
    assert(at(ty, k) == Some(ty[k]));
}

// ---- executable parts shared by both version orders --------------------------

/// Where the base of a version ends and, if there is one, where its revision
/// starts.
pub(crate) fn split_revision(b: &[u8]) -> (res: (usize, Option<usize>))
    ensures
        res.0 <= b.len(),
        revision_split(b@).0 == b@.subrange(0, res.0 as int),
        match res.1 {
            Some(s) => s <= b.len() && revision_split(b@).1 == Some(
                b@.subrange(s as int, b.len() as int),
            ),
            None => revision_split(b@).1 is None,
        },
{
    let mut i = b.len();
    while i > 0 && b[i - 1] != 95
        invariant
            i <= b.len(),
            last_index_of(b@, 95, b.len() as int) == last_index_of(b@, 95, i as int),
        decreases i,
    {
        i = i - 1;
    }
    if i == 0 || i >= b.len() {
        assert(b@ =~= b@.subrange(0, b.len() as int));
        return (b.len(), None);
    }
    assert(last_index_of(b@, 95, i as int) == i - 1);
    let mut k = i;
    while k < b.len()
        invariant
            0 < i < b.len(),
            i <= k <= b.len(),
            last_index_of(b@, 95, b.len() as int) == i - 1,
            forall|j: int| i <= j < k ==> is_digit(b@[j]),
        decreases b.len() - k,
    {
        if !digit_byte(b[k]) {
            assert(!is_digit(b@.subrange(i as int, b.len() as int)[k - i]));
            assert(!all_digits(b@.subrange(i as int, b.len() as int)));
            assert(b@ =~= b@.subrange(0, b.len() as int));
            return (b.len(), None);
        }
        k = k + 1;
    }
    assert(all_digits(b@.subrange(i as int, b.len() as int)));
    (i - 1, Some(i))
}

pub open spec fn vec_views(s: Seq<Vec<u8>>) -> Seq<Seq<u8>> {
    s.map_values(|w: Vec<u8>| w@)
}

/// The words of `b` (see `words`).
pub(crate) fn split_words(b: &[u8]) -> (out: Vec<Vec<u8>>)
    ensures
        vec_views(out@) == words(b@),
{
    let mut out: Vec<Vec<u8>> = Vec::new();
    let mut i: usize = 0;
    while i < b.len()
        invariant
            i <= b.len(),
            words_from(b@, 0) == vec_views(out@) + words_from(b@, i as int),
        decreases b.len() - i,
    {
        if !alnum_byte(b[i]) {
            i = i + 1;
        } else {
            let start = i;
            let digits = digit_byte(b[i]);
            proof {
                lemma_run_end(b@, start as int, digits);
            }
            while i < b.len() && alnum_byte(b[i]) && digit_byte(b[i]) == digits
                invariant
                    start <= i <= b.len(),
                    run_end(b@, start as int, digits) == run_end(b@, i as int, digits),
                decreases b.len() - i,
            {
                i = i + 1;
            }
            let w = copy_range(b, start, i);
            let ghost before = vec_views(out@);
            out.push(w);
            assert(vec_views(out@) =~= before + seq![b@.subrange(start as int, i as int)]);
            assert(words_from(b@, start as int) == seq![b@.subrange(start as int, i as int)]
                + words_from(b@, i as int));
            assert(before + words_from(b@, start as int) =~= vec_views(out@) + words_from(
                b@,
                i as int,
            ));
        }
    }
    assert(vec_views(out@) =~= vec_views(out@) + words_from(b@, i as int));
    out
}

/// The digits of `d` without leading zeros (see `numeric`).
fn strip_zeros(d: &[u8]) -> (r: Vec<u8>)
    ensures
        r@ == numeric(d@),
{
    let mut k: usize = 0;
    while k < d.len() && d[k] == 48
        invariant
            k <= d.len(),
            leading_zeros(d@, 0) == leading_zeros(d@, k as int),
        decreases d.len() - k,
    {
        k = k + 1;
    }
    if k >= d.len() {
        let mut z: Vec<u8> = Vec::new();
        z.push(48);
        assert(z@ =~= seq![48u8]);
        z
    } else {
        copy_range(d, k, d.len())
    }
}

fn bytes_equal(a: &[u8], b: &[u8]) -> (r: bool)
    ensures
        r == (a@ == b@),
{
    if a.len() != b.len() {
        return false;
    }
    let mut i: usize = 0;
    while i < a.len()
        invariant
            i <= a.len() == b.len(),
            forall|k: int| 0 <= k < i ==> a@[k] == b@[k],
        decreases a.len() - i,
    {
        if a[i] != b[i] {
            return false;
        }
        i = i + 1;
    }
    assert(a@ =~= b@);
    true
}

/// The rank of a lowercased pre-release word (see `pre_rank`).
pub(crate) fn pre_rank_of(w: &[u8]) -> (r: Option<u8>)
    ensures
        match r {
            Some(v) => pre_rank(w@) == Some(v as nat),
            None => pre_rank(w@) is None,
        },
{
    let alpha: [u8; 5] = [97, 108, 112, 104, 97];
    let a: [u8; 1] = [97];
    let beta: [u8; 4] = [98, 101, 116, 97];
    let b: [u8; 1] = [98];
    let pre: [u8; 3] = [112, 114, 101];
    let rc: [u8; 2] = [114, 99];
    assert(alpha@ =~= seq![97u8, 108, 112, 104, 97]);
    assert(a@ =~= seq![97u8]);
    assert(beta@ =~= seq![98u8, 101, 116, 97]);
    assert(b@ =~= seq![98u8]);
    assert(pre@ =~= seq![112u8, 114, 101]);
    assert(rc@ =~= seq![114u8, 99]);
    if bytes_equal(w, &alpha) || bytes_equal(w, &a) {
        Some(0)
    } else if bytes_equal(w, &beta) || bytes_equal(w, &b) {
        Some(1)
    } else if bytes_equal(w, &pre) {
        Some(2)
    } else if bytes_equal(w, &rc) {
        Some(3)
    } else {
        None
    }
}

// ---- this order's tokens -------------------------------------------------------

enum Token {
    Pre(u8),
    Num(Vec<u8>),
    Text(Vec<u8>),
}

impl View for Token {
    type V = VersionToken;

    closed spec fn view(&self) -> VersionToken {
        match self {
            Token::Pre(r) => VersionToken::Pre(*r as nat),
            Token::Num(d) => VersionToken::Num(d@),
            Token::Text(t) => VersionToken::Text(t@),
        }
    }
}

spec fn token_views(s: Seq<Token>) -> Seq<VersionToken> {
    s.map_values(|t: Token| t@)
}

fn make_token(w: &[u8]) -> (t: Token)
    ensures
        t@ == word_token(w@),
{
    if w.len() > 0 && digit_byte(w[0]) {
        Token::Num(strip_zeros(w))
    } else {
        let folded = fold_slice(w);
        match pre_rank_of(folded.as_slice()) {
            Some(r) => Token::Pre(r),
            None => Token::Text(folded),
        }
    }
}

/// The tokens and revision of a version.
fn tokenize(value: &[u8]) -> (res: (Vec<Token>, Vec<u8>))
    ensures
        token_views(res.0@) == version_tokens(revision_split(value@).0),
        res.1@ == revision(value@),
{
    let (base_len, rev_start) = split_revision(value);
    let base = copy_range(value, 0, base_len);
    let revision = match rev_start {
        Some(s) => {
            let digits = copy_range(value, s, value.len());
            strip_zeros(digits.as_slice())
        },
        None => {
            let mut z: Vec<u8> = Vec::new();
            z.push(48);
            assert(z@ =~= seq![48u8]);
            z
        },
    };
    let ws = split_words(base.as_slice());
    let mut tokens: Vec<Token> = Vec::new();
    let mut i: usize = 0;
    while i < ws.len()
        invariant
            i <= ws.len(),
            vec_views(ws@) == words(base@),
            token_views(tokens@) =~= vec_views(ws@).take(i as int).map_values(word_token_fn()),
        decreases ws.len() - i,
    {
        let t = make_token(ws[i].as_slice());
        let ghost old_views = token_views(tokens@);
        tokens.push(t);
        assert(token_views(tokens@) =~= old_views.push(t@));
        assert(vec_views(ws@)[i as int] == ws@[i as int]@);
        assert(vec_views(ws@).take(i + 1).map_values(word_token_fn()) =~= vec_views(ws@).take(
            i as int,
        ).map_values(word_token_fn()).push(word_token(ws@[i as int]@)));
        i = i + 1;
    }
    assert(vec_views(ws@).take(i as int) =~= vec_views(ws@));
    (tokens, revision)
}

fn numeric_sign(a: &[u8], b: &[u8]) -> (r: i8)
    ensures
        r == numeric_order(a@, b@),
{
    if a.len() < b.len() {
        -1
    } else if a.len() > b.len() {
        1
    } else {
        lex_sign(a, b)
    }
}

fn token_sign(x: &Token, y: &Token) -> (r: i8)
    ensures
        r == token_order(x@, y@),
{
    match (x, y) {
        (Token::Num(a), Token::Num(b)) => numeric_sign(a.as_slice(), b.as_slice()),
        (Token::Text(a), Token::Text(b)) => lex_sign(a.as_slice(), b.as_slice()),
        (Token::Pre(a), Token::Pre(b)) => if *a < *b {
            -1
        } else if *a > *b {
            1
        } else {
            0
        },
        (Token::Pre(_), _) => -1,
        (_, Token::Pre(_)) => 1,
        (Token::Num(_), Token::Text(_)) => 1,
        (Token::Text(_), Token::Num(_)) => -1,
    }
}

fn version_sign(left: &[u8], right: &[u8]) -> (r: i8)
    ensures
        r == version_order(left@, right@),
{
    let (lt, lr) = tokenize(left);
    let (rt, rr) = tokenize(right);
    let ghost a = token_views(lt@);
    let ghost b = token_views(rt@);
    proof {
        lemma_token_order_total();
        lemma_padded_total(a, b, a, token_order_fn(), is_pre_fn());
        lemma_numeric_order(lr@, rr@, lr@);
    }
    let n = if lt.len() > rt.len() {
        lt.len()
    } else {
        rt.len()
    };
    let mut i: usize = 0;
    while i < n
        invariant
            i <= n,
            n == if lt.len() > rt.len() {
                lt.len()
            } else {
                rt.len()
            },
            a == token_views(lt@),
            b == token_views(rt@),
            a == version_tokens(revision_split(left@).0),
            b == version_tokens(revision_split(right@).0),
            padded_from(a, b, 0, token_order_fn(), is_pre_fn()) == padded_from(
                a,
                b,
                i as int,
                token_order_fn(),
                is_pre_fn(),
            ),
        decreases n - i,
    {
        if i < lt.len() && i < rt.len() {
            let c = token_sign(&lt[i], &rt[i]);
            assert(a[i as int] == lt@[i as int]@);
            assert(b[i as int] == rt@[i as int]@);
            assert(with_end(at(a, i as int), at(b, i as int), token_order_fn(), is_pre_fn())
                == c);
            if c != 0 {
                return c;
            }
        } else if i < rt.len() {
            assert(b[i as int] == rt@[i as int]@);
            assert(at(a, i as int) is None);
            return match &rt[i] {
                Token::Pre(_) => 1,
                _ => -1,
            };
        } else {
            assert(a[i as int] == lt@[i as int]@);
            assert(at(b, i as int) is None);
            return match &lt[i] {
                Token::Pre(_) => -1,
                _ => 1,
            };
        }
        i = i + 1;
    }
    numeric_sign(lr.as_slice(), rr.as_slice())
}

/// Kettle's local ordering for choosing the newest installed directory.
/// Homebrew remains authoritative for whether a package is actually outdated.
pub fn version_cmp(left: &str, right: &str) -> (o: Ordering)
    ensures
        ordering_sign(o) == version_order(left.spec_bytes(), right.spec_bytes()),
{
    proof {
        lemma_version_order_parts(left.spec_bytes(), right.spec_bytes(), left.spec_bytes());
    }
    ordering_of(version_sign(left.as_bytes(), right.as_bytes()))
}

} // verus!
