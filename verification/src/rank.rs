//! Ranking and ordering primitives.
//!
//! Two things live here, both hot and both easy to get subtly wrong:
//!   * `score`       -- fuzzy match scoring for the search box
//!   * `version_cmp` -- Homebrew-compatible version ordering
use crate::ascii::{digit_byte, fold_bytes, fold_slice, is_digit, is_lower, is_upper, lower_case_byte, upper_byte};
use crate::domain::version_order::{
    lemma_marker_word, lemma_no_revision, nat_order, pre_rank, pre_rank_of, prerelease_markers, revision_split,
    split_revision, split_words, vec_views, words, words_from,
};
use crate::order::{
    at, is_sign, is_total_order, is_total_preorder, lemma_lex, lemma_padded_skip_from, lemma_padded_total, lex,
    lex_sign, low_sorts_first, padded_from, then, with_end,
};
use crate::sign::{ordering_of, ordering_sign};
use std::cmp::Ordering;
use vstd::prelude::*;
use vstd::string::StringSliceAdditionalSpecFns;

verus! {

// ---- fuzzy matching ---------------------------------------------------------
// Weights follow fzf's model: matching is cheap, tight and boundary-aligned
// matching is what actually signals intent.
pub const SCORE_MATCH: i32 = 16;

pub const BONUS_BOUNDARY: i32 = 8;

pub const BONUS_CAMEL: i32 = 7;

pub const BONUS_CONSECUTIVE: i32 = 8;

pub const BONUS_FIRST_CHAR: i32 = 12;

pub const PENALTY_GAP_START: i32 = -3;

pub const PENALTY_GAP_EXTEND: i32 = -1;

/// Bytes that separate words in a package name.
pub open spec fn is_separator(b: u8) -> bool {
    b == 45 || b == 95 || b == 46 || b == 47 || b == 64 || b == 32 || b == 43
}

fn is_sep(b: u8) -> (r: bool)
    ensures
        r == is_separator(b),
{
    b == 45 || b == 95 || b == 46 || b == 47 || b == 64 || b == 32 || b == 43
}

/// Bonus for starting a match at `i`, judged from the preceding byte.
pub open spec fn bonus_at(hay: Seq<u8>, i: int) -> int {
    if i == 0 {
        BONUS_BOUNDARY + BONUS_FIRST_CHAR
    } else if is_separator(hay[i - 1]) {
        BONUS_BOUNDARY as int
    } else if is_lower(hay[i - 1]) && is_upper(hay[i]) {
        BONUS_CAMEL as int
    } else {
        0
    }
}

/// Where a match may start with a bonus: the first byte earns the boundary
/// and first-character bonuses; a byte after `-`, `_`, `.`, `/`, `@`, a space
/// or `+` starts a word and earns the boundary bonus; an uppercase letter
/// after a lowercase one earns the camelCase bonus; any other byte none.
pub proof fn word_starts_earn_bonuses(hay: Seq<u8>, i: int)
    requires
        0 <= i < hay.len(),
    ensures
        i == 0 ==> bonus_at(hay, i) == 20,
        i > 0 && (hay[i - 1] == 45u8 || hay[i - 1] == 95u8 || hay[i - 1] == 46u8 || hay[i - 1] == 47u8
            || hay[i - 1] == 64u8 || hay[i - 1] == 32u8 || hay[i - 1] == 43u8) ==> bonus_at(hay, i) == 8,
        i > 0 && !(hay[i - 1] == 45u8 || hay[i - 1] == 95u8 || hay[i - 1] == 46u8 || hay[i - 1] == 47u8
            || hay[i - 1] == 64u8 || hay[i - 1] == 32u8 || hay[i - 1] == 43u8) && (97 <= hay[i - 1] <= 122)
            && (65 <= hay[i] <= 90) ==> bonus_at(hay, i) == 7,
        i > 0 && !(hay[i - 1] == 45u8 || hay[i - 1] == 95u8 || hay[i - 1] == 46u8 || hay[i - 1] == 47u8
            || hay[i - 1] == 64u8 || hay[i - 1] == 32u8 || hay[i - 1] == 43u8) && !((97 <= hay[i - 1] <= 122)
            && (65 <= hay[i] <= 90)) ==> bonus_at(hay, i) == 0,
{
}

proof fn lemma_forward_first(c: u8, hay: Seq<u8>, i: int, j: int)
    requires
        0 <= j <= i < hay.len(),
        hay[i] == c,
        forall|k: int| 0 <= k < i ==> hay[k] != c,
    ensures
        forward_end(seq![c], hay, 1, j, 0) == Some(i),
    decreases i - j,
{
    if j < i {
        lemma_forward_first(c, hay, i, j + 1);
    }
}

/// A one-byte needle scores at its first occurrence in the haystack: a
/// match, plus the bonus for where it starts (see
/// `word_starts_earn_bonuses`), less the length penalty.
pub proof fn one_byte_needle_scores_its_first_match(c: u8, hay: Seq<u8>, raw: Seq<u8>, i: int)
    requires
        0 <= i < hay.len() <= usize::MAX,
        hay[i] == c,
        forall|k: int| 0 <= k < i ==> hay[k] != c,
    ensures
        match_score(seq![c], hay, raw) == Some(16 + bonus_at(raw, i) - length_penalty(hay.len() as int)),
{
    let needle = seq![c];
    lemma_forward_first(c, hay, i, 0);
    assert(match_len(needle) == 1);
    assert(backward_start(needle, hay, i, 1) == i);
    let pos0 = Seq::new(64, |j: int| 0usize);
    let pos = pos0.update(0, i as usize);
    assert(align_from(needle, hay, 1, i + 1, i, 1, pos) == pos);
    assert(align_from(needle, hay, 1, i, i, 0, pos0) == pos);
    assert(pos[0] as int == i);
    assert(alignment_score(pos, raw, 1, 1, Some(i), false) == 0);
}

proof fn lemma_forward_first_of_two(c: u8, d: u8, hay: Seq<u8>, i: int, j: int)
    requires
        0 <= j <= i,
        i + 1 < hay.len(),
        hay[i] == c,
        hay[i + 1] == d,
        forall|k: int| 0 <= k < i ==> hay[k] != c,
    ensures
        forward_end(seq![c, d], hay, 2, j, 0) == Some(i + 1),
    decreases i - j,
{
    if j < i {
        lemma_forward_first_of_two(c, d, hay, i, j + 1);
    } else {
        assert(forward_end(seq![c, d], hay, 2, i + 1, 1) == Some(i + 1));
    }
}

/// Adjacent matches earn the consecutive bonus: a two-byte needle whose
/// bytes stand side by side at the first occurrence of its first byte
/// scores two matches, the bonus for where it starts and the consecutive
/// bonus, less the length penalty.
pub proof fn adjacent_bytes_score_consecutively(c: u8, d: u8, hay: Seq<u8>, raw: Seq<u8>, i: int)
    requires
        0 <= i,
        i + 1 < hay.len() <= usize::MAX,
        hay[i] == c,
        hay[i + 1] == d,
        forall|k: int| 0 <= k < i ==> hay[k] != c,
    ensures
        match_score(seq![c, d], hay, raw) == Some(40 + bonus_at(raw, i) - length_penalty(hay.len() as int)),
{
    let needle = seq![c, d];
    lemma_forward_first_of_two(c, d, hay, i, 0);
    assert(match_len(needle) == 2);
    assert(backward_start(needle, hay, i, 1) == i);
    assert(backward_start(needle, hay, i + 1, 2) == i);
    let pos0 = Seq::new(64, |j: int| 0usize);
    let pos1 = pos0.update(0, i as usize);
    let pos = pos1.update(1, (i + 1) as usize);
    assert(align_from(needle, hay, 2, i + 2, i + 1, 2, pos) == pos);
    assert(align_from(needle, hay, 2, i + 1, i + 1, 1, pos1) == pos);
    assert(align_from(needle, hay, 2, i, i + 1, 0, pos0) == pos);
    assert(pos[0] as int == i);
    assert(pos[1] as int == i + 1);
    assert(alignment_score(pos, raw, 2, 2, Some(i + 1), false) == 0);
    assert(alignment_score(pos, raw, 2, 1, Some(i), false) == 24);
}

fn boundary_bonus(hay: &[u8], i: usize) -> (r: i32)
    requires
        i < hay.len(),
    ensures
        r == bonus_at(hay@, i as int),
{
    if i == 0 {
        return BONUS_BOUNDARY + BONUS_FIRST_CHAR;
    }
    let prev = hay[i - 1];
    if is_sep(prev) {
        BONUS_BOUNDARY
    } else if lower_case_byte(prev) && upper_byte(hay[i]) {
        BONUS_CAMEL
    } else {
        0
    }
}

/// How many needle bytes take part in matching: at most 64.
pub open spec fn match_len(needle: Seq<u8>) -> int {
    if needle.len() < 64 {
        needle.len() as int
    } else {
        64
    }
}

/// Greedy forward pass from `hay[i]` with `k` needle bytes consumed: the
/// index at which the first `n` needle bytes are all consumed.
pub open spec fn forward_end(needle: Seq<u8>, hay: Seq<u8>, n: int, i: int, k: int) -> Option<int>
    decreases hay.len() - i,
{
    if i < 0 || i >= hay.len() || k < 0 || k >= n || k >= needle.len() {
        None
    } else if hay[i] == needle[k] {
        if k + 1 == n {
            Some(i)
        } else {
            forward_end(needle, hay, n, i + 1, k + 1)
        }
    } else {
        forward_end(needle, hay, n, i + 1, k)
    }
}

/// Greedy backward pass down from `hay[i]` with `k` needle bytes left: the
/// latest start of a match, or 0 where none is found.
pub open spec fn backward_start(needle: Seq<u8>, hay: Seq<u8>, i: int, k: int) -> int
    decreases i + 1,
{
    if i < 0 || i >= hay.len() || k <= 0 || k > needle.len() {
        0
    } else if hay[i] == needle[k - 1] {
        if k == 1 {
            i
        } else {
            backward_start(needle, hay, i - 1, k - 1)
        }
    } else {
        backward_start(needle, hay, i - 1, k)
    }
}

/// Greedy alignment inside `hay[i..=end]`: records in `pos` where each
/// needle byte matched.
pub open spec fn align_from(
    needle: Seq<u8>,
    hay: Seq<u8>,
    n: int,
    i: int,
    end: int,
    k: int,
    pos: Seq<usize>,
) -> Seq<usize>
    decreases end + 1 - i,
{
    if i < 0 || i > end || i >= hay.len() {
        pos
    } else if 0 <= k < n && k < needle.len() && k < pos.len() && hay[i] == needle[k] {
        align_from(needle, hay, n, i + 1, end, k + 1, pos.update(k, i as usize))
    } else {
        align_from(needle, hay, n, i + 1, end, k, pos)
    }
}

/// The score of an alignment from its `k`-th matched byte on, given the
/// previous matched index and whether the previous step left a gap.
pub open spec fn alignment_score(
    pos: Seq<usize>,
    raw: Seq<u8>,
    n: int,
    k: int,
    prev: Option<int>,
    in_gap: bool,
) -> int
    decreases n - k,
{
    if k < 0 || k >= n || k >= pos.len() {
        0
    } else {
        let i = pos[k] as int;
        match prev {
            Some(p) => if i == p + 1 {
                SCORE_MATCH + BONUS_CONSECUTIVE + alignment_score(
                    pos,
                    raw,
                    n,
                    k + 1,
                    Some(i),
                    false,
                )
            } else {
                SCORE_MATCH + (if in_gap {
                    PENALTY_GAP_EXTEND as int
                } else {
                    PENALTY_GAP_START as int
                }) + bonus_at(raw, i) + alignment_score(pos, raw, n, k + 1, Some(i), true)
            },
            None => SCORE_MATCH + bonus_at(raw, i) + alignment_score(
                pos,
                raw,
                n,
                k + 1,
                Some(i),
                in_gap,
            ),
        }
    }
}

/// Integer division rounding toward zero, as Rust's `/` on signed integers.
pub open spec fn div_toward_zero(a: int, d: int) -> int {
    if a >= 0 {
        a / d
    } else {
        -((-a) / d)
    }
}

/// A length as Rust's `as i32` gives it: its low 32 bits, two's complement.
pub open spec fn wrap_i32(len: int) -> int {
    let m = len % 4294967296;
    if m >= 2147483648 {
        m - 4294967296
    } else {
        m
    }
}

/// What a haystack's length costs: `(len as i32) / 8`.
pub open spec fn length_penalty(len: int) -> int {
    div_toward_zero(wrap_i32(len), 8)
}

/// The fuzzy score of `needle` against `hay` (see `score`).
pub open spec fn match_score(needle: Seq<u8>, hay: Seq<u8>, raw: Seq<u8>) -> Option<int> {
    if needle.len() == 0 {
        Some(0)
    } else if needle.len() > hay.len() {
        None
    } else if needle.len() > 64 && forward_end(needle, hay, needle.len() as int, 0, 0) is None {
        None
    } else {
        let n = match_len(needle);
        match forward_end(needle, hay, n, 0, 0) {
            None => None,
            Some(end) => {
                let start = backward_start(needle, hay, end, n);
                let pos = align_from(needle, hay, n, start, end, 0, Seq::new(64, |j: int| 0usize));
                Some(alignment_score(pos, raw, n, 0, None, false) - length_penalty(hay.len() as int))
            },
        }
    }
}

proof fn lemma_alignment_score_bounds(
    pos: Seq<usize>,
    raw: Seq<u8>,
    n: int,
    k: int,
    prev: Option<int>,
    in_gap: bool,
)
    requires
        0 <= k,
    ensures
        0 <= alignment_score(pos, raw, n, k, prev, in_gap) <= 36 * (if n > k {
            n - k
        } else {
            0
        }),
    decreases n - k,
{
    if k < n && k < pos.len() {
        let i = pos[k] as int;
        lemma_alignment_score_bounds(pos, raw, n, k + 1, Some(i), true);
        lemma_alignment_score_bounds(pos, raw, n, k + 1, Some(i), false);
        lemma_alignment_score_bounds(pos, raw, n, k + 1, Some(i), in_gap);
    }
}

/// Whether the whole of the non-empty `needle` is a subsequence of `hay`:
/// the greedy forward pass consumes every needle byte.
fn whole_needle_matches(needle: &[u8], hay: &[u8]) -> (r: bool)
    requires
        needle.len() > 0,
    ensures
        r == forward_end(needle@, hay@, needle.len() as int, 0, 0) is Some,
{
    let n = needle.len();
    let mut k: usize = 0;
    let mut i: usize = 0;
    while i < hay.len()
        invariant
            n == needle.len(),
            k < n,
            i <= hay.len(),
            forward_end(needle@, hay@, n as int, 0, 0) == forward_end(needle@, hay@, n as int, i as int, k as int),
        decreases hay.len() - i,
    {
        if hay[i] == needle[k] {
            if k + 1 == n {
                return true;
            }
            k = k + 1;
        }
        i = i + 1;
    }
    false
}

/// Score `needle` against `hay`. Both must already be lowercased ASCII-folded
/// (see `fold`), except `raw`, the same haystack with its case kept for
/// camelCase bonuses.
///
/// Returns `None` if `needle` is not a subsequence of `hay`. The alignment
/// and its score use the needle's first 64 bytes.
///
/// A forward greedy pass finds the earliest index at which the needle is fully
/// consumed; a backward greedy pass from there finds the latest feasible
/// start; the needle is aligned greedily inside that window and the alignment
/// scored. Longer haystacks lose a little, so shorter ones win ties.
pub fn score(needle: &[u8], hay: &[u8], raw: &[u8]) -> (r: Option<i32>)
    requires
        hay.len() <= raw.len(),
    ensures
        match r {
            Some(v) => match_score(needle@, hay@, raw@) == Some(v as int),
            None => match_score(needle@, hay@, raw@) is None,
        },
        r is Some <==> (needle@.len() <= hay@.len() && is_subsequence(needle@, hay@)),
{
    proof {
        score_is_none_iff_no_subsequence(needle@, hay@, raw@);
    }
    if needle.len() == 0 {
        return Some(0);
    }
    if needle.len() > hay.len() {
        return None;
    }
    if needle.len() > 64 && !whole_needle_matches(needle, hay) {
        return None;
    }
    let n: usize = if needle.len() < 64 {
        needle.len()
    } else {
        64
    };
    // Forward: earliest end of a feasible match.
    let mut k: usize = 0;
    let mut i: usize = 0;
    let mut end: usize = 0;
    let mut found = false;
    while i < hay.len() && !found
        invariant
            n == match_len(needle@),
            0 < n <= needle.len(),
            k < n,
            i <= hay.len(),
            found ==> end < hay.len() && forward_end(needle@, hay@, n as int, 0, 0) == Some(
                end as int,
            ),
            !found ==> forward_end(needle@, hay@, n as int, 0, 0) == forward_end(
                needle@,
                hay@,
                n as int,
                i as int,
                k as int,
            ),
        decreases hay.len() - i,
    {
        if hay[i] == needle[k] {
            if k + 1 == n {
                end = i;
                found = true;
            } else {
                k = k + 1;
            }
        }
        i = i + 1;
    }
    if !found {
        return None;
    }
    // Backward from that end: latest feasible start.
    let mut k: usize = n;
    let mut start: usize = 0;
    let mut i: usize = end + 1;
    let mut done = false;
    while i > 0 && !done
        invariant
            0 < n <= needle.len(),
            end < hay.len(),
            i <= end + 1,
            0 < k <= n,
            start <= end,
            !done ==> start == 0,
            done ==> backward_start(needle@, hay@, end as int, n as int) == start as int,
            !done ==> backward_start(needle@, hay@, end as int, n as int) == backward_start(
                needle@,
                hay@,
                i - 1,
                k as int,
            ),
        decreases i,
    {
        let j = i - 1;
        if hay[j] == needle[k - 1] {
            if k == 1 {
                start = j;
                done = true;
            } else {
                k = k - 1;
            }
        }
        i = i - 1;
    }
    assert(backward_start(needle@, hay@, end as int, n as int) == start as int);
    // Align greedily inside the minimal window.
    let mut pos: Vec<usize> = vec![0usize; 64];
    let ghost pos0 = pos@;
    assert(pos0 =~= Seq::new(64, |j: int| 0usize));
    let mut k: usize = 0;
    let mut i: usize = start;
    while i <= end
        invariant
            0 < n <= needle.len(),
            n <= 64,
            end < hay.len(),
            start <= i <= end + 1,
            k <= n,
            pos@.len() == 64,
            forall|j: int| 0 <= j < 64 ==> pos@[j] <= end,
            align_from(needle@, hay@, n as int, start as int, end as int, 0, pos0) == align_from(
                needle@,
                hay@,
                n as int,
                i as int,
                end as int,
                k as int,
                pos@,
            ),
        decreases end + 1 - i,
    {
        if k < n && hay[i] == needle[k] {
            pos.set(k, i);
            k = k + 1;
        }
        i = i + 1;
    }
    let ghost aligned = pos@;
    // Score the alignment.
    let mut total: i32 = 0;
    let mut prev: Option<usize> = None;
    let mut in_gap = false;
    let mut k: usize = 0;
    proof {
        lemma_alignment_score_bounds(aligned, raw@, n as int, 0, None, false);
    }
    while k < n
        invariant
            0 < n <= 64,
            k <= n,
            pos@ == aligned,
            pos@.len() == 64,
            end < hay.len() <= raw.len(),
            forall|j: int| 0 <= j < 64 ==> pos@[j] <= end,
            0 <= total <= 36 * k,
            match prev {
                Some(p) => p <= end,
                None => true,
            },
            k == 0 ==> prev is None && !in_gap,
            total + alignment_score(
                aligned,
                raw@,
                n as int,
                k as int,
                match prev {
                    Some(p) => Some(p as int),
                    None => None,
                },
                in_gap,
            ) == alignment_score(aligned, raw@, n as int, 0, None, false),
        decreases n - k,
    {
        let i = pos[k];
        let ghost old_prev = match prev {
            Some(p) => Some(p as int),
            None => None::<int>,
        };
        proof {
            lemma_alignment_score_bounds(aligned, raw@, n as int, k + 1, Some(i as int), true);
            lemma_alignment_score_bounds(aligned, raw@, n as int, k + 1, Some(i as int), false);
        }
        total = total + SCORE_MATCH;
        match prev {
            Some(p) => {
                if i == p + 1 {
                    total = total + BONUS_CONSECUTIVE;
                    in_gap = false;
                } else {
                    if in_gap {
                        total = total + PENALTY_GAP_EXTEND;
                    } else {
                        total = total + PENALTY_GAP_START;
                    }
                    in_gap = true;
                    total = total + boundary_bonus(raw, i);
                }
            },
            None => {
                total = total + boundary_bonus(raw, i);
            },
        }
        prev = Some(i);
        k = k + 1;
    }
    // Prefer shorter haystacks: `(hay.len() as i32) / 8`.
    let m: u64 = (hay.len() as u64) % 4294967296;
    let wrapped: i64 = if m >= 2147483648 {
        m as i64 - 4294967296
    } else {
        m as i64
    };
    let penalty: i64 = if wrapped >= 0 {
        wrapped / 8
    } else {
        -((-wrapped) / 8)
    };
    Some((total as i64 - penalty) as i32)
}

/// ASCII-lowercase fold used for both needle and haystack.
pub fn fold(s: &str) -> (r: Vec<u8>)
    ensures
        r@ == fold_bytes(s.spec_bytes()),
{
    fold_slice(s.as_bytes())
}

// ---- the law behind `None` -------------------------------------------------------

/// `p` places `s[k..n]` in increasing positions of `t` at or after `from`.
pub open spec fn places(p: Seq<int>, s: Seq<u8>, k: int, n: int, t: Seq<u8>, from: int) -> bool {
    &&& p.len() == n - k
    &&& forall|j: int| 0 <= j < p.len() ==> from <= #[trigger] p[j] < t.len()
    &&& forall|j: int| 0 <= j < p.len() ==> t[#[trigger] p[j]] == s[k + j]
    &&& forall|a: int, b: int| 0 <= a < b < p.len() ==> #[trigger] p[a] < #[trigger] p[b]
}

/// `s` is a subsequence of `t`.
pub open spec fn is_subsequence(s: Seq<u8>, t: Seq<u8>) -> bool {
    exists|p: Seq<int>| places(p, s, 0, s.len() as int, t, 0)
}

proof fn lemma_forward_end_sound(needle: Seq<u8>, hay: Seq<u8>, n: int, i: int, k: int) -> (p: Seq<
    int,
>)
    requires
        0 <= i,
        0 <= k < n <= needle.len(),
        forward_end(needle, hay, n, i, k) is Some,
    ensures
        places(p, needle, k, n, hay, i),
    decreases hay.len() - i,
{
    if hay[i] == needle[k] {
        if k + 1 == n {
            let p = seq![i];
            assert(places(p, needle, k, n, hay, i));
            p
        } else {
            let q = lemma_forward_end_sound(needle, hay, n, i + 1, k + 1);
            let p = seq![i] + q;
            assert forall|j: int| 0 <= j < p.len() implies i <= #[trigger] p[j] < hay.len() by {
                if j > 0 {
                    assert(p[j] == q[j - 1]);
                }
            }
            assert forall|j: int| 0 <= j < p.len() implies hay[#[trigger] p[j]] == needle[k
                + j] by {
                if j > 0 {
                    assert(p[j] == q[j - 1]);
                }
            }
            assert forall|a: int, b: int| 0 <= a < b < p.len() implies #[trigger] p[a]
                < #[trigger] p[b] by {
                assert(p[b] == q[b - 1]);
                if a > 0 {
                    assert(p[a] == q[a - 1]);
                }
            }
            p
        }
    } else {
        lemma_forward_end_sound(needle, hay, n, i + 1, k)
    }
}

proof fn lemma_forward_end_complete(
    needle: Seq<u8>,
    hay: Seq<u8>,
    n: int,
    i: int,
    k: int,
    p: Seq<int>,
)
    requires
        0 <= i,
        0 <= k < n <= needle.len(),
        places(p, needle, k, n, hay, i),
    ensures
        forward_end(needle, hay, n, i, k) is Some,
    decreases hay.len() - i,
{
    assert(p[0] >= i);
    assert(hay[p[0]] == needle[k + 0]);
    if hay[i] == needle[k] {
        if k + 1 < n {
            let q = p.subrange(1, p.len() as int);
            assert forall|j: int| 0 <= j < q.len() implies i + 1 <= #[trigger] q[j] < hay.len() by {
                assert(q[j] == p[j + 1]);
                assert(p[0] < p[j + 1]);
            }
            assert forall|j: int| 0 <= j < q.len() implies hay[#[trigger] q[j]] == needle[(k + 1)
                + j] by {
                assert(q[j] == p[j + 1]);
            }
            assert forall|a: int, b: int| 0 <= a < b < q.len() implies #[trigger] q[a]
                < #[trigger] q[b] by {
                assert(q[a] == p[a + 1]);
                assert(q[b] == p[b + 1]);
            }
            lemma_forward_end_complete(needle, hay, n, i + 1, k + 1, q);
        }
    } else {
        assert(p[0] != i);
        assert forall|j: int| 0 <= j < p.len() implies i + 1 <= #[trigger] p[j] < hay.len() by {
            if j > 0 {
                assert(p[0] < p[j]);
            }
        }
        lemma_forward_end_complete(needle, hay, n, i + 1, k, p);
    }
}

/// `score` answers `None` exactly when the needle is not a subsequence of
/// the haystack (a needle longer than the haystack never is).
pub proof fn score_is_none_iff_no_subsequence(needle: Seq<u8>, hay: Seq<u8>, raw: Seq<u8>)
    ensures
        match_score(needle, hay, raw) is Some <==> (needle.len() <= hay.len() && is_subsequence(needle, hay)),
{
    let n = match_len(needle);
    if needle.len() == 0 {
        let p = Seq::<int>::empty();
        assert(places(p, needle, 0, 0, hay, 0));
    } else if needle.len() <= hay.len() {
        let full = needle.len() as int;
        if forward_end(needle, hay, full, 0, 0) is Some {
            let p = lemma_forward_end_sound(needle, hay, full, 0, 0);
            assert(is_subsequence(needle, hay));
            // the first `n` bytes are then placed too
            let q = p.take(n);
            assert forall|j: int| 0 <= j < q.len() implies 0 <= #[trigger] q[j] < hay.len() by {
                assert(q[j] == p[j]);
            }
            assert forall|j: int| 0 <= j < q.len() implies hay[#[trigger] q[j]] == needle[0 + j] by {
                assert(q[j] == p[j]);
            }
            assert forall|a: int, b: int| 0 <= a < b < q.len() implies #[trigger] q[a] < #[trigger] q[b] by {
                assert(q[a] == p[a] && q[b] == p[b]);
            }
            assert(places(q, needle, 0, n, hay, 0));
            lemma_forward_end_complete(needle, hay, n, 0, 0, q);
            assert(match_score(needle, hay, raw) is Some);
        } else {
            if is_subsequence(needle, hay) {
                let p = choose|p: Seq<int>| places(p, needle, 0, needle.len() as int, hay, 0);
                lemma_forward_end_complete(needle, hay, full, 0, 0, p);
            }
            assert(!is_subsequence(needle, hay));
            if needle.len() <= 64 {
                assert(n == full);
            }
            assert(match_score(needle, hay, raw) is None);
        }
    }
}

/// The empty needle matches every haystack with score 0.
pub proof fn empty_needle_scores_zero(hay: Seq<u8>, raw: Seq<u8>)
    ensures
        match_score(Seq::empty(), hay, raw) == Some(0int),
{
}

// ---- version ordering -------------------------------------------------------

/// A comparable part of a version, numbers held by value.
pub enum RankToken {
    Pre(nat),
    Num(nat),
    Text(Seq<u8>),
}

/// The value of a string of decimal digits.
pub open spec fn digits_value(d: Seq<u8>) -> nat
    decreases d.len(),
{
    if d.len() == 0 {
        0
    } else {
        digits_value(d.drop_last()) * 10 + (d.last() - 48) as nat
    }
}

/// A number word's value, saturated at `u64::MAX` rather than wrapped.
pub open spec fn saturated(d: Seq<u8>) -> nat {
    if digits_value(d) > u64::MAX {
        u64::MAX as nat
    } else {
        digits_value(d)
    }
}

pub open spec fn rank_word_token(w: Seq<u8>) -> RankToken {
    if w.len() > 0 && is_digit(w[0]) {
        RankToken::Num(saturated(w))
    } else {
        match pre_rank(fold_bytes(w)) {
            Some(r) => RankToken::Pre(r),
            None => RankToken::Text(fold_bytes(w)),
        }
    }
}

pub open spec fn rank_word_token_fn() -> spec_fn(Seq<u8>) -> RankToken {
    |w: Seq<u8>| rank_word_token(w)
}

pub open spec fn rank_tokens(base: Seq<u8>) -> Seq<RankToken> {
    words(base).map_values(rank_word_token_fn())
}

/// The revision's value; one too large for `u64` counts as 0.
pub open spec fn rank_revision(b: Seq<u8>) -> nat {
    match revision_split(b).1 {
        Some(r) => if digits_value(r) > u64::MAX {
            0
        } else {
            digits_value(r)
        },
        None => 0,
    }
}

pub open spec fn rank_token_order(x: RankToken, y: RankToken) -> int {
    match (x, y) {
        (RankToken::Num(a), RankToken::Num(b)) => nat_order(a, b),
        (RankToken::Text(a), RankToken::Text(b)) => lex(a, b),
        (RankToken::Pre(a), RankToken::Pre(b)) => nat_order(a, b),
        (RankToken::Pre(_), _) => -1,
        (_, RankToken::Pre(_)) => 1,
        (RankToken::Num(_), RankToken::Text(_)) => 1,
        (RankToken::Text(_), RankToken::Num(_)) => -1,
    }
}

pub open spec fn rank_token_order_fn() -> spec_fn(RankToken, RankToken) -> int {
    |x: RankToken, y: RankToken| rank_token_order(x, y)
}

pub open spec fn rank_is_pre_fn() -> spec_fn(RankToken) -> bool {
    |t: RankToken| t is Pre
}

/// The order of two version strings (as bytes) that `version_cmp` computes.
pub open spec fn rank_version_order(a: Seq<u8>, b: Seq<u8>) -> int {
    then(
        padded_from(
            rank_tokens(revision_split(a).0),
            rank_tokens(revision_split(b).0),
            0,
            rank_token_order_fn(),
            rank_is_pre_fn(),
        ),
        nat_order(rank_revision(a), rank_revision(b)),
    )
}

/// Pre-release markers order versions here too: where two versions without
/// a revision agree word for word up to a word that is a pre-release marker
/// in both, the one with the earlier marker (alpha, beta, pre, rc; any case)
/// is the older, whatever follows.
pub proof fn rank_earlier_prerelease_is_older(x: Seq<u8>, y: Seq<u8>, k: int, i: int, j: int)
    requires
        forall|n: int| 0 <= n < x.len() ==> x[n] != 95u8,
        forall|n: int| 0 <= n < y.len() ==> y[n] != 95u8,
        0 <= k < words(x).len(),
        k < words(y).len(),
        forall|n: int| 0 <= n < k ==> words(x)[n] == words(y)[n],
        0 <= i < j < 4,
        fold_bytes(words(x)[k]) == prerelease_markers()[i],
        fold_bytes(words(y)[k]) == prerelease_markers()[j],
    ensures
        rank_version_order(x, y) < 0,
        rank_version_order(y, x) > 0,
{
    lemma_no_revision(x);
    lemma_no_revision(y);
    let tx = rank_tokens(x);
    let ty = rank_tokens(y);
    lemma_rank_token_order_total();
    let f = rank_token_order_fn();
    assert forall|t: RankToken| #[trigger] f(t, t) == 0 by {
        assert(f(t, t) == 0 <==> t == t);
    }
    assert forall|n: int| 0 <= n < k implies tx[n] == ty[n] by {
        assert(words(x)[n] == words(y)[n]);
    }
    lemma_padded_skip_from(tx, ty, 0, k, f, rank_is_pre_fn());
    lemma_padded_skip_from(ty, tx, 0, k, f, rank_is_pre_fn());
    lemma_marker_word(words(x)[k], i);
    lemma_marker_word(words(y)[k], j);
    assert(tx[k] == RankToken::Pre(i as nat));
    assert(ty[k] == RankToken::Pre(j as nat));
    assert(at(tx, k) == Some(tx[k]));
    assert(at(ty, k) == Some(ty[k]));
}

/// A release is newer than its pre-releases here too: where a version
/// without a revision has exactly the first `k` words of another, whose
/// next word is a pre-release marker, the shorter one is the newer.
pub proof fn rank_release_is_newer_than_its_prereleases(x: Seq<u8>, y: Seq<u8>, k: int, j: int)
    requires
        forall|n: int| 0 <= n < x.len() ==> x[n] != 95u8,
        forall|n: int| 0 <= n < y.len() ==> y[n] != 95u8,
        words(x).len() == k,
        k < words(y).len(),
        forall|n: int| 0 <= n < k ==> words(x)[n] == words(y)[n],
        0 <= j < 4,
        fold_bytes(words(y)[k]) == prerelease_markers()[j],
    ensures
        rank_version_order(x, y) > 0,
        rank_version_order(y, x) < 0,
{
    lemma_no_revision(x);
    lemma_no_revision(y);
    let tx = rank_tokens(x);
    let ty = rank_tokens(y);
    lemma_rank_token_order_total();
    let f = rank_token_order_fn();
    assert forall|t: RankToken| #[trigger] f(t, t) == 0 by {
        assert(f(t, t) == 0 <==> t == t);
    }
    assert forall|n: int| 0 <= n < k implies tx[n] == ty[n] by {
        assert(words(x)[n] == words(y)[n]);
    }
    lemma_padded_skip_from(tx, ty, 0, k, f, rank_is_pre_fn());
    lemma_padded_skip_from(ty, tx, 0, k, f, rank_is_pre_fn());
    lemma_marker_word(words(y)[k], j);
    assert(ty[k] == RankToken::Pre(j as nat));
    assert(at(tx, k) == Option::<RankToken>::None);
    assert(at(ty, k) == Some(ty[k]));
}

proof fn lemma_rank_token_order_total()
    ensures
        is_total_order(rank_token_order_fn()),
        low_sorts_first(rank_token_order_fn(), rank_is_pre_fn()),
{
    let f = rank_token_order_fn();
    assert forall|x: RankToken, y: RankToken| #[trigger] f(x, y) == -f(y, x) && is_sign(f(x, y))
        && (f(x, y) == 0 <==> x == y) by {
        match (x, y) {
            (RankToken::Text(a), RankToken::Text(b)) => lemma_lex(a, b, a),
            _ => {},
        }
    }
    assert forall|x: RankToken, y: RankToken, z: RankToken|
        #[trigger] f(x, y) < 0 && #[trigger] f(y, z) < 0 implies f(x, z) < 0 by {
        match (x, y, z) {
            (RankToken::Text(a), RankToken::Text(b), RankToken::Text(c)) => lemma_lex(a, b, c),
            _ => {},
        }
    }
}

proof fn lemma_rank_order_parts(a: Seq<u8>, b: Seq<u8>, c: Seq<u8>)
    ensures
        rank_version_order(a, b) == -rank_version_order(b, a),
        is_sign(rank_version_order(a, b)),
        rank_version_order(a, b) <= 0 && rank_version_order(b, c) <= 0 ==> rank_version_order(
            a,
            c,
        ) <= 0,
        rank_version_order(a, b) < 0 && rank_version_order(b, c) <= 0 ==> rank_version_order(
            a,
            c,
        ) < 0,
{
    let ta = rank_tokens(revision_split(a).0);
    let tb = rank_tokens(revision_split(b).0);
    let tc = rank_tokens(revision_split(c).0);
    lemma_rank_token_order_total();
    lemma_padded_total(ta, tb, tc, rank_token_order_fn(), rank_is_pre_fn());
    lemma_padded_total(tb, tc, ta, rank_token_order_fn(), rank_is_pre_fn());
    lemma_padded_total(ta, tc, tb, rank_token_order_fn(), rank_is_pre_fn());
}

/// Ordering must be a total order, or sorting by it can panic or corrupt:
/// swapping the arguments of `version_cmp` reverses its result.
pub proof fn rank_version_cmp_is_antisymmetric(a: &str, b: &str)
    ensures
        rank_version_order(a.spec_bytes(), b.spec_bytes()) == -rank_version_order(
            b.spec_bytes(),
            a.spec_bytes(),
        ),
{
    lemma_rank_order_parts(a.spec_bytes(), b.spec_bytes(), a.spec_bytes());
}

/// `version_cmp` is transitive, strictly where either premise is strict.
pub proof fn rank_version_cmp_is_transitive(a: &str, b: &str, c: &str)
    ensures
        rank_version_order(a.spec_bytes(), b.spec_bytes()) <= 0 && rank_version_order(
            b.spec_bytes(),
            c.spec_bytes(),
        ) <= 0 ==> rank_version_order(a.spec_bytes(), c.spec_bytes()) <= 0,
        rank_version_order(a.spec_bytes(), b.spec_bytes()) < 0 && rank_version_order(
            b.spec_bytes(),
            c.spec_bytes(),
        ) <= 0 ==> rank_version_order(a.spec_bytes(), c.spec_bytes()) < 0,
        rank_version_order(a.spec_bytes(), b.spec_bytes()) <= 0 && rank_version_order(
            b.spec_bytes(),
            c.spec_bytes(),
        ) < 0 ==> rank_version_order(a.spec_bytes(), c.spec_bytes()) < 0,
{
    let (x, y, z) = (a.spec_bytes(), b.spec_bytes(), c.spec_bytes());
    lemma_rank_order_parts(x, y, z);
    lemma_rank_order_parts(y, z, x);
    lemma_rank_order_parts(z, x, y);
    lemma_rank_order_parts(x, z, y);
    lemma_rank_order_parts(z, y, x);
    lemma_rank_order_parts(y, x, z);
}

/// Every version equals itself under `version_cmp`.
pub proof fn rank_version_cmp_is_reflexive(a: &str)
    ensures
        rank_version_order(a.spec_bytes(), a.spec_bytes()) == 0,
{
    lemma_rank_order_parts(a.spec_bytes(), a.spec_bytes(), a.spec_bytes());
}

/// The rank order is a total preorder over byte strings.
pub proof fn lemma_rank_version_order_total()
    ensures
        is_total_preorder(|x: Seq<u8>, y: Seq<u8>| rank_version_order(x, y)),
{
    let f = |x: Seq<u8>, y: Seq<u8>| rank_version_order(x, y);
    assert forall|x: Seq<u8>, y: Seq<u8>| #[trigger] f(x, y) == -f(y, x) && is_sign(f(x, y)) by {
        lemma_rank_order_parts(x, y, x);
    }
    assert forall|x: Seq<u8>, y: Seq<u8>, z: Seq<u8>|
        #[trigger] f(x, y) <= 0 && #[trigger] f(y, z) <= 0 implies f(x, z) <= 0 by {
        lemma_rank_order_parts(x, y, z);
    }
}

/// The value of the digit string `d`, and whether it exceeds `u64::MAX`.
fn parse_digits(d: &[u8]) -> (r: (u64, bool))
    requires
        forall|k: int| 0 <= k < d.len() ==> is_digit(#[trigger] d@[k]),
    ensures
        r.1 <==> digits_value(d@) > u64::MAX,
        !r.1 ==> r.0 == digits_value(d@),
{
    let mut value: u64 = 0;
    let mut over = false;
    let mut i: usize = 0;
    while i < d.len()
        invariant
            i <= d.len(),
            forall|k: int| 0 <= k < d.len() ==> is_digit(#[trigger] d@[k]),
            over <==> digits_value(d@.take(i as int)) > u64::MAX,
            !over ==> value == digits_value(d@.take(i as int)),
        decreases d.len() - i,
    {
        let digit = d[i] - 48;
        assert(d@.take(i + 1).drop_last() =~= d@.take(i as int));
        assert(d@.take(i + 1).last() == d@[i as int]);
        if !over {
            match value.checked_mul(10) {
                Some(m) => match m.checked_add(digit as u64) {
                    Some(v) => {
                        value = v;
                    },
                    None => {
                        over = true;
                    },
                },
                None => {
                    over = true;
                },
            }
        }
        i = i + 1;
    }
    assert(d@.take(d.len() as int) =~= d@);
    (value, over)
}

enum Tok {
    Pre(u8),
    Num(u64),
    Str(Vec<u8>),
}

impl View for Tok {
    type V = RankToken;

    closed spec fn view(&self) -> RankToken {
        match self {
            Tok::Pre(r) => RankToken::Pre(*r as nat),
            Tok::Num(v) => RankToken::Num(*v as nat),
            Tok::Str(t) => RankToken::Text(t@),
        }
    }
}

spec fn tok_views(s: Seq<Tok>) -> Seq<RankToken> {
    s.map_values(|t: Tok| t@)
}

fn make_tok(w: &[u8]) -> (t: Tok)
    requires
        w.len() > 0 && is_digit(w@[0]) ==> forall|k: int| 0 <= k < w.len() ==> is_digit(
            #[trigger] w@[k],
        ),
    ensures
        t@ == rank_word_token(w@),
{
    if w.len() > 0 && digit_byte(w[0]) {
        let (value, over) = parse_digits(w);
        if over {
            Tok::Num(u64::MAX)
        } else {
            Tok::Num(value)
        }
    } else {
        let folded = fold_slice(w);
        match pre_rank_of(folded.as_slice()) {
            Some(r) => Tok::Pre(r),
            None => Tok::Str(folded),
        }
    }
}

proof fn lemma_words_are_runs(b: Seq<u8>, i: int)
    requires
        0 <= i <= b.len(),
    ensures
        forall|j: int|
            0 <= j < words_from(b, i).len() ==> {
                let w = #[trigger] words_from(b, i)[j];
                w.len() > 0 && (is_digit(w[0]) ==> forall|k: int|
                    0 <= k < w.len() ==> is_digit(#[trigger] w[k]))
            },
    decreases b.len() - i,
{
    if i < b.len() {
        if !crate::ascii::is_alnum(b[i]) {
            lemma_words_are_runs(b, i + 1);
            assert(words_from(b, i) == words_from(b, i + 1));
        } else {
            let d = is_digit(b[i]);
            let e = crate::domain::version_order::run_end(b, i, d);
            crate::domain::version_order::lemma_run_end(b, i, d);
            crate::domain::version_order::lemma_run_end(b, i + 1, d);
            lemma_words_are_runs(b, e);
            let rest = words_from(b, e);
            let all = words_from(b, i);
            assert(all == seq![b.subrange(i, e)] + rest);
            assert forall|j: int| 0 <= j < all.len() implies {
                let w = #[trigger] all[j];
                w.len() > 0 && (is_digit(w[0]) ==> forall|k: int|
                    0 <= k < w.len() ==> is_digit(#[trigger] w[k]))
            } by {
                if j > 0 {
                    assert(all[j] == rest[j - 1]);
                } else {
                    let w = all[0];
                    assert(w == b.subrange(i, e));
                    assert(e > i);
                    assert(w[0] == b[i]);
                    if is_digit(w[0]) {
                        assert forall|k: int| 0 <= k < w.len() implies is_digit(
                            #[trigger] w[k],
                        ) by {
                            assert(w[k] == b[i + k]);
                        }
                    }
                }
            }
        }
    }
}


fn rank_tokenize(value: &[u8]) -> (res: (Vec<Tok>, u64))
    ensures
        tok_views(res.0@) == rank_tokens(revision_split(value@).0),
        res.1 == rank_revision(value@),
{
    let (base_len, rev_start) = split_revision(value);
    let mut revision: u64 = 0;
    match rev_start {
        Some(s) => {
            let digits = crate::ascii::copy_range(value, s, value.len());
            let (v, over) = parse_digits(digits.as_slice());
            if !over {
                revision = v;
            }
        },
        None => {},
    }
    let base = crate::ascii::copy_range(value, 0, base_len);
    let ws = split_words(base.as_slice());
    proof {
        lemma_words_are_runs(base@, 0);
    }
    let mut tokens: Vec<Tok> = Vec::new();
    let mut i: usize = 0;
    while i < ws.len()
        invariant
            i <= ws.len(),
            vec_views(ws@) == words(base@),
            forall|j: int|
                0 <= j < words(base@).len() ==> {
                    let w = #[trigger] words(base@)[j];
                    w.len() > 0 && (is_digit(w[0]) ==> forall|k: int|
                        0 <= k < w.len() ==> is_digit(#[trigger] w[k]))
                },
            tok_views(tokens@) =~= vec_views(ws@).take(i as int).map_values(rank_word_token_fn()),
        decreases ws.len() - i,
    {
        assert(vec_views(ws@)[i as int] == ws@[i as int]@);
        let t = make_tok(ws[i].as_slice());
        let ghost old_views = tok_views(tokens@);
        tokens.push(t);
        assert(tok_views(tokens@) =~= old_views.push(t@));
        assert(vec_views(ws@).take(i + 1).map_values(rank_word_token_fn()) =~= vec_views(
            ws@,
        ).take(i as int).map_values(rank_word_token_fn()).push(rank_word_token(ws@[i as int]@)));
        i = i + 1;
    }
    assert(vec_views(ws@).take(i as int) =~= vec_views(ws@));
    (tokens, revision)
}

fn nat_sign(a: u64, b: u64) -> (r: i8)
    ensures
        r == nat_order(a as nat, b as nat),
{
    if a < b {
        -1
    } else if a > b {
        1
    } else {
        0
    }
}

fn tok_sign(x: &Tok, y: &Tok) -> (r: i8)
    ensures
        r == rank_token_order(x@, y@),
{
    match (x, y) {
        (Tok::Num(a), Tok::Num(b)) => nat_sign(*a, *b),
        (Tok::Str(a), Tok::Str(b)) => lex_sign(a.as_slice(), b.as_slice()),
        (Tok::Pre(a), Tok::Pre(b)) => nat_sign(*a as u64, *b as u64),
        (Tok::Pre(_), _) => -1,
        (_, Tok::Pre(_)) => 1,
        (Tok::Num(_), Tok::Str(_)) => 1,
        (Tok::Str(_), Tok::Num(_)) => -1,
    }
}

pub(crate) fn rank_version_sign(left: &[u8], right: &[u8]) -> (r: i8)
    ensures
        r == rank_version_order(left@, right@),
{
    let (lt, lr) = rank_tokenize(left);
    let (rt, rr) = rank_tokenize(right);
    let ghost a = tok_views(lt@);
    let ghost b = tok_views(rt@);
    let n = if lt.len() > rt.len() {
        lt.len()
    } else {
        rt.len()
    };
    let mut i: usize = 0;
    while i < n
        invariant
            i <= n,
            n == if lt.len() > rt.len() {
                lt.len()
            } else {
                rt.len()
            },
            a == tok_views(lt@),
            b == tok_views(rt@),
            a == rank_tokens(revision_split(left@).0),
            b == rank_tokens(revision_split(right@).0),
            padded_from(a, b, 0, rank_token_order_fn(), rank_is_pre_fn()) == padded_from(
                a,
                b,
                i as int,
                rank_token_order_fn(),
                rank_is_pre_fn(),
            ),
        decreases n - i,
    {
        if i < lt.len() && i < rt.len() {
            let c = tok_sign(&lt[i], &rt[i]);
            assert(a[i as int] == lt@[i as int]@);
            assert(b[i as int] == rt@[i as int]@);
            assert(with_end(at(a, i as int), at(b, i as int), rank_token_order_fn(), rank_is_pre_fn())
                == c);
            if c != 0 {
                return c;
            }
        } else if i < rt.len() {
            assert(b[i as int] == rt@[i as int]@);
            assert(at(a, i as int) is None);
            return match &rt[i] {
                Tok::Pre(_) => 1,
                _ => -1,
            };
        } else {
            assert(a[i as int] == lt@[i as int]@);
            assert(at(b, i as int) is None);
            return match &lt[i] {
                Tok::Pre(_) => -1,
                _ => 1,
            };
        }
        i = i + 1;
    }
    nat_sign(lr, rr)
}

/// Order two Homebrew version strings.
///
/// Rules that matter: `1.10 > 1.9` (numeric, not lexical), `1.0 > 1.0rc1`
/// (a bare version beats its own pre-releases), `1.0_1 > 1.0` (revision bump).
pub fn version_cmp(a: &str, b: &str) -> (o: Ordering)
    ensures
        ordering_sign(o) == rank_version_order(a.spec_bytes(), b.spec_bytes()),
{
    proof {
        lemma_rank_order_parts(a.spec_bytes(), b.spec_bytes(), a.spec_bytes());
    }
    ordering_of(rank_version_sign(a.as_bytes(), b.as_bytes()))
}

} // verus!
