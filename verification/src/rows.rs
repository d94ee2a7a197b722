//! What the package list shows: ranked rows, the arrow-key cursor, and the
//! status-bar wording of a running command.
use crate::application::selection::saturating_add;
use crate::brew::{pkg_views, Pkg, PkgView};
use crate::rank::{match_score, score};
use crate::search::index::{best_match, order_by_score, ranked_positions};
use crate::text::{chars_of, from_chars, uppercase, uppercased};
use vstd::prelude::*;
use vstd::utf8::encode_utf8;

verus! {

/// How well a folded needle matches a row: its name, or its description
/// at a third of the score less 40.
pub open spec fn row_score(needle: Seq<u8>, p: PkgView) -> Option<int> {
    best_match(
        match_score(needle, p.name_lc, encode_utf8(p.name)),
        match_score(needle, p.desc_lc, encode_utf8(p.desc)),
    )
}

/// The scores of the rows, by position.
pub open spec fn row_scores(needle: Seq<u8>, rows: Seq<PkgView>) -> Seq<Option<int>> {
    Seq::new(rows.len(), |i: int| row_score(needle, rows[i]))
}

/// A row whose search buffers are no longer than its text, as folding leaves
/// them.
pub open spec fn searchable(p: PkgView) -> bool {
    p.name_lc.len() <= encode_utf8(p.name).len() && p.desc_lc.len() <= encode_utf8(p.desc).len()
}

/// Rank `pkgs` into row indices. An empty needle lists every row in order;
/// otherwise the rows whose name or description match, best first, ties in
/// row order.
pub fn rank_rows(needle: &[u8], pkgs: &[Pkg]) -> (r: Vec<u32>)
    requires
        pkgs.len() <= u32::MAX,
        forall|i: int| 0 <= i < pkgs.len() ==> searchable(#[trigger] pkgs@[i]@),
    ensures
        needle.len() == 0 ==> r@ == Seq::new(pkgs.len() as nat, |i: int| i as u32),
        needle.len() > 0 ==> ranked_positions(
            r@.map_values(|x: u32| x as int),
            row_scores(needle@, pkg_views(pkgs@)),
        ),
{
    if needle.len() == 0 {
        let mut all: Vec<u32> = Vec::new();
        let mut i: usize = 0;
        while i < pkgs.len()
            invariant
                i <= pkgs.len(),
                pkgs.len() <= u32::MAX,
                all@ =~= Seq::new(i as nat, |k: int| k as u32),
            decreases pkgs.len() - i,
        {
            all.push(i as u32);
            i = i + 1;
        }
        return all;
    }
    let ghost scores = row_scores(needle@, pkg_views(pkgs@));
    let mut scored: Vec<(i32, usize)> = Vec::new();
    let mut position: usize = 0;
    while position < pkgs.len()
        invariant
            position <= pkgs.len(),
            scores == row_scores(needle@, pkg_views(pkgs@)),
            forall|i: int| 0 <= i < pkgs.len() ==> searchable(#[trigger] pkgs@[i]@),
            forall|k: int|
                0 <= k < scored@.len() ==> (#[trigger] scored@[k]).1 < position && scores[scored@[k].1 as int]
                    == Some(scored@[k].0 as int),
            forall|p: int|
                0 <= p < position && (#[trigger] scores[p]) is Some ==> exists|k: int|
                    0 <= k < scored@.len() && scored@[k].1 == p,
            forall|a: int, b: int|
                0 <= a < b < scored@.len() ==> (#[trigger] scored@[a]).1 < (#[trigger] scored@[b]).1,
        decreases pkgs.len() - position,
    {
        let ghost old_scored = scored@;
        let p = &pkgs[position];
        assert(searchable(pkgs@[position as int]@));
        let name = score(needle, p.name_lc.as_slice(), p.name.as_str().as_bytes());
        let description = score(needle, p.desc_lc.as_slice(), p.desc.as_str().as_bytes());
        let shifted: Option<i32> = match description {
            Some(v) => {
                let w = v as i64;
                let q = if w >= 0 {
                    w / 3
                } else {
                    -((-w) / 3)
                };
                Some((q - 40) as i32)
            },
            None => None,
        };
        let best: Option<i32> = match (name, shifted) {
            (Some(a), Some(b)) => Some(
                if a >= b {
                    a
                } else {
                    b
                },
            ),
            (Some(a), None) => Some(a),
            (None, Some(b)) => Some(b),
            (None, None) => None,
        };
        assert(pkg_views(pkgs@)[position as int] == pkgs@[position as int]@);
        assert(best matches Some(v) ==> scores[position as int] == Some(v as int));
        assert(best is None ==> scores[position as int] is None);
        match best {
            Some(v) => {
                scored.push((v, position));
            },
            None => {},
        }
        assert forall|q: int|
            0 <= q < position + 1 && (#[trigger] scores[q]) is Some implies exists|k: int|
                0 <= k < scored@.len() && scored@[k].1 == q by {
            if q == position {
                assert(scored@[scored@.len() - 1].1 == q);
            } else {
                let k = choose|k: int| 0 <= k < old_scored.len() && old_scored[k].1 == q;
                assert(scored@[k] == old_scored[k]);
            }
        }
        position = position + 1;
    }
    let order = order_by_score(scored, Ghost(scores));
    let mut rows: Vec<u32> = Vec::new();
    let mut k: usize = 0;
    while k < order.len()
        invariant
            k <= order.len(),
            scores.len() == pkgs.len(),
            pkgs.len() <= u32::MAX,
            ranked_positions(order@.map_values(|x: usize| x as int), scores),
            rows@.map_values(|x: u32| x as int) =~= order@.map_values(|x: usize| x as int).take(
                k as int,
            ),
        decreases order.len() - k,
    {
        let ghost o = order@.map_values(|x: usize| x as int);
        assert(o[k as int] == order@[k as int] as int);
        let ghost before = rows@.map_values(|x: u32| x as int);
        rows.push(order[k] as u32);
        assert(rows@.map_values(|x: u32| x as int) =~= before.push(o[k as int]));
        assert(o.take(k + 1) =~= o.take(k as int).push(o[k as int]));
        k = k + 1;
    }
    assert(order@.map_values(|x: usize| x as int).take(k as int) =~= order@.map_values(
        |x: usize| x as int,
    ));
    rows
}

/// Where the cursor goes on an arrow press over `len` rows: none on an empty
/// list; with no cursor, Down (a positive step) enters at the top and any
/// other step at the bottom; else the cursor moves by `delta`, clamped to
/// the list and never wrapping.
pub open spec fn arrow_cursor(current: Option<int>, delta: int, len: int) -> Option<int> {
    if len == 0 {
        None
    } else {
        match current {
            None => if delta > 0 {
                Some(0)
            } else {
                Some(len - 1)
            },
            Some(c) => {
                let s = saturating_add(c, delta);
                Some(
                    if s < len - 1 {
                        s
                    } else {
                        len - 1
                    },
                )
            },
        }
    }
}

/// The view of an optional position.
pub open spec fn position_view(p: Option<usize>) -> Option<int> {
    match p {
        Some(v) => Some(v as int),
        None => None,
    }
}

/// The next cursor position for an arrow key press, clamped to the list.
pub fn next_cursor(cur: Option<usize>, delta: isize, len: usize) -> (r: Option<usize>)
    ensures
        position_view(r) == arrow_cursor(position_view(cur), delta as int, len as int),
{
    if len == 0 {
        return None;
    }
    let last = len - 1;
    match cur {
        None => if delta > 0 {
            Some(0)
        } else {
            Some(last)
        },
        Some(c) => {
            let moved = if delta >= 0 {
                let d = delta as usize;
                if c > usize::MAX - d {
                    usize::MAX
                } else {
                    c + d
                }
            } else {
                let d = ((-(delta + 1)) as usize) + 1;
                if c < d {
                    0
                } else {
                    c - d
                }
            };
            Some(
                if moved < last {
                    moved
                } else {
                    last
                },
            )
        },
    }
}

/// The status-bar form of a `brew` verb: a final silent `e` dropped, the
/// first character uppercased, `ing` appended; empty for an empty stem.
pub open spec fn progressive_text(verb: Seq<char>) -> Seq<char> {
    let stem = if verb.len() > 0 && verb.last() == 'e' {
        verb.drop_last()
    } else {
        verb
    };
    if stem.len() == 0 {
        Seq::empty()
    } else {
        uppercased(stem[0]) + stem.drop_first() + seq!['i', 'n', 'g']
    }
}

/// "upgrade" becomes "Upgrading", "install" becomes "Installing".
pub fn progressive(verb: &str) -> (r: String)
    ensures
        r@ == progressive_text(verb@),
{
    let chars = chars_of(verb);
    let n = chars.len();
    let end = if n > 0 && chars[n - 1] == 'e' {
        n - 1
    } else {
        n
    };
    let ghost stem = if verb@.len() > 0 && verb@.last() == 'e' {
        verb@.drop_last()
    } else {
        verb@
    };
    assert(chars@.subrange(0, end as int) =~= stem);
    if end == 0 {
        return String::new();
    }
    let first = uppercase(chars[0]);
    let mut out = chars_of(first.as_str());
    let mut i: usize = 1;
    while i < end
        invariant
            1 <= i <= end,
            end <= chars.len(),
            out@ =~= uppercased(chars@[0]) + chars@.subrange(1, i as int),
        decreases end - i,
    {
        out.push(chars[i]);
        i = i + 1;
    }
    out.push('i');
    out.push('n');
    out.push('g');
    assert(out@ =~= progressive_text(verb@));
    from_chars(out.as_slice())
}

} // verus!
