use crate::domain::package::{PackageId, PackageIdView};
use crate::ids::{id_views, strictly_sorted_ids, IdSet};
use vstd::prelude::*;

verus! {

/// The modifier keys held during a click.
#[derive(Clone, Copy, Debug, PartialEq, Eq, Structural)]
pub struct ClickModifiers {
    pub command: bool,
    pub shift: bool,
}

impl Default for ClickModifiers {
    fn default() -> (r: ClickModifiers)
        ensures
            !r.command && !r.shift,
    {
        ClickModifiers { command: false, shift: false }
    }
}

pub struct SelectionView {
    pub visible: Seq<PackageIdView>,
    pub selected: Set<PackageIdView>,
    pub cursor: Option<int>,
    pub anchor: Option<int>,
}

pub open spec fn index_view(i: Option<usize>) -> Option<int> {
    match i {
        Some(v) => Some(v as int),
        None => None,
    }
}

/// The ids at positions `a..=b` (in either order) of `visible`.
pub open spec fn range_ids(visible: Seq<PackageIdView>, a: int, b: int) -> Set<PackageIdView> {
    let lo = if a <= b {
        a
    } else {
        b
    };
    let hi = if a <= b {
        b
    } else {
        a
    };
    visible.subrange(lo, hi + 1).to_set()
}

/// The first position of `id` in `s` at or after `i`.
pub open spec fn first_index_from(s: Seq<PackageIdView>, id: PackageIdView, i: int) -> Option<int>
    decreases s.len() - i,
{
    if i < 0 || i >= s.len() {
        None
    } else if s[i] == id {
        Some(i)
    } else {
        first_index_from(s, id, i + 1)
    }
}

/// `i + delta`, clamped to the range of `usize` (`usize::saturating_add_signed`).
pub open spec fn saturating_add(i: int, delta: int) -> int {
    if i + delta < 0 {
        0
    } else if i + delta > usize::MAX {
        usize::MAX as int
    } else {
        i + delta
    }
}

/// Where the cursor goes on an arrow press over `len` rows: clamped to the
/// list, never wrapping; with no cursor yet, Down enters at the top and Up at
/// the bottom.
pub open spec fn next_cursor_position(current: Option<int>, delta: int, len: int) -> int {
    match current {
        Some(i) => {
            let s = saturating_add(i, delta);
            if s < len - 1 {
                s
            } else {
                len - 1
            }
        },
        None => if delta >= 0 {
            0
        } else {
            len - 1
        },
    }
}

/// The visible ids and which of them are selected, with a keyboard cursor
/// and the anchor that shift-extension grows from.
pub struct SelectionModel {
    visible: Vec<PackageId>,
    selected: IdSet,
    cursor: Option<usize>,
    anchor: Option<usize>,
}

impl View for SelectionModel {
    type V = SelectionView;

    closed spec fn view(&self) -> SelectionView {
        SelectionView {
            visible: id_views(self.visible@),
            selected: self.selected@,
            cursor: index_view(self.cursor),
            anchor: index_view(self.anchor),
        }
    }
}

impl Default for SelectionModel {
    fn default() -> (r: SelectionModel)
        ensures
            r.wf(),
            r@ == (SelectionView {
                visible: Seq::empty(),
                selected: Set::empty(),
                cursor: None,
                anchor: None,
            }),
    {
        SelectionModel::new()
    }
}

/// Copy the id at `index` of `v`.
fn id_at(v: &Vec<PackageId>, index: usize) -> (r: PackageId)
    requires
        index < v.len(),
    ensures
        r@ == id_views(v@)[index as int],
{
    v[index].clone()
}

impl SelectionModel {
    /// The selection holds only visible ids, and the cursor and anchor point
    /// into the visible list.
    pub open spec fn wf(&self) -> bool {
        &&& self.selected_wf()
        &&& self@.selected.subset_of(self@.visible.to_set())
        &&& (self@.cursor matches Some(c) ==> 0 <= c < self@.visible.len())
        &&& (self@.cursor is Some <==> self@.visible.len() > 0)
        &&& (self@.anchor matches Some(a) ==> 0 <= a < self@.visible.len())
    }

    /// Whatever the selection went through, the cursor is on a visible row
    /// exactly when there are rows, and only visible packages are selected.
    pub proof fn cursor_on_a_visible_row(&self)
        requires
            self.wf(),
        ensures
            self@.cursor is Some <==> self@.visible.len() > 0,
            self@.cursor matches Some(c) ==> 0 <= c < self@.visible.len(),
            forall|id: PackageIdView| #[trigger] self@.selected.contains(id) ==> self@.visible.contains(id),
    {
        assert forall|id: PackageIdView| #[trigger] self@.selected.contains(id) implies self@.visible.contains(id) by {
            assert(self@.visible.to_set().contains(id));
        }
    }

    pub closed spec fn selected_wf(&self) -> bool {
        self.selected.wf()
    }

    pub fn new() -> (r: SelectionModel)
        ensures
            r.wf(),
            r@ == (SelectionView {
                visible: Seq::empty(),
                selected: Set::empty(),
                cursor: None,
                anchor: None,
            }),
    {
        let r = SelectionModel { visible: Vec::new(), selected: IdSet::new(), cursor: None, anchor: None };
        assert(id_views(r.visible@) =~= Seq::<PackageIdView>::empty());
        r
    }

    pub fn visible(&self) -> (r: &[PackageId])
        ensures
            id_views(r@) == self@.visible,
    {
        self.visible.as_slice()
    }

    /// The selected ids, in ascending id order.
    pub fn selected(&self) -> (r: &[PackageId])
        requires
            self.wf(),
        ensures
            id_views(r@).to_set() == self@.selected,
            id_views(r@).no_duplicates(),
            strictly_sorted_ids(id_views(r@)),
    {
        proof {
            self.selected.lemma_members();
        }
        self.selected.as_slice()
    }

    pub fn cursor(&self) -> (r: Option<usize>)
        ensures
            index_view(r) == self@.cursor,
    {
        self.cursor
    }

    /// Show a new list: the selection keeps the ids still visible, the
    /// cursor follows its package (or moves to the top), the anchor is pulled
    /// into range.
    pub fn set_visible(&mut self, visible: Vec<PackageId>)
        requires
            old(self).wf(),
        ensures
            final(self).wf(),
            final(self)@.visible == id_views(visible@),
            final(self)@.selected == old(self)@.selected.intersect(id_views(visible@).to_set()),
            final(self)@.cursor == (if visible.len() == 0 {
                None
            } else {
                match old(self)@.cursor {
                    Some(c) => match first_index_from(
                        id_views(visible@),
                        old(self)@.visible[c],
                        0,
                    ) {
                        Some(p) => Some(p),
                        None => Some(0),
                    },
                    None => Some(0),
                }
            }),
            final(self)@.anchor == (if visible.len() == 0 {
                None
            } else {
                match old(self)@.anchor {
                    Some(a) => Some(
                        if a < visible.len() - 1 {
                            a
                        } else {
                            visible.len() - 1
                        },
                    ),
                    None => None,
                }
            }),
    {
        let cursor_id: Option<PackageId> = match self.cursor {
            Some(c) => Some(id_at(&self.visible, c)),
            None => None,
        };
        self.selected.retain_present(visible.as_slice());
        let mut cursor: Option<usize> = None;
        match cursor_id {
            Some(id) => {
                let mut i: usize = 0;
                while i < visible.len()
                    invariant
                        i <= visible.len(),
                        first_index_from(id_views(visible@), id@, 0) == first_index_from(
                            id_views(visible@),
                            id@,
                            i as int,
                        ),
                    ensures
                        i <= visible.len(),
                        first_index_from(id_views(visible@), id@, 0) == first_index_from(
                            id_views(visible@),
                            id@,
                            i as int,
                        ),
                        i < visible.len() ==> visible@[i as int]@ == id@,
                    decreases visible.len() - i,
                {
                    if visible[i].same(&id) {
                        break;
                    }
                    i = i + 1;
                }
                if i < visible.len() {
                    assert(id_views(visible@)[i as int] == visible@[i as int]@);
                    cursor = Some(i);
                }
            },
            None => {},
        }
        if cursor.is_none() && visible.len() > 0 {
            cursor = Some(0);
        }
        let n = visible.len();
        self.anchor = match self.anchor {
            Some(a) => Some(
                if n == 0 {
                    0
                } else if a < n - 1 {
                    a
                } else {
                    n - 1
                },
            ),
            None => None,
        };
        self.cursor = cursor;
        self.visible = visible;
        if n == 0 {
            self.cursor = None;
            self.anchor = None;
        }
        proof {
            assert(self@.selected.subset_of(self@.visible.to_set()));
        }
    }

    /// Deselect everything and forget the anchor.
    pub fn clear(&mut self)
        requires
            old(self).wf(),
        ensures
            final(self).wf(),
            final(self)@ == (SelectionView {
                selected: Set::empty(),
                anchor: None,
                ..old(self)@
            }),
    {
        self.selected.clear();
        self.anchor = None;
    }

    /// Select every visible package; the cursor and anchor go to the top.
    pub fn select_all(&mut self)
        requires
            old(self).wf(),
        ensures
            final(self).wf(),
            final(self)@.visible == old(self)@.visible,
            final(self)@.selected == old(self)@.visible.to_set(),
            final(self)@.cursor == (if old(self)@.visible.len() == 0 {
                None
            } else {
                Some(0int)
            }),
            final(self)@.anchor == final(self)@.cursor,
    {
        self.selected = IdSet::from_ids(self.visible.as_slice());
        self.cursor = if self.visible.len() == 0 {
            None
        } else {
            Some(0)
        };
        self.anchor = self.cursor;
    }

    /// A click on row `index`: shift selects the range from the anchor,
    /// command toggles the row, a plain click selects only the row. A click
    /// past the end does nothing.
    pub fn click(&mut self, index: usize, modifiers: ClickModifiers)
        requires
            old(self).wf(),
        ensures
            final(self).wf(),
            final(self)@.visible == old(self)@.visible,
            index >= old(self)@.visible.len() ==> final(self)@ == old(self)@,
            index < old(self)@.visible.len() ==> {
                let id = old(self)@.visible[index as int];
                &&& final(self)@.cursor == Some(index as int)
                &&& modifiers.shift ==> {
                    let anchor = match old(self)@.anchor {
                        Some(a) => a,
                        None => index as int,
                    };
                    &&& final(self)@.anchor == Some(anchor)
                    &&& final(self)@.selected == range_ids(old(self)@.visible, anchor, index as int)
                }
                &&& !modifiers.shift && modifiers.command ==> {
                    &&& final(self)@.anchor == Some(index as int)
                    &&& final(self)@.selected == if old(self)@.selected.contains(id) {
                        old(self)@.selected.remove(id)
                    } else {
                        old(self)@.selected.insert(id)
                    }
                }
                &&& !modifiers.shift && !modifiers.command ==> {
                    &&& final(self)@.anchor == Some(index as int)
                    &&& final(self)@.selected == Set::empty().insert(id)
                }
            },
    {
        if index >= self.visible.len() {
            return;
        }
        let id = id_at(&self.visible, index);
        self.cursor = Some(index);
        if modifiers.shift {
            let anchor = match self.anchor {
                Some(a) => a,
                None => index,
            };
            self.anchor = Some(anchor);
            self.select_range(anchor, index);
        } else if modifiers.command {
            if !self.selected.remove(&id) {
                self.selected.insert(id);
            }
            self.anchor = Some(index);
            proof {
                assert(self@.selected.subset_of(self@.visible.to_set()));
            }
        } else {
            self.selected.clear();
            self.selected.insert(id);
            self.anchor = Some(index);
            proof {
                assert(self@.selected.subset_of(self@.visible.to_set()));
            }
        }
    }

    /// Move the keyboard cursor by `delta` rows, clamped to the list; with
    /// `extend`, select the range from the anchor, else select only the
    /// row. Answers the new cursor; an empty list has none.
    pub fn move_cursor(&mut self, delta: isize, extend: bool) -> (r: Option<usize>)
        requires
            old(self).wf(),
        ensures
            final(self).wf(),
            final(self)@.visible == old(self)@.visible,
            old(self)@.visible.len() == 0 ==> r is None && final(self)@ == (SelectionView {
                cursor: None,
                ..old(self)@
            }),
            old(self)@.visible.len() > 0 ==> {
                let next = next_cursor_position(
                    old(self)@.cursor,
                    delta as int,
                    old(self)@.visible.len() as int,
                );
                &&& index_view(r) == Some(next)
                &&& final(self)@.cursor == Some(next)
                &&& extend ==> {
                    let anchor = match old(self)@.anchor {
                        Some(a) => a,
                        None => match old(self)@.cursor {
                            Some(c) => c,
                            None => next,
                        },
                    };
                    &&& final(self)@.anchor == Some(anchor)
                    &&& final(self)@.selected == range_ids(old(self)@.visible, anchor, next)
                }
                &&& !extend ==> {
                    &&& final(self)@.anchor == Some(next)
                    &&& final(self)@.selected == Set::empty().insert(old(self)@.visible[next])
                }
            },
    {
        if self.visible.len() == 0 {
            self.cursor = None;
            return None;
        }
        let last = self.visible.len() - 1;
        let previous = self.cursor;
        let next = match previous {
            Some(index) => {
                let moved = if delta >= 0 {
                    let d = delta as usize;
                    if index > usize::MAX - d {
                        usize::MAX
                    } else {
                        index + d
                    }
                } else {
                    let d = ((-(delta + 1)) as usize) + 1;
                    if index < d {
                        0
                    } else {
                        index - d
                    }
                };
                if moved < last {
                    moved
                } else {
                    last
                }
            },
            None => if delta >= 0 {
                0
            } else {
                last
            },
        };
        self.cursor = Some(next);
        if extend {
            let anchor = match self.anchor {
                Some(a) => a,
                None => match previous {
                    Some(p) => p,
                    None => next,
                },
            };
            self.anchor = Some(anchor);
            self.select_range(anchor, next);
        } else {
            let id = id_at(&self.visible, next);
            self.selected.clear();
            self.selected.insert(id);
            self.anchor = Some(next);
            proof {
                assert(self@.selected.subset_of(self@.visible.to_set()));
            }
        }
        Some(next)
    }

    fn select_range(&mut self, left: usize, right: usize)
        requires
            old(self).selected_wf(),
            left < old(self).visible.len(),
            right < old(self).visible.len(),
        ensures
            final(self).selected_wf(),
            final(self)@ == (SelectionView {
                selected: range_ids(old(self)@.visible, left as int, right as int),
                ..old(self)@
            }),
            final(self)@.selected.subset_of(final(self)@.visible.to_set()),
    {
        let lo = if left <= right {
            left
        } else {
            right
        };
        let hi = if left <= right {
            right
        } else {
            left
        };
        let mut part: Vec<PackageId> = Vec::new();
        let mut i = lo;
        while i <= hi
            invariant
                lo <= i <= hi + 1,
                hi < self.visible.len(),
                id_views(part@) =~= id_views(self.visible@).subrange(lo as int, i as int),
            decreases hi + 1 - i,
        {
            let ghost before = id_views(part@);
            part.push(id_at(&self.visible, i));
            assert(id_views(part@) =~= before.push(id_views(self.visible@)[i as int]));
            i = i + 1;
        }
        self.selected = IdSet::from_ids(part.as_slice());
        proof {
            let v = id_views(self.visible@);
            assert forall|x: PackageIdView| self@.selected.contains(x) implies v.to_set().contains(x) by {
                let k = choose|k: int| 0 <= k < id_views(part@).len() && id_views(part@)[k] == x;
                assert(v[lo + k] == x);
            }
        }
    }
}

} // verus!
