//! The search field's editing model: its text, a selection that remembers
//! which end the cursor is at, and the text an input method has marked.
//! Offsets are UTF-8 byte offsets; input methods speak UTF-16.
use crate::text::{chars_of, from_chars, replace_char, replaced};
use crate::ui::text_input::{
    byte_offset, clamped, floor_boundary_at, floor_with_index, grapheme_starts, is_boundary, lemma_byte_monotone,
    lemma_edit_boundaries, lemma_edit_end, lemma_floor_of_boundary, lemma_utf16_lands_on_boundary, next_boundary,
    next_start, offset_to_utf16, previous_boundary, previous_start, range_from_utf16,
    replace_content, replaced_between, utf16_len, utf8_for_utf16,
};
use std::ops::Range;
use vstd::prelude::*;
use vstd::utf8::encode_utf8;

verus! {

/// What the field holds: its text, the selected byte range (the cursor is
/// at its start when `reversed`, else at its end), and the marked range.
pub struct FieldView {
    pub content: Seq<char>,
    pub start: int,
    pub end: int,
    pub reversed: bool,
    pub marked: Option<(int, int)>,
}

/// The search field's text and selection.
pub struct SearchField {
    content: String,
    selected: Range<usize>,
    reversed: bool,
    marked: Option<Range<usize>>,
}

pub open spec fn range_view(r: Option<Range<usize>>) -> Option<(int, int)> {
    match r {
        Some(r) => Some((r.start as int, r.end as int)),
        None => None,
    }
}

impl View for SearchField {
    type V = FieldView;

    closed spec fn view(&self) -> FieldView {
        FieldView {
            content: self.content@,
            start: self.selected.start as int,
            end: self.selected.end as int,
            reversed: self.reversed,
            marked: range_view(self.marked),
        }
    }
}

/// The byte length of the field's text.
pub open spec fn text_end(v: FieldView) -> int {
    encode_utf8(v.content).len() as int
}

/// Where the cursor is.
pub open spec fn cursor_of(v: FieldView) -> int {
    if v.reversed {
        v.start
    } else {
        v.end
    }
}

/// Whether anything is selected.
pub open spec fn has_selection(v: FieldView) -> bool {
    v.start < v.end
}

/// The cursor placed at `off`, nothing selected.
pub open spec fn collapsed_at(v: FieldView, off: int) -> FieldView {
    FieldView { start: off, end: off, reversed: false, ..v }
}

/// The selection's moving end taken to `off`; when it passes the other end
/// the two swap and the direction flips.
pub open spec fn extended_to(v: FieldView, off: int) -> FieldView {
    let (s, e) = if v.reversed {
        (off, v.end)
    } else {
        (v.start, off)
    };
    if e < s {
        FieldView { start: e, end: s, reversed: !v.reversed, ..v }
    } else {
        FieldView { start: s, end: e, ..v }
    }
}

/// The grapheme boundary before `off`.
pub open spec fn stop_before(v: FieldView, off: int) -> int {
    previous_start(grapheme_starts(v.content), off)
}

/// The grapheme boundary after `off`, or the end.
pub open spec fn stop_after(v: FieldView, off: int) -> int {
    next_start(grapheme_starts(v.content), off, text_end(v))
}

impl SearchField {
    /// The selection and the marked text stand on character boundaries.
    pub closed spec fn wf(&self) -> bool {
        &&& is_boundary(self.content@, self.selected.start as int)
        &&& is_boundary(self.content@, self.selected.end as int)
        &&& (self.marked matches Some(m) ==> is_boundary(self.content@, m.start as int) && is_boundary(
            self.content@,
            m.end as int,
        ))
    }

    /// Every edit keeps the selection and the marked text on character
    /// boundaries, so the field's text can always be cut there.
    pub proof fn selection_stays_on_boundaries(&self)
        requires
            self.wf(),
        ensures
            is_boundary(self@.content, self@.start),
            is_boundary(self@.content, self@.end),
            self@.marked matches Some(m) ==> is_boundary(self@.content, m.0) && is_boundary(self@.content, m.1),
    {
    }

    /// An empty field.
    pub fn new() -> (r: SearchField)
        ensures
            r.wf(),
            r@ == (FieldView { content: Seq::empty(), start: 0, end: 0, reversed: false, marked: None }),
    {
        let r = SearchField { content: String::new(), selected: Range { start: 0, end: 0 }, reversed: false, marked: None };
        assert(byte_offset(r.content@, 0) == 0) by {
            assert(r.content@.take(0) =~= Seq::<char>::empty());
        }
        r
    }

    /// The field's text.
    pub fn content(&self) -> (r: &str)
        ensures
            r@ == self@.content,
    {
        self.content.as_str()
    }

    /// Empty the field.
    pub fn clear(&mut self)
        ensures
            final(self).wf(),
            final(self)@ == (FieldView { content: Seq::empty(), start: 0, end: 0, reversed: false, marked: None }),
    {
        *self = SearchField::new();
    }

    fn cursor(&self) -> (r: usize)
        ensures
            r == cursor_of(self@),
    {
        if self.reversed {
            self.selected.start
        } else {
            self.selected.end
        }
    }

    fn len(&self) -> (r: usize)
        requires
            self.wf(),
        ensures
            r == text_end(self@),
            is_boundary(self@.content, r as int),
    {
        let r = self.content.as_str().as_bytes().len();
        assert(byte_offset(self@.content, self@.content.len() as int) == r) by {
            assert(self@.content.take(self@.content.len() as int) =~= self@.content);
        }
        r
    }

    fn move_to(&mut self, offset: usize)
        requires
            old(self).wf(),
            is_boundary(old(self)@.content, offset as int),
        ensures
            final(self).wf(),
            final(self)@ == collapsed_at(old(self)@, offset as int),
    {
        self.selected = Range { start: offset, end: offset };
        self.reversed = false;
    }

    fn select_to(&mut self, offset: usize)
        requires
            old(self).wf(),
            is_boundary(old(self)@.content, offset as int),
        ensures
            final(self).wf(),
            final(self)@ == extended_to(old(self)@, offset as int),
    {
        if self.reversed {
            self.selected.start = offset;
        } else {
            self.selected.end = offset;
        }
        if self.selected.end < self.selected.start {
            self.reversed = !self.reversed;
            self.selected = Range { start: self.selected.end, end: self.selected.start };
        }
    }

    /// Left: collapse a selection to its start, else step back a grapheme.
    pub fn left(&mut self)
        requires
            old(self).wf(),
        ensures
            final(self).wf(),
            final(self)@ == collapsed_at(
                old(self)@,
                if has_selection(old(self)@) {
                    old(self)@.start
                } else {
                    stop_before(old(self)@, cursor_of(old(self)@))
                },
            ),
    {
        let offset = if self.selected.start < self.selected.end {
            self.selected.start
        } else {
            previous_boundary(self.content.as_str(), self.cursor())
        };
        self.move_to(offset);
    }

    /// Right: collapse a selection to its end, else step on a grapheme.
    pub fn right(&mut self)
        requires
            old(self).wf(),
        ensures
            final(self).wf(),
            final(self)@ == collapsed_at(
                old(self)@,
                if has_selection(old(self)@) {
                    old(self)@.end
                } else {
                    stop_after(old(self)@, cursor_of(old(self)@))
                },
            ),
    {
        let offset = if self.selected.start < self.selected.end {
            self.selected.end
        } else {
            next_boundary(self.content.as_str(), self.cursor())
        };
        self.move_to(offset);
    }

    /// Shift-Left: extend the selection a grapheme back.
    pub fn select_left(&mut self)
        requires
            old(self).wf(),
        ensures
            final(self).wf(),
            final(self)@ == extended_to(old(self)@, stop_before(old(self)@, cursor_of(old(self)@))),
    {
        let offset = previous_boundary(self.content.as_str(), self.cursor());
        self.select_to(offset);
    }

    /// Shift-Right: extend the selection a grapheme on.
    pub fn select_right(&mut self)
        requires
            old(self).wf(),
        ensures
            final(self).wf(),
            final(self)@ == extended_to(old(self)@, stop_after(old(self)@, cursor_of(old(self)@))),
    {
        let offset = next_boundary(self.content.as_str(), self.cursor());
        self.select_to(offset);
    }

    /// Select the whole text.
    pub fn select_all(&mut self)
        requires
            old(self).wf(),
        ensures
            final(self).wf(),
            final(self)@ == extended_to(collapsed_at(old(self)@, 0), text_end(old(self)@)),
    {
        assert(byte_offset(self@.content, 0) == 0) by {
            assert(self@.content.take(0) =~= Seq::<char>::empty());
        }
        self.move_to(0);
        let end = self.len();
        self.select_to(end);
    }

    /// Home: the cursor to the start.
    pub fn home(&mut self)
        requires
            old(self).wf(),
        ensures
            final(self).wf(),
            final(self)@ == collapsed_at(old(self)@, 0),
    {
        assert(byte_offset(self@.content, 0) == 0) by {
            assert(self@.content.take(0) =~= Seq::<char>::empty());
        }
        self.move_to(0);
    }

    /// End: the cursor to the end.
    pub fn end(&mut self)
        requires
            old(self).wf(),
        ensures
            final(self).wf(),
            final(self)@ == collapsed_at(old(self)@, text_end(old(self)@)),
    {
        let end = self.len();
        self.move_to(end);
    }

    /// Forget the marked text.
    pub fn unmark_text(&mut self)
        requires
            old(self).wf(),
        ensures
            final(self).wf(),
            final(self)@ == (FieldView { marked: None, ..old(self)@ }),
    {
        self.marked = None;
    }
}

// ---- editing -----------------------------------------------------------------------

/// The byte range an edit replaces: the given UTF-16 range, else the
/// marked text, else the selection.
pub open spec fn edit_range(v: FieldView, range: Option<(int, int)>) -> (int, int) {
    match range {
        Some(r) => (utf8_for_utf16(v.content, r.0), utf8_for_utf16(v.content, r.1)),
        None => match v.marked {
            Some(m) => m,
            None => (v.start, v.end),
        },
    }
}

/// `after` is the text of `v` with `text` put over `range` (down to
/// character boundaries); `inserted` is where it now lies.
pub open spec fn edited(v: FieldView, range: (int, int), text: Seq<char>, after: Seq<char>, inserted: (int, int)) -> bool {
    exists|ks: int, ke: int| #[trigger] replaced_between(v.content, range.0, range.1, text, ks, ke, inserted, after)
}

/// `w` is `v` after typing `text` over the edit range: the cursor follows
/// the typed text and nothing stays marked.
pub open spec fn typed(v: FieldView, range: Option<(int, int)>, text: Seq<char>, w: FieldView) -> bool {
    exists|inserted: (int, int)|
        #[trigger] edited(v, edit_range(v, range), text, w.content, inserted) && w.start == inserted.1 && w.end
            == inserted.1 && !w.reversed && w.marked is None
}

/// `text` on one line: returns and newlines become spaces.
pub open spec fn one_line(text: Seq<char>) -> Seq<char> {
    replaced(replaced(text, '\r', ' '), '\n', ' ')
}

/// `r` is the text of `s` between boundaries `start` and `end`.
pub open spec fn text_between(s: Seq<char>, start: int, end: int, r: Seq<char>) -> bool {
    exists|k1: int, k2: int|
        0 <= k1 <= k2 <= s.len() && #[trigger] byte_offset(s, k1) == start && #[trigger] byte_offset(s, k2) == end
            && r == s.subrange(k1, k2)
}

/// The UTF-16 offset of boundary `off` of `s`.
pub open spec fn units_at(s: Seq<char>, off: int, units: int) -> bool {
    exists|k: int| 0 <= k <= s.len() && #[trigger] byte_offset(s, k) == off && units == utf16_len(s.take(k))
}

/// The character index of a boundary.
fn index_of(s: &str, off: usize) -> (k: usize)
    requires
        is_boundary(s@, off as int),
    ensures
        k <= s@.len(),
        byte_offset(s@, k as int) == off,
{
    let (b, k) = floor_with_index(s, off);
    proof {
        let k0 = choose|k0: int| 0 <= k0 <= s@.len() && #[trigger] byte_offset(s@, k0) == off;
        lemma_floor_of_boundary(s@, k0, b as int, k as int);
    }
    k
}

/// The text between two boundaries.
fn slice_between(s: &str, start: usize, end: usize) -> (r: String)
    requires
        is_boundary(s@, start as int),
        is_boundary(s@, end as int),
        start <= end,
    ensures
        text_between(s@, start as int, end as int, r@),
{
    let k1 = index_of(s, start);
    let k2 = index_of(s, end);
    proof {
        if k2 < k1 {
            lemma_byte_monotone(s@, k2 as int, k1 as int);
        }
    }
    let chars = chars_of(s);
    let mut out: Vec<char> = Vec::new();
    let mut i = k1;
    while i < k2
        invariant
            k1 <= i <= k2 <= chars@.len(),
            chars@ == s@,
            out@ =~= s@.subrange(k1 as int, i as int),
        decreases k2 - i,
    {
        out.push(chars[i]);
        i = i + 1;
    }
    let r = from_chars(out.as_slice());
    assert(byte_offset(s@, k1 as int) == start && byte_offset(s@, k2 as int) == end);
    r
}

/// The UTF-16 offset of a boundary.
fn units_of(s: &str, off: usize) -> (r: usize)
    requires
        is_boundary(s@, off as int),
    ensures
        units_at(s@, off as int, r as int),
{
    let r = offset_to_utf16(s, off);
    proof {
        let k0 = choose|k0: int| 0 <= k0 <= s@.len() && #[trigger] byte_offset(s@, k0) == off;
        crate::ui::text_input::lemma_byte_bound_pub(s@, k0);
        let k = choose|k: int|
            #[trigger] floor_boundary_at(s@, clamped(s@, off as int), byte_offset(s@, k), k) && r == utf16_len(
                s@.take(k),
            );
        lemma_floor_of_boundary(s@, k0, byte_offset(s@, k), k);
    }
    r
}

impl SearchField {
    fn put_text(&mut self, range: Range<usize>, text: &str) -> (inserted: Range<usize>)
        requires
            old(self).wf(),
            encode_utf8(old(self)@.content).len() + encode_utf8(text@).len() <= usize::MAX,
        ensures
            edited(old(self)@, (range.start as int, range.end as int), text@, final(self)@.content, (inserted.start as int, inserted.end as int)),
            is_boundary(final(self)@.content, inserted.start as int),
            is_boundary(final(self)@.content, inserted.end as int),
            forall|j: int| 0 <= j <= text@.len() ==> is_boundary(final(self)@.content, inserted.start + #[trigger] byte_offset(text@, j)),
            inserted.start <= inserted.end,
            final(self)@.start == old(self)@.start,
            final(self)@.end == old(self)@.end,
            final(self)@.reversed == old(self)@.reversed,
            final(self)@.marked == old(self)@.marked,
    {
        let ghost before = self@;
        let ghost (rs, re) = (range.start as int, range.end as int);
        let inserted = replace_content(&mut self.content, range, text);
        proof {
            assert(before.content == old(self).content@);
            assert(exists|ks: int, ke: int| #[trigger] replaced_between(
                    before.content,
                    rs,
                    re,
                    text@,
                    ks,
                    ke,
                    (inserted.start as int, inserted.end as int),
                    self.content@,
                ));
            let (ks, ke) = choose|ks: int, ke: int|
                #[trigger] replaced_between(
                    before.content,
                    range.start as int,
                    range.end as int,
                    text@,
                    ks,
                    ke,
                    (inserted.start as int, inserted.end as int),
                    self.content@,
                );
            lemma_edit_end(before.content, range.start as int, range.end as int, text@, ks, ke, (inserted.start as int, inserted.end as int), self.content@);
            assert forall|j: int| 0 <= j <= text@.len() implies is_boundary(self.content@, inserted.start + #[trigger] byte_offset(text@, j)) by {
                lemma_edit_boundaries(before.content, range.start as int, range.end as int, text@, ks, ke, (inserted.start as int, inserted.end as int), self.content@, j);
            }
        }
        inserted
    }

    /// The byte range an edit replaces.
    fn target(&self, range: Option<Range<usize>>) -> (r: Range<usize>)
        requires
            self.wf(),
        ensures
            (r.start as int, r.end as int) == edit_range(self@, range_view(range)),
    {
        match range {
            Some(r) => range_from_utf16(self.content.as_str(), &r),
            None => match &self.marked {
                Some(m) => Range { start: m.start, end: m.end },
                None => Range { start: self.selected.start, end: self.selected.end },
            },
        }
    }

    /// An input method or a key typed `text` over the UTF-16 `range`, else
    /// over the marked text, else over the selection.
    pub fn replace_text(&mut self, range: Option<Range<usize>>, text: &str)
        requires
            old(self).wf(),
            encode_utf8(old(self)@.content).len() + encode_utf8(text@).len() <= usize::MAX,
        ensures
            final(self).wf(),
            typed(old(self)@, range_view(range), text@, final(self)@),
    {
        let ghost before = self@;
        let target = self.target(range);
        let inserted = self.put_text(target, text);
        self.selected = Range { start: inserted.end, end: inserted.end };
        self.reversed = false;
        self.marked = None;
        assert(edited(before, edit_range(before, range_view(range)), text@, self@.content, (inserted.start as int, inserted.end as int)));
    }

    /// An input method composed `text` over the UTF-16 `range` (else the
    /// marked text, else the selection): the text is marked unless empty,
    /// and the selection is `selected`, in UTF-16 within the text, or the
    /// end of the text.
    pub fn replace_and_mark_text(&mut self, range: Option<Range<usize>>, text: &str, selected: Option<Range<usize>>)
        requires
            old(self).wf(),
            encode_utf8(old(self)@.content).len() + encode_utf8(text@).len() <= usize::MAX,
        ensures
            final(self).wf(),
            !final(self)@.reversed,
            exists|inserted: (int, int)|
                #[trigger] edited(old(self)@, edit_range(old(self)@, range_view(range)), text@, final(self)@.content, inserted)
                && final(self)@.marked == (if text@.len() > 0 {
                    Some(inserted)
                } else {
                    None
                }) && match selected {
                    Some(sel) => final(self)@.start == inserted.0 + utf8_for_utf16(text@, sel.start as int)
                        && final(self)@.end == inserted.0 + utf8_for_utf16(text@, sel.end as int),
                    None => final(self)@.start == inserted.1 && final(self)@.end == inserted.1,
                },
    {
        let ghost before = self@;
        let target = self.target(range);
        let inserted = self.put_text(target, text);
        let empty = chars_of(text).len() == 0;
        self.marked = if empty {
            None
        } else {
            Some(Range { start: inserted.start, end: inserted.end })
        };
        match selected {
            Some(sel) => {
                let within = range_from_utf16(text, &sel);
                proof {
                    lemma_utf16_lands_on_boundary(text@, sel.start as int);
                    lemma_utf16_lands_on_boundary(text@, sel.end as int);
                    let j1 = choose|j: int| 0 <= j <= text@.len() && #[trigger] byte_offset(text@, j) == within.start;
                    let j2 = choose|j: int| 0 <= j <= text@.len() && #[trigger] byte_offset(text@, j) == within.end;
                    assert(is_boundary(self@.content, inserted.start + byte_offset(text@, j1)));
                    assert(is_boundary(self@.content, inserted.start + byte_offset(text@, j2)));
                    crate::ui::text_input::lemma_byte_bound_pub(text@, j1);
                    crate::ui::text_input::lemma_byte_bound_pub(text@, j2);
                    assert(byte_offset(text@, text@.len() as int) == encode_utf8(text@).len()) by {
                        assert(text@.take(text@.len() as int) =~= text@);
                    }
                    let ins = (inserted.start as int, inserted.end as int);
                    let (ks, ke) = choose|ks: int, ke: int|
                        #[trigger] replaced_between(before.content, target.start as int, target.end as int, text@, ks, ke, ins, self@.content);
                }
                self.selected = Range { start: inserted.start + within.start, end: inserted.start + within.end };
            },
            None => {
                self.selected = Range { start: inserted.end, end: inserted.end };
            },
        }
        self.reversed = false;
        assert(edited(before, edit_range(before, range_view(range)), text@, self@.content, (inserted.start as int, inserted.end as int)));
    }
}

impl SearchField {
    /// Backspace: delete the selection, else the grapheme before the cursor.
    pub fn backspace(&mut self)
        requires
            old(self).wf(),
        ensures
            final(self).wf(),
            typed(
                if has_selection(old(self)@) {
                    old(self)@
                } else {
                    extended_to(old(self)@, stop_before(old(self)@, cursor_of(old(self)@)))
                },
                None,
                Seq::empty(),
                final(self)@,
            ),
    {
        if !(self.selected.start < self.selected.end) {
            let offset = previous_boundary(self.content.as_str(), self.cursor());
            self.select_to(offset);
        }
        proof {
            reveal_strlit("");
            assert(""@ =~= Seq::<char>::empty());
            assert(encode_utf8(""@) =~= Seq::<u8>::empty());
        }
        let length = self.len();
        assert(length + encode_utf8(""@).len() <= usize::MAX);
        self.replace_text(None, "");
    }

    /// Delete: delete the selection, else the grapheme after the cursor.
    pub fn delete(&mut self)
        requires
            old(self).wf(),
        ensures
            final(self).wf(),
            typed(
                if has_selection(old(self)@) {
                    old(self)@
                } else {
                    extended_to(old(self)@, stop_after(old(self)@, cursor_of(old(self)@)))
                },
                None,
                Seq::empty(),
                final(self)@,
            ),
    {
        if !(self.selected.start < self.selected.end) {
            let offset = next_boundary(self.content.as_str(), self.cursor());
            self.select_to(offset);
        }
        proof {
            reveal_strlit("");
            assert(""@ =~= Seq::<char>::empty());
            assert(encode_utf8(""@) =~= Seq::<u8>::empty());
        }
        let length = self.len();
        assert(length + encode_utf8(""@).len() <= usize::MAX);
        self.replace_text(None, "");
    }

    /// Paste: the pasted text, on one line, replaces the selection.
    pub fn paste(&mut self, text: &str)
        requires
            old(self).wf(),
            encode_utf8(old(self)@.content).len() + encode_utf8(text@).len() <= usize::MAX,
        ensures
            final(self).wf(),
            typed(old(self)@, None, one_line(text@), final(self)@),
    {
        let no_returns = replace_char(text, '\r', ' ');
        let flat = replace_char(no_returns.as_str(), '\n', ' ');
        proof {
            lemma_same_width(text@, no_returns@, '\r');
            lemma_same_width(no_returns@, flat@, '\n');
        }
        self.replace_text(None, flat.as_str());
    }

    /// The selected text, if anything is selected.
    pub fn copy(&self) -> (r: Option<String>)
        requires
            self.wf(),
        ensures
            r is Some == has_selection(self@),
            r matches Some(t) ==> text_between(self@.content, self@.start, self@.end, t@),
    {
        if self.selected.start < self.selected.end {
            Some(slice_between(self.content.as_str(), self.selected.start, self.selected.end))
        } else {
            None
        }
    }

    /// Cut: the selected text, which is then deleted.
    pub fn cut(&mut self) -> (r: Option<String>)
        requires
            old(self).wf(),
        ensures
            final(self).wf(),
            r is Some == has_selection(old(self)@),
            r matches Some(t) ==> text_between(old(self)@.content, old(self)@.start, old(self)@.end, t@),
            r is Some ==> typed(old(self)@, None, Seq::empty(), final(self)@),
            r is None ==> final(self)@ == old(self)@,
    {
        let copied = self.copy();
        if copied.is_some() {
            proof {
                reveal_strlit("");
                assert(""@ =~= Seq::<char>::empty());
                assert(encode_utf8(""@) =~= Seq::<u8>::empty());
            }
            let length = self.len();
            assert(length + encode_utf8(""@).len() <= usize::MAX);
            self.replace_text(None, "");
        }
        copied
    }

    /// The text of a UTF-16 range, with the UTF-16 range it actually spans.
    pub fn text_for_range(&self, range: Range<usize>) -> (r: (String, Range<usize>))
        requires
            self.wf(),
            utf8_for_utf16(self@.content, range.start as int) <= utf8_for_utf16(self@.content, range.end as int),
        ensures
            text_between(
                self@.content,
                utf8_for_utf16(self@.content, range.start as int),
                utf8_for_utf16(self@.content, range.end as int),
                r.0@,
            ),
            units_at(self@.content, utf8_for_utf16(self@.content, range.start as int), r.1.start as int),
            units_at(self@.content, utf8_for_utf16(self@.content, range.end as int), r.1.end as int),
    {
        let bytes = range_from_utf16(self.content.as_str(), &range);
        proof {
            lemma_utf16_lands_on_boundary(self@.content, range.start as int);
            lemma_utf16_lands_on_boundary(self@.content, range.end as int);
        }
        let text = slice_between(self.content.as_str(), bytes.start, bytes.end);
        let start = units_of(self.content.as_str(), bytes.start);
        let end = units_of(self.content.as_str(), bytes.end);
        (text, Range { start, end })
    }

    /// The selection in UTF-16, and whether the cursor is at its start.
    pub fn selected_text_range(&self) -> (r: (Range<usize>, bool))
        requires
            self.wf(),
        ensures
            units_at(self@.content, self@.start, r.0.start as int),
            units_at(self@.content, self@.end, r.0.end as int),
            r.1 == self@.reversed,
    {
        let start = units_of(self.content.as_str(), self.selected.start);
        let end = units_of(self.content.as_str(), self.selected.end);
        (Range { start, end }, self.reversed)
    }

    /// The marked text in UTF-16, if any.
    pub fn marked_text_range(&self) -> (r: Option<Range<usize>>)
        requires
            self.wf(),
        ensures
            r is Some == self@.marked is Some,
            match (r, self@.marked) {
                (Some(u), Some(m)) => units_at(self@.content, m.0, u.start as int) && units_at(
                    self@.content,
                    m.1,
                    u.end as int,
                ),
                _ => true,
            },
    {
        match &self.marked {
            Some(m) => {
                let start = units_of(self.content.as_str(), m.start);
                let end = units_of(self.content.as_str(), m.end);
                Some(Range { start, end })
            },
            None => None,
        }
    }
}

/// One run of the field's drawn text: its byte length, and whether it is
/// the underlined marked text.
#[derive(Clone, Copy, Debug, PartialEq, Eq, Structural)]
pub struct TextSpan {
    pub len: usize,
    pub underlined: bool,
}

/// `t` alone, or nothing when it is empty.
pub open spec fn kept(t: TextSpan) -> Seq<TextSpan> {
    if t.len > 0 {
        seq![t]
    } else {
        Seq::empty()
    }
}

/// The runs that draw `len` bytes of text: one plain run, or with marked
/// text the plain text before it, the underlined marked text and the
/// plain text after it, empty runs left out.
pub open spec fn run_spans(len: usize, marked: Option<(int, int)>) -> Seq<TextSpan> {
    match marked {
        None => seq![TextSpan { len, underlined: false }],
        Some((s, e)) => kept(TextSpan { len: s as usize, underlined: false }) + kept(
            TextSpan { len: (e - s) as usize, underlined: true },
        ) + kept(TextSpan { len: (len - e) as usize, underlined: false }),
    }
}

/// Split the `displayed_len` bytes of drawn text into runs around the
/// marked range.
pub fn text_runs(displayed_len: usize, marked: Option<Range<usize>>) -> (r: Vec<TextSpan>)
    requires
        marked matches Some(m) ==> m.start <= m.end <= displayed_len,
    ensures
        r@ == run_spans(displayed_len, range_view(marked)),
{
    match marked {
        None => vec![TextSpan { len: displayed_len, underlined: false }],
        Some(m) => {
            let mut runs: Vec<TextSpan> = Vec::new();
            let before = TextSpan { len: m.start, underlined: false };
            let inside = TextSpan { len: m.end - m.start, underlined: true };
            let after = TextSpan { len: displayed_len - m.end, underlined: false };
            if before.len > 0 {
                runs.push(before);
            }
            assert(runs@ =~= kept(before));
            let ghost first = runs@;
            if inside.len > 0 {
                runs.push(inside);
            }
            assert(runs@ =~= first + kept(inside));
            let ghost second = runs@;
            if after.len > 0 {
                runs.push(after);
            }
            assert(runs@ =~= second + kept(after));
            runs
        },
    }
}

/// Replacing one character by another of the same width keeps the byte
/// length.
proof fn lemma_same_width(a: Seq<char>, b: Seq<char>, from: char)
    requires
        b == replaced(a, from, ' '),
        from == '\r' || from == '\n',
    ensures
        encode_utf8(b).len() == encode_utf8(a).len(),
    decreases a.len(),
{
    if a.len() > 0 {
        let a2 = a.drop_first();
        let b2 = b.drop_first();
        assert(b2 =~= replaced(a2, from, ' '));
        lemma_same_width(a2, b2, from);
        vstd::utf8::char_is_scalar(a[0]);
        vstd::utf8::char_is_scalar(b[0]);
    }
}

} // verus!
