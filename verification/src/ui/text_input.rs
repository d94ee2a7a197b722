//! Offsets in the search field's text: UTF-8 byte offsets for Rust,
//! UTF-16 offsets for the platform's input methods, character and grapheme
//! boundaries for the cursor.
use crate::text::{chars_of, from_chars};
use std::ops::Range;
use unicode_segmentation::UnicodeSegmentation;
use vstd::prelude::*;
use vstd::string::StringSliceAdditionalSpecFns;
use vstd::utf8::{encode_scalar, encode_utf8};

verus! {

/// How many UTF-8 bytes a character takes.
pub open spec fn utf8_width(c: char) -> nat {
    if (c as u32) <= 0x7F {
        1
    } else if (c as u32) <= 0x7FF {
        2
    } else if (c as u32) <= 0xFFFF {
        3
    } else {
        4
    }
}

/// How many UTF-16 units a character takes.
pub open spec fn utf16_width(c: char) -> nat {
    if (c as u32) <= 0xFFFF {
        1
    } else {
        2
    }
}

/// How many UTF-16 units a text takes.
pub open spec fn utf16_len(s: Seq<char>) -> nat
    decreases s.len(),
{
    if s.len() == 0 {
        0
    } else {
        utf16_len(s.drop_last()) + utf16_width(s.last())
    }
}

/// The byte offset at which character `k` of `s` starts.
pub open spec fn byte_offset(s: Seq<char>, k: int) -> int {
    encode_utf8(s.take(k)).len() as int
}

/// The byte offset of the first character that UTF-16 offset `offset`
/// falls in, scanning from character `k`; the text's length past the end.
pub open spec fn utf8_for_utf16_from(s: Seq<char>, offset: int, k: int) -> int
    decreases s.len() - k,
{
    if k < 0 || k >= s.len() {
        byte_offset(s, s.len() as int)
    } else if offset < utf16_len(s.take(k + 1)) {
        byte_offset(s, k)
    } else {
        utf8_for_utf16_from(s, offset, k + 1)
    }
}

/// The byte offset of the character that UTF-16 offset `offset` falls in:
/// an offset inside a surrogate pair lands at the start of its character,
/// one past the end at the end of the text.
pub open spec fn utf8_for_utf16(s: Seq<char>, offset: int) -> int {
    utf8_for_utf16_from(s, offset, 0)
}

/// `r` is the greatest character boundary of `s` at or below `offset`, the
/// boundary before character `k`.
pub open spec fn floor_boundary_at(s: Seq<char>, offset: int, r: int, k: int) -> bool {
    &&& 0 <= k <= s.len()
    &&& r == byte_offset(s, k)
    &&& r <= offset
    &&& (k == s.len() || offset < byte_offset(s, k + 1))
}

proof fn lemma_encode_append(a: Seq<char>, b: Seq<char>)
    ensures
        encode_utf8(a + b) == encode_utf8(a) + encode_utf8(b),
    decreases a.len(),
{
    if a.len() == 0 {
        assert(a + b =~= b);
    } else {
        assert((a + b).drop_first() =~= a.drop_first() + b);
        lemma_encode_append(a.drop_first(), b);
        assert((a + b)[0] == a[0]);
    }
}

proof fn lemma_scalar_width(c: char)
    ensures
        encode_scalar(c as u32).len() == utf8_width(c),
{
    vstd::utf8::char_is_scalar(c);
}

/// The next character boundary is the width of the character further.
proof fn lemma_byte_step(s: Seq<char>, k: int)
    requires
        0 <= k < s.len(),
    ensures
        byte_offset(s, k + 1) == byte_offset(s, k) + utf8_width(s[k]),
{
    assert(s.take(k + 1) =~= s.take(k) + seq![s[k]]);
    lemma_encode_append(s.take(k), seq![s[k]]);
    assert(seq![s[k]].drop_first() =~= Seq::<char>::empty());
    assert(encode_utf8(Seq::<char>::empty()) =~= Seq::<u8>::empty());
    assert(encode_utf8(seq![s[k]]) =~= encode_scalar(s[k] as u32));
    lemma_scalar_width(s[k]);
}

proof fn lemma_utf16_step(s: Seq<char>, k: int)
    requires
        0 <= k < s.len(),
    ensures
        utf16_len(s.take(k + 1)) == utf16_len(s.take(k)) + utf16_width(s[k]),
{
    assert(s.take(k + 1).drop_last() =~= s.take(k));
}

fn char_widths(c: char) -> (r: (usize, usize))
    ensures
        r.0 == utf8_width(c),
        r.1 == utf16_width(c),
{
    let code = c as u32;
    let w8: usize = if code <= 0x7F {
        1
    } else if code <= 0x7FF {
        2
    } else if code <= 0xFFFF {
        3
    } else {
        4
    };
    let w16: usize = if code <= 0xFFFF {
        1
    } else {
        2
    };
    (w8, w16)
}

/// The byte offset for a UTF-16 offset.
pub fn offset_from_utf16(text: &str, offset: usize) -> (r: usize)
    ensures
        r == utf8_for_utf16(text@, offset as int),
{
    let chars = chars_of(text);
    let total = text.as_bytes().len();
    let ghost s = text@;
    let mut utf8: usize = 0;
    let mut utf16: usize = 0;
    let mut k: usize = 0;
    proof {
        assert(s.take(0) =~= Seq::<char>::empty());
    }
    while k < chars.len()
        invariant
            k <= chars.len(),
            chars@ == s,
            s == text@,
            total == encode_utf8(s).len(),
            utf8 == byte_offset(s, k as int),
            utf16 == utf16_len(s.take(k as int)),
            utf16 <= utf8,
            utf8_for_utf16(s, offset as int) == utf8_for_utf16_from(s, offset as int, k as int),
        decreases chars.len() - k,
    {
        let (w8, w16) = char_widths(chars[k]);
        proof {
            lemma_byte_step(s, k as int);
            lemma_utf16_step(s, k as int);
            lemma_byte_bound(s, k + 1);
        }
        if offset < utf16 + w16 {
            assert(offset < utf16_len(s.take(k + 1)));
            assert(utf8_for_utf16_from(s, offset as int, k as int) == byte_offset(s, k as int));
            return utf8;
        }
        utf8 = utf8 + w8;
        utf16 = utf16 + w16;
        k = k + 1;
    }
    assert(s.take(k as int) =~= s);
    utf8
}

/// A character boundary lies within the text.
proof fn lemma_byte_bound(s: Seq<char>, k: int)
    requires
        0 <= k <= s.len(),
    ensures
        byte_offset(s, k) <= encode_utf8(s).len(),
{
    assert(s =~= s.take(k) + s.skip(k));
    lemma_encode_append(s.take(k), s.skip(k));
}

/// The greatest character boundary at or below `offset`, with the index of
/// the character it starts.
pub(crate) fn floor_with_index(text: &str, offset: usize) -> (r: (usize, usize))
    ensures
        floor_boundary_at(text@, offset as int, r.0 as int, r.1 as int),
        utf16_len(text@.take(r.1 as int)) <= usize::MAX,
{
    let chars = chars_of(text);
    let total = text.as_bytes().len();
    let ghost s = text@;
    let mut utf8: usize = 0;
    let mut k: usize = 0;
    proof {
        assert(s.take(0) =~= Seq::<char>::empty());
        lemma_utf16_bound(s, 0);
    }
    while k < chars.len()
        invariant
            k <= chars.len(),
            chars@ == s,
            s == text@,
            total == encode_utf8(s).len(),
            utf8 == byte_offset(s, k as int),
            utf8 <= offset,
        decreases chars.len() - k,
    {
        let (w8, _) = char_widths(chars[k]);
        proof {
            lemma_byte_step(s, k as int);
            lemma_byte_bound(s, k + 1);
        }
        if utf8 + w8 > offset {
            proof {
                lemma_utf16_bound(s, k as int);
                lemma_byte_bound(s, k as int);
            }
            return (utf8, k);
        }
        utf8 = utf8 + w8;
        k = k + 1;
    }
    proof {
        lemma_utf16_bound(s, k as int);
        lemma_byte_bound(s, k as int);
    }
    (utf8, k)
}

/// A text's UTF-16 length never exceeds its UTF-8 length.
proof fn lemma_utf16_bound(s: Seq<char>, k: int)
    requires
        0 <= k <= s.len(),
    ensures
        utf16_len(s.take(k)) <= byte_offset(s, k),
    decreases k,
{
    if k > 0 {
        lemma_utf16_bound(s, k - 1);
        lemma_utf16_step(s, k - 1);
        lemma_byte_step(s, k - 1);
    } else {
        assert(s.take(0) =~= Seq::<char>::empty());
    }
}

/// The greatest character boundary of `text` at or below `offset`.
pub fn floor_char_boundary(text: &str, offset: usize) -> (r: usize)
    ensures
        exists|k: int| floor_boundary_at(text@, offset as int, r as int, k),
{
    let (b, _) = floor_with_index(text, offset);
    b
}

/// An index into the text pulled into range and down to a character
/// boundary.
pub fn clamp_content_index(content: &str, index: usize) -> (r: usize)
    ensures
        exists|k: int| #[trigger] floor_boundary_at(content@, clamped(content@, index as int), r as int, k),
{
    let len = content.as_bytes().len();
    let bounded = if index <= len {
        index
    } else {
        len
    };
    let (b, k) = floor_with_index(content, bounded);
    assert(floor_boundary_at(content@, clamped(content@, index as int), b as int, k as int));
    b
}

/// The UTF-16 offset of a byte offset, pulled into range and down to a
/// character boundary.
pub fn offset_to_utf16(text: &str, offset: usize) -> (r: usize)
    ensures
        exists|k: int|
            #[trigger] floor_boundary_at(text@, clamped(text@, offset as int), byte_offset(text@, k), k)
                && r == utf16_len(text@.take(k)),
{
    let len = text.as_bytes().len();
    let bounded = if offset <= len {
        offset
    } else {
        len
    };
    let (_, k) = floor_with_index(text, bounded);
    let chars = chars_of(text);
    let mut units: usize = 0;
    let mut i: usize = 0;
    proof {
        assert(text@.take(0) =~= Seq::<char>::empty());
    }
    while i < k
        invariant
            i <= k <= chars.len(),
            chars@ == text@,
            units == utf16_len(text@.take(i as int)),
            utf16_len(text@.take(k as int)) <= usize::MAX,
        decreases k - i,
    {
        let (_, w16) = char_widths(chars[i]);
        proof {
            lemma_utf16_step(text@, i as int);
            lemma_utf16_monotone(text@, i + 1, k as int);
        }
        units = units + w16;
        i = i + 1;
    }
    assert(floor_boundary_at(text@, clamped(text@, offset as int), byte_offset(text@, k as int), k as int));
    units
}

proof fn lemma_utf16_monotone(s: Seq<char>, i: int, k: int)
    requires
        0 <= i <= k <= s.len(),
    ensures
        utf16_len(s.take(i)) <= utf16_len(s.take(k)),
    decreases k - i,
{
    if i < k {
        lemma_utf16_monotone(s, i, k - 1);
        lemma_utf16_step(s, k - 1);
    }
}

/// The byte range for a UTF-16 range.
pub fn range_from_utf16(text: &str, range: &Range<usize>) -> (r: Range<usize>)
    ensures
        r.start == utf8_for_utf16(text@, range.start as int),
        r.end == utf8_for_utf16(text@, range.end as int),
{
    Range { start: offset_from_utf16(text, range.start), end: offset_from_utf16(text, range.end) }
}

/// An index pulled into the text's byte range.
pub open spec fn clamped(s: Seq<char>, i: int) -> int {
    if i <= encode_utf8(s).len() {
        i
    } else {
        encode_utf8(s).len() as int
    }
}

/// `after` is `s` with the characters from boundary `ks` to boundary `ke`
/// replaced by `text`: `ks` is the boundary at or below byte `start`, `ke`
/// the one at or below byte `end` unless that falls before `ks`;
/// `inserted` is where the text now lies.
pub open spec fn replaced_between(
    s: Seq<char>,
    start: int,
    end: int,
    text: Seq<char>,
    ks: int,
    ke: int,
    inserted: (int, int),
    after: Seq<char>,
) -> bool {
    &&& floor_boundary_at(s, clamped(s, start), inserted.0, ks)
    &&& exists|k: int|
        #[trigger] floor_boundary_at(s, clamped(s, end), byte_offset(s, k), k) && (if byte_offset(s, k)
            >= inserted.0 {
            ke == k
        } else {
            ke == ks
        })
    &&& after == s.take(ks) + text + s.skip(ke)
    &&& inserted.1 == inserted.0 + encode_utf8(text).len()
}

/// Replace the characters of `content` between the boundaries at or below
/// `range` (its end no lower than its start) with `text`; answers the byte
/// range the text now takes.
pub fn replace_content(content: &mut String, range: Range<usize>, text: &str) -> (r: Range<usize>)
    requires
        encode_utf8(old(content)@).len() + encode_utf8(text@).len() <= usize::MAX,
    ensures
        exists|ks: int, ke: int|
            #[trigger] replaced_between(
                old(content)@,
                range.start as int,
                range.end as int,
                text@,
                ks,
                ke,
                (r.start as int, r.end as int),
                final(content)@,
            ),
{
    let current = content.as_str();
    let len = current.as_bytes().len();
    let s = if range.start <= len {
        range.start
    } else {
        len
    };
    let e = if range.end <= len {
        range.end
    } else {
        len
    };
    let (start, ks) = floor_with_index(current, s);
    let (end0, ke0) = floor_with_index(current, e);
    let ke = if end0 >= start {
        ke0
    } else {
        ks
    };
    let chars = chars_of(current);
    let inserted = chars_of(text);
    let added = text.as_bytes().len();
    proof {
        lemma_byte_bound(old(content)@, ks as int);
    }
    let mut out: Vec<char> = Vec::new();
    let mut i: usize = 0;
    while i < ks
        invariant
            i <= ks <= chars.len(),
            out@ =~= chars@.take(i as int),
        decreases ks - i,
    {
        out.push(chars[i]);
        i = i + 1;
    }
    let mut j: usize = 0;
    while j < inserted.len()
        invariant
            j <= inserted.len(),
            out@ =~= chars@.take(ks as int) + inserted@.take(j as int),
        decreases inserted.len() - j,
    {
        out.push(inserted[j]);
        j = j + 1;
    }
    assert(inserted@.take(j as int) =~= inserted@);
    let mut m: usize = ke;
    while m < chars.len()
        invariant
            ke <= m <= chars.len(),
            out@ =~= chars@.take(ks as int) + inserted@ + chars@.subrange(ke as int, m as int),
        decreases chars.len() - m,
    {
        out.push(chars[m]);
        m = m + 1;
    }
    assert(chars@.subrange(ke as int, m as int) =~= chars@.skip(ke as int));
    *content = from_chars(out.as_slice());
    let r = Range { start, end: start + added };
    assert(floor_boundary_at(old(content)@, clamped(old(content)@, range.end as int), byte_offset(old(content)@, ke0 as int), ke0 as int));
    assert(replaced_between(
        old(content)@,
        range.start as int,
        range.end as int,
        text@,
        ks as int,
        ke as int,
        (r.start as int, r.end as int),
        content@,
    ));
    r
}

// ---- grapheme clusters ---------------------------------------------------------

/// Whether byte `off` starts a character of `s`, or is its end.
pub open spec fn is_boundary(s: Seq<char>, off: int) -> bool {
    exists|k: int| 0 <= k <= s.len() && #[trigger] byte_offset(s, k) == off
}

/// Character boundaries rise strictly.
pub proof fn lemma_byte_monotone(s: Seq<char>, i: int, k: int)
    requires
        0 <= i < k <= s.len(),
    ensures
        byte_offset(s, i) < byte_offset(s, k),
    decreases k - i,
{
    lemma_byte_step(s, k - 1);
    if i < k - 1 {
        lemma_byte_monotone(s, i, k - 1);
    }
}

/// The boundary at or below a boundary is that boundary.
pub proof fn lemma_floor_of_boundary(s: Seq<char>, k0: int, b: int, k: int)
    requires
        0 <= k0 <= s.len(),
        floor_boundary_at(s, byte_offset(s, k0), b, k),
    ensures
        k == k0,
        b == byte_offset(s, k0),
{
    if k < k0 {
        if k + 1 < k0 {
            lemma_byte_monotone(s, k + 1, k0);
        }
    } else if k > k0 {
        lemma_byte_monotone(s, k0, k);
    }
}

/// The byte offsets at which `unicode_segmentation` starts the extended
/// grapheme clusters of a text, in order.
pub uninterp spec fn grapheme_starts(s: Seq<char>) -> Seq<usize>;

/// Calls `UnicodeSegmentation::grapheme_indices` with extended clusters and
/// keeps each cluster's byte offset. The contract claims that the offsets
/// are the ones `grapheme_starts` names and, as the crate's source shows
/// (each cluster is a non-empty slice of the text, taken in order), that
/// they rise strictly and each is a character boundary inside the text;
/// where clusters break is left to the Unicode segmentation rules the
/// crate implements.
#[verifier::external_body]
fn grapheme_offsets(text: &str) -> (r: Vec<usize>)
    ensures
        r@ == grapheme_starts(text@),
        forall|i: int| 0 <= i < r@.len() ==> is_boundary(text@, #[trigger] r@[i] as int),
        forall|i: int| 0 <= i < r@.len() ==> #[trigger] r@[i] < encode_utf8(text@).len(),
        forall|i: int, j: int| 0 <= i < j < r@.len() ==> #[trigger] r@[i] < #[trigger] r@[j],
{
    text.grapheme_indices(true).map(|(index, _)| index).collect()
}

/// The start of the last cluster that starts before `offset`, or 0.
pub open spec fn previous_start(starts: Seq<usize>, offset: int) -> int
    decreases starts.len(),
{
    if starts.len() == 0 {
        0
    } else if starts.last() < offset {
        starts.last() as int
    } else {
        previous_start(starts.drop_last(), offset)
    }
}

/// The start of the first cluster that starts after `offset`, or `end`.
pub open spec fn next_start(starts: Seq<usize>, offset: int, end: int) -> int
    decreases starts.len(),
{
    if starts.len() == 0 {
        end
    } else if starts[0] > offset {
        starts[0] as int
    } else {
        next_start(starts.drop_first(), offset, end)
    }
}

/// Where the cursor lands on Left: the grapheme boundary before `offset`.
pub fn previous_boundary(text: &str, offset: usize) -> (r: usize)
    ensures
        r == previous_start(grapheme_starts(text@), offset as int),
        is_boundary(text@, r as int),
{
    let starts = grapheme_offsets(text);
    let mut i = starts.len();
    assert(starts@.take(i as int) =~= starts@);
    while i > 0
        invariant
            i <= starts.len(),
            starts@ == grapheme_starts(text@),
            forall|j: int| 0 <= j < starts@.len() ==> is_boundary(text@, #[trigger] starts@[j] as int),
            previous_start(starts@, offset as int) == previous_start(starts@.take(i as int), offset as int),
        decreases i,
    {
        assert(starts@.take(i as int).drop_last() =~= starts@.take(i - 1));
        assert(starts@.take(i as int).last() == starts@[i - 1]);
        if starts[i - 1] < offset {
            return starts[i - 1];
        }
        i = i - 1;
    }
    assert(byte_offset(text@, 0) == 0) by {
        assert(text@.take(0) =~= Seq::<char>::empty());
    }
    0
}

/// Where the cursor lands on Right: the grapheme boundary after `offset`,
/// or the end of the text.
pub fn next_boundary(text: &str, offset: usize) -> (r: usize)
    ensures
        r == next_start(grapheme_starts(text@), offset as int, encode_utf8(text@).len() as int),
        is_boundary(text@, r as int),
{
    let starts = grapheme_offsets(text);
    let end = text.as_bytes().len();
    let mut i: usize = 0;
    assert(starts@.skip(0) =~= starts@);
    while i < starts.len()
        invariant
            i <= starts.len(),
            starts@ == grapheme_starts(text@),
            forall|j: int| 0 <= j < starts@.len() ==> is_boundary(text@, #[trigger] starts@[j] as int),
            end == encode_utf8(text@).len(),
            next_start(starts@, offset as int, end as int) == next_start(starts@.skip(i as int), offset as int, end as int),
        decreases starts.len() - i,
    {
        assert(starts@.skip(i as int).drop_first() =~= starts@.skip(i + 1));
        assert(starts@.skip(i as int)[0] == starts@[i as int]);
        if starts[i] > offset {
            return starts[i];
        }
        i = i + 1;
    }
    assert(byte_offset(text@, text@.len() as int) == end) by {
        assert(text@.take(text@.len() as int) =~= text@);
    }
    end
}

// ---- boundaries after an edit -------------------------------------------------------

/// UTF-16 offsets land on character boundaries inside the text.
pub proof fn lemma_utf16_lands_on_boundary(s: Seq<char>, offset: int)
    ensures
        is_boundary(s, utf8_for_utf16(s, offset)),
        utf8_for_utf16(s, offset) <= encode_utf8(s).len(),
{
    lemma_utf16_from_lands(s, offset, 0);
}

proof fn lemma_utf16_from_lands(s: Seq<char>, offset: int, k: int)
    requires
        0 <= k,
    ensures
        is_boundary(s, utf8_for_utf16_from(s, offset, k)),
        utf8_for_utf16_from(s, offset, k) <= encode_utf8(s).len(),
    decreases s.len() - k,
{
    lemma_byte_bound(s, s.len() as int);
    if k < s.len() {
        lemma_byte_bound(s, k);
        lemma_utf16_from_lands(s, offset, k + 1);
    }
}

/// After an edit, the text's boundaries stand where the inserted text
/// begins, at each of its own boundaries, and where it ends.
pub proof fn lemma_edit_boundaries(
    s: Seq<char>,
    start: int,
    end: int,
    text: Seq<char>,
    ks: int,
    ke: int,
    inserted: (int, int),
    after: Seq<char>,
    j: int,
)
    requires
        replaced_between(s, start, end, text, ks, ke, inserted, after),
        0 <= j <= text.len(),
    ensures
        is_boundary(after, inserted.0 + byte_offset(text, j)),
        byte_offset(after, ks + j) == inserted.0 + byte_offset(text, j),
{
    let k = choose|k: int|
        #[trigger] floor_boundary_at(s, clamped(s, end), byte_offset(s, k), k) && (if byte_offset(s, k)
            >= inserted.0 {
            ke == k
        } else {
            ke == ks
        });
    assert(0 <= ke <= s.len());
    assert(after.take(ks + j) =~= s.take(ks) + text.take(j));
    lemma_encode_append(s.take(ks), text.take(j));
    assert(0 <= ks + j <= after.len());
    assert(byte_offset(after, ks + j) == inserted.0 + byte_offset(text, j));
}

/// An edit ends where the inserted text ends.
pub proof fn lemma_edit_end(
    s: Seq<char>,
    start: int,
    end: int,
    text: Seq<char>,
    ks: int,
    ke: int,
    inserted: (int, int),
    after: Seq<char>,
)
    requires
        replaced_between(s, start, end, text, ks, ke, inserted, after),
    ensures
        is_boundary(after, inserted.0),
        is_boundary(after, inserted.1),
{
    lemma_edit_boundaries(s, start, end, text, ks, ke, inserted, after, 0);
    lemma_edit_boundaries(s, start, end, text, ks, ke, inserted, after, text.len() as int);
    assert(text.take(0) =~= Seq::<char>::empty());
    assert(text.take(text.len() as int) =~= text);
}

/// A character boundary lies within the text.
pub proof fn lemma_byte_bound_pub(s: Seq<char>, k: int)
    requires
        0 <= k <= s.len(),
    ensures
        byte_offset(s, k) <= encode_utf8(s).len(),
{
    lemma_byte_bound(s, k);
}

} // verus!
