//! ASCII byte classes, as `u8`'s `is_ascii_*` methods define them.
use vstd::prelude::*;

verus! {

pub open spec fn is_digit(b: u8) -> bool {
    48 <= b <= 57
}

pub open spec fn is_upper(b: u8) -> bool {
    65 <= b <= 90
}

pub open spec fn is_lower(b: u8) -> bool {
    97 <= b <= 122
}

pub open spec fn is_alnum(b: u8) -> bool {
    is_digit(b) || is_upper(b) || is_lower(b)
}

/// ASCII lowercase of one byte; every other byte is unchanged.
pub open spec fn lower(b: u8) -> u8 {
    if is_upper(b) {
        (b + 32) as u8
    } else {
        b
    }
}

/// ASCII lowercase of every byte.
pub open spec fn fold_bytes(s: Seq<u8>) -> Seq<u8> {
    Seq::new(s.len(), |i: int| lower(s[i]))
}

pub fn digit_byte(b: u8) -> (r: bool)
    ensures
        r == is_digit(b),
{
    48 <= b && b <= 57
}

pub fn upper_byte(b: u8) -> (r: bool)
    ensures
        r == is_upper(b),
{
    65 <= b && b <= 90
}

pub fn lower_case_byte(b: u8) -> (r: bool)
    ensures
        r == is_lower(b),
{
    97 <= b && b <= 122
}

pub fn alnum_byte(b: u8) -> (r: bool)
    ensures
        r == is_alnum(b),
{
    digit_byte(b) || upper_byte(b) || lower_case_byte(b)
}

pub fn lower_byte(b: u8) -> (r: u8)
    ensures
        r == lower(b),
{
    if upper_byte(b) {
        b + 32
    } else {
        b
    }
}

/// Copy `b[from..to]` into a new vector.
pub fn copy_range(b: &[u8], from: usize, to: usize) -> (r: Vec<u8>)
    requires
        from <= to <= b.len(),
    ensures
        r@ == b@.subrange(from as int, to as int),
{
    let mut r: Vec<u8> = Vec::new();
    let mut i = from;
    while i < to
        invariant
            from <= i <= to,
            to <= b.len(),
            r@ == b@.subrange(from as int, i as int),
        decreases to - i,
    {
        r.push(b[i]);
        i = i + 1;
        assert(r@ =~= b@.subrange(from as int, i as int));
    }
    r
}

/// ASCII lowercase of every byte of `b`.
pub fn fold_slice(b: &[u8]) -> (r: Vec<u8>)
    ensures
        r@ == fold_bytes(b@),
{
    let mut r: Vec<u8> = Vec::new();
    let mut i: usize = 0;
    while i < b.len()
        invariant
            i <= b.len(),
            r@ =~= fold_bytes(b@).take(i as int),
        decreases b.len() - i,
    {
        r.push(lower_byte(b[i]));
        i = i + 1;
    }
    assert(r@ =~= fold_bytes(b@));
    r
}

} // verus!
