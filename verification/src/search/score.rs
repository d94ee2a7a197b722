use crate::ascii::fold_bytes;
use crate::rank::{is_subsequence, match_score};
use vstd::prelude::*;
use vstd::string::StringSliceAdditionalSpecFns;

verus! {

/// Score `needle` against `haystack` (both folded); `raw` is the haystack
/// with its case kept. The same scoring as `rank::score`.
pub fn score(needle: &[u8], haystack: &[u8], raw: &[u8]) -> (r: Option<i32>)
    requires
        haystack.len() <= raw.len(),
    ensures
        match r {
            Some(v) => match_score(needle@, haystack@, raw@) == Some(v as int),
            None => match_score(needle@, haystack@, raw@) is None,
        },
        r is Some <==> (needle@.len() <= haystack@.len() && is_subsequence(needle@, haystack@)),
{
    crate::rank::score(needle, haystack, raw)
}

/// ASCII-lowercase fold of `value`'s bytes.
pub fn fold(value: &str) -> (r: Vec<u8>)
    ensures
        r@ == fold_bytes(value.spec_bytes()),
{
    crate::rank::fold(value)
}

} // verus!
