use crate::domain::version_order::{lemma_version_order_total, version_cmp, version_order};
use crate::order::{is_sign, is_total_order, lemma_lex, lex, lex_sign, then};
use crate::sign::{ordering_for, ordering_of, ordering_sign};
use vstd::std_specs::cmp::PartialOrdSpecImpl;
use crate::text::{owned, trim, trimmed};
use std::cmp::Ordering;
use vstd::prelude::*;
use vstd::string::StringSliceAdditionalSpecFns;
use vstd::utf8::encode_utf8;

verus! {

/// A non-empty, trimmed version string.
#[derive(Debug, PartialEq, Eq, Hash)]
pub struct Version(String);

impl View for Version {
    type V = Seq<char>;

    closed spec fn view(&self) -> Seq<char> {
        self.0@
    }
}

impl Clone for Version {
    fn clone(&self) -> (r: Self)
        ensures
            r@ == self@,
    {
        Version(self.0.clone())
    }
}

/// The order `Version::cmp` gives: Homebrew's version order first, then the
/// exact text, so that only identical versions compare equal.
pub open spec fn version_text_order(a: Seq<char>, b: Seq<char>) -> int {
    then(version_order(encode_utf8(a), encode_utf8(b)), lex(encode_utf8(a), encode_utf8(b)))
}

impl Version {
    /// A version from `value` without surrounding white space; `None` where
    /// nothing is left.
    pub fn new(value: &str) -> (r: Option<Version>)
        ensures
            r is Some <==> trimmed(value@).len() > 0,
            r matches Some(v) ==> v@ == trimmed(value@),
    {
        let t = trim(value);
        if t.is_empty() {
            None
        } else {
            Some(Version(owned(t)))
        }
    }

    pub fn as_str(&self) -> (r: &str)
        ensures
            r@ == self@,
    {
        self.0.as_str()
    }

    /// Whether two versions are the same text.
    pub fn same(&self, other: &Version) -> (r: bool)
        ensures
            r == (self@ == other@),
    {
        self.0 == other.0
    }

    /// Versions ordered as Homebrew orders them, ties broken by their text.
    pub fn cmp(&self, other: &Version) -> (o: Ordering)
        ensures
            ordering_sign(o) == version_text_order(self@, other@),
            o == Ordering::Equal <==> self@ == other@,
    {
        proof {
            version_ordering_is_total();
            let f = |a: Seq<char>, b: Seq<char>| version_text_order(a, b);
            assert(f(self@, other@) == version_text_order(self@, other@));
        }
        let a = self.0.as_str();
        let b = other.0.as_str();
        let primary = version_cmp(a, b);
        match primary {
            Ordering::Equal => {
                let s = lex_sign(a.as_bytes(), b.as_bytes());
                proof {
                    lemma_lex(a.spec_bytes(), b.spec_bytes(), a.spec_bytes());
                }
                ordering_of(s)
            },
            _ => primary,
        }
    }
}

/// Versions compare as `Version::cmp` orders them; every two are comparable.
impl PartialOrd for Version {
    fn partial_cmp(&self, other: &Version) -> (r: Option<Ordering>) {
        let o = self.cmp(other);
        assert(o == ordering_for(ordering_sign(o)));
        Some(o)
    }
}

impl PartialOrdSpecImpl for Version {
    open spec fn obeys_partial_cmp_spec() -> bool {
        true
    }

    open spec fn partial_cmp_spec(&self, other: &Version) -> Option<Ordering> {
        Some(ordering_for(version_text_order(self@, other@)))
    }
}

/// `Version::cmp` is a strict total order whose ties are identical versions:
/// swapping reverses it, it is transitive, and `Equal` means the same text.
pub proof fn version_ordering_is_total()
    ensures
        is_total_order(|a: Seq<char>, b: Seq<char>| version_text_order(a, b)),
{
    let f = |a: Seq<char>, b: Seq<char>| version_text_order(a, b);
    lemma_version_order_total();
    let g = |x: Seq<u8>, y: Seq<u8>| version_order(x, y);
    assert forall|a: Seq<char>, b: Seq<char>| #[trigger] f(a, b) == -f(b, a) && is_sign(f(a, b))
        && (f(a, b) == 0 <==> a == b) by {
        let (x, y) = (encode_utf8(a), encode_utf8(b));
        assert(g(x, y) == -g(y, x) && is_sign(g(x, y)));
        lemma_lex(x, y, x);
        if f(a, b) == 0 {
            vstd::utf8::encode_utf8_decode_utf8(a);
            vstd::utf8::encode_utf8_decode_utf8(b);
        }
    }
    assert forall|a: Seq<char>, b: Seq<char>, c: Seq<char>|
        #[trigger] f(a, b) < 0 && #[trigger] f(b, c) < 0 implies f(a, c) < 0 by {
        let (x, y, z) = (encode_utf8(a), encode_utf8(b), encode_utf8(c));
        assert(g(x, y) <= 0 && g(y, z) <= 0 ==> g(x, z) <= 0);
        assert(g(x, z) <= 0 && g(z, y) <= 0 ==> g(x, y) <= 0);
        assert(g(z, x) <= 0 && g(x, y) <= 0 ==> g(z, y) <= 0);
        assert(g(y, z) <= 0 && g(z, x) <= 0 ==> g(y, x) <= 0);
        assert(g(x, y) == -g(y, x) && is_sign(g(x, y)));
        assert(g(y, z) == -g(z, y) && is_sign(g(y, z)));
        assert(g(x, z) == -g(z, x) && is_sign(g(x, z)));
        lemma_lex(x, y, z);
        lemma_lex(x, z, y);
        lemma_lex(y, z, x);
    }
}

/// The order of versions on three given texts: swapping reverses it,
/// `0` means the same text, and `<=` chains.
pub proof fn lemma_version_text_order(a: Seq<char>, b: Seq<char>, c: Seq<char>)
    ensures
        version_text_order(a, b) == -version_text_order(b, a),
        version_text_order(a, b) == 0 <==> a == b,
        version_text_order(a, b) <= 0 && version_text_order(b, c) <= 0 ==> version_text_order(a, c) <= 0,
        version_text_order(a, b) < 0 && version_text_order(b, c) <= 0 ==> version_text_order(a, c) < 0,
{
    version_ordering_is_total();
    let f = |x: Seq<char>, y: Seq<char>| version_text_order(x, y);
    assert(f(a, b) == -f(b, a));
    assert(f(a, b) == 0 <==> a == b);
    assert(f(b, c) == 0 <==> b == c);
    assert(f(a, c) == 0 <==> a == c);
    if f(a, b) < 0 && f(b, c) < 0 {
        assert(f(a, c) < 0);
    }
}

} // verus!
