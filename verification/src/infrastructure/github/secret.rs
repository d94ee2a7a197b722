//! Secrets held in `zeroize::Zeroizing`, so their memory is wiped on drop.
use vstd::prelude::*;
use zeroize::Zeroizing;

verus! {

/// A secret string, held in a `Zeroizing<String>` that wipes it when
/// dropped. Verus does not see inside; `secret_text` names what it holds.
#[verifier::external_body]
#[derive(Debug)]
pub struct Secret {
    text: Zeroizing<String>,
}

/// The text a `Secret` holds.
pub uninterp spec fn secret_text(s: Secret) -> Seq<char>;

/// Calls `Zeroizing::new`, which moves the string inside the wrapper; the
/// contract claims the secret then holds that text.
#[verifier::external_body]
pub(crate) fn seal(s: String) -> (r: Secret)
    ensures
        secret_text(r) == s@,
{
    Secret { text: Zeroizing::new(s) }
}

/// Calls `Zeroizing`'s `Deref` and borrows the string as `&str`; the
/// contract claims it is the text the secret holds.
#[verifier::external_body]
pub(crate) fn unseal(s: &Secret) -> (r: &str)
    ensures
        r@ == secret_text(*s),
{
    s.text.as_str()
}

} // verus!
