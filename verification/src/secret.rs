//! Secret text that is erased from memory when it is dropped.
//!
//! A `Secret` holds its text in a `zeroize::Zeroizing<String>`, which
//! overwrites the buffer in its destructor. This module is the whole of what
//! the library assumes of that type.

use vstd::prelude::*;
use zeroize::Zeroizing;

verus! {

/// A text under erasure.
///
/// Trusted: the field is a `Zeroizing<String>`, which Verus does not read;
/// `secret_text` names what it holds.
#[verifier::external_body]
pub struct Secret {
    text: Zeroizing<String>,
}

/// The text that a `Secret` holds.
pub uninterp spec fn secret_text(z: Secret) -> Seq<char>;

/// The text of an optional secret.
pub open spec fn secret_text_of(o: Option<Secret>) -> Option<Seq<char>> {
    match o {
        Some(z) => Some(secret_text(z)),
        None => None,
    }
}

/// Puts `s` under erasure.
///
/// Trusted: calls `Zeroizing::new`, which moves its argument into the
/// wrapper unchanged. The contract claims that the secret holds the text of
/// `s`.
#[verifier::external_body]
pub(crate) fn seal(s: String) -> (z: Secret)
    ensures
        secret_text(z) == s@,
{
    Secret { text: Zeroizing::new(s) }
}

/// The text of a secret, for the time of the borrow.
///
/// Trusted: calls `Deref::deref` of `Zeroizing`, which returns a reference
/// to the wrapped value. The contract claims that the text handed out is the
/// text that the secret holds.
#[verifier::external_body]
pub(crate) fn expose(z: &Secret) -> (s: &str)
    ensures
        s@ == secret_text(*z),
{
    z.text.as_str()
}

} // verus!
