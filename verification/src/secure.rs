//! Secure memory handling for upstream API keys.
//!
//! API keys are kept inside a `Zeroizing<String>`, so they are wiped when
//! dropped, and are only handed out as a short-lived borrowed view — never
//! a clone, never a logging copy.
use vstd::prelude::*;

use zeroize::{Zeroize, Zeroizing};

verus! {

/// A secret string that wipes itself when dropped.
///
/// The text sits in a `zeroize::Zeroizing<String>`; Verus sees the struct
/// only through `secret_text` and the wrappers below.
#[verifier::external_body]
pub struct Secret {
    inner: Zeroizing<String>,
}

/// The characters that a `Secret` holds.
pub uninterp spec fn secret_text(s: Secret) -> Seq<char>;

/// Moves `value` into `Zeroizing::new`, which owns it from then on and
/// wipes its buffer on drop; the result holds exactly those characters.
#[verifier::external_body]
fn zeroizing_new(value: String) -> (s: Secret)
    ensures
        secret_text(s) == value@,
{
    Secret { inner: Zeroizing::new(value) }
}

/// Borrows the `String` inside the `Zeroizing` through its `Deref`; the
/// borrowed text is the text held.
#[verifier::external_body]
fn zeroizing_str(s: &Secret) -> (r: &str)
    ensures
        r@ == secret_text(*s),
{
    s.inner.as_str()
}

/// Calls `Zeroize::zeroize` on the `Zeroizing<String>`: the string's bytes
/// and spare capacity are overwritten with zeros and the string is then
/// cleared, so it holds no characters.
#[verifier::external_body]
fn zeroizing_wipe(s: &mut Secret)
    ensures
        secret_text(*final(s)) == Seq::<char>::empty(),
{
    s.inner.zeroize()
}

impl View for Secret {
    type V = Seq<char>;

    open spec fn view(&self) -> Seq<char> {
        secret_text(*self)
    }
}

impl Secret {
    /// Wrap a secret value.
    pub fn new(value: String) -> (s: Self)
        ensures
            s@ == value@,
    {
        zeroizing_new(value)
    }

    /// Wrap an empty secret (for the "client supplies Authorization" case).
    pub fn empty() -> (s: Self)
        ensures
            s@.len() == 0,
    {
        zeroizing_new(String::new())
    }

    /// Borrow the secret without copying.
    pub fn as_str(&self) -> (s: &str)
        ensures
            s@ == self@,
    {
        zeroizing_str(self)
    }

    /// Wipe the secret now, before it is dropped: afterwards it holds
    /// nothing.
    pub fn zeroize(&mut self)
        ensures
            final(self)@.len() == 0,
    {
        zeroizing_wipe(self);
    }

    /// True if no upstream key is configured.
    pub fn is_empty(&self) -> (b: bool)
        ensures
            b == (self@.len() == 0),
    {
        let s = zeroizing_str(self);
        s.is_empty()
    }
}

} // verus!
