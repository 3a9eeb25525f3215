//! Secrets that are erased when they go out of scope.

use vstd::prelude::*;

verus! {

/// `n` zero bytes, which is what an erased secret holds.
pub open spec fn erased(n: nat) -> Seq<u8> {
    Seq::new(n, |i: int| 0u8)
}

/// `<[u8; N] as zeroize::Zeroize>::zeroize`: every byte becomes zero.
#[verifier::external_body]
fn zeroize_array<const N: usize>(bytes: &mut [u8; N])
    ensures
        final(bytes)@ == erased(N as nat),
    opens_invariants none
    no_unwind
{
    zeroize::Zeroize::zeroize(bytes);
}

/// `<Vec<u8> as zeroize::Zeroize>::zeroize`: every byte is overwritten and the
/// vector is left empty.
#[verifier::external_body]
pub(crate) fn zeroize_vec(bytes: &mut Vec<u8>)
    ensures
        final(bytes)@ == Seq::<u8>::empty(),
    opens_invariants none
    no_unwind
{
    zeroize::Zeroize::zeroize(bytes);
}

/// `N` secret bytes. Dropping them erases them.
pub struct Secret<const N: usize> {
    bytes: [u8; N],
}

impl<const N: usize> View for Secret<N> {
    type V = Seq<u8>;

    closed spec fn view(&self) -> Seq<u8> {
        self.bytes@
    }
}

impl<const N: usize> Secret<N> {
    /// Take charge of `bytes`.
    pub fn new(bytes: [u8; N]) -> (secret: Self)
        ensures
            secret@ == bytes@,
            secret@.len() == N,
    {
        Secret { bytes }
    }

    /// The bytes themselves.
    pub fn as_ref(&self) -> (bytes: &[u8; N])
        ensures
            bytes@ == self@,
    {
        &self.bytes
    }

    /// Erase the bytes now rather than when the value is dropped.
    pub fn zeroize(&mut self)
        ensures
            final(self)@ == erased(N as nat),
        opens_invariants none
        no_unwind
    {
        zeroize_array(&mut self.bytes);
    }
}

impl<const N: usize> Clone for Secret<N> {
    fn clone(&self) -> (copy: Self)
        ensures
            copy@ == self@,
    {
        Secret { bytes: self.bytes }
    }
}

impl<const N: usize> Drop for Secret<N> {
    fn drop(&mut self)
        ensures
            final(self)@ == erased(N as nat),
        opens_invariants none
        no_unwind
    {
        zeroize_array(&mut self.bytes);
    }
}

/// A secret whose length is known only at run time. Dropping it erases it.
pub struct SecretVec {
    bytes: Vec<u8>,
}

impl View for SecretVec {
    type V = Seq<u8>;

    closed spec fn view(&self) -> Seq<u8> {
        self.bytes@
    }
}

impl SecretVec {
    /// Take charge of `bytes`.
    pub fn new(bytes: Vec<u8>) -> (secret: Self)
        ensures
            secret@ == bytes@,
    {
        SecretVec { bytes }
    }

    /// The bytes themselves.
    pub fn as_slice(&self) -> (bytes: &[u8])
        ensures
            bytes@ == self@,
    {
        self.bytes.as_slice()
    }
}

impl Drop for SecretVec {
    fn drop(&mut self)
        ensures
            final(self)@ == Seq::<u8>::empty(),
        opens_invariants none
        no_unwind
    {
        zeroize_vec(&mut self.bytes);
    }
}

/// `<String as zeroize::Zeroize>::zeroize`: every byte is overwritten and the
/// string is left empty.
#[verifier::external_body]
fn zeroize_string(text: &mut String)
    ensures
        final(text)@ == Seq::<char>::empty(),
    opens_invariants none
    no_unwind
{
    zeroize::Zeroize::zeroize(text);
}

/// A secret text. Dropping it erases it.
pub struct SecretText {
    text: String,
}

impl View for SecretText {
    type V = Seq<char>;

    closed spec fn view(&self) -> Seq<char> {
        self.text@
    }
}

impl SecretText {
    /// Take charge of `text`.
    pub fn new(text: String) -> (secret: Self)
        ensures
            secret@ == text@,
    {
        SecretText { text }
    }

    /// The text itself.
    pub fn as_str(&self) -> (text: &str)
        ensures
            text@ == self@,
    {
        self.text.as_str()
    }
}

impl Drop for SecretText {
    fn drop(&mut self)
        ensures
            final(self)@ == Seq::<char>::empty(),
        opens_invariants none
        no_unwind
    {
        zeroize_string(&mut self.text);
    }
}

/// Of an erased secret nothing is left: every byte is zero.
pub proof fn law_nothing_is_left_of_an_erased_secret(n: nat, i: int)
    requires
        0 <= i < n,
    ensures
        erased(n).len() == n,
        erased(n)[i] == 0,
{
}

} // verus!
