//! `SecretVec`: an owned byte buffer for key material that is wiped when it
//! is dropped.
use vstd::prelude::*;
use zeroize::Zeroize;

verus! {

/// Bytes that must not outlive their use: master passwords, derived keys and
/// generated passwords. Its contents are overwritten with zeros on drop.
pub struct SecretVec {
    data: Vec<u8>,
}

impl View for SecretVec {
    type V = Seq<u8>;

    closed spec fn view(&self) -> Seq<u8> {
        self.data@
    }
}

/// Overwrites every byte of `v` with zero and empties it: calls `Zeroize::zeroize`
/// on the `Vec<u8>`, which zeroes the spare capacity and the elements with
/// volatile writes and then calls `clear`. Trusted: the vector is empty afterwards.
#[verifier::external_body]
fn zeroize_bytes(v: &mut Vec<u8>)
    ensures
        final(v)@ == Seq::<u8>::empty(),
    opens_invariants none
    no_unwind
{
    v.zeroize();
}

impl SecretVec {
    /// Takes ownership of `data`. Never fails.
    pub fn new(data: Vec<u8>) -> (r: Result<Self, String>)
        ensures
            r matches Ok(s) && s@ == data@,
    {
        Ok(SecretVec { data })
    }

    /// The secret bytes.
    pub fn as_bytes(&self) -> (b: &[u8])
        ensures
            b@ == self@,
    {
        self.data.as_slice()
    }

    /// The number of secret bytes.
    pub fn len(&self) -> (n: usize)
        ensures
            n == self@.len(),
    {
        self.data.len()
    }

    /// Whether there are no secret bytes.
    pub fn is_empty(&self) -> (b: bool)
        ensures
            b == (self@.len() == 0),
    {
        self.data.len() == 0
    }
}

impl Drop for SecretVec {
    fn drop(&mut self)
        ensures
            final(self)@ == Seq::<u8>::empty(),
        opens_invariants none
        no_unwind
    {
        zeroize_bytes(&mut self.data);
    }
}

} // verus!
