//! Presence set of signer indices, held in a fixed-capacity bitmap.
use vstd::prelude::*;

verus! {

/// A set of signer indices below 256.
#[verifier::external_body]
pub struct SignerBitmap {
    bits: bitmaps::Bitmap<256>,
}

/// The indices whose bit is set.
pub uninterp spec fn signers_present(b: SignerBitmap) -> Set<nat>;

impl SignerBitmap {
    /// Relies on `bitmaps::Bitmap::new`: every bit is false.
    #[verifier::external_body]
    pub(crate) fn new() -> (r: SignerBitmap)
        ensures
            signers_present(r) == Set::<nat>::empty(),
    {
        SignerBitmap { bits: bitmaps::Bitmap::new() }
    }

    /// Relies on `bitmaps::Bitmap::get`: the bit at `index`.
    #[verifier::external_body]
    pub(crate) fn get(&self, index: usize) -> (r: bool)
        requires
            index < 256,
        ensures
            r == signers_present(*self).contains(index as nat),
    {
        self.bits.get(index)
    }

    /// Relies on `bitmaps::Bitmap::set`: sets the bit at `index` to `value`
    /// and returns its previous value.
    #[verifier::external_body]
    pub(crate) fn set(&mut self, index: usize, value: bool) -> (r: bool)
        requires
            index < 256,
        ensures
            r == signers_present(*old(self)).contains(index as nat),
            value ==> signers_present(*final(self)) == signers_present(*old(self)).insert(index as nat),
            !value ==> signers_present(*final(self)) == signers_present(*old(self)).remove(index as nat),
    {
        self.bits.set(index, value)
    }
}

} // verus!
