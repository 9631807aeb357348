//! The host's hashing and signature-recovery primitives.
use vstd::prelude::*;

verus! {

#[verifier::external_type_specification]
#[verifier::external_body]
pub struct ExEnvError(ink_env::Error);

/// The Keccak-256 digest of a message.
pub uninterp spec fn keccak256_of(msg: Seq<u8>) -> Seq<u8>;

/// The compressed public key that secp256k1 recovery yields for a signature
/// and a digest, or `None` where there is none.
pub uninterp spec fn recovered_key(signature: Seq<u8>, digest: Seq<u8>) -> Option<Seq<u8>>;

/// Relies on `ink_env::hash_bytes::<Keccak256>`: a 32-byte digest that depends
/// on the message alone.
#[verifier::external_body]
pub(crate) fn keccak256(msg: &[u8]) -> (r: [u8; 32])
    ensures
        r@ == keccak256_of(msg@),
{
    let mut out = [0u8; 32];
    ink_env::hash_bytes::<ink_env::hash::Keccak256>(msg, &mut out);
    out
}

/// The recovery byte is one that the host accepts: 0 to 3, or 27 to 30.
pub open spec fn recovery_byte_ok(v: u8) -> bool {
    v <= 3 || (27 <= v && v <= 30)
}

/// Relies on `ink_env::ecdsa_recover`: it writes the 33-byte compressed key
/// recovered from the signature and digest and returns `Ok`, or returns an
/// error where recovery fails. The host panics on a recovery byte it does not
/// accept and on an `r` or `s` that is not below the curve order, so those
/// inputs are left out.
#[verifier::external_body]
pub(crate) fn ecdsa_recover(signature: &[u8; 65], message_hash: &[u8; 32]) -> (r: Result<[u8; 33], ink_env::Error>)
    requires
        recovery_byte_ok(signature@[64]),
        crate::package::scalar_ok(signature@.subrange(0, 32)),
        crate::package::scalar_ok(signature@.subrange(32, 64)),
    ensures
        r matches Ok(k) ==> recovered_key(signature@, message_hash@) == Some(k@),
        r is Err ==> recovered_key(signature@, message_hash@) is None,
{
    let mut out = [0u8; 33];
    match ink_env::ecdsa_recover(signature, message_hash, &mut out) {
        Ok(()) => Ok(out),
        Err(e) => Err(e),
    }
}

} // verus!
