use vstd::prelude::*;

verus! {

/// Why a payload was rejected. Every error rejects the whole call.
#[derive(Debug, Clone, Copy, PartialEq, Eq, Structural)]
pub enum OracleError {
    /// The last nine bytes are not the fixed marker.
    InvalidMarker,
    /// A field would lie outside the payload.
    TruncatedPayload,
    /// The value given for the requested feed does not fit in 128 bits.
    NumberTooWide,
    /// A package carries a zero timestamp.
    InvalidTimestamp,
    /// No public key could be recovered from a package's signature.
    SignatureRecoveryFailed,
    /// A recovered key is not in the list of authorised signers.
    UnauthorizedSigner,
    /// Fewer distinct signers gave the feed than the threshold asks for.
    InsufficientSigners,
    /// There are no values to aggregate.
    EmptyAggregationSet,
}

} // verus!
