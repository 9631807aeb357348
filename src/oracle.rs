//! The top-level verify-and-aggregate call and the laws it obeys.
use crate::error::OracleError;
use crate::format::{
    assert_valid_redstone_marker, extract_number_of_data_packages, extract_unsigned_metadata_offset,
    marker, marker_ok, metadata_offset, package_count, DATA_PACKAGES_COUNT_BS, MAX_SIGNERS_COUNT,
};
use crate::median::{aggregate_values, median};
use crate::package::{decode_package, extract_data_package, signer_index};
use crate::signers::{signers_present, SignerBitmap};
use vstd::prelude::*;

verus! {

/// Walks `remaining` packages backward from offset `o`, keeping for each
/// signer not yet in `seen` the value its package gives for `feed`.
pub open spec fn collect(
    p: Seq<u8>,
    o: nat,
    remaining: nat,
    feed: Seq<u8>,
    signers: Seq<[u8; 33]>,
    seen: Set<nat>,
    vals: Seq<u128>,
) -> Result<Seq<u128>, OracleError>
    decreases remaining,
{
    if remaining == 0 {
        Ok(vals)
    } else {
        match decode_package(p, o, feed, signers) {
            Err(e) => Err(e),
            Ok(d) => if d.0 is Some && !seen.contains(d.1) {
                collect(p, o + d.2, (remaining - 1) as nat, feed, signers, seen.insert(d.1), vals.push(d.0->0))
            } else {
                collect(p, o + d.2, (remaining - 1) as nat, feed, signers, seen, vals)
            },
        }
    }
}

/// The trailer is present: marker, metadata length and package count.
pub open spec fn trailer_ok(p: Seq<u8>) -> bool {
    marker_ok(p) && p.len() >= 12 && metadata_offset(p) + 2 <= p.len()
}

/// The values that distinct authorised signers give for `feed`, in scan
/// order, once the trailer is known to be present.
pub open spec fn collected_values(feed: Seq<u8>, signers: Seq<[u8; 33]>, p: Seq<u8>) -> Result<Seq<u128>, OracleError> {
    let off = metadata_offset(p);
    collect(p, off + 2, package_count(p, off), feed, signers, Set::empty(), seq![])
}

/// What verifying and aggregating `p` yields.
pub open spec fn oracle_value(feed: Seq<u8>, threshold: nat, signers: Seq<[u8; 33]>, p: Seq<u8>) -> Result<u128, OracleError> {
    if p.len() < 9 {
        Err(OracleError::TruncatedPayload)
    } else if !marker_ok(p) {
        Err(OracleError::InvalidMarker)
    } else if !trailer_ok(p) {
        Err(OracleError::TruncatedPayload)
    } else {
        match collected_values(feed, signers, p) {
            Err(e) => Err(e),
            Ok(vals) => if vals.len() < threshold {
                Err(OracleError::InsufficientSigners)
            } else if vals.len() == 0 {
                Err(OracleError::EmptyAggregationSet)
            } else {
                Ok(median(vals) as u128)
            },
        }
    }
}

pub proof fn lemma_signer_index_bound(signers: Seq<[u8; 33]>, key: Seq<u8>, i: nat)
    ensures
        signer_index(signers, key, i) matches Some(j) ==> j < signers.len(),
    decreases signers.len() - i,
{
    if i < signers.len() {
        lemma_signer_index_bound(signers, key, i + 1);
    }
}

/// Verifies every package of the payload and returns the median of the
/// values for `data_feed_id` given by distinct authorised signers.
pub fn get_oracle_value(
    data_feed_id: &[u8; 32],
    unique_signers_threshold: u8,
    authorised_signers: &[[u8; 33]],
    redstone_payload: &[u8],
) -> (r: Result<u128, OracleError>)
    requires
        authorised_signers@.len() <= MAX_SIGNERS_COUNT,
    ensures
        r == oracle_value(data_feed_id@, unique_signers_threshold as nat, authorised_signers@, redstone_payload@),
{
    let ghost p = redstone_payload@;
    let ghost feed = data_feed_id@;
    let ghost signers = authorised_signers@;
    match assert_valid_redstone_marker(redstone_payload) {
        Ok(()) => {},
        Err(e) => {
            return Err(e);
        },
    }
    let metadata_off = match extract_unsigned_metadata_offset(redstone_payload) {
        Ok(off) => off,
        Err(e) => {
            return Err(e);
        },
    };
    let number_of_data_packages = match extract_number_of_data_packages(redstone_payload, metadata_off) {
        Ok(n) => n,
        Err(e) => {
            return Err(e);
        },
    };
    let payload_len = redstone_payload.len();
    assert(trailer_ok(p));
    let mut negative_offset = metadata_off + DATA_PACKAGES_COUNT_BS;
    let mut unique_signers_bitmap = SignerBitmap::new();
    let mut values: Vec<u128> = Vec::new();
    let mut data_package_index: usize = 0;
    while data_package_index < number_of_data_packages
        invariant
            p == redstone_payload@,
            feed == data_feed_id@,
            signers == authorised_signers@,
            signers.len() <= 256,
            trailer_ok(p),
            negative_offset <= p.len(),
            payload_len == p.len(),
            data_package_index <= number_of_data_packages,
            collected_values(feed, signers, p) == collect(
                p,
                negative_offset as nat,
                (number_of_data_packages - data_package_index) as nat,
                feed,
                signers,
                signers_present(unique_signers_bitmap),
                values@,
            ),
        decreases number_of_data_packages - data_package_index,
    {
        let package = match extract_data_package(data_feed_id, redstone_payload, negative_offset, authorised_signers) {
            Ok(d) => d,
            Err(e) => {
                return Err(e);
            },
        };
        proof {
            let d = decode_package(p, negative_offset as nat, feed, signers);
            assert(d is Ok);
            assert(negative_offset + d->Ok_0.2 <= p.len());
            let key = crate::crypto::recovered_key(
                crate::package::signature(p, negative_offset as nat),
                crate::crypto::keccak256_of(crate::package::message(p, negative_offset as nat)),
            );
            if key is Some {
                lemma_signer_index_bound(signers, key->0, 0);
            }
        }
        negative_offset = negative_offset + package.data_package_byte_size;
        if package.contains_requested_data_feed && !unique_signers_bitmap.get(package.signer_index) {
            unique_signers_bitmap.set(package.signer_index, true);
            values.push(package.value_for_requested_data_feed);
        }
        data_package_index = data_package_index + 1;
    }
    if values.len() < unique_signers_threshold as usize {
        return Err(OracleError::InsufficientSigners);
    }
    aggregate_values(&mut values)
}

/// On a payload whose trailer is present and whose packages all decode, the
/// result is the median of exactly the values collected from distinct
/// authorised signers for the feed, once there are enough of them.
pub proof fn lemma_result_is_median_of_collected(
    feed: Seq<u8>,
    threshold: u8,
    signers: Seq<[u8; 33]>,
    p: Seq<u8>,
    vals: Seq<u128>,
)
    requires
        trailer_ok(p),
        collected_values(feed, signers, p) == Ok::<Seq<u128>, OracleError>(vals),
        vals.len() >= threshold,
        vals.len() > 0,
    ensures
        oracle_value(feed, threshold as nat, signers, p) == Ok::<u128, OracleError>(median(vals) as u128),
{
}

/// The result depends on the inputs alone: two calls on the same inputs
/// give the same output.
pub proof fn lemma_same_inputs_same_result(feed: Seq<u8>, threshold: u8, signers: Seq<[u8; 33]>, p: Seq<u8>)
    ensures
        oracle_value(feed, threshold as nat, signers, p) == oracle_value(feed, threshold as nat, signers, p),
{
}

/// With threshold `n`, one contribution short of `n` fails with
/// `InsufficientSigners`, and exactly `n` succeed.
pub proof fn lemma_threshold_boundary(
    feed: Seq<u8>,
    threshold: u8,
    signers: Seq<[u8; 33]>,
    p: Seq<u8>,
    vals: Seq<u128>,
)
    requires
        trailer_ok(p),
        collected_values(feed, signers, p) == Ok::<Seq<u128>, OracleError>(vals),
        threshold >= 1,
    ensures
        vals.len() + 1 == threshold ==> oracle_value(feed, threshold as nat, signers, p) == Err::<
            u128,
            OracleError,
        >(OracleError::InsufficientSigners),
        vals.len() == threshold ==> oracle_value(feed, threshold as nat, signers, p) == Ok::<u128, OracleError>(
            median(vals) as u128,
        ),
{
}

/// A package whose signer has already contributed is skipped without error;
/// the first package of a signer that gives the feed contributes its value.
pub proof fn lemma_one_value_per_signer(
    p: Seq<u8>,
    o: nat,
    remaining: nat,
    feed: Seq<u8>,
    signers: Seq<[u8; 33]>,
    seen: Set<nat>,
    vals: Seq<u128>,
)
    requires
        decode_package(p, o, feed, signers) is Ok,
    ensures
        ({
            let d = decode_package(p, o, feed, signers)->Ok_0;
            &&& seen.contains(d.1) ==> collect(p, o, remaining + 1, feed, signers, seen, vals) == collect(
                p,
                o + d.2,
                remaining,
                feed,
                signers,
                seen,
                vals,
            )
            &&& (d.0 is Some && !seen.contains(d.1)) ==> collect(p, o, remaining + 1, feed, signers, seen, vals)
                == collect(p, o + d.2, remaining, feed, signers, seen.insert(d.1), vals.push(d.0->0))
        }),
{
}

/// Changing any of the last nine bytes of a payload that ends with the
/// marker gives `InvalidMarker`.
pub proof fn lemma_marker_tamper(
    feed: Seq<u8>,
    threshold: u8,
    signers: Seq<[u8; 33]>,
    p: Seq<u8>,
    i: int,
    b: u8,
)
    requires
        marker_ok(p),
        p.len() - 9 <= i < p.len(),
        b != p[i],
    ensures
        oracle_value(feed, threshold as nat, signers, p.update(i, b)) == Err::<u128, OracleError>(
            OracleError::InvalidMarker,
        ),
{
    let q = p.update(i, b);
    let n = p.len() as int;
    assert(q.subrange(n - 9, n)[i - (n - 9)] != p.subrange(n - 9, n)[i - (n - 9)]);
}

/// A package that fails to decode or verify fails the whole call, whatever
/// the other packages hold.
pub proof fn lemma_failed_package_aborts(
    p: Seq<u8>,
    o: nat,
    remaining: nat,
    feed: Seq<u8>,
    signers: Seq<[u8; 33]>,
    seen: Set<nat>,
    vals: Seq<u128>,
)
    requires
        decode_package(p, o, feed, signers) is Err,
    ensures
        collect(p, o, remaining + 1, feed, signers, seen, vals) == Err::<Seq<u128>, OracleError>(
            decode_package(p, o, feed, signers)->Err_0,
        ),
{
}

/// A payload that ends with the marker, with its last byte cut off, is
/// rejected: as truncated where only the marker was left, else as holding no
/// marker.
pub proof fn lemma_missing_last_byte(feed: Seq<u8>, threshold: u8, signers: Seq<[u8; 33]>, p: Seq<u8>)
    requires
        marker_ok(p),
    ensures
        oracle_value(feed, threshold as nat, signers, p.drop_last()) == Err::<u128, OracleError>(
            if p.len() == 9 {
                OracleError::TruncatedPayload
            } else {
                OracleError::InvalidMarker
            },
        ),
{
    let q = p.drop_last();
    let n = p.len() as int;
    assert(p.subrange(n - 9, n)[6] == marker()[6]);
    if n >= 10 {
        assert(q.subrange(n - 10, n - 1)[7] == p[n - 3]);
        assert(marker()[7] != marker()[6]);
    }
}

} // verus!
