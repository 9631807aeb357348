//! Wire format of a payload: field widths, the big-endian byte reader and the
//! trailer at the end of the payload.
use crate::error::OracleError;
use vstd::prelude::*;

verus! {

pub const REDSTONE_MARKER_BS: usize = 9;
pub const UNSIGNED_METADATA_BYTE_SIZE_BS: usize = 3;
pub const DATA_PACKAGES_COUNT_BS: usize = 2;
pub const DATA_POINTS_COUNT_BS: usize = 3;
pub const SIGNATURE_BS: usize = 65;
pub const MAX_SIGNERS_COUNT: usize = 256;
pub const DATA_POINT_VALUE_BYTE_SIZE_BS: usize = 4;
pub const DATA_FEED_ID_BS: usize = 32;
pub const TIMESTAMP_BS: usize = 6;
/// Widest integer, in bytes, that the byte reader yields.
pub const MAX_NUMBER_BS: usize = 16;

/// The fixed marker that ends every payload.
pub open spec fn marker() -> Seq<u8> {
    seq![0u8, 0u8, 2u8, 237u8, 87u8, 1u8, 30u8, 0u8, 0u8]
}

/// The unsigned big-endian integer that `s` spells.
pub open spec fn be_value(s: Seq<u8>) -> nat
    decreases s.len(),
{
    if s.len() == 0 {
        0
    } else {
        be_value(s.drop_last()) * 256 + s.last() as nat
    }
}

pub open spec fn pow256(n: nat) -> nat
    decreases n,
{
    if n == 0 {
        1
    } else {
        256 * pow256((n - 1) as nat)
    }
}

pub proof fn lemma_pow256_monotone(a: nat, b: nat)
    requires
        a <= b,
    ensures
        pow256(a) <= pow256(b),
    decreases b,
{
    if a < b {
        lemma_pow256_monotone(a, (b - 1) as nat);
    }
}

pub proof fn lemma_be_value_bound(s: Seq<u8>)
    ensures
        be_value(s) < pow256(s.len()),
    decreases s.len(),
{
    if s.len() > 0 {
        lemma_be_value_bound(s.drop_last());
        let a = be_value(s.drop_last());
        let p = pow256((s.len() - 1) as nat);
        let l = s.last() as nat;
        assert(a * 256 + l < 256 * p) by (nonlinear_arith)
            requires
                a < p,
                l < 256,
        ;
    }
}

/// A number of at most `k` bytes is below `256^k`, so it fits the integer
/// types whose width is `k` bytes.
pub proof fn lemma_be_value_fits(s: Seq<u8>)
    ensures
        s.len() <= 16 ==> be_value(s) <= u128::MAX,
        s.len() <= 4 ==> be_value(s) <= u32::MAX,
{
    lemma_be_value_bound(s);
    reveal_with_fuel(pow256, 17);
    if s.len() <= 16 {
        lemma_pow256_monotone(s.len(), 16);
    }
    if s.len() <= 4 {
        lemma_pow256_monotone(s.len(), 4);
    }
}

/// Reads `number_bytes` as an unsigned big-endian integer.
pub fn bytes_arr_to_number(number_bytes: &[u8]) -> (r: u128)
    requires
        number_bytes@.len() <= MAX_NUMBER_BS,
    ensures
        r == be_value(number_bytes@),
{
    let mut result_number: u128 = 0;
    let mut i: usize = 0;
    while i < number_bytes.len()
        invariant
            i <= number_bytes@.len() <= 16,
            result_number == be_value(number_bytes@.take(i as int)),
        decreases number_bytes@.len() - i,
    {
        let ghost prefix = number_bytes@.take(i as int);
        proof {
            assert(number_bytes@.take(i + 1).drop_last() =~= prefix);
            lemma_be_value_fits(number_bytes@.take(i + 1));
        }
        result_number = result_number * 256 + number_bytes[i] as u128;
        i = i + 1;
    }
    assert(number_bytes@.take(i as int) =~= number_bytes@);
    result_number
}

/// A sequence spells zero exactly when all its bytes are zero.
pub proof fn lemma_be_value_zero(s: Seq<u8>)
    ensures
        (be_value(s) == 0) == (forall|i: int| 0 <= i < s.len() ==> s[i] == 0),
    decreases s.len(),
{
    if s.len() > 0 {
        let d = s.drop_last();
        lemma_be_value_zero(d);
        if be_value(s) == 0 {
            assert forall|i: int| 0 <= i < s.len() implies s[i] == 0 by {
                if i < s.len() - 1 {
                    assert(d[i] == s[i]);
                }
            }
        } else {
            if forall|i: int| 0 <= i < s.len() ==> s[i] == 0 {
                assert forall|i: int| 0 <= i < d.len() implies d[i] == 0 by {
                    assert(d[i] == s[i]);
                }
                assert(s[s.len() - 1] == 0);
            }
        }
    }
}

/// Reads the big-endian integer at `redstone_payload[start..end]`, a field of
/// at most four bytes.
pub fn extract_usize_num_from_redstone_payload(redstone_payload: &[u8], start: usize, end: usize) -> (r: usize)
    requires
        start <= end <= redstone_payload@.len(),
        end - start <= 4,
    ensures
        r == be_value(redstone_payload@.subrange(start as int, end as int)),
{
    let number_bytes = vstd::slice::slice_subrange(redstone_payload, start, end);
    let n = bytes_arr_to_number(number_bytes);
    proof {
        lemma_be_value_fits(number_bytes@);
    }
    n as usize
}

/// Whether `a` and `b` hold the same bytes.
pub fn bytes_eq(a: &[u8], b: &[u8]) -> (r: bool)
    ensures
        r == (a@ == b@),
{
    if a.len() != b.len() {
        return false;
    }
    let mut i: usize = 0;
    while i < a.len()
        invariant
            a@.len() == b@.len(),
            i <= a@.len(),
            forall|j: int| 0 <= j < i ==> a@[j] == b@[j],
        decreases a@.len() - i,
    {
        if a[i] != b[i] {
            return false;
        }
        i = i + 1;
    }
    assert(a@ =~= b@);
    true
}

/// The last nine bytes of `p` are the marker.
pub open spec fn marker_ok(p: Seq<u8>) -> bool {
    p.len() >= 9 && p.subrange(p.len() - 9, p.len() as int) == marker()
}

/// Checks that the payload ends with the marker.
pub fn assert_valid_redstone_marker(redstone_payload: &[u8]) -> (r: Result<(), OracleError>)
    ensures
        r is Ok <==> marker_ok(redstone_payload@),
        redstone_payload@.len() < 9 ==> r == Err::<(), OracleError>(OracleError::TruncatedPayload),
        redstone_payload@.len() >= 9 && !marker_ok(redstone_payload@) ==> r == Err::<(), OracleError>(
            OracleError::InvalidMarker,
        ),
{
    if redstone_payload.len() < REDSTONE_MARKER_BS {
        return Err(OracleError::TruncatedPayload);
    }
    let marker_start_index = redstone_payload.len() - REDSTONE_MARKER_BS;
    let found = vstd::slice::slice_subrange(redstone_payload, marker_start_index, redstone_payload.len());
    let expected: [u8; 9] = [0, 0, 2, 237, 87, 1, 30, 0, 0];
    proof {
        assert(expected@ =~= marker());
    }
    if bytes_eq(found, expected.as_slice()) {
        Ok(())
    } else {
        Err(OracleError::InvalidMarker)
    }
}

/// Distance from the end of the payload to the end of the package count:
/// the metadata length field, the metadata itself and the marker.
pub open spec fn metadata_offset(p: Seq<u8>) -> nat {
    be_value(p.subrange(p.len() - 12, p.len() - 9)) + 12
}

/// Reads the metadata length before the marker and returns the offset from
/// the end of the payload at which the package count ends.
pub fn extract_unsigned_metadata_offset(redstone_payload: &[u8]) -> (r: Result<usize, OracleError>)
    ensures
        redstone_payload@.len() < 12 ==> r == Err::<usize, OracleError>(OracleError::TruncatedPayload),
        redstone_payload@.len() >= 12 ==> r == Ok::<usize, OracleError>(metadata_offset(redstone_payload@) as usize)
            && metadata_offset(redstone_payload@) <= usize::MAX,
{
    if redstone_payload.len() < REDSTONE_MARKER_BS + UNSIGNED_METADATA_BYTE_SIZE_BS {
        return Err(OracleError::TruncatedPayload);
    }
    let end_index = redstone_payload.len() - REDSTONE_MARKER_BS;
    let start_index = end_index - UNSIGNED_METADATA_BYTE_SIZE_BS;
    let unsigned_metadata_bs = extract_usize_num_from_redstone_payload(redstone_payload, start_index, end_index);
    proof {
        lemma_be_value_bound(redstone_payload@.subrange(start_index as int, end_index as int));
        reveal_with_fuel(pow256, 4);
    }
    Ok(unsigned_metadata_bs + UNSIGNED_METADATA_BYTE_SIZE_BS + REDSTONE_MARKER_BS)
}

/// The package count that ends `off` bytes before the end of `p`.
pub open spec fn package_count(p: Seq<u8>, off: nat) -> nat {
    be_value(p.subrange(p.len() - off - 2, p.len() - off))
}

/// Reads the two-byte package count that ends `unsigned_metadata_offset`
/// bytes before the end of the payload.
pub fn extract_number_of_data_packages(redstone_payload: &[u8], unsigned_metadata_offset: usize) -> (r: Result<usize, OracleError>)
    ensures
        unsigned_metadata_offset + 2 > redstone_payload@.len() ==> r == Err::<usize, OracleError>(
            OracleError::TruncatedPayload,
        ),
        unsigned_metadata_offset + 2 <= redstone_payload@.len() ==> r == Ok::<usize, OracleError>(
            package_count(redstone_payload@, unsigned_metadata_offset as nat) as usize,
        ) && package_count(redstone_payload@, unsigned_metadata_offset as nat) <= usize::MAX,
{
    if redstone_payload.len() < DATA_PACKAGES_COUNT_BS || redstone_payload.len() - DATA_PACKAGES_COUNT_BS < unsigned_metadata_offset {
        return Err(OracleError::TruncatedPayload);
    }
    let end_index = redstone_payload.len() - unsigned_metadata_offset;
    let start_index = end_index - DATA_PACKAGES_COUNT_BS;
    Ok(extract_usize_num_from_redstone_payload(redstone_payload, start_index, end_index))
}

} // verus!
