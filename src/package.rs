//! Decoding of one signed data package, read backward from its end.
use crate::crypto::{ecdsa_recover, keccak256, keccak256_of, recovered_key, recovery_byte_ok};
use crate::error::OracleError;
use crate::format::{
    be_value, bytes_arr_to_number, bytes_eq, extract_usize_num_from_redstone_payload,
    lemma_be_value_bound, lemma_be_value_fits, lemma_be_value_zero, pow256, DATA_FEED_ID_BS, DATA_POINTS_COUNT_BS,
    DATA_POINT_VALUE_BYTE_SIZE_BS, MAX_NUMBER_BS, SIGNATURE_BS, TIMESTAMP_BS,
};
use vstd::prelude::*;

verus! {

/// Upper 128 bits of the order of the secp256k1 group.
pub const CURVE_ORDER_HI: u128 = 0xFFFFFFFFFFFFFFFFFFFFFFFFFFFFFFFE;
/// Lower 128 bits of the order of the secp256k1 group.
pub const CURVE_ORDER_LO: u128 = 0xBAAEDCE6AF48A03BBFD25E8CD0364141;

/// A 32-byte big-endian scalar lies below the curve order.
pub open spec fn scalar_ok(s: Seq<u8>) -> bool {
    be_value(s) < CURVE_ORDER_HI as nat * pow256(16) + CURVE_ORDER_LO as nat
}

/// What one package holds: the value it gives for the requested feed, if
/// any; the index of its signer; its size in bytes.
pub struct DataPackageExtractionResult {
    pub contains_requested_data_feed: bool,
    pub value_for_requested_data_feed: u128,
    pub signer_index: usize,
    pub data_package_byte_size: usize,
}

impl DataPackageExtractionResult {
    pub open spec fn view(&self) -> (Option<u128>, nat, nat) {
        (
            if self.contains_requested_data_feed {
                Some(self.value_for_requested_data_feed)
            } else {
                None
            },
            self.signer_index as nat,
            self.data_package_byte_size as nat,
        )
    }
}

/// Index in `p` where the package ends that ends `o` bytes before the end.
pub open spec fn pkg_end(p: Seq<u8>, o: nat) -> int {
    p.len() - o
}

pub open spec fn points_count(p: Seq<u8>, o: nat) -> nat {
    be_value(p.subrange(pkg_end(p, o) - 68, pkg_end(p, o) - 65))
}

pub open spec fn value_width(p: Seq<u8>, o: nat) -> nat {
    be_value(p.subrange(pkg_end(p, o) - 72, pkg_end(p, o) - 68))
}

/// Size of a package without its signature.
pub open spec fn body_size(p: Seq<u8>, o: nat) -> nat {
    (value_width(p, o) + 32) * points_count(p, o) + 13
}

pub open spec fn timestamp(p: Seq<u8>, o: nat) -> nat {
    be_value(p.subrange(pkg_end(p, o) - 78, pkg_end(p, o) - 72))
}

pub open spec fn signature(p: Seq<u8>, o: nat) -> Seq<u8> {
    p.subrange(pkg_end(p, o) - 65, pkg_end(p, o))
}

/// The signed bytes: the whole package but its signature.
pub open spec fn message(p: Seq<u8>, o: nat) -> Seq<u8> {
    p.subrange(pkg_end(p, o) - 65 - body_size(p, o), pkg_end(p, o) - 65)
}

/// Where the `k`-th data point starts, counting back from the timestamp.
pub open spec fn point_start(p: Seq<u8>, o: nat, k: nat) -> int {
    pkg_end(p, o) - 78 - (k + 1) * (value_width(p, o) + 32)
}

pub open spec fn point_feed(p: Seq<u8>, o: nat, k: nat) -> Seq<u8> {
    p.subrange(point_start(p, o, k), point_start(p, o, k) + 32)
}

pub open spec fn point_value(p: Seq<u8>, o: nat, k: nat) -> nat {
    be_value(p.subrange(point_start(p, o, k) + 32, point_start(p, o, k) + 32 + value_width(p, o)))
}

/// The value of the first point from the `k`-th on whose feed is `feed`.
pub open spec fn find_point(p: Seq<u8>, o: nat, feed: Seq<u8>, k: nat) -> Option<nat>
    decreases points_count(p, o) - k,
{
    if k >= points_count(p, o) {
        None
    } else if point_feed(p, o, k) == feed {
        Some(point_value(p, o, k))
    } else {
        find_point(p, o, feed, k + 1)
    }
}

/// The first index from `i` on at which `signers` holds `key`.
pub open spec fn signer_index(signers: Seq<[u8; 33]>, key: Seq<u8>, i: nat) -> Option<nat>
    decreases signers.len() - i,
{
    if i >= signers.len() {
        None
    } else if signers[i as int]@ == key {
        Some(i)
    } else {
        signer_index(signers, key, i + 1)
    }
}

/// The package that ends `o` bytes before the end of `p`, decoded and its
/// signer identified.
pub open spec fn decode_package(p: Seq<u8>, o: nat, feed: Seq<u8>, signers: Seq<[u8; 33]>) -> Result<
    (Option<u128>, nat, nat),
    OracleError,
> {
    let sig = signature(p, o);
    if o + 78 > p.len() {
        Err(OracleError::TruncatedPayload)
    } else if o + 65 + body_size(p, o) > p.len() {
        Err(OracleError::TruncatedPayload)
    } else if timestamp(p, o) == 0 {
        Err(OracleError::InvalidTimestamp)
    } else if find_point(p, o, feed, 0) matches Some(v) && v > u128::MAX {
        Err(OracleError::NumberTooWide)
    } else if !(recovery_byte_ok(sig[64]) && scalar_ok(sig.subrange(0, 32)) && scalar_ok(sig.subrange(32, 64))) {
        Err(OracleError::SignatureRecoveryFailed)
    } else {
        match recovered_key(sig, keccak256_of(message(p, o))) {
            None => Err(OracleError::SignatureRecoveryFailed),
            Some(key) => match signer_index(signers, key, 0) {
                None => Err(OracleError::UnauthorizedSigner),
                Some(i) => Ok(
                    (
                        match find_point(p, o, feed, 0) {
                            Some(v) => Some(v as u128),
                            None => None,
                        },
                        i,
                        body_size(p, o) + 65,
                    ),
                ),
            },
        }
    }
}

pub proof fn lemma_be_value_concat(a: Seq<u8>, b: Seq<u8>)
    ensures
        be_value(a + b) == be_value(a) * pow256(b.len()) + be_value(b),
    decreases b.len(),
{
    if b.len() == 0 {
        assert(a + b =~= a);
        assert(pow256(0) == 1);
        assert(be_value(b) == 0);
    } else {
        let bd = b.drop_last();
        assert((a + b).drop_last() =~= a + bd);
        lemma_be_value_concat(a, bd);
        let x = be_value(a);
        let q = pow256(bd.len());
        let y = be_value(bd);
        let l = b.last() as nat;
        assert((a + b).last() == b.last());
        assert(pow256(b.len()) == 256 * q);
        assert(be_value(a + b) == be_value((a + b).drop_last()) * 256 + (a + b).last() as nat);
        assert(be_value(b) == y * 256 + l);
        assert((x * q + y) * 256 + l == x * (256 * q) + (y * 256 + l)) by (nonlinear_arith);
    }
}

/// Checks that a 32-byte scalar lies below the curve order.
fn scalar_below_order(s: &[u8]) -> (r: bool)
    requires
        s@.len() == 32,
    ensures
        r == scalar_ok(s@),
{
    let hi_bytes = vstd::slice::slice_subrange(s, 0, 16);
    let lo_bytes = vstd::slice::slice_subrange(s, 16, 32);
    let hi = bytes_arr_to_number(hi_bytes);
    let lo = bytes_arr_to_number(lo_bytes);
    proof {
        assert(s@ =~= hi_bytes@ + lo_bytes@);
        lemma_be_value_concat(hi_bytes@, lo_bytes@);
        lemma_be_value_bound(lo_bytes@);
        let pp = pow256(16);
        let nh = CURVE_ORDER_HI as nat;
        let nl = CURVE_ORDER_LO as nat;
        let h = hi as nat;
        let l = lo as nat;
        assert(nl < pp) by {
            reveal_with_fuel(pow256, 17);
        }
        assert((h * pp + l < nh * pp + nl) == (h < nh || (h == nh && l < nl))) by (nonlinear_arith)
            requires
                l < pp,
                nl < pp,
        ;
    }
    hi < CURVE_ORDER_HI || (hi == CURVE_ORDER_HI && lo < CURVE_ORDER_LO)
}

/// A value split into a high part and its last sixteen bytes fits in 128
/// bits exactly when the high part is all zero bytes.
proof fn lemma_split_value(high: Seq<u8>, low: Seq<u8>)
    requires
        low.len() == 16,
    ensures
        (be_value(high + low) <= u128::MAX) == (forall|j: int| 0 <= j < high.len() ==> high[j] == 0),
        be_value(high + low) <= u128::MAX ==> be_value(high + low) == be_value(low),
{
    lemma_be_value_concat(high, low);
    lemma_be_value_zero(high);
    lemma_be_value_bound(low);
    reveal_with_fuel(pow256, 17);
    assert(pow256(16) == u128::MAX + 1);
    let h = be_value(high);
    let l = be_value(low);
    let pp = pow256(16);
    assert(h >= 1 ==> h * pp + l >= pp) by (nonlinear_arith);
    assert(h == 0 ==> h * pp + l == l) by (nonlinear_arith);
}

/// Reads a big-endian value of any width, or `None` where it does not fit
/// in 128 bits.
fn read_value(bytes: &[u8]) -> (r: Option<u128>)
    ensures
        r is Some <==> be_value(bytes@) <= u128::MAX,
        r matches Some(v) ==> v == be_value(bytes@),
{
    if bytes.len() <= MAX_NUMBER_BS {
        let v = bytes_arr_to_number(bytes);
        proof {
            lemma_be_value_fits(bytes@);
        }
        return Some(v);
    }
    let split = bytes.len() - MAX_NUMBER_BS;
    let high = vstd::slice::slice_subrange(bytes, 0, split);
    let low = vstd::slice::slice_subrange(bytes, split, bytes.len());
    proof {
        assert(bytes@ =~= high@ + low@);
        lemma_split_value(high@, low@);
    }
    let mut i: usize = 0;
    while i < split
        invariant
            split == high@.len(),
            i <= split,
            (be_value(bytes@) <= u128::MAX) == (forall|j: int| 0 <= j < high@.len() ==> high@[j] == 0),
            be_value(bytes@) <= u128::MAX ==> be_value(bytes@) == be_value(low@),
            forall|j: int| 0 <= j < i ==> high@[j] == 0,
        decreases split - i,
    {
        if high[i] != 0 {
            assert(high@[i as int] != 0);
            return None;
        }
        i = i + 1;
    }
    let v = bytes_arr_to_number(low);
    Some(v)
}

/// Copies `payload[start..start + N]` into an array.
fn copy_array<const N: usize>(payload: &[u8], start: usize) -> (r: [u8; N])
    requires
        start + N <= payload@.len(),
    ensures
        r@ == payload@.subrange(start as int, start + N),
{
    let mut out = [0u8; N];
    let mut i: usize = 0;
    while i < N
        invariant
            start + N <= payload.len(),
            i <= N,
            out@.len() == N,
            forall|j: int| 0 <= j < i ==> out@[j] == payload@[start + j],
        decreases N - i,
    {
        out[i] = payload[start + i];
        i = i + 1;
    }
    assert(out@ =~= payload@.subrange(start as int, start + N));
    out
}

/// Looks `key` up among the authorised signers; the first match wins.
fn find_signer(authorised_signers: &[[u8; 33]], key: &[u8; 33]) -> (r: Option<usize>)
    ensures
        r matches Some(i) ==> signer_index(authorised_signers@, key@, 0) == Some(i as nat),
        r is None ==> signer_index(authorised_signers@, key@, 0) is None,
{
    let mut i: usize = 0;
    while i < authorised_signers.len()
        invariant
            i <= authorised_signers@.len(),
            signer_index(authorised_signers@, key@, 0) == signer_index(authorised_signers@, key@, i as nat),
        decreases authorised_signers@.len() - i,
    {
        if bytes_eq(authorised_signers[i].as_slice(), key.as_slice()) {
            return Some(i);
        }
        i = i + 1;
    }
    None
}

/// Decodes the package that ends `negative_offset_to_package` bytes before
/// the end of the payload: reads its fields backward, picks the first point
/// of the requested feed, checks the timestamp, recovers the signer from the
/// signature over the rest of the package and finds it among the authorised
/// signers.
#[verifier::rlimit(50)]
pub fn extract_data_package(
    requested_data_feed_id: &[u8; 32],
    redstone_payload: &[u8],
    negative_offset_to_package: usize,
    authorised_signers: &[[u8; 33]],
) -> (r: Result<DataPackageExtractionResult, OracleError>)
    requires
        negative_offset_to_package <= redstone_payload@.len(),
    ensures
        match decode_package(
            redstone_payload@,
            negative_offset_to_package as nat,
            requested_data_feed_id@,
            authorised_signers@,
        ) {
            Ok(d) => r matches Ok(x) && x.view() == d,
            Err(e) => r == Err::<DataPackageExtractionResult, OracleError>(e),
        },
{
    let ghost p = redstone_payload@;
    let ghost o = negative_offset_to_package as nat;
    let n = redstone_payload.len();
    let fixed = SIGNATURE_BS + DATA_POINTS_COUNT_BS + DATA_POINT_VALUE_BYTE_SIZE_BS + TIMESTAMP_BS;
    if n - negative_offset_to_package < fixed {
        return Err(OracleError::TruncatedPayload);
    }
    let end_index = n - negative_offset_to_package;
    let sig_start = end_index - SIGNATURE_BS;

    // Point count and value width, just before the signature.
    let count_start = sig_start - DATA_POINTS_COUNT_BS;
    let data_points_count = extract_usize_num_from_redstone_payload(redstone_payload, count_start, sig_start);
    let width_start = count_start - DATA_POINT_VALUE_BYTE_SIZE_BS;
    let data_points_value_bs = extract_usize_num_from_redstone_payload(redstone_payload, width_start, count_start);
    proof {
        lemma_be_value_bound(p.subrange(count_start as int, sig_start as int));
        lemma_be_value_fits(p.subrange(width_start as int, count_start as int));
        reveal_with_fuel(pow256, 4);
        assert((data_points_value_bs + 32) * data_points_count <= 0x100000020 * 0x1000000) by (nonlinear_arith)
            requires
                data_points_value_bs <= 0xffffffff,
                data_points_count < 0x1000000,
        ;
    }
    let body_wide: u64 = (data_points_value_bs as u64 + DATA_FEED_ID_BS as u64) * data_points_count as u64
        + (TIMESTAMP_BS + DATA_POINT_VALUE_BYTE_SIZE_BS + DATA_POINTS_COUNT_BS) as u64;
    if (sig_start as u64) < body_wide {
        return Err(OracleError::TruncatedPayload);
    }
    let body_bs = body_wide as usize;
    // A point's size, where there is a point: it then fits in the package.
    let point_bs: usize = if data_points_count == 0 {
        0
    } else {
        assert((data_points_value_bs + 32) <= (data_points_value_bs + 32) * data_points_count) by (nonlinear_arith)
            requires
                data_points_count >= 1,
        ;
        data_points_value_bs + DATA_FEED_ID_BS
    };
    assert(point_bs * data_points_count == (data_points_value_bs + 32) * data_points_count) by (nonlinear_arith)
        requires
            data_points_count == 0 || point_bs == data_points_value_bs + 32,
    ;

    // Timestamp, before the value width.
    let ts_start = width_start - TIMESTAMP_BS;
    let timestamp_bytes = vstd::slice::slice_subrange(redstone_payload, ts_start, width_start);
    let ts = bytes_arr_to_number(timestamp_bytes);
    if ts == 0 {
        return Err(OracleError::InvalidTimestamp);
    }

    assert(timestamp_bytes@ == p.subrange(pkg_end(p, o) - 78, pkg_end(p, o) - 72));
    assert(body_bs == body_size(p, o));

    // Data points, each before the previous; the first match wins.
    let message_start = sig_start - body_bs;
    let mut cursor = ts_start;
    let mut k: usize = 0;
    let mut contains_requested_data_feed = false;
    let mut value_for_requested_data_feed: u128 = 0;
    assert(ts_start == message_start + point_bs * data_points_count);
    assert((data_points_count - k) * point_bs == point_bs * data_points_count) by (nonlinear_arith)
        requires
            k == 0,
    ;
    while k < data_points_count && !contains_requested_data_feed
        invariant
            p == redstone_payload@,
            o == negative_offset_to_package,
            end_index == p.len() - o,
            data_points_count > 0 ==> point_bs == value_width(p, o) + 32,
            data_points_value_bs == value_width(p, o),
            data_points_count == points_count(p, o),
            sig_start == end_index - 65,
            o + 78 <= p.len(),
            o + 65 + body_size(p, o) <= p.len(),
            timestamp(p, o) != 0,
            message_start + point_bs * data_points_count + 13 == sig_start,
            k <= data_points_count,
            cursor == message_start + (data_points_count - k) * point_bs,
            !contains_requested_data_feed ==> k < data_points_count || k == data_points_count,
            contains_requested_data_feed ==> find_point(p, o, requested_data_feed_id@, 0) == Some(
                value_for_requested_data_feed as nat,
            ),
            !contains_requested_data_feed ==> find_point(p, o, requested_data_feed_id@, 0) == find_point(
                p,
                o,
                requested_data_feed_id@,
                k as nat,
            ),
        decreases data_points_count - k + (if contains_requested_data_feed {
            0int
        } else {
            1int
        }),
    {
        proof {
            let c = data_points_count as int;
            let w = point_bs as int;
            let kk = k as int;
            assert((c - kk) * w >= w && (c - kk) * w - w == (c - kk - 1) * w && w * c - (c - kk) * w + w
                == (kk + 1) * w && (c - kk) * w <= w * c) by (nonlinear_arith)
                requires
                    0 <= kk < c,
                    w >= 0,
            ;
        }
        let point_start_index = cursor - point_bs;
        assert((k + 1) * point_bs == (k + 1) * (value_width(p, o) + 32));
        assert(point_start_index == point_start(p, o, k as nat));
        let feed_bytes = vstd::slice::slice_subrange(
            redstone_payload,
            point_start_index,
            point_start_index + DATA_FEED_ID_BS,
        );
        if bytes_eq(feed_bytes, requested_data_feed_id.as_slice()) {
            let value_start = point_start_index + DATA_FEED_ID_BS;
            let value_bytes = vstd::slice::slice_subrange(
                redstone_payload,
                value_start,
                value_start + data_points_value_bs,
            );
            match read_value(value_bytes) {
                Some(v) => {
                    value_for_requested_data_feed = v;
                    contains_requested_data_feed = true;
                },
                None => {
                    return Err(OracleError::NumberTooWide);
                },
            }
        } else {
            cursor = point_start_index;
            k = k + 1;
        }
    }

    // Signature over the rest of the package.
    let signature_bytes: [u8; 65] = copy_array(redstone_payload, sig_start);
    let recovery_byte = signature_bytes[64];
    if !(recovery_byte <= 3 || (27 <= recovery_byte && recovery_byte <= 30)) {
        return Err(OracleError::SignatureRecoveryFailed);
    }
    let sig_slice = signature_bytes.as_slice();
    let r_ok = scalar_below_order(vstd::slice::slice_subrange(sig_slice, 0, 32));
    let s_ok = scalar_below_order(vstd::slice::slice_subrange(sig_slice, 32, 64));
    if !r_ok || !s_ok {
        return Err(OracleError::SignatureRecoveryFailed);
    }
    let signable_message = vstd::slice::slice_subrange(redstone_payload, message_start, sig_start);
    let message_hash = keccak256(signable_message);
    let recovered_signer = match ecdsa_recover(&signature_bytes, &message_hash) {
        Ok(key) => key,
        Err(_) => {
            return Err(OracleError::SignatureRecoveryFailed);
        },
    };
    match find_signer(authorised_signers, &recovered_signer) {
        None => Err(OracleError::UnauthorizedSigner),
        Some(signer_index) => Ok(
            DataPackageExtractionResult {
                contains_requested_data_feed,
                value_for_requested_data_feed,
                signer_index,
                data_package_byte_size: body_bs + SIGNATURE_BS,
            },
        ),
    }
}

/// The `w` bytes that spell `v` in big-endian order.
pub open spec fn be_bytes(v: nat, w: nat) -> Seq<u8>
    decreases w,
{
    if w == 0 {
        Seq::empty()
    } else {
        be_bytes(v / 256, (w - 1) as nat).push((v % 256) as u8)
    }
}

pub proof fn lemma_be_bytes(v: nat, w: nat)
    requires
        v < pow256(w),
    ensures
        be_bytes(v, w).len() == w,
        be_value(be_bytes(v, w)) == v,
    decreases w,
{
    if w > 0 {
        let q = pow256((w - 1) as nat);
        assert(v / 256 < q) by (nonlinear_arith)
            requires
                v < 256 * q,
        ;
        lemma_be_bytes(v / 256, (w - 1) as nat);
        let b = be_bytes(v, w);
        assert(b.drop_last() =~= be_bytes(v / 256, (w - 1) as nat));
        assert(v == (v / 256) * 256 + v % 256) by (nonlinear_arith);
    }
}

/// A package of one data point with a 16-byte value, as it is written.
pub open spec fn one_point_package(feed: Seq<u8>, value: u128, ts: nat, sig: Seq<u8>) -> Seq<u8> {
    feed + be_bytes(value as nat, 16) + be_bytes(ts, 6) + be_bytes(16, 4) + be_bytes(1, 3) + sig
}

/// Writing a one-point package anywhere in a payload and decoding it gives
/// back its timestamp, its signature, its signed bytes and the value of its
/// feed; where the signer it recovers to is authorised, the package decodes
/// to that value.
pub proof fn lemma_one_point_round_trip(
    pre: Seq<u8>,
    post: Seq<u8>,
    feed: Seq<u8>,
    value: u128,
    ts: nat,
    sig: Seq<u8>,
    signers: Seq<[u8; 33]>,
)
    requires
        feed.len() == 32,
        sig.len() == 65,
        ts < pow256(6),
    ensures
        ({
            let pkg = one_point_package(feed, value, ts, sig);
            let p = pre + pkg + post;
            let o = post.len();
            &&& timestamp(p, o) == ts
            &&& signature(p, o) == sig
            &&& message(p, o) == pkg.subrange(0, 61)
            &&& find_point(p, o, feed, 0) == Some(value as nat)
            &&& (ts != 0 && recovery_byte_ok(sig[64]) && scalar_ok(sig.subrange(0, 32)) && scalar_ok(
                sig.subrange(32, 64),
            )) ==> match recovered_key(sig, keccak256_of(pkg.subrange(0, 61))) {
                Some(key) => match signer_index(signers, key, 0) {
                    Some(i) => decode_package(p, o, feed, signers) == Ok::<
                        (Option<u128>, nat, nat),
                        OracleError,
                    >((Some(value), i, 126)),
                    None => decode_package(p, o, feed, signers) == Err::<
                        (Option<u128>, nat, nat),
                        OracleError,
                    >(OracleError::UnauthorizedSigner),
                },
                None => decode_package(p, o, feed, signers) == Err::<(Option<u128>, nat, nat), OracleError>(
                    OracleError::SignatureRecoveryFailed,
                ),
            }
        }),
{
    let vb = be_bytes(value as nat, 16);
    let tb = be_bytes(ts, 6);
    let wb = be_bytes(16, 4);
    let cb = be_bytes(1, 3);
    reveal_with_fuel(pow256, 17);
    lemma_be_value_fits(seq![0u8; 16]);
    assert(value as nat <= u128::MAX);
    lemma_be_bytes(value as nat, 16);
    lemma_be_bytes(ts, 6);
    lemma_be_bytes(16, 4);
    lemma_be_bytes(1, 3);
    let pkg = one_point_package(feed, value, ts, sig);
    let p = pre + pkg + post;
    let o = post.len();
    let a = pre.len() as int;
    assert(pkg.len() == 126);
    assert(pkg_end(p, o) == a + 126);
    assert(p.subrange(a + 58, a + 61) =~= cb);
    assert(p.subrange(a + 54, a + 58) =~= wb);
    assert(p.subrange(a + 48, a + 54) =~= tb);
    assert(p.subrange(a + 61, a + 126) =~= sig);
    assert(p.subrange(a, a + 61) =~= pkg.subrange(0, 61));
    assert(points_count(p, o) == 1);
    assert(value_width(p, o) == 16);
    let vw = value_width(p, o);
    let pc = points_count(p, o);
    assert((vw + 32) * pc == 48) by (nonlinear_arith)
        requires
            vw == 16,
            pc == 1,
    ;
    assert(body_size(p, o) == 61);
    assert(point_start(p, o, 0) == a);
    assert(p.subrange(a, a + 32) =~= feed);
    assert(p.subrange(a + 32, a + 48) =~= vb);
    assert(find_point(p, o, feed, 0) == Some(value as nat));
}

} // verus!
