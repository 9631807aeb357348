use ink_env::hash::Keccak256;
use redstone_oracle::format::bytes_arr_to_number;
use redstone_oracle::package::extract_data_package;
use redstone_oracle::{get_oracle_value, OracleError};

const SIGNATURE: [u8; 65] = [
    195, 218, 227, 165, 226, 17, 25, 160, 37, 92, 142, 238, 4, 41, 244, 211, 18, 94, 131, 116, 231,
    116, 255, 164, 252, 248, 85, 233, 173, 225, 26, 185, 119, 235, 137, 35, 204, 251, 134, 131, 186,
    215, 76, 112, 17, 192, 114, 243, 102, 166, 176, 140, 180, 124, 213, 102, 117, 212, 89, 89, 92,
    209, 116, 17, 28,
];
const MARKER: [u8; 9] = [0, 0, 2, 237, 87, 1, 30, 0, 0];

fn feed(tag: u8) -> [u8; 32] {
    let mut id = [0u8; 32];
    id[0] = tag;
    id[31] = tag;
    id
}

fn be(value: u128, width: usize) -> Vec<u8> {
    let bytes = value.to_be_bytes();
    let mut out = vec![0u8; width.saturating_sub(16)];
    out.extend_from_slice(&bytes[16 - width.min(16)..]);
    out
}

/// A package whose points are written in the order given; `width` is the
/// value width field, `sig` the 65 signature bytes.
fn package_with(points: &[([u8; 32], u128)], timestamp: u128, width: usize, sig: &[u8; 65]) -> Vec<u8> {
    let mut out = Vec::new();
    for (id, value) in points {
        out.extend_from_slice(id);
        out.extend(be(*value, width));
    }
    out.extend(be(timestamp, 6));
    out.extend(be(width as u128, 4));
    out.extend(be(points.len() as u128, 3));
    out.extend_from_slice(sig);
    out
}

fn package(points: &[([u8; 32], u128)], timestamp: u128) -> Vec<u8> {
    package_with(points, timestamp, 32, &SIGNATURE)
}

fn payload(packages: &[Vec<u8>]) -> Vec<u8> {
    let mut out = Vec::new();
    for p in packages {
        out.extend_from_slice(p);
    }
    out.extend(be(packages.len() as u128, 2));
    out.extend_from_slice(&[7, 7]);
    out.extend(be(2, 3));
    out.extend_from_slice(&MARKER);
    out
}

/// The key that the host recovers from a package's signature.
fn signer_of(package: &[u8]) -> [u8; 33] {
    let message = &package[..package.len() - 65];
    let mut hash = [0u8; 32];
    ink_env::hash_bytes::<Keccak256>(message, &mut hash);
    let mut sig = [0u8; 65];
    sig.copy_from_slice(&package[package.len() - 65..]);
    let mut key = [0u8; 33];
    ink_env::ecdsa_recover(&sig, &hash, &mut key).unwrap();
    key
}

#[test]
fn reads_big_endian_numbers() {
    assert_eq!(bytes_arr_to_number(&[]), 0);
    assert_eq!(bytes_arr_to_number(&[1, 2]), 258);
    assert_eq!(bytes_arr_to_number(&[0xff; 16]), u128::MAX);
    assert_eq!(bytes_arr_to_number(&[0, 0, 2, 237]), 749);
}

#[test]
fn short_payload_is_truncated() {
    assert_eq!(get_oracle_value(&feed(1), 0, &[], &[0, 0, 2]), Err(OracleError::TruncatedPayload));
    assert_eq!(get_oracle_value(&feed(1), 0, &[], &MARKER), Err(OracleError::TruncatedPayload));
}

#[test]
fn tampered_marker_is_rejected() {
    let valid = payload(&[]);
    assert_eq!(get_oracle_value(&feed(1), 0, &[], &valid), Err(OracleError::EmptyAggregationSet));
    for i in valid.len() - 9..valid.len() {
        let mut bad = valid.clone();
        bad[i] ^= 0x01;
        assert_eq!(get_oracle_value(&feed(1), 0, &[], &bad), Err(OracleError::InvalidMarker));
    }
}

#[test]
fn missing_last_byte_is_rejected() {
    let p = package(&[(feed(1), 42)], 1000);
    let key = signer_of(&p);
    let mut full = payload(&[p]);
    assert_eq!(get_oracle_value(&feed(1), 1, &[key], &full), Ok(42));
    full.pop();
    assert_eq!(get_oracle_value(&feed(1), 1, &[key], &full), Err(OracleError::InvalidMarker));
}

#[test]
fn no_packages_and_threshold() {
    let p = payload(&[]);
    assert_eq!(get_oracle_value(&feed(1), 0, &[], &p), Err(OracleError::EmptyAggregationSet));
    assert_eq!(get_oracle_value(&feed(1), 1, &[], &p), Err(OracleError::InsufficientSigners));
}

#[test]
fn package_count_beyond_payload_is_truncated() {
    let mut p = payload(&[]);
    let count_at = p.len() - 9 - 3 - 2 - 2;
    p[count_at + 1] = 1;
    assert_eq!(get_oracle_value(&feed(1), 0, &[], &p), Err(OracleError::TruncatedPayload));
}

#[test]
fn point_count_beyond_payload_is_truncated() {
    let mut p = package(&[(feed(1), 5)], 1000);
    let count_at = p.len() - 65 - 3;
    p[count_at] = 0x10;
    assert_eq!(get_oracle_value(&feed(1), 0, &[], &payload(&[p])), Err(OracleError::TruncatedPayload));
}

#[test]
fn zero_timestamp_is_rejected() {
    let p = package(&[(feed(1), 5)], 0);
    let key = signer_of(&p);
    assert_eq!(get_oracle_value(&feed(1), 1, &[key], &payload(&[p])), Err(OracleError::InvalidTimestamp));
}

#[test]
fn too_wide_value_is_rejected() {
    let p = package_with(&[(feed(1), 5)], 1000, 17, &SIGNATURE);
    let key = signer_of(&p);
    assert_eq!(get_oracle_value(&feed(1), 1, &[key], &payload(&[p.clone()])), Ok(5));
    let mut wide = p;
    wide[32] = 1;
    assert_eq!(get_oracle_value(&feed(1), 1, &[key], &payload(&[wide])), Err(OracleError::NumberTooWide));
}

#[test]
fn bad_recovery_byte_fails_recovery() {
    let mut sig = SIGNATURE;
    sig[64] = 5;
    let p = package_with(&[(feed(1), 5)], 1000, 8, &sig);
    assert_eq!(get_oracle_value(&feed(1), 0, &[], &payload(&[p])), Err(OracleError::SignatureRecoveryFailed));
}

#[test]
fn scalar_above_order_fails_recovery() {
    let mut sig = SIGNATURE;
    for b in sig[..32].iter_mut() {
        *b = 0xff;
    }
    let p = package_with(&[(feed(1), 5)], 1000, 8, &sig);
    assert_eq!(get_oracle_value(&feed(1), 0, &[], &payload(&[p])), Err(OracleError::SignatureRecoveryFailed));
}

#[test]
fn zero_scalar_fails_recovery() {
    let mut sig = SIGNATURE;
    for b in sig[..32].iter_mut() {
        *b = 0;
    }
    let p = package_with(&[(feed(1), 5)], 1000, 8, &sig);
    assert_eq!(get_oracle_value(&feed(1), 0, &[], &payload(&[p])), Err(OracleError::SignatureRecoveryFailed));
}

#[test]
fn unauthorised_signer_fails_whole_call() {
    let good = package(&[(feed(1), 10)], 1000);
    let stranger = package(&[(feed(1), 20)], 1001);
    let key = signer_of(&good);
    assert_eq!(get_oracle_value(&feed(1), 1, &[key], &payload(&[good.clone()])), Ok(10));
    assert_eq!(
        get_oracle_value(&feed(1), 1, &[key], &payload(&[good, stranger])),
        Err(OracleError::UnauthorizedSigner)
    );
}

#[test]
fn median_of_three_signers() {
    let ps = vec![
        package(&[(feed(1), 30)], 1000),
        package(&[(feed(1), 10)], 1001),
        package(&[(feed(1), 20)], 1002),
    ];
    let keys: Vec<[u8; 33]> = ps.iter().map(|p| signer_of(p)).collect();
    assert_eq!(get_oracle_value(&feed(1), 3, &keys, &payload(&ps)), Ok(20));
}

#[test]
fn median_of_four_signers() {
    let ps = vec![
        package(&[(feed(1), 40)], 1000),
        package(&[(feed(1), 10)], 1001),
        package(&[(feed(1), 30)], 1002),
        package(&[(feed(1), 20)], 1003),
    ];
    let keys: Vec<[u8; 33]> = ps.iter().map(|p| signer_of(p)).collect();
    assert_eq!(get_oracle_value(&feed(1), 4, &keys, &payload(&ps)), Ok(25));
}

#[test]
fn threshold_boundary() {
    let ps = vec![
        package(&[(feed(1), 1)], 1000),
        package(&[(feed(1), 2)], 1001),
        package(&[(feed(1), 3)], 1002),
    ];
    let keys: Vec<[u8; 33]> = ps.iter().map(|p| signer_of(p)).collect();
    let p = payload(&ps);
    assert_eq!(get_oracle_value(&feed(1), 4, &keys, &p), Err(OracleError::InsufficientSigners));
    assert_eq!(get_oracle_value(&feed(1), 3, &keys, &p), Ok(2));
}

#[test]
fn same_signer_counts_once() {
    let p = package(&[(feed(1), 7)], 1000);
    let other = package(&[(feed(1), 9)], 1001);
    let keys = vec![signer_of(&p), signer_of(&other)];
    let twice = payload(&[p.clone(), p.clone()]);
    assert_eq!(get_oracle_value(&feed(1), 2, &keys, &twice), Err(OracleError::InsufficientSigners));
    assert_eq!(get_oracle_value(&feed(1), 1, &keys, &twice), Ok(7));
    let three = payload(&[p.clone(), other, p]);
    assert_eq!(get_oracle_value(&feed(1), 2, &keys, &three), Ok(8));
}

#[test]
fn other_feeds_are_verified_but_not_counted() {
    let a = package(&[(feed(2), 500)], 1000);
    let b = package(&[(feed(2), 600), (feed(1), 11)], 1001);
    let keys = vec![signer_of(&a), signer_of(&b)];
    let p = payload(&[a, b]);
    assert_eq!(get_oracle_value(&feed(1), 1, &keys, &p), Ok(11));
    assert_eq!(get_oracle_value(&feed(1), 2, &keys, &p), Err(OracleError::InsufficientSigners));
    assert_eq!(get_oracle_value(&feed(2), 2, &keys, &p), Ok(550));
}

#[test]
fn point_nearest_timestamp_wins() {
    let p = package(&[(feed(1), 100), (feed(1), 200)], 1000);
    let keys = vec![signer_of(&p)];
    assert_eq!(get_oracle_value(&feed(1), 1, &keys, &payload(&[p])), Ok(200));
}

#[test]
fn decodes_one_package() {
    let p = package_with(&[(feed(3), 0x0102), (feed(4), 9)], 77, 2, &SIGNATURE);
    let key = signer_of(&p);
    let size = p.len();
    let whole = payload(&[p]);
    let offset = 2 + 2 + 3 + 9;
    let r = extract_data_package(&feed(3), &whole, offset, &[[0u8; 33], key]).unwrap();
    assert!(r.contains_requested_data_feed);
    assert_eq!(r.value_for_requested_data_feed, 258);
    assert_eq!(r.signer_index, 1);
    assert_eq!(r.data_package_byte_size, size);
    assert_eq!(size, (2 + 32) * 2 + 6 + 4 + 3 + 65);
    let missing = extract_data_package(&feed(5), &whole, offset, &[key]).unwrap();
    assert!(!missing.contains_requested_data_feed);
}

#[test]
fn repeated_calls_agree() {
    let p = package(&[(feed(1), 123)], 1000);
    let keys = vec![signer_of(&p)];
    let whole = payload(&[p]);
    let first = get_oracle_value(&feed(1), 1, &keys, &whole);
    let second = get_oracle_value(&feed(1), 1, &keys, &whole);
    assert_eq!(first, second);
    assert_eq!(first, Ok(123));
}

#[test]
fn round_trip_of_values_before_aggregation() {
    let points = [(feed(1), 1u128), (feed(2), u128::MAX), (feed(3), 0)];
    let p = package_with(&points, 5, 16, &SIGNATURE);
    let key = signer_of(&p);
    let whole = payload(&[p]);
    for (id, value) in points.iter() {
        let r = extract_data_package(id, &whole, 16, &[key]).unwrap();
        assert!(r.contains_requested_data_feed);
        assert_eq!(r.value_for_requested_data_feed, *value);
    }
}
