use redstone_oracle::{aggregate_values, decode_hex, encode_hex, OracleError};

#[test]
fn median_odd_count() {
    let mut v = vec![30u128, 10, 20];
    assert_eq!(aggregate_values(&mut v), Ok(20));
    assert_eq!(v, vec![10, 20, 30]);
}

#[test]
fn median_even_count() {
    let mut v = vec![40u128, 10, 30, 20];
    assert_eq!(aggregate_values(&mut v), Ok(25));
    let mut w = vec![1u128, 2];
    assert_eq!(aggregate_values(&mut w), Ok(1));
}

#[test]
fn median_of_empty_fails() {
    let mut v: Vec<u128> = vec![];
    assert_eq!(aggregate_values(&mut v), Err(OracleError::EmptyAggregationSet));
}

#[test]
fn median_of_largest_values() {
    let mut v = vec![u128::MAX, u128::MAX];
    assert_eq!(aggregate_values(&mut v), Ok(u128::MAX));
    let mut w = vec![u128::MAX, u128::MAX - 1];
    assert_eq!(aggregate_values(&mut w), Ok(u128::MAX - 1));
    let mut x = vec![5u128, 5, 1];
    assert_eq!(aggregate_values(&mut x), Ok(5));
}

#[test]
fn encodes_hex() {
    assert_eq!(encode_hex(&[]), "");
    assert_eq!(encode_hex(&[0x00, 0xab, 0xff, 0x10]), "00abff10");
}

#[test]
fn decodes_hex() {
    assert_eq!(decode_hex("00abFF10").unwrap(), vec![0x00, 0xab, 0xff, 0x10]);
    assert_eq!(decode_hex("").unwrap(), Vec::<u8>::new());
    assert_eq!(decode_hex("+f").unwrap(), vec![15]);
    assert!(decode_hex("0g").is_err());
    assert_eq!(decode_hex(&encode_hex(&[1, 2, 254])).unwrap(), vec![1, 2, 254]);
}
