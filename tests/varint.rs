use dunes_index::varint::{decode, encode, encode_to_vec, Error};

#[test]
fn u128_max_round_trips_successfully() {
    let n = u128::MAX;
    let encoded = encode(n);
    let (decoded, length) = decode(&encoded).unwrap();
    assert_eq!(decoded, n);
    assert_eq!(length, encoded.len());
}

#[test]
fn powers_of_two_round_trip_successfully() {
    for i in 0..128 {
        let n = 1u128 << i;
        let encoded = encode(n);
        let (decoded, length) = decode(&encoded).unwrap();
        assert_eq!(decoded, n);
        assert_eq!(length, encoded.len());
    }
}

#[test]
fn alternating_bit_strings_round_trip_successfully() {
    let mut n: u128 = 0;

    for i in 0..129 {
        n = n << 1 | (i % 2);
        let encoded = encode(n);
        let (decoded, length) = decode(&encoded).unwrap();
        assert_eq!(decoded, n);
        assert_eq!(length, encoded.len());
    }
}

#[test]
fn decoding_integer_over_max_is_an_error() {
    assert_eq!(
        decode(&[
            130, 254, 254, 254, 254, 254, 254, 254, 254, 254, 254, 254, 254, 254, 254, 254, 254,
            255, 0,
        ]),
        Err(Error::Overflow)
    );
}

#[test]
fn taproot_annex_format_bip_test_vectors_round_trip_successfully() {
    let test_vectors: &[(u128, &[u8])] = &[
        (0, &[0x00]),
        (1, &[0x01]),
        (127, &[0x7F]),
        (128, &[0x80, 0x00]),
        (255, &[0x80, 0x7F]),
        (256, &[0x81, 0x00]),
        (16383, &[0xFE, 0x7F]),
        (16384, &[0xFF, 0x00]),
        (16511, &[0xFF, 0x7F]),
        (65535, &[0x82, 0xFE, 0x7F]),
        (1 << 32, &[0x8E, 0xFE, 0xFE, 0xFF, 0x00]),
    ];

    for (n, encoding) in test_vectors {
        let actual = encode(*n);
        assert_eq!(actual, *encoding);
        let (actual, length) = decode(encoding).unwrap();
        assert_eq!(actual, *n);
        assert_eq!(length, encoding.len());
    }
}

#[test]
fn truncated_varint_returns_error() {
    assert_eq!(decode(&[128]), Err(Error::Truncated));
}

#[test]
fn u128_max_encoding_is_nineteen_bytes() {
    let encoded = encode(u128::MAX);
    assert_eq!(encoded.len(), 19);
    assert_eq!(encoded[0], 130);
    assert_eq!(encoded[18], 127);
    assert!(encoded[1..18].iter().all(|b| *b == 254));
}

#[test]
fn encode_to_vec_appends() {
    let mut v = vec![9u8];
    encode_to_vec(255, &mut v);
    assert_eq!(v, vec![9, 0x80, 0x7F]);
}

#[test]
fn decode_stops_at_final_byte() {
    assert_eq!(decode(&[0x82, 0xFE, 0x7F, 0x05, 0x80]), Ok((65535, 3)));
    assert_eq!(decode(&[]), Err(Error::Truncated));
    assert_eq!(decode(&[0xFF; 30]), Err(Error::Truncated));
}
