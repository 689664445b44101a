use rust_week_1_exercises::transaction::{
    Amount, CompactSize, Decodable, Encodable, Error, IoErrorKind, Txid,
};

fn encode<T: Encodable>(v: &T) -> Vec<u8> {
    let mut w = Vec::new();
    let n = v.consensus_encode(&mut w);
    assert_eq!(n, w.len());
    w
}

fn decode_all<T: Decodable>(bytes: &[u8]) -> (Result<T, Error>, usize) {
    let mut r: &[u8] = bytes;
    let res = T::consensus_decode(&mut r);
    (res, bytes.len() - r.len())
}

#[test]
fn integers_are_little_endian() {
    assert_eq!(encode(&0xABu8), vec![0xAB]);
    assert_eq!(encode(&0x1234u16), vec![0x34, 0x12]);
    assert_eq!(encode(&0x1234_5678u32), vec![0x78, 0x56, 0x34, 0x12]);
    assert_eq!(
        encode(&0x0102_0304_0506_0708u64),
        vec![8, 7, 6, 5, 4, 3, 2, 1]
    );
}

#[test]
fn integer_roundtrip() {
    for x in [0u32, 1, 255, 256, 0xDEAD_BEEF, u32::MAX] {
        let (v, n) = decode_all::<u32>(&encode(&x));
        assert_eq!(v.unwrap(), x);
        assert_eq!(n, 4);
    }
    for x in [0u64, 1, 0x1_0000_0000, u64::MAX] {
        let (v, n) = decode_all::<u64>(&encode(&x));
        assert_eq!(v.unwrap(), x);
        assert_eq!(n, 8);
    }
    assert_eq!(decode_all::<u16>(&[0x34, 0x12, 0x99]).0.unwrap(), 0x1234);
    assert_eq!(decode_all::<u8>(&[0x7F]).0.unwrap(), 0x7F);
}

#[test]
fn short_integers_are_eof() {
    let eof = Error::Io(IoErrorKind::UnexpectedEof);
    assert_eq!(decode_all::<u8>(&[]).0.unwrap_err(), eof);
    assert_eq!(decode_all::<u16>(&[1]).0.unwrap_err(), eof);
    assert_eq!(decode_all::<u32>(&[1, 2, 3]).0.unwrap_err(), eof);
    assert_eq!(decode_all::<u64>(&[1, 2, 3, 4, 5, 6, 7]).0.unwrap_err(), eof);
}

#[test]
fn compact_size_encodings() {
    assert_eq!(encode(&CompactSize(0)), vec![0]);
    assert_eq!(encode(&CompactSize(0xFC)), vec![0xFC]);
    assert_eq!(encode(&CompactSize(0xFD)), vec![0xFD, 0xFD, 0x00]);
    assert_eq!(encode(&CompactSize(0xFFFF)), vec![0xFD, 0xFF, 0xFF]);
    assert_eq!(encode(&CompactSize(0x1_0000)), vec![0xFE, 0x00, 0x00, 0x01, 0x00]);
    assert_eq!(encode(&CompactSize(0xFFFF_FFFF)), vec![0xFE, 0xFF, 0xFF, 0xFF, 0xFF]);
    assert_eq!(
        encode(&CompactSize(0x1_0000_0000)),
        vec![0xFF, 0, 0, 0, 0, 1, 0, 0, 0]
    );
}

#[test]
fn compact_size_roundtrip() {
    for v in [0u64, 1, 0xFC, 0xFD, 0xFE, 0x1234, 0xFFFF, 0x1_0000_0000, u64::MAX] {
        let bytes = encode(&CompactSize(v));
        let (c, n) = decode_all::<CompactSize>(&bytes);
        assert_eq!(c.unwrap().0, v);
        assert_eq!(n, bytes.len());
    }
}

#[test]
fn compact_size_markers_when_read() {
    // 0xFF: eight bytes follow.
    let (c, n) = decode_all::<CompactSize>(&[0xFF, 1, 0, 0, 0, 0, 0, 0, 0]);
    assert_eq!((c.unwrap().0, n), (1, 9));
    // 0xFD: two bytes follow.
    let (c, n) = decode_all::<CompactSize>(&[0xFD, 0x34, 0x12]);
    assert_eq!((c.unwrap().0, n), (0x1234, 3));
    // 0xDE: four bytes follow.
    let (c, n) = decode_all::<CompactSize>(&[0xDE, 0x01, 0x00, 0x01, 0x00]);
    assert_eq!((c.unwrap().0, n), (0x1_0001, 5));
    // 0xFE is a value of its own.
    let (c, n) = decode_all::<CompactSize>(&[0xFE, 0x00, 0x00, 0x01, 0x00]);
    assert_eq!((c.unwrap().0, n), (0xFE, 1));
}

#[test]
fn compact_size_values_not_read_back() {
    // 0xDE is written as one byte but read as a marker.
    let (c, _) = decode_all::<CompactSize>(&encode(&CompactSize(0xDE)));
    assert_eq!(c.unwrap_err(), Error::Io(IoErrorKind::UnexpectedEof));
    // Values that take the 0xFE marker come back as 0xFE.
    let (c, n) = decode_all::<CompactSize>(&encode(&CompactSize(0x1_0000)));
    assert_eq!((c.unwrap().0, n), (0xFE, 1));
}

#[test]
fn short_compact_sizes_are_eof() {
    let eof = Error::Io(IoErrorKind::UnexpectedEof);
    assert_eq!(decode_all::<CompactSize>(&[]).0.unwrap_err(), eof);
    assert_eq!(decode_all::<CompactSize>(&[0xFD, 1]).0.unwrap_err(), eof);
    assert_eq!(decode_all::<CompactSize>(&[0xDE, 1, 2, 3]).0.unwrap_err(), eof);
    assert_eq!(decode_all::<CompactSize>(&[0xFF, 1, 2, 3, 4, 5, 6, 7]).0.unwrap_err(), eof);
}

#[test]
fn txid_is_reversed_on_the_wire() {
    let mut display = [0u8; 32];
    for (i, b) in display.iter_mut().enumerate() {
        *b = i as u8;
    }
    let txid = Txid::from_hash(display);
    let wire = encode(&txid);
    let expected: Vec<u8> = (0..32u8).rev().collect();
    assert_eq!(wire, expected);
    let (back, n) = decode_all::<Txid>(&wire);
    assert_eq!(back.unwrap().to_bytes(), display);
    assert_eq!(n, 32);
}

#[test]
fn short_txid_is_invalid_data() {
    assert_eq!(decode_all::<Txid>(&[0u8; 31]).0.unwrap_err(), Error::Io(IoErrorKind::InvalidData));
}

#[test]
fn array_encodes_as_is() {
    let a = [9u8; 32];
    assert_eq!(encode(&a), vec![9u8; 32]);
}

#[test]
fn txid_from_double_sha256_reverses() {
    let mut digest = [0u8; 32];
    digest[0] = 0xAA;
    digest[31] = 0x01;
    let txid = Txid::from_double_sha256(digest);
    let bytes = txid.to_bytes();
    assert_eq!(bytes[0], 0x01);
    assert_eq!(bytes[31], 0xAA);
}

#[test]
fn txid_of_empty_data() {
    // Double SHA-256 of no bytes, in display order.
    let txid = Txid::from_raw_transaction(Vec::new());
    assert_eq!(
        txid.to_hex(),
        "56944c5d3f98413ef45cf54545538103cc9f298e0575820ad3591376e2e0f65d"
    );
}

#[test]
fn txid_to_hex_is_lower_case() {
    let txid = Txid::from_hash([0xAB; 32]);
    assert_eq!(txid.to_hex(), "ab".repeat(32));
}

#[test]
fn script_encoding() {
    assert_eq!(encode(&"abcd".to_string()), vec![2, 0xAB, 0xCD]);
    assert_eq!(encode(&"ABcd".to_string()), vec![2, 0xAB, 0xCD]);
    assert_eq!(encode(&String::new()), vec![0]);
}

#[test]
fn script_decoding_is_lower_case() {
    let (s, n) = decode_all::<String>(&[3, 0xAB, 0x01, 0xFF, 0x55]);
    assert_eq!(s.unwrap(), "ab01ff");
    assert_eq!(n, 4);
}

#[test]
fn script_roundtrip() {
    let long: String = "0a".repeat(300);
    for s in ["", "00", "51", "76a914ff88ac", long.as_str()] {
        let bytes = encode(&s.to_string());
        let (back, n) = decode_all::<String>(&bytes);
        assert_eq!(back.unwrap(), s);
        assert_eq!(n, bytes.len());
    }
}

#[test]
fn short_script_is_eof() {
    assert_eq!(
        decode_all::<String>(&[3, 0xAB]).0.unwrap_err(),
        Error::Io(IoErrorKind::UnexpectedEof)
    );
}

#[test]
fn amount_is_eight_bytes() {
    let a = Amount::from_sat(5_000_000_000);
    assert_eq!(a.to_sat(), 5_000_000_000);
    assert_eq!(encode(&a), vec![0x00, 0xF2, 0x05, 0x2A, 0x01, 0, 0, 0]);
}

#[test]
fn values_read_are_written_as_their_bytes() {
    let wire: Vec<u8> = (100..132u8).collect();
    let (t, _) = decode_all::<Txid>(&wire);
    assert_eq!(encode(&t.unwrap()), wire);

    let (x, _) = decode_all::<u32>(&[1, 2, 3, 4]);
    assert_eq!(encode(&x.unwrap()), vec![1, 2, 3, 4]);

    for bytes in [vec![0x05u8], vec![0xFD, 0x00, 0x01], vec![0xFF, 0, 0, 0, 0, 1, 0, 0, 0]] {
        let (c, _) = decode_all::<CompactSize>(&bytes);
        assert_eq!(encode(&c.unwrap()), bytes);
    }

    let script = vec![2u8, 0xDE, 0xAD];
    let (s, _) = decode_all::<String>(&script);
    assert_eq!(encode(&s.unwrap()), script);
}
