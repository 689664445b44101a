use rust_week_1_exercises::decode;
use rust_week_1_exercises::hexcode::HexError;
use rust_week_1_exercises::transaction::{
    Amount, Decodable, Encodable, Error, IoErrorKind, Transaction, TxIn, TxOut, Txid,
};

const GENESIS_TX: &str = "01000000010000000000000000000000000000000000000000000000000000000000000000ffffffff4d04ffff001d0104455468652054696d65732030332f4a616e2f32303039204368616e63656c6c6f72206f6e206272696e6b206f66207365636f6e64206261696c6f757420666f722062616e6b73ffffffff0100f2052a01000000434104678afdb0fe5548271967f1a67130b7105cd6a828e03909a67962e0ea1f61deb649f6bc3f4cef38c4f35504e51ec112de5c384df7ba0b8d578a4c702b6bf11d5fac00000000";
const GENESIS_SCRIPT_SIG: &str = "04ffff001d0104455468652054696d65732030332f4a616e2f32303039204368616e63656c6c6f72206f6e206272696e6b206f66207365636f6e64206261696c6f757420666f722062616e6b73";
const GENESIS_SCRIPT_PUBKEY: &str = "4104678afdb0fe5548271967f1a67130b7105cd6a828e03909a67962e0ea1f61deb649f6bc3f4cef38c4f35504e51ec112de5c384df7ba0b8d578a4c702b6bf11d5fac";
const GENESIS_TXID: &str = "4a5e1e4baab89f3a32518a88c31bc87f618f76673e2cc77ab2127b7afdeda33b";

fn from_hex(s: &str) -> Vec<u8> {
    (0..s.len() / 2)
        .map(|i| u8::from_str_radix(&s[2 * i..2 * i + 2], 16).unwrap())
        .collect()
}

fn encode_transaction(tx: &Transaction) -> Vec<u8> {
    let mut w = Vec::new();
    tx.version.consensus_encode(&mut w);
    tx.inputs.consensus_encode(&mut w);
    tx.outputs.consensus_encode(&mut w);
    tx.lock_time.consensus_encode(&mut w);
    w
}

#[test]
fn decode_genesis_transaction() {
    let tx = decode(GENESIS_TX.to_string()).unwrap();
    assert_eq!(tx.version, 1);
    assert_eq!(tx.inputs.len(), 1);
    assert_eq!(tx.inputs[0].txid.to_bytes(), [0u8; 32]);
    assert_eq!(tx.inputs[0].vout, 0xFFFF_FFFF);
    assert_eq!(tx.inputs[0].script_sig, GENESIS_SCRIPT_SIG);
    assert_eq!(tx.inputs[0].sequence, 0xFFFF_FFFF);
    assert_eq!(tx.outputs.len(), 1);
    assert_eq!(tx.outputs[0].amount.to_sat(), 5_000_000_000);
    assert_eq!(tx.outputs[0].script_pubkey, GENESIS_SCRIPT_PUBKEY);
    assert_eq!(tx.lock_time, 0);
}

#[test]
fn genesis_txid() {
    let tx = decode(GENESIS_TX.to_string()).unwrap();
    assert_eq!(tx.compute_txid().to_hex(), GENESIS_TXID);
}

#[test]
fn decoded_transaction_encodes_to_its_bytes() {
    let tx = decode(GENESIS_TX.to_string()).unwrap();
    assert_eq!(encode_transaction(&tx), from_hex(GENESIS_TX));
}

#[test]
fn decode_accepts_upper_case_and_ignores_trailing_bytes() {
    let upper = GENESIS_TX.to_uppercase() + "DEADBEEF";
    let tx = decode(upper).unwrap();
    assert_eq!(tx.inputs[0].script_sig, GENESIS_SCRIPT_SIG);
    assert_eq!(tx.compute_txid().to_hex(), GENESIS_TXID);
}

#[test]
fn decode_odd_length_is_hex_error() {
    assert_eq!(decode("123".to_string()).unwrap_err(), Error::Hex(HexError::OddLength));
}

#[test]
fn decode_invalid_character_is_hex_error() {
    assert_eq!(
        decode("01zz".to_string()).unwrap_err(),
        Error::Hex(HexError::InvalidHexCharacter { c: 'z', index: 2 })
    );
    assert_eq!(
        decode("0g".to_string()).unwrap_err(),
        Error::Hex(HexError::InvalidHexCharacter { c: 'g', index: 1 })
    );
}

#[test]
fn decode_empty_is_eof() {
    assert_eq!(decode(String::new()).unwrap_err(), Error::Io(IoErrorKind::UnexpectedEof));
}

#[test]
fn decode_truncated_script_is_eof() {
    // The script announces 107 bytes where only 105 remain.
    let hex = "0100000001a15d747f65d8b70680a844a21875f5a671d6070a6e9167e8d13a730b443768e1000000006b483045022100877123456789012345678901234567890123456789022079656090d7f6bac4c9a94e0aad311a4268e082a725f8aeae0573fb12ff866a5f01ffffffff0100f2052a010000001976a9148cb20a7664f2f69e5355aa427045bc15e7c6c77288ac00000000";
    assert_eq!(decode(hex.to_string()).unwrap_err(), Error::Io(IoErrorKind::UnexpectedEof));
}

#[test]
fn decode_truncated_txid_is_invalid_data() {
    assert_eq!(
        decode("0100000001aabb".to_string()).unwrap_err(),
        Error::Io(IoErrorKind::InvalidData)
    );
}

#[test]
fn decode_missing_lock_time_is_eof() {
    let cut = &GENESIS_TX[..GENESIS_TX.len() - 2];
    assert_eq!(decode(cut.to_string()).unwrap_err(), Error::Io(IoErrorKind::UnexpectedEof));
}

#[test]
fn decode_no_inputs_no_outputs() {
    let tx = decode("020000000000ffffffff".to_string()).unwrap();
    assert_eq!(tx.version, 2);
    assert!(tx.inputs.is_empty());
    assert!(tx.outputs.is_empty());
    assert_eq!(tx.lock_time, 0xFFFF_FFFF);
}

#[test]
fn transaction_consensus_decode_advances_reader() {
    let bytes = from_hex(&(GENESIS_TX.to_string() + "aa"));
    let mut r: &[u8] = &bytes;
    let tx = Transaction::consensus_decode(&mut r).unwrap();
    assert_eq!(tx.version, 1);
    assert_eq!(r, &[0xaa][..]);
}

#[test]
fn build_and_roundtrip_transaction() {
    let tx = Transaction {
        version: 2,
        inputs: vec![TxIn {
            txid: Txid::from_hash([7u8; 32]),
            vout: 3,
            script_sig: "00ff".to_string(),
            sequence: 0xFFFF_FFFE,
        }],
        outputs: vec![
            TxOut { amount: Amount::from_sat(1000), script_pubkey: "51".to_string() },
            TxOut { amount: Amount::from_sat(0), script_pubkey: String::new() },
        ],
        lock_time: 500_000,
    };
    let bytes = encode_transaction(&tx);
    let mut r: &[u8] = &bytes;
    let back = Transaction::consensus_decode(&mut r).unwrap();
    assert!(r.is_empty());
    assert_eq!(back.version, 2);
    assert_eq!(back.inputs[0].txid.to_bytes(), [7u8; 32]);
    assert_eq!(back.inputs[0].vout, 3);
    assert_eq!(back.inputs[0].script_sig, "00ff");
    assert_eq!(back.inputs[0].sequence, 0xFFFF_FFFE);
    assert_eq!(back.outputs[0].amount.to_sat(), 1000);
    assert_eq!(back.outputs[0].script_pubkey, "51");
    assert_eq!(back.outputs[1].script_pubkey, "");
    assert_eq!(back.lock_time, 500_000);
    assert_eq!(back.compute_txid().to_bytes(), tx.compute_txid().to_bytes());
    assert_eq!(
        Txid::from_raw_transaction(bytes).to_bytes(),
        tx.compute_txid().to_bytes()
    );
}

#[test]
fn compact_size_in_vec_count() {
    let outputs: Vec<TxOut> = (0..300)
        .map(|i| TxOut { amount: Amount::from_sat(i), script_pubkey: String::new() })
        .collect();
    let mut w = Vec::new();
    let n = outputs.consensus_encode(&mut w);
    assert_eq!(n, w.len());
    assert_eq!(&w[..3], &[0xFD, 0x2C, 0x01]);
    assert_eq!(n, 3 + 300 * 9);
    let mut r: &[u8] = &w;
    let back = Vec::<TxOut>::consensus_decode(&mut r).unwrap();
    assert_eq!(back.len(), 300);
    assert_eq!(back[299].amount.to_sat(), 299);
}

#[test]
fn compact_size_count_without_items_is_eof() {
    let mut r: &[u8] = &[0x02, 0, 0, 0, 0, 0, 0, 0, 0, 0x00];
    assert_eq!(
        Vec::<TxOut>::consensus_decode(&mut r).unwrap_err(),
        Error::Io(IoErrorKind::UnexpectedEof)
    );
}
