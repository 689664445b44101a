//! Decoding of raw Bitcoin transactions.
//!
//! The wire format is stated by the spec functions of [`wire`]; the
//! executable encoders and decoders of [`transaction`] are proved to follow
//! it, and [`laws`] states how encoding and decoding relate.

pub mod cli;
pub mod hash;
pub mod hexcode;
pub mod laws;
pub mod transaction;
pub mod wire;

use crate::hexcode::{hex_decode, hex_decode_spec};
use crate::transaction::{Decodable, Error, Transaction};
use crate::laws::law_transaction_parse_encodable;
use crate::wire::{parse_transaction, transaction_encodable};
use vstd::prelude::*;
use vstd::utf8::encode_utf8;

verus! {

/// Decodes a raw transaction given as hexadecimal text. Bytes after the
/// lock time are not read.
pub fn decode(tx_hex: String) -> (res: Result<Transaction, Error>)
    ensures
        (match hex_decode_spec(encode_utf8(tx_hex@)) {
            Err(e) => res == Err::<Transaction, Error>(Error::Hex(e)),
            Ok(bytes) => match parse_transaction(bytes) {
                Ok((tx, _)) => {
                    &&& res is Ok
                    &&& res->Ok_0.deep_view() == tx
                    &&& transaction_encodable(tx)
                },
                Err(e) => res == Err::<Transaction, Error>(e),
            },
        }),
{
    let transaction_bytes = match hex_decode(tx_hex.as_str().as_bytes()) {
        Ok(b) => b,
        Err(e) => {
            return Err(Error::Hex(e));
        },
    };
    proof {
        law_transaction_parse_encodable(transaction_bytes@);
    }
    let mut bytes_slice = transaction_bytes.as_slice();
    Transaction::consensus_decode(&mut bytes_slice)
}

} // verus!
