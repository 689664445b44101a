//! The Bitcoin wire format, as spec functions over byte sequences.
//!
//! Each `parse_*` function reads a value from the front of a byte sequence
//! and gives the value together with the number of bytes it took, or the
//! error that reading it meets. Each `encode_*` function gives the bytes of
//! a value.

use crate::hash::sha256;
use crate::hexcode::{hex_decode_spec, hex_encode_spec};
use crate::transaction::{Error, IoErrorKind};
use vstd::bytes::{
    spec_u16_from_le_bytes, spec_u16_to_le_bytes, spec_u32_from_le_bytes, spec_u32_to_le_bytes,
    spec_u64_from_le_bytes, spec_u64_to_le_bytes,
};
use vstd::prelude::*;
use vstd::utf8::encode_utf8;

verus! {

/// What a transaction input holds.
pub struct TxInModel {
    /// The id of the spent transaction, in display order.
    pub txid: Seq<u8>,
    pub vout: u32,
    /// The script, as hexadecimal text.
    pub script_sig: Seq<char>,
    pub sequence: u32,
}

/// What a transaction output holds.
pub struct TxOutModel {
    /// The amount in satoshi.
    pub amount: u64,
    /// The script, as hexadecimal text.
    pub script_pubkey: Seq<char>,
}

/// What a transaction holds.
pub struct TransactionModel {
    pub version: u32,
    pub inputs: Seq<TxInModel>,
    pub outputs: Seq<TxOutModel>,
    pub lock_time: u32,
}

/// The error of input that ends too early.
pub open spec fn eof<T>() -> Result<T, Error> {
    Err(Error::Io(IoErrorKind::UnexpectedEof))
}

// ---------------------------------------------------------------- integers

pub open spec fn parse_u8(b: Seq<u8>) -> Result<(u8, nat), Error> {
    if b.len() >= 1 {
        Ok((b[0], 1))
    } else {
        eof()
    }
}

pub open spec fn parse_u16(b: Seq<u8>) -> Result<(u16, nat), Error> {
    if b.len() >= 2 {
        Ok((spec_u16_from_le_bytes(b.take(2)), 2))
    } else {
        eof()
    }
}

pub open spec fn parse_u32(b: Seq<u8>) -> Result<(u32, nat), Error> {
    if b.len() >= 4 {
        Ok((spec_u32_from_le_bytes(b.take(4)), 4))
    } else {
        eof()
    }
}

pub open spec fn parse_u64(b: Seq<u8>) -> Result<(u64, nat), Error> {
    if b.len() >= 8 {
        Ok((spec_u64_from_le_bytes(b.take(8)), 8))
    } else {
        eof()
    }
}

pub open spec fn encode_u8(x: u8) -> Seq<u8> {
    seq![x]
}

pub open spec fn encode_u16(x: u16) -> Seq<u8> {
    spec_u16_to_le_bytes(x)
}

pub open spec fn encode_u32(x: u32) -> Seq<u8> {
    spec_u32_to_le_bytes(x)
}

pub open spec fn encode_u64(x: u64) -> Seq<u8> {
    spec_u64_to_le_bytes(x)
}

// ----------------------------------------------------------- compact sizes

/// A compact size: one byte below `0xFD`; else a marker byte and the value
/// in two, four or eight little-endian bytes.
pub open spec fn encode_compact(v: u64) -> Seq<u8> {
    if v <= 0xFC {
        seq![v as u8]
    } else if v <= 0xFFFF {
        seq![0xFDu8] + encode_u16(v as u16)
    } else if v <= 0xFFFF_FFFF {
        seq![0xFEu8] + encode_u32(v as u32)
    } else {
        seq![0xFFu8] + encode_u64(v)
    }
}

/// Reads a compact size. The marker `0xFF` announces eight bytes, `0xDE`
/// four and `0xFD` two; every other first byte is the value itself.
pub open spec fn parse_compact(b: Seq<u8>) -> Result<(u64, nat), Error> {
    if b.len() < 1 {
        eof()
    } else if b[0] == 0xFF {
        if b.len() >= 9 {
            Ok((spec_u64_from_le_bytes(b.subrange(1, 9)), 9))
        } else {
            eof()
        }
    } else if b[0] == 0xDE {
        if b.len() >= 5 {
            Ok((spec_u32_from_le_bytes(b.subrange(1, 5)) as u64, 5))
        } else {
            eof()
        }
    } else if b[0] == 0xFD {
        if b.len() >= 3 {
            Ok((spec_u16_from_le_bytes(b.subrange(1, 3)) as u64, 3))
        } else {
            eof()
        }
    } else {
        Ok((b[0] as u64, 1))
    }
}

// ------------------------------------------------------------------- txids

/// A txid is kept in display order, the reverse of its order on the wire.
pub open spec fn encode_txid(t: Seq<u8>) -> Seq<u8> {
    t.reverse()
}

pub open spec fn parse_txid(b: Seq<u8>) -> Result<(Seq<u8>, nat), Error> {
    if b.len() >= 32 {
        Ok((b.take(32).reverse(), 32))
    } else {
        Err(Error::Io(IoErrorKind::InvalidData))
    }
}

/// The transaction id of the serialized transaction `data`: its double
/// SHA-256 digest, in display order.
pub open spec fn txid_of(data: Seq<u8>) -> Seq<u8> {
    sha256(sha256(data)).reverse()
}

// ----------------------------------------------------------------- scripts

/// A script text can be written out: its bytes are hexadecimal.
pub open spec fn script_encodable(s: Seq<char>) -> bool {
    hex_decode_spec(encode_utf8(s)) is Ok
}

/// The bytes of a script text.
pub open spec fn script_bytes(s: Seq<char>) -> Seq<u8> {
    match hex_decode_spec(encode_utf8(s)) {
        Ok(b) => b,
        Err(_) => Seq::empty(),
    }
}

/// A script: its length as a compact size, then its bytes.
pub open spec fn encode_script(s: Seq<char>) -> Seq<u8> {
    encode_compact(script_bytes(s).len() as u64) + script_bytes(s)
}

/// Reads a script and gives it as lower case hexadecimal text.
pub open spec fn parse_script(b: Seq<u8>) -> Result<(Seq<char>, nat), Error> {
    match parse_compact(b) {
        Ok((len, n)) => if n + len <= b.len() {
            Ok((hex_encode_spec(b.subrange(n as int, n + len)), (n + len) as nat))
        } else {
            eof()
        },
        Err(e) => Err(e),
    }
}

// ------------------------------------------------------ inputs and outputs

pub open spec fn encode_txin(t: TxInModel) -> Seq<u8> {
    encode_txid(t.txid) + encode_u32(t.vout) + encode_script(t.script_sig) + encode_u32(t.sequence)
}

pub open spec fn txin_encodable(t: TxInModel) -> bool {
    script_encodable(t.script_sig)
}

/// Reads the txid, the output index, the script and the sequence number of an input.
pub open spec fn parse_txin(b: Seq<u8>) -> Result<(TxInModel, nat), Error> {
    match parse_txid(b) {
        Err(e) => Err(e),
        Ok((txid, n1)) => match parse_u32(b.skip(n1 as int)) {
            Err(e) => Err(e),
            Ok((vout, n2)) => match parse_script(b.skip((n1 + n2) as int)) {
                Err(e) => Err(e),
                Ok((script_sig, n3)) => match parse_u32(b.skip((n1 + n2 + n3) as int)) {
                    Err(e) => Err(e),
                    Ok((sequence, n4)) => Ok(
                        (
                            TxInModel { txid, vout, script_sig, sequence },
                            (n1 + n2 + n3 + n4) as nat,
                        ),
                    ),
                },
            },
        },
    }
}

pub open spec fn encode_txout(o: TxOutModel) -> Seq<u8> {
    encode_u64(o.amount) + encode_script(o.script_pubkey)
}

pub open spec fn txout_encodable(o: TxOutModel) -> bool {
    script_encodable(o.script_pubkey)
}

/// Reads the amount and the script of an output.
pub open spec fn parse_txout(b: Seq<u8>) -> Result<(TxOutModel, nat), Error> {
    match parse_u64(b) {
        Err(e) => Err(e),
        Ok((amount, n1)) => match parse_script(b.skip(n1 as int)) {
            Err(e) => Err(e),
            Ok((script_pubkey, n2)) => Ok(
                (TxOutModel { amount, script_pubkey }, (n1 + n2) as nat),
            ),
        },
    }
}

// --------------------------------------------------------------- sequences

/// Puts the values `done`, read from the first `taken` bytes, in front of
/// what reading the rest gave.
pub open spec fn after<T>(done: Seq<T>, taken: nat, rest: Result<(Seq<T>, nat), Error>) -> Result<
    (Seq<T>, nat),
    Error,
> {
    match rest {
        Ok((xs, n)) => Ok((done + xs, taken + n)),
        Err(e) => Err(e),
    }
}

/// Reads `count` inputs one after the other.
pub open spec fn parse_txin_items(b: Seq<u8>, count: nat) -> Result<(Seq<TxInModel>, nat), Error>
    decreases count,
{
    if count == 0 {
        Ok((Seq::empty(), 0))
    } else {
        match parse_txin(b) {
            Err(e) => Err(e),
            Ok((x, n)) => after(seq![x], n, parse_txin_items(b.skip(n as int), (count - 1) as nat)),
        }
    }
}

/// Reads `count` outputs one after the other.
pub open spec fn parse_txout_items(b: Seq<u8>, count: nat) -> Result<
    (Seq<TxOutModel>, nat),
    Error,
>
    decreases count,
{
    if count == 0 {
        Ok((Seq::empty(), 0))
    } else {
        match parse_txout(b) {
            Err(e) => Err(e),
            Ok((x, n)) => after(seq![x], n, parse_txout_items(b.skip(n as int), (count - 1) as nat)),
        }
    }
}

/// Reads a compact size, then that many inputs.
pub open spec fn parse_txins(b: Seq<u8>) -> Result<(Seq<TxInModel>, nat), Error> {
    match parse_compact(b) {
        Err(e) => Err(e),
        Ok((count, n)) => after(Seq::empty(), n, parse_txin_items(b.skip(n as int), count as nat)),
    }
}

/// Reads a compact size, then that many outputs.
pub open spec fn parse_txouts(b: Seq<u8>) -> Result<(Seq<TxOutModel>, nat), Error> {
    match parse_compact(b) {
        Err(e) => Err(e),
        Ok((count, n)) => after(Seq::empty(), n, parse_txout_items(b.skip(n as int), count as nat)),
    }
}

pub open spec fn encode_txin_items(s: Seq<TxInModel>) -> Seq<u8>
    decreases s.len(),
{
    if s.len() == 0 {
        Seq::empty()
    } else {
        encode_txin(s[0]) + encode_txin_items(s.drop_first())
    }
}

pub open spec fn encode_txout_items(s: Seq<TxOutModel>) -> Seq<u8>
    decreases s.len(),
{
    if s.len() == 0 {
        Seq::empty()
    } else {
        encode_txout(s[0]) + encode_txout_items(s.drop_first())
    }
}

/// The number of inputs as a compact size, then the inputs.
pub open spec fn encode_txins(s: Seq<TxInModel>) -> Seq<u8> {
    encode_compact(s.len() as u64) + encode_txin_items(s)
}

/// The number of outputs as a compact size, then the outputs.
pub open spec fn encode_txouts(s: Seq<TxOutModel>) -> Seq<u8> {
    encode_compact(s.len() as u64) + encode_txout_items(s)
}

pub open spec fn txins_encodable(s: Seq<TxInModel>) -> bool {
    forall|i: int| 0 <= i < s.len() ==> #[trigger] txin_encodable(s[i])
}

pub open spec fn txouts_encodable(s: Seq<TxOutModel>) -> bool {
    forall|i: int| 0 <= i < s.len() ==> #[trigger] txout_encodable(s[i])
}

// ------------------------------------------------------------ transactions

/// Reads the version, the inputs, the outputs and the lock time.
pub open spec fn parse_transaction(b: Seq<u8>) -> Result<(TransactionModel, nat), Error> {
    match parse_u32(b) {
        Err(e) => Err(e),
        Ok((version, n1)) => match parse_txins(b.skip(n1 as int)) {
            Err(e) => Err(e),
            Ok((inputs, n2)) => match parse_txouts(b.skip((n1 + n2) as int)) {
                Err(e) => Err(e),
                Ok((outputs, n3)) => match parse_u32(b.skip((n1 + n2 + n3) as int)) {
                    Err(e) => Err(e),
                    Ok((lock_time, n4)) => Ok(
                        (
                            TransactionModel { version, inputs, outputs, lock_time },
                            (n1 + n2 + n3 + n4) as nat,
                        ),
                    ),
                },
            },
        },
    }
}

/// The bytes whose digest is the transaction id.
pub open spec fn encode_transaction(tx: TransactionModel) -> Seq<u8> {
    encode_u32(tx.version) + encode_txins(tx.inputs) + encode_txouts(tx.outputs) + encode_u32(
        tx.lock_time,
    )
}

pub open spec fn transaction_encodable(tx: TransactionModel) -> bool {
    txins_encodable(tx.inputs) && txouts_encodable(tx.outputs)
}

/// Encoding one more input appends its bytes.
pub proof fn lemma_encode_txin_items_push(s: Seq<TxInModel>, x: TxInModel)
    ensures
        encode_txin_items(s.push(x)) == encode_txin_items(s) + encode_txin(x),
    decreases s.len(),
{
    if s.len() == 0 {
        assert(s.push(x).drop_first() == s);
    } else {
        assert(s.push(x).drop_first() == s.drop_first().push(x));
        lemma_encode_txin_items_push(s.drop_first(), x);
    }
}

/// Encoding one more output appends its bytes.
pub proof fn lemma_encode_txout_items_push(s: Seq<TxOutModel>, x: TxOutModel)
    ensures
        encode_txout_items(s.push(x)) == encode_txout_items(s) + encode_txout(x),
    decreases s.len(),
{
    if s.len() == 0 {
        assert(s.push(x).drop_first() == s);
    } else {
        assert(s.push(x).drop_first() == s.drop_first().push(x));
        lemma_encode_txout_items_push(s.drop_first(), x);
    }
}

/// Two reads in a row are one read of both.
pub proof fn lemma_after_after<T>(a: Seq<T>, m: nat, b: Seq<T>, n: nat, rest: Result<(Seq<T>, nat), Error>)
    ensures
        after(a, m, after(b, n, rest)) == after(a + b, m + n, rest),
{
    match rest {
        Ok((xs, k)) => {
            assert(a + (b + xs) == (a + b) + xs);
        },
        Err(_) => {},
    }
}

} // verus!
