//! Transactions and their binary form.

use crate::hash::{sha256, sha256_digest};
use crate::hexcode::{hex_decode, hex_encode, hex_encode_spec, HexError};
use crate::wire::{
    after, encode_compact, encode_script, encode_transaction, encode_txid, encode_txin,
    encode_txin_items, encode_txins, encode_txout, encode_txout_items, encode_txouts, encode_u16,
    encode_u32, encode_u64, encode_u8, lemma_after_after, lemma_encode_txin_items_push,
    lemma_encode_txout_items_push, parse_compact, parse_script, parse_transaction, parse_txid,
    parse_txin, parse_txin_items, parse_txins, parse_txout, parse_txout_items, parse_txouts,
    parse_u16, parse_u32, parse_u64, parse_u8, script_encodable, transaction_encodable, txid_of,
    txin_encodable, txins_encodable, txout_encodable, txouts_encodable, TransactionModel, TxInModel,
    TxOutModel,
};
use vstd::bytes::{
    lemma_auto_spec_u16_to_from_le_bytes, lemma_auto_spec_u32_to_from_le_bytes,
    lemma_auto_spec_u64_to_from_le_bytes, u16_from_le_bytes, u16_to_le_bytes, u32_from_le_bytes,
    u32_to_le_bytes, u64_from_le_bytes, u64_to_le_bytes,
};
use vstd::prelude::*;
use vstd::slice::slice_subrange;

verus! {

broadcast use vstd::seq_lib::lemma_seq_skip_of_skip;

/// Kinds of reading failure while decoding from a byte stream.
#[derive(Debug, Clone, Copy, PartialEq, Eq, Structural)]
pub enum IoErrorKind {
    /// The input ended before the value was complete.
    UnexpectedEof,
    /// The input did not hold a valid value.
    InvalidData,
}

/// Errors of the library.
#[derive(Debug, Clone, Copy, PartialEq, Eq, Structural)]
pub enum Error {
    /// Reading the binary form failed.
    Io(IoErrorKind),
    /// The text was not hexadecimal.
    Hex(HexError),
}

/// Values that can be read from the front of a byte slice.
pub trait Decodable: Sized + DeepView {
    /// How a value is read from the front of `bytes`: the value and the
    /// number of bytes it takes, or the error met.
    spec fn wire_decode(bytes: Seq<u8>) -> Result<(Self::V, nat), Error>;

    /// Reads a value from the front of `*r` and advances `*r` past it.
    fn consensus_decode(r: &mut &[u8]) -> (res: Result<Self, Error>)
        ensures
            final(r)@.len() <= old(r)@.len(),
            final(r)@ == old(r)@.skip(old(r)@.len() - final(r)@.len()),
            (match Self::wire_decode(old(r)@) {
                Ok((v, n)) => {
                    &&& res is Ok
                    &&& res->Ok_0.deep_view() == v
                    &&& n <= old(r)@.len()
                    &&& final(r)@ == old(r)@.skip(n as int)
                },
                Err(e) => res == Err::<Self, Error>(e),
            }),
    ;
}

/// Values that can be written in binary form.
pub trait Encodable: DeepView {
    /// A value that can be written.
    spec fn wire_encodable(v: Self::V) -> bool;

    /// The bytes of a value.
    spec fn wire_encode(v: Self::V) -> Seq<u8>;

    /// Appends the bytes of `self` to `w` and gives their number.
    fn consensus_encode(&self, w: &mut Vec<u8>) -> (n: usize)
        requires
            Self::wire_encodable(self.deep_view()),
        ensures
            final(w)@ == old(w)@ + Self::wire_encode(self.deep_view()),
            n == Self::wire_encode(self.deep_view()).len(),
    ;
}

/// Appends `data` to `w`.
fn write_bytes(w: &mut Vec<u8>, data: &[u8])
    ensures
        final(w)@ == old(w)@ + data@,
{
    let ghost start = w@;
    let mut i: usize = 0;
    while i < data.len()
        invariant
            i <= data@.len(),
            w@ == start + data@.take(i as int),
        decreases data@.len() - i,
    {
        w.push(data[i]);
        i += 1;
        assert(data@.take(i as int) == data@.take(i - 1).push(data@[i - 1]));
    }
    assert(data@.take(data@.len() as int) == data@);
}

/// Takes the first `n` bytes off `*r`, if it holds that many.
fn read_exact<'a>(r: &mut &'a [u8], n: usize) -> (res: Option<&'a [u8]>)
    ensures
        old(r)@.len() >= n ==> {
            &&& res is Some
            &&& res->0@ == old(r)@.take(n as int)
            &&& final(r)@ == old(r)@.skip(n as int)
        },
        old(r)@.len() < n ==> res is None && final(r)@ == old(r)@,
{
    if r.len() < n {
        None
    } else {
        let head = slice_subrange(*r, 0, n);
        *r = slice_subrange(*r, n, r.len());
        Some(head)
    }
}

impl Encodable for u64 {
    open spec fn wire_encodable(v: u64) -> bool {
        true
    }

    open spec fn wire_encode(v: u64) -> Seq<u8> {
        encode_u64(v)
    }

    fn consensus_encode(&self, w: &mut Vec<u8>) -> (n: usize) {
        proof {
            lemma_auto_spec_u64_to_from_le_bytes();
        }
        let b = u64_to_le_bytes(*self);
        write_bytes(w, b.as_slice());
        b.len()
    }
}

impl Encodable for u32 {
    open spec fn wire_encodable(v: u32) -> bool {
        true
    }

    open spec fn wire_encode(v: u32) -> Seq<u8> {
        encode_u32(v)
    }

    fn consensus_encode(&self, w: &mut Vec<u8>) -> (n: usize) {
        proof {
            lemma_auto_spec_u32_to_from_le_bytes();
        }
        let b = u32_to_le_bytes(*self);
        write_bytes(w, b.as_slice());
        b.len()
    }
}

impl Encodable for u16 {
    open spec fn wire_encodable(v: u16) -> bool {
        true
    }

    open spec fn wire_encode(v: u16) -> Seq<u8> {
        encode_u16(v)
    }

    fn consensus_encode(&self, w: &mut Vec<u8>) -> (n: usize) {
        proof {
            lemma_auto_spec_u16_to_from_le_bytes();
        }
        let b = u16_to_le_bytes(*self);
        write_bytes(w, b.as_slice());
        b.len()
    }
}

impl Encodable for u8 {
    open spec fn wire_encodable(v: u8) -> bool {
        true
    }

    open spec fn wire_encode(v: u8) -> Seq<u8> {
        encode_u8(v)
    }

    fn consensus_encode(&self, w: &mut Vec<u8>) -> (n: usize) {
        w.push(*self);
        1
    }
}

impl Decodable for u8 {
    open spec fn wire_decode(bytes: Seq<u8>) -> Result<(u8, nat), Error> {
        parse_u8(bytes)
    }

    fn consensus_decode(r: &mut &[u8]) -> (res: Result<u8, Error>) {
        match read_exact(r, 1) {
            Some(b) => Ok(b[0]),
            None => Err(Error::Io(IoErrorKind::UnexpectedEof)),
        }
    }
}

impl Decodable for u16 {
    open spec fn wire_decode(bytes: Seq<u8>) -> Result<(u16, nat), Error> {
        parse_u16(bytes)
    }

    fn consensus_decode(r: &mut &[u8]) -> (res: Result<u16, Error>) {
        match read_exact(r, 2) {
            Some(b) => Ok(u16_from_le_bytes(b)),
            None => Err(Error::Io(IoErrorKind::UnexpectedEof)),
        }
    }
}

impl Decodable for u32 {
    open spec fn wire_decode(bytes: Seq<u8>) -> Result<(u32, nat), Error> {
        parse_u32(bytes)
    }

    fn consensus_decode(r: &mut &[u8]) -> (res: Result<u32, Error>) {
        match read_exact(r, 4) {
            Some(b) => Ok(u32_from_le_bytes(b)),
            None => Err(Error::Io(IoErrorKind::UnexpectedEof)),
        }
    }
}

impl Decodable for u64 {
    open spec fn wire_decode(bytes: Seq<u8>) -> Result<(u64, nat), Error> {
        parse_u64(bytes)
    }

    fn consensus_decode(r: &mut &[u8]) -> (res: Result<u64, Error>) {
        match read_exact(r, 8) {
            Some(b) => Ok(u64_from_le_bytes(b)),
            None => Err(Error::Io(IoErrorKind::UnexpectedEof)),
        }
    }
}

/// A count or a length in the compact form of the wire format.
#[derive(Debug, Clone, Copy, PartialEq, Eq, Structural)]
pub struct CompactSize(pub u64);

impl DeepView for CompactSize {
    type V = u64;

    open spec fn deep_view(&self) -> u64 {
        self.0
    }
}

impl Encodable for CompactSize {
    open spec fn wire_encodable(v: u64) -> bool {
        true
    }

    open spec fn wire_encode(v: u64) -> Seq<u8> {
        encode_compact(v)
    }

    fn consensus_encode(&self, w: &mut Vec<u8>) -> (n: usize) {
        proof {
            lemma_auto_spec_u16_to_from_le_bytes();
            lemma_auto_spec_u32_to_from_le_bytes();
            lemma_auto_spec_u64_to_from_le_bytes();
        }
        if self.0 <= 0xFC {
            (self.0 as u8).consensus_encode(w);
            1
        } else if self.0 <= 0xFFFF {
            w.push(0xFD);
            (self.0 as u16).consensus_encode(w);
            3
        } else if self.0 <= 0xFFFF_FFFF {
            w.push(0xFE);
            (self.0 as u32).consensus_encode(w);
            5
        } else {
            w.push(0xFF);
            self.0.consensus_encode(w);
            9
        }
    }
}

impl Decodable for CompactSize {
    open spec fn wire_decode(bytes: Seq<u8>) -> Result<(u64, nat), Error> {
        parse_compact(bytes)
    }

    fn consensus_decode(r: &mut &[u8]) -> (res: Result<CompactSize, Error>) {
        let ghost start = r@;
        let n = u8::consensus_decode(r)?;
        let ghost rest = r@;
        assert(rest == start.skip(1));
        if n == 0xFF {
            let x = u64::consensus_decode(r)?;
            assert(start.skip(1).take(8) == start.subrange(1, 9));
            Ok(CompactSize(x))
        } else if n == 0xDE {
            let x = u32::consensus_decode(r)?;
            assert(start.skip(1).take(4) == start.subrange(1, 5));
            Ok(CompactSize(x as u64))
        } else if n == 0xFD {
            let x = u16::consensus_decode(r)?;
            assert(start.skip(1).take(2) == start.subrange(1, 3));
            Ok(CompactSize(x as u64))
        } else {
            Ok(CompactSize(n as u64))
        }
    }
}

/// Reverses 32 bytes.
fn reversed(bytes: &[u8]) -> (res: [u8; 32])
    requires
        bytes@.len() == 32,
    ensures
        res@ == bytes@.reverse(),
{
    let mut out = [0u8; 32];
    let mut i: usize = 0;
    while i < 32
        invariant
            i <= 32,
            bytes@.len() == 32,
            forall|j: int| 0 <= j < i ==> out@[j] == bytes@[31 - j],
        decreases 32 - i,
    {
        out[i] = bytes[31 - i];
        i += 1;
    }
    assert(out@ == bytes@.reverse());
    out
}

impl Encodable for [u8; 32] {
    open spec fn wire_encodable(v: Seq<u8>) -> bool {
        true
    }

    open spec fn wire_encode(v: Seq<u8>) -> Seq<u8> {
        v
    }

    fn consensus_encode(&self, w: &mut Vec<u8>) -> (n: usize) {
        let s = vstd::array::array_as_slice(self);
        assert(self.deep_view() == s@);
        write_bytes(w, s);
        32
    }
}

/// A transaction id, kept in display order.
#[derive(Debug, Clone, Copy)]
pub struct Txid([u8; 32]);

impl View for Txid {
    type V = Seq<u8>;

    closed spec fn view(&self) -> Seq<u8> {
        self.0@
    }
}

impl DeepView for Txid {
    type V = Seq<u8>;

    open spec fn deep_view(&self) -> Seq<u8> {
        self@
    }
}

impl Txid {
    /// The id of the serialized transaction `data`: its double SHA-256
    /// digest, in display order.
    pub fn from_raw_transaction(data: Vec<u8>) -> (res: Txid)
        ensures
            res@ == txid_of(data@),
            res@ == sha256(sha256(data@)).reverse(),
    {
        let hash1 = sha256_digest(data.as_slice());
        let hash2 = sha256_digest(vstd::array::array_as_slice(&hash1));
        Txid::from_double_sha256(hash2)
    }

    /// The id whose double SHA-256 digest, in wire order, is `digest`.
    pub fn from_double_sha256(digest: [u8; 32]) -> (res: Txid)
        ensures
            res@ == digest@.reverse(),
    {
        Txid::from_hash(reversed(vstd::array::array_as_slice(&digest)))
    }

    /// The id whose bytes in display order are `bytes`.
    pub fn from_hash(bytes: [u8; 32]) -> (res: Txid)
        ensures
            res@ == bytes@,
    {
        Txid(bytes)
    }

    /// The bytes in display order as lower case hexadecimal text.
    pub fn to_hex(&self) -> (res: String)
        ensures
            res@ == hex_encode_spec(self@),
    {
        hex_encode(vstd::array::array_as_slice(&self.0))
    }

    /// The bytes in display order.
    pub fn to_bytes(&self) -> (res: [u8; 32])
        ensures
            res@ == self@,
    {
        self.0
    }
}

impl Encodable for Txid {
    open spec fn wire_encodable(v: Seq<u8>) -> bool {
        true
    }

    open spec fn wire_encode(v: Seq<u8>) -> Seq<u8> {
        encode_txid(v)
    }

    fn consensus_encode(&self, w: &mut Vec<u8>) -> (n: usize) {
        let bytes = reversed(vstd::array::array_as_slice(&self.0));
        bytes.consensus_encode(w)
    }
}

impl Decodable for Txid {
    open spec fn wire_decode(bytes: Seq<u8>) -> Result<(Seq<u8>, nat), Error> {
        parse_txid(bytes)
    }

    fn consensus_decode(r: &mut &[u8]) -> (res: Result<Txid, Error>) {
        match read_exact(r, 32) {
            Some(b) => Ok(Txid(reversed(b))),
            None => Err(Error::Io(IoErrorKind::InvalidData)),
        }
    }
}

/// Script texts: hexadecimal on the outside, length and bytes on the wire.
impl Encodable for String {
    open spec fn wire_encodable(v: Seq<char>) -> bool {
        script_encodable(v)
    }

    open spec fn wire_encode(v: Seq<char>) -> Seq<u8> {
        encode_script(v)
    }

    fn consensus_encode(&self, w: &mut Vec<u8>) -> (n: usize) {
        let start = w.len();
        let b = hex_decode(self.as_str().as_bytes()).unwrap();
        CompactSize(b.len() as u64).consensus_encode(w);
        write_bytes(w, b.as_slice());
        w.len() - start
    }
}

impl Decodable for String {
    open spec fn wire_decode(bytes: Seq<u8>) -> Result<(Seq<char>, nat), Error> {
        parse_script(bytes)
    }

    fn consensus_decode(r: &mut &[u8]) -> (res: Result<String, Error>) {
        let ghost start = r@;
        let len = CompactSize::consensus_decode(r)?.0;
        let ghost n = (start.len() - r@.len()) as nat;
        if len > r.len() as u64 {
            return Err(Error::Io(IoErrorKind::UnexpectedEof));
        }
        let buffer = read_exact(r, len as usize).unwrap();
        assert(buffer@ == start.subrange(n as int, n + len));
        Ok(hex_encode(buffer))
    }
}

/// An amount of bitcoin, counted in satoshi.
#[derive(Debug, Clone, Copy, PartialEq, Eq, Structural)]
pub struct Amount(u64);

impl View for Amount {
    type V = u64;

    closed spec fn view(&self) -> u64 {
        self.0
    }
}

impl DeepView for Amount {
    type V = u64;

    open spec fn deep_view(&self) -> u64 {
        self@
    }
}

impl Amount {
    /// The amount of `satoshi` satoshi.
    pub fn from_sat(satoshi: u64) -> (res: Amount)
        ensures
            res@ == satoshi,
    {
        Amount(satoshi)
    }

    /// The number of satoshi.
    pub fn to_sat(&self) -> (res: u64)
        ensures
            res == self@,
    {
        self.0
    }
}

impl Encodable for Amount {
    open spec fn wire_encodable(v: u64) -> bool {
        true
    }

    open spec fn wire_encode(v: u64) -> Seq<u8> {
        encode_u64(v)
    }

    fn consensus_encode(&self, w: &mut Vec<u8>) -> (n: usize) {
        let len = self.0.consensus_encode(w);
        len
    }
}

/// A transaction input: the output it spends, its script and sequence number.
#[derive(Debug)]
pub struct TxIn {
    pub txid: Txid,
    pub vout: u32,
    /// The script, as hexadecimal text.
    pub script_sig: String,
    pub sequence: u32,
}

impl DeepView for TxIn {
    type V = TxInModel;

    open spec fn deep_view(&self) -> TxInModel {
        TxInModel {
            txid: self.txid@,
            vout: self.vout,
            script_sig: self.script_sig@,
            sequence: self.sequence,
        }
    }
}

impl Encodable for TxIn {
    open spec fn wire_encodable(v: TxInModel) -> bool {
        txin_encodable(v)
    }

    open spec fn wire_encode(v: TxInModel) -> Seq<u8> {
        encode_txin(v)
    }

    fn consensus_encode(&self, w: &mut Vec<u8>) -> (n: usize) {
        let start = w.len();
        self.txid.consensus_encode(w);
        self.vout.consensus_encode(w);
        self.script_sig.consensus_encode(w);
        self.sequence.consensus_encode(w);
        w.len() - start
    }
}

impl Decodable for TxIn {
    open spec fn wire_decode(bytes: Seq<u8>) -> Result<(TxInModel, nat), Error> {
        parse_txin(bytes)
    }

    fn consensus_decode(r: &mut &[u8]) -> (res: Result<TxIn, Error>) {
        let txid = Txid::consensus_decode(r)?;
        let vout = u32::consensus_decode(r)?;
        let script_sig = String::consensus_decode(r)?;
        let sequence = u32::consensus_decode(r)?;
        Ok(TxIn { txid, vout, script_sig, sequence })
    }
}

/// A transaction output: an amount and the script that locks it.
#[derive(Debug)]
pub struct TxOut {
    pub amount: Amount,
    /// The script, as hexadecimal text.
    pub script_pubkey: String,
}

impl DeepView for TxOut {
    type V = TxOutModel;

    open spec fn deep_view(&self) -> TxOutModel {
        TxOutModel { amount: self.amount@, script_pubkey: self.script_pubkey@ }
    }
}

impl Encodable for TxOut {
    open spec fn wire_encodable(v: TxOutModel) -> bool {
        txout_encodable(v)
    }

    open spec fn wire_encode(v: TxOutModel) -> Seq<u8> {
        encode_txout(v)
    }

    fn consensus_encode(&self, w: &mut Vec<u8>) -> (n: usize) {
        let start = w.len();
        self.amount.consensus_encode(w);
        self.script_pubkey.consensus_encode(w);
        w.len() - start
    }
}

impl Decodable for TxOut {
    open spec fn wire_decode(bytes: Seq<u8>) -> Result<(TxOutModel, nat), Error> {
        parse_txout(bytes)
    }

    fn consensus_decode(r: &mut &[u8]) -> (res: Result<TxOut, Error>) {
        let amount = Amount::from_sat(u64::consensus_decode(r)?);
        let script_pubkey = String::consensus_decode(r)?;
        Ok(TxOut { amount, script_pubkey })
    }
}

impl Encodable for Vec<TxIn> {
    open spec fn wire_encodable(v: Seq<TxInModel>) -> bool {
        txins_encodable(v)
    }

    open spec fn wire_encode(v: Seq<TxInModel>) -> Seq<u8> {
        encode_txins(v)
    }

    fn consensus_encode(&self, w: &mut Vec<u8>) -> (n: usize) {
        let ghost items = self.deep_view();
        let start = w.len();
        CompactSize(self.len() as u64).consensus_encode(w);
        let ghost head = w@;
        let mut i: usize = 0;
        while i < self.len()
            invariant
                i <= self@.len(),
                items == self.deep_view(),
                txins_encodable(items),
                w@ == head + encode_txin_items(items.take(i as int)),
            decreases self@.len() - i,
        {
            assert(txin_encodable(items[i as int]));
            self[i].consensus_encode(w);
            proof {
                lemma_encode_txin_items_push(items.take(i as int), items[i as int]);
                assert(items.take(i as int).push(items[i as int]) == items.take(i + 1));
            }
            i += 1;
        }
        assert(items.take(i as int) == items);
        w.len() - start
    }
}

impl Decodable for Vec<TxIn> {
    open spec fn wire_decode(bytes: Seq<u8>) -> Result<(Seq<TxInModel>, nat), Error> {
        parse_txins(bytes)
    }

    fn consensus_decode(r: &mut &[u8]) -> (res: Result<Vec<TxIn>, Error>) {
        let ghost start = r@;
        let count = CompactSize::consensus_decode(r)?.0;
        let ghost items_start = r@;
        let mut inputs: Vec<TxIn> = Vec::new();
        let mut i: u64 = 0;
        while i < count
            invariant
                i <= count,
                start == old(r)@,
                items_start.len() <= start.len(),
                items_start == start.skip(start.len() - items_start.len()),
                parse_compact(start) == Ok::<(u64, nat), Error>((count, (start.len() - items_start.len()) as nat)),
                r@.len() <= items_start.len(),
                r@ == items_start.skip(items_start.len() - r@.len()),
                parse_txin_items(items_start, count as nat) == after(
                    inputs.deep_view(),
                    (items_start.len() - r@.len()) as nat,
                    parse_txin_items(r@, (count - i) as nat),
                ),
            decreases count - i,
        {
            let ghost before = r@;
            let ghost done = inputs.deep_view();
            let ghost k = (count - i) as nat;
            assert(parse_txin_items(before, k) == match parse_txin(before) {
                Err(e) => Err(e),
                Ok((x, n)) => after(seq![x], n, parse_txin_items(before.skip(n as int), (k - 1) as nat)),
            });
            let input = TxIn::consensus_decode(r)?;
            inputs.push(input);
            i += 1;
            assert(inputs.deep_view() == done.push(input.deep_view()));
            assert(done.push(input.deep_view()) == done + seq![input.deep_view()]);
            proof {
                let n = (before.len() - r@.len()) as nat;
                lemma_after_after(
                    done,
                    (items_start.len() - before.len()) as nat,
                    seq![input.deep_view()],
                    n,
                    parse_txin_items(r@, (count - i) as nat),
                );
            }
        }
        Ok(inputs)
    }
}

impl Encodable for Vec<TxOut> {
    open spec fn wire_encodable(v: Seq<TxOutModel>) -> bool {
        txouts_encodable(v)
    }

    open spec fn wire_encode(v: Seq<TxOutModel>) -> Seq<u8> {
        encode_txouts(v)
    }

    fn consensus_encode(&self, w: &mut Vec<u8>) -> (n: usize) {
        let ghost items = self.deep_view();
        let start = w.len();
        CompactSize(self.len() as u64).consensus_encode(w);
        let ghost head = w@;
        let mut i: usize = 0;
        while i < self.len()
            invariant
                i <= self@.len(),
                items == self.deep_view(),
                txouts_encodable(items),
                w@ == head + encode_txout_items(items.take(i as int)),
            decreases self@.len() - i,
        {
            assert(txout_encodable(items[i as int]));
            self[i].consensus_encode(w);
            proof {
                lemma_encode_txout_items_push(items.take(i as int), items[i as int]);
                assert(items.take(i as int).push(items[i as int]) == items.take(i + 1));
            }
            i += 1;
        }
        assert(items.take(i as int) == items);
        w.len() - start
    }
}

impl Decodable for Vec<TxOut> {
    open spec fn wire_decode(bytes: Seq<u8>) -> Result<(Seq<TxOutModel>, nat), Error> {
        parse_txouts(bytes)
    }

    fn consensus_decode(r: &mut &[u8]) -> (res: Result<Vec<TxOut>, Error>) {
        let ghost start = r@;
        let count = CompactSize::consensus_decode(r)?.0;
        let ghost items_start = r@;
        let mut outputs: Vec<TxOut> = Vec::new();
        let mut i: u64 = 0;
        while i < count
            invariant
                i <= count,
                start == old(r)@,
                items_start.len() <= start.len(),
                items_start == start.skip(start.len() - items_start.len()),
                parse_compact(start) == Ok::<(u64, nat), Error>((count, (start.len() - items_start.len()) as nat)),
                r@.len() <= items_start.len(),
                r@ == items_start.skip(items_start.len() - r@.len()),
                parse_txout_items(items_start, count as nat) == after(
                    outputs.deep_view(),
                    (items_start.len() - r@.len()) as nat,
                    parse_txout_items(r@, (count - i) as nat),
                ),
            decreases count - i,
        {
            let ghost before = r@;
            let ghost done = outputs.deep_view();
            let ghost k = (count - i) as nat;
            assert(parse_txout_items(before, k) == match parse_txout(before) {
                Err(e) => Err(e),
                Ok((x, n)) => after(seq![x], n, parse_txout_items(before.skip(n as int), (k - 1) as nat)),
            });
            let output = TxOut::consensus_decode(r)?;
            outputs.push(output);
            i += 1;
            assert(outputs.deep_view() == done.push(output.deep_view()));
            assert(done.push(output.deep_view()) == done + seq![output.deep_view()]);
            proof {
                let n = (before.len() - r@.len()) as nat;
                lemma_after_after(
                    done,
                    (items_start.len() - before.len()) as nat,
                    seq![output.deep_view()],
                    n,
                    parse_txout_items(r@, (count - i) as nat),
                );
            }
        }
        Ok(outputs)
    }
}

/// A transaction: its version, inputs, outputs and lock time.
#[derive(Debug)]
pub struct Transaction {
    pub version: u32,
    pub inputs: Vec<TxIn>,
    pub outputs: Vec<TxOut>,
    pub lock_time: u32,
}

impl DeepView for Transaction {
    type V = TransactionModel;

    open spec fn deep_view(&self) -> TransactionModel {
        TransactionModel {
            version: self.version,
            inputs: self.inputs.deep_view(),
            outputs: self.outputs.deep_view(),
            lock_time: self.lock_time,
        }
    }
}

impl Transaction {
    /// The id of the transaction: the double SHA-256 digest of its version,
    /// inputs, outputs and lock time in binary form, in display order.
    pub fn compute_txid(&self) -> (res: Txid)
        requires
            transaction_encodable(self.deep_view()),
        ensures
            res@ == txid_of(encode_transaction(self.deep_view())),
            res@ == sha256(sha256(encode_transaction(self.deep_view()))).reverse(),
    {
        let mut txid_data = Vec::new();
        self.version.consensus_encode(&mut txid_data);
        self.inputs.consensus_encode(&mut txid_data);
        self.outputs.consensus_encode(&mut txid_data);
        self.lock_time.consensus_encode(&mut txid_data);
        Txid::from_raw_transaction(txid_data)
    }
}

impl Decodable for Transaction {
    open spec fn wire_decode(bytes: Seq<u8>) -> Result<(TransactionModel, nat), Error> {
        parse_transaction(bytes)
    }

    fn consensus_decode(r: &mut &[u8]) -> (res: Result<Transaction, Error>) {
        let ghost b0 = r@;
        let version = u32::consensus_decode(r)?;
        let ghost b1 = r@;
        assert(b1 == b0.skip(4));
        let inputs = Vec::<TxIn>::consensus_decode(r)?;
        let ghost b2 = r@;
        let ghost n2 = (b1.len() - b2.len()) as nat;
        assert(parse_txins(b1) == Ok::<(Seq<TxInModel>, nat), Error>((inputs.deep_view(), n2)));
        assert(b2 == b0.skip((4 + n2) as int));
        let outputs = Vec::<TxOut>::consensus_decode(r)?;
        let ghost b3 = r@;
        let ghost n3 = (b2.len() - b3.len()) as nat;
        assert(parse_txouts(b2) == Ok::<(Seq<TxOutModel>, nat), Error>((outputs.deep_view(), n3)));
        assert(b3 == b0.skip((4 + n2 + n3) as int));
        let lock_time = u32::consensus_decode(r)?;
        Ok(Transaction { version, inputs, outputs, lock_time })
    }
}

} // verus!
