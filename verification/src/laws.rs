//! How encoding and decoding relate.
//!
//! Reading back what was written gives the value again, for every value
//! whose form on the wire is read back as written (see
//! [`compact_roundtrips`]), and writing what was read gives the bytes
//! again where they were in that form.

use crate::hexcode::{
    hex_char, hex_decode_pairs, hex_decode_spec, hex_digit_value, hex_encode_spec, is_hex_digit,
};
use crate::wire::{
    lemma_encode_txin_items_push, lemma_encode_txout_items_push,
    encode_compact, encode_script, encode_transaction, encode_txid, encode_txin,
    encode_txin_items, encode_txins, encode_txout, encode_txout_items, encode_txouts, encode_u16,
    encode_u32, encode_u64, encode_u8, parse_compact, parse_script, parse_transaction, parse_txid,
    parse_txin, parse_txin_items, parse_txins, parse_txout, parse_txout_items, parse_txouts,
    parse_u16, parse_u32, parse_u64, parse_u8, script_bytes, script_encodable,
    transaction_encodable, txid_of, txin_encodable, txins_encodable, txout_encodable, txouts_encodable,
    TransactionModel, TxInModel, TxOutModel,
};
use crate::transaction::{Error, IoErrorKind};
use vstd::bytes::{
    spec_u16_from_le_bytes, spec_u16_to_le_bytes,
    spec_u32_from_le_bytes, spec_u32_to_le_bytes, spec_u64_from_le_bytes, spec_u64_to_le_bytes,
    lemma_auto_spec_u16_to_from_le_bytes, lemma_auto_spec_u32_to_from_le_bytes,
    lemma_auto_spec_u64_to_from_le_bytes,
};
use vstd::prelude::*;
use vstd::utf8::{encode_utf8, is_ascii_chars, is_ascii_chars_encode_utf8};

verus! {

broadcast use vstd::seq_lib::lemma_seq_skip_of_skip;

/// A compact size that is read back as written: every value but `0xDE`,
/// whose single byte is taken for the four-byte marker, and those from
/// `0x1_0000` to `0xFFFF_FFFF`, whose marker `0xFE` is taken for a value.
pub open spec fn compact_roundtrips(v: u64) -> bool {
    v != 0xDE && (v <= 0xFFFF || v > 0xFFFF_FFFF)
}

/// A byte written is read back, whatever follows it.
pub proof fn law_u8_roundtrip(x: u8, rest: Seq<u8>)
    ensures
        parse_u8(encode_u8(x) + rest) == Ok::<(u8, nat), Error>((x, 1)),
{
}

/// A 16-bit integer written is read back, whatever follows it.
pub proof fn law_u16_roundtrip(x: u16, rest: Seq<u8>)
    ensures
        parse_u16(encode_u16(x) + rest) == Ok::<(u16, nat), Error>((x, 2)),
{
    lemma_auto_spec_u16_to_from_le_bytes();
    assert((encode_u16(x) + rest).take(2) == encode_u16(x));
}

/// A 32-bit integer written is read back, whatever follows it.
pub proof fn law_u32_roundtrip(x: u32, rest: Seq<u8>)
    ensures
        parse_u32(encode_u32(x) + rest) == Ok::<(u32, nat), Error>((x, 4)),
{
    lemma_auto_spec_u32_to_from_le_bytes();
    assert((encode_u32(x) + rest).take(4) == encode_u32(x));
}

/// A 64-bit integer written is read back, whatever follows it.
pub proof fn law_u64_roundtrip(x: u64, rest: Seq<u8>)
    ensures
        parse_u64(encode_u64(x) + rest) == Ok::<(u64, nat), Error>((x, 8)),
{
    lemma_auto_spec_u64_to_from_le_bytes();
    assert((encode_u64(x) + rest).take(8) == encode_u64(x));
}

/// A 32-bit integer read is written as the bytes it was read from.
pub proof fn law_u32_parse_encode(b: Seq<u8>)
    ensures
        parse_u32(b) matches Ok((x, n)) ==> encode_u32(x) == b.take(n as int),
{
    lemma_auto_spec_u32_to_from_le_bytes();
}

/// A 64-bit integer read is written as the bytes it was read from.
pub proof fn law_u64_parse_encode(b: Seq<u8>)
    ensures
        parse_u64(b) matches Ok((x, n)) ==> encode_u64(x) == b.take(n as int),
{
    lemma_auto_spec_u64_to_from_le_bytes();
}

/// The compact form takes one, three, five or nine bytes, by the size of
/// the value.
pub proof fn law_compact_len(v: u64)
    ensures
        encode_compact(v).len() == (if v <= 0xFC {
            1int
        } else if v <= 0xFFFF {
            3
        } else if v <= 0xFFFF_FFFF {
            5
        } else {
            9
        }),
{
    lemma_auto_spec_u16_to_from_le_bytes();
    lemma_auto_spec_u32_to_from_le_bytes();
    lemma_auto_spec_u64_to_from_le_bytes();
}

/// A compact size written is read back, whatever follows it, unless it is
/// one that is not read back as written.
pub proof fn law_compact_roundtrip(v: u64, rest: Seq<u8>)
    requires
        compact_roundtrips(v),
    ensures
        parse_compact(encode_compact(v) + rest) == Ok::<(u64, nat), Error>(
            (v, encode_compact(v).len()),
        ),
{
    lemma_auto_spec_u16_to_from_le_bytes();
    lemma_auto_spec_u32_to_from_le_bytes();
    lemma_auto_spec_u64_to_from_le_bytes();
    let b = encode_compact(v) + rest;
    if v <= 0xFC {
    } else if v <= 0xFFFF {
        assert(b.subrange(1, 3) == encode_u16(v as u16));
    } else {
        assert(b.subrange(1, 9) == encode_u64(v));
    }
}

/// A compact size read in its shortest form, under any marker but `0xDE`,
/// is written as the bytes it was read from.
pub proof fn law_compact_parse_encode(b: Seq<u8>)
    ensures
        parse_compact(b) matches Ok((v, n)) ==> (n == encode_compact(v).len() && b[0] != 0xDE
            ==> encode_compact(v) == b.take(n as int)),
{
    lemma_auto_spec_u16_to_from_le_bytes();
    lemma_auto_spec_u32_to_from_le_bytes();
    lemma_auto_spec_u64_to_from_le_bytes();
    if let Ok((v, n)) = parse_compact(b) {
        if n == encode_compact(v).len() && b[0] != 0xDE {
            if b[0] == 0xFF {
                assert(b.take(9) == seq![b[0]] + b.subrange(1, 9));
            } else if b[0] == 0xFD {
                assert(b.take(3) == seq![b[0]] + b.subrange(1, 3));
            } else {
                assert(b.take(1) == seq![b[0]]);
            }
        }
    }
}

/// A txid written is read back, whatever follows it.
pub proof fn law_txid_roundtrip(t: Seq<u8>, rest: Seq<u8>)
    requires
        t.len() == 32,
    ensures
        parse_txid(encode_txid(t) + rest) == Ok::<(Seq<u8>, nat), Error>((t, 32)),
{
    assert((encode_txid(t) + rest).take(32) == t.reverse());
    assert(t.reverse().reverse() == t);
}

/// A txid read is written as the bytes it was read from.
pub proof fn law_txid_parse_encode(b: Seq<u8>)
    ensures
        parse_txid(b) matches Ok((t, n)) ==> encode_txid(t) == b.take(n as int),
{
    if b.len() >= 32 {
        assert(b.take(32).reverse().reverse() == b.take(32));
    }
}

/// The byte of the lower case hexadecimal digit of `v`, for `v < 16`.
spec fn hex_digit_byte(v: int) -> u8 {
    if v < 10 {
        (0x30 + v) as u8
    } else {
        (0x61 + v - 10) as u8
    }
}

/// The digits of the text of `d` stand two by two for its bytes.
proof fn lemma_hex_encode_digits(d: Seq<u8>)
    ensures
        hex_encode_spec(d).len() == 2 * d.len(),
        forall|k: int|
            #![trigger d[k]]
            0 <= k < d.len() ==> {
                &&& hex_encode_spec(d)[2 * k] == hex_char(d[k] as int / 16)
                &&& hex_encode_spec(d)[2 * k + 1] == hex_char(d[k] as int % 16)
            },
    decreases d.len(),
{
    if d.len() > 0 {
        lemma_hex_encode_digits(d.drop_first());
        let c = hex_encode_spec(d);
        let r = hex_encode_spec(d.drop_first());
        assert(c == seq![hex_char(d[0] as int / 16), hex_char(d[0] as int % 16)] + r);
        assert forall|k: int| #![trigger d[k]] 0 <= k < d.len() implies {
            &&& c[2 * k] == hex_char(d[k] as int / 16)
            &&& c[2 * k + 1] == hex_char(d[k] as int % 16)
        } by {
            if k > 0 {
                assert(c[2 * k] == r[2 * (k - 1)]);
                assert(c[2 * k + 1] == r[2 * (k - 1) + 1]);
                assert(d.drop_first()[k - 1] == d[k]);
            }
        }
    }
}

/// Digit pairs that spell the bytes of `d` are read as `d`.
proof fn lemma_hex_decode_digit_bytes(d: Seq<u8>, s: Seq<u8>, offset: nat)
    requires
        s.len() == 2 * d.len(),
        forall|k: int|
            #![trigger d[k]]
            0 <= k < d.len() ==> {
                &&& s[2 * k] == hex_digit_byte(d[k] as int / 16)
                &&& s[2 * k + 1] == hex_digit_byte(d[k] as int % 16)
            },
    ensures
        hex_decode_pairs(s, offset) == Ok::<Seq<u8>, crate::hexcode::HexError>(d),
    decreases d.len(),
{
    if d.len() == 0 {
        assert(d == Seq::<u8>::empty());
    } else {
        let d0 = d[0];
        let hi = d[0] as int / 16;
        let lo = d[0] as int % 16;
        assert(s[0] == hex_digit_byte(hi));
        assert(s[1] == hex_digit_byte(lo));
        assert(is_hex_digit(s[0]) && hex_digit_value(s[0]) == hi);
        assert(is_hex_digit(s[1]) && hex_digit_value(s[1]) == lo);
        assert forall|k: int| #![trigger d.drop_first()[k]] 0 <= k < d.drop_first().len() implies {
            &&& s.skip(2)[2 * k] == hex_digit_byte(d.drop_first()[k] as int / 16)
            &&& s.skip(2)[2 * k + 1] == hex_digit_byte(d.drop_first()[k] as int % 16)
        } by {
            assert(s[2 * (k + 1)] == hex_digit_byte(d[k + 1] as int / 16));
        }
        lemma_hex_decode_digit_bytes(d.drop_first(), s.skip(2), offset + 2);
        assert(seq![(hi * 16 + lo) as u8] + d.drop_first() == d);
    }
}

/// Lower case hexadecimal text, as UTF-8, is read back as the bytes it was
/// written from.
pub proof fn law_hex_roundtrip(d: Seq<u8>)
    ensures
        hex_decode_spec(encode_utf8(hex_encode_spec(d))) == Ok::<
            Seq<u8>,
            crate::hexcode::HexError,
        >(d),
{
    let c = hex_encode_spec(d);
    lemma_hex_encode_digits(d);
    assert(is_ascii_chars(c)) by {
        assert forall|i: int| 0 <= i < c.len() implies '\0' <= #[trigger] c[i] <= '\u{7f}' by {
            let k = i / 2;
            let dk = d[k];
            if i % 2 == 0 {
                assert(c[2 * k] == hex_char(d[k] as int / 16));
            } else {
                assert(c[2 * k + 1] == hex_char(d[k] as int % 16));
            }
        }
    }
    is_ascii_chars_encode_utf8(c);
    let s = encode_utf8(c);
    assert forall|k: int| #![trigger d[k]] 0 <= k < d.len() implies {
        &&& s[2 * k] == hex_digit_byte(d[k] as int / 16)
        &&& s[2 * k + 1] == hex_digit_byte(d[k] as int % 16)
    } by {
        assert(c[2 * k] == hex_char(d[k] as int / 16));
        assert(c[2 * k + 1] == hex_char(d[k] as int % 16));
    }
    lemma_hex_decode_digit_bytes(d, s, 0);
}

/// A script text that is read back as written: hexadecimal in lower case,
/// with a length that is read back as written.
pub open spec fn script_canonical(s: Seq<char>) -> bool {
    &&& script_encodable(s)
    &&& hex_encode_spec(script_bytes(s)) == s
    &&& script_bytes(s).len() <= u64::MAX
    &&& compact_roundtrips(script_bytes(s).len() as u64)
}

/// A script written is read back, whatever follows it, if it is read back
/// as written.
pub proof fn law_script_roundtrip(s: Seq<char>, rest: Seq<u8>)
    requires
        script_canonical(s),
    ensures
        parse_script(encode_script(s) + rest) == Ok::<(Seq<char>, nat), Error>(
            (s, encode_script(s).len()),
        ),
{
    let d = script_bytes(s);
    let len = d.len() as u64;
    law_compact_roundtrip(len, d + rest);
    let b = encode_script(s) + rest;
    assert(b == encode_compact(len) + (d + rest));
    let k = encode_compact(len).len();
    assert(b.subrange(k as int, k + len) == d);
}

/// A script read is lower case hexadecimal text of the bytes it was read
/// from; so it can be written, and, where its length was in its shortest
/// form under any marker but `0xDE`, it is written as those bytes.
pub proof fn law_script_parse(b: Seq<u8>)
    ensures
        parse_script(b) matches Ok((s, n)) ==> {
            &&& script_encodable(s)
            &&& hex_encode_spec(script_bytes(s)) == s
            &&& parse_compact(b) matches Ok((len, k)) && script_bytes(s) == b.subrange(
                k as int,
                n as int,
            ) && (k == encode_compact(len).len() && b[0] != 0xDE ==> encode_script(s) == b.take(
                n as int,
            ))
        },
{
    if let Ok((s, n)) = parse_script(b) {
        if let Ok((len, k)) = parse_compact(b) {
            let d = b.subrange(k as int, n as int);
            law_hex_roundtrip(d);
            law_compact_parse_encode(b);
            if k == encode_compact(len).len() && b[0] != 0xDE {
                assert(d.len() as u64 == len);
                assert(b.take(n as int) == b.take(k as int) + d);
            }
        }
    }
}

/// An input that is read back as written: a txid of 32 bytes and a script
/// that is read back as written.
pub open spec fn txin_canonical(t: TxInModel) -> bool {
    t.txid.len() == 32 && script_canonical(t.script_sig)
}

/// An output that is read back as written.
pub open spec fn txout_canonical(o: TxOutModel) -> bool {
    script_canonical(o.script_pubkey)
}

/// An input written is read back, whatever follows it, if it is read back
/// as written.
pub proof fn law_txin_roundtrip(t: TxInModel, rest: Seq<u8>)
    requires
        txin_canonical(t),
    ensures
        parse_txin(encode_txin(t) + rest) == Ok::<(TxInModel, nat), Error>(
            (t, encode_txin(t).len()),
        ),
{
    let e1 = encode_txid(t.txid);
    let e2 = encode_u32(t.vout);
    let e3 = encode_script(t.script_sig);
    let e4 = encode_u32(t.sequence);
    let b = encode_txin(t) + rest;
    lemma_auto_spec_u32_to_from_le_bytes();
    law_txid_roundtrip(t.txid, e2 + e3 + e4 + rest);
    assert(b == e1 + (e2 + e3 + e4 + rest));
    assert(b.skip(32) == e2 + (e3 + e4 + rest));
    law_u32_roundtrip(t.vout, e3 + e4 + rest);
    assert(b.skip(36) == e3 + (e4 + rest));
    law_script_roundtrip(t.script_sig, e4 + rest);
    let n3 = e3.len();
    assert(b.skip((36 + n3) as int) == e4 + rest);
    law_u32_roundtrip(t.sequence, rest);
}

/// An output written is read back, whatever follows it, if it is read back
/// as written.
pub proof fn law_txout_roundtrip(o: TxOutModel, rest: Seq<u8>)
    requires
        txout_canonical(o),
    ensures
        parse_txout(encode_txout(o) + rest) == Ok::<(TxOutModel, nat), Error>(
            (o, encode_txout(o).len()),
        ),
{
    let e1 = encode_u64(o.amount);
    let e2 = encode_script(o.script_pubkey);
    let b = encode_txout(o) + rest;
    lemma_auto_spec_u64_to_from_le_bytes();
    law_u64_roundtrip(o.amount, e2 + rest);
    assert(b == e1 + (e2 + rest));
    assert(b.skip(8) == e2 + rest);
    law_script_roundtrip(o.script_pubkey, rest);
}

/// Inputs written one after the other are read back.
proof fn lemma_txin_items_roundtrip(s: Seq<TxInModel>, rest: Seq<u8>)
    requires
        forall|i: int| 0 <= i < s.len() ==> #[trigger] txin_canonical(s[i]),
    ensures
        parse_txin_items(encode_txin_items(s) + rest, s.len()) == Ok::<
            (Seq<TxInModel>, nat),
            Error,
        >((s, encode_txin_items(s).len())),
    decreases s.len(),
{
    if s.len() > 0 {
        let tail = s.drop_first();
        assert forall|i: int| 0 <= i < tail.len() implies #[trigger] txin_canonical(tail[i]) by {
            assert(txin_canonical(s[i + 1]));
        }
        assert(txin_canonical(s[0]));
        lemma_txin_items_roundtrip(tail, rest);
        let b = encode_txin_items(s) + rest;
        assert(b == encode_txin(s[0]) + (encode_txin_items(tail) + rest));
        law_txin_roundtrip(s[0], encode_txin_items(tail) + rest);
        assert(b.skip(encode_txin(s[0]).len() as int) == encode_txin_items(tail) + rest);
        assert(seq![s[0]] + tail == s);
    } else {
        assert(s == Seq::<TxInModel>::empty());
    }
}

/// Outputs written one after the other are read back.
proof fn lemma_txout_items_roundtrip(s: Seq<TxOutModel>, rest: Seq<u8>)
    requires
        forall|i: int| 0 <= i < s.len() ==> #[trigger] txout_canonical(s[i]),
    ensures
        parse_txout_items(encode_txout_items(s) + rest, s.len()) == Ok::<
            (Seq<TxOutModel>, nat),
            Error,
        >((s, encode_txout_items(s).len())),
    decreases s.len(),
{
    if s.len() > 0 {
        let tail = s.drop_first();
        assert forall|i: int| 0 <= i < tail.len() implies #[trigger] txout_canonical(tail[i]) by {
            assert(txout_canonical(s[i + 1]));
        }
        assert(txout_canonical(s[0]));
        lemma_txout_items_roundtrip(tail, rest);
        let b = encode_txout_items(s) + rest;
        assert(b == encode_txout(s[0]) + (encode_txout_items(tail) + rest));
        law_txout_roundtrip(s[0], encode_txout_items(tail) + rest);
        assert(b.skip(encode_txout(s[0]).len() as int) == encode_txout_items(tail) + rest);
        assert(seq![s[0]] + tail == s);
    } else {
        assert(s == Seq::<TxOutModel>::empty());
    }
}

/// A transaction that is read back as written: every script is, and so is
/// the number of inputs and of outputs.
pub open spec fn transaction_canonical(tx: TransactionModel) -> bool {
    &&& tx.inputs.len() <= u64::MAX
    &&& compact_roundtrips(tx.inputs.len() as u64)
    &&& tx.outputs.len() <= u64::MAX
    &&& compact_roundtrips(tx.outputs.len() as u64)
    &&& forall|i: int| 0 <= i < tx.inputs.len() ==> #[trigger] txin_canonical(tx.inputs[i])
    &&& forall|i: int| 0 <= i < tx.outputs.len() ==> #[trigger] txout_canonical(tx.outputs[i])
}

/// Inputs written with their number are read back.
proof fn lemma_txins_roundtrip(s: Seq<TxInModel>, rest: Seq<u8>)
    requires
        s.len() <= u64::MAX,
        compact_roundtrips(s.len() as u64),
        forall|i: int| 0 <= i < s.len() ==> #[trigger] txin_canonical(s[i]),
    ensures
        parse_txins(encode_txins(s) + rest) == Ok::<(Seq<TxInModel>, nat), Error>(
            (s, encode_txins(s).len()),
        ),
{
    let c = encode_compact(s.len() as u64);
    let items = encode_txin_items(s);
    let b = encode_txins(s) + rest;
    assert(b == c + (items + rest));
    law_compact_roundtrip(s.len() as u64, items + rest);
    assert(b.skip(c.len() as int) == items + rest);
    lemma_txin_items_roundtrip(s, rest);
    assert(Seq::<TxInModel>::empty() + s == s);
}

/// Outputs written with their number are read back.
proof fn lemma_txouts_roundtrip(s: Seq<TxOutModel>, rest: Seq<u8>)
    requires
        s.len() <= u64::MAX,
        compact_roundtrips(s.len() as u64),
        forall|i: int| 0 <= i < s.len() ==> #[trigger] txout_canonical(s[i]),
    ensures
        parse_txouts(encode_txouts(s) + rest) == Ok::<(Seq<TxOutModel>, nat), Error>(
            (s, encode_txouts(s).len()),
        ),
{
    let c = encode_compact(s.len() as u64);
    let items = encode_txout_items(s);
    let b = encode_txouts(s) + rest;
    assert(b == c + (items + rest));
    law_compact_roundtrip(s.len() as u64, items + rest);
    assert(b.skip(c.len() as int) == items + rest);
    lemma_txout_items_roundtrip(s, rest);
    assert(Seq::<TxOutModel>::empty() + s == s);
}

/// A transaction written is read back, whatever follows it, if it is read
/// back as written; so writing what was read gives the same bytes, and the
/// id of what was read is that of the bytes.
#[verifier::spinoff_prover]
#[verifier::rlimit(40)]
pub proof fn law_transaction_roundtrip(tx: TransactionModel, rest: Seq<u8>)
    requires
        transaction_canonical(tx),
    ensures
        parse_transaction(encode_transaction(tx) + rest) == Ok::<(TransactionModel, nat), Error>(
            (tx, encode_transaction(tx).len()),
        ),
{
    let e1 = encode_u32(tx.version);
    let e2 = encode_txins(tx.inputs);
    let e3 = encode_txouts(tx.outputs);
    let e4 = encode_u32(tx.lock_time);
    let b = encode_transaction(tx) + rest;
    let n1: nat = 4;
    let n2 = e2.len();
    let n3 = e3.len();
    let n4: nat = 4;
    assert(e1.len() == 4 && e4.len() == 4) by {
        lemma_auto_spec_u32_to_from_le_bytes();
    }
    assert(b == e1 + (e2 + (e3 + (e4 + rest))));
    assert(parse_u32(b) == Ok::<(u32, nat), Error>((tx.version, n1))) by {
        law_u32_roundtrip(tx.version, e2 + (e3 + (e4 + rest)));
    }
    assert(parse_txins(b.skip(n1 as int)) == Ok::<(Seq<TxInModel>, nat), Error>(
        (tx.inputs, n2),
    )) by {
        assert(b.skip(4) == e2 + (e3 + (e4 + rest)));
        lemma_txins_roundtrip(tx.inputs, e3 + (e4 + rest));
    }
    assert(parse_txouts(b.skip((n1 + n2) as int)) == Ok::<(Seq<TxOutModel>, nat), Error>(
        (tx.outputs, n3),
    )) by {
        assert(b.skip((n1 + n2) as int) == e3 + (e4 + rest));
        lemma_txouts_roundtrip(tx.outputs, e4 + rest);
    }
    assert(parse_u32(b.skip((n1 + n2 + n3) as int)) == Ok::<(u32, nat), Error>(
        (tx.lock_time, n4),
    )) by {
        assert(b.skip((n1 + n2 + n3) as int) == e4 + rest);
        law_u32_roundtrip(tx.lock_time, rest);
    }
    assert(encode_transaction(tx).len() == n1 + n2 + n3 + n4);
}

/// Every input read can be written.
proof fn lemma_txin_parse_encodable(b: Seq<u8>)
    ensures
        parse_txin(b) matches Ok((t, _)) ==> txin_encodable(t),
{
    if let Ok((txid, n1)) = parse_txid(b) {
        if let Ok((vout, n2)) = parse_u32(b.skip(n1 as int)) {
            law_script_parse(b.skip((n1 + n2) as int));
        }
    }
}

/// Every output read can be written.
proof fn lemma_txout_parse_encodable(b: Seq<u8>)
    ensures
        parse_txout(b) matches Ok((o, _)) ==> txout_encodable(o),
{
    if let Ok((amount, n1)) = parse_u64(b) {
        law_script_parse(b.skip(n1 as int));
    }
}

/// Every run of inputs read can be written.
proof fn lemma_txin_items_parse_encodable(b: Seq<u8>, count: nat)
    ensures
        parse_txin_items(b, count) matches Ok((s, _)) ==> txins_encodable(s),
    decreases count,
{
    if count > 0 {
        lemma_txin_parse_encodable(b);
        if let Ok((x, n)) = parse_txin(b) {
            lemma_txin_items_parse_encodable(b.skip(n as int), (count - 1) as nat);
            if let Ok((xs, m)) = parse_txin_items(b.skip(n as int), (count - 1) as nat) {
                let s = seq![x] + xs;
                assert forall|i: int| 0 <= i < s.len() implies #[trigger] txin_encodable(s[i]) by {
                    if i > 0 {
                        assert(s[i] == xs[i - 1]);
                    }
                }
            }
        }
    }
}

/// Every run of outputs read can be written.
proof fn lemma_txout_items_parse_encodable(b: Seq<u8>, count: nat)
    ensures
        parse_txout_items(b, count) matches Ok((s, _)) ==> txouts_encodable(s),
    decreases count,
{
    if count > 0 {
        lemma_txout_parse_encodable(b);
        if let Ok((x, n)) = parse_txout(b) {
            lemma_txout_items_parse_encodable(b.skip(n as int), (count - 1) as nat);
            if let Ok((xs, m)) = parse_txout_items(b.skip(n as int), (count - 1) as nat) {
                let s = seq![x] + xs;
                assert forall|i: int| 0 <= i < s.len() implies #[trigger] txout_encodable(s[i]) by {
                    if i > 0 {
                        assert(s[i] == xs[i - 1]);
                    }
                }
            }
        }
    }
}

/// Every transaction read can be written, so its id can be computed.
pub proof fn law_transaction_parse_encodable(b: Seq<u8>)
    ensures
        parse_transaction(b) matches Ok((tx, _)) ==> transaction_encodable(tx),
{
    if let Ok((version, n1)) = parse_u32(b) {
        let b2 = b.skip(n1 as int);
        if let Ok((count, k)) = parse_compact(b2) {
            lemma_txin_items_parse_encodable(b2.skip(k as int), count as nat);
            assert(parse_txins(b2) matches Ok((s, _)) ==> txins_encodable(s));
        }
        if let Ok((inputs, n2)) = parse_txins(b2) {
            let b3 = b.skip((n1 + n2) as int);
            if let Ok((count, k)) = parse_compact(b3) {
                lemma_txout_items_parse_encodable(b3.skip(k as int), count as nat);
                assert(parse_txouts(b3) matches Ok((s, _)) ==> txouts_encodable(s));
            }
        }
    }
}

/// The id of a transaction read from the bytes of a transaction that is read
/// back as written is the id of the bytes it was read from.
pub proof fn law_txid_of_read_transaction(tx: TransactionModel, rest: Seq<u8>)
    requires
        transaction_canonical(tx),
    ensures
        parse_transaction(encode_transaction(tx) + rest) matches Ok((t, n)) && txid_of(
            encode_transaction(t),
        ) == txid_of((encode_transaction(tx) + rest).take(n as int)),
{
    law_transaction_roundtrip(tx, rest);
    assert((encode_transaction(tx) + rest).take(encode_transaction(tx).len() as int)
        == encode_transaction(tx));
}

// ------------------------------------------------------- where fields stand

/// A txid is read from the first 32 bytes, turned to display order, and
/// written in the reverse of its display order.
pub proof fn law_txid_wire_order(b: Seq<u8>, t: Seq<u8>)
    ensures
        parse_txid(b) matches Ok((x, n)) ==> n == 32 && b.len() >= 32 && x == b.take(32).reverse(),
        b.len() < 32 ==> parse_txid(b) is Err,
        encode_txid(t) == t.reverse(),
{
}

/// An input is read as: the txid from its first 32 bytes, turned to display
/// order; the output index from the next four bytes, little-endian; the
/// script; and the sequence number from the four bytes right after the
/// script.
pub proof fn law_txin_read_fields(b: Seq<u8>)
    ensures
        parse_txin(b) matches Ok((t, n)) ==> {
            &&& b.len() >= 36
            &&& t.txid == b.take(32).reverse()
            &&& t.vout == spec_u32_from_le_bytes(b.subrange(32, 36))
            &&& parse_script(b.skip(36)) matches Ok((s, k)) && {
                &&& s == t.script_sig
                &&& n == 40 + k
                &&& n <= b.len()
                &&& t.sequence == spec_u32_from_le_bytes(b.subrange(36 + k as int, 40 + k as int))
            }
        },
{
    if let Ok((t, n)) = parse_txin(b) {
        assert(b.skip(32).take(4) == b.subrange(32, 36));
        law_script_parse(b.skip(36));
        if let Ok((s, k)) = parse_script(b.skip(36)) {
            if let Ok((len, c)) = parse_compact(b.skip(36)) {
                assert(k <= b.skip(36).len());
            }
            assert(b.skip(36 + k as int).take(4) == b.subrange(36 + k as int, 40 + k as int));
        }
    }
}

/// An input is written as its txid in wire order, its output index in four
/// little-endian bytes, its script, and its sequence number in four
/// little-endian bytes.
pub proof fn law_txin_write_fields(t: TxInModel)
    ensures
        encode_txin(t) == t.txid.reverse() + spec_u32_to_le_bytes(t.vout) + encode_script(
            t.script_sig,
        ) + spec_u32_to_le_bytes(t.sequence),
        t.txid.len() == 32 ==> encode_txin(t).take(32) == t.txid.reverse(),
{
    if t.txid.len() == 32 {
        let rest = spec_u32_to_le_bytes(t.vout) + encode_script(t.script_sig)
            + spec_u32_to_le_bytes(t.sequence);
        assert(encode_txin(t) == t.txid.reverse() + rest);
        assert((t.txid.reverse() + rest).take(32) == t.txid.reverse());
    }
}

/// An output is read as its amount from its first eight bytes,
/// little-endian, then its script.
pub proof fn law_txout_read_fields(b: Seq<u8>)
    ensures
        parse_txout(b) matches Ok((o, n)) ==> {
            &&& b.len() >= 8
            &&& o.amount == spec_u64_from_le_bytes(b.take(8))
            &&& parse_script(b.skip(8)) matches Ok((s, k)) && s == o.script_pubkey && n == 8 + k
                && n <= b.len()
        },
{
    if let Ok((o, n)) = parse_txout(b) {
        law_script_parse(b.skip(8));
        if let Ok((s, k)) = parse_script(b.skip(8)) {
            if let Ok((len, c)) = parse_compact(b.skip(8)) {
                assert(k <= b.skip(8).len());
            }
        }
    }
}

/// An output is written as its amount in eight little-endian bytes, then
/// its script.
pub proof fn law_txout_write_fields(o: TxOutModel)
    ensures
        encode_txout(o) == spec_u64_to_le_bytes(o.amount) + encode_script(o.script_pubkey),
{
}

/// The `i`-th input of `s` is read from offset `offs[i]` of `b` and ends
/// where the next begins.
pub open spec fn txin_at(b: Seq<u8>, s: Seq<TxInModel>, offs: Seq<int>, i: int) -> bool {
    &&& 0 <= offs[i]
    &&& offs[i] <= offs[i + 1]
    &&& offs[i + 1] <= b.len()
    &&& parse_txin(b.skip(offs[i])) == Ok::<(TxInModel, nat), Error>(
        (s[i], (offs[i + 1] - offs[i]) as nat),
    )
}

/// The inputs `s` stand one after the other in `b`, in their order.
pub open spec fn txins_at(b: Seq<u8>, s: Seq<TxInModel>, offs: Seq<int>) -> bool {
    &&& offs.len() == s.len() + 1
    &&& forall|i: int| 0 <= i < s.len() ==> #[trigger] txin_at(b, s, offs, i)
}

/// The `i`-th output of `s` is read from offset `offs[i]` of `b` and ends
/// where the next begins.
pub open spec fn txout_at(b: Seq<u8>, s: Seq<TxOutModel>, offs: Seq<int>, i: int) -> bool {
    &&& 0 <= offs[i]
    &&& offs[i] <= offs[i + 1]
    &&& offs[i + 1] <= b.len()
    &&& parse_txout(b.skip(offs[i])) == Ok::<(TxOutModel, nat), Error>(
        (s[i], (offs[i + 1] - offs[i]) as nat),
    )
}

/// The outputs `s` stand one after the other in `b`, in their order.
pub open spec fn txouts_at(b: Seq<u8>, s: Seq<TxOutModel>, offs: Seq<int>) -> bool {
    &&& offs.len() == s.len() + 1
    &&& forall|i: int| 0 <= i < s.len() ==> #[trigger] txout_at(b, s, offs, i)
}

/// One more input in front of a run shifts its offsets.
proof fn lemma_txin_offsets_step(b: Seq<u8>, x: TxInModel, n: nat, xs: Seq<TxInModel>, o: Seq<int>) -> (offs:
    Seq<int>)
    requires
        n <= b.len(),
        parse_txin(b) == Ok::<(TxInModel, nat), Error>((x, n)),
        txins_at(b.skip(n as int), xs, o),
        o[0] == 0,
    ensures
        txins_at(b, seq![x] + xs, offs),
        offs[0] == 0,
        offs[xs.len() + 1int] == o[xs.len() as int] + n,
{
    let tail = b.skip(n as int);
    let offs = seq![0int] + o.map_values(|v: int| v + n);
    let s = seq![x] + xs;
    assert(offs.len() == s.len() + 1);
    assert forall|i: int| 0 <= i < s.len() implies #[trigger] txin_at(b, s, offs, i) by {
        if i > 0 {
            assert(xs[i - 1] == s[i]);
            assert(txin_at(tail, xs, o, i - 1));
            assert(0 <= o[i - 1] <= o[i] <= tail.len());
            assert(offs[i] == o[i - 1] + n);
            assert(offs[i + 1] == o[i] + n);
            assert(tail.skip(o[i - 1]) == b.skip(offs[i]));
        } else {
            assert(offs[1] == o[0] + n);
            assert(offs[0] == 0);
            assert(b.skip(0) == b);
        }
    }
    assert(offs[xs.len() + 1int] == o[xs.len() as int] + n);
    offs
}

/// The offsets of a run of inputs read from `b`.
proof fn lemma_txin_items_offsets(b: Seq<u8>, count: nat) -> (offs: Seq<int>)
    ensures
        parse_txin_items(b, count) matches Ok((s, m)) ==> {
            &&& s.len() == count
            &&& txins_at(b, s, offs)
            &&& offs[0] == 0
            &&& offs[count as int] == m
            &&& m <= b.len()
        },
    decreases count,
{
    if count == 0 {
        seq![0int]
    } else {
        law_txin_read_fields(b);
        match parse_txin(b) {
            Err(_) => seq![0int],
            Ok((x, n)) => {
                let tail = b.skip(n as int);
                let o = lemma_txin_items_offsets(tail, (count - 1) as nat);
                if let Ok((xs, m)) = parse_txin_items(tail, (count - 1) as nat) {
                    lemma_txin_offsets_step(b, x, n, xs, o)
                } else {
                    seq![0int]
                }
            },
        }
    }
}

/// One more output in front of a run shifts its offsets.
proof fn lemma_txout_offsets_step(b: Seq<u8>, x: TxOutModel, n: nat, xs: Seq<TxOutModel>, o: Seq<int>) -> (offs:
    Seq<int>)
    requires
        n <= b.len(),
        parse_txout(b) == Ok::<(TxOutModel, nat), Error>((x, n)),
        txouts_at(b.skip(n as int), xs, o),
        o[0] == 0,
    ensures
        txouts_at(b, seq![x] + xs, offs),
        offs[0] == 0,
        offs[xs.len() + 1int] == o[xs.len() as int] + n,
{
    let tail = b.skip(n as int);
    let offs = seq![0int] + o.map_values(|v: int| v + n);
    let s = seq![x] + xs;
    assert(offs.len() == s.len() + 1);
    assert forall|i: int| 0 <= i < s.len() implies #[trigger] txout_at(b, s, offs, i) by {
        if i > 0 {
            assert(xs[i - 1] == s[i]);
            assert(txout_at(tail, xs, o, i - 1));
            assert(0 <= o[i - 1] <= o[i] <= tail.len());
            assert(offs[i] == o[i - 1] + n);
            assert(offs[i + 1] == o[i] + n);
            assert(tail.skip(o[i - 1]) == b.skip(offs[i]));
        } else {
            assert(offs[1] == o[0] + n);
            assert(offs[0] == 0);
            assert(b.skip(0) == b);
        }
    }
    assert(offs[xs.len() + 1int] == o[xs.len() as int] + n);
    offs
}

/// The offsets of a run of outputs read from `b`.
proof fn lemma_txout_items_offsets(b: Seq<u8>, count: nat) -> (offs: Seq<int>)
    ensures
        parse_txout_items(b, count) matches Ok((s, m)) ==> {
            &&& s.len() == count
            &&& txouts_at(b, s, offs)
            &&& offs[0] == 0
            &&& offs[count as int] == m
            &&& m <= b.len()
        },
    decreases count,
{
    if count == 0 {
        seq![0int]
    } else {
        law_txout_read_fields(b);
        match parse_txout(b) {
            Err(_) => seq![0int],
            Ok((x, n)) => {
                let tail = b.skip(n as int);
                let o = lemma_txout_items_offsets(tail, (count - 1) as nat);
                if let Ok((xs, m)) = parse_txout_items(tail, (count - 1) as nat) {
                    lemma_txout_offsets_step(b, x, n, xs, o)
                } else {
                    seq![0int]
                }
            },
        }
    }
}

/// Offsets into the tail of `b` after `k` bytes are offsets into `b`, moved by `k`.
proof fn lemma_txins_at_shift(b: Seq<u8>, k: int, s: Seq<TxInModel>, o: Seq<int>) -> (offs: Seq<
    int,
>)
    requires
        0 <= k <= b.len(),
        txins_at(b.skip(k), s, o),
    ensures
        txins_at(b, s, offs),
        offs[0] == o[0] + k,
        offs[s.len() as int] == o[s.len() as int] + k,
{
    let offs = o.map_values(|v: int| v + k);
    assert forall|i: int| 0 <= i < s.len() implies #[trigger] txin_at(b, s, offs, i) by {
        assert(txin_at(b.skip(k), s, o, i));
        assert(b.skip(k).skip(o[i]) == b.skip(offs[i]));
    }
    offs
}

/// Offsets into the tail of `b` after `k` bytes are offsets into `b`, moved by `k`.
proof fn lemma_txouts_at_shift(b: Seq<u8>, k: int, s: Seq<TxOutModel>, o: Seq<int>) -> (offs: Seq<
    int,
>)
    requires
        0 <= k <= b.len(),
        txouts_at(b.skip(k), s, o),
    ensures
        txouts_at(b, s, offs),
        offs[0] == o[0] + k,
        offs[s.len() as int] == o[s.len() as int] + k,
{
    let offs = o.map_values(|v: int| v + k);
    assert forall|i: int| 0 <= i < s.len() implies #[trigger] txout_at(b, s, offs, i) by {
        assert(txout_at(b.skip(k), s, o, i));
        assert(b.skip(k).skip(o[i]) == b.skip(offs[i]));
    }
    offs
}

/// A compact size takes at least one byte and no more than there are.
proof fn lemma_compact_within(b: Seq<u8>)
    ensures
        parse_compact(b) matches Ok((v, k)) ==> 1 <= k <= b.len(),
{
}

/// The inputs are read in the order in which they stand: as many as the
/// compact size in front says, the first right after it, each next one
/// where the one before it ends.
pub proof fn law_txins_read_in_order(b: Seq<u8>)
    ensures
        parse_txins(b) matches Ok((s, n)) ==> parse_compact(b) matches Ok((c, k)) && {
            &&& s.len() == c
            &&& n <= b.len()
            &&& exists|offs: Seq<int>|
                #[trigger] txins_at(b, s, offs) && offs[0] == k && offs[s.len() as int] == n
        },
{
    lemma_compact_within(b);
    if let Ok((c, k)) = parse_compact(b) {
        let o = lemma_txin_items_offsets(b.skip(k as int), c as nat);
        if let Ok((s, m)) = parse_txin_items(b.skip(k as int), c as nat) {
            assert(m <= b.skip(k as int).len());
            let offs = lemma_txins_at_shift(b, k as int, s, o);
            let whole = Seq::<TxInModel>::empty() + s;
            assert(whole == s);
            assert(parse_txins(b) == Ok::<(Seq<TxInModel>, nat), Error>((s, k + m)));
            assert(txins_at(b, whole, offs) && offs[0] == k && offs[whole.len() as int] == k + m);
        }
    }
}

/// The outputs are read in the order in which they stand: as many as the
/// compact size in front says, the first right after it, each next one
/// where the one before it ends.
pub proof fn law_txouts_read_in_order(b: Seq<u8>)
    ensures
        parse_txouts(b) matches Ok((s, n)) ==> parse_compact(b) matches Ok((c, k)) && {
            &&& s.len() == c
            &&& n <= b.len()
            &&& exists|offs: Seq<int>|
                #[trigger] txouts_at(b, s, offs) && offs[0] == k && offs[s.len() as int] == n
        },
{
    lemma_compact_within(b);
    if let Ok((c, k)) = parse_compact(b) {
        let o = lemma_txout_items_offsets(b.skip(k as int), c as nat);
        if let Ok((s, m)) = parse_txout_items(b.skip(k as int), c as nat) {
            assert(m <= b.skip(k as int).len());
            let offs = lemma_txouts_at_shift(b, k as int, s, o);
            let whole = Seq::<TxOutModel>::empty() + s;
            assert(whole == s);
            assert(parse_txouts(b) == Ok::<(Seq<TxOutModel>, nat), Error>((s, k + m)));
            assert(txouts_at(b, whole, offs) && offs[0] == k && offs[whole.len() as int] == k + m);
        }
    }
}

/// The inputs are written as their number, then each input in index order:
/// none for none, and one more input appends its bytes at the end.
pub proof fn law_txins_write_in_order(s: Seq<TxInModel>, x: TxInModel)
    ensures
        encode_txins(s) == encode_compact(s.len() as u64) + encode_txin_items(s),
        encode_txin_items(Seq::<TxInModel>::empty()) == Seq::<u8>::empty(),
        encode_txin_items(s.push(x)) == encode_txin_items(s) + encode_txin(x),
{
    lemma_encode_txin_items_push(s, x);
}

/// The outputs are written as their number, then each output in index
/// order: none for none, and one more output appends its bytes at the end.
pub proof fn law_txouts_write_in_order(s: Seq<TxOutModel>, x: TxOutModel)
    ensures
        encode_txouts(s) == encode_compact(s.len() as u64) + encode_txout_items(s),
        encode_txout_items(Seq::<TxOutModel>::empty()) == Seq::<u8>::empty(),
        encode_txout_items(s.push(x)) == encode_txout_items(s) + encode_txout(x),
{
    lemma_encode_txout_items_push(s, x);
}

/// A transaction is read as: the version from its first four bytes,
/// little-endian; the inputs right after; the outputs right after the
/// inputs; and the lock time from the four bytes right after the outputs.
pub proof fn law_transaction_read_fields(b: Seq<u8>)
    ensures
        parse_transaction(b) matches Ok((tx, n)) ==> {
            &&& b.len() >= 4
            &&& tx.version == spec_u32_from_le_bytes(b.take(4))
            &&& parse_txins(b.skip(4)) matches Ok((ins, n2)) && {
                &&& ins == tx.inputs
                &&& parse_txouts(b.skip(4 + n2 as int)) matches Ok((outs, n3)) && {
                    &&& outs == tx.outputs
                    &&& n == 8 + n2 + n3
                    &&& n <= b.len()
                    &&& tx.lock_time == spec_u32_from_le_bytes(
                        b.subrange(4 + n2 + n3 as int, 8 + n2 + n3 as int),
                    )
                }
            }
        },
{
    if let Ok((tx, n)) = parse_transaction(b) {
        law_txins_read_in_order(b.skip(4));
        if let Ok((ins, n2)) = parse_txins(b.skip(4)) {
            law_txouts_read_in_order(b.skip(4 + n2 as int));
            if let Ok((outs, n3)) = parse_txouts(b.skip(4 + n2 as int)) {
                let p = 4 + n2 + n3 as int;
                assert(b.skip(p).take(4) == b.subrange(p, p + 4));
            }
        }
    }
}

/// A transaction is written as its version in four little-endian bytes,
/// its inputs, its outputs, and its lock time in four little-endian bytes.
pub proof fn law_transaction_write_fields(tx: TransactionModel)
    ensures
        encode_transaction(tx) == spec_u32_to_le_bytes(tx.version) + encode_txins(tx.inputs)
            + encode_txouts(tx.outputs) + spec_u32_to_le_bytes(tx.lock_time),
{
}

/// A compact size is written as one byte below `0xFD`; as `0xFD` and two
/// little-endian bytes up to `0xFFFF`; as `0xFE` and four little-endian
/// bytes up to `0xFFFF_FFFF`; else as `0xFF` and eight little-endian bytes.
/// It is read by its first byte: `0xFF` announces eight little-endian
/// bytes, `0xDE` four and `0xFD` two; any other byte is the value.
pub proof fn law_compact_wire(v: u64, b: Seq<u8>)
    ensures
        v <= 0xFC ==> encode_compact(v) == seq![v as u8],
        0xFD <= v <= 0xFFFF ==> encode_compact(v) == seq![0xFDu8] + spec_u16_to_le_bytes(
            v as u16,
        ),
        0x1_0000 <= v <= 0xFFFF_FFFF ==> encode_compact(v) == seq![0xFEu8] + spec_u32_to_le_bytes(
            v as u32,
        ),
        0xFFFF_FFFF < v ==> encode_compact(v) == seq![0xFFu8] + spec_u64_to_le_bytes(v),
        b.len() == 0 ==> parse_compact(b) is Err,
        b.len() > 0 && b[0] == 0xFF ==> (if b.len() >= 9 {
            parse_compact(b) == Ok::<(u64, nat), Error>(
                (spec_u64_from_le_bytes(b.subrange(1, 9)), 9),
            )
        } else {
            parse_compact(b) is Err
        }),
        b.len() > 0 && b[0] == 0xDE ==> (if b.len() >= 5 {
            parse_compact(b) == Ok::<(u64, nat), Error>(
                (spec_u32_from_le_bytes(b.subrange(1, 5)) as u64, 5),
            )
        } else {
            parse_compact(b) is Err
        }),
        b.len() > 0 && b[0] == 0xFD ==> (if b.len() >= 3 {
            parse_compact(b) == Ok::<(u64, nat), Error>(
                (spec_u16_from_le_bytes(b.subrange(1, 3)) as u64, 3),
            )
        } else {
            parse_compact(b) is Err
        }),
        b.len() > 0 && b[0] != 0xFF && b[0] != 0xDE && b[0] != 0xFD ==> parse_compact(b)
            == Ok::<(u64, nat), Error>((b[0] as u64, 1)),
{
}

/// A script is read as a compact size `len`, then `len` bytes, given as
/// their lower case hexadecimal text; it is written as the number of the
/// bytes its hexadecimal text stands for, then those bytes.
pub proof fn law_script_wire(b: Seq<u8>, s: Seq<char>)
    ensures
        parse_script(b) matches Ok((t, n)) ==> parse_compact(b) matches Ok((len, k)) && {
            &&& n == k + len
            &&& n <= b.len()
            &&& t == hex_encode_spec(b.subrange(k as int, k + len))
        },
        script_encodable(s) ==> hex_decode_spec(encode_utf8(s)) == Ok::<
            Seq<u8>,
            crate::hexcode::HexError,
        >(script_bytes(s)),
        encode_script(s) == encode_compact(script_bytes(s).len() as u64) + script_bytes(s),
{
}

/// Input that ends too early: a txid cut short is invalid data; an integer,
/// a compact size or a script cut short is an unexpected end of input.
pub proof fn law_short_input_errors(b: Seq<u8>)
    ensures
        b.len() < 32 ==> parse_txid(b) == Err::<(Seq<u8>, nat), Error>(
            Error::Io(IoErrorKind::InvalidData),
        ),
        b.len() < 1 ==> parse_u8(b) == Err::<(u8, nat), Error>(
            Error::Io(IoErrorKind::UnexpectedEof),
        ),
        b.len() < 2 ==> parse_u16(b) == Err::<(u16, nat), Error>(
            Error::Io(IoErrorKind::UnexpectedEof),
        ),
        b.len() < 4 ==> parse_u32(b) == Err::<(u32, nat), Error>(
            Error::Io(IoErrorKind::UnexpectedEof),
        ),
        b.len() < 8 ==> parse_u64(b) == Err::<(u64, nat), Error>(
            Error::Io(IoErrorKind::UnexpectedEof),
        ),
        b.len() < 1 ==> parse_compact(b) == Err::<(u64, nat), Error>(
            Error::Io(IoErrorKind::UnexpectedEof),
        ),
        parse_compact(b) matches Ok((len, k)) && k + len > b.len() ==> parse_script(b) == Err::<
            (Seq<char>, nat),
            Error,
        >(Error::Io(IoErrorKind::UnexpectedEof)),
        parse_compact(b) matches Err(e) ==> parse_script(b) == Err::<(Seq<char>, nat), Error>(e),
{
}

} // verus!
