//! In-memory unsigned and signed Bitcoin transactions, their canonical wire
//! encoding, transaction ids, virtual size, and the BIP143 segwit sighash
//! engine.
use vstd::prelude::*;

use crate::address::{script_pubkey_of, push_script_pubkey, BitcoinAddress};
use crate::digest::{hash160_of, sha256d_of, ripemd160, sha256, sha256d};
use crate::signature::EncodedSignature;

verus! {

/// The fixed transaction version this library emits.
pub const TX_VERSION: u32 = 2;

/// Length of a compressed secp256k1 public key.
pub const PUBKEY_LEN: usize = 33;

/// The sighash type appended to every BIP143 preimage.
pub const SIGHASH_ALL: u32 = 1;

/// A reference to a previous transaction output.
#[derive(Clone, Debug, PartialEq, Eq, PartialOrd, Ord, Hash)]
pub struct OutPoint {
    /// The 32-byte id of the transaction that created the output.
    pub txid: Vec<u8>,
    /// The position of the output in that transaction.
    pub vout: u32,
}

/// An input of a transaction that is not signed yet.
#[derive(Clone, Debug, PartialEq, Eq)]
pub struct UnsignedInput {
    pub previous_output: OutPoint,
    /// The value of the spent output, needed for the BIP143 sighash.
    pub value: u64,
    pub sequence: u32,
}

/// An input carrying its witness data.
#[derive(Clone, Debug, PartialEq, Eq)]
pub struct SignedInput {
    pub previous_output: OutPoint,
    pub sequence: u32,
    pub signature: EncodedSignature,
    pub pubkey: Vec<u8>,
}

/// An output of a transaction.
#[derive(Clone, Copy, Debug, PartialEq, Eq)]
pub struct TxOut {
    pub value: u64,
    pub address: BitcoinAddress,
}

/// An unsigned transaction: inputs, outputs and a lock time.
#[derive(Clone, Debug, PartialEq, Eq)]
pub struct UnsignedTransaction {
    pub inputs: Vec<UnsignedInput>,
    pub outputs: Vec<TxOut>,
    pub lock_time: u32,
}

/// A transaction whose inputs carry witness data.
#[derive(Clone, Debug, PartialEq, Eq)]
pub struct SignedTransaction {
    pub inputs: Vec<SignedInput>,
    pub outputs: Vec<TxOut>,
    pub lock_time: u32,
}

/// The two bytes of `x`, little-endian.
pub open spec fn le16(x: u16) -> Seq<u8> {
    seq![(x & 0xff) as u8, ((x >> 8) & 0xff) as u8]
}

/// The four bytes of `x`, little-endian.
pub open spec fn le32(x: u32) -> Seq<u8> {
    seq![
        (x & 0xff) as u8,
        ((x >> 8) & 0xff) as u8,
        ((x >> 16) & 0xff) as u8,
        ((x >> 24) & 0xff) as u8,
    ]
}

/// The eight bytes of `x`, little-endian.
pub open spec fn le64(x: u64) -> Seq<u8> {
    seq![
        (x & 0xff) as u8,
        ((x >> 8) & 0xff) as u8,
        ((x >> 16) & 0xff) as u8,
        ((x >> 24) & 0xff) as u8,
        ((x >> 32) & 0xff) as u8,
        ((x >> 40) & 0xff) as u8,
        ((x >> 48) & 0xff) as u8,
        ((x >> 56) & 0xff) as u8,
    ]
}

/// Bitcoin's variable-length integer prefix.
pub open spec fn compact_size(n: nat) -> Seq<u8> {
    if n < 0xfd {
        seq![n as u8]
    } else if n <= 0xffff {
        seq![0xfdu8] + le16(n as u16)
    } else if n <= 0xffff_ffff {
        seq![0xfeu8] + le32(n as u32)
    } else {
        seq![0xffu8] + le64(n as u64)
    }
}

/// The concatenation of `f` applied to every element of `s`, in order.
pub open spec fn concat_bytes<T>(s: Seq<T>, f: spec_fn(T) -> Seq<u8>) -> Seq<u8>
    decreases s.len(),
{
    if s.len() == 0 {
        Seq::empty()
    } else {
        concat_bytes(s.drop_last(), f) + f(s.last())
    }
}

pub proof fn lemma_concat_bytes_step<T>(s: Seq<T>, f: spec_fn(T) -> Seq<u8>, k: int)
    requires
        0 <= k < s.len(),
    ensures
        concat_bytes(s.take(k + 1), f) == concat_bytes(s.take(k), f) + f(s[k]),
{
    assert(s.take(k + 1).drop_last() =~= s.take(k));
    assert(s.take(k + 1).last() == s[k]);
}

/// The wire form of an outpoint: raw txid bytes then the index.
pub open spec fn outpoint_wire(o: OutPoint) -> Seq<u8> {
    o.txid@ + le32(o.vout)
}

/// The wire form of an input without witness data: outpoint, an empty
/// scriptSig, and the sequence number.
pub open spec fn unsigned_input_wire(i: UnsignedInput) -> Seq<u8> {
    outpoint_wire(i.previous_output) + seq![0u8] + le32(i.sequence)
}

/// The non-witness wire form of a signed input; the scriptSig stays empty
/// for segwit spends.
pub open spec fn signed_input_base_wire(i: SignedInput) -> Seq<u8> {
    outpoint_wire(i.previous_output) + seq![0u8] + le32(i.sequence)
}

/// The witness stack of a signed input: the signature then the public key.
pub open spec fn witness_wire(i: SignedInput) -> Seq<u8> {
    compact_size(2) + compact_size(i.signature.0@.len()) + i.signature.0@ + compact_size(
        i.pubkey@.len(),
    ) + i.pubkey@
}

/// The wire form of an output: value, script length, script.
pub open spec fn tx_out_wire(o: TxOut) -> Seq<u8> {
    le64(o.value) + compact_size(script_pubkey_of(o.address).len()) + script_pubkey_of(
        o.address,
    )
}

/// The serialization of an unsigned transaction (no witness section).
pub open spec fn unsigned_tx_wire(tx: UnsignedTransaction) -> Seq<u8> {
    le32(TX_VERSION) + compact_size(tx.inputs@.len()) + concat_bytes(
        tx.inputs@,
        |i: UnsignedInput| unsigned_input_wire(i),
    ) + compact_size(tx.outputs@.len()) + concat_bytes(
        tx.outputs@,
        |o: TxOut| tx_out_wire(o),
    ) + le32(tx.lock_time)
}

/// The non-witness serialization of a signed transaction, which its txid is
/// computed over.
pub open spec fn signed_tx_base_wire(tx: SignedTransaction) -> Seq<u8> {
    le32(TX_VERSION) + compact_size(tx.inputs@.len()) + concat_bytes(
        tx.inputs@,
        |i: SignedInput| signed_input_base_wire(i),
    ) + compact_size(tx.outputs@.len()) + concat_bytes(
        tx.outputs@,
        |o: TxOut| tx_out_wire(o),
    ) + le32(tx.lock_time)
}

/// The full segwit serialization of a signed transaction: marker and flag
/// bytes, then the non-witness fields, then one witness stack per input.
pub open spec fn signed_tx_wire(tx: SignedTransaction) -> Seq<u8> {
    le32(TX_VERSION) + seq![0u8, 1u8] + compact_size(tx.inputs@.len()) + concat_bytes(
        tx.inputs@,
        |i: SignedInput| signed_input_base_wire(i),
    ) + compact_size(tx.outputs@.len()) + concat_bytes(
        tx.outputs@,
        |o: TxOut| tx_out_wire(o),
    ) + concat_bytes(tx.inputs@, |i: SignedInput| witness_wire(i)) + le32(tx.lock_time)
}

fn push_u16_le(buf: &mut Vec<u8>, x: u16)
    ensures
        final(buf)@ == old(buf)@ + le16(x),
{
    buf.push((x & 0xff) as u8);
    buf.push(((x >> 8) & 0xff) as u8);
    assert(buf@ =~= old(buf)@ + le16(x));
}

fn push_u32_le(buf: &mut Vec<u8>, x: u32)
    ensures
        final(buf)@ == old(buf)@ + le32(x),
{
    buf.push((x & 0xff) as u8);
    buf.push(((x >> 8) & 0xff) as u8);
    buf.push(((x >> 16) & 0xff) as u8);
    buf.push(((x >> 24) & 0xff) as u8);
    assert(buf@ =~= old(buf)@ + le32(x));
}

fn push_u64_le(buf: &mut Vec<u8>, x: u64)
    ensures
        final(buf)@ == old(buf)@ + le64(x),
{
    buf.push((x & 0xff) as u8);
    buf.push(((x >> 8) & 0xff) as u8);
    buf.push(((x >> 16) & 0xff) as u8);
    buf.push(((x >> 24) & 0xff) as u8);
    buf.push(((x >> 32) & 0xff) as u8);
    buf.push(((x >> 40) & 0xff) as u8);
    buf.push(((x >> 48) & 0xff) as u8);
    buf.push(((x >> 56) & 0xff) as u8);
    assert(buf@ =~= old(buf)@ + le64(x));
}

fn push_compact_size(buf: &mut Vec<u8>, n: usize)
    ensures
        final(buf)@ == old(buf)@ + compact_size(n as nat),
{
    if n < 0xfd {
        buf.push(n as u8);
        assert(buf@ =~= old(buf)@ + compact_size(n as nat));
    } else if n <= 0xffff {
        buf.push(0xfd);
        push_u16_le(buf, n as u16);
        assert(buf@ =~= old(buf)@ + compact_size(n as nat));
    } else if n <= 0xffff_ffff {
        buf.push(0xfe);
        push_u32_le(buf, n as u32);
        assert(buf@ =~= old(buf)@ + compact_size(n as nat));
    } else {
        buf.push(0xff);
        push_u64_le(buf, n as u64);
        assert(buf@ =~= old(buf)@ + compact_size(n as nat));
    }
}

fn push_bytes(buf: &mut Vec<u8>, bytes: &[u8])
    ensures
        final(buf)@ == old(buf)@ + bytes@,
{
    let n = bytes.len();
    let mut k: usize = 0;
    while k < n
        invariant
            k <= n,
            n == bytes@.len(),
            buf@ == old(buf)@ + bytes@.subrange(0, k as int),
        decreases n - k,
    {
        buf.push(bytes[k]);
        proof {
            assert(bytes@.subrange(0, k + 1) =~= bytes@.subrange(0, k as int).push(
                bytes@[k as int],
            ));
        }
        k = k + 1;
    }
    assert(bytes@.subrange(0, n as int) =~= bytes@);
}

fn push_outpoint(buf: &mut Vec<u8>, o: &OutPoint)
    ensures
        final(buf)@ == old(buf)@ + outpoint_wire(*o),
{
    push_bytes(buf, o.txid.as_slice());
    push_u32_le(buf, o.vout);
    assert(buf@ =~= old(buf)@ + outpoint_wire(*o));
}

/// Appends the non-witness wire form shared by both input kinds:
/// outpoint, empty scriptSig, sequence.
fn push_input_base(buf: &mut Vec<u8>, o: &OutPoint, sequence: u32)
    ensures
        final(buf)@ == old(buf)@ + outpoint_wire(*o) + seq![0u8] + le32(sequence),
{
    push_outpoint(buf, o);
    buf.push(0);
    push_u32_le(buf, sequence);
    assert(buf@ =~= old(buf)@ + outpoint_wire(*o) + seq![0u8] + le32(sequence));
}

/// Appends the witness stack of one signed input.
fn push_witness(buf: &mut Vec<u8>, input: &SignedInput)
    ensures
        final(buf)@ == old(buf)@ + witness_wire(*input),
{
    push_compact_size(buf, 2);
    push_compact_size(buf, input.signature.0.len());
    push_bytes(buf, input.signature.as_slice());
    push_compact_size(buf, input.pubkey.len());
    push_bytes(buf, input.pubkey.as_slice());
    assert(buf@ =~= old(buf)@ + witness_wire(*input));
}

fn push_tx_out(buf: &mut Vec<u8>, o: &TxOut)
    ensures
        final(buf)@ == old(buf)@ + tx_out_wire(*o),
{
    push_u64_le(buf, o.value);
    let mut script: Vec<u8> = Vec::new();
    push_script_pubkey(&mut script, &o.address);
    push_compact_size(buf, script.len());
    push_bytes(buf, script.as_slice());
    assert(buf@ =~= old(buf)@ + tx_out_wire(*o));
}

fn push_tx_outs(buf: &mut Vec<u8>, outs: &Vec<TxOut>)
    ensures
        final(buf)@ == old(buf)@ + concat_bytes(outs@, |o: TxOut| tx_out_wire(o)),
{
    let ghost f = |o: TxOut| tx_out_wire(o);
    let n = outs.len();
    let mut k: usize = 0;
    assert(outs@.take(0) =~= Seq::empty());
    while k < n
        invariant
            f == (|o: TxOut| tx_out_wire(o)),
            k <= n,
            n == outs@.len(),
            buf@ == old(buf)@ + concat_bytes(outs@.take(k as int), f),
        decreases n - k,
    {
        push_tx_out(buf, &outs[k]);
        proof {
            lemma_concat_bytes_step(outs@, f, k as int);
            assert(buf@ =~= old(buf)@ + concat_bytes(outs@.take(k + 1), f));
        }
        k = k + 1;
    }
    assert(outs@.take(n as int) =~= outs@);
}

/// Anything with a canonical wire serialization.
pub trait TxWire {
    /// The serialized bytes of `self`.
    spec fn wire(&self) -> Seq<u8>;

    /// Appends the serialization of `self` onto `buf`.
    fn encode_to(&self, buf: &mut Vec<u8>)
        ensures
            final(buf)@ == old(buf)@ + self.wire(),
    ;
}

impl TxWire for UnsignedTransaction {
    open spec fn wire(&self) -> Seq<u8> {
        unsigned_tx_wire(*self)
    }

    #[verifier::rlimit(50)]
    fn encode_to(&self, buf: &mut Vec<u8>)
        ensures
            final(buf)@ == old(buf)@ + self.wire(),
    {
        let ghost fi = |i: UnsignedInput| unsigned_input_wire(i);
        push_u32_le(buf, TX_VERSION);
        push_compact_size(buf, self.inputs.len());
        let n = self.inputs.len();
        let ghost mid = buf@;
        let mut k: usize = 0;
        assert(self.inputs@.take(0) =~= Seq::empty());
        while k < n
            invariant
                fi == (|i: UnsignedInput| unsigned_input_wire(i)),
                k <= n,
                n == self.inputs@.len(),
                buf@ == mid + concat_bytes(self.inputs@.take(k as int), fi),
            decreases n - k,
        {
            let input = &self.inputs[k];
            push_input_base(buf, &input.previous_output, input.sequence);
            proof {
                lemma_concat_bytes_step(self.inputs@, fi, k as int);
                assert(buf@ =~= mid + concat_bytes(self.inputs@.take(k + 1), fi));
            }
            k = k + 1;
        }
        assert(self.inputs@.take(n as int) =~= self.inputs@);
        push_compact_size(buf, self.outputs.len());
        push_tx_outs(buf, &self.outputs);
        push_u32_le(buf, self.lock_time);
        assert(buf@ =~= old(buf)@ + self.wire());
    }
}

impl SignedTransaction {
    /// Appends the non-witness serialization, which the txid is computed over.
    #[verifier::rlimit(50)]
    fn encode_base_to(&self, buf: &mut Vec<u8>)
        ensures
            final(buf)@ == old(buf)@ + signed_tx_base_wire(*self),
    {
        let ghost fi = |i: SignedInput| signed_input_base_wire(i);
        push_u32_le(buf, TX_VERSION);
        push_compact_size(buf, self.inputs.len());
        let n = self.inputs.len();
        let ghost mid = buf@;
        let mut k: usize = 0;
        assert(self.inputs@.take(0) =~= Seq::empty());
        while k < n
            invariant
                fi == (|i: SignedInput| signed_input_base_wire(i)),
                k <= n,
                n == self.inputs@.len(),
                buf@ == mid + concat_bytes(self.inputs@.take(k as int), fi),
            decreases n - k,
        {
            let input = &self.inputs[k];
            push_input_base(buf, &input.previous_output, input.sequence);
            proof {
                lemma_concat_bytes_step(self.inputs@, fi, k as int);
                assert(buf@ =~= mid + concat_bytes(self.inputs@.take(k + 1), fi));
            }
            k = k + 1;
        }
        assert(self.inputs@.take(n as int) =~= self.inputs@);
        push_compact_size(buf, self.outputs.len());
        push_tx_outs(buf, &self.outputs);
        push_u32_le(buf, self.lock_time);
        assert(buf@ =~= old(buf)@ + signed_tx_base_wire(*self));
    }
}

impl TxWire for SignedTransaction {
    open spec fn wire(&self) -> Seq<u8> {
        signed_tx_wire(*self)
    }

    #[verifier::rlimit(50)]
    fn encode_to(&self, buf: &mut Vec<u8>)
        ensures
            final(buf)@ == old(buf)@ + self.wire(),
    {
        let ghost fi = |i: SignedInput| signed_input_base_wire(i);
        let ghost fw = |i: SignedInput| witness_wire(i);
        push_u32_le(buf, TX_VERSION);
        buf.push(0);
        buf.push(1);
        push_compact_size(buf, self.inputs.len());
        let n = self.inputs.len();
        let ghost mid = buf@;
        let mut k: usize = 0;
        assert(self.inputs@.take(0) =~= Seq::empty());
        while k < n
            invariant
                fi == (|i: SignedInput| signed_input_base_wire(i)),
                k <= n,
                n == self.inputs@.len(),
                buf@ == mid + concat_bytes(self.inputs@.take(k as int), fi),
            decreases n - k,
        {
            let input = &self.inputs[k];
            push_input_base(buf, &input.previous_output, input.sequence);
            proof {
                lemma_concat_bytes_step(self.inputs@, fi, k as int);
                assert(buf@ =~= mid + concat_bytes(self.inputs@.take(k + 1), fi));
            }
            k = k + 1;
        }
        assert(self.inputs@.take(n as int) =~= self.inputs@);
        push_compact_size(buf, self.outputs.len());
        push_tx_outs(buf, &self.outputs);
        let ghost mid2 = buf@;
        let mut k2: usize = 0;
        assert(self.inputs@.take(0) =~= Seq::empty());
        while k2 < n
            invariant
                fw == (|i: SignedInput| witness_wire(i)),
                k2 <= n,
                n == self.inputs@.len(),
                buf@ == mid2 + concat_bytes(self.inputs@.take(k2 as int), fw),
            decreases n - k2,
        {
            let input = &self.inputs[k2];
            push_witness(buf, input);
            proof {
                lemma_concat_bytes_step(self.inputs@, fw, k2 as int);
                assert(buf@ =~= mid2 + concat_bytes(self.inputs@.take(k2 + 1), fw));
            }
            k2 = k2 + 1;
        }
        assert(self.inputs@.take(n as int) =~= self.inputs@);
        push_u32_le(buf, self.lock_time);
        assert(buf@ =~= old(buf)@ + self.wire());
    }
}

/// Appends the serialization of `tx` onto `buf` and hands the buffer back.
pub fn encode_into<T: TxWire>(tx: &T, buf: Vec<u8>) -> (r: Vec<u8>)
    ensures
        r@ == buf@ + tx.wire(),
{
    let mut buf = buf;
    tx.encode_to(&mut buf);
    buf
}

impl UnsignedTransaction {
    /// The id of this transaction: double SHA-256 of its serialization.
    pub fn txid(&self) -> (r: [u8; 32])
        ensures
            r@ == sha256d_of(unsigned_tx_wire(*self)),
    {
        let mut buf: Vec<u8> = Vec::new();
        self.encode_to(&mut buf);
        sha256d(buf.as_slice())
    }
}

impl SignedTransaction {
    /// The id of this transaction: double SHA-256 of the non-witness
    /// serialization.
    pub fn txid(&self) -> (r: [u8; 32])
        ensures
            r@ == sha256d_of(signed_tx_base_wire(*self)),
    {
        let mut buf: Vec<u8> = Vec::new();
        self.encode_base_to(&mut buf);
        sha256d(buf.as_slice())
    }

    /// The witness id: double SHA-256 of the full segwit serialization.
    pub fn wtxid(&self) -> (r: [u8; 32])
        ensures
            r@ == sha256d_of(signed_tx_wire(*self)),
    {
        let mut buf: Vec<u8> = Vec::new();
        self.encode_to(&mut buf);
        sha256d(buf.as_slice())
    }

    /// The virtual size in vbytes, by the standard segwit weight rule.
    pub fn vsize(&self) -> (r: usize)
        ensures
            r == (3 * signed_tx_base_wire(*self).len() + signed_tx_wire(*self).len()
                + 3) as int / 4,
    {
        let mut base: Vec<u8> = Vec::new();
        self.encode_base_to(&mut base);
        let mut full: Vec<u8> = Vec::new();
        self.encode_to(&mut full);
        let b = base.len() as u128;
        let t = full.len() as u128;
        assert(b <= t) by {
            lemma_base_wire_no_longer(*self);
        }
        let v = (3 * b + t + 3) / 4;
        assert(v <= t) by {
            assert((4 * t + 3) / 4 == t) by (nonlinear_arith);
            vstd::arithmetic::div_mod::lemma_div_is_ordered(
                (3 * b + t + 3) as int,
                (4 * t + 3) as int,
                4,
            );
        }
        v as usize
    }
}

/// The non-witness serialization is never longer than the full one.
pub proof fn lemma_base_wire_no_longer(tx: SignedTransaction)
    ensures
        signed_tx_base_wire(tx).len() <= signed_tx_wire(tx).len(),
{
}

/// Computes Bitcoin's HASH160: RIPEMD-160 of the SHA-256 digest.
pub fn hash160(bytes: &[u8]) -> (r: [u8; 20])
    ensures
        r@ == hash160_of(bytes@),
{
    let first = sha256(bytes);
    ripemd160(first.as_slice())
}

/// The standard P2WPKH script code for a 20-byte public-key hash, with its
/// one-byte length prefix, as it enters the BIP143 preimage.
pub open spec fn script_code_of(pkhash: Seq<u8>) -> Seq<u8> {
    seq![0x19u8, 0x76u8, 0xa9u8, 0x14u8] + pkhash + seq![0x88u8, 0xacu8]
}

/// The wire form of all previous outpoints of `inputs`, concatenated.
pub open spec fn prevouts_wire(inputs: Seq<UnsignedInput>) -> Seq<u8> {
    concat_bytes(inputs, |i: UnsignedInput| outpoint_wire(i.previous_output))
}

/// The sequence numbers of `inputs`, concatenated, little-endian.
pub open spec fn sequences_wire(inputs: Seq<UnsignedInput>) -> Seq<u8> {
    concat_bytes(inputs, |i: UnsignedInput| le32(i.sequence))
}

/// The wire form of all outputs, concatenated.
pub open spec fn outputs_wire(outputs: Seq<TxOut>) -> Seq<u8> {
    concat_bytes(outputs, |o: TxOut| tx_out_wire(o))
}

/// The BIP143 preimage for input `i` of `tx`, spending a P2WPKH output
/// locked to `pkhash`, with sighash type SIGHASH_ALL.
pub open spec fn sighash_preimage(
    tx: UnsignedTransaction,
    i: int,
    pkhash: Seq<u8>,
) -> Seq<u8> {
    le32(TX_VERSION) + sha256d_of(prevouts_wire(tx.inputs@)) + sha256d_of(
        sequences_wire(tx.inputs@),
    ) + outpoint_wire(tx.inputs@[i].previous_output) + script_code_of(pkhash) + le64(
        tx.inputs@[i].value,
    ) + le32(tx.inputs@[i].sequence) + sha256d_of(outputs_wire(tx.outputs@)) + le32(
        tx.lock_time,
    ) + le32(SIGHASH_ALL)
}

/// Precomputes the three hashes that every BIP143 preimage of one
/// transaction shares.
pub struct TxSigHasher<'a> {
    tx: &'a UnsignedTransaction,
    hash_prevouts: [u8; 32],
    hash_sequence: [u8; 32],
    hash_outputs: [u8; 32],
}

impl<'a> TxSigHasher<'a> {
    /// The cached hashes match the transaction.
    pub closed spec fn wf(&self) -> bool {
        &&& self.hash_prevouts@ == sha256d_of(prevouts_wire(self.tx.inputs@))
        &&& self.hash_sequence@ == sha256d_of(sequences_wire(self.tx.inputs@))
        &&& self.hash_outputs@ == sha256d_of(outputs_wire(self.tx.outputs@))
    }

    pub closed spec fn tx(&self) -> &'a UnsignedTransaction {
        self.tx
    }

    pub fn new(tx: &'a UnsignedTransaction) -> (r: Self)
        ensures
            r.wf(),
            r.tx() == tx,
    {
        let ghost fp = |i: UnsignedInput| outpoint_wire(i.previous_output);
        let ghost fs = |i: UnsignedInput| le32(i.sequence);
        let n = tx.inputs.len();
        let mut prevouts: Vec<u8> = Vec::new();
        let mut sequences: Vec<u8> = Vec::new();
        let mut k: usize = 0;
        assert(tx.inputs@.take(0) =~= Seq::empty());
        while k < n
            invariant
                fp == (|i: UnsignedInput| outpoint_wire(i.previous_output)),
                fs == (|i: UnsignedInput| le32(i.sequence)),
                k <= n,
                n == tx.inputs@.len(),
                prevouts@ == concat_bytes(tx.inputs@.take(k as int), fp),
                sequences@ == concat_bytes(tx.inputs@.take(k as int), fs),
            decreases n - k,
        {
            let input = &tx.inputs[k];
            push_outpoint(&mut prevouts, &input.previous_output);
            push_u32_le(&mut sequences, input.sequence);
            proof {
                lemma_concat_bytes_step(tx.inputs@, fp, k as int);
                lemma_concat_bytes_step(tx.inputs@, fs, k as int);
                assert(prevouts@ =~= concat_bytes(tx.inputs@.take(k + 1), fp));
                assert(sequences@ =~= concat_bytes(tx.inputs@.take(k + 1), fs));
            }
            k = k + 1;
        }
        assert(tx.inputs@.take(n as int) =~= tx.inputs@);
        let mut outputs: Vec<u8> = Vec::new();
        push_tx_outs(&mut outputs, &tx.outputs);
        TxSigHasher {
            tx,
            hash_prevouts: sha256d(prevouts.as_slice()),
            hash_sequence: sha256d(sequences.as_slice()),
            hash_outputs: sha256d(outputs.as_slice()),
        }
    }

    /// Appends the BIP143 preimage for input `index` onto `buf`.
    #[verifier::rlimit(50)]
    pub fn encode_sighash_data(&self, index: usize, pkhash: &[u8; 20], buf: &mut Vec<u8>)
        requires
            self.wf(),
            index < self.tx().inputs@.len(),
        ensures
            final(buf)@ == old(buf)@ + sighash_preimage(*self.tx(), index as int, pkhash@),
    {
        let input = &self.tx.inputs[index];
        push_u32_le(buf, TX_VERSION);
        push_bytes(buf, self.hash_prevouts.as_slice());
        push_bytes(buf, self.hash_sequence.as_slice());
        push_outpoint(buf, &input.previous_output);
        buf.push(0x19);
        buf.push(0x76);
        buf.push(0xa9);
        buf.push(0x14);
        push_bytes(buf, pkhash.as_slice());
        buf.push(0x88);
        buf.push(0xac);
        push_u64_le(buf, input.value);
        push_u32_le(buf, input.sequence);
        push_bytes(buf, self.hash_outputs.as_slice());
        push_u32_le(buf, self.tx.lock_time);
        push_u32_le(buf, SIGHASH_ALL);
        assert(buf@ =~= old(buf)@ + sighash_preimage(*self.tx, index as int, pkhash@));
    }

    /// The BIP143 sighash for input `index`: double SHA-256 of its preimage.
    pub fn sighash(&self, index: usize, pkhash: &[u8; 20]) -> (r: [u8; 32])
        requires
            self.wf(),
            index < self.tx().inputs@.len(),
        ensures
            r@ == sha256d_of(sighash_preimage(*self.tx(), index as int, pkhash@)),
    {
        let mut buf: Vec<u8> = Vec::new();
        self.encode_sighash_data(index, pkhash, &mut buf);
        sha256d(buf.as_slice())
    }
}

} // verus!
