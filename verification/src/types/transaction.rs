//! Transactions: inputs that spend earlier outputs and outputs that lock value to a key.

use vstd::prelude::*;
use crate::cbor::{cbor_array, cbor_bytes, cbor_head, cbor_text, cbor_u256, cbor_uint, concat_all, push_all, push_head, push_text, push_u256, push_uint};
use crate::crypto::{PublicKey, Signature, spec_cbor_public_key, spec_cbor_signature, cbor_public_key, cbor_signature};
use crate::sha256::{self, spec_hash};

verus! {

/// The bytes of the field name `value`.
pub open spec fn key_value() -> Seq<u8> {
    seq![118, 97, 108, 117, 101]
}

fn push_key_value(buf: &mut Vec<u8>)
    ensures
        final(buf)@ == old(buf)@ + cbor_text(key_value()),
{
    let k: [u8; 5] = [118, 97, 108, 117, 101];
    assert(k@ =~= key_value());
    push_text(buf, k.as_slice());
}

/// The bytes of the field name `unique_id`.
pub open spec fn key_unique_id() -> Seq<u8> {
    seq![117, 110, 105, 113, 117, 101, 95, 105, 100]
}

fn push_key_unique_id(buf: &mut Vec<u8>)
    ensures
        final(buf)@ == old(buf)@ + cbor_text(key_unique_id()),
{
    let k: [u8; 9] = [117, 110, 105, 113, 117, 101, 95, 105, 100];
    assert(k@ =~= key_unique_id());
    push_text(buf, k.as_slice());
}

/// The bytes of the field name `pub_key`.
pub open spec fn key_pub_key() -> Seq<u8> {
    seq![112, 117, 98, 95, 107, 101, 121]
}

fn push_key_pub_key(buf: &mut Vec<u8>)
    ensures
        final(buf)@ == old(buf)@ + cbor_text(key_pub_key()),
{
    let k: [u8; 7] = [112, 117, 98, 95, 107, 101, 121];
    assert(k@ =~= key_pub_key());
    push_text(buf, k.as_slice());
}

/// The bytes of the field name `prev_transaction_output_hash`.
pub open spec fn key_prev_transaction_output_hash() -> Seq<u8> {
    seq![112, 114, 101, 118, 95, 116, 114, 97, 110, 115, 97, 99, 116, 105, 111, 110, 95, 111, 117, 116, 112, 117, 116, 95, 104, 97, 115, 104]
}

fn push_key_prev_transaction_output_hash(buf: &mut Vec<u8>)
    ensures
        final(buf)@ == old(buf)@ + cbor_text(key_prev_transaction_output_hash()),
{
    let k: [u8; 28] = [112, 114, 101, 118, 95, 116, 114, 97, 110, 115, 97, 99, 116, 105, 111, 110, 95, 111, 117, 116, 112, 117, 116, 95, 104, 97, 115, 104];
    assert(k@ =~= key_prev_transaction_output_hash());
    push_text(buf, k.as_slice());
}

/// The bytes of the field name `signature`.
pub open spec fn key_signature() -> Seq<u8> {
    seq![115, 105, 103, 110, 97, 116, 117, 114, 101]
}

fn push_key_signature(buf: &mut Vec<u8>)
    ensures
        final(buf)@ == old(buf)@ + cbor_text(key_signature()),
{
    let k: [u8; 9] = [115, 105, 103, 110, 97, 116, 117, 114, 101];
    assert(k@ =~= key_signature());
    push_text(buf, k.as_slice());
}

/// The bytes of the field name `input`.
pub open spec fn key_input() -> Seq<u8> {
    seq![105, 110, 112, 117, 116]
}

fn push_key_input(buf: &mut Vec<u8>)
    ensures
        final(buf)@ == old(buf)@ + cbor_text(key_input()),
{
    let k: [u8; 5] = [105, 110, 112, 117, 116];
    assert(k@ =~= key_input());
    push_text(buf, k.as_slice());
}

/// The bytes of the field name `output`.
pub open spec fn key_output() -> Seq<u8> {
    seq![111, 117, 116, 112, 117, 116]
}

fn push_key_output(buf: &mut Vec<u8>)
    ensures
        final(buf)@ == old(buf)@ + cbor_text(key_output()),
{
    let k: [u8; 6] = [111, 117, 116, 112, 117, 116];
    assert(k@ =~= key_output());
    push_text(buf, k.as_slice());
}

/// `ciborium::into_writer` on the `uuid::Uuid` with bytes `id`: a CBOR byte string
/// (`Uuid` serializes as `serialize_bytes` in binary formats).
#[verifier::external_body]
fn cbor_uuid(id: &[u8; 16]) -> (r: Vec<u8>)
    ensures
        r@ == cbor_bytes(id@),
{
    let mut out = Vec::new();
    match ciborium::into_writer(&uuid::Uuid::from_bytes(*id), &mut out) {
        Ok(()) => out,
        Err(_) => Vec::new(),
    }
}

/// `uuid::Uuid::new_v4`, as its 16 bytes: random, but for the version (4, the high
/// half of byte 6) and the RFC 4122 variant (binary 10, the top two bits of byte 8),
/// which `new_v4` sets by masking.
#[verifier::external_body]
pub(crate) fn random_uuid() -> (r: [u8; 16])
    ensures
        r[6] / 16 == 4,
        r[8] / 64 == 2,
{
    *uuid::Uuid::new_v4().as_bytes()
}

/// An amount locked to a public key, told apart from equal amounts by a unique id.
#[derive(Clone, Copy, Debug)]
pub struct TransactionOutput {
    pub value: u64,
    pub unique_id: [u8; 16],
    pub pub_key: PublicKey,
}

/// A reference to an unspent output, with a signature by the output's key.
#[derive(Clone, Debug)]
pub struct TransactionInput {
    pub prev_transaction_output_hash: sha256::Hash,
    pub signature: Signature,
}

/// A transaction: the outputs it spends and the outputs it creates.
#[derive(Clone, Debug)]
pub struct Transaction {
    pub input: Vec<TransactionInput>,
    pub output: Vec<TransactionOutput>,
}

/// An input as a value: the hash it spends and its signature bytes.
pub type InputView = (sha256::Hash, Seq<u8>);

/// A transaction as a value.
pub type TxView = (Seq<InputView>, Seq<TransactionOutput>);

impl View for TransactionInput {
    type V = InputView;

    open spec fn view(&self) -> InputView {
        (self.prev_transaction_output_hash, self.signature.der@)
    }
}

impl View for Transaction {
    type V = TxView;

    open spec fn view(&self) -> TxView {
        (self.input@.map_values(|i: TransactionInput| i@), self.output@)
    }
}

/// The serialized form of an output.
pub open spec fn enc_output(o: TransactionOutput) -> Seq<u8> {
    cbor_head(5, 3) + cbor_text(key_value()) + cbor_uint(o.value as nat) + cbor_text(key_unique_id())
        + cbor_bytes(o.unique_id@) + cbor_text(key_pub_key()) + spec_cbor_public_key(o.pub_key.bytes@)
}

/// The serialized form of an input.
pub open spec fn enc_input(i: InputView) -> Seq<u8> {
    cbor_head(5, 2) + cbor_text(key_prev_transaction_output_hash()) + cbor_u256(i.0.0) + cbor_text(
        key_signature(),
    ) + spec_cbor_signature(i.1)
}

/// The serialized form of a transaction.
pub open spec fn enc_tx(t: TxView) -> Seq<u8> {
    cbor_head(5, 2) + cbor_text(key_input()) + cbor_array(t.0.map_values(|i: InputView| enc_input(i)))
        + cbor_text(key_output()) + cbor_array(t.1.map_values(|o: TransactionOutput| enc_output(o)))
}

/// The hash of an output.
pub open spec fn spec_output_hash(o: TransactionOutput) -> sha256::Hash {
    spec_hash(enc_output(o))
}

/// The hash of a transaction.
pub open spec fn spec_tx_hash(t: TxView) -> sha256::Hash {
    spec_hash(enc_tx(t))
}

/// Concatenating one more item appends it.
pub proof fn lemma_concat_all_push(items: Seq<Seq<u8>>, x: Seq<u8>)
    ensures
        concat_all(items.push(x)) == concat_all(items) + x,
{
    assert(items.push(x).drop_last() =~= items);
}

impl TransactionOutput {
    /// Appends the serialized form of the output.
    pub fn encode_into(&self, buf: &mut Vec<u8>)
        ensures
            final(buf)@ == old(buf)@ + enc_output(*self),
    {
        push_head(buf, 5, 3);
        push_key_value(buf);
        push_uint(buf, self.value);
        push_key_unique_id(buf);
        let id = cbor_uuid(&self.unique_id);
        push_all(buf, id.as_slice());
        push_key_pub_key(buf);
        let key = cbor_public_key(&self.pub_key.bytes);
        push_all(buf, key.as_slice());
        assert(final(buf)@ =~= old(buf)@ + enc_output(*self));
    }

    /// The hash of the output's serialized form.
    pub fn hash(&self) -> (r: sha256::Hash)
        ensures
            r == spec_output_hash(*self),
    {
        let mut buf: Vec<u8> = Vec::new();
        self.encode_into(&mut buf);
        assert(buf@ =~= enc_output(*self));
        sha256::Hash::hash_bytes(buf.as_slice())
    }
}

impl TransactionInput {
    /// A copy of the input.
    pub fn copy(&self) -> (r: TransactionInput)
        ensures
            r@ == self@,
    {
        TransactionInput {
            prev_transaction_output_hash: self.prev_transaction_output_hash,
            signature: self.signature.copy(),
        }
    }

    /// Appends the serialized form of the input.
    pub fn encode_into(&self, buf: &mut Vec<u8>)
        ensures
            final(buf)@ == old(buf)@ + enc_input(self@),
    {
        push_head(buf, 5, 2);
        push_key_prev_transaction_output_hash(buf);
        push_u256(buf, &self.prev_transaction_output_hash.0);
        push_key_signature(buf);
        let sig = cbor_signature(self.signature.der.as_slice());
        push_all(buf, sig.as_slice());
        assert(final(buf)@ =~= old(buf)@ + enc_input(self@));
    }
}

impl Transaction {
    /// A transaction with the given inputs and outputs.
    pub fn new(input: Vec<TransactionInput>, output: Vec<TransactionOutput>) -> (r: Transaction)
        ensures
            r.input == input,
            r.output == output,
    {
        Transaction { input, output }
    }

    /// A copy of the transaction.
    pub fn copy(&self) -> (r: Transaction)
        ensures
            r@ == self@,
    {
        let mut input: Vec<TransactionInput> = Vec::new();
        let mut i: usize = 0;
        while i < self.input.len()
            invariant
                i <= self.input@.len(),
                input@.len() == i,
                forall|k: int| 0 <= k < i ==> (#[trigger] input@[k])@ == self.input@[k]@,
            decreases self.input@.len() - i,
        {
            input.push(self.input[i].copy());
            i = i + 1;
        }
        let mut output: Vec<TransactionOutput> = Vec::new();
        let mut j: usize = 0;
        while j < self.output.len()
            invariant
                j <= self.output@.len(),
                output@ == self.output@.take(j as int),
            decreases self.output@.len() - j,
        {
            output.push(self.output[j]);
            assert(self.output@.take(j + 1) =~= self.output@.take(j as int).push(self.output@[j as int]));
            j = j + 1;
        }
        assert(self.output@.take(self.output@.len() as int) =~= self.output@);
        let r = Transaction { input, output };
        assert(r.input@.map_values(|x: TransactionInput| x@) =~= self.input@.map_values(|x: TransactionInput| x@));
        r
    }

    /// Appends the serialized inputs, as an array.
    fn encode_inputs_into(&self, buf: &mut Vec<u8>)
        ensures
            final(buf)@ == old(buf)@ + cbor_array(self@.0.map_values(|i: InputView| enc_input(i))),
    {
        let ghost ins = self@.0.map_values(|i: InputView| enc_input(i));
        push_head(buf, 4, self.input.len() as u64);
        let ghost mid = buf@;
        let mut i: usize = 0;
        while i < self.input.len()
            invariant
                i <= self.input@.len(),
                ins.len() == self.input@.len(),
                ins == self@.0.map_values(|i: InputView| enc_input(i)),
                buf@ == mid + concat_all(ins.take(i as int)),
            decreases self.input@.len() - i,
        {
            self.input[i].encode_into(buf);
            proof {
                assert(ins.take(i + 1) =~= ins.take(i as int).push(ins[i as int]));
                lemma_concat_all_push(ins.take(i as int), ins[i as int]);
            }
            i = i + 1;
        }
        assert(ins.take(ins.len() as int) =~= ins);
        assert(final(buf)@ =~= old(buf)@ + cbor_array(ins));
    }

    /// Appends the serialized outputs, as an array.
    fn encode_outputs_into(&self, buf: &mut Vec<u8>)
        ensures
            final(buf)@ == old(buf)@ + cbor_array(self@.1.map_values(|o: TransactionOutput| enc_output(o))),
    {
        let ghost outs = self@.1.map_values(|o: TransactionOutput| enc_output(o));
        push_head(buf, 4, self.output.len() as u64);
        let ghost mid = buf@;
        let mut j: usize = 0;
        while j < self.output.len()
            invariant
                j <= self.output@.len(),
                outs.len() == self.output@.len(),
                outs == self@.1.map_values(|o: TransactionOutput| enc_output(o)),
                buf@ == mid + concat_all(outs.take(j as int)),
            decreases self.output@.len() - j,
        {
            self.output[j].encode_into(buf);
            proof {
                assert(outs.take(j + 1) =~= outs.take(j as int).push(outs[j as int]));
                lemma_concat_all_push(outs.take(j as int), outs[j as int]);
            }
            j = j + 1;
        }
        assert(outs.take(outs.len() as int) =~= outs);
        assert(final(buf)@ =~= old(buf)@ + cbor_array(outs));
    }

    /// Appends the serialized form of the transaction.
    pub fn encode_into(&self, buf: &mut Vec<u8>)
        ensures
            final(buf)@ == old(buf)@ + enc_tx(self@),
    {
        push_head(buf, 5, 2);
        push_key_input(buf);
        self.encode_inputs_into(buf);
        push_key_output(buf);
        self.encode_outputs_into(buf);
        assert(final(buf)@ =~= old(buf)@ + enc_tx(self@));
    }

    /// The hash of the transaction's serialized form.
    pub fn hash(&self) -> (r: sha256::Hash)
        ensures
            r == spec_tx_hash(self@),
    {
        let mut buf: Vec<u8> = Vec::new();
        self.encode_into(&mut buf);
        assert(buf@ =~= enc_tx(self@));
        sha256::Hash::hash_bytes(buf.as_slice())
    }
}

} // verus!
