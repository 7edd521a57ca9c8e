//! The messages that nodes, miners and wallets exchange, and how a message travels
//! on a stream: its length as eight big-endian bytes, then its bytes.

use vstd::prelude::*;
use crate::cbor::{be_fixed, push_all, push_be_fixed};
use crate::crypto::PublicKey;
use crate::types::block::Block;
use crate::types::transaction::{Transaction, TransactionOutput};
use crate::u256::{be_limb, be_value, pow256, lemma_pow256_positive};

verus! {

/// A message between nodes, miners and wallets.
#[derive(Debug)]
pub enum Message {
    /// Asks for the unspent outputs of a public key.
    FetchUTXOs(PublicKey),
    /// The unspent outputs of a public key, each with whether it is claimed.
    UTXOs(Vec<(TransactionOutput, bool)>),
    /// A transaction for the node's mempool.
    SubmitTransaction(Transaction),
    /// A transaction passed on from another node.
    NewTransaction(Transaction),
    /// Asks for a block template whose coinbase pays the public key.
    FetchTemplate(PublicKey),
    /// A block template.
    Template(Block),
    /// Asks whether a template still extends the chain's tip.
    ValidateTemplate(Block),
    /// Whether the template still extends the tip.
    TemplateValidity(bool),
    /// A mined block.
    SubmitTemplate(Block),
    /// Asks for the nodes the node knows.
    DiscoverNodes,
    /// The nodes a node knows.
    NodeList(Vec<String>),
    /// Asks how many more blocks the node has than the given height.
    AskDifference(u32),
    /// How many more blocks the node has.
    Difference(i32),
    /// Asks for the block at a height.
    FetchBlock(usize),
    /// A new block.
    NewBlock(Block),
}

/// A message's bytes as they travel: the length as eight big-endian bytes, then the bytes.
pub open spec fn framed(payload: Seq<u8>) -> Seq<u8> {
    be_fixed(payload.len(), 8) + payload
}

/// The bytes to write for a message's encoded bytes.
pub fn frame(payload: &[u8]) -> (r: Vec<u8>)
    requires
        payload@.len() <= u64::MAX,
    ensures
        r@ == framed(payload@),
{
    let mut out: Vec<u8> = Vec::new();
    push_be_fixed(&mut out, payload.len() as u64, 8);
    push_all(&mut out, payload);
    out
}

/// The length that a frame's eight leading bytes announce.
pub fn frame_length(header: &[u8; 8]) -> (r: u64)
    ensures
        r == be_value(header@),
{
    let r = be_limb(header.as_slice(), 0);
    assert(header@.subrange(0, 8) =~= header@);
    r
}

/// The `k` low-order bytes of `n`, read back big-endian, are `n` modulo 256^k.
pub proof fn lemma_be_fixed_value(n: nat, k: nat)
    ensures
        be_value(be_fixed(n, k)) == n % pow256(k),
    decreases k,
{
    lemma_pow256_positive(k);
    if k == 0 {
        assert(be_fixed(n, 0) =~= Seq::<u8>::empty());
    } else {
        let km = (k - 1) as nat;
        lemma_be_fixed_value(n / 256, km);
        lemma_pow256_positive(km);
        assert(be_fixed(n, k).drop_last() =~= be_fixed(n / 256, km)) by {
            assert forall|i: int| 0 <= i < km implies #[trigger] be_fixed(n, k)[i] == be_fixed(n / 256, km)[i] by {
                let e = (km - 1 - i) as nat;
                lemma_pow256_positive(e);
                assert(pow256((k - 1 - i) as nat) == 256 * pow256(e));
                vstd::arithmetic::div_mod::lemma_div_denominator(n as int, 256, pow256(e) as int);
            }
        }
        assert(pow256(0) == 1);
        assert(be_fixed(n, k)[k - 1] == ((n / pow256(0)) % 256) as u8);
        assert(n / 1 == n);
        assert(be_fixed(n, k).last() == (n % 256) as u8);
        vstd::arithmetic::div_mod::lemma_mod_breakdown(n as int, 256, pow256(km) as int);
        assert(pow256(k) == 256 * pow256(km));
        assert(256 * ((n / 256) % pow256(km)) == ((n / 256) % pow256(km)) * 256) by (nonlinear_arith);
    }
}

/// A frame gives back what was framed: its eight leading bytes announce the length of
/// the bytes, which follow them.
pub proof fn law_frame_roundtrip(payload: Seq<u8>)
    requires
        payload.len() <= u64::MAX,
    ensures
        framed(payload).len() == payload.len() + 8,
        be_value(framed(payload).take(8)) == payload.len(),
        framed(payload).skip(8) == payload,
{
    lemma_be_fixed_value(payload.len(), 8);
    assert(framed(payload).take(8) =~= be_fixed(payload.len(), 8));
    assert(framed(payload).skip(8) =~= payload);
    assert(pow256(8) == 0x1_0000_0000_0000_0000) by {
        reveal_with_fuel(pow256, 9);
    }
}

} // verus!
