//! Merkle roots of transaction lists.

use vstd::prelude::*;
use crate::cbor::{cbor_head, cbor_u256, push_head, push_u256};
use crate::sha256::{self, spec_hash};
use crate::types::transaction::{Transaction, TxView, spec_tx_hash};

verus! {

/// The hash of a pair of hashes (serialized as a two-element array).
pub open spec fn spec_pair_hash(l: sha256::Hash, r: sha256::Hash) -> sha256::Hash {
    spec_hash(cbor_head(4, 2) + cbor_u256(l.0) + cbor_u256(r.0))
}

/// The next Merkle layer: each pair of neighbours hashed together, a lone last
/// hash paired with itself.
pub open spec fn next_layer(layer: Seq<sha256::Hash>) -> Seq<sha256::Hash> {
    Seq::new(
        ((layer.len() + 1) / 2) as nat,
        |i: int|
            spec_pair_hash(
                layer[2 * i],
                if 2 * i + 1 < layer.len() {
                    layer[2 * i + 1]
                } else {
                    layer[2 * i]
                },
            ),
    )
}

/// Layers reduced until at most one hash is left.
pub open spec fn reduce_layers(layer: Seq<sha256::Hash>) -> Seq<sha256::Hash>
    decreases layer.len(),
{
    if layer.len() <= 1 {
        layer
    } else {
        reduce_layers(next_layer(layer))
    }
}

/// The Merkle root of a non-empty list of transactions.
#[verifier::opaque]
pub open spec fn spec_merkle_root(txs: Seq<TxView>) -> sha256::Hash {
    reduce_layers(txs.map_values(|t: TxView| spec_tx_hash(t)))[0]
}

/// The Merkle root of a block's transactions.
#[derive(Clone, Copy, Debug)]
pub struct MarkleRoot(pub sha256::Hash);

/// The hash of a pair of hashes.
fn pair_hash(l: &sha256::Hash, r: &sha256::Hash) -> (h: sha256::Hash)
    ensures
        h == spec_pair_hash(*l, *r),
{
    let mut buf: Vec<u8> = Vec::new();
    push_head(&mut buf, 4, 2);
    push_u256(&mut buf, &l.0);
    push_u256(&mut buf, &r.0);
    assert(buf@ =~= cbor_head(4, 2) + cbor_u256(l.0) + cbor_u256(r.0));
    sha256::Hash::hash_bytes(buf.as_slice())
}

/// One round of pairing.
fn pair_layer(layer: &Vec<sha256::Hash>) -> (r: Vec<sha256::Hash>)
    ensures
        r@ == next_layer(layer@),
{
    let mut out: Vec<sha256::Hash> = Vec::new();
    let n = layer.len();
    let m = n / 2 + n % 2;
    let mut k: usize = 0;
    while k < m
        invariant
            n == layer@.len(),
            m == (n + 1) / 2,
            k <= m,
            out@.len() == k,
            forall|j: int| 0 <= j < out@.len() ==> #[trigger] out@[j] == next_layer(layer@)[j],
        decreases m - k,
    {
        let i = 2 * k;
        let left = layer[i];
        let right = if i + 1 < n {
            layer[i + 1]
        } else {
            left
        };
        out.push(pair_hash(&left, &right));
        k = k + 1;
    }
    assert(out@ =~= next_layer(layer@));
    out
}

impl MarkleRoot {
    /// The Merkle root of a non-empty list of transactions: their hashes, paired
    /// and hashed layer by layer until one remains.
    pub fn calculate(transactions: &[Transaction]) -> (r: MarkleRoot)
        requires
            transactions@.len() > 0,
        ensures
            r.0 == spec_merkle_root(transactions@.map_values(|t: Transaction| t@)),
    {
        let ghost txs = transactions@.map_values(|t: Transaction| t@);
        let ghost hashes = txs.map_values(|t: TxView| spec_tx_hash(t));
        let mut layer: Vec<sha256::Hash> = Vec::new();
        let mut i: usize = 0;
        while i < transactions.len()
            invariant
                i <= transactions@.len(),
                txs == transactions@.map_values(|t: Transaction| t@),
                hashes == txs.map_values(|t: TxView| spec_tx_hash(t)),
                layer@ == hashes.take(i as int),
            decreases transactions@.len() - i,
        {
            let h = transactions[i].hash();
            layer.push(h);
            assert(hashes.take(i + 1) =~= hashes.take(i as int).push(h));
            i = i + 1;
        }
        assert(hashes.take(transactions@.len() as int) =~= hashes);
        while layer.len() > 1
            invariant
                layer@.len() >= 1,
                reduce_layers(layer@) == reduce_layers(hashes),
            decreases layer@.len(),
        {
            layer = pair_layer(&layer);
        }
        proof {
            reveal(spec_merkle_root);
        }
        MarkleRoot(layer[0])
    }

    /// Whether two roots are equal.
    pub fn equals(&self, other: &MarkleRoot) -> (r: bool)
        ensures
            r == (self.0 == other.0),
    {
        let r = self.0.equals(&other.0);
        proof {
            if r {
                crate::u256::lemma_u256_view_injective(self.0.0, other.0.0);
            }
        }
        r
    }
}

/// The root of a single transaction is that transaction's hash.
pub proof fn law_merkle_root_of_one(t: TxView)
    ensures
        spec_merkle_root(seq![t]) == spec_tx_hash(t),
{
    reveal(spec_merkle_root);
    assert(seq![t].map_values(|t: TxView| spec_tx_hash(t)) =~= seq![spec_tx_hash(t)]);
}

} // verus!
