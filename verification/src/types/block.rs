//! Blocks: a header that commits to the previous block, the transactions' Merkle
//! root and a proof-of-work target, and the transactions themselves, the first
//! of which is the coinbase.

use vstd::prelude::*;
use crate::cbor::{cbor_array, cbor_head, cbor_text, cbor_u256, cbor_uint, push_all, push_head, push_text, push_u256, push_uint};
use crate::sha256::{self, spec_hash};
use crate::timestamp::{Timestamp, cbor_timestamp, spec_cbor_timestamp};
use crate::crypto::spec_ecdsa_verify;
use crate::error::ArcNetError;
use crate::types::transaction::{InputView, Transaction, TransactionOutput, TxView, enc_tx, lemma_concat_all_push};
use crate::types::utxos::UtxoSet;
use crate::u256::{U256, le_bytes};
use crate::util::MarkleRoot;
use crate::{HALVING_INTERVAL, INITIAL_BLOCK_REWARD};
use vstd::arithmetic::power2::pow2;

verus! {

/// The bytes of the field name `timestamp`.
pub open spec fn key_timestamp() -> Seq<u8> {
    seq![116, 105, 109, 101, 115, 116, 97, 109, 112]
}

/// The bytes of the field name `nonce`.
pub open spec fn key_nonce() -> Seq<u8> {
    seq![110, 111, 110, 99, 101]
}

/// The bytes of the field name `prev_block_hash`.
pub open spec fn key_prev_block_hash() -> Seq<u8> {
    seq![112, 114, 101, 118, 95, 98, 108, 111, 99, 107, 95, 104, 97, 115, 104]
}

/// The bytes of the field name `markle_root`.
pub open spec fn key_markle_root() -> Seq<u8> {
    seq![109, 97, 114, 107, 108, 101, 95, 114, 111, 111, 116]
}

/// The bytes of the field name `target`.
pub open spec fn key_target() -> Seq<u8> {
    seq![116, 97, 114, 103, 101, 116]
}

/// The bytes of the field name `header`.
pub open spec fn key_header() -> Seq<u8> {
    seq![104, 101, 97, 100, 101, 114]
}

/// The bytes of the field name `transactions`.
pub open spec fn key_transactions() -> Seq<u8> {
    seq![116, 114, 97, 110, 115, 97, 99, 116, 105, 111, 110, 115]
}

/// The header of a block.
#[derive(Clone, Copy, Debug)]
pub struct BlockHeader {
    /// When the block was made.
    pub timestamp: Timestamp,
    /// The number varied while mining.
    pub nonce: u64,
    /// The hash of the previous block.
    pub prev_block_hash: sha256::Hash,
    /// The Merkle root of the block's transactions.
    pub markle_root: MarkleRoot,
    /// The proof-of-work target: the header's hash must not exceed it.
    pub target: U256,
}

/// A block: a header and its transactions, the coinbase first.
#[derive(Clone, Debug)]
pub struct Block {
    pub header: BlockHeader,
    pub transactions: Vec<Transaction>,
}

/// A block as a value.
pub type BlockView = (BlockHeader, Seq<TxView>);

impl View for Block {
    type V = BlockView;

    open spec fn view(&self) -> BlockView {
        (self.header, self.transactions@.map_values(|t: Transaction| t@))
    }
}

/// The serialized form of a header.
#[verifier::opaque]
pub open spec fn enc_header(h: BlockHeader) -> Seq<u8> {
    cbor_head(5, 5) + cbor_text(key_timestamp()) + spec_cbor_timestamp(h.timestamp.secs, h.timestamp.nanos)
        + cbor_text(key_nonce()) + cbor_uint(h.nonce as nat) + cbor_text(key_prev_block_hash())
        + cbor_u256(h.prev_block_hash.0) + cbor_text(key_markle_root()) + cbor_u256(h.markle_root.0.0)
        + cbor_text(key_target()) + cbor_u256(h.target)
}

/// The serialized form of a block.
#[verifier::opaque]
pub open spec fn enc_block(b: BlockView) -> Seq<u8> {
    cbor_head(5, 2) + cbor_text(key_header()) + enc_header(b.0) + cbor_text(key_transactions())
        + cbor_array(b.1.map_values(|t: TxView| enc_tx(t)))
}

/// The hash of a header.
pub open spec fn spec_header_hash(h: BlockHeader) -> sha256::Hash {
    spec_hash(enc_header(h))
}

/// The hash of a block (of its header and transactions together).
pub open spec fn spec_block_hash(b: BlockView) -> sha256::Hash {
    spec_hash(enc_block(b))
}

/// Whether a header's hash is at most its target.
pub open spec fn header_matches(h: BlockHeader) -> bool {
    spec_header_hash(h).0@ <= h.target@
}

/// The header with another nonce.
pub open spec fn with_nonce(h: BlockHeader, nonce: u64) -> BlockHeader {
    BlockHeader {
        timestamp: h.timestamp,
        nonce: nonce,
        prev_block_hash: h.prev_block_hash,
        markle_root: h.markle_root,
        target: h.target,
    }
}

impl BlockHeader {
    /// A header from its fields.
    pub fn new(
        timestamp: Timestamp,
        nonce: u64,
        prev_block_hash: sha256::Hash,
        markle_root: MarkleRoot,
        target: U256,
    ) -> (r: BlockHeader)
        ensures
            r == (BlockHeader { timestamp, nonce, prev_block_hash, markle_root, target }),
    {
        BlockHeader { timestamp, nonce, prev_block_hash, markle_root, target }
    }

    /// Appends the serialized form of the header.
    pub fn encode_into(&self, buf: &mut Vec<u8>)
        ensures
            final(buf)@ == old(buf)@ + enc_header(*self),
    {
        push_head(buf, 5, 5);
        let k1: [u8; 9] = [116, 105, 109, 101, 115, 116, 97, 109, 112];
        assert(k1@ =~= key_timestamp());
        push_text(buf, k1.as_slice());
        let ts = cbor_timestamp(self.timestamp.secs, self.timestamp.nanos);
        push_all(buf, ts.as_slice());
        let k2: [u8; 5] = [110, 111, 110, 99, 101];
        assert(k2@ =~= key_nonce());
        push_text(buf, k2.as_slice());
        push_uint(buf, self.nonce);
        let k3: [u8; 15] = [112, 114, 101, 118, 95, 98, 108, 111, 99, 107, 95, 104, 97, 115, 104];
        assert(k3@ =~= key_prev_block_hash());
        push_text(buf, k3.as_slice());
        push_u256(buf, &self.prev_block_hash.0);
        let k4: [u8; 11] = [109, 97, 114, 107, 108, 101, 95, 114, 111, 111, 116];
        assert(k4@ =~= key_markle_root());
        push_text(buf, k4.as_slice());
        push_u256(buf, &self.markle_root.0.0);
        let k5: [u8; 6] = [116, 97, 114, 103, 101, 116];
        assert(k5@ =~= key_target());
        push_text(buf, k5.as_slice());
        push_u256(buf, &self.target);
        reveal(enc_header);
        assert(final(buf)@ =~= old(buf)@ + enc_header(*self));
    }

    /// The hash of the header's serialized form.
    pub fn hash(&self) -> (r: sha256::Hash)
        ensures
            r == spec_header_hash(*self),
    {
        let mut buf: Vec<u8> = Vec::new();
        self.encode_into(&mut buf);
        assert(buf@ =~= enc_header(*self));
        sha256::Hash::hash_bytes(buf.as_slice())
    }

    /// Tries up to `steps` further nonces, one after the other, until the header's hash
    /// is at most its target; a nonce that would overflow starts again at zero with the
    /// current time as the timestamp. Returns whether the header now meets its target.
    pub fn mine(&mut self, steps: usize) -> (r: bool)
        ensures
            final(self).prev_block_hash == old(self).prev_block_hash,
            final(self).markle_root == old(self).markle_root,
            final(self).target == old(self).target,
            r == header_matches(*final(self)),
            old(self).nonce + steps <= u64::MAX ==> {
                &&& final(self).timestamp == old(self).timestamp
                &&& old(self).nonce <= final(self).nonce <= old(self).nonce + steps
                &&& forall|n: u64|
                    old(self).nonce <= n < final(self).nonce ==> !header_matches(
                        #[trigger] with_nonce(*old(self), n),
                    )
                &&& !r ==> final(self).nonce == old(self).nonce + steps
            },
    {
        if self.hash().matches_target(self.target) {
            return true;
        }
        let ghost start = *self;
        let mut i: usize = 0;
        while i < steps
            invariant
                i <= steps,
                self.prev_block_hash == start.prev_block_hash,
                self.markle_root == start.markle_root,
                self.target == start.target,
                !header_matches(*self),
                start == *old(self),
                start.nonce + steps <= u64::MAX ==> {
                    &&& self.timestamp == start.timestamp
                    &&& self.nonce == start.nonce + i
                    &&& forall|n: u64|
                        start.nonce <= n < self.nonce ==> !header_matches(
                            #[trigger] with_nonce(start, n),
                        )
                },
            decreases steps - i,
        {
            let ghost before = *self;
            match self.nonce.checked_add(1) {
                Some(n) => {
                    self.nonce = n;
                },
                None => {
                    self.nonce = 0;
                    self.timestamp = Timestamp::now();
                },
            }
            proof {
                if start.nonce + steps <= u64::MAX {
                    assert(before == with_nonce(start, before.nonce));
                    assert forall|n: u64| start.nonce <= n < self.nonce implies !header_matches(
                        #[trigger] with_nonce(start, n),
                    ) by {
                        if n == before.nonce {
                            assert(with_nonce(start, n) == before);
                        }
                    }
                }
            }
            if self.hash().matches_target(self.target) {
                return true;
            }
            i = i + 1;
        }
        false
    }
}

impl Block {
    /// A copy of the block.
    pub fn copy(&self) -> (r: Block)
        ensures
            r@ == self@,
    {
        let mut txs: Vec<Transaction> = Vec::new();
        let mut i: usize = 0;
        while i < self.transactions.len()
            invariant
                i <= self.transactions@.len(),
                txs@.len() == i,
                forall|k: int| 0 <= k < i ==> (#[trigger] txs@[k])@ == self.transactions@[k]@,
            decreases self.transactions@.len() - i,
        {
            txs.push(self.transactions[i].copy());
            i = i + 1;
        }
        let r = Block { header: self.header, transactions: txs };
        assert(r@.1 =~= self@.1);
        r
    }

    /// A block from a header and its transactions.
    pub fn new(header: BlockHeader, transactions: Vec<Transaction>) -> (r: Block)
        ensures
            r.header == header,
            r.transactions == transactions,
    {
        Block { header, transactions }
    }

    /// Appends the serialized transactions, as an array.
    fn encode_transactions_into(&self, buf: &mut Vec<u8>)
        ensures
            final(buf)@ == old(buf)@ + cbor_array(self@.1.map_values(|t: TxView| enc_tx(t))),
    {
        let ghost txs = self@.1.map_values(|t: TxView| enc_tx(t));
        push_head(buf, 4, self.transactions.len() as u64);
        let ghost mid = buf@;
        let mut i: usize = 0;
        while i < self.transactions.len()
            invariant
                i <= self.transactions@.len(),
                txs.len() == self.transactions@.len(),
                txs == self@.1.map_values(|t: TxView| enc_tx(t)),
                buf@ == mid + crate::cbor::concat_all(txs.take(i as int)),
            decreases self.transactions@.len() - i,
        {
            self.transactions[i].encode_into(buf);
            proof {
                assert(txs[i as int] == enc_tx(self.transactions@[i as int]@));
                assert(txs.take(i + 1) =~= txs.take(i as int).push(txs[i as int]));
                lemma_concat_all_push(txs.take(i as int), txs[i as int]);
            }
            i = i + 1;
        }
        assert(txs.take(txs.len() as int) =~= txs);
        assert(final(buf)@ =~= old(buf)@ + cbor_array(txs));
    }

    /// Appends the serialized form of the block.
    pub fn encode_into(&self, buf: &mut Vec<u8>)
        ensures
            final(buf)@ == old(buf)@ + enc_block(self@),
    {
        push_head(buf, 5, 2);
        let k1: [u8; 6] = [104, 101, 97, 100, 101, 114];
        assert(k1@ =~= key_header());
        push_text(buf, k1.as_slice());
        self.header.encode_into(buf);
        let k2: [u8; 12] = [116, 114, 97, 110, 115, 97, 99, 116, 105, 111, 110, 115];
        assert(k2@ =~= key_transactions());
        push_text(buf, k2.as_slice());
        self.encode_transactions_into(buf);
        reveal(enc_block);
        assert(final(buf)@ =~= old(buf)@ + enc_block(self@));
    }

    /// The hash of the block's serialized form.
    pub fn hash(&self) -> (r: sha256::Hash)
        ensures
            r == spec_block_hash(self@),
    {
        let mut buf: Vec<u8> = Vec::new();
        self.encode_into(&mut buf);
        assert(buf@ =~= enc_block(self@));
        sha256::Hash::hash_bytes(buf.as_slice())
    }
}


/// The concatenation of a sequence of sequences.
pub open spec fn joined<A>(parts: Seq<Seq<A>>) -> Seq<A>
    decreases parts.len(),
{
    if parts.len() == 0 {
        Seq::empty()
    } else {
        joined(parts.drop_last()) + parts.last()
    }
}

/// Joining one more part appends it.
pub proof fn lemma_joined_take<A>(parts: Seq<Seq<A>>, k: int)
    requires
        0 <= k < parts.len(),
    ensures
        joined(parts.take(k + 1)) == joined(parts.take(k)) + parts[k],
{
    assert(parts.take(k + 1).drop_last() =~= parts.take(k));
}

/// Joining the first parts gives a prefix of joining them all.
pub proof fn lemma_joined_prefix<A>(parts: Seq<Seq<A>>, k: int)
    requires
        0 <= k <= parts.len(),
    ensures
        joined(parts.take(k)).len() <= joined(parts).len(),
        forall|i: int|
            0 <= i < joined(parts.take(k)).len() ==> joined(parts)[i] == #[trigger] joined(
                parts.take(k),
            )[i],
    decreases parts.len(),
{
    if k == parts.len() {
        assert(parts.take(k) =~= parts);
    } else {
        lemma_joined_prefix(parts.drop_last(), k);
        assert(parts.drop_last().take(k) =~= parts.take(k));
    }
}

/// The transactions after the coinbase.
pub open spec fn after_coinbase(txs: Seq<TxView>) -> Seq<TxView> {
    if txs.len() == 0 {
        txs
    } else {
        txs.drop_first()
    }
}

/// The hashes that inputs spend, in order.
pub open spec fn hashes_of(ins: Seq<InputView>) -> Seq<sha256::Hash> {
    ins.map_values(|i: InputView| i.0)
}

/// The hashes of the outputs that a transaction spends, in order.
pub open spec fn input_hashes(t: TxView) -> Seq<sha256::Hash> {
    hashes_of(t.0)
}

/// The hashes spent by the transactions after the coinbase, in order.
pub open spec fn spent_hashes(txs: Seq<TxView>) -> Seq<sha256::Hash> {
    joined(after_coinbase(txs).map_values(|t: TxView| input_hashes(t)))
}

/// The outputs created by the transactions after the coinbase, in order.
pub open spec fn paid_outputs(txs: Seq<TxView>) -> Seq<TransactionOutput> {
    joined(after_coinbase(txs).map_values(|t: TxView| t.1))
}

/// Whether every hash is a key of the unspent outputs.
pub open spec fn all_known(hs: Seq<sha256::Hash>, utxos: Map<sha256::Hash, (bool, TransactionOutput)>) -> bool {
    forall|i: int| 0 <= i < hs.len() ==> utxos.contains_key(#[trigger] hs[i])
}

/// The total value of the unspent outputs under the hashes.
pub open spec fn spent_value(hs: Seq<sha256::Hash>, utxos: Map<sha256::Hash, (bool, TransactionOutput)>) -> nat
    decreases hs.len(),
{
    if hs.len() == 0 {
        0
    } else {
        (spent_value(hs.drop_last(), utxos) + utxos[hs.last()].1.value) as nat
    }
}

/// The total value of outputs.
pub open spec fn outputs_value(outs: Seq<TransactionOutput>) -> nat
    decreases outs.len(),
{
    if outs.len() == 0 {
        0
    } else {
        (outputs_value(outs.drop_last()) + outs.last().value) as nat
    }
}

/// Whether the miner's fee of a block can be taken: every output spent after the
/// coinbase is unspent and spent once, and at most one output is created after the
/// coinbase (all of them are filed under the block's one hash).
pub open spec fn fee_inputs_valid(txs: Seq<TxView>, utxos: Map<sha256::Hash, (bool, TransactionOutput)>) -> bool {
    &&& all_known(spent_hashes(txs), utxos)
    &&& spent_hashes(txs).no_duplicates()
    &&& paid_outputs(txs).len() <= 1
}

/// The miner's fee of a block: the value spent after the coinbase less the value
/// paid out after it. `None` where the sums leave `u64`.
pub open spec fn miners_fee_outcome(txs: Seq<TxView>, utxos: Map<sha256::Hash, (bool, TransactionOutput)>) -> Option<Result<u64, ArcNetError>> {
    if !fee_inputs_valid(txs, utxos) {
        Some(Err(ArcNetError::InvalidTransaction))
    } else if spent_value(spent_hashes(txs), utxos) > u64::MAX || outputs_value(paid_outputs(txs))
        > spent_value(spent_hashes(txs), utxos) {
        None
    } else {
        Some(Ok((spent_value(spent_hashes(txs), utxos) - outputs_value(paid_outputs(txs))) as u64))
    }
}

/// The number of halvings at a height, as the 32-bit exponent it is used as.
pub open spec fn halvings(height: u64) -> u32 {
    (height / HALVING_INTERVAL) as u32
}

/// The block subsidy in satoshis after `e` halvings.
pub open spec fn subsidy(e: nat) -> nat {
    (INITIAL_BLOCK_REWARD * 100_000_000) as nat / pow2(e)
}

/// Checking a block's coinbase at a height: it spends nothing, pays something, and
/// pays exactly the subsidy and the miner's fee. `None` where an amount leaves `u64`
/// or the fee cannot be taken.
pub open spec fn coinbase_outcome(txs: Seq<TxView>, height: u64, utxos: Map<sha256::Hash, (bool, TransactionOutput)>) -> Option<Result<(), ArcNetError>> {
    let cb = txs[0];
    if cb.0.len() != 0 || cb.1.len() == 0 {
        Some(Err(ArcNetError::InvalidTransaction))
    } else {
        match miners_fee_outcome(txs, utxos) {
            Some(Ok(fee)) => {
                if halvings(height) >= 64 || outputs_value(cb.1) > u64::MAX || fee + subsidy(
                    halvings(height) as nat,
                ) > u64::MAX {
                    None
                } else if outputs_value(cb.1) != fee + subsidy(halvings(height) as nat) {
                    Some(Err(ArcNetError::InvalidTransaction))
                } else {
                    Some(Ok(()))
                }
            },
            _ => None,
        }
    }
}

/// Checking the inputs of a transaction from position `j` on, given the hashes spent
/// earlier in the block and the value gathered so far in this transaction: the hashes
/// spent and the value gathered after the last input, or the first error. `None` where
/// the value leaves `u64`.
pub open spec fn scan_inputs(
    ins: Seq<InputView>,
    j: int,
    seen: Seq<sha256::Hash>,
    acc: nat,
    utxos: Map<sha256::Hash, (bool, TransactionOutput)>,
) -> Option<Result<(Seq<sha256::Hash>, nat), ArcNetError>>
    decreases ins.len() - j,
{
    if j < 0 || j >= ins.len() {
        Some(Ok((seen, acc)))
    } else {
        let h = ins[j].0;
        if !utxos.contains_key(h) || seen.contains(h) {
            Some(Err(ArcNetError::InvalidTransaction))
        } else if !spec_ecdsa_verify(utxos[h].1.pub_key.bytes@, le_bytes(h.0), ins[j].1) {
            Some(Err(ArcNetError::InvalidSignature))
        } else if acc + utxos[h].1.value > u64::MAX {
            None
        } else {
            scan_inputs(ins, j + 1, seen.push(h), (acc + utxos[h].1.value) as nat, utxos)
        }
    }
}

/// Checking transactions from position `k` on: each spends known outputs, none spent
/// earlier in the block, each signed by its output's key, and pays out no more than it
/// spends. `None` where a sum leaves `u64`.
pub open spec fn scan_txs(
    txs: Seq<TxView>,
    k: int,
    seen: Seq<sha256::Hash>,
    utxos: Map<sha256::Hash, (bool, TransactionOutput)>,
) -> Option<Result<(), ArcNetError>>
    decreases txs.len() - k,
{
    if k < 0 || k >= txs.len() {
        Some(Ok(()))
    } else {
        match scan_inputs(txs[k].0, 0, seen, 0, utxos) {
            None => None,
            Some(Err(e)) => Some(Err(e)),
            Some(Ok((seen2, spent))) => {
                if outputs_value(txs[k].1) > u64::MAX {
                    None
                } else if spent < outputs_value(txs[k].1) {
                    Some(Err(ArcNetError::InvalidTransaction))
                } else {
                    scan_txs(txs, k + 1, seen2, utxos)
                }
            },
        }
    }
}

/// Whether two sets of unspent outputs hold the same outputs under the same hashes,
/// whatever their mempool marks.
pub open spec fn same_outputs(
    m1: Map<sha256::Hash, (bool, TransactionOutput)>,
    m2: Map<sha256::Hash, (bool, TransactionOutput)>,
) -> bool {
    &&& m1.dom() == m2.dom()
    &&& forall|h: sha256::Hash| #[trigger] m1.dom().contains(h) ==> m1[h].1 == m2[h].1
}

/// The value under hashes does not depend on the marks.
proof fn lemma_spent_value_marks(
    hs: Seq<sha256::Hash>,
    m1: Map<sha256::Hash, (bool, TransactionOutput)>,
    m2: Map<sha256::Hash, (bool, TransactionOutput)>,
)
    requires
        same_outputs(m1, m2),
        all_known(hs, m1),
    ensures
        spent_value(hs, m1) == spent_value(hs, m2),
    decreases hs.len(),
{
    if hs.len() > 0 {
        assert(all_known(hs.drop_last(), m1)) by {
            assert forall|i: int| 0 <= i < hs.drop_last().len() implies m1.contains_key(#[trigger] hs.drop_last()[i]) by {
                assert(hs.drop_last()[i] == hs[i]);
            }
        }
        assert(m1.contains_key(hs[hs.len() - 1]));
        lemma_spent_value_marks(hs.drop_last(), m1, m2);
    }
}

/// The miner's fee does not depend on the mempool marks of the outputs it spends.
pub proof fn law_fee_ignores_marks(
    txs: Seq<TxView>,
    m1: Map<sha256::Hash, (bool, TransactionOutput)>,
    m2: Map<sha256::Hash, (bool, TransactionOutput)>,
)
    requires
        same_outputs(m1, m2),
    ensures
        miners_fee_outcome(txs, m1) == miners_fee_outcome(txs, m2),
{
    let hs = spent_hashes(txs);
    assert(all_known(hs, m1) == all_known(hs, m2));
    if all_known(hs, m1) {
        lemma_spent_value_marks(hs, m1, m2);
    }
}

/// Checking inputs does not depend on the mempool marks.
proof fn lemma_scan_inputs_marks(
    ins: Seq<InputView>,
    j: int,
    seen: Seq<sha256::Hash>,
    acc: nat,
    m1: Map<sha256::Hash, (bool, TransactionOutput)>,
    m2: Map<sha256::Hash, (bool, TransactionOutput)>,
)
    requires
        same_outputs(m1, m2),
    ensures
        scan_inputs(ins, j, seen, acc, m1) == scan_inputs(ins, j, seen, acc, m2),
    decreases ins.len() - j,
{
    if 0 <= j < ins.len() {
        let h = ins[j].0;
        assert(m1.contains_key(h) == m2.contains_key(h));
        if m1.contains_key(h) {
            assert(m1[h].1 == m2[h].1);
        }
        if m1.contains_key(h) {
            lemma_scan_inputs_marks(ins, j + 1, seen.push(h), (acc + m1[h].1.value) as nat, m1, m2);
        }
    }
}

/// Checking transactions does not depend on the mempool marks.
proof fn lemma_scan_txs_marks(
    txs: Seq<TxView>,
    k: int,
    seen: Seq<sha256::Hash>,
    m1: Map<sha256::Hash, (bool, TransactionOutput)>,
    m2: Map<sha256::Hash, (bool, TransactionOutput)>,
)
    requires
        same_outputs(m1, m2),
    ensures
        scan_txs(txs, k, seen, m1) == scan_txs(txs, k, seen, m2),
    decreases txs.len() - k,
{
    if 0 <= k < txs.len() {
        lemma_scan_inputs_marks(txs[k].0, 0, seen, 0, m1, m2);
        match scan_inputs(txs[k].0, 0, seen, 0, m1) {
            Some(Ok((seen2, _))) => {
                lemma_scan_txs_marks(txs, k + 1, seen2, m1, m2);
            },
            _ => {},
        }
    }
}

/// A block's verdict does not depend on the mempool marks of the unspent outputs:
/// outputs that a mempool transaction claims can still be spent by a block (the block
/// that mines that transaction), and two sets with the same outputs under the same
/// hashes give the same verdict.
pub proof fn law_verdict_ignores_marks(
    b: BlockView,
    height: u64,
    m1: Map<sha256::Hash, (bool, TransactionOutput)>,
    m2: Map<sha256::Hash, (bool, TransactionOutput)>,
)
    requires
        same_outputs(m1, m2),
    ensures
        verify_outcome(b, height, m1) == verify_outcome(b, height, m2),
{
    reveal(verify_outcome);
    if b.1.len() > 0 {
        law_fee_ignores_marks(b.1, m1, m2);
        assert(coinbase_outcome(b.1, height, m1) == coinbase_outcome(b.1, height, m2));
        lemma_scan_txs_marks(b.1, 1, Seq::empty(), m1, m2);
    }
}

/// Checking a block's transactions at a height: there is one, the coinbase is
/// checked (its verdict is not used, but where it cannot be reached there is no
/// verdict at all), then the other transactions in order. `None` where a sum leaves
/// `u64` or the coinbase cannot be checked.
#[verifier::opaque]
pub open spec fn verify_outcome(b: BlockView, height: u64, utxos: Map<sha256::Hash, (bool, TransactionOutput)>) -> Option<Result<(), ArcNetError>> {
    if b.1.len() == 0 {
        Some(Err(ArcNetError::InvalidTransaction))
    } else if coinbase_outcome(b.1, height, utxos) is None {
        None
    } else {
        scan_txs(b.1, 1, Seq::empty(), utxos)
    }
}

/// Whether a hash occurs in a list.
pub(crate) fn hashes_contain(hs: &Vec<sha256::Hash>, h: &sha256::Hash) -> (r: bool)
    ensures
        r == hs@.contains(*h),
{
    let mut i: usize = 0;
    while i < hs.len()
        invariant
            i <= hs@.len(),
            forall|j: int| 0 <= j < i ==> hs@[j] != *h,
        decreases hs@.len() - i,
    {
        if hs[i].equals(h) {
            proof {
                crate::u256::lemma_u256_view_injective(hs@[i as int].0, h.0);
                assert(hs@[i as int] == *h);
            }
            return true;
        }
        i = i + 1;
    }
    false
}

/// The subsidy after `e` halvings, `50 * 10^8` shifted right `e` times.
pub(crate) fn block_subsidy(e: u64) -> (r: u64)
    requires
        e < 64,
    ensures
        r == subsidy(e as nat),
{
    let base: u64 = 5_000_000_000;
    proof {
        vstd::bits::lemma_u64_shr_is_div(base, e);
    }
    base >> e
}


/// The value of the first outputs is at most the value of them all.
pub proof fn lemma_outputs_value_prefix(outs: Seq<TransactionOutput>, a: int)
    requires
        0 <= a <= outs.len(),
    ensures
        outputs_value(outs.take(a)) <= outputs_value(outs),
    decreases outs.len(),
{
    if a < outs.len() {
        lemma_outputs_value_prefix(outs.drop_last(), a);
        assert(outs.drop_last().take(a) =~= outs.take(a));
    } else {
        assert(outs.take(a) =~= outs);
    }
}

/// One more output adds its value.
pub proof fn lemma_outputs_value_take(outs: Seq<TransactionOutput>, a: int)
    requires
        0 <= a < outs.len(),
    ensures
        outputs_value(outs.take(a + 1)) == outputs_value(outs.take(a)) + outs[a].value,
{
    assert(outs.take(a + 1).drop_last() =~= outs.take(a));
}

/// The total value of a list of outputs, `None` where it leaves `u64`.
pub(crate) fn total_output_value(outs: &Vec<TransactionOutput>) -> (r: Option<u64>)
    ensures
        r is None <==> outputs_value(outs@) > u64::MAX,
        r matches Some(v) ==> v == outputs_value(outs@),
{
    let mut total: u64 = 0;
    let mut j: usize = 0;
    while j < outs.len()
        invariant
            j <= outs@.len(),
            total == outputs_value(outs@.take(j as int)),
        decreases outs@.len() - j,
    {
        proof {
            lemma_outputs_value_take(outs@, j as int);
        }
        match total.checked_add(outs[j].value) {
            Some(t) => {
                total = t;
            },
            None => {
                proof {
                    lemma_outputs_value_prefix(outs@, j + 1);
                }
                return None;
            },
        }
        j = j + 1;
    }
    assert(outs@.take(outs@.len() as int) =~= outs@);
    Some(total)
}

impl Block {
    /// The miner's fee, or `None` where its sums leave `u64`.
    #[verifier::loop_isolation(false)]
    pub(crate) fn fee_outcome(&self, utxos: &UtxoSet) -> (r: Option<Result<u64, ArcNetError>>)
        requires
            utxos.wf(),
        ensures
            r == miners_fee_outcome(self@.1, utxos@),
    {
        let ghost txs = self@.1;
        let ghost rest = after_coinbase(txs);
        let ghost parts = rest.map_values(|t: TxView| input_hashes(t));
        let ghost oparts = rest.map_values(|t: TxView| t.1);
        let n = self.transactions.len();
        let mut seen: Vec<sha256::Hash> = Vec::new();
        let mut spent: u64 = 0;
        let mut big: bool = false;
        let mut paid_count: usize = 0;
        let mut paid: u64 = 0;
        let mut i: usize = 1;
        assert(parts.take(0) =~= Seq::<Seq<sha256::Hash>>::empty());
        assert(oparts.take(0) =~= Seq::<Seq<TransactionOutput>>::empty());
        while i < n
            invariant
                1 <= i,
                n == 0 || i <= n,
                n > 0 ==> rest.len() == n - 1,
                n == 0 ==> i == 1 && rest.len() == 0,
                seen@ == joined(parts.take(i - 1)),
                all_known(seen@, utxos@),
                seen@.no_duplicates(),
                paid_count == joined(oparts.take(i - 1)).len(),
                paid_count <= 1,
                paid == outputs_value(joined(oparts.take(i - 1))),
                !big ==> spent == spent_value(seen@, utxos@),
                big ==> spent_value(seen@, utxos@) > u64::MAX,
            decreases n - i,
        {
            let ghost k: int = i - 1;
            let tx = &self.transactions[i];
            assert(rest[k] == tx@);
            let m = tx.input.len();
            let mut j: usize = 0;
            assert(parts[k].take(0) =~= Seq::<sha256::Hash>::empty());
            assert(seen@ =~= joined(parts.take(k)) + parts[k].take(0));
            while j < m
                invariant
                    j <= m,
                    m == parts[k].len(),
                    seen@ == joined(parts.take(k)) + parts[k].take(j as int),
                    all_known(seen@, utxos@),
                    seen@.no_duplicates(),
                    !big ==> spent == spent_value(seen@, utxos@),
                    big ==> spent_value(seen@, utxos@) > u64::MAX,
                decreases m - j,
            {
                let h = tx.input[j].prev_transaction_output_hash;
                assert(parts[k][j as int] == h);
                proof {
                    lemma_joined_take(parts, k);
                    lemma_joined_prefix(parts, k + 1);
                    assert(parts.take(k + 1).len() == k + 1);
                    assert(spent_hashes(txs) == joined(parts));
                    assert forall|t: int| 0 <= t < seen@.len() implies joined(parts)[t] == seen@[t] by {
                        assert(joined(parts.take(k + 1))[t] == seen@[t]);
                    }
                    assert(joined(parts)[seen@.len() as int] == h) by {
                        assert(joined(parts.take(k + 1))[seen@.len() as int] == h);
                    }
                }
                match utxos.get(&h) {
                    None => {
                        proof {
                            assert(!all_known(spent_hashes(txs), utxos@));
                        }
                        return Some(Err(ArcNetError::InvalidTransaction));
                    },
                    Some(prev) => {
                        if hashes_contain(&seen, &h) {
                            proof {
                                let t = choose|t: int| 0 <= t < seen@.len() && seen@[t] == h;
                                assert(joined(parts)[t] == h);
                                assert(!spent_hashes(txs).no_duplicates());
                            }
                            return Some(Err(ArcNetError::InvalidTransaction));
                        }
                        let ghost old_seen = seen@;
                        if !big {
                            match spent.checked_add(prev.1.value) {
                                Some(s2) => {
                                    spent = s2;
                                },
                                None => {
                                    big = true;
                                },
                            }
                        }
                        seen.push(h);
                        proof {
                            assert(seen@.drop_last() =~= old_seen);
                            assert(seen@ =~= joined(parts.take(k)) + parts[k].take(j + 1));
                        }
                    },
                }
                j = j + 1;
            }
            proof {
                assert(parts[k].take(m as int) =~= parts[k]);
                lemma_joined_take(parts, k);
            }
            let mo = tx.output.len();
            let mut j2: usize = 0;
            assert(oparts[k] == tx.output@);
            assert(oparts[k].take(0) =~= Seq::<TransactionOutput>::empty());
            assert(joined(oparts.take(k)) + oparts[k].take(0) =~= joined(oparts.take(k)));
            while j2 < mo
                invariant
                    j2 <= mo,
                    mo == oparts[k].len(),
                    paid_count == joined(oparts.take(k)).len() + j2,
                    paid_count <= 1,
                    paid == outputs_value(joined(oparts.take(k)) + oparts[k].take(j2 as int)),
                decreases mo - j2,
            {
                if paid_count >= 1 {
                    proof {
                        lemma_joined_take(oparts, k);
                        lemma_joined_prefix(oparts, k + 1);
                        assert(oparts.take(k + 1).len() == k + 1);
                        assert(paid_outputs(txs) == joined(oparts));
                    }
                    return Some(Err(ArcNetError::InvalidTransaction));
                }
                paid = tx.output[j2].value;
                paid_count = 1;
                proof {
                    let q = joined(oparts.take(k)) + oparts[k].take(j2 + 1);
                    assert(q =~= seq![tx.output@[j2 as int]]);
                    assert(q.drop_last() =~= Seq::<TransactionOutput>::empty());
                }
                j2 = j2 + 1;
            }
            proof {
                assert(oparts[k].take(mo as int) =~= oparts[k]);
                lemma_joined_take(oparts, k);
            }
            i = i + 1;
        }
        proof {
            assert(txs.len() == n);
            assert(i - 1 == rest.len());
            assert(parts.take(rest.len() as int) =~= parts);
            assert(oparts.take(rest.len() as int) =~= oparts);
            assert(spent_hashes(txs) == joined(parts));
            assert(paid_outputs(txs) == joined(oparts));
            assert(seen@ == spent_hashes(txs));
            assert(fee_inputs_valid(txs, utxos@));
        }
        if big {
            return None;
        }
        if paid > spent {
            return None;
        }
        Some(Ok(spent - paid))
    }
}

impl Block {
    /// Checking the coinbase, or `None` where an amount leaves `u64`.
    fn coinbase_check(&self, height: u64, utxos: &UtxoSet) -> (r: Option<Result<(), ArcNetError>>)
        requires
            utxos.wf(),
            self.transactions@.len() > 0,
        ensures
            r == coinbase_outcome(self@.1, height, utxos@),
    {
        let cb = &self.transactions[0];
        assert(self@.1[0] == cb@);
        if cb.input.len() != 0 || cb.output.len() == 0 {
            return Some(Err(ArcNetError::InvalidTransaction));
        }
        let fee = match self.fee_outcome(utxos) {
            Some(Ok(f)) => f,
            _ => {
                return None;
            },
        };
        let e: u32 = (height / HALVING_INTERVAL) as u32;
        if e >= 64 {
            return None;
        }
        let reward = block_subsidy(e as u64);
        let total = match total_output_value(&cb.output) {
            Some(t) => t,
            None => {
                return None;
            },
        };
        match fee.checked_add(reward) {
            None => None,
            Some(expected) => {
                if total != expected {
                    Some(Err(ArcNetError::InvalidTransaction))
                } else {
                    Some(Ok(()))
                }
            },
        }
    }

    /// Checking all transactions, or `None` where a sum leaves `u64`.
    #[verifier::loop_isolation(false)]
    fn run_checks(&self, height: u64, utxos: &UtxoSet) -> (r: Option<Result<(), ArcNetError>>)
        requires
            utxos.wf(),
        ensures
            r == verify_outcome(self@, height, utxos@),
    {
        reveal(verify_outcome);
        let n = self.transactions.len();
        if n == 0 {
            return Some(Err(ArcNetError::InvalidTransaction));
        }
        if self.coinbase_check(height, utxos).is_none() {
            return None;
        }
        let ghost txs = self@.1;
        let mut seen: Vec<sha256::Hash> = Vec::new();
        let mut i: usize = 1;
        while i < n
            invariant
                1 <= i <= n,
                scan_txs(txs, 1, Seq::empty(), utxos@) == scan_txs(txs, i as int, seen@, utxos@),
            decreases n - i,
        {
            let tx = &self.transactions[i];
            assert(txs[i as int] == tx@);
            let ghost ins = tx@.0;
            let ghost seen0 = seen@;
            let m = tx.input.len();
            let mut spent: u64 = 0;
            let mut j: usize = 0;
            while j < m
                invariant
                    j <= m,
                    m == ins.len(),
                    scan_inputs(ins, 0, seen0, 0, utxos@) == scan_inputs(
                        ins,
                        j as int,
                        seen@,
                        spent as nat,
                        utxos@,
                    ),
                decreases m - j,
            {
                let input = &tx.input[j];
                let h = input.prev_transaction_output_hash;
                assert(ins[j as int] == input@);
                let prev = match utxos.get(&h) {
                    None => {
                        return Some(Err(ArcNetError::InvalidTransaction));
                    },
                    Some(p) => p,
                };
                if hashes_contain(&seen, &h) {
                    return Some(Err(ArcNetError::InvalidTransaction));
                }
                if !input.signature.verify(&h, &prev.1.pub_key) {
                    return Some(Err(ArcNetError::InvalidSignature));
                }
                match spent.checked_add(prev.1.value) {
                    None => {
                        return None;
                    },
                    Some(s2) => {
                        spent = s2;
                    },
                }
                seen.push(h);
                j = j + 1;
            }
            let out_total = match total_output_value(&tx.output) {
                None => {
                    return None;
                },
                Some(t) => t,
            };
            if spent < out_total {
                return Some(Err(ArcNetError::InvalidTransaction));
            }
            i = i + 1;
        }
        Some(Ok(()))
    }

    /// The miner's fee of the block: the value of the outputs spent after the coinbase,
    /// less the value paid out after it. Refused where an output spent is not unspent or
    /// is spent twice, or where more than one output is paid out after the coinbase.
    pub fn calculate_miners_fee(&self, utxos: &UtxoSet) -> (r: Result<u64, ArcNetError>)
        requires
            utxos.wf(),
            miners_fee_outcome(self@.1, utxos@) is Some,
        ensures
            Some(r) == miners_fee_outcome(self@.1, utxos@),
            r is Ok <==> fee_inputs_valid(self@.1, utxos@),
            r matches Err(e) ==> e == ArcNetError::InvalidTransaction,
            r matches Ok(fee) ==> fee == spent_value(spent_hashes(self@.1), utxos@) - outputs_value(
                paid_outputs(self@.1),
            ),
    {
        self.fee_outcome(utxos).unwrap()
    }

    /// Checks the coinbase at a predicted height: it spends nothing, pays something, and
    /// pays exactly the subsidy at that height plus the miner's fee.
    pub fn verify_coinbase_transaction(&self, predicted_block_height: u64, utxos: &UtxoSet) -> (r: Result<(), ArcNetError>)
        requires
            utxos.wf(),
            self.transactions@.len() > 0,
            coinbase_outcome(self@.1, predicted_block_height, utxos@) is Some,
        ensures
            Some(r) == coinbase_outcome(self@.1, predicted_block_height, utxos@),
    {
        self.coinbase_check(predicted_block_height, utxos).unwrap()
    }

    /// `calculate_miners_fee` where it can be computed; `None` where a sum leaves `u64`.
    pub fn calculate_miners_fee_checked(&self, utxos: &UtxoSet) -> (r: Option<Result<u64, ArcNetError>>)
        requires
            utxos.wf(),
        ensures
            r == miners_fee_outcome(self@.1, utxos@),
    {
        self.fee_outcome(utxos)
    }

    /// `verify_coinbase_transaction` where it can be run; `None` where the block has no
    /// transactions or where the fee or an amount cannot be computed.
    pub fn verify_coinbase_transaction_checked(&self, predicted_block_height: u64, utxos: &UtxoSet) -> (r: Option<
        Result<(), ArcNetError>,
    >)
        requires
            utxos.wf(),
        ensures
            self.transactions@.len() == 0 ==> r is None,
            self.transactions@.len() > 0 ==> r == coinbase_outcome(self@.1, predicted_block_height, utxos@),
    {
        if self.transactions.len() == 0 {
            return None;
        }
        self.coinbase_check(predicted_block_height, utxos)
    }

    /// Checks the block's transactions against the unspent outputs: there is one; and
    /// every transaction after the coinbase spends unspent outputs not spent before in
    /// the block, carries a valid signature by each output's key, and pays out no more
    /// than it spends. The first failure is reported.
    pub fn verify_transaction(&self, block_height: u64, utxos: &UtxoSet) -> (r: Result<(), ArcNetError>)
        requires
            utxos.wf(),
            verify_outcome(self@, block_height, utxos@) is Some,
        ensures
            Some(r) == verify_outcome(self@, block_height, utxos@),
    {
        self.run_checks(block_height, utxos).unwrap()
    }

    /// `verify_transaction` where it can be run; `None` where one of its sums would leave
    /// `u64` or the coinbase's check would fail to compute.
    pub fn verify_transaction_checked(&self, block_height: u64, utxos: &UtxoSet) -> (r: Option<Result<(), ArcNetError>>)
        requires
            utxos.wf(),
        ensures
            r == verify_outcome(self@, block_height, utxos@),
    {
        if self.run_checks(block_height, utxos).is_some() {
            Some(self.verify_transaction(block_height, utxos))
        } else {
            None
        }
    }
}

/// The first subsidy is 50 coins in satoshis.
pub proof fn law_initial_subsidy()
    ensures
        subsidy(0) == 5_000_000_000,
{
    vstd::arithmetic::power2::lemma_pow2(0);
    vstd::arithmetic::power::lemma_pow0(2);
}

/// Every halving halves the subsidy (rounding down).
pub proof fn law_subsidy_halves(e: nat)
    ensures
        subsidy(e + 1) == subsidy(e) / 2,
{
    vstd::arithmetic::power2::lemma_pow2_unfold(e + 1);
    vstd::arithmetic::power2::lemma_pow2_pos(e);
    vstd::arithmetic::div_mod::lemma_div_denominator(5_000_000_000, pow2(e) as int, 2);
    assert(pow2(e) * 2 == 2 * pow2(e)) by (nonlinear_arith);
}

/// What checking the inputs of a transaction from position `j0` on establishes when it
/// passes, having started with the hashes `seen0` spent earlier in the block: each input
/// spends an unspent output spent nowhere before, signed by its key; and the check ends
/// with all the hashes spent and the value of this transaction's.
proof fn lemma_scan_inputs_facts(
    ins: Seq<InputView>,
    j0: int,
    seen0: Seq<sha256::Hash>,
    utxos: Map<sha256::Hash, (bool, TransactionOutput)>,
)
    requires
        0 <= j0 <= ins.len(),
        (seen0 + hashes_of(ins).take(j0)).no_duplicates(),
        scan_inputs(ins, j0, seen0 + hashes_of(ins).take(j0), spent_value(hashes_of(ins).take(j0), utxos), utxos) matches Some(
            Ok(_),
        ),
    ensures
        scan_inputs(ins, j0, seen0 + hashes_of(ins).take(j0), spent_value(hashes_of(ins).take(j0), utxos), utxos)
            == Some(Ok::<(Seq<sha256::Hash>, nat), ArcNetError>((seen0 + hashes_of(ins), spent_value(hashes_of(ins), utxos)))),
        (seen0 + hashes_of(ins)).no_duplicates(),
        forall|j: int|
            j0 <= j < ins.len() ==> utxos.contains_key(#[trigger] ins[j].0) && spec_ecdsa_verify(
                utxos[ins[j].0].1.pub_key.bytes@,
                le_bytes(ins[j].0.0),
                ins[j].1,
            ),
    decreases ins.len() - j0,
{
    let hs = hashes_of(ins);
    if j0 == ins.len() {
        assert(hs.take(j0) =~= hs);
    } else {
        let seen = seen0 + hs.take(j0);
        let h = ins[j0].0;
        assert(hs[j0] == h);
        assert(seen.push(h) =~= seen0 + hs.take(j0 + 1));
        assert(hs.take(j0 + 1).drop_last() =~= hs.take(j0));
        assert(spent_value(hs.take(j0 + 1), utxos) == spent_value(hs.take(j0), utxos) + utxos[h].1.value);
        assert((seen0 + hs.take(j0 + 1)).no_duplicates()) by {
            let t = seen0 + hs.take(j0 + 1);
            assert forall|a: int, b: int| 0 <= a < t.len() && 0 <= b < t.len() && a != b implies t[a] != t[b] by {
                if a == t.len() - 1 {
                    assert(t[a] == h && t[b] == seen[b]);
                } else if b == t.len() - 1 {
                    assert(t[b] == h && t[a] == seen[a]);
                } else {
                    assert(t[a] == seen[a] && t[b] == seen[b]);
                }
            }
        }
        lemma_scan_inputs_facts(ins, j0 + 1, seen0, utxos);
    }
}

/// What checking the transactions from position `k0` on establishes when it passes,
/// having started with the hashes spent by the transactions between the coinbase and
/// `k0`.
proof fn lemma_scan_txs_facts(txs: Seq<TxView>, k0: int, utxos: Map<sha256::Hash, (bool, TransactionOutput)>)
    requires
        1 <= k0 <= txs.len(),
        joined(after_coinbase(txs).map_values(|t: TxView| input_hashes(t)).take(k0 - 1)).no_duplicates(),
        scan_txs(txs, k0, joined(after_coinbase(txs).map_values(|t: TxView| input_hashes(t)).take(k0 - 1)), utxos)
            == Some(Ok::<(), ArcNetError>(())),
    ensures
        spent_hashes(txs).no_duplicates(),
        forall|k: int|
            k0 <= k < txs.len() ==> outputs_value(#[trigger] txs[k].1) <= spent_value(input_hashes(txs[k]), utxos),
        forall|k: int, j: int|
            k0 <= k < txs.len() && 0 <= j < txs[k].0.len() ==> utxos.contains_key(#[trigger] txs[k].0[j].0)
                && spec_ecdsa_verify(
                utxos[txs[k].0[j].0].1.pub_key.bytes@,
                le_bytes(txs[k].0[j].0.0),
                txs[k].0[j].1,
            ),
    decreases txs.len() - k0,
{
    let parts = after_coinbase(txs).map_values(|t: TxView| input_hashes(t));
    assert(parts.len() == txs.len() - 1);
    let seen = joined(parts.take(k0 - 1));
    if k0 == txs.len() {
        assert(parts.take(k0 - 1) =~= parts);
    } else {
        let ins = txs[k0].0;
        assert(hashes_of(ins).take(0) =~= Seq::<sha256::Hash>::empty());
        assert(seen + hashes_of(ins).take(0) =~= seen);
        assert(spent_value(hashes_of(ins).take(0), utxos) == 0);
        lemma_scan_inputs_facts(ins, 0, seen, utxos);
        assert(parts[k0 - 1] == input_hashes(txs[k0]));
        lemma_joined_take(parts, k0 - 1);
        assert(seen + hashes_of(ins) == joined(parts.take(k0)));
        lemma_scan_txs_facts(txs, k0 + 1, utxos);
    }
}

/// A block whose transaction checks pass: every input after the coinbase spends an
/// unspent output and carries a valid signature by that output's key, no output is
/// spent twice in the block, and no transaction pays out more than it spends.
pub proof fn law_verified_block(b: BlockView, height: u64, utxos: Map<sha256::Hash, (bool, TransactionOutput)>)
    requires
        verify_outcome(b, height, utxos) == Some(Ok::<(), ArcNetError>(())),
    ensures
        b.1.len() > 0,
        spent_hashes(b.1).no_duplicates(),
        forall|k: int|
            1 <= k < b.1.len() ==> outputs_value(#[trigger] b.1[k].1) <= spent_value(input_hashes(b.1[k]), utxos),
        forall|k: int, j: int|
            1 <= k < b.1.len() && 0 <= j < b.1[k].0.len() ==> utxos.contains_key(#[trigger] b.1[k].0[j].0)
                && spec_ecdsa_verify(
                utxos[b.1[k].0[j].0].1.pub_key.bytes@,
                le_bytes(b.1[k].0[j].0.0),
                b.1[k].0[j].1,
            ),
{
    reveal(verify_outcome);
    let parts = after_coinbase(b.1).map_values(|t: TxView| input_hashes(t));
    assert(parts.take(0) =~= Seq::<Seq<sha256::Hash>>::empty());
    assert(joined(parts.take(0)) =~= Seq::<sha256::Hash>::empty());
    lemma_scan_txs_facts(b.1, 1, utxos);
}

} // verus!
