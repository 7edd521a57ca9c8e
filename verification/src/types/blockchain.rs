//! The chain: its blocks, the unspent outputs, the proof-of-work target and the
//! mempool of transactions waiting for a block.

use vstd::prelude::*;
use crate::error::ArcNetError;
use crate::sha256;
use crate::timestamp::{Timestamp, seconds_between, spec_before, spec_seconds_between};
use crate::types::block::{Block, BlockView, header_matches, input_hashes, spec_block_hash, spec_header_hash, subsidy, verify_outcome, block_subsidy};
use crate::types::transaction::{TxView, spec_tx_hash};
use crate::types::transaction::{Transaction, TransactionOutput};
use crate::types::utxos::UtxoSet;
use crate::u256::{U256, all_digits, dec_digits, dec_value, u256_modulus, parse_dec_bytes};
use crate::util::{MarkleRoot, spec_merkle_root};
use crate::{DIFFICULTY_UPDATE_INTERVAL, HALVING_INTERVAL, IDEAL_BLOCK_TIME};

verus! {

/// The text of the decimal `BigDecimal::parse_bytes(digits, 10) * (BigDecimal::from(numer)
/// / BigDecimal::from(denom))`, as `bigdecimal` formats it.
pub uninterp spec fn spec_scaled_decimal(digits: Seq<u8>, numer: i64, denom: u64) -> Seq<u8>;

/// `bigdecimal`: the decimal written in `digits`, times `numer / denom` (a quotient
/// that `bigdecimal` rounds to its default precision), formatted with `to_string`.
/// Digits that do not parse give an empty text.
#[verifier::external_body]
fn scaled_decimal(digits: &[u8], numer: i64, denom: u64) -> (r: Vec<u8>)
    requires
        denom > 0,
    ensures
        r@ == spec_scaled_decimal(digits@, numer, denom),
{
    match bigdecimal::BigDecimal::parse_bytes(digits, 10) {
        Some(d) => (d * (bigdecimal::BigDecimal::from(numer) / bigdecimal::BigDecimal::from(denom))).to_string().into_bytes(),
        None => Vec::new(),
    }
}

/// The value of the easiest target, 2^240 - 1: a hash must start with sixteen zero bits.
pub open spec fn min_target_value() -> nat {
    0xFFFF_FFFF_FFFF_FFFF_FFFF_FFFF_FFFF_FFFF_FFFF_FFFF_FFFF_FFFF_FFFF_FFFF_FFFFnat
}

/// The easiest target, which a new chain starts with.
pub fn default_target() -> (r: U256)
    ensures
        r@ == min_target_value(),
{
    U256::from_limbs([0xFFFF_FFFF_FFFF_FFFF, 0xFFFF_FFFF_FFFF_FFFF, 0xFFFF_FFFF_FFFF_FFFF, 0x0000_FFFF_FFFF_FFFF])
}

/// The length of the text before its first `.`.
pub open spec fn first_dot(s: Seq<u8>) -> nat
    decreases s.len(),
{
    if s.len() == 0 {
        0
    } else if s[0] == 46 {
        0
    } else {
        1 + first_dot(s.drop_first())
    }
}

/// The text before its first `.` (the whole text where there is none).
pub open spec fn integer_part(s: Seq<u8>) -> Seq<u8> {
    s.take(first_dot(s) as int)
}

/// The new target from the old one and the text of the scaled old target: the integer
/// part of the text, kept within a quarter and four times the old target, and at most
/// the easiest target. `None` where the integer part is no decimal number below 2^256,
/// or where four times the old target is needed and leaves 256 bits.
pub open spec fn clamped_target(target: U256, text: Seq<u8>) -> Option<nat> {
    let part = integer_part(text);
    if !all_digits(part) || dec_value(part) >= u256_modulus() {
        None
    } else {
        let v = dec_value(part);
        let c = if v < target@ / 4 {
            Some(target@ / 4)
        } else if target@ * 4 >= u256_modulus() {
            None
        } else if v > target@ * 4 {
            Some(target@ * 4)
        } else {
            Some(v)
        };
        match c {
            None => None,
            Some(x) => Some(
                if x <= min_target_value() {
                    x
                } else {
                    min_target_value()
                },
            ),
        }
    }
}

/// The target of a chain after an adjustment: unchanged unless the chain's length is a
/// positive multiple of the adjustment interval; then the old target scaled by the time
/// the last interval of blocks took over the ideal time, clamped.
pub open spec fn retarget_result(blocks: Seq<Block>, target: U256) -> Option<nat> {
    if blocks.len() == 0 || blocks.len() % (DIFFICULTY_UPDATE_INTERVAL as nat) != 0 {
        Some(target@)
    } else {
        let start = blocks[blocks.len() - DIFFICULTY_UPDATE_INTERVAL].header.timestamp;
        let end = blocks.last().header.timestamp;
        clamped_target(
            target,
            spec_scaled_decimal(
                dec_digits(target@),
                spec_seconds_between(start.secs, start.nanos, end.secs, end.nanos),
                (IDEAL_BLOCK_TIME * DIFFICULTY_UPDATE_INTERVAL) as u64,
            ),
        )
    }
}

/// The position of the first `.` in a text, or its length.
fn find_dot(s: &[u8]) -> (r: usize)
    ensures
        r == first_dot(s@),
        r <= s@.len(),
{
    let mut i: usize = 0;
    assert(s@.subrange(0, s@.len() as int) =~= s@);
    while i < s.len() && s[i] != 46
        invariant
            i <= s@.len(),
            first_dot(s@) == i + first_dot(s@.subrange(i as int, s@.len() as int)),
        decreases s@.len() - i,
    {
        proof {
            assert(s@.subrange(i as int, s@.len() as int).drop_first() =~= s@.subrange(
                i + 1,
                s@.len() as int,
            ));
        }
        i = i + 1;
    }
    proof {
        if i < s@.len() {
            assert(s@.subrange(i as int, s@.len() as int)[0] == 46);
        } else {
            assert(s@.subrange(i as int, s@.len() as int).len() == 0);
        }
    }
    i
}

/// The new target from the old one and the text of the scaled old target (see
/// `clamped_target`).
pub fn next_target(target: U256, scaled_text: &[u8]) -> (r: Option<U256>)
    ensures
        r is Some <==> clamped_target(target, scaled_text@) is Some,
        r matches Some(t) ==> Some(t@) == clamped_target(target, scaled_text@),
{
    let p = find_dot(scaled_text);
    let part = slice_prefix(scaled_text, p);
    assert(part@ =~= integer_part(scaled_text@));
    let v = match parse_dec_bytes(part.as_slice()) {
        Some(v) => v,
        None => {
            return None;
        },
    };
    let quarter = target.div_rem_u64(4).0;
    let c = if v.lt(&quarter) {
        quarter
    } else {
        let (four, carry) = target.mul_u64(4);
        if carry > 0 {
            return None;
        }
        if four.lt(&v) {
            four
        } else {
            v
        }
    };
    Some(c.min(default_target()))
}

/// The first `n` bytes of a slice.
fn slice_prefix(s: &[u8], n: usize) -> (r: Vec<u8>)
    requires
        n <= s@.len(),
    ensures
        r@ == s@.take(n as int),
{
    let mut out: Vec<u8> = Vec::new();
    let mut i: usize = 0;
    while i < n
        invariant
            i <= n,
            n <= s@.len(),
            out@ == s@.take(i as int),
        decreases n - i,
    {
        out.push(s[i]);
        assert(s@.take(i + 1) =~= s@.take(i as int).push(s@[i as int]));
        i = i + 1;
    }
    out
}

/// The target after an adjustment over the interval from `start` to `end`.
fn retarget_between(start: Timestamp, end: Timestamp, target: U256) -> (r: Option<U256>)
    ensures
        r is Some <==> clamped_target(
            target,
            spec_scaled_decimal(
                dec_digits(target@),
                spec_seconds_between(start.secs, start.nanos, end.secs, end.nanos),
                (IDEAL_BLOCK_TIME * DIFFICULTY_UPDATE_INTERVAL) as u64,
            ),
        ) is Some,
        r matches Some(t) ==> Some(t@) == clamped_target(
            target,
            spec_scaled_decimal(
                dec_digits(target@),
                spec_seconds_between(start.secs, start.nanos, end.secs, end.nanos),
                (IDEAL_BLOCK_TIME * DIFFICULTY_UPDATE_INTERVAL) as u64,
            ),
        ),
{
    let secs = seconds_between(start, end);
    let digits = target.to_dec_bytes();
    let text = scaled_decimal(digits.as_slice(), secs, IDEAL_BLOCK_TIME * DIFFICULTY_UPDATE_INTERVAL);
    next_target(target, text.as_slice())
}

/// The chain.
#[derive(Debug)]
pub struct Blockchain {
    /// The blocks, the genesis block first.
    pub blocks: Vec<Block>,
    /// The unspent outputs, each with a mark that tells whether a mempool
    /// transaction spends it.
    pub utxos: UtxoSet,
    /// The proof-of-work target of the next block.
    pub target: U256,
    /// Transactions waiting for a block, with the time each was received.
    pub mempool: Vec<(Timestamp, Transaction)>,
}

impl Blockchain {
    /// The chain's invariant: no unspent output is filed twice.
    pub open spec fn wf(&self) -> bool {
        self.utxos.wf()
    }

    /// An empty chain with the easiest target.
    pub fn new() -> (r: Blockchain)
        ensures
            r.wf(),
            r.blocks@.len() == 0,
            r.utxos@ == Map::<sha256::Hash, (bool, TransactionOutput)>::empty(),
            r.target@ == min_target_value(),
            r.mempool@.len() == 0,
    {
        Blockchain { blocks: Vec::new(), utxos: UtxoSet::new(), target: default_target(), mempool: Vec::new() }
    }

    /// The unspent outputs.
    pub fn utxos(&self) -> (r: &UtxoSet)
        ensures
            r == &self.utxos,
    {
        &self.utxos
    }

    /// The current target.
    pub fn target(&self) -> (r: U256)
        ensures
            r == self.target,
    {
        self.target
    }

    /// The blocks, the genesis block first.
    pub fn blocks(&self) -> (r: &Vec<Block>)
        ensures
            r == &self.blocks,
    {
        &self.blocks
    }

    /// The mempool.
    pub fn mempool(&self) -> (r: &Vec<(Timestamp, Transaction)>)
        ensures
            r == &self.mempool,
    {
        &self.mempool
    }

    /// The number of blocks.
    pub fn block_height(&self) -> (r: u64)
        ensures
            r == self.blocks@.len(),
    {
        self.blocks.len() as u64
    }

    /// The subsidy of the next block: 50 coins in satoshis, halved for every
    /// `HALVING_INTERVAL` blocks in the chain.
    pub fn calculate_block_reward(&self) -> (r: u64)
        requires
            self.blocks@.len() / (HALVING_INTERVAL as nat) < 64,
        ensures
            r == subsidy(self.blocks@.len() / (HALVING_INTERVAL as nat)),
    {
        let halvings = self.block_height() / HALVING_INTERVAL;
        block_subsidy(halvings)
    }

    /// The target that an adjustment would give, `None` where it cannot be computed.
    fn retarget_outcome(&self) -> (r: Option<U256>)
        ensures
            r is Some <==> retarget_result(self.blocks@, self.target) is Some,
            r matches Some(t) ==> Some(t@) == retarget_result(self.blocks@, self.target),
    {
        let n = self.blocks.len();
        if n == 0 || n % (DIFFICULTY_UPDATE_INTERVAL as usize) != 0 {
            return Some(self.target);
        }
        let start = self.blocks[n - DIFFICULTY_UPDATE_INTERVAL as usize].header.timestamp;
        let end = self.blocks[n - 1].header.timestamp;
        retarget_between(start, end, self.target)
    }

    /// Adjusts the target when the chain's length is a positive multiple of the
    /// adjustment interval: the old target times the time the last interval of blocks
    /// took over the ideal time, within a quarter and four times the old target, and at
    /// most the easiest target.
    pub fn try_adjust_target(&mut self)
        requires
            retarget_result(old(self).blocks@, old(self).target) is Some,
        ensures
            Some(final(self).target@) == retarget_result(old(self).blocks@, old(self).target),
            final(self).blocks == old(self).blocks,
            final(self).utxos == old(self).utxos,
            final(self).mempool == old(self).mempool,
    {
        let t = self.retarget_outcome().unwrap();
        self.target = t;
    }

    /// `try_adjust_target` where it can be computed; returns whether it was (the chain
    /// is left as it is where it was not).
    pub fn try_adjust_target_checked(&mut self) -> (r: bool)
        ensures
            r == (retarget_result(old(self).blocks@, old(self).target) is Some),
            r ==> Some(final(self).target@) == retarget_result(old(self).blocks@, old(self).target),
            !r ==> final(self).target == old(self).target,
            final(self).blocks == old(self).blocks,
            final(self).utxos == old(self).utxos,
            final(self).mempool == old(self).mempool,
    {
        if self.retarget_outcome().is_some() {
            self.try_adjust_target();
            true
        } else {
            false
        }
    }
}

/// What checking a block against the chain comes to before it is appended. The
/// genesis block needs a header hash of zero. A later block must name the last block's
/// hash, meet its own target, carry transactions whose Merkle root its header holds (a
/// block without transactions has no root and is refused as a Merkle error), come
/// strictly later than the last block, and pass the transaction checks at the chain's
/// height, whose error it is refused with otherwise. `None` where the transaction
/// checks cannot be computed.
pub open spec fn admission_outcome(
    blocks: Seq<Block>,
    utxos: Map<sha256::Hash, (bool, TransactionOutput)>,
    b: BlockView,
) -> Option<Result<(), ArcNetError>> {
    if blocks.len() == 0 {
        if spec_header_hash(b.0).0@ != 0 {
            Some(Err(ArcNetError::InvalidBlock))
        } else {
            Some(Ok(()))
        }
    } else {
        let last = blocks.last();
        if b.0.prev_block_hash.0@ != spec_block_hash(last@).0@ {
            Some(Err(ArcNetError::InvalidBlock))
        } else if !header_matches(b.0) {
            Some(Err(ArcNetError::InvalidBlock))
        } else if b.1.len() == 0 {
            Some(Err(ArcNetError::InvalidMerkleError))
        } else if spec_merkle_root(b.1) != b.0.markle_root.0 {
            Some(Err(ArcNetError::InvalidMerkleError))
        } else if !spec_before(last.header.timestamp, b.0.timestamp) {
            Some(Err(ArcNetError::InvalidBlock))
        } else {
            verify_outcome(b, blocks.len() as u64, utxos)
        }
    }
}

/// Whether `next` follows `prev` in a chain: it names `prev`'s hash and comes strictly
/// later.
pub open spec fn links_to(prev: Block, next: Block) -> bool {
    &&& next.header.prev_block_hash.0@ == spec_block_hash(prev@).0@
    &&& spec_before(prev.header.timestamp, next.header.timestamp)
}

/// Whether each block of a sequence follows the one before it.
pub open spec fn chain_linked(blocks: Seq<Block>) -> bool {
    forall|i: int, j: int|
        0 <= i && j == i + 1 && j < blocks.len() ==> #[trigger] links_to(blocks[i], blocks[j])
}

/// What adding a block to a chain comes to: the block's admission, and where it is
/// admitted, the target adjustment of the longer chain. `None` where either cannot
/// be computed.
pub open spec fn add_block_outcome(chain: Blockchain, block: Block) -> Option<Result<(), ArcNetError>> {
    match admission_outcome(chain.blocks@, chain.utxos@, block@) {
        None => None,
        Some(Err(e)) => Some(Err(e)),
        Some(Ok(())) => {
            if retarget_result(chain.blocks@.push(block), chain.target) is None {
                None
            } else {
                Some(Ok(()))
            }
        },
    }
}

/// The unspent outputs with the entries under the hashes removed, in order.
pub open spec fn remove_spent(
    m: Map<sha256::Hash, (bool, TransactionOutput)>,
    hs: Seq<sha256::Hash>,
) -> Map<sha256::Hash, (bool, TransactionOutput)>
    decreases hs.len(),
{
    if hs.len() == 0 {
        m
    } else {
        remove_spent(m, hs.drop_last()).remove(hs.last())
    }
}

/// The unspent outputs with each output filed, unmarked, under `key`, in order.
pub open spec fn file_outputs(
    m: Map<sha256::Hash, (bool, TransactionOutput)>,
    key: sha256::Hash,
    outs: Seq<TransactionOutput>,
) -> Map<sha256::Hash, (bool, TransactionOutput)>
    decreases outs.len(),
{
    if outs.len() == 0 {
        m
    } else {
        file_outputs(m, key, outs.drop_last()).insert(key, (false, outs.last()))
    }
}

/// Replaying a transaction: the outputs it spends go, and its outputs are filed under
/// the transaction's hash.
pub open spec fn replay_tx(m: Map<sha256::Hash, (bool, TransactionOutput)>, t: TxView) -> Map<
    sha256::Hash,
    (bool, TransactionOutput),
> {
    file_outputs(remove_spent(m, input_hashes(t)), spec_tx_hash(t), t.1)
}

/// Replaying transactions in order.
pub open spec fn replay_txs(m: Map<sha256::Hash, (bool, TransactionOutput)>, txs: Seq<TxView>) -> Map<
    sha256::Hash,
    (bool, TransactionOutput),
>
    decreases txs.len(),
{
    if txs.len() == 0 {
        m
    } else {
        replay_tx(replay_txs(m, txs.drop_last()), txs.last())
    }
}

/// Replaying the transactions of blocks in order.
pub open spec fn replay_blocks(m: Map<sha256::Hash, (bool, TransactionOutput)>, blocks: Seq<Block>) -> Map<
    sha256::Hash,
    (bool, TransactionOutput),
>
    decreases blocks.len(),
{
    if blocks.len() == 0 {
        m
    } else {
        replay_txs(replay_blocks(m, blocks.drop_last()), blocks.last()@.1)
    }
}

impl Blockchain {
    /// What checking a block against the chain comes to, without changing anything.
    fn admission(&self, block: &Block) -> (r: Option<Result<(), ArcNetError>>)
        requires
            self.wf(),
        ensures
            r == admission_outcome(self.blocks@, self.utxos@, block@),
    {
        let n = self.blocks.len();
        if n == 0 {
            if !block.header.hash().equals(&sha256::Hash::zero()) {
                return Some(Err(ArcNetError::InvalidBlock));
            }
            return Some(Ok(()));
        }
        let last = &self.blocks[n - 1];
        if !block.header.prev_block_hash.equals(&last.hash()) {
            return Some(Err(ArcNetError::InvalidBlock));
        }
        if !block.header.hash().matches_target(block.header.target) {
            return Some(Err(ArcNetError::InvalidBlock));
        }
        if block.transactions.len() == 0 {
            return Some(Err(ArcNetError::InvalidMerkleError));
        }
        let root = MarkleRoot::calculate(block.transactions.as_slice());
        if !root.equals(&block.header.markle_root) {
            return Some(Err(ArcNetError::InvalidMerkleError));
        }
        if !last.header.timestamp.before(&block.header.timestamp) {
            return Some(Err(ArcNetError::InvalidBlock));
        }
        let height = self.block_height();
        assert(height == self.blocks@.len() as u64);
        block.verify_transaction_checked(height, &self.utxos)
    }

    /// The target that an adjustment of the chain with `block` appended would give.
    fn retarget_after(&self, block: &Block) -> (r: Option<U256>)
        ensures
            r is Some <==> retarget_result(self.blocks@.push(*block), self.target) is Some,
            r matches Some(t) ==> Some(t@) == retarget_result(self.blocks@.push(*block), self.target),
    {
        let n = self.blocks.len();
        let ghost longer = self.blocks@.push(*block);
        if n % (DIFFICULTY_UPDATE_INTERVAL as usize) != 49 {
            assert(longer.len() % (DIFFICULTY_UPDATE_INTERVAL as nat) != 0);
            return Some(self.target);
        }
        assert(longer.len() % (DIFFICULTY_UPDATE_INTERVAL as nat) == 0);
        assert(longer[longer.len() - DIFFICULTY_UPDATE_INTERVAL] == self.blocks@[n - 49]);
        let start = self.blocks[n - 49].header.timestamp;
        retarget_between(start, block.header.timestamp, self.target)
    }

    /// Appends a block if it is valid for the chain (see `admission_outcome`), then
    /// adjusts the target; refuses it otherwise and leaves the chain as it is.
    pub fn add_block(&mut self, block: Block) -> (r: Result<(), ArcNetError>)
        requires
            old(self).wf(),
            add_block_outcome(*old(self), block) is Some,
        ensures
            final(self).wf(),
            Some(r) == add_block_outcome(*old(self), block),
            r is Err ==> final(self).blocks@ == old(self).blocks@ && final(self).target == old(
                self,
            ).target,
            r is Ok ==> final(self).blocks@ == old(self).blocks@.push(block) && Some(
                final(self).target@,
            ) == retarget_result(old(self).blocks@.push(block), old(self).target),
            r is Ok ==> (chain_linked(old(self).blocks@) ==> chain_linked(final(self).blocks@)),
            final(self).utxos == old(self).utxos,
            final(self).mempool == old(self).mempool,
    {
        let ghost b = block;
        match self.admission(&block) {
            Some(Ok(())) => {},
            Some(Err(e)) => {
                return Err(e);
            },
            None => {
                return Err(ArcNetError::InvalidBlock);
            },
        }
        self.blocks.push(block);
        self.try_adjust_target();
        proof {
            if chain_linked(old(self).blocks@) {
                law_add_block_keeps_chain_linked(*old(self), b);
            }
        }
        Ok(())
    }

    /// `add_block` where it can be computed; `None`, with the chain left as it is,
    /// where it cannot.
    pub fn add_block_checked(&mut self, block: Block) -> (r: Option<Result<(), ArcNetError>>)
        requires
            old(self).wf(),
        ensures
            final(self).wf(),
            r == add_block_outcome(*old(self), block),
            r matches Some(Ok(())) ==> final(self).blocks@ == old(self).blocks@.push(block) && Some(
                final(self).target@,
            ) == retarget_result(old(self).blocks@.push(block), old(self).target),
            r matches Some(Ok(())) ==> (chain_linked(old(self).blocks@) ==> chain_linked(
                final(self).blocks@,
            )),
            !(r matches Some(Ok(()))) ==> final(self).blocks@ == old(self).blocks@
                && final(self).target == old(self).target,
            final(self).utxos == old(self).utxos,
            final(self).mempool == old(self).mempool,
    {
        match self.admission(&block) {
            Some(Ok(())) => {},
            Some(Err(e)) => {
                return Some(Err(e));
            },
            None => {
                return None;
            },
        }
        if self.retarget_after(&block).is_none() {
            return None;
        }
        Some(self.add_block(block))
    }

    /// Replays every transaction of every block over the unspent outputs: the outputs
    /// it spends are removed, and each of its outputs is filed, unmarked, under the
    /// transaction's hash (so the last one stays).
    pub fn rebuild_utxos(&mut self)
        requires
            old(self).wf(),
        ensures
            final(self).wf(),
            final(self).utxos@ == replay_blocks(old(self).utxos@, old(self).blocks@),
            final(self).blocks == old(self).blocks,
            final(self).target == old(self).target,
            final(self).mempool == old(self).mempool,
    {
        let ghost m0 = self.utxos@;
        let nb = self.blocks.len();
        let mut i: usize = 0;
        while i < nb
            invariant
                i <= nb,
                nb == self.blocks@.len(),
                self.utxos.wf(),
                self.utxos@ == replay_blocks(m0, self.blocks@.take(i as int)),
                self.blocks == old(self).blocks,
                self.target == old(self).target,
                self.mempool == old(self).mempool,
            decreases nb - i,
        {
            let ghost base = self.utxos@;
            let ghost txs = self.blocks@[i as int]@.1;
            let nt = self.blocks[i].transactions.len();
            let mut k: usize = 0;
            while k < nt
                invariant
                    k <= nt,
                    i < nb,
                    nb == self.blocks@.len(),
                    nt == txs.len(),
                    txs == self.blocks@[i as int]@.1,
                    self.utxos.wf(),
                    self.utxos@ == replay_txs(base, txs.take(k as int)),
                    self.blocks == old(self).blocks,
                    self.target == old(self).target,
                    self.mempool == old(self).mempool,
                decreases nt - k,
            {
                let ghost before = self.utxos@;
                let ghost t = txs[k as int];
                let ni = self.blocks[i].transactions[k].input.len();
                assert(t == self.blocks@[i as int].transactions@[k as int]@);
                let mut j: usize = 0;
                while j < ni
                    invariant
                        j <= ni,
                        i < nb,
                        nb == self.blocks@.len(),
                        k < nt,
                        nt == self.blocks@[i as int].transactions@.len(),
                        t == self.blocks@[i as int].transactions@[k as int]@,
                        ni == input_hashes(t).len(),
                        self.utxos.wf(),
                        self.utxos@ == remove_spent(before, input_hashes(t).take(j as int)),
                        self.blocks == old(self).blocks,
                        self.target == old(self).target,
                        self.mempool == old(self).mempool,
                    decreases ni - j,
                {
                    let h = self.blocks[i].transactions[k].input[j].prev_transaction_output_hash;
                    assert(input_hashes(t)[j as int] == h);
                    self.utxos.remove(&h);
                    assert(input_hashes(t).take(j + 1).drop_last() =~= input_hashes(t).take(j as int));
                    j = j + 1;
                }
                assert(input_hashes(t).take(ni as int) =~= input_hashes(t));
                let ghost spent = self.utxos@;
                let no = self.blocks[i].transactions[k].output.len();
                if no > 0 {
                    let key = self.blocks[i].transactions[k].hash();
                    let mut j2: usize = 0;
                    while j2 < no
                        invariant
                            j2 <= no,
                            i < nb,
                            nb == self.blocks@.len(),
                            k < nt,
                            nt == self.blocks@[i as int].transactions@.len(),
                            t == self.blocks@[i as int].transactions@[k as int]@,
                            no == t.1.len(),
                            key == spec_tx_hash(t),
                            self.utxos.wf(),
                            self.utxos@ == file_outputs(spent, key, t.1.take(j2 as int)),
                            self.blocks == old(self).blocks,
                            self.target == old(self).target,
                            self.mempool == old(self).mempool,
                        decreases no - j2,
                    {
                        let o = self.blocks[i].transactions[k].output[j2];
                        assert(t.1[j2 as int] == o);
                        self.utxos.insert(key, false, o);
                        assert(t.1.take(j2 + 1).drop_last() =~= t.1.take(j2 as int));
                        j2 = j2 + 1;
                    }
                }
                assert(t.1.take(no as int) =~= t.1);
                assert(txs.take(k + 1).drop_last() =~= txs.take(k as int));
                k = k + 1;
            }
            assert(txs.take(nt as int) =~= txs);
            assert(self.blocks@.take(i + 1).drop_last() =~= self.blocks@.take(i as int));
            i = i + 1;
        }
        assert(self.blocks@.take(nb as int) =~= self.blocks@);
    }
}

/// An adjusted target stays within a quarter and four times the old one and never
/// exceeds the easiest target, when the old one did not.
pub proof fn law_target_bounds(target: U256, text: Seq<u8>)
    requires
        target@ <= min_target_value(),
    ensures
        clamped_target(target, text) matches Some(x) ==> target@ / 4 <= x <= min_target_value() && x <= target@
            * 4,
{
}

/// The target after any adjustment of a chain whose target is at most the easiest one
/// is still at most the easiest one.
pub proof fn law_retarget_stays_easiest_or_below(blocks: Seq<Block>, target: U256)
    requires
        target@ <= min_target_value(),
    ensures
        retarget_result(blocks, target) matches Some(x) ==> x <= min_target_value(),
{
}

/// A block that a non-empty chain accepts names the tip's hash, meets its target,
/// carries the Merkle root of its transactions, comes after the tip, and passes the
/// transaction checks at the chain's height; the genesis block has a zero header hash.
pub proof fn law_accepted_block(chain: Blockchain, block: Block)
    requires
        add_block_outcome(chain, block) == Some(Ok::<(), ArcNetError>(())),
    ensures
        chain.blocks@.len() == 0 ==> spec_header_hash(block.header).0@ == 0,
        chain.blocks@.len() > 0 ==> {
            &&& block.header.prev_block_hash.0@ == spec_block_hash(chain.blocks@.last()@).0@
            &&& header_matches(block.header)
            &&& block@.1.len() > 0
            &&& spec_merkle_root(block@.1) == block.header.markle_root.0
            &&& spec_before(chain.blocks@.last().header.timestamp, block.header.timestamp)
            &&& verify_outcome(block@, chain.blocks@.len() as u64, chain.utxos@) == Some(
                Ok::<(), ArcNetError>(()),
            )
        },
{
    let a = admission_outcome(chain.blocks@, chain.utxos@, block@);
    assert(a matches Some(Ok(_)));
    if chain.blocks@.len() > 0 {
        let v = verify_outcome(block@, chain.blocks@.len() as u64, chain.utxos@);
        assert(a == v);
        assert(v matches Some(Ok(u)) && u == ());
    }
}

/// A block that a chain accepts keeps it linked: where each block of the chain names
/// the hash of the one before and comes strictly later, the same holds once the block
/// is appended.
pub proof fn law_add_block_keeps_chain_linked(chain: Blockchain, block: Block)
    requires
        chain_linked(chain.blocks@),
        add_block_outcome(chain, block) == Some(Ok::<(), ArcNetError>(())),
    ensures
        chain_linked(chain.blocks@.push(block)),
{
    law_accepted_block(chain, block);
    let old_blocks = chain.blocks@;
    let longer = old_blocks.push(block);
    assert forall|i: int, j: int| 0 <= i && j == i + 1 && j < longer.len() implies #[trigger] links_to(
        longer[i],
        longer[j],
    ) by {
        if j < old_blocks.len() {
            assert(longer[i] == old_blocks[i] && longer[j] == old_blocks[j]);
            assert(links_to(old_blocks[i], old_blocks[j]));
        } else {
            assert(old_blocks.last() == longer[i]);
            assert(longer[j] == block);
        }
    }
}

/// Whether a transaction files outputs under hash `h`: it is its own hash and it has
/// outputs.
pub open spec fn files_under(t: TxView, h: sha256::Hash) -> bool {
    spec_tx_hash(t) == h && t.1.len() > 0
}

/// Whether the transaction at position `t` of block `b`, or one after it in the
/// chain, files outputs under `h`.
pub open spec fn filed_from(blocks: Seq<Block>, b: int, t: int, h: sha256::Hash) -> bool {
    exists|b2: int, t2: int|
        #![trigger blocks[b2]@.1[t2]]
        0 <= b2 < blocks.len() && 0 <= t2 < blocks[b2]@.1.len() && ((b2 == b && t <= t2) || b < b2)
            && files_under(blocks[b2]@.1[t2], h)
}

/// The hashes left after removing spent ones: those there before and not spent.
proof fn lemma_remove_spent_dom(m: Map<sha256::Hash, (bool, TransactionOutput)>, hs: Seq<sha256::Hash>, k: sha256::Hash)
    ensures
        remove_spent(m, hs).dom().contains(k) <==> (m.dom().contains(k) && !hs.contains(k)),
    decreases hs.len(),
{
    if hs.len() > 0 {
        lemma_remove_spent_dom(m, hs.drop_last(), k);
        assert(hs.contains(k) <==> (hs.drop_last().contains(k) || hs.last() == k)) by {
            if hs.contains(k) {
                let i = choose|i: int| 0 <= i < hs.len() && hs[i] == k;
                if i < hs.len() - 1 {
                    assert(hs.drop_last()[i] == k);
                }
            }
            if hs.drop_last().contains(k) {
                let i = choose|i: int| 0 <= i < hs.drop_last().len() && hs.drop_last()[i] == k;
                assert(hs[i] == k);
            }
        }
    }
}

/// The hashes after filing outputs: those there before, and the key where there is an
/// output to file.
proof fn lemma_file_outputs_dom(
    m: Map<sha256::Hash, (bool, TransactionOutput)>,
    key: sha256::Hash,
    outs: Seq<TransactionOutput>,
    k: sha256::Hash,
)
    ensures
        file_outputs(m, key, outs).dom().contains(k) <==> (m.dom().contains(k) || (k == key && outs.len()
            > 0)),
    decreases outs.len(),
{
    if outs.len() > 0 {
        lemma_file_outputs_dom(m, key, outs.drop_last(), k);
    }
}

/// A transaction's replay leaves a hash present only where it was present and not
/// spent by the transaction, or where the transaction files outputs under it.
pub proof fn law_replay_tx_keys(m: Map<sha256::Hash, (bool, TransactionOutput)>, t: TxView, k: sha256::Hash)
    ensures
        replay_tx(m, t).dom().contains(k) <==> ((m.dom().contains(k) && !input_hashes(t).contains(k))
            || files_under(t, k)),
{
    lemma_remove_spent_dom(m, input_hashes(t), k);
    lemma_file_outputs_dom(remove_spent(m, input_hashes(t)), spec_tx_hash(t), t.1, k);
}

/// Replaying transactions none of which files outputs under `h` keeps `h` absent.
proof fn lemma_replay_txs_keeps_absent(m: Map<sha256::Hash, (bool, TransactionOutput)>, txs: Seq<TxView>, h: sha256::Hash)
    requires
        !m.dom().contains(h),
        forall|i: int| 0 <= i < txs.len() ==> !files_under(#[trigger] txs[i], h),
    ensures
        !replay_txs(m, txs).dom().contains(h),
    decreases txs.len(),
{
    if txs.len() > 0 {
        lemma_replay_txs_keeps_absent(m, txs.drop_last(), h);
        law_replay_tx_keys(replay_txs(m, txs.drop_last()), txs.last(), h);
    }
}

/// Replaying transactions where the one at position `t` spends `h` and neither it nor
/// any after it files outputs under `h` leaves `h` absent.
proof fn lemma_replay_txs_removes(m: Map<sha256::Hash, (bool, TransactionOutput)>, txs: Seq<TxView>, t: int, h: sha256::Hash)
    requires
        0 <= t < txs.len(),
        input_hashes(txs[t]).contains(h),
        forall|i: int| t <= i < txs.len() ==> !files_under(#[trigger] txs[i], h),
    ensures
        !replay_txs(m, txs).dom().contains(h),
    decreases txs.len(),
{
    let prev = txs.drop_last();
    if t == txs.len() - 1 {
        law_replay_tx_keys(replay_txs(m, prev), txs.last(), h);
    } else {
        assert forall|i: int| t <= i < prev.len() implies !files_under(#[trigger] prev[i], h) by {
            assert(prev[i] == txs[i]);
        }
        assert(prev[t] == txs[t]);
        lemma_replay_txs_removes(m, prev, t, h);
        law_replay_tx_keys(replay_txs(m, prev), txs.last(), h);
    }
}

/// Rebuilding the unspent outputs (see `rebuild_utxos`, which replays every block over
/// them) leaves no output under a hash that an input of the chain spends, unless that
/// transaction or a later one in the chain files outputs under the same hash: spent
/// coins cannot be spent again.
pub proof fn law_replay_removes_spent(
    m: Map<sha256::Hash, (bool, TransactionOutput)>,
    blocks: Seq<Block>,
    b: int,
    t: int,
    h: sha256::Hash,
)
    requires
        0 <= b < blocks.len(),
        0 <= t < blocks[b]@.1.len(),
        input_hashes(blocks[b]@.1[t]).contains(h),
        !filed_from(blocks, b, t, h),
    ensures
        !replay_blocks(m, blocks).dom().contains(h),
    decreases blocks.len(),
{
    let prev = blocks.drop_last();
    let last = blocks.last()@.1;
    if b == blocks.len() - 1 {
        assert forall|i: int| t <= i < last.len() implies !files_under(#[trigger] last[i], h) by {
            if files_under(last[i], h) {
                assert(blocks[b]@.1[i] == last[i]);
                assert(filed_from(blocks, b, t, h));
            }
        }
        lemma_replay_txs_removes(replay_blocks(m, prev), last, t, h);
    } else {
        assert(prev[b] == blocks[b]);
        assert(!filed_from(prev, b, t, h)) by {
            if filed_from(prev, b, t, h) {
                let (b2, t2) = choose|b2: int, t2: int|
                    #![trigger prev[b2]@.1[t2]]
                    0 <= b2 < prev.len() && 0 <= t2 < prev[b2]@.1.len() && ((b2 == b && t <= t2) || b < b2)
                        && files_under(prev[b2]@.1[t2], h);
                assert(prev[b2] == blocks[b2]);
                assert(blocks[b2]@.1[t2] == prev[b2]@.1[t2]);
            }
        }
        law_replay_removes_spent(m, prev, b, t, h);
        assert forall|i: int| 0 <= i < last.len() implies !files_under(#[trigger] last[i], h) by {
            if files_under(last[i], h) {
                let lb = blocks.len() - 1;
                assert(blocks[lb]@.1[i] == last[i]);
                assert(filed_from(blocks, b, t, h));
            }
        }
        lemma_replay_txs_keeps_absent(replay_blocks(m, prev), last, h);
    }
}

/// The target adjustment looks only at the last interval of blocks: two chains of the
/// same length whose blocks opening and closing that interval carry the same
/// timestamps get the same new target from the same old one, whatever came earlier.
pub proof fn law_retarget_uses_last_interval(b1: Seq<Block>, b2: Seq<Block>, target: U256)
    requires
        b1.len() == b2.len(),
        b1.len() >= DIFFICULTY_UPDATE_INTERVAL ==> {
            &&& b1[b1.len() - DIFFICULTY_UPDATE_INTERVAL].header.timestamp == b2[b2.len()
                - DIFFICULTY_UPDATE_INTERVAL].header.timestamp
            &&& b1.last().header.timestamp == b2.last().header.timestamp
        },
    ensures
        retarget_result(b1, target) == retarget_result(b2, target),
{
}

/// Where the length is not a positive multiple of the interval the target stays; the
/// adjustment runs once per interval.
pub proof fn law_retarget_only_at_interval_ends(blocks: Seq<Block>, target: U256)
    requires
        blocks.len() % (DIFFICULTY_UPDATE_INTERVAL as nat) != 0,
    ensures
        retarget_result(blocks, target) == Some(target@),
{
}

} // verus!
