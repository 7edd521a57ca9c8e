//! What a node does with a request: a step from the chain and a message to the
//! changed chain and the action to take. The connection loop that reads messages
//! and performs the actions lives with the node program.

use vstd::prelude::*;
use crate::crypto::PublicKey;
use crate::error::ArcNetError;
use crate::network::Message;
use crate::sha256;
use crate::timestamp::Timestamp;
use crate::types::block::{Block, BlockHeader, BlockView, miners_fee_outcome, spec_block_hash, subsidy};
use crate::types::blockchain::{Blockchain, add_block_outcome, replay_blocks, retarget_result};
use crate::types::mempool::{PoolEntry, mempool_admits, mempool_result, pool_view};
use crate::types::transaction::{InputView, Transaction, TransactionOutput, TxView};
use crate::types::utxos::UtxoEntry;
use crate::u256::U256;
use crate::util::{MarkleRoot, spec_merkle_root};
use crate::{BLOCK_TRANSACTION_CAP, HALVING_INTERVAL};

verus! {

/// What the connection loop does after a request.
#[derive(Debug)]
pub enum NodeAction {
    /// Send the message back to the peer, then read the next request.
    Reply(Message),
    /// Send the message to every known node, then read the next request.
    Broadcast(Message),
    /// Send the list of known nodes back to the peer, then read the next request.
    SendNodeList,
    /// Read the next request.
    Continue,
    /// Close the connection.
    Close,
    /// The request cannot be answered (an amount leaves its integer type, or a
    /// block or transaction cannot be checked): stop handling the connection.
    Fault,
}

/// The hash that a new block must name: the last block's, or zero for the genesis block.
pub open spec fn tip_hash(blocks: Seq<Block>) -> sha256::Hash {
    if blocks.len() == 0 {
        sha256::Hash(U256 { l0: 0, l1: 0, l2: 0, l3: 0 })
    } else {
        spec_block_hash(blocks.last()@)
    }
}

/// The coinbase of a template: no inputs, one output of `value` to `pub_key`.
pub open spec fn coinbase_view(pub_key: PublicKey, unique_id: [u8; 16], value: u64) -> TxView {
    (Seq::<InputView>::empty(), seq![TransactionOutput { value, unique_id, pub_key }])
}

/// A template's transactions: the coinbase, then the first mempool transactions up to
/// the cap.
pub open spec fn template_txs(pool: Seq<PoolEntry>, pub_key: PublicKey, unique_id: [u8; 16], value: u64) -> Seq<TxView> {
    let taken = if pool.len() <= BLOCK_TRANSACTION_CAP {
        pool
    } else {
        pool.take(BLOCK_TRANSACTION_CAP as int)
    };
    seq![coinbase_view(pub_key, unique_id, value)] + taken.map_values(|e: PoolEntry| e.1)
}

/// The block template for a miner's key at `now`: the coinbase pays the subsidy at the
/// chain's height plus the fee of the mempool transactions taken; the header names the
/// tip, holds the Merkle root and the chain's target, and starts with nonce zero.
/// `Err` where the fee cannot be taken; `None` where an amount leaves `u64`.
pub open spec fn template_outcome(chain: Blockchain, pub_key: PublicKey, now: Timestamp, unique_id: [u8; 16]) -> Option<
    Result<BlockView, ArcNetError>,
> {
    let pool = pool_view(chain.mempool@);
    let height = chain.blocks@.len();
    match miners_fee_outcome(template_txs(pool, pub_key, unique_id, 0), chain.utxos@) {
        None => None,
        Some(Err(e)) => Some(Err(e)),
        Some(Ok(fee)) => {
            if height / (HALVING_INTERVAL as nat) >= 64 || fee + subsidy(height / (HALVING_INTERVAL as nat))
                > u64::MAX {
                None
            } else {
                let txs = template_txs(
                    pool,
                    pub_key,
                    unique_id,
                    (fee + subsidy(height / (HALVING_INTERVAL as nat))) as u64,
                );
                Some(
                    Ok(
                        (
                            BlockHeader {
                                timestamp: now,
                                nonce: 0,
                                prev_block_hash: tip_hash(chain.blocks@),
                                markle_root: MarkleRoot(spec_merkle_root(txs)),
                                target: chain.target,
                            },
                            txs,
                        ),
                    ),
                )
            }
        },
    }
}

/// The unspent outputs locked to a key, each with its mark, in the set's order.
pub open spec fn owned_utxos(entries: Seq<UtxoEntry>, key: PublicKey) -> Seq<(TransactionOutput, bool)>
    decreases entries.len(),
{
    if entries.len() == 0 {
        Seq::empty()
    } else {
        let prev = owned_utxos(entries.drop_last(), key);
        if entries.last().output.pub_key.bytes@ == key.bytes@ {
            prev.push((entries.last().output, entries.last().marked))
        } else {
            prev
        }
    }
}

/// Whether two chains hold the same blocks, unspent outputs, target and mempool.
pub open spec fn same_chain(a: Blockchain, b: Blockchain) -> bool {
    &&& a.blocks@ == b.blocks@
    &&& a.utxos@ == b.utxos@
    &&& a.target == b.target
    &&& pool_view(a.mempool@) == pool_view(b.mempool@)
}

/// The coinbase of a template.
fn coinbase(pub_key: PublicKey, unique_id: [u8; 16], value: u64) -> (r: Transaction)
    ensures
        r@ == coinbase_view(pub_key, unique_id, value),
{
    let mut output: Vec<TransactionOutput> = Vec::new();
    output.push(TransactionOutput { value, unique_id, pub_key });
    let r = Transaction { input: Vec::new(), output };
    assert(r@.0 =~= Seq::<InputView>::empty());
    assert(r@.1 =~= seq![TransactionOutput { value, unique_id, pub_key }]);
    r
}

/// A template's transactions.
fn template_transactions(
    chain: &Blockchain,
    pub_key: PublicKey,
    unique_id: [u8; 16],
    value: u64,
) -> (r: Vec<Transaction>)
    ensures
        r@.map_values(|t: Transaction| t@) == template_txs(pool_view(chain.mempool@), pub_key, unique_id, value),
        r@.len() >= 1,
{
    let ghost pool = pool_view(chain.mempool@);
    let ghost want = template_txs(pool, pub_key, unique_id, value);
    let n = if chain.mempool.len() <= BLOCK_TRANSACTION_CAP {
        chain.mempool.len()
    } else {
        BLOCK_TRANSACTION_CAP
    };
    let mut txs: Vec<Transaction> = Vec::new();
    txs.push(coinbase(pub_key, unique_id, value));
    let mut i: usize = 0;
    while i < n
        invariant
            i <= n,
            n <= chain.mempool@.len(),
            n == want.len() - 1,
            pool == pool_view(chain.mempool@),
            want == template_txs(pool, pub_key, unique_id, value),
            txs@.len() == i + 1,
            forall|k: int| 0 <= k <= i ==> (#[trigger] txs@[k])@ == want[k],
        decreases n - i,
    {
        assert(want[i + 1] == pool[i as int].1);
        txs.push(chain.mempool[i].1.copy());
        i = i + 1;
    }
    assert(txs@.map_values(|t: Transaction| t@) =~= want);
    txs
}

/// The block template for a miner's key at `now` (see `template_outcome`).
pub fn block_template(chain: &Blockchain, pub_key: PublicKey, now: Timestamp, unique_id: [u8; 16]) -> (r: Option<
    Result<Block, ArcNetError>,
>)
    requires
        chain.wf(),
    ensures
        r is Some <==> template_outcome(*chain, pub_key, now, unique_id) is Some,
        r matches Some(Err(e)) ==> template_outcome(*chain, pub_key, now, unique_id) == Some(
            Err::<BlockView, ArcNetError>(e),
        ),
        r matches Some(Ok(b)) ==> template_outcome(*chain, pub_key, now, unique_id) == Some(
            Ok::<BlockView, ArcNetError>(b@),
        ),
{
    let prev = if chain.blocks.len() == 0 {
        sha256::Hash::zero()
    } else {
        chain.blocks[chain.blocks.len() - 1].hash()
    };
    assert(prev == tip_hash(chain.blocks@));
    let txs0 = template_transactions(chain, pub_key, unique_id, 0);
    let root0 = MarkleRoot::calculate(txs0.as_slice());
    let draft = Block {
        header: BlockHeader { timestamp: now, nonce: 0, prev_block_hash: prev, markle_root: root0, target: chain.target },
        transactions: txs0,
    };
    let fee = match draft.fee_outcome(&chain.utxos) {
        None => {
            return None;
        },
        Some(Err(e)) => {
            return Some(Err(e));
        },
        Some(Ok(f)) => f,
    };
    let height = chain.block_height();
    if height / HALVING_INTERVAL >= 64 {
        return None;
    }
    let reward = chain.calculate_block_reward();
    let value = match fee.checked_add(reward) {
        None => {
            return None;
        },
        Some(v) => v,
    };
    let txs = template_transactions(chain, pub_key, unique_id, value);
    let root = MarkleRoot::calculate(txs.as_slice());
    let b = Block {
        header: BlockHeader { timestamp: now, nonce: 0, prev_block_hash: prev, markle_root: root, target: chain.target },
        transactions: txs,
    };
    Some(Ok(b))
}

/// The unspent outputs locked to a key, each with its mark.
pub fn utxos_of(chain: &Blockchain, key: &PublicKey) -> (r: Vec<(TransactionOutput, bool)>)
    ensures
        r@ == owned_utxos(chain.utxos.entries@, *key),
{
    let ghost es = chain.utxos.entries@;
    let mut out: Vec<(TransactionOutput, bool)> = Vec::new();
    let mut i: usize = 0;
    while i < chain.utxos.entries.len()
        invariant
            i <= es.len(),
            es == chain.utxos.entries@,
            out@ == owned_utxos(es.take(i as int), *key),
        decreases es.len() - i,
    {
        let e = chain.utxos.entries[i];
        assert(es.take(i + 1).drop_last() =~= es.take(i as int));
        if e.output.pub_key.equals(key) {
            out.push((e.output, e.marked));
        }
        i = i + 1;
    }
    assert(es.take(es.len() as int) =~= es);
    out
}

/// Whether a template still extends the chain's tip.
pub fn template_is_current(chain: &Blockchain, block: &Block) -> (r: bool)
    ensures
        r == (block.header.prev_block_hash.0@ == tip_hash(chain.blocks@).0@),
{
    let tip = if chain.blocks.len() == 0 {
        sha256::Hash::zero()
    } else {
        chain.blocks[chain.blocks.len() - 1].hash()
    };
    block.header.prev_block_hash.equals(&tip)
}

/// How many more blocks the chain has than `height`, both taken as `i32`.
pub fn height_difference(chain: &Blockchain, height: u32) -> (r: i32)
    requires
        i32::MIN <= ((chain.blocks@.len() as u64) as i32) - (height as i32) <= i32::MAX,
    ensures
        r == ((chain.blocks@.len() as u64) as i32) - (height as i32),
{
    let a = chain.block_height() as i32;
    let b = height as i32;
    a - b
}

/// What handling a request did: the chain after, and the action, for the chain before,
/// the request, the time `now` and the id for a template's coinbase output.
pub open spec fn handled(
    before: Blockchain,
    after: Blockchain,
    msg: Message,
    now: Timestamp,
    unique_id: [u8; 16],
    r: NodeAction,
) -> bool {
    match msg {
        Message::FetchBlock(h) => {
            &&& same_chain(before, after)
            &&& h < before.blocks@.len() ==> (r matches NodeAction::Reply(Message::NewBlock(b)) && b@
                == before.blocks@[h as int]@)
            &&& h >= before.blocks@.len() ==> r is Close
        },
        Message::FetchUTXOs(key) => {
            &&& same_chain(before, after)
            &&& r matches NodeAction::Reply(Message::UTXOs(v)) && v@ == owned_utxos(
                before.utxos.entries@,
                key,
            )
        },
        Message::SubmitTransaction(tx) | Message::NewTransaction(tx) => {
            let pool = pool_view(before.mempool@);
            if !mempool_admits(before.utxos@, pool, tx@) {
                same_chain(before, after) && r is Fault
            } else {
                let res = mempool_result(before.utxos@, pool, tx@, now);
                &&& after.blocks@ == before.blocks@
                &&& after.target == before.target
                &&& after.utxos@ == res.1
                &&& pool_view(after.mempool@) == res.2
                &&& res.0 is Err ==> r is Close
                &&& res.0 is Ok ==> if msg is SubmitTransaction {
                    (r matches NodeAction::Broadcast(Message::NewTransaction(t)) && t@ == tx@)
                } else {
                    r is Continue
                }
            }
        },
        Message::FetchTemplate(key) => {
            &&& same_chain(before, after)
            &&& match template_outcome(before, key, now, unique_id) {
                None => r is Fault,
                Some(Err(_)) => r is Close,
                Some(Ok(bv)) => r matches NodeAction::Reply(Message::Template(b)) && b@ == bv,
            }
        },
        Message::ValidateTemplate(b) => {
            &&& same_chain(before, after)
            &&& r matches NodeAction::Reply(Message::TemplateValidity(v)) && v == (
            b.header.prev_block_hash.0@ == tip_hash(before.blocks@).0@)
        },
        Message::SubmitTemplate(b) | Message::NewBlock(b) => {
            match add_block_outcome(before, b) {
                None => same_chain(before, after) && r is Fault,
                Some(Err(_)) => {
                    &&& same_chain(before, after)
                    &&& if msg is SubmitTemplate {
                        r is Close
                    } else {
                        r is Continue
                    }
                },
                Some(Ok(())) => {
                    &&& after.blocks@ == before.blocks@.push(b)
                    &&& Some(after.target@) == retarget_result(before.blocks@.push(b), before.target)
                    &&& pool_view(after.mempool@) == pool_view(before.mempool@)
                    &&& if msg is SubmitTemplate {
                        &&& after.utxos@ == replay_blocks(before.utxos@, before.blocks@.push(b))
                        &&& r matches NodeAction::Broadcast(Message::NewBlock(b2)) && b2@ == b@
                    } else {
                        after.utxos@ == before.utxos@ && r is Continue
                    }
                },
            }
        },
        Message::DiscoverNodes => same_chain(before, after) && r is SendNodeList,
        Message::AskDifference(h) => {
            let d = ((before.blocks@.len() as u64) as i32) - (h as i32);
            &&& same_chain(before, after)
            &&& (i32::MIN <= d <= i32::MAX) ==> (r matches NodeAction::Reply(Message::Difference(x))
                && x == d)
            &&& !(i32::MIN <= d <= i32::MAX) ==> r is Fault
        },
        _ => same_chain(before, after) && r is Close,
    }
}

/// Handles one request on a connection: reads or changes the chain and says what to
/// do next (see `handled`). `now` is the time and `unique_id` the id of a template's
/// coinbase output.
pub fn handle_message(chain: &mut Blockchain, msg: Message, now: Timestamp, unique_id: [u8; 16]) -> (r: NodeAction)
    requires
        old(chain).wf(),
    ensures
        final(chain).wf(),
        handled(*old(chain), *final(chain), msg, now, unique_id, r),
{
    match msg {
        Message::FetchBlock(h) => {
            if h < chain.blocks.len() {
                NodeAction::Reply(Message::NewBlock(chain.blocks[h].copy()))
            } else {
                NodeAction::Close
            }
        },
        Message::FetchUTXOs(key) => NodeAction::Reply(Message::UTXOs(utxos_of(chain, &key))),
        Message::SubmitTransaction(tx) => {
            let copy = tx.copy();
            match chain.add_to_mempool_checked_at(tx, now) {
                None => NodeAction::Fault,
                Some(Err(_)) => NodeAction::Close,
                Some(Ok(())) => NodeAction::Broadcast(Message::NewTransaction(copy)),
            }
        },
        Message::NewTransaction(tx) => {
            match chain.add_to_mempool_checked_at(tx, now) {
                None => NodeAction::Fault,
                Some(Err(_)) => NodeAction::Close,
                Some(Ok(())) => NodeAction::Continue,
            }
        },
        Message::FetchTemplate(key) => {
            match block_template(chain, key, now, unique_id) {
                None => NodeAction::Fault,
                Some(Err(_)) => NodeAction::Close,
                Some(Ok(b)) => NodeAction::Reply(Message::Template(b)),
            }
        },
        Message::ValidateTemplate(b) => NodeAction::Reply(Message::TemplateValidity(template_is_current(chain, &b))),
        Message::SubmitTemplate(b) => {
            let copy = b.copy();
            match chain.add_block_checked(b) {
                None => NodeAction::Fault,
                Some(Err(_)) => NodeAction::Close,
                Some(Ok(())) => {
                    chain.rebuild_utxos();
                    NodeAction::Broadcast(Message::NewBlock(copy))
                },
            }
        },
        Message::NewBlock(b) => {
            match chain.add_block_checked(b) {
                None => NodeAction::Fault,
                _ => NodeAction::Continue,
            }
        },
        Message::DiscoverNodes => NodeAction::SendNodeList,
        Message::AskDifference(h) => {
            let a = chain.block_height() as i32;
            let b = h as i32;
            match a.checked_sub(b) {
                Some(d) => NodeAction::Reply(Message::Difference(d)),
                None => NodeAction::Fault,
            }
        },
        _ => NodeAction::Close,
    }
}

} // verus!
