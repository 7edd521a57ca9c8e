//! The mempool's rules: which transactions it admits, how a new transaction releases
//! outputs that older mempool transactions had claimed, the order by miner's fee, and
//! the removal of old transactions.

use vstd::prelude::*;
use crate::error::ArcNetError;
use crate::sha256;
use crate::timestamp::Timestamp;
use crate::types::block::{all_known, input_hashes, outputs_value, spent_value, hashes_contain, total_output_value};
use crate::types::transaction::{Transaction, TxView, spec_output_hash};
use crate::types::blockchain::Blockchain;
use crate::types::utxos::{UtxoMap, UtxoSet};
use crate::timestamp::{spec_younger_than, younger_than};
use crate::MAX_MEMPOOL_TRANSACTION_AGE;
use crate::u256::lemma_u256_view_injective;

verus! {

/// A mempool entry as a value: when it was received, and the transaction.
pub type PoolEntry = (Timestamp, TxView);

/// The mempool as values.
pub open spec fn pool_view(p: Seq<(Timestamp, Transaction)>) -> Seq<PoolEntry> {
    p.map_values(|e: (Timestamp, Transaction)| (e.0, e.1@))
}

/// Whether a transaction creates an output with the hash.
pub open spec fn creates(t: TxView, h: sha256::Hash) -> bool {
    exists|j: int| 0 <= j < t.1.len() && spec_output_hash(#[trigger] t.1[j]) == h
}

/// The position, from `i` on, of the first mempool transaction that creates an output
/// with the hash; the mempool's length where none does.
pub open spec fn first_creator(pool: Seq<PoolEntry>, h: sha256::Hash, i: int) -> int
    decreases pool.len() - i,
{
    if i < 0 || i >= pool.len() {
        pool.len() as int
    } else if creates(pool[i].1, h) {
        i
    } else {
        first_creator(pool, h, i + 1)
    }
}

/// Releasing a marked output that a new transaction spends: the first mempool
/// transaction that creates an output with that hash leaves the mempool (the mark goes
/// unless that transaction spends nothing); where none does, the mark just goes.
pub open spec fn release(m: UtxoMap, pool: Seq<PoolEntry>, h: sha256::Hash) -> (UtxoMap, Seq<PoolEntry>) {
    if !(m.contains_key(h) && m[h].0) {
        (m, pool)
    } else {
        let idx = first_creator(pool, h, 0);
        let unmarked = m.insert(h, (false, m[h].1));
        if idx < pool.len() {
            (
                if pool[idx].1.0.len() > 0 {
                    unmarked
                } else {
                    m
                },
                pool.remove(idx),
            )
        } else {
            (unmarked, pool)
        }
    }
}

/// Releasing the outputs under the hashes, in order.
pub open spec fn release_all(m: UtxoMap, pool: Seq<PoolEntry>, hs: Seq<sha256::Hash>) -> (UtxoMap, Seq<PoolEntry>)
    decreases hs.len(),
{
    if hs.len() == 0 {
        (m, pool)
    } else {
        let prev = release_all(m, pool, hs.drop_last());
        release(prev.0, prev.1, hs.last())
    }
}

/// Setting the mark of the unspent outputs under the hashes, in order (a hash that is
/// no key is passed over).
pub open spec fn set_marks(m: UtxoMap, hs: Seq<sha256::Hash>, marked: bool) -> UtxoMap
    decreases hs.len(),
{
    if hs.len() == 0 {
        m
    } else {
        let prev = set_marks(m, hs.drop_last(), marked);
        if prev.contains_key(hs.last()) {
            prev.insert(hs.last(), (marked, prev[hs.last()].1))
        } else {
            prev
        }
    }
}

/// Whether a transaction's miner's fee can be computed: every output it spends is
/// unspent, and the sums stay in `u64` with no more paid than spent.
pub open spec fn fee_defined(t: TxView, m: UtxoMap) -> bool {
    &&& all_known(input_hashes(t), m)
    &&& spent_value(input_hashes(t), m) <= u64::MAX
    &&& outputs_value(t.1) <= spent_value(input_hashes(t), m)
}

/// A transaction's miner's fee: the value it spends less the value it pays.
pub open spec fn fee_of(t: TxView, m: UtxoMap) -> int {
    spent_value(input_hashes(t), m) - outputs_value(t.1)
}

/// The number of leading entries whose fee is at most `k`: where an entry with fee `k`
/// goes in a list sorted by fee, after the entries with an equal fee.
pub open spec fn insert_pos(sorted: Seq<PoolEntry>, k: int, m: UtxoMap) -> int
    decreases sorted.len(),
{
    if sorted.len() == 0 {
        0
    } else if fee_of(sorted[0].1, m) > k {
        0
    } else {
        1 + insert_pos(sorted.drop_first(), k, m)
    }
}

/// The entries stably sorted by miner's fee, lowest first: each entry, in order, goes
/// after the entries before it with a fee at most its own.
pub open spec fn sort_by_fee(p: Seq<PoolEntry>, m: UtxoMap) -> Seq<PoolEntry>
    decreases p.len(),
{
    if p.len() == 0 {
        p
    } else {
        let s = sort_by_fee(p.drop_last(), m);
        s.insert(insert_pos(s, fee_of(p.last().1, m), m), p.last())
    }
}

/// Whether a transaction's inputs can enter the mempool: each spends an unspent
/// output, and no two spend the same one.
pub open spec fn inputs_valid(tx: TxView, m: UtxoMap) -> bool {
    all_known(input_hashes(tx), m) && input_hashes(tx).no_duplicates()
}

/// Whether offering a transaction to the mempool runs to an answer: the sums of what it
/// spends and pays stay in `u64`, and where it is admitted to a mempool that already
/// holds transactions, every fee in the mempool (its own included) can be computed for
/// the sort.
pub open spec fn mempool_admits(m: UtxoMap, pool: Seq<PoolEntry>, tx: TxView) -> bool {
    let hs = input_hashes(tx);
    if !inputs_valid(tx, m) {
        true
    } else {
        let released = release_all(m, pool, hs);
        if spent_value(hs, released.0) > u64::MAX || outputs_value(tx.1) > u64::MAX {
            false
        } else if outputs_value(tx.1) > spent_value(hs, released.0) {
            true
        } else {
            let marked = set_marks(released.0, hs, true);
            released.1.len() == 0 || (fee_defined(tx, marked) && forall|i: int|
                0 <= i < released.1.len() ==> fee_defined(#[trigger] released.1[i].1, marked))
        }
    }
}

/// Offering a transaction to the mempool at time `now`: the answer, the unspent outputs
/// and the mempool after. A transaction with an unknown or repeated input is refused and
/// nothing changes. Otherwise the marked outputs it spends are released; then it is
/// refused if it pays more than it spends (the releases stay), or else its inputs are
/// marked, it joins the mempool, and the mempool is sorted by fee.
pub open spec fn mempool_result(m: UtxoMap, pool: Seq<PoolEntry>, tx: TxView, now: Timestamp) -> (
    Result<(), ArcNetError>,
    UtxoMap,
    Seq<PoolEntry>,
) {
    let hs = input_hashes(tx);
    if !inputs_valid(tx, m) {
        (Err(ArcNetError::InvalidTransaction), m, pool)
    } else {
        let released = release_all(m, pool, hs);
        if outputs_value(tx.1) > spent_value(hs, released.0) {
            (Err(ArcNetError::InvalidTransaction), released.0, released.1)
        } else {
            let marked = set_marks(released.0, hs, true);
            (Ok(()), marked, sort_by_fee(released.1.push((now, tx)), marked))
        }
    }
}

/// Releasing keeps the keys of the unspent outputs.
pub proof fn lemma_release_all_keys(m: UtxoMap, pool: Seq<PoolEntry>, hs: Seq<sha256::Hash>)
    ensures
        release_all(m, pool, hs).0.dom() == m.dom(),
        forall|h: sha256::Hash|
            #[trigger] release_all(m, pool, hs).0.contains_key(h) ==> release_all(m, pool, hs).0[h].1
                == m[h].1,
    decreases hs.len(),
{
    if hs.len() > 0 {
        lemma_release_all_keys(m, pool, hs.drop_last());
        let prev = release_all(m, pool, hs.drop_last());
        let h = hs.last();
        if prev.0.contains_key(h) && prev.0[h].0 {
            assert(prev.0.insert(h, (false, prev.0[h].1)).dom() =~= prev.0.dom());
        }
    }
}

/// Setting marks keeps the keys and outputs of the unspent outputs.
pub proof fn lemma_set_marks_keys(m: UtxoMap, hs: Seq<sha256::Hash>, marked: bool)
    ensures
        set_marks(m, hs, marked).dom() == m.dom(),
        forall|h: sha256::Hash|
            #[trigger] set_marks(m, hs, marked).contains_key(h) ==> set_marks(m, hs, marked)[h].1 == m[h].1,
    decreases hs.len(),
{
    if hs.len() > 0 {
        lemma_set_marks_keys(m, hs.drop_last(), marked);
        let prev = set_marks(m, hs.drop_last(), marked);
        if prev.contains_key(hs.last()) {
            assert(prev.insert(hs.last(), (marked, prev[hs.last()].1)).dom() =~= prev.dom());
        }
    }
}

/// The value spent is the same under maps that agree on the outputs.
pub proof fn lemma_spent_value_same(hs: Seq<sha256::Hash>, m1: UtxoMap, m2: UtxoMap)
    requires
        all_known(hs, m1),
        forall|h: sha256::Hash| #[trigger] m1.contains_key(h) ==> m2.contains_key(h) && m2[h].1 == m1[h].1,
    ensures
        spent_value(hs, m1) == spent_value(hs, m2),
    decreases hs.len(),
{
    if hs.len() > 0 {
        assert(m1.contains_key(hs[hs.len() - 1]));
        lemma_spent_value_same(hs.drop_last(), m1, m2);
    }
}

/// The value of the first hashes is at most the value of them all.
pub proof fn lemma_spent_value_prefix(hs: Seq<sha256::Hash>, m: UtxoMap, a: int)
    requires
        0 <= a <= hs.len(),
    ensures
        spent_value(hs.take(a), m) <= spent_value(hs, m),
    decreases hs.len(),
{
    if a < hs.len() {
        lemma_spent_value_prefix(hs.drop_last(), m, a);
        assert(hs.drop_last().take(a) =~= hs.take(a));
    } else {
        assert(hs.take(a) =~= hs);
    }
}

/// Whether a transaction creates an output with the hash.
fn tx_creates(t: &Transaction, h: &sha256::Hash) -> (r: bool)
    ensures
        r == creates(t@, *h),
{
    let mut j: usize = 0;
    while j < t.output.len()
        invariant
            j <= t.output@.len(),
            forall|i: int| 0 <= i < j ==> spec_output_hash(#[trigger] t@.1[i]) != *h,
        decreases t.output@.len() - j,
    {
        let oh = t.output[j].hash();
        if oh.equals(h) {
            proof {
                lemma_u256_view_injective(oh.0, h.0);
                assert(spec_output_hash(t@.1[j as int]) == *h);
            }
            return true;
        }
        j = j + 1;
    }
    false
}

/// The position of the first mempool transaction that creates an output with the hash.
fn find_creator(pool: &Vec<(Timestamp, Transaction)>, h: &sha256::Hash) -> (r: usize)
    ensures
        r == first_creator(pool_view(pool@), *h, 0),
{
    let ghost pv = pool_view(pool@);
    let mut i: usize = 0;
    while i < pool.len()
        invariant
            i <= pool@.len(),
            pv == pool_view(pool@),
            first_creator(pv, *h, 0) == first_creator(pv, *h, i as int),
        decreases pool@.len() - i,
    {
        assert(pv[i as int].1 == pool@[i as int].1@);
        if tx_creates(&pool[i].1, h) {
            return i;
        }
        i = i + 1;
    }
    i
}

/// Whether every input spends an unspent output, none twice.
fn inputs_admissible(utxos: &UtxoSet, tx: &Transaction) -> (r: bool)
    requires
        utxos.wf(),
    ensures
        r == inputs_valid(tx@, utxos@),
{
    let ghost hs = input_hashes(tx@);
    let mut known: Vec<sha256::Hash> = Vec::new();
    let mut j: usize = 0;
    while j < tx.input.len()
        invariant
            j <= tx.input@.len(),
            hs == input_hashes(tx@),
            hs.len() == tx.input@.len(),
            utxos.wf(),
            known@ == hs.take(j as int),
            all_known(known@, utxos@),
            known@.no_duplicates(),
        decreases tx.input@.len() - j,
    {
        let h = tx.input[j].prev_transaction_output_hash;
        assert(hs[j as int] == h);
        if !utxos.contains_key(&h) {
            assert(!all_known(hs, utxos@));
            return false;
        }
        if hashes_contain(&known, &h) {
            proof {
                let t = choose|t: int| 0 <= t < known@.len() && known@[t] == h;
                assert(hs[t] == h);
            }
            return false;
        }
        known.push(h);
        assert(known@ =~= hs.take(j + 1));
        j = j + 1;
    }
    assert(hs.take(hs.len() as int) =~= hs);
    true
}

/// Releases the marked outputs that the transaction spends (see `release`).
fn release_inputs(utxos: &mut UtxoSet, pool: &mut Vec<(Timestamp, Transaction)>, tx: &Transaction)
    requires
        old(utxos).wf(),
    ensures
        final(utxos).wf(),
        (final(utxos)@, pool_view(final(pool)@)) == release_all(
            old(utxos)@,
            pool_view(old(pool)@),
            input_hashes(tx@),
        ),
{
    let ghost hs = input_hashes(tx@);
    let ghost m0 = utxos@;
    let ghost p0 = pool_view(pool@);
    let mut j: usize = 0;
    assert(hs.take(0) =~= Seq::<sha256::Hash>::empty());
    while j < tx.input.len()
        invariant
            j <= tx.input@.len(),
            hs == input_hashes(tx@),
            hs.len() == tx.input@.len(),
            utxos.wf(),
            (utxos@, pool_view(pool@)) == release_all(m0, p0, hs.take(j as int)),
        decreases tx.input@.len() - j,
    {
        let h = tx.input[j].prev_transaction_output_hash;
        assert(hs[j as int] == h);
        assert(hs.take(j + 1).drop_last() =~= hs.take(j as int));
        let ghost before = (utxos@, pool_view(pool@));
        match utxos.get(&h) {
            Some((true, _)) => {
                let idx = find_creator(pool, &h);
                if idx < pool.len() {
                    if pool[idx].1.input.len() > 0 {
                        utxos.set_marked(&h, false);
                    }
                    let ghost pv = pool_view(pool@);
                    assert(pv[idx as int].1 == pool@[idx as int].1@);
                    pool.remove(idx);
                    assert(pool_view(pool@) =~= pv.remove(idx as int));
                } else {
                    utxos.set_marked(&h, false);
                }
            },
            _ => {},
        }
        assert((utxos@, pool_view(pool@)) == release(before.0, before.1, h));
        j = j + 1;
    }
    assert(hs.take(hs.len() as int) =~= hs);
}

/// Marks the outputs that the transaction spends as claimed.
fn mark_inputs(utxos: &mut UtxoSet, tx: &Transaction)
    requires
        old(utxos).wf(),
    ensures
        final(utxos).wf(),
        final(utxos)@ == set_marks(old(utxos)@, input_hashes(tx@), true),
{
    let ghost hs = input_hashes(tx@);
    let ghost m0 = utxos@;
    let mut j: usize = 0;
    assert(hs.take(0) =~= Seq::<sha256::Hash>::empty());
    while j < tx.input.len()
        invariant
            j <= tx.input@.len(),
            hs == input_hashes(tx@),
            hs.len() == tx.input@.len(),
            utxos.wf(),
            utxos@ == set_marks(m0, hs.take(j as int), true),
        decreases tx.input@.len() - j,
    {
        let h = tx.input[j].prev_transaction_output_hash;
        assert(hs[j as int] == h);
        assert(hs.take(j + 1).drop_last() =~= hs.take(j as int));
        utxos.set_marked(&h, true);
        j = j + 1;
    }
    assert(hs.take(hs.len() as int) =~= hs);
}

/// The value that a transaction spends, `None` where it leaves `u64`.
fn input_value(utxos: &UtxoSet, tx: &Transaction) -> (r: Option<u64>)
    requires
        utxos.wf(),
        all_known(input_hashes(tx@), utxos@),
    ensures
        r is Some <==> spent_value(input_hashes(tx@), utxos@) <= u64::MAX,
        r matches Some(v) ==> v == spent_value(input_hashes(tx@), utxos@),
{
    let ghost hs = input_hashes(tx@);
    let mut total: u64 = 0;
    let mut j: usize = 0;
    assert(hs.take(0) =~= Seq::<sha256::Hash>::empty());
    while j < tx.input.len()
        invariant
            j <= tx.input@.len(),
            hs == input_hashes(tx@),
            hs.len() == tx.input@.len(),
            utxos.wf(),
            all_known(hs, utxos@),
            total == spent_value(hs.take(j as int), utxos@),
        decreases tx.input@.len() - j,
    {
        let h = tx.input[j].prev_transaction_output_hash;
        assert(hs[j as int] == h);
        assert(hs.take(j + 1).drop_last() =~= hs.take(j as int));
        assert(utxos@.contains_key(h));
        let v = utxos.get(&h).unwrap().1.value;
        match total.checked_add(v) {
            Some(t) => {
                total = t;
            },
            None => {
                proof {
                    lemma_spent_value_prefix(hs, utxos@, j + 1);
                }
                return None;
            },
        }
        j = j + 1;
    }
    assert(hs.take(hs.len() as int) =~= hs);
    Some(total)
}

/// A transaction's miner's fee, `None` where it cannot be computed.
fn fee_key(utxos: &UtxoSet, tx: &Transaction) -> (r: Option<u64>)
    requires
        utxos.wf(),
    ensures
        r is Some <==> fee_defined(tx@, utxos@),
        r matches Some(k) ==> k == fee_of(tx@, utxos@),
{
    let ghost hs = input_hashes(tx@);
    let mut j: usize = 0;
    while j < tx.input.len()
        invariant
            j <= tx.input@.len(),
            hs == input_hashes(tx@),
            hs.len() == tx.input@.len(),
            utxos.wf(),
            forall|i: int| 0 <= i < j ==> utxos@.contains_key(#[trigger] hs[i]),
        decreases tx.input@.len() - j,
    {
        let h = tx.input[j].prev_transaction_output_hash;
        assert(hs[j as int] == h);
        if !utxos.contains_key(&h) {
            return None;
        }
        j = j + 1;
    }
    let spent = match input_value(utxos, tx) {
        Some(v) => v,
        None => {
            return None;
        },
    };
    let paid = match total_output_value(&tx.output) {
        Some(v) => v,
        None => {
            return None;
        },
    };
    if paid > spent {
        return None;
    }
    Some(spent - paid)
}

/// Whether the fee of every mempool entry can be computed.
fn fees_defined(pool: &Vec<(Timestamp, Transaction)>, utxos: &UtxoSet) -> (r: bool)
    requires
        utxos.wf(),
    ensures
        r == forall|i: int| 0 <= i < pool@.len() ==> fee_defined(#[trigger] pool_view(pool@)[i].1, utxos@),
{
    let ghost pv = pool_view(pool@);
    let mut i: usize = 0;
    while i < pool.len()
        invariant
            i <= pool@.len(),
            pv == pool_view(pool@),
            utxos.wf(),
            forall|k: int| 0 <= k < i ==> fee_defined(#[trigger] pv[k].1, utxos@),
        decreases pool@.len() - i,
    {
        assert(pv[i as int].1 == pool@[i as int].1@);
        if fee_key(utxos, &pool[i].1).is_none() {
            return false;
        }
        i = i + 1;
    }
    true
}

/// A copy of the mempool.
fn pool_copy(pool: &Vec<(Timestamp, Transaction)>) -> (r: Vec<(Timestamp, Transaction)>)
    ensures
        pool_view(r@) == pool_view(pool@),
{
    let mut out: Vec<(Timestamp, Transaction)> = Vec::new();
    let mut i: usize = 0;
    while i < pool.len()
        invariant
            i <= pool@.len(),
            pool_view(out@) == pool_view(pool@).take(i as int),
        decreases pool@.len() - i,
    {
        let e = (pool[i].0, pool[i].1.copy());
        let ghost before = pool_view(out@);
        out.push(e);
        assert(pool_view(out@) =~= before.push((pool@[i as int].0, pool@[i as int].1@)));
        assert(pool_view(pool@).take(i + 1) =~= pool_view(pool@).take(i as int).push(pool_view(pool@)[i as int]));
        i = i + 1;
    }
    assert(pool_view(pool@).take(pool@.len() as int) =~= pool_view(pool@));
    out
}

/// Sorts the mempool by miner's fee, lowest first, keeping the order of equal fees.
fn sort_pool(pool: Vec<(Timestamp, Transaction)>, utxos: &UtxoSet) -> (r: Vec<(Timestamp, Transaction)>)
    requires
        utxos.wf(),
        forall|i: int| 0 <= i < pool@.len() ==> fee_defined(#[trigger] pool_view(pool@)[i].1, utxos@),
    ensures
        pool_view(r@) == sort_by_fee(pool_view(pool@), utxos@),
{
    let ghost pv = pool_view(pool@);
    let ghost m = utxos@;
    let n = pool.len();
    let mut src = pool;
    let mut out: Vec<(Timestamp, Transaction)> = Vec::new();
    let mut keys: Vec<u64> = Vec::new();
    let mut i: usize = 0;
    assert(pv.subrange(0, n as int) =~= pv);
    assert(pv.take(0) =~= Seq::<PoolEntry>::empty());
    while i < n
        invariant
            i <= n,
            n == pv.len(),
            m == utxos@,
            utxos.wf(),
            forall|j: int| 0 <= j < pv.len() ==> fee_defined(#[trigger] pv[j].1, m),
            pool_view(src@) == pv.subrange(i as int, n as int),
            pool_view(out@) == sort_by_fee(pv.take(i as int), m),
            keys@.len() == out@.len(),
            forall|j: int| 0 <= j < keys@.len() ==> keys@[j] == fee_of(#[trigger] pool_view(out@)[j].1, m),
        decreases n - i,
    {
        let ghost sv = pool_view(src@);
        let ghost old_src = src@;
        assert(sv.len() == src@.len());
        assert(sv[0] == pv[i as int]);
        let e = src.remove(0);
        assert(src@ == old_src.remove(0));
        assert(pool_view(src@) =~= sv.subrange(1, sv.len() as int));
        assert(pool_view(src@) =~= pv.subrange(i + 1, n as int));
        assert((e.0, e.1@) == pv[i as int]);
        assert(fee_defined(pv[i as int].1, m));
        let k = fee_key(utxos, &e.1).unwrap();
        let ghost s = pool_view(out@);
        let mut pos: usize = 0;
        assert(s.subrange(0, s.len() as int) =~= s);
        while pos < keys.len() && keys[pos] <= k
            invariant
                pos <= keys@.len(),
                keys@.len() == s.len(),
                s == pool_view(out@),
                forall|j: int| 0 <= j < keys@.len() ==> keys@[j] == fee_of(#[trigger] s[j].1, m),
                insert_pos(s, k as int, m) == pos + insert_pos(s.subrange(pos as int, s.len() as int), k as int, m),
            decreases keys@.len() - pos,
        {
            assert(s.subrange(pos as int, s.len() as int).drop_first() =~= s.subrange(pos + 1, s.len() as int));
            assert(s.subrange(pos as int, s.len() as int)[0] == s[pos as int]);
            pos = pos + 1;
        }
        proof {
            if pos < keys@.len() {
                assert(s.subrange(pos as int, s.len() as int)[0] == s[pos as int]);
            }
            assert(insert_pos(s, k as int, m) == pos);
            assert(pv.take(i + 1).drop_last() =~= pv.take(i as int));
            assert(pv.take(i + 1).last() == pv[i as int]);
        }
        out.insert(pos, e);
        keys.insert(pos, k);
        proof {
            assert(pool_view(out@) =~= s.insert(pos as int, pv[i as int]));
            assert forall|j: int| 0 <= j < keys@.len() implies keys@[j] == fee_of(
                #[trigger] pool_view(out@)[j].1,
                m,
            ) by {
                if j < pos {
                    assert(pool_view(out@)[j] == s[j]);
                } else if j > pos {
                    assert(pool_view(out@)[j] == s[j - 1]);
                }
            }
        }
        i = i + 1;
    }
    assert(pv.take(n as int) =~= pv);
    out
}

/// Whether an entry has been in the mempool for the maximum age or longer at `now`.
pub open spec fn is_expired(e: PoolEntry, now: Timestamp) -> bool {
    !spec_younger_than(now.secs, now.nanos, e.0.secs, e.0.nanos, MAX_MEMPOOL_TRANSACTION_AGE as i64)
}

/// The entries that have not expired at `now`, in order.
pub open spec fn kept_entries(pool: Seq<PoolEntry>, now: Timestamp) -> Seq<PoolEntry>
    decreases pool.len(),
{
    if pool.len() == 0 {
        pool
    } else {
        let kept = kept_entries(pool.drop_last(), now);
        if is_expired(pool.last(), now) {
            kept
        } else {
            kept.push(pool.last())
        }
    }
}

/// The hashes spent by the entries that have expired at `now`, in order.
pub open spec fn expired_inputs(pool: Seq<PoolEntry>, now: Timestamp) -> Seq<sha256::Hash>
    decreases pool.len(),
{
    if pool.len() == 0 {
        Seq::empty()
    } else {
        let hs = expired_inputs(pool.drop_last(), now);
        if is_expired(pool.last(), now) {
            hs + input_hashes(pool.last().1)
        } else {
            hs
        }
    }
}

/// Clears the marks under the hashes.
fn unmark_hashes(utxos: &mut UtxoSet, hs: &Vec<sha256::Hash>)
    requires
        old(utxos).wf(),
    ensures
        final(utxos).wf(),
        final(utxos)@ == set_marks(old(utxos)@, hs@, false),
{
    let ghost m0 = utxos@;
    let mut j: usize = 0;
    assert(hs@.take(0) =~= Seq::<sha256::Hash>::empty());
    while j < hs.len()
        invariant
            j <= hs@.len(),
            utxos.wf(),
            utxos@ == set_marks(m0, hs@.take(j as int), false),
        decreases hs@.len() - j,
    {
        assert(hs@.take(j + 1).drop_last() =~= hs@.take(j as int));
        utxos.set_marked(&hs[j], false);
        j = j + 1;
    }
    assert(hs@.take(hs@.len() as int) =~= hs@);
}

impl Blockchain {
    /// Whether offering the transaction runs to an answer, computed on copies.
    fn admits(&self, tx: &Transaction) -> (r: bool)
        requires
            self.wf(),
        ensures
            r == mempool_admits(self.utxos@, pool_view(self.mempool@), tx@),
    {
        let ghost hs = input_hashes(tx@);
        if !inputs_admissible(&self.utxos, tx) {
            return true;
        }
        let mut u = self.utxos.copy();
        let mut p = pool_copy(&self.mempool);
        release_inputs(&mut u, &mut p, tx);
        proof {
            lemma_release_all_keys(self.utxos@, pool_view(self.mempool@), hs);
            assert forall|i: int| 0 <= i < hs.len() implies u@.contains_key(#[trigger] hs[i]) by {
                assert(self.utxos@.contains_key(hs[i]));
            }
        }
        let spent = input_value(&u, tx);
        let paid = total_output_value(&tx.output);
        let (sv, ov) = match (spent, paid) {
            (Some(sv), Some(ov)) => (sv, ov),
            _ => {
                return false;
            },
        };
        if ov > sv {
            return true;
        }
        mark_inputs(&mut u, tx);
        if p.len() == 0 {
            return true;
        }
        fee_key(&u, tx).is_some() && fees_defined(&p, &u)
    }

    /// Offers a transaction to the mempool, received at `now` (see `mempool_result`).
    pub fn add_to_mempool_at(&mut self, tx: Transaction, now: Timestamp) -> (r: Result<(), ArcNetError>)
        requires
            old(self).wf(),
            mempool_admits(old(self).utxos@, pool_view(old(self).mempool@), tx@),
        ensures
            final(self).wf(),
            (r, final(self).utxos@, pool_view(final(self).mempool@)) == mempool_result(
                old(self).utxos@,
                pool_view(old(self).mempool@),
                tx@,
                now,
            ),
            final(self).blocks == old(self).blocks,
            final(self).target == old(self).target,
    {
        let ghost hs = input_hashes(tx@);
        let ghost txv = tx@;
        if !inputs_admissible(&self.utxos, &tx) {
            return Err(ArcNetError::InvalidTransaction);
        }
        release_inputs(&mut self.utxos, &mut self.mempool, &tx);
        proof {
            lemma_release_all_keys(old(self).utxos@, pool_view(old(self).mempool@), hs);
            assert forall|i: int| 0 <= i < hs.len() implies self.utxos@.contains_key(#[trigger] hs[i]) by {
                assert(old(self).utxos@.contains_key(hs[i]));
            }
        }
        let spent = input_value(&self.utxos, &tx).unwrap();
        let paid = total_output_value(&tx.output).unwrap();
        if paid > spent {
            return Err(ArcNetError::InvalidTransaction);
        }
        mark_inputs(&mut self.utxos, &tx);
        let mut pool: Vec<(Timestamp, Transaction)> = Vec::new();
        std::mem::swap(&mut pool, &mut self.mempool);
        let ghost before = pool_view(pool@);
        pool.push((now, tx));
        assert(pool_view(pool@) =~= before.push((now, txv)));
        if pool.len() >= 2 {
            proof {
                assert forall|i: int| 0 <= i < pool@.len() implies fee_defined(
                    #[trigger] pool_view(pool@)[i].1,
                    self.utxos@,
                ) by {
                    if i < before.len() {
                        assert(pool_view(pool@)[i] == before[i]);
                    }
                }
            }
            self.mempool = sort_pool(pool, &self.utxos);
        } else {
            proof {
                let e = (now, txv);
                assert(pool_view(pool@) =~= seq![e]);
                let em = Seq::<PoolEntry>::empty();
                assert(seq![e].drop_last() =~= em);
                assert(sort_by_fee(em, self.utxos@) == em);
                assert(insert_pos(em, fee_of(txv, self.utxos@), self.utxos@) == 0);
                assert(em.insert(0, e) =~= seq![e]);
                assert(sort_by_fee(seq![e], self.utxos@) =~= seq![e]);
            }
            self.mempool = pool;
        }
        Ok(())
    }

    /// Offers a transaction to the mempool, received now (see `mempool_result`).
    pub fn add_to_mempool(&mut self, tx: Transaction) -> (r: Result<(), ArcNetError>)
        requires
            old(self).wf(),
            mempool_admits(old(self).utxos@, pool_view(old(self).mempool@), tx@),
        ensures
            final(self).wf(),
            exists|now: Timestamp|
                (r, final(self).utxos@, pool_view(final(self).mempool@)) == #[trigger] mempool_result(
                    old(self).utxos@,
                    pool_view(old(self).mempool@),
                    tx@,
                    now,
                ),
            final(self).blocks == old(self).blocks,
            final(self).target == old(self).target,
    {
        let now = Timestamp::now();
        let r = self.add_to_mempool_at(tx, now);
        assert((r, self.utxos@, pool_view(self.mempool@)) == mempool_result(
            old(self).utxos@,
            pool_view(old(self).mempool@),
            tx@,
            now,
        ));
        r
    }

    /// `add_to_mempool` where it runs to an answer; `None`, with the chain left as it
    /// is, where it does not.
    pub fn add_to_mempool_checked(&mut self, tx: Transaction) -> (r: Option<Result<(), ArcNetError>>)
        requires
            old(self).wf(),
        ensures
            final(self).wf(),
            r is Some <==> mempool_admits(old(self).utxos@, pool_view(old(self).mempool@), tx@),
            r matches Some(res) ==> exists|now: Timestamp|
                (res, final(self).utxos@, pool_view(final(self).mempool@)) == #[trigger] mempool_result(
                    old(self).utxos@,
                    pool_view(old(self).mempool@),
                    tx@,
                    now,
                ),
            r is None ==> final(self).utxos@ == old(self).utxos@ && final(self).mempool@ == old(self).mempool@,
            final(self).blocks == old(self).blocks,
            final(self).target == old(self).target,
    {
        if self.admits(&tx) {
            Some(self.add_to_mempool(tx))
        } else {
            None
        }
    }

    /// `add_to_mempool_at` where it runs to an answer; `None`, with the chain left as it
    /// is, where it does not.
    pub fn add_to_mempool_checked_at(&mut self, tx: Transaction, now: Timestamp) -> (r: Option<Result<(), ArcNetError>>)
        requires
            old(self).wf(),
        ensures
            final(self).wf(),
            r is Some <==> mempool_admits(old(self).utxos@, pool_view(old(self).mempool@), tx@),
            r matches Some(res) ==> (res, final(self).utxos@, pool_view(final(self).mempool@))
                == mempool_result(old(self).utxos@, pool_view(old(self).mempool@), tx@, now),
            r is None ==> final(self).utxos@ == old(self).utxos@ && final(self).mempool@ == old(self).mempool@,
            final(self).blocks == old(self).blocks,
            final(self).target == old(self).target,
    {
        if self.admits(&tx) {
            Some(self.add_to_mempool_at(tx, now))
        } else {
            None
        }
    }

    /// Drops the mempool transactions that have been waiting for the maximum age or
    /// longer at `now`, keeping the order of the others, and clears the marks of the
    /// outputs the dropped ones spent.
    pub fn clean_mempool_at(&mut self, now: Timestamp)
        requires
            old(self).wf(),
        ensures
            final(self).wf(),
            pool_view(final(self).mempool@) == kept_entries(pool_view(old(self).mempool@), now),
            final(self).utxos@ == set_marks(
                old(self).utxos@,
                expired_inputs(pool_view(old(self).mempool@), now),
                false,
            ),
            final(self).blocks == old(self).blocks,
            final(self).target == old(self).target,
    {
        let mut src: Vec<(Timestamp, Transaction)> = Vec::new();
        std::mem::swap(&mut src, &mut self.mempool);
        let ghost pv = pool_view(src@);
        let n = src.len();
        let mut kept: Vec<(Timestamp, Transaction)> = Vec::new();
        let mut hashes: Vec<sha256::Hash> = Vec::new();
        let mut i: usize = 0;
        assert(pv.subrange(0, n as int) =~= pv);
        assert(pv.take(0) =~= Seq::<PoolEntry>::empty());
        while i < n
            invariant
                i <= n,
                n == pv.len(),
                pool_view(src@) == pv.subrange(i as int, n as int),
                pool_view(kept@) == kept_entries(pv.take(i as int), now),
                hashes@ == expired_inputs(pv.take(i as int), now),
            decreases n - i,
        {
            let ghost sv = pool_view(src@);
            let ghost old_src = src@;
            assert(sv.len() == src@.len());
            let e = src.remove(0);
            assert(src@ == old_src.remove(0));
            assert(pool_view(src@) =~= sv.subrange(1, sv.len() as int));
            assert(pool_view(src@) =~= pv.subrange(i + 1, n as int));
            assert(sv[0] == pv[i as int]);
            assert((e.0, e.1@) == pv[i as int]);
            assert(pv.take(i + 1).drop_last() =~= pv.take(i as int));
            assert(pv.take(i + 1).last() == pv[i as int]);
            let young = younger_than(now, e.0, MAX_MEMPOOL_TRANSACTION_AGE as i64);
            if young {
                let ghost before = pool_view(kept@);
                kept.push(e);
                assert(pool_view(kept@) =~= before.push(pv[i as int]));
            } else {
                let ghost before = hashes@;
                let mut j: usize = 0;
                while j < e.1.input.len()
                    invariant
                        j <= e.1.input@.len(),
                        hashes@ == before + input_hashes(e.1@).take(j as int),
                    decreases e.1.input@.len() - j,
                {
                    assert(input_hashes(e.1@)[j as int] == e.1.input@[j as int].prev_transaction_output_hash);
                    hashes.push(e.1.input[j].prev_transaction_output_hash);
                    assert(hashes@ =~= before + input_hashes(e.1@).take(j + 1));
                    j = j + 1;
                }
                assert(input_hashes(e.1@).take(e.1.input@.len() as int) =~= input_hashes(e.1@));
            }
            i = i + 1;
        }
        assert(pv.take(n as int) =~= pv);
        self.mempool = kept;
        unmark_hashes(&mut self.utxos, &hashes);
    }

    /// Drops the mempool transactions that have been waiting for the maximum age or
    /// longer now (see `clean_mempool_at`).
    pub fn clean_mempool(&mut self)
        requires
            old(self).wf(),
        ensures
            final(self).wf(),
            exists|now: Timestamp|
                pool_view(final(self).mempool@) == #[trigger] kept_entries(pool_view(old(self).mempool@), now)
                    && final(self).utxos@ == set_marks(
                    old(self).utxos@,
                    expired_inputs(pool_view(old(self).mempool@), now),
                    false,
                ),
            final(self).blocks == old(self).blocks,
            final(self).target == old(self).target,
    {
        let now = Timestamp::now();
        self.clean_mempool_at(now);
        assert(pool_view(self.mempool@) == kept_entries(pool_view(old(self).mempool@), now));
    }
}

/// Whether the entries' fees never decrease.
pub open spec fn fee_sorted(s: Seq<PoolEntry>, m: UtxoMap) -> bool {
    forall|i: int, j: int| 0 <= i < j < s.len() ==> fee_of(#[trigger] s[i].1, m) <= fee_of(#[trigger] s[j].1, m)
}

/// Where an entry with fee `k` goes: after entries whose fee is at most `k`, before an
/// entry whose fee is larger.
pub proof fn lemma_insert_pos(s: Seq<PoolEntry>, k: int, m: UtxoMap)
    ensures
        0 <= insert_pos(s, k, m) <= s.len(),
        forall|i: int| 0 <= i < insert_pos(s, k, m) ==> fee_of(#[trigger] s[i].1, m) <= k,
        insert_pos(s, k, m) < s.len() ==> fee_of(s[insert_pos(s, k, m)].1, m) > k,
    decreases s.len(),
{
    if s.len() > 0 && fee_of(s[0].1, m) <= k {
        lemma_insert_pos(s.drop_first(), k, m);
        assert forall|i: int| 0 <= i < insert_pos(s, k, m) implies fee_of(#[trigger] s[i].1, m) <= k by {
            if i > 0 {
                assert(s[i] == s.drop_first()[i - 1]);
            }
        }
    }
}

/// The mempool's order: sorting by fee gives entries whose fees never decrease, and the
/// same entries as before.
pub proof fn law_sort_by_fee(p: Seq<PoolEntry>, m: UtxoMap)
    ensures
        fee_sorted(sort_by_fee(p, m), m),
        sort_by_fee(p, m).to_multiset() == p.to_multiset(),
    decreases p.len(),
{
    if p.len() > 0 {
        law_sort_by_fee(p.drop_last(), m);
        let s = sort_by_fee(p.drop_last(), m);
        let x = p.last();
        let kx = fee_of(x.1, m);
        let q = insert_pos(s, kx, m);
        lemma_insert_pos(s, kx, m);
        let r = s.insert(q, x);
        assert(r == sort_by_fee(p, m));
        assert forall|i: int, j: int| 0 <= i < j < r.len() implies fee_of(#[trigger] r[i].1, m) <= fee_of(
            #[trigger] r[j].1,
            m,
        ) by {
            if j < q {
                assert(r[i] == s[i] && r[j] == s[j]);
            } else if j == q {
                assert(r[i] == s[i]);
            } else if i < q {
                assert(r[i] == s[i] && r[j] == s[j - 1]);
                assert(fee_of(s[q].1, m) <= fee_of(s[j - 1].1, m) || q == j - 1);
            } else if i == q {
                assert(r[j] == s[j - 1]);
                assert(fee_of(s[q].1, m) <= fee_of(s[j - 1].1, m) || q == j - 1);
            } else {
                assert(r[i] == s[i - 1] && r[j] == s[j - 1]);
            }
        }
        vstd::seq_lib::to_multiset_insert(s, q, x);
        vstd::seq_lib::to_multiset_build(p.drop_last(), x);
        assert(p.drop_last().push(x) =~= p);
    }
}

/// Setting marks sets the mark of every hash that is a key.
pub proof fn lemma_set_marks_sets(m: UtxoMap, hs: Seq<sha256::Hash>, marked: bool)
    ensures
        forall|i: int|
            0 <= i < hs.len() && m.contains_key(#[trigger] hs[i]) ==> set_marks(m, hs, marked).contains_key(hs[i])
                && set_marks(m, hs, marked)[hs[i]].0 == marked,
    decreases hs.len(),
{
    if hs.len() > 0 {
        lemma_set_marks_sets(m, hs.drop_last(), marked);
        lemma_set_marks_keys(m, hs.drop_last(), marked);
        assert forall|i: int| 0 <= i < hs.len() && m.contains_key(#[trigger] hs[i]) implies set_marks(
            m,
            hs,
            marked,
        ).contains_key(hs[i]) && set_marks(m, hs, marked)[hs[i]].0 == marked by {
            if i < hs.len() - 1 {
                assert(hs.drop_last()[i] == hs[i]);
            }
        }
    }
}

/// A transaction the mempool admits: its inputs are then marked as claimed, and the
/// mempool is ordered by fee and holds the earlier entries left after the releases,
/// plus the new one.
pub proof fn law_admitted_transaction(m: UtxoMap, pool: Seq<PoolEntry>, tx: TxView, now: Timestamp)
    requires
        mempool_result(m, pool, tx, now).0 is Ok,
    ensures
        forall|i: int|
            0 <= i < input_hashes(tx).len() ==> mempool_result(m, pool, tx, now).1.contains_key(
                #[trigger] input_hashes(tx)[i],
            ) && mempool_result(m, pool, tx, now).1[input_hashes(tx)[i]].0,
        fee_sorted(mempool_result(m, pool, tx, now).2, mempool_result(m, pool, tx, now).1),
        mempool_result(m, pool, tx, now).2.to_multiset() == release_all(m, pool, input_hashes(tx)).1.push(
            (now, tx),
        ).to_multiset(),
{
    let hs = input_hashes(tx);
    let released = release_all(m, pool, hs);
    lemma_release_all_keys(m, pool, hs);
    lemma_set_marks_sets(released.0, hs, true);
    let marked = set_marks(released.0, hs, true);
    assert forall|i: int| 0 <= i < hs.len() implies marked.contains_key(#[trigger] hs[i]) && marked[hs[i]].0 by {
        assert(m.contains_key(hs[i]));
        assert(released.0.contains_key(hs[i]));
    }
    law_sort_by_fee(released.1.push((now, tx)), marked);
}

/// A transaction with an unknown or repeated input is refused and changes nothing.
pub proof fn law_refused_inputs_change_nothing(m: UtxoMap, pool: Seq<PoolEntry>, tx: TxView, now: Timestamp)
    requires
        !inputs_valid(tx, m),
    ensures
        mempool_result(m, pool, tx, now) == (Err::<(), ArcNetError>(ArcNetError::InvalidTransaction), m, pool),
{
}

/// Cleaning keeps exactly the entries that have not expired, in order, and clears the
/// mark of every output that an expired entry spent.
pub proof fn law_clean_mempool(m: UtxoMap, pool: Seq<PoolEntry>, now: Timestamp)
    ensures
        kept_entries(pool, now) == pool.filter(|e: PoolEntry| !is_expired(e, now)),
        forall|i: int|
            0 <= i < expired_inputs(pool, now).len() && m.contains_key(#[trigger] expired_inputs(pool, now)[i])
                ==> !set_marks(m, expired_inputs(pool, now), false)[expired_inputs(pool, now)[i]].0,
    decreases pool.len(),
{
    lemma_set_marks_sets(m, expired_inputs(pool, now), false);
    reveal(Seq::filter);
    if pool.len() > 0 {
        law_clean_mempool(m, pool.drop_last(), now);
    }
}

} // verus!
