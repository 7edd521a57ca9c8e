//! The set of unspent transaction outputs, keyed by hash, each with a mark that
//! tells whether a mempool transaction already spends it.

use vstd::prelude::*;
use crate::sha256;
use crate::types::transaction::TransactionOutput;
use crate::u256::lemma_u256_view_injective;

verus! {

/// The unspent outputs as a map from hash to mark and output.
pub type UtxoMap = Map<sha256::Hash, (bool, TransactionOutput)>;

/// One unspent output under its key, with its mark.
#[derive(Clone, Copy, Debug)]
pub struct UtxoEntry {
    pub hash: sha256::Hash,
    pub marked: bool,
    pub output: TransactionOutput,
}

/// The map that a list of entries stands for (a later entry overrides an earlier one).
pub open spec fn entries_map(s: Seq<UtxoEntry>) -> Map<sha256::Hash, (bool, TransactionOutput)>
    decreases s.len(),
{
    if s.len() == 0 {
        Map::empty()
    } else {
        entries_map(s.drop_last()).insert(s.last().hash, (s.last().marked, s.last().output))
    }
}

/// No key occurs twice.
pub open spec fn keys_unique(s: Seq<UtxoEntry>) -> bool {
    forall|i: int, j: int| 0 <= i < j < s.len() ==> s[i].hash != s[j].hash
}

/// The unspent outputs. The order of the entries is the order of iteration.
#[derive(Clone, Debug)]
pub struct UtxoSet {
    pub entries: Vec<UtxoEntry>,
}

impl View for UtxoSet {
    type V = Map<sha256::Hash, (bool, TransactionOutput)>;

    open spec fn view(&self) -> Self::V {
        entries_map(self.entries@)
    }
}

/// A key is in the map exactly when some entry holds it.
pub proof fn lemma_entries_map_dom(s: Seq<UtxoEntry>, k: sha256::Hash)
    ensures
        entries_map(s).contains_key(k) <==> exists|i: int| 0 <= i < s.len() && (#[trigger] s[i]).hash == k,
    decreases s.len(),
{
    if s.len() > 0 {
        lemma_entries_map_dom(s.drop_last(), k);
        if entries_map(s).contains_key(k) && s.last().hash != k {
            let i = choose|i: int| 0 <= i < s.drop_last().len() && (#[trigger] s.drop_last()[i]).hash == k;
            assert(s[i] == s.drop_last()[i]);
        }
        if exists|i: int| 0 <= i < s.len() && (#[trigger] s[i]).hash == k {
            let i = choose|i: int| 0 <= i < s.len() && (#[trigger] s[i]).hash == k;
            if i < s.len() - 1 {
                assert(s.drop_last()[i] == s[i]);
            }
        }
    }
}

/// With unique keys, each entry's key maps to that entry's mark and output.
pub proof fn lemma_entries_map_value(s: Seq<UtxoEntry>, i: int)
    requires
        keys_unique(s),
        0 <= i < s.len(),
    ensures
        entries_map(s).contains_key(s[i].hash),
        entries_map(s)[s[i].hash] == (s[i].marked, s[i].output),
    decreases s.len(),
{
    if i < s.len() - 1 {
        lemma_entries_map_value(s.drop_last(), i);
        assert(s.drop_last()[i] == s[i]);
    }
}

/// Removing an entry removes its key from the map.
pub proof fn lemma_entries_map_remove(s: Seq<UtxoEntry>, i: int)
    requires
        keys_unique(s),
        0 <= i < s.len(),
    ensures
        entries_map(s.remove(i)) == entries_map(s).remove(s[i].hash),
        keys_unique(s.remove(i)),
    decreases s.len(),
{
    let k = s[i].hash;
    if i == s.len() - 1 {
        assert(s.remove(i) =~= s.drop_last());
        lemma_entries_map_dom(s.drop_last(), k);
        assert(!entries_map(s.drop_last()).contains_key(k));
        assert(entries_map(s.drop_last()) =~= entries_map(s).remove(k));
    } else {
        lemma_entries_map_remove(s.drop_last(), i);
        assert(s.remove(i).drop_last() =~= s.drop_last().remove(i));
        assert(s.remove(i).last() == s.last());
        assert(s.last().hash != k);
        assert(entries_map(s.remove(i)) =~= entries_map(s).remove(k));
    }
}

/// Replacing an entry by one with the same key updates the map at that key.
pub proof fn lemma_entries_map_update(s: Seq<UtxoEntry>, i: int, e: UtxoEntry)
    requires
        keys_unique(s),
        0 <= i < s.len(),
        e.hash == s[i].hash,
    ensures
        entries_map(s.update(i, e)) == entries_map(s).insert(e.hash, (e.marked, e.output)),
        keys_unique(s.update(i, e)),
    decreases s.len(),
{
    if i == s.len() - 1 {
        assert(s.update(i, e).drop_last() =~= s.drop_last());
        assert(entries_map(s.update(i, e)) =~= entries_map(s).insert(e.hash, (e.marked, e.output)));
    } else {
        lemma_entries_map_update(s.drop_last(), i, e);
        assert(s.update(i, e).drop_last() =~= s.drop_last().update(i, e));
        assert(entries_map(s.update(i, e)) =~= entries_map(s).insert(e.hash, (e.marked, e.output)));
    }
}

impl UtxoSet {
    /// A copy of the set.
    pub fn copy(&self) -> (r: UtxoSet)
        ensures
            r.entries@ == self.entries@,
            r@ == self@,
    {
        let mut entries: Vec<UtxoEntry> = Vec::new();
        let mut i: usize = 0;
        while i < self.entries.len()
            invariant
                i <= self.entries@.len(),
                entries@ == self.entries@.take(i as int),
            decreases self.entries@.len() - i,
        {
            entries.push(self.entries[i]);
            assert(self.entries@.take(i + 1) =~= self.entries@.take(i as int).push(self.entries@[i as int]));
            i = i + 1;
        }
        assert(self.entries@.take(self.entries@.len() as int) =~= self.entries@);
        UtxoSet { entries }
    }

    /// The empty set.
    pub fn new() -> (r: UtxoSet)
        ensures
            r@ == Map::<sha256::Hash, (bool, TransactionOutput)>::empty(),
            r.wf(),
    {
        UtxoSet { entries: Vec::new() }
    }

    /// No key occurs twice.
    pub open spec fn wf(&self) -> bool {
        keys_unique(self.entries@)
    }

    /// The position of the entry with the key, if there is one.
    pub fn find(&self, h: &sha256::Hash) -> (r: Option<usize>)
        requires
            self.wf(),
        ensures
            r is None <==> !self@.contains_key(*h),
            r matches Some(i) ==> i < self.entries@.len() && self.entries@[i as int].hash == *h,
    {
        let mut i: usize = 0;
        while i < self.entries.len()
            invariant
                i <= self.entries@.len(),
                forall|j: int| 0 <= j < i ==> (#[trigger] self.entries@[j]).hash != *h,
            decreases self.entries@.len() - i,
        {
            if self.entries[i].hash.equals(h) {
                proof {
                    lemma_u256_view_injective(self.entries@[i as int].hash.0, h.0);
                    lemma_entries_map_dom(self.entries@, *h);
                    assert(self.entries@[i as int].hash == *h);
                }
                return Some(i);
            }
            i = i + 1;
        }
        proof {
            lemma_entries_map_dom(self.entries@, *h);
        }
        None
    }

    /// The mark and output under a key, if the key is present.
    pub fn get(&self, h: &sha256::Hash) -> (r: Option<(bool, TransactionOutput)>)
        requires
            self.wf(),
        ensures
            r is Some <==> self@.contains_key(*h),
            r matches Some(v) ==> v == self@[*h],
    {
        match self.find(h) {
            Some(i) => {
                proof {
                    lemma_entries_map_value(self.entries@, i as int);
                }
                Some((self.entries[i].marked, self.entries[i].output))
            },
            None => None,
        }
    }

    /// Whether the key is present.
    pub fn contains_key(&self, h: &sha256::Hash) -> (r: bool)
        requires
            self.wf(),
        ensures
            r == self@.contains_key(*h),
    {
        self.find(h).is_some()
    }

    /// Puts a mark and output under a key, replacing what was there.
    pub fn insert(&mut self, h: sha256::Hash, marked: bool, output: TransactionOutput)
        requires
            old(self).wf(),
        ensures
            final(self).wf(),
            final(self)@ == old(self)@.insert(h, (marked, output)),
    {
        let e = UtxoEntry { hash: h, marked, output };
        match self.find(&h) {
            Some(i) => {
                proof {
                    lemma_entries_map_update(self.entries@, i as int, e);
                }
                self.entries.set(i, e);
            },
            None => {
                proof {
                    lemma_entries_map_dom(self.entries@, h);
                    assert(self.entries@.push(e).drop_last() =~= self.entries@);
                }
                self.entries.push(e);
            },
        }
    }

    /// Removes the entry under a key, if there is one.
    pub fn remove(&mut self, h: &sha256::Hash)
        requires
            old(self).wf(),
        ensures
            final(self).wf(),
            final(self)@ == old(self)@.remove(*h),
    {
        match self.find(h) {
            Some(i) => {
                proof {
                    lemma_entries_map_remove(self.entries@, i as int);
                }
                self.entries.remove(i);
            },
            None => {
                assert(self@.remove(*h) =~= self@);
            },
        }
    }

    /// Sets the mark under a key, if the key is present (the entry's output stays).
    pub fn set_marked(&mut self, h: &sha256::Hash, marked: bool)
        requires
            old(self).wf(),
        ensures
            final(self).wf(),
            final(self)@ == if old(self)@.contains_key(*h) {
                old(self)@.insert(*h, (marked, old(self)@[*h].1))
            } else {
                old(self)@
            },
    {
        match self.find(h) {
            Some(i) => {
                let e = UtxoEntry { hash: *h, marked, output: self.entries[i].output };
                proof {
                    lemma_entries_map_value(self.entries@, i as int);
                    lemma_entries_map_update(self.entries@, i as int, e);
                }
                self.entries.set(i, e);
            },
            None => {},
        }
    }
}

} // verus!
