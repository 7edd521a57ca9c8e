//! The wallet's data and rules: its keys, contacts and fee settings, the unspent
//! outputs it knows of per key, the coin selection that builds a payment, and the
//! balance.

use vstd::prelude::*;
use std::path::PathBuf;
use std::sync::Arc;
use crossbeam_skiplist::SkipMap;
use crate::crypto::{PrivateKey, PublicKey, Signature, spec_ecdsa_sign, spec_ecdsa_verify, spec_public_key_of, zero_key};
use crate::sha256;
use crate::types::block::{joined, lemma_joined_take, outputs_value, lemma_outputs_value_prefix, lemma_outputs_value_take};
use crate::types::transaction::{InputView, Transaction, TransactionInput, TransactionOutput, random_uuid, spec_output_hash};
use crate::u256::{U256, dec_digits, le_bytes};

verus! {

#[verifier::external_type_specification]
#[verifier::external_body]
pub struct ExPathBuf(PathBuf);

#[verifier::external_type_specification]
#[verifier::external_body]
#[verifier::reject_recursive_types(K)]
#[verifier::reject_recursive_types(V)]
pub struct ExSkipMap<K, V>(SkipMap<K, V>);

/// The files of a key pair.
#[derive(Debug)]
pub struct Key {
    pub public: PathBuf,
    pub private: PathBuf,
}

/// A contact: a name and the file of its public key.
#[derive(Debug)]
pub struct Recipient {
    pub name: String,
    pub key: PathBuf,
}

/// A contact's public key, loaded.
#[derive(Clone, Copy, Debug)]
pub struct LoadedRecipient {
    pub key: PublicKey,
}

/// How the fee of a payment is computed: a fixed amount, or a percentage of it.
#[derive(Clone, Copy, Debug, PartialEq, Eq, Structural)]
pub enum FeeType {
    Fixed,
    Percent,
}

/// The unit an amount is entered in.
#[derive(Clone, Copy, Debug, PartialEq, Eq, Structural)]
pub enum Unit {
    Sats,
    Arcs,
}

impl Unit {
    /// The other unit.
    pub fn toggled(&self) -> (r: Unit)
        ensures
            r == match *self {
                Unit::Sats => Unit::Arcs,
                Unit::Arcs => Unit::Sats,
            },
    {
        match self {
            Unit::Sats => Unit::Arcs,
            Unit::Arcs => Unit::Sats,
        }
    }

    /// The unit's name as shown.
    pub fn label(&self) -> (r: &'static str)
        ensures
            r@ == match *self {
                Unit::Sats => "Sats"@,
                Unit::Arcs => "Arcs"@,
            },
    {
        match self {
            Unit::Sats => "Sats",
            Unit::Arcs => "Arcs",
        }
    }
}

/// A key pair, loaded.
#[derive(Clone, Copy, Debug)]
pub struct LoadedKeys {
    pub public: PublicKey,
    pub private: PrivateKey,
}

impl LoadedKeys {
    /// Whether the public key is the one that belongs to the secret key, and the
    /// secret is a valid one.
    pub open spec fn is_pair(self) -> bool {
        &&& self.public.bytes@ == spec_public_key_of(self.private.secret@)
        &&& self.public.bytes@ != zero_key()
    }
}

/// Whether every loaded key pair is a true pair.
pub open spec fn keys_paired(keys: Seq<LoadedKeys>) -> bool {
    forall|i: int| 0 <= i < keys.len() ==> (#[trigger] keys[i]).is_pair()
}

/// Why a payment could not be built.
#[derive(Clone, Copy, Debug, PartialEq, Eq, Structural)]
pub enum WalletError {
    /// The unclaimed outputs do not cover the amount and the fee.
    InsufficientFunds,
}

/// The outputs known per key (by the key's SEC1 bytes): each with whether a mempool
/// transaction already claims it.
pub type UtxoMapStore = SkipMap<[u8; 65], Vec<(bool, TransactionOutput)>>;

/// A listing of the store: each key with its outputs.
pub type Listing = Vec<([u8; 65], Vec<(bool, TransactionOutput)>)>;

/// A listing entry as a value.
pub type ListingEntry = ([u8; 65], Seq<(bool, TransactionOutput)>);

/// Whether byte string `a` comes strictly before `b` in lexicographic order.
pub open spec fn key_lt(a: Seq<u8>, b: Seq<u8>) -> bool {
    exists|i: int| 0 <= i < a.len() && i < b.len() && a.take(i) == b.take(i) && a[i] < b[i]
}

/// `crossbeam_skiplist::SkipMap::new`.
#[verifier::external_body]
fn new_store() -> (r: UtxoMapStore) {
    SkipMap::new()
}

/// `crossbeam_skiplist::SkipMap::iter`, each entry's key and a clone of its value: the
/// entries present while it runs, in ascending order of key (arrays order
/// lexicographically). What the map holds is shared and may change at any time, so
/// nothing more is said of which entries come out.
#[verifier::external_body]
fn store_entries(m: &UtxoMapStore) -> (r: Listing)
    ensures
        forall|i: int, j: int| 0 <= i < j < r@.len() ==> key_lt(r@[i].0@, r@[j].0@),
{
    let mut out = Vec::new();
    for e in m.iter() {
        out.push((*e.key(), e.value().clone()));
    }
    out
}

/// `crossbeam_skiplist::SkipMap::insert`: files `value` under `key`, replacing what was
/// there. The map is shared, so nothing is said of what it holds afterwards.
#[verifier::external_body]
fn store_insert(m: &UtxoMapStore, key: [u8; 65], value: Vec<(bool, TransactionOutput)>) {
    m.insert(key, value);
}

/// The outputs a node reports for a key, each with whether the mempool claims it, as
/// the store files them: the mark first, then the output, in the same order.
pub fn utxo_entries(reply: &Vec<(TransactionOutput, bool)>) -> (r: Vec<(bool, TransactionOutput)>)
    ensures
        r@.len() == reply@.len(),
        forall|i: int| 0 <= i < r@.len() ==> #[trigger] r@[i] == (reply@[i].1, reply@[i].0),
{
    let mut r: Vec<(bool, TransactionOutput)> = Vec::new();
    let mut i: usize = 0;
    while i < reply.len()
        invariant
            i <= reply@.len(),
            r@.len() == i,
            forall|j: int| 0 <= j < i ==> #[trigger] r@[j] == (reply@[j].1, reply@[j].0),
        decreases reply@.len() - i,
    {
        let (o, marked) = reply[i];
        r.push((marked, o));
        i = i + 1;
    }
    r
}

/// The keys and the outputs known for them.
pub struct UtxosStore {
    pub keys: Vec<LoadedKeys>,
    pub utxos: Arc<UtxoMapStore>,
}

/// A listing as values.
pub open spec fn listing_view(l: Seq<([u8; 65], Vec<(bool, TransactionOutput)>)>) -> Seq<ListingEntry> {
    l.map_values(|e: ([u8; 65], Vec<(bool, TransactionOutput)>)| (e.0, e.1@))
}

/// An entry's unclaimed outputs, each with the entry's key, in order.
pub open spec fn entry_spendable(e: ListingEntry) -> Seq<([u8; 65], TransactionOutput)>
    decreases e.1.len(),
{
    if e.1.len() == 0 {
        Seq::empty()
    } else {
        let prev = entry_spendable((e.0, e.1.drop_last()));
        if e.1.last().0 {
            prev
        } else {
            prev.push((e.0, e.1.last().1))
        }
    }
}

/// The unclaimed outputs of a listing, key by key, in order.
pub open spec fn spendable(l: Seq<ListingEntry>) -> Seq<([u8; 65], TransactionOutput)> {
    joined(l.map_values(|e: ListingEntry| entry_spendable(e)))
}

/// The total value of outputs paired with keys.
pub open spec fn picked_value(s: Seq<([u8; 65], TransactionOutput)>) -> nat
    decreases s.len(),
{
    if s.len() == 0 {
        0
    } else {
        (picked_value(s.drop_last()) + s.last().1.value) as nat
    }
}

/// How many of the unclaimed outputs, from `k` on, the wallet takes: it takes them in
/// order until their value reaches `total`, or takes them all.
pub open spec fn pick_count(s: Seq<([u8; 65], TransactionOutput)>, total: nat, k: int) -> int
    decreases s.len() - k,
{
    if k < 0 || k >= s.len() || picked_value(s.take(k)) >= total {
        k
    } else {
        pick_count(s, total, k + 1)
    }
}

/// The unclaimed outputs the wallet spends for a payment of `total`.
pub open spec fn picked(l: Seq<ListingEntry>, total: nat) -> Seq<([u8; 65], TransactionOutput)> {
    spendable(l).take(pick_count(spendable(l), total, 0))
}

/// Whether a key pair with these public bytes is loaded.
pub open spec fn has_key(keys: Seq<LoadedKeys>, k: [u8; 65]) -> bool {
    exists|i: int| 0 <= i < keys.len() && keys[i].public.bytes@ == k@
}

/// The secret of the first loaded key pair, from position `i` on, with these public bytes.
pub open spec fn secret_from(keys: Seq<LoadedKeys>, k: [u8; 65], i: int) -> Seq<u8>
    decreases keys.len() - i,
{
    if i < 0 || i >= keys.len() {
        Seq::empty()
    } else if keys[i].public.bytes@ == k@ {
        keys[i].private.secret@
    } else {
        secret_from(keys, k, i + 1)
    }
}

/// The secret of the first loaded key pair with these public bytes.
pub open spec fn secret_of(keys: Seq<LoadedKeys>, k: [u8; 65]) -> Seq<u8> {
    secret_from(keys, k, 0)
}

/// The input that spends an unclaimed output: its hash, signed with its key's secret.
pub open spec fn spend_input(keys: Seq<LoadedKeys>, p: ([u8; 65], TransactionOutput)) -> InputView {
    (spec_output_hash(p.1), spec_ecdsa_sign(secret_of(keys, p.0), le_bytes(spec_output_hash(p.1).0)))
}

/// Whether building a payment of `amount` with `fee` over a listing runs to an answer:
/// the sum stays in `u64`, the value taken stays in `u64`, every output taken has its
/// key loaded, and where there is change there is a first key pair to pay it to.
pub open spec fn payment_defined(keys: Seq<LoadedKeys>, l: Seq<ListingEntry>, amount: u64, fee: u64) -> bool {
    let total = amount + fee;
    let p = picked(l, total as nat);
    &&& total <= u64::MAX
    &&& picked_value(p) <= u64::MAX
    &&& forall|i: int| 0 <= i < p.len() ==> has_key(keys, #[trigger] p[i].0)
    &&& picked_value(p) > total ==> keys.len() > 0
}

/// Whether the unclaimed outputs of a listing cover `amount` and `fee`.
pub open spec fn funds_suffice(l: Seq<ListingEntry>, amount: u64, fee: u64) -> bool {
    picked_value(picked(l, (amount + fee) as nat)) >= amount + fee
}

/// The total value of a listing's outputs, claimed or not.
pub open spec fn listing_value(l: Seq<ListingEntry>) -> nat
    decreases l.len(),
{
    if l.len() == 0 {
        0
    } else {
        listing_value(l.drop_last()) + outputs_value(l.last().1.map_values(|p: (bool, TransactionOutput)| p.1))
    }
}

/// The payment of `amount` to `recipient` with `fee` over a listing: the inputs spend
/// the outputs taken; the first output pays `amount` to the recipient, and where more
/// was taken than needed, a second output pays the change to the first loaded key.
pub open spec fn payment_view(
    keys: Seq<LoadedKeys>,
    l: Seq<ListingEntry>,
    recipient: PublicKey,
    amount: u64,
    fee: u64,
    payment_id: [u8; 16],
    change_id: [u8; 16],
) -> (Seq<InputView>, Seq<TransactionOutput>) {
    let total = (amount + fee) as nat;
    let p = picked(l, total);
    let first = TransactionOutput { value: amount, unique_id: payment_id, pub_key: recipient };
    let outs = if picked_value(p) > total {
        seq![
            first,
            TransactionOutput {
                value: (picked_value(p) - total) as u64,
                unique_id: change_id,
                pub_key: keys[0].public,
            },
        ]
    } else {
        seq![first]
    };
    (p.map_values(|q: ([u8; 65], TransactionOutput)| spend_input(keys, q)), outs)
}

/// The count of outputs taken is at least where the count starts.
pub proof fn lemma_pick_count_ge(s: Seq<([u8; 65], TransactionOutput)>, total: nat, k: int)
    requires
        0 <= k <= s.len(),
    ensures
        k <= pick_count(s, total, k) <= s.len(),
    decreases s.len() - k,
{
    if k < s.len() && picked_value(s.take(k)) < total {
        lemma_pick_count_ge(s, total, k + 1);
    }
}

/// The value of the first outputs is at most the value of more of them.
pub proof fn lemma_picked_value_mono(s: Seq<([u8; 65], TransactionOutput)>, a: int, b: int)
    requires
        0 <= a <= b <= s.len(),
    ensures
        picked_value(s.take(a)) <= picked_value(s.take(b)),
    decreases b - a,
{
    if a < b {
        lemma_picked_value_mono(s, a, b - 1);
        assert(s.take(b).drop_last() =~= s.take(b - 1));
    }
}

/// The position of the first loaded key pair with these public bytes.
fn find_key(keys: &Vec<LoadedKeys>, k: &[u8; 65]) -> (r: Option<usize>)
    ensures
        r is None <==> !has_key(keys@, *k),
        r matches Some(i) ==> i < keys@.len() && keys@[i as int].private.secret@ == secret_of(keys@, *k)
            && keys@[i as int].public.bytes@ == k@,
{
    let target = PublicKey { bytes: *k };
    let mut i: usize = 0;
    while i < keys.len()
        invariant
            i <= keys@.len(),
            target.bytes@ == k@,
            forall|j: int| 0 <= j < i ==> keys@[j].public.bytes@ != k@,
            secret_of(keys@, *k) == secret_from(keys@, *k, i as int),
        decreases keys@.len() - i,
    {
        if keys[i].public.equals(&target) {
            return Some(i);
        }
        i = i + 1;
    }
    None
}

/// Builds a payment of `amount` with `fee` from a listing of the known outputs (see
/// `payment_view`): the unclaimed outputs are taken key by key, in order, until they
/// cover the amount and the fee. `Err` where they do not; `None` where the sums leave
/// `u64`, an output's key is not loaded, or there is change and no key to pay it to.
pub fn build_payment(
    keys: &Vec<LoadedKeys>,
    listing: &Listing,
    recipient: &PublicKey,
    amount: u64,
    fee: u64,
    payment_id: [u8; 16],
    change_id: [u8; 16],
) -> (r: Option<Result<Transaction, WalletError>>)
    ensures
        r is Some <==> payment_defined(keys@, listing_view(listing@), amount, fee),
        r matches Some(res) ==> (res is Ok <==> funds_suffice(listing_view(listing@), amount, fee)),
        r matches Some(Err(e)) ==> e == WalletError::InsufficientFunds,
        r matches Some(Ok(t)) ==> t@ == payment_view(
            keys@,
            listing_view(listing@),
            *recipient,
            amount,
            fee,
            payment_id,
            change_id,
        ),
        r matches Some(Ok(t)) ==> t.output@.len() >= 1 && t.output@[0].value == amount
            && t.output@[0].pub_key == *recipient,
        r matches Some(Ok(t)) ==> forall|i: int|
            1 <= i < t.output@.len() ==> #[trigger] t.output@[i].pub_key == keys@[0].public,
        keys_paired(keys@) ==> (r matches Some(Ok(t)) ==> forall|i: int|
            0 <= i < t.input@.len() ==> spec_ecdsa_verify(
                picked(listing_view(listing@), (amount + fee) as nat)[i].0@,
                le_bytes(t.input@[i].prev_transaction_output_hash.0),
                (#[trigger] t.input@[i]).signature.der@,
            )),
{
    let total = match amount.checked_add(fee) {
        None => {
            return None;
        },
        Some(t) => t,
    };
    let ghost lv = listing_view(listing@);
    let ghost parts = lv.map_values(|e: ListingEntry| entry_spendable(e));
    let ghost sp = spendable(lv);
    let ghost kv = keys@;
    let mut inputs: Vec<TransactionInput> = Vec::new();
    let mut sum: u64 = 0;
    let ghost mut c: int = 0;
    let n = listing.len();
    let mut i: usize = 0;
    assert(parts.take(0) =~= Seq::<Seq<([u8; 65], TransactionOutput)>>::empty());
    assert(sp.take(0) =~= Seq::<([u8; 65], TransactionOutput)>::empty());
    assert(parts.take(n as int) =~= parts);
    while i < n
        invariant_except_break
            c == joined(parts.take(i as int)).len(),
            forall|t: int| 0 <= t < c ==> sp[t] == #[trigger] joined(parts.take(i as int))[t],
        invariant
            i <= n,
            n == lv.len(),
            lv == listing_view(listing@),
            parts == lv.map_values(|e: ListingEntry| entry_spendable(e)),
            sp == spendable(lv),
            sp == joined(parts),
            joined(parts.take(n as int)) == sp,
            kv == keys@,
            total == amount + fee,
            0 <= c <= sp.len(),
            sum == picked_value(sp.take(c)),
            pick_count(sp, total as nat, 0) == pick_count(sp, total as nat, c),
            inputs@.len() == c,
            forall|t: int| 0 <= t < c ==> (#[trigger] inputs@[t])@ == spend_input(kv, sp[t]),
            forall|t: int| 0 <= t < c ==> has_key(kv, #[trigger] sp[t].0),
            keys_paired(kv) ==> forall|t: int|
                0 <= t < c ==> spec_ecdsa_verify(
                    sp[t].0@,
                    le_bytes(inputs@[t].prev_transaction_output_hash.0),
                    (#[trigger] inputs@[t]).signature.der@,
                ),
        ensures
            sum < total ==> c == sp.len(),
        decreases n - i,
    {
        let entry = &listing[i];
        let ghost e = lv[i as int];
        assert(e == (entry.0, entry.1@));
        proof {
            lemma_joined_take(parts, i as int);
            crate::types::block::lemma_joined_prefix(parts, i + 1);
            assert(parts.take(i + 1).len() == i + 1);
        }
        let m = entry.1.len();
        let mut j: usize = 0;
        assert(e.1.take(0) =~= Seq::<(bool, TransactionOutput)>::empty());
        assert(entry_spendable((e.0, e.1.take(0))) =~= Seq::<([u8; 65], TransactionOutput)>::empty());
        assert(e.1.take(m as int) =~= e.1);
        while j < m
            invariant_except_break
                c == joined(parts.take(i as int)).len() + entry_spendable((e.0, e.1.take(j as int))).len(),
            invariant
                j <= m,
                m == e.1.len(),
                e.1.take(m as int) == e.1,
                i < n,
                e == lv[i as int],
                e == (entry.0, entry.1@),
                n == lv.len(),
                lv == listing_view(listing@),
                sp == spendable(lv),
                parts == lv.map_values(|e: ListingEntry| entry_spendable(e)),
                sp == joined(parts),
                kv == keys@,
                total == amount + fee,
                joined(parts.take(i + 1)) == joined(parts.take(i as int)) + parts[i as int],
                parts[i as int] == entry_spendable(e),
                forall|t: int|
                    0 <= t < joined(parts.take(i + 1)).len() ==> sp[t] == #[trigger] joined(
                        parts.take(i + 1),
                    )[t],
                joined(parts.take(i + 1)).len() <= sp.len(),
                0 <= c <= sp.len(),
                sum == picked_value(sp.take(c)),
                pick_count(sp, total as nat, 0) == pick_count(sp, total as nat, c),
                inputs@.len() == c,
                forall|t: int| 0 <= t < c ==> (#[trigger] inputs@[t])@ == spend_input(kv, sp[t]),
                forall|t: int| 0 <= t < c ==> has_key(kv, #[trigger] sp[t].0),
                keys_paired(kv) ==> forall|t: int|
                    0 <= t < c ==> spec_ecdsa_verify(
                        sp[t].0@,
                        le_bytes(inputs@[t].prev_transaction_output_hash.0),
                        (#[trigger] inputs@[t]).signature.der@,
                    ),
            ensures
                sum < total ==> c == joined(parts.take(i + 1)).len(),
            decreases m - j,
        {
            let (marked, out) = entry.1[j];
            let ghost before = entry_spendable((e.0, e.1.take(j as int)));
            proof {
                assert((e.0, e.1.take(j + 1)).1.drop_last() =~= e.1.take(j as int));
                assert(e.1.take(j + 1).last() == (marked, out));
            }
            if marked {
                proof {
                    assert(entry_spendable((e.0, e.1.take(j + 1))) == before);
                }
                j = j + 1;
                continue;
            }
            assert(entry_spendable((e.0, e.1.take(j + 1))) == before.push((entry.0, out)));
            if sum >= total {
                break;
            }
            proof {
                lemma_entry_spendable_prefix(e, j + 1);
                let es1 = entry_spendable((e.0, e.1.take(j + 1)));
                assert(es1[before.len() as int] == (entry.0, out));
                assert(entry_spendable(e)[before.len() as int] == (entry.0, out));
                let a = joined(parts.take(i as int));
                assert(c == a.len() + before.len());
                assert(joined(parts.take(i + 1))[c] == (entry.0, out));
                assert(sp[c] == (entry.0, out));
                assert(pick_count(sp, total as nat, c) == pick_count(sp, total as nat, c + 1));
                lemma_pick_count_ge(sp, total as nat, c + 1);
                assert(sp.take(c + 1).drop_last() =~= sp.take(c));
            }
            let k = match find_key(keys, &entry.0) {
                None => {
                    proof {
                        let p = picked(lv, total as nat);
                        assert(spendable(lv) == sp);
                        assert(p == sp.take(pick_count(sp, total as nat, 0)));
                        assert(p.len() > c);
                        assert(p[c] == sp[c]);
                        assert(!has_key(kv, p[c].0));
                        assert(!payment_defined(keys@, listing_view(listing@), amount, fee));
                    }
                    return None;
                },
                Some(k) => k,
            };
            let h = out.hash();
            proof {
                if keys_paired(kv) {
                    assert(kv[k as int].is_pair());
                }
            }
            let sig = Signature::sign_output(&h, &keys[k].private);
            inputs.push(TransactionInput { prev_transaction_output_hash: h, signature: sig });
            match sum.checked_add(out.value) {
                None => {
                    proof {
                        let pc = pick_count(sp, total as nat, 0);
                        lemma_picked_value_mono(sp, c + 1, pc);
                        assert(spendable(lv) == sp);
                        assert(sp.take(pc) == picked(lv, total as nat));
                        assert(picked_value(sp.take(c + 1)) > u64::MAX);
                        assert(!payment_defined(keys@, listing_view(listing@), amount, fee));
                    }
                    return None;
                },
                Some(s2) => {
                    sum = s2;
                },
            }
            proof {
                c = c + 1;
            }
            j = j + 1;
        }
        if sum >= total {
            break;
        }
        i = i + 1;
    }
    let ghost pc = pick_count(sp, total as nat, 0);
    proof {
        if sum < total {
            lemma_pick_count_ge(sp, total as nat, c);
        }
        assert(pc == c);
        assert(picked(lv, total as nat) == sp.take(c));
    }
    if sum < total {
        return Some(Err(WalletError::InsufficientFunds));
    }
    let mut output: Vec<TransactionOutput> = Vec::new();
    output.push(TransactionOutput { value: amount, unique_id: payment_id, pub_key: *recipient });
    if sum > total {
        if keys.len() == 0 {
            return None;
        }
        output.push(TransactionOutput { value: sum - total, unique_id: change_id, pub_key: keys[0].public });
    }
    let t = Transaction { input: inputs, output };
    proof {
        let want = payment_view(kv, lv, *recipient, amount, fee, payment_id, change_id);
        assert(t@.0 =~= want.0);
        assert(t@.1 =~= want.1);
    }
    Some(Ok(t))
}

/// The unclaimed outputs of an entry's first outputs lead those of the entry.
pub proof fn lemma_entry_spendable_prefix(e: ListingEntry, j: int)
    requires
        0 <= j <= e.1.len(),
    ensures
        entry_spendable((e.0, e.1.take(j))).len() <= entry_spendable(e).len(),
        forall|t: int|
            0 <= t < entry_spendable((e.0, e.1.take(j))).len() ==> #[trigger] entry_spendable(
                (e.0, e.1.take(j)),
            )[t] == entry_spendable(e)[t],
    decreases e.1.len(),
{
    if j == e.1.len() {
        assert(e.1.take(j) =~= e.1);
    } else {
        let d = (e.0, e.1.drop_last());
        lemma_entry_spendable_prefix(d, j);
        assert(d.1.take(j) =~= e.1.take(j));
    }
}

/// Whether a listing's keys strictly ascend.
pub open spec fn keys_ascending(l: Seq<ListingEntry>) -> bool {
    forall|i: int, j: int| 0 <= i < j < l.len() ==> key_lt(l[i].0@, l[j].0@)
}

/// The value of the first entries is at most the value of them all.
pub proof fn lemma_listing_value_prefix(l: Seq<ListingEntry>, a: int)
    requires
        0 <= a <= l.len(),
    ensures
        listing_value(l.take(a)) <= listing_value(l),
    decreases l.len(),
{
    if a < l.len() {
        lemma_listing_value_prefix(l.drop_last(), a);
        assert(l.drop_last().take(a) =~= l.take(a));
    } else {
        assert(l.take(a) =~= l);
    }
}

/// The total value of a listing's outputs, claimed or not; `None` where it leaves `u64`.
pub fn balance_of(listing: &Listing) -> (r: Option<u64>)
    ensures
        r is Some <==> listing_value(listing_view(listing@)) <= u64::MAX,
        r matches Some(v) ==> v == listing_value(listing_view(listing@)),
{
    let ghost lv = listing_view(listing@);
    let mut acc: u64 = 0;
    let mut i: usize = 0;
    assert(lv.take(0) =~= Seq::<ListingEntry>::empty());
    while i < listing.len()
        invariant
            i <= listing@.len(),
            lv == listing_view(listing@),
            acc == listing_value(lv.take(i as int)),
        decreases listing@.len() - i,
    {
        let entry = &listing[i];
        let ghost vals = lv[i as int].1.map_values(|p: (bool, TransactionOutput)| p.1);
        assert(lv[i as int] == (entry.0, entry.1@));
        let ghost base = acc as nat;
        let mut j: usize = 0;
        assert(vals.take(0) =~= Seq::<TransactionOutput>::empty());
        while j < entry.1.len()
            invariant
                j <= entry.1@.len(),
                i < listing@.len(),
                lv == listing_view(listing@),
                lv[i as int] == (entry.0, entry.1@),
                vals == lv[i as int].1.map_values(|p: (bool, TransactionOutput)| p.1),
                base == listing_value(lv.take(i as int)),
                acc == base + outputs_value(vals.take(j as int)),
            decreases entry.1@.len() - j,
        {
            proof {
                lemma_outputs_value_take(vals, j as int);
                assert(vals[j as int] == entry.1@[j as int].1);
            }
            match acc.checked_add(entry.1[j].1.value) {
                Some(a) => {
                    acc = a;
                },
                None => {
                    proof {
                        lemma_outputs_value_prefix(vals, j + 1);
                        assert(lv.take(i + 1).drop_last() =~= lv.take(i as int));
                        lemma_listing_value_prefix(lv, i + 1);
                    }
                    return None;
                },
            }
            j = j + 1;
        }
        proof {
            assert(vals.take(entry.1@.len() as int) =~= vals);
            assert(lv.take(i + 1).drop_last() =~= lv.take(i as int));
        }
        i = i + 1;
    }
    assert(lv.take(listing@.len() as int) =~= lv);
    Some(acc)
}

impl UtxosStore {
    /// A store with no keys and no outputs.
    pub fn new() -> (r: UtxosStore)
        ensures
            r.keys@.len() == 0,
    {
        UtxosStore { keys: Vec::new(), utxos: Arc::new(new_store()) }
    }

    /// Files the outputs a node reported for a key (see `utxo_entries`), in place of
    /// those known before.
    pub fn record_utxos(&self, key: &PublicKey, reply: &Vec<(TransactionOutput, bool)>) {
        let entries = utxo_entries(reply);
        store_insert(&self.utxos, key.bytes, entries);
    }

    /// Adds a loaded key pair.
    pub fn add_key(&mut self, keys: LoadedKeys)
        ensures
            final(self).keys@ == old(self).keys@.push(keys),
            final(self).utxos == old(self).utxos,
    {
        self.keys.push(keys);
    }

    /// The keys and their outputs as they stand now, in ascending order of key.
    pub fn listing(&self) -> (r: Listing)
        ensures
            keys_ascending(listing_view(r@)),
    {
        let r = store_entries(&self.utxos);
        assert forall|i: int, j: int| 0 <= i < j < r@.len() implies key_lt(
            listing_view(r@)[i].0@,
            listing_view(r@)[j].0@,
        ) by {
            assert(listing_view(r@)[i].0 == r@[i].0);
            assert(listing_view(r@)[j].0 == r@[j].0);
        }
        r
    }

    /// The total value of the outputs known now, claimed or not; `None` where it leaves
    /// `u64`.
    pub fn get_balance(&self) -> (r: Option<u64>)
        ensures
            exists|l: Seq<ListingEntry>|
                #[trigger] keys_ascending(l) && (r is Some <==> listing_value(l) <= u64::MAX) && (r matches Some(
                    v,
                ) ==> v == listing_value(l)),
            exists|l: Listing|
                call_ensures(UtxosStore::listing, (self,), l) && (r is Some <==> listing_value(
                    listing_view(l@),
                ) <= u64::MAX) && (r matches Some(v) ==> v == listing_value(listing_view(l@))),
    {
        let read = UtxosStore::listing;
        let l = read(self);
        let r = balance_of(&l);
        assert(keys_ascending(listing_view(l@)));
        r
    }

    /// Builds a payment of `amount` with `fee` from the outputs known now (see
    /// `build_payment`); the outputs get fresh random version-4 ids.
    pub fn create_transaction(&self, recipient: &PublicKey, amount: u64, fee: u64) -> (r: Option<
        Result<Transaction, WalletError>,
    >)
        ensures
            exists|l: Seq<ListingEntry>, payment_id: [u8; 16], change_id: [u8; 16]|
                #![trigger payment_view(self.keys@, l, *recipient, amount, fee, payment_id, change_id)]
                keys_ascending(l) && payment_id[6] / 16 == 4 && payment_id[8] / 64 == 2 && change_id[6] / 16
                    == 4 && change_id[8] / 64 == 2 && (r is Some <==> payment_defined(self.keys@, l, amount, fee)) && (
                r matches Some(res) ==> (res is Ok <==> funds_suffice(l, amount, fee))) && (r matches Some(
                    Err(e),
                ) ==> e == WalletError::InsufficientFunds) && (r matches Some(Ok(t)) ==> t@ == payment_view(
                    self.keys@,
                    l,
                    *recipient,
                    amount,
                    fee,
                    payment_id,
                    change_id,
                )) && (keys_paired(self.keys@) ==> (r matches Some(Ok(t)) ==> forall|i: int|
                    0 <= i < t.input@.len() ==> spec_ecdsa_verify(
                        picked(l, (amount + fee) as nat)[i].0@,
                        le_bytes(t.input@[i].prev_transaction_output_hash.0),
                        (#[trigger] t.input@[i]).signature.der@,
                    ))),
            r matches Some(Ok(t)) ==> t.output@.len() >= 1 && t.output@[0].value == amount
                && t.output@[0].pub_key == *recipient,
            r matches Some(Ok(t)) ==> forall|i: int|
                1 <= i < t.output@.len() ==> #[trigger] t.output@[i].pub_key == self.keys@[0].public,
            exists|l: Listing, payment_id: [u8; 16], change_id: [u8; 16]|
                call_ensures(UtxosStore::listing, (self,), l) && call_ensures(
                    build_payment,
                    (&self.keys, &l, recipient, amount, fee, payment_id, change_id),
                    r,
                ),
    {
        let read = UtxosStore::listing;
        let l = read(self);
        let payment_id = random_uuid();
        let change_id = random_uuid();
        let build = build_payment;
        let r = build(&self.keys, &l, recipient, amount, fee, payment_id, change_id);
        let ghost lv = listing_view(l@);
        let ghost pv = payment_view(self.keys@, lv, *recipient, amount, fee, payment_id, change_id);
        assert(keys_ascending(lv) && payment_id[6] / 16 == 4 && payment_id[8] / 64 == 2 && change_id[6] / 16
            == 4 && change_id[8] / 64 == 2 && (r is Some <==> payment_defined(self.keys@, lv, amount, fee)) && (
        r matches Some(res) ==> (res is Ok <==> funds_suffice(lv, amount, fee))) && (r matches Some(
            Err(e),
        ) ==> e == WalletError::InsufficientFunds) && (r matches Some(Ok(t)) ==> t@ == payment_view(
            self.keys@,
            lv,
            *recipient,
            amount,
            fee,
            payment_id,
            change_id,
        )) && (keys_paired(self.keys@) ==> (r matches Some(Ok(t)) ==> forall|i: int|
            0 <= i < t.input@.len() ==> spec_ecdsa_verify(
                picked(lv, (amount + fee) as nat)[i].0@,
                le_bytes(t.input@[i].prev_transaction_output_hash.0),
                (#[trigger] t.input@[i]).signature.der@,
            ))));
        r
    }
}

/// 10^k.
pub open spec fn pow10(k: nat) -> nat
    decreases k,
{
    if k == 0 {
        1
    } else {
        10 * pow10((k - 1) as nat)
    }
}

/// A fraction of `n` decimal digits with value `f`, its trailing zeros dropped: the
/// value and the number of digits left.
pub open spec fn trim_zeros(f: nat, n: nat) -> (nat, nat)
    decreases n,
{
    if n > 0 && f % 10 == 0 {
        trim_zeros(f / 10, (n - 1) as nat)
    } else {
        (f, n)
    }
}

/// The `n` decimal digits of `f`, zero-padded, most significant first, in ASCII.
pub open spec fn padded_digits(f: nat, n: nat) -> Seq<u8> {
    Seq::new(n, |i: int| (48 + (f / pow10((n - 1 - i) as nat)) % 10) as u8)
}

/// An amount of satoshis written in coins: the whole coins, then, where there is a
/// fraction, a point and its eight decimals without trailing zeros; then " Arc".
pub open spec fn arc_bytes(sats: u64) -> Seq<u8> {
    let whole = sats / 100_000_000;
    let frac = sats % 100_000_000;
    let t = trim_zeros(frac as nat, 8);
    dec_digits(whole as nat) + (if frac == 0 {
        Seq::<u8>::empty()
    } else {
        seq![46u8] + padded_digits(t.0, t.1)
    }) + seq![32u8, 65u8, 114u8, 99u8]
}

/// The digits of a number are ASCII digits.
pub proof fn lemma_dec_digits_ascii(n: nat)
    ensures
        forall|i: int| 0 <= i < dec_digits(n).len() ==> 48 <= #[trigger] dec_digits(n)[i] <= 57,
    decreases n,
{
    if n >= 10 {
        lemma_dec_digits_ascii(n / 10);
        let d = dec_digits(n / 10);
        assert(dec_digits(n) == d.push((48 + n % 10) as u8));
        assert forall|i: int| 0 <= i < dec_digits(n).len() implies 48 <= #[trigger] dec_digits(n)[i] <= 57 by {
            if i < d.len() {
                assert(dec_digits(n)[i] == d[i]);
            }
        }
    }
}

/// `String::from_utf8` on ASCII bytes: the string of those characters.
#[verifier::external_body]
fn ascii_string(bytes: Vec<u8>) -> (r: String)
    requires
        forall|i: int| 0 <= i < bytes@.len() ==> #[trigger] bytes@[i] < 128,
    ensures
        r@ == bytes@.map_values(|b: u8| b as char),
{
    String::from_utf8(bytes).unwrap_or_default()
}

/// What `text_to_ascii_art::to_art` gives for a text, a font name and the leading,
/// gap and trailing widths: the drawing, or the message for a character the font
/// cannot draw.
pub uninterp spec fn spec_ascii_art(
    input: Seq<char>,
    font: Seq<char>,
    leading: usize,
    gap: usize,
    trailing: usize,
) -> Result<Seq<char>, Seq<char>>;

/// A `Result` of strings as a `Result` of character sequences.
pub open spec fn text_result(r: Result<String, String>) -> Result<Seq<char>, Seq<char>> {
    match r {
        Ok(s) => Ok(s@),
        Err(e) => Err(e@),
    }
}

/// `text_to_ascii_art::to_art`: the text drawn in large letters of the font (an
/// unknown font name draws in the crate's default font), or an error message where a
/// character has no drawing. It depends on its arguments alone.
#[verifier::external_body]
fn ascii_art(input: String, font: &str, leading: usize, gap: usize, trailing: usize) -> (r: Result<
    String,
    String,
>)
    ensures
        text_result(r) == spec_ascii_art(input@, font@, leading, gap, trailing),
{
    text_to_ascii_art::to_art(input, font, leading, gap, trailing)
}

/// The balance display in large letters: the amount in coins (see `sats_to_arc`)
/// drawn in the bold style with three columns before the text, three between the
/// letters and two after it; the drawing's error message where it cannot be drawn.
pub fn big_mode_arc(balance: u64) -> (r: Result<String, String>)
    ensures
        text_result(r) == spec_ascii_art(
            arc_bytes(balance).map_values(|b: u8| b as char),
            "bold"@,
            3,
            3,
            2,
        ),
{
    ascii_art(sats_to_arc(balance), "bold", 3, 3, 2)
}

/// 10^e for a small exponent.
fn pow10_u64(e: u64) -> (r: u64)
    requires
        e < 8,
    ensures
        r == pow10(e as nat),
        r >= 1,
{
    proof {
        reveal_with_fuel(pow10, 8);
    }
    if e == 0 {
        1
    } else if e == 1 {
        10
    } else if e == 2 {
        100
    } else if e == 3 {
        1000
    } else if e == 4 {
        10000
    } else if e == 5 {
        100000
    } else if e == 6 {
        1000000
    } else {
        10000000
    }
}

/// An amount of satoshis written in coins, such as "1.5 Arc" (see `arc_bytes`).
pub fn sats_to_arc(sats: u64) -> (r: String)
    ensures
        r@ == arc_bytes(sats).map_values(|b: u8| b as char),
{
    let whole = sats / 100_000_000;
    let frac = sats % 100_000_000;
    let w = U256::from_limbs([whole, 0, 0, 0]);
    let mut out = w.to_dec_bytes();
    proof {
        lemma_dec_digits_ascii(whole as nat);
    }
    let ghost digits = out@;
    if frac != 0 {
        let mut f: u64 = frac;
        let mut n: u64 = 8;
        while n > 0 && f % 10 == 0
            invariant
                n <= 8,
                trim_zeros(frac as nat, 8) == trim_zeros(f as nat, n as nat),
            decreases n,
        {
            f = f / 10;
            n = n - 1;
        }
        assert(trim_zeros(f as nat, n as nat) == (f as nat, n as nat));
        out.push(46);
        let ghost mid = out@;
        let mut k: u64 = 0;
        while k < n
            invariant
                k <= n,
                n <= 8,
                out@ == mid + padded_digits(f as nat, n as nat).take(k as int),
            decreases n - k,
        {
            let p = pow10_u64(n - 1 - k);
            let d = ((f / p) % 10) as u8;
            let c: u8 = 48 + d;
            out.push(c);
            assert(padded_digits(f as nat, n as nat).take(k + 1) =~= padded_digits(f as nat, n as nat).take(
                k as int,
            ).push(c));
            k = k + 1;
        }
        assert(padded_digits(f as nat, n as nat).take(n as int) =~= padded_digits(f as nat, n as nat));
    }
    out.push(32);
    out.push(65);
    out.push(114);
    out.push(99);
    assert(out@ =~= arc_bytes(sats));
    assert forall|i: int| 0 <= i < out@.len() implies #[trigger] out@[i] < 128 by {
        if i < digits.len() {
            assert(out@[i] == digits[i]);
        }
    }
    ascii_string(out)
}

/// A payment keeps value: what its outputs pay plus the fee is exactly the value of
/// the outputs it spends.
pub proof fn law_payment_conserves_value(
    keys: Seq<LoadedKeys>,
    l: Seq<ListingEntry>,
    recipient: PublicKey,
    amount: u64,
    fee: u64,
    payment_id: [u8; 16],
    change_id: [u8; 16],
)
    requires
        payment_defined(keys, l, amount, fee),
        funds_suffice(l, amount, fee),
    ensures
        outputs_value(payment_view(keys, l, recipient, amount, fee, payment_id, change_id).1) + fee == picked_value(
            picked(l, (amount + fee) as nat),
        ),
{
    let outs = payment_view(keys, l, recipient, amount, fee, payment_id, change_id).1;
    let total = (amount + fee) as nat;
    let sum = picked_value(picked(l, total));
    let first = TransactionOutput { value: amount, unique_id: payment_id, pub_key: recipient };
    assert(outputs_value(seq![first]) == amount) by {
        assert(seq![first].drop_last() =~= Seq::<TransactionOutput>::empty());
        assert(outputs_value(Seq::<TransactionOutput>::empty()) == 0);
    }
    if sum > total {
        let change = TransactionOutput {
            value: (sum - total) as u64,
            unique_id: change_id,
            pub_key: keys[0].public,
        };
        assert(outs == seq![first, change]);
        assert(seq![first, change].drop_last() =~= seq![first]);
        assert(outputs_value(outs) == amount + (sum - total));
    } else {
        assert(outs == seq![first]);
    }
}

/// Each unclaimed output of an entry is an output of the entry that is not claimed.
proof fn lemma_entry_spendable_from(e: ListingEntry, t: int)
    requires
        0 <= t < entry_spendable(e).len(),
    ensures
        entry_spendable(e)[t].0 == e.0,
        exists|j: int| 0 <= j < e.1.len() && e.1[j] == (false, entry_spendable(e)[t].1),
    decreases e.1.len(),
{
    let d = (e.0, e.1.drop_last());
    let prev = entry_spendable(d);
    if t < prev.len() {
        lemma_entry_spendable_from(d, t);
        let j = choose|j: int| 0 <= j < d.1.len() && d.1[j] == (false, prev[t].1);
        assert(e.1[j] == d.1[j]);
    } else {
        assert(e.1[e.1.len() - 1] == (false, entry_spendable(e)[t].1));
    }
}

/// Each element of a joined sequence comes from one of its parts.
proof fn lemma_joined_member<A>(parts: Seq<Seq<A>>, t: int)
    requires
        0 <= t < joined(parts).len(),
    ensures
        exists|i: int, u: int| 0 <= i < parts.len() && 0 <= u < parts[i].len() && joined(parts)[t] == parts[i][u],
    decreases parts.len(),
{
    let prev = joined(parts.drop_last());
    if t < prev.len() {
        lemma_joined_member(parts.drop_last(), t);
        let (i, u) = choose|i: int, u: int|
            0 <= i < parts.drop_last().len() && 0 <= u < parts.drop_last()[i].len() && prev[t] == parts.drop_last()[i][u];
        assert(parts[i] == parts.drop_last()[i]);
    } else {
        let i = parts.len() - 1;
        assert(joined(parts)[t] == parts[i][t - prev.len()]);
    }
}

/// A payment spends only unclaimed outputs of the listing, each with the key it is
/// listed under.
pub proof fn law_payment_spends_unclaimed(l: Seq<ListingEntry>, total: nat)
    ensures
        forall|t: int|
            0 <= t < picked(l, total).len() ==> exists|i: int, j: int|
                0 <= i < l.len() && 0 <= j < l[i].1.len() && l[i].0 == (#[trigger] picked(l, total)[t]).0
                    && l[i].1[j] == (false, picked(l, total)[t].1),
{
    let sp = spendable(l);
    let parts = l.map_values(|e: ListingEntry| entry_spendable(e));
    lemma_pick_count_ge(sp, total, 0);
    assert forall|t: int| 0 <= t < picked(l, total).len() implies exists|i: int, j: int|
        0 <= i < l.len() && 0 <= j < l[i].1.len() && l[i].0 == (#[trigger] picked(l, total)[t]).0
            && l[i].1[j] == (false, picked(l, total)[t].1) by {
        assert(picked(l, total)[t] == sp[t]);
        lemma_joined_member(parts, t);
        let (i, u) = choose|i: int, u: int| 0 <= i < parts.len() && 0 <= u < parts[i].len() && sp[t] == parts[i][u];
        assert(parts[i] == entry_spendable(l[i]));
        lemma_entry_spendable_from(l[i], u);
        let j = choose|j: int| 0 <= j < l[i].1.len() && l[i].1[j] == (false, entry_spendable(l[i])[u].1);
        assert(l[i].0 == picked(l, total)[t].0 && l[i].1[j] == (false, picked(l, total)[t].1));
    }
}

/// The value of one listing entry's outputs, claimed or not.
pub open spec fn entry_value(e: ListingEntry) -> nat {
    outputs_value(e.1.map_values(|p: (bool, TransactionOutput)| p.1))
}

/// Every key's coins count in a listing's balance: the balance (see `balance_of` and
/// `get_balance`) is at least the value of each entry, and of the entries up to any
/// point together with the next one.
pub proof fn law_balance_counts_every_key(l: Seq<ListingEntry>, k: int)
    requires
        0 <= k < l.len(),
    ensures
        listing_value(l.take(k)) + entry_value(l[k]) <= listing_value(l),
        entry_value(l[k]) <= listing_value(l),
{
    lemma_listing_value_prefix(l, k + 1);
    assert(l.take(k + 1).drop_last() =~= l.take(k));
    assert(l.take(k + 1).last() == l[k]);
}

/// Taking outputs stops where their value reaches the total or where they run out.
proof fn lemma_pick_count_stops(s: Seq<([u8; 65], TransactionOutput)>, total: nat, k: int)
    requires
        0 <= k <= s.len(),
    ensures
        picked_value(s.take(pick_count(s, total, k))) >= total || pick_count(s, total, k) == s.len(),
    decreases s.len() - k,
{
    if k < s.len() && picked_value(s.take(k)) < total {
        lemma_pick_count_stops(s, total, k + 1);
    }
}

/// A payment lacks funds exactly where all the unclaimed outputs of the listing, of
/// every key, together do not cover the amount and the fee (see `build_payment` and
/// `create_transaction`): no key's coins are left out of the search.
pub proof fn law_funds_suffice_iff_unclaimed_cover(l: Seq<ListingEntry>, amount: u64, fee: u64)
    ensures
        funds_suffice(l, amount, fee) <==> picked_value(spendable(l)) >= amount + fee,
{
    let sp = spendable(l);
    let total = (amount + fee) as nat;
    let pc = pick_count(sp, total, 0);
    lemma_pick_count_ge(sp, total, 0);
    lemma_pick_count_stops(sp, total, 0);
    lemma_picked_value_mono(sp, pc, sp.len() as int);
    assert(sp.take(sp.len() as int) =~= sp);
}

} // verus!
