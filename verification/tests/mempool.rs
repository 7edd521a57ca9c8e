use arcnet::crypto::{PrivateKey, Signature};
use arcnet::error::ArcNetError;
use arcnet::timestamp::Timestamp;
use arcnet::types::blockchain::Blockchain;
use arcnet::types::transaction::{Transaction, TransactionInput, TransactionOutput};

fn key(n: u8) -> PrivateKey {
    let mut secret = [0u8; 32];
    secret[31] = n;
    PrivateKey { secret }
}

fn out(value: u64, owner: u8, id: u8) -> TransactionOutput {
    TransactionOutput { value, unique_id: [id; 16], pub_key: key(owner).public_key() }
}

fn spend(prevs: &[&TransactionOutput], owner: u8, outputs: Vec<TransactionOutput>) -> Transaction {
    let input = prevs
        .iter()
        .map(|p| {
            let h = p.hash();
            TransactionInput { prev_transaction_output_hash: h, signature: Signature::sign_output(&h, &key(owner)) }
        })
        .collect();
    Transaction::new(input, outputs)
}

fn at(secs: i64) -> Timestamp {
    Timestamp { secs, nanos: 0 }
}

fn chain_with(outputs: &[&TransactionOutput]) -> Blockchain {
    let mut chain = Blockchain::new();
    for o in outputs {
        chain.utxos.insert(o.hash(), false, **o);
    }
    chain
}

fn marked(chain: &Blockchain, o: &TransactionOutput) -> bool {
    chain.utxos().get(&o.hash()).unwrap().0
}

#[test]
fn unknown_input_is_refused_and_nothing_changes() {
    let a = out(100, 2, 1);
    let mut chain = chain_with(&[&a]);
    let stranger = out(5, 2, 9);
    let r = chain.add_to_mempool_at(spend(&[&stranger], 2, vec![out(1, 3, 2)]), at(10));
    assert_eq!(r, Err(ArcNetError::InvalidTransaction));
    assert!(chain.mempool().is_empty());
    assert!(!marked(&chain, &a));
}

#[test]
fn repeated_input_is_refused() {
    let a = out(100, 2, 1);
    let mut chain = chain_with(&[&a]);
    let r = chain.add_to_mempool_at(spend(&[&a, &a], 2, vec![out(1, 3, 2)]), at(10));
    assert_eq!(r, Err(ArcNetError::InvalidTransaction));
    assert!(chain.mempool().is_empty());
}

#[test]
fn paying_more_than_spent_is_refused() {
    let a = out(100, 2, 1);
    let mut chain = chain_with(&[&a]);
    let r = chain.add_to_mempool_at(spend(&[&a], 2, vec![out(101, 3, 2)]), at(10));
    assert_eq!(r, Err(ArcNetError::InvalidTransaction));
    assert!(chain.mempool().is_empty());
    assert!(!marked(&chain, &a));
}

#[test]
fn admitted_transaction_marks_its_inputs() {
    let a = out(100, 2, 1);
    let mut chain = chain_with(&[&a]);
    let tx = spend(&[&a], 2, vec![out(90, 3, 2)]);
    let h = tx.hash();
    assert_eq!(chain.add_to_mempool_at(tx, at(10)), Ok(()));
    assert!(marked(&chain, &a));
    assert_eq!(chain.mempool().len(), 1);
    assert_eq!(chain.mempool()[0].0.secs, 10);
    assert!(chain.mempool()[0].1.hash().equals(&h));
}

#[test]
fn mempool_is_ordered_by_fee_lowest_first() {
    let a = out(100, 2, 1);
    let b = out(100, 2, 2);
    let c = out(100, 2, 3);
    let mut chain = chain_with(&[&a, &b, &c]);
    assert_eq!(chain.add_to_mempool_at(spend(&[&a], 2, vec![out(70, 3, 4)]), at(1)), Ok(()));
    assert_eq!(chain.add_to_mempool_at(spend(&[&b], 2, vec![out(90, 3, 5)]), at(2)), Ok(()));
    assert_eq!(chain.add_to_mempool_at(spend(&[&c], 2, vec![out(90, 3, 6)]), at(3)), Ok(()));
    let secs: Vec<i64> = chain.mempool().iter().map(|(t, _)| t.secs).collect();
    assert_eq!(secs, vec![2, 3, 1]);
}

#[test]
fn claimed_output_spent_again_releases_its_mark_first() {
    let a = out(100, 2, 1);
    let mut chain = chain_with(&[&a]);
    assert_eq!(chain.add_to_mempool_at(spend(&[&a], 2, vec![out(90, 3, 2)]), at(1)), Ok(()));
    assert_eq!(chain.add_to_mempool_at(spend(&[&a], 2, vec![out(80, 3, 3)]), at(2)), Ok(()));
    assert!(marked(&chain, &a));
    assert_eq!(chain.mempool().len(), 2);
    let secs: Vec<i64> = chain.mempool().iter().map(|(t, _)| t.secs).collect();
    assert_eq!(secs, vec![1, 2]);
}

#[test]
fn transaction_creating_a_claimed_output_leaves_the_mempool() {
    let a = out(100, 2, 1);
    let child_out = out(90, 3, 2);
    let mut chain = chain_with(&[&a, &child_out]);
    chain.utxos.set_marked(&child_out.hash(), true);
    assert_eq!(chain.add_to_mempool_at(spend(&[&a], 2, vec![child_out]), at(1)), Ok(()));
    assert_eq!(chain.mempool().len(), 1);
    assert_eq!(chain.add_to_mempool_at(spend(&[&child_out], 3, vec![out(10, 4, 5)]), at(2)), Ok(()));
    assert_eq!(chain.mempool().len(), 1);
    assert_eq!(chain.mempool()[0].0.secs, 2);
    assert!(marked(&chain, &a));
    assert!(marked(&chain, &child_out));
}

#[test]
fn checked_admission_reports_fees_that_cannot_be_taken() {
    let a = out(100, 2, 1);
    let b = out(100, 2, 2);
    let mut chain = chain_with(&[&a, &b]);
    assert_eq!(chain.add_to_mempool_at(spend(&[&a], 2, vec![out(90, 3, 2)]), at(1)), Ok(()));
    chain.utxos.remove(&a.hash());
    assert_eq!(chain.add_to_mempool_checked_at(spend(&[&b], 2, vec![out(90, 3, 3)]), at(2)), None);
    assert_eq!(chain.mempool().len(), 1);
    assert!(!marked(&chain, &b));
}

#[test]
fn cleaning_drops_expired_entries_and_releases_their_outputs() {
    let a = out(100, 2, 1);
    let b = out(100, 2, 2);
    let mut chain = chain_with(&[&a, &b]);
    assert_eq!(chain.add_to_mempool_at(spend(&[&a], 2, vec![out(90, 3, 3)]), at(1_000)), Ok(()));
    assert_eq!(chain.add_to_mempool_at(spend(&[&b], 2, vec![out(95, 3, 4)]), at(1_500)), Ok(()));
    chain.clean_mempool_at(at(1_700));
    assert_eq!(chain.mempool().len(), 1);
    assert_eq!(chain.mempool()[0].0.secs, 1_500);
    assert!(!marked(&chain, &a));
    assert!(marked(&chain, &b));
    chain.clean_mempool_at(at(1_000_000));
    assert!(chain.mempool().is_empty());
    assert!(!marked(&chain, &b));
}

#[test]
fn cleaning_now_keeps_fresh_entries() {
    let a = out(100, 2, 1);
    let mut chain = chain_with(&[&a]);
    assert_eq!(chain.add_to_mempool(spend(&[&a], 2, vec![out(90, 3, 3)])), Ok(()));
    chain.clean_mempool();
    assert_eq!(chain.mempool().len(), 1);
    assert!(marked(&chain, &a));
}
