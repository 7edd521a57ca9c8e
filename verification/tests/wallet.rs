use arcnet::crypto::{PrivateKey, Signature};
use arcnet::types::transaction::TransactionOutput;
use arcnet::wallet::{FeeType, LoadedKeys, Unit, UtxosStore, WalletError, build_payment, balance_of, sats_to_arc};

fn key(n: u8) -> PrivateKey {
    let mut secret = [0u8; 32];
    secret[31] = n;
    PrivateKey { secret }
}

fn loaded(n: u8) -> LoadedKeys {
    LoadedKeys { public: key(n).public_key(), private: key(n) }
}

fn out(value: u64, owner: u8, id: u8) -> TransactionOutput {
    TransactionOutput { value, unique_id: [id; 16], pub_key: key(owner).public_key() }
}

type Listing = Vec<([u8; 65], Vec<(bool, TransactionOutput)>)>;

fn listing(entries: Vec<(u8, Vec<(bool, TransactionOutput)>)>) -> Listing {
    entries.into_iter().map(|(owner, outs)| (key(owner).public_key().bytes, outs)).collect()
}

#[test]
fn payment_with_change_balances() {
    let a = out(60, 1, 1);
    let b = out(50, 1, 2);
    let l = listing(vec![(1, vec![(false, a), (false, b)])]);
    let tx = build_payment(&vec![loaded(1)], &l, &key(9).public_key(), 100, 5, [7; 16], [8; 16]).unwrap().unwrap();
    assert_eq!(tx.input.len(), 2);
    assert!(tx.input[0].prev_transaction_output_hash.equals(&a.hash()));
    assert!(tx.input[1].prev_transaction_output_hash.equals(&b.hash()));
    assert!(tx.input[0].signature.verify(&a.hash(), &key(1).public_key()));
    assert_eq!(tx.output.len(), 2);
    assert_eq!(tx.output[0].value, 100);
    assert!(tx.output[0].pub_key.equals(&key(9).public_key()));
    assert_eq!(tx.output[0].unique_id, [7; 16]);
    assert_eq!(tx.output[1].value, 5);
    assert_eq!(tx.output[1].unique_id, [8; 16]);
    assert!(tx.output[1].pub_key.equals(&key(1).public_key()));
    assert_eq!(tx.output[0].value + tx.output[1].value + 5, 110);
}

#[test]
fn exact_payment_has_no_change_and_skips_claimed_outputs() {
    let claimed = out(1_000, 1, 1);
    let a = out(105, 1, 2);
    let extra = out(40, 1, 3);
    let l = listing(vec![(1, vec![(true, claimed), (false, a), (false, extra)])]);
    let tx = build_payment(&vec![loaded(1)], &l, &key(9).public_key(), 100, 5, [7; 16], [8; 16]).unwrap().unwrap();
    assert_eq!(tx.input.len(), 1);
    assert!(tx.input[0].prev_transaction_output_hash.equals(&a.hash()));
    assert_eq!(tx.output.len(), 1);
}

#[test]
fn payment_pays_the_recipient_and_change_to_the_first_key() {
    let a = out(200, 2, 1);
    let l = listing(vec![(2, vec![(false, a)])]);
    let tx = build_payment(&vec![loaded(1), loaded(2)], &l, &key(9).public_key(), 100, 0, [7; 16], [8; 16]).unwrap().unwrap();
    assert_eq!(tx.output.len(), 2);
    assert!(tx.output[0].pub_key.equals(&key(9).public_key()));
    assert!(!tx.output[0].pub_key.equals(&key(1).public_key()));
    assert_eq!(tx.output[0].value, 100);
    assert!(tx.output[1].pub_key.equals(&key(1).public_key()));
    assert_eq!(tx.output[1].value, 100);
    assert!(tx.input[0].signature.verify(&a.hash(), &key(2).public_key()));
}

#[test]
fn insufficient_funds_is_reported() {
    let l = listing(vec![(1, vec![(false, out(10, 1, 1)), (true, out(500, 1, 2))])]);
    let r = build_payment(&vec![loaded(1)], &l, &key(9).public_key(), 100, 5, [7; 16], [8; 16]);
    assert_eq!(r.map(|x| x.map(|_| ())), Some(Err(WalletError::InsufficientFunds)));
}

#[test]
fn output_of_an_unloaded_key_cannot_be_spent() {
    let l = listing(vec![(3, vec![(false, out(500, 3, 1))])]);
    assert!(build_payment(&vec![loaded(1)], &l, &key(9).public_key(), 100, 5, [7; 16], [8; 16]).is_none());
}

#[test]
fn payment_without_keys_cannot_be_built() {
    let l = listing(vec![(1, vec![(false, out(50, 1, 1))])]);
    assert!(build_payment(&vec![], &l, &key(9).public_key(), 10, 0, [7; 16], [8; 16]).is_none());
}

#[test]
fn payment_of_nothing_needs_no_keys() {
    let l = listing(vec![]);
    let tx = build_payment(&vec![], &l, &key(9).public_key(), 0, 0, [7; 16], [8; 16]).unwrap().unwrap();
    assert_eq!(tx.input.len(), 0);
    assert_eq!(tx.output.len(), 1);
    assert_eq!(tx.output[0].value, 0);
    assert!(tx.output[0].pub_key.equals(&key(9).public_key()));
}

#[test]
fn amount_and_fee_overflowing_cannot_be_built() {
    let l = listing(vec![]);
    assert!(build_payment(&vec![loaded(1)], &l, &key(9).public_key(), u64::MAX, 1, [7; 16], [8; 16]).is_none());
}

#[test]
fn balance_counts_claimed_outputs_too() {
    let l = listing(vec![(1, vec![(false, out(10, 1, 1)), (true, out(500, 1, 2))]), (2, vec![(false, out(7, 2, 3))])]);
    assert_eq!(balance_of(&l), Some(517));
    let big = listing(vec![(1, vec![(false, out(u64::MAX, 1, 1)), (false, out(1, 1, 2))])]);
    assert_eq!(balance_of(&big), None);
}

#[test]
fn empty_store_has_no_balance_and_cannot_pay() {
    let mut store = UtxosStore::new();
    store.add_key(loaded(1));
    assert_eq!(store.get_balance(), Some(0));
    let r = store.create_transaction(&key(2).public_key(), 10, 1);
    assert_eq!(r.map(|x| x.map(|_| ())), Some(Err(WalletError::InsufficientFunds)));
}

#[test]
fn store_lists_keys_in_ascending_order_and_pays() {
    let mut store = UtxosStore::new();
    store.add_key(loaded(1));
    store.add_key(loaded(2));
    store.utxos.insert(key(2).public_key().bytes, vec![(false, out(30, 2, 1))]);
    store.utxos.insert(key(1).public_key().bytes, vec![(false, out(80, 1, 2))]);
    let l = store.listing();
    assert_eq!(l.len(), 2);
    assert!(l[0].0 < l[1].0);
    assert_eq!(store.get_balance(), Some(110));
    let tx = store.create_transaction(&key(3).public_key(), 100, 2).unwrap().unwrap();
    assert_eq!(tx.input.len(), 2);
    assert_eq!(tx.output.len(), 2);
    assert_eq!(tx.output[1].value, 8);
    assert!(tx.output[0].pub_key.equals(&key(3).public_key()));
    assert!(tx.output[1].pub_key.equals(&key(1).public_key()));
    assert_ne!(tx.output[0].unique_id, tx.output[1].unique_id);
    for o in &tx.output {
        assert_eq!(o.unique_id[6] >> 4, 4);
        assert_eq!(o.unique_id[8] >> 6, 2);
    }
}

#[test]
fn amounts_are_written_in_coins() {
    assert_eq!(sats_to_arc(0), "0 Arc");
    assert_eq!(sats_to_arc(150_000_000), "1.5 Arc");
    assert_eq!(sats_to_arc(1), "0.00000001 Arc");
    assert_eq!(sats_to_arc(5_000_000_000), "50 Arc");
    assert_eq!(sats_to_arc(123_456_789), "1.23456789 Arc");
    for sats in [0u64, 1, 10, 99_999_999, 100_000_000, 123_400_000, 2_100_000_000_000_000] {
        assert_eq!(sats_to_arc(sats), format!("{} Arc", sats as f64 / 100_000_000.0));
    }
}

#[test]
fn units_toggle_and_have_labels() {
    assert_eq!(Unit::Sats.toggled(), Unit::Arcs);
    assert_eq!(Unit::Arcs.toggled(), Unit::Sats);
    assert_eq!(Unit::Arcs.label(), "Arcs");
    assert_eq!(Unit::Sats.label(), "Sats");
    assert_ne!(FeeType::Fixed, FeeType::Percent);
}

#[test]
fn signing_keys_are_deterministic() {
    let h = out(1, 1, 1).hash();
    assert_eq!(Signature::sign_output(&h, &key(1)).der, Signature::sign_output(&h, &key(1)).der);
}

#[test]
fn balance_is_drawn_in_large_letters() {
    let drawn = arcnet::wallet::big_mode_arc(150_000_000).unwrap();
    let expected = text_to_ascii_art::to_art("1.5 Arc".to_string(), "bold", 3, 3, 2).unwrap();
    assert_eq!(drawn, expected);
    assert!(drawn.lines().count() > 1);
    assert_ne!(arcnet::wallet::big_mode_arc(0).unwrap(), drawn);
}

#[test]
fn reported_outputs_are_filed_mark_first() {
    let a = out(10, 1, 1);
    let b = out(20, 1, 2);
    let entries = arcnet::wallet::utxo_entries(&vec![(a, true), (b, false)]);
    assert_eq!(entries.len(), 2);
    assert!(entries[0].0 && entries[0].1.hash().equals(&a.hash()));
    assert!(!entries[1].0 && entries[1].1.hash().equals(&b.hash()));
    let mut store = UtxosStore::new();
    store.add_key(loaded(1));
    store.record_utxos(&key(1).public_key(), &vec![(a, true), (b, false)]);
    assert_eq!(store.get_balance(), Some(30));
    store.record_utxos(&key(1).public_key(), &vec![(b, false)]);
    assert_eq!(store.get_balance(), Some(20));
}
