use arcnet::error::ArcNetError;
use arcnet::timestamp::Timestamp;
use arcnet::types::transaction::TransactionOutput;
use arcnet::types::utxos::UtxoSet;
use arcnet::u256::{U256, parse_dec_bytes};

fn same(a: &U256, b: &U256) -> bool {
    a.l0 == b.l0 && a.l1 == b.l1 && a.l2 == b.l2 && a.l3 == b.l3
}

#[test]
fn decimal_text_reads_back() {
    for x in [U256::zero(), U256::from_limbs([7, 0, 0, 0]), U256::from_limbs([1, 2, 3, 4]), U256::from_limbs([u64::MAX; 4])] {
        let text = x.to_dec_bytes();
        assert!(same(&parse_dec_bytes(&text).unwrap(), &x));
    }
    assert_eq!(U256::from_limbs([1234, 0, 0, 0]).to_dec_bytes(), b"1234".to_vec());
    assert_eq!(U256::from_limbs([0, 1, 0, 0]).to_dec_bytes(), b"18446744073709551616".to_vec());
}

#[test]
fn decimal_parsing_edges() {
    assert!(same(&parse_dec_bytes(b"").unwrap(), &U256::zero()));
    assert!(same(&parse_dec_bytes(b"007").unwrap(), &U256::from_limbs([7, 0, 0, 0])));
    assert!(parse_dec_bytes(b"12a").is_none());
    assert!(parse_dec_bytes(b"-1").is_none());
    let max = U256::from_limbs([u64::MAX; 4]).to_dec_bytes();
    assert!(parse_dec_bytes(&max).is_some());
    let mut over = max.clone();
    *over.last_mut().unwrap() += 1;
    assert!(parse_dec_bytes(&over).is_none());
}

#[test]
fn u256_arithmetic() {
    let x = U256::from_limbs([10, 0, 0, 0]);
    let (q, r) = x.div_rem_u64(4);
    assert!(same(&q, &U256::from_limbs([2, 0, 0, 0])));
    assert_eq!(r, 2);
    let (p, carry) = U256::from_limbs([u64::MAX, 0, 0, 0]).mul_u64(2);
    assert!(same(&p, &U256::from_limbs([u64::MAX - 1, 1, 0, 0])));
    assert_eq!(carry, 0);
    let (_, carry) = U256::from_limbs([0, 0, 0, u64::MAX]).mul_u64(4);
    assert_eq!(carry, 3);
    let (s, wrapped) = U256::from_limbs([u64::MAX; 4]).add_u64(1);
    assert!(wrapped);
    assert!(same(&s, &U256::zero()));
    assert!(U256::from_limbs([0, 0, 0, 1]).lt(&U256::from_limbs([0, 0, 1, 1])));
    assert!(U256::from_limbs([5, 0, 0, 0]).le(&U256::from_limbs([5, 0, 0, 0])));
    assert!(same(&x.min(U256::from_limbs([3, 0, 0, 0])), &U256::from_limbs([3, 0, 0, 0])));
    assert_eq!(U256::from_limbs([1, 2, 3, 4]).to_limbs(), [1, 2, 3, 4]);
    assert!(U256::from_limbs([1, 2, 3, 4]).eq(&U256::from_limbs([1, 2, 3, 4])));
}

#[test]
fn big_endian_bytes_and_little_endian_bytes() {
    let mut be = [0u8; 32];
    be[31] = 1;
    be[0] = 0x80;
    let x = U256::from_be_bytes(&be);
    assert_eq!(x.l0, 1);
    assert_eq!(x.l3, 0x8000_0000_0000_0000);
    let le = x.to_le_bytes();
    assert_eq!(le[0], 1);
    assert_eq!(le[31], 0x80);
}

#[test]
fn error_messages() {
    assert_eq!(ArcNetError::InvalidTransaction.message(), "Invalid transaction");
    assert_eq!(ArcNetError::InvalidMerkleError.message(), "Invalid merkle root");
    assert_eq!(ArcNetError::InvalidSignature.message(), "Invalid signature");
    assert_eq!(ArcNetError::InvalidBlock.message(), "Invalid block");
}

#[test]
fn timestamps_order_by_seconds_then_nanoseconds() {
    let a = Timestamp { secs: 10, nanos: 5 };
    assert!(a.before(&Timestamp { secs: 10, nanos: 6 }));
    assert!(a.before(&Timestamp { secs: 11, nanos: 0 }));
    assert!(!a.before(&a));
    assert!(Timestamp::now().secs > 1_600_000_000);
}

#[test]
fn unspent_outputs_behave_as_a_map() {
    let o = TransactionOutput { value: 3, unique_id: [1; 16], pub_key: arcnet::crypto::PublicKey { bytes: [4; 65] } };
    let h = arcnet::sha256::Hash(U256::from_limbs([1, 0, 0, 0]));
    let g = arcnet::sha256::Hash(U256::from_limbs([2, 0, 0, 0]));
    let mut s = UtxoSet::new();
    s.insert(h, false, o);
    s.insert(g, true, o);
    s.insert(h, true, o);
    assert_eq!(s.entries.len(), 2);
    assert!(s.get(&h).unwrap().0);
    s.set_marked(&h, false);
    assert!(!s.get(&h).unwrap().0);
    s.remove(&h);
    assert!(!s.contains_key(&h));
    assert!(s.contains_key(&g));
    assert_eq!(s.copy().entries.len(), 1);
}
