use k256::pkcs8::EncodePublicKey;
use arcnet::crypto::{PrivateKey, PublicKey, Signature};
use arcnet::timestamp::Timestamp;
use arcnet::types::block::{Block, BlockHeader};
use arcnet::types::transaction::{Transaction, TransactionInput, TransactionOutput};
use arcnet::u256::U256;
use arcnet::util::MarkleRoot;
use ciborium::Value;

fn u256_value(x: &U256) -> Value {
    Value::Array(vec![
        Value::Integer(x.l0.into()),
        Value::Integer(x.l1.into()),
        Value::Integer(x.l2.into()),
        Value::Integer(x.l3.into()),
    ])
}

fn cbor(v: &Value) -> Vec<u8> {
    let mut out = Vec::new();
    ciborium::into_writer(v, &mut out).unwrap();
    out
}

fn text(s: &str) -> Value {
    Value::Text(s.to_string())
}

fn key_of(secret_last: u8) -> PrivateKey {
    let mut secret = [0u8; 32];
    secret[31] = secret_last;
    PrivateKey { secret }
}

fn verifying_key(k: &PublicKey) -> k256::ecdsa::VerifyingKey {
    k256::ecdsa::VerifyingKey::from_sec1_bytes(&k.bytes).unwrap()
}

fn output_value(o: &TransactionOutput) -> Value {
    Value::Map(vec![
        (text("value"), Value::Integer(o.value.into())),
        (text("unique_id"), Value::Bytes(o.unique_id.to_vec())),
        (text("pub_key"), Value::serialized(&verifying_key(&o.pub_key)).unwrap()),
    ])
}

fn input_value(i: &TransactionInput) -> Value {
    let sig = ecdsa::der::Signature::<k256::Secp256k1>::from_bytes(&i.signature.der).unwrap();
    Value::Map(vec![
        (text("prev_transaction_output_hash"), u256_value(&i.prev_transaction_output_hash.0)),
        (text("signature"), Value::serialized(&sig).unwrap()),
    ])
}

fn tx_value(t: &Transaction) -> Value {
    Value::Map(vec![
        (text("input"), Value::Array(t.input.iter().map(input_value).collect())),
        (text("output"), Value::Array(t.output.iter().map(output_value).collect())),
    ])
}

fn sha256_hash(bytes: &[u8]) -> U256 {
    let digest = sha256::digest(bytes);
    let raw = hex::decode(digest).unwrap();
    let mut limbs = [0u64; 4];
    for i in 0..4 {
        let mut w = [0u8; 8];
        w.copy_from_slice(&raw[24 - 8 * i..32 - 8 * i]);
        limbs[i] = u64::from_be_bytes(w);
    }
    U256::from_limbs(limbs)
}

fn same(a: &U256, b: &U256) -> bool {
    a.l0 == b.l0 && a.l1 == b.l1 && a.l2 == b.l2 && a.l3 == b.l3
}

fn sample_output(value: u64, secret_last: u8, id: u8) -> TransactionOutput {
    TransactionOutput { value, unique_id: [id; 16], pub_key: key_of(secret_last).public_key() }
}

#[test]
fn hash_of_empty_input_is_the_sha256_of_nothing() {
    let h = arcnet::sha256::Hash::hash_bytes(&[]);
    assert_eq!(h.0.l3, 0xe3b0c44298fc1c14);
    assert_eq!(h.0.l2, 0x9afbf4c8996fb924);
    assert_eq!(h.0.l1, 0x27ae41e4649b934c);
    assert_eq!(h.0.l0, 0xa495991b7852b855);
}

#[test]
fn hash_of_abc() {
    let h = arcnet::sha256::Hash::hash_bytes(b"abc");
    assert_eq!(h.0.l3, 0xba7816bf8f01cfea);
    assert_eq!(h.0.l0, 0xb410ff61f20015ad);
}

#[test]
fn hash_bytes_are_little_endian() {
    let h = arcnet::sha256::Hash(U256::from_limbs([0x0807060504030201, 0, 0, 0xff00000000000000]));
    let b = h.as_bytes();
    assert_eq!(b.len(), 32);
    assert_eq!(&b[0..8], &[1, 2, 3, 4, 5, 6, 7, 8]);
    assert_eq!(b[31], 0xff);
    assert_eq!(b[30], 0);
}

#[test]
fn zero_hash_and_target_comparison() {
    let z = arcnet::sha256::Hash::zero();
    assert!(same(&z.0, &U256::zero()));
    assert!(same(&z.zero_hash().0, &U256::zero()));
    z.check_matches(U256::zero());
    let h = arcnet::sha256::Hash(U256::from_limbs([5, 0, 0, 0]));
    assert!(h.matches_target(U256::from_limbs([5, 0, 0, 0])));
    assert!(!h.matches_target(U256::from_limbs([4, 0, 0, 0])));
    assert!(h.equals(&arcnet::sha256::Hash(U256::from_limbs([5, 0, 0, 0]))));
    assert!(!h.equals(&z));
}

#[test]
fn output_encoding_matches_ciborium() {
    let o = sample_output(1234, 7, 9);
    let mut buf = Vec::new();
    o.encode_into(&mut buf);
    assert_eq!(buf, cbor(&output_value(&o)));
    assert!(same(&o.hash().0, &sha256_hash(&buf)));
}

#[test]
fn transaction_encoding_matches_ciborium() {
    let o = sample_output(50, 3, 1);
    let sig = Signature::sign_output(&o.hash(), &key_of(3));
    let tx = Transaction::new(
        vec![TransactionInput { prev_transaction_output_hash: o.hash(), signature: sig }],
        vec![sample_output(20, 4, 2), sample_output(30, 3, 3)],
    );
    let mut buf = Vec::new();
    tx.encode_into(&mut buf);
    assert_eq!(buf, cbor(&tx_value(&tx)));
    assert!(same(&tx.hash().0, &sha256_hash(&buf)));
}

#[test]
fn header_and_block_encoding_match_ciborium() {
    let tx = Transaction::new(vec![], vec![sample_output(5_000_000_000, 1, 1)]);
    let root = MarkleRoot::calculate(&[tx.copy()]);
    let ts = Timestamp { secs: 1_700_000_000, nanos: 123_456_789 };
    let header = BlockHeader::new(ts, 42, arcnet::sha256::Hash(U256::from_limbs([1, 2, 3, 4])), root, U256::from_limbs([9, 9, 9, 9]));
    let dt = chrono::DateTime::from_timestamp(ts.secs, ts.nanos).unwrap();
    let header_value = Value::Map(vec![
        (text("timestamp"), Value::serialized(&dt).unwrap()),
        (text("nonce"), Value::Integer(42u64.into())),
        (text("prev_block_hash"), u256_value(&U256::from_limbs([1, 2, 3, 4]))),
        (text("markle_root"), u256_value(&root.0.0)),
        (text("target"), u256_value(&U256::from_limbs([9, 9, 9, 9]))),
    ]);
    let mut buf = Vec::new();
    header.encode_into(&mut buf);
    assert_eq!(buf, cbor(&header_value));
    assert!(same(&header.hash().0, &sha256_hash(&buf)));
    let block = Block::new(header, vec![tx]);
    let block_value = Value::Map(vec![
        (text("header"), header_value),
        (text("transactions"), Value::Array(block.transactions.iter().map(tx_value).collect())),
    ]);
    let mut bbuf = Vec::new();
    block.encode_into(&mut bbuf);
    assert_eq!(bbuf, cbor(&block_value));
    assert!(same(&block.hash().0, &sha256_hash(&bbuf)));
}

#[test]
fn merkle_root_of_one_transaction_is_its_hash() {
    let tx = Transaction::new(vec![], vec![sample_output(10, 2, 2)]);
    let root = MarkleRoot::calculate(&[tx.copy()]);
    assert!(same(&root.0.0, &tx.hash().0));
}

#[test]
fn merkle_root_of_three_transactions() {
    let txs: Vec<Transaction> =
        (1..=3).map(|i| Transaction::new(vec![], vec![sample_output(i, 2, i as u8)])).collect();
    let hs: Vec<U256> = txs.iter().map(|t| t.hash().0).collect();
    let pair = |a: &U256, b: &U256| sha256_hash(&cbor(&Value::Array(vec![u256_value(a), u256_value(b)])));
    let l01 = pair(&hs[0], &hs[1]);
    let l22 = pair(&hs[2], &hs[2]);
    let expected = pair(&l01, &l22);
    let root = MarkleRoot::calculate(&txs);
    assert!(same(&root.0.0, &expected));
    assert!(root.equals(&MarkleRoot(arcnet::sha256::Hash(expected))));
}

#[test]
fn signatures_verify_under_their_key_only() {
    let o = sample_output(1, 5, 5);
    let h = o.hash();
    let sig = Signature::sign_output(&h, &key_of(5));
    assert!(sig.verify(&h, &key_of(5).public_key()));
    assert!(!sig.verify(&h, &key_of(6).public_key()));
    assert!(!sig.verify(&arcnet::sha256::Hash::zero(), &key_of(5).public_key()));
    assert!(sig.copy().verify(&h, &key_of(5).public_key()));
}

#[test]
fn public_key_of_one_is_the_generator() {
    let pk = key_of(1).public_key();
    assert_eq!(pk.bytes[0], 4);
    assert_eq!(&pk.bytes[1..5], &[0x79, 0xBE, 0x66, 0x7E]);
    assert_eq!(&pk.bytes[33..37], &[0x48, 0x3A, 0xDA, 0x77]);
    assert!(pk.equals(&key_of(1).public_key()));
    assert!(!pk.equals(&key_of(2).public_key()));
}

#[test]
fn fresh_private_keys_differ() {
    let a = PrivateKey::new();
    let b = PrivateKey::new();
    assert_ne!(a.secret, b.secret);
    assert!(!a.public_key().equals(&b.public_key()));
}

#[test]
fn fresh_key_signatures_verify_under_its_public_key() {
    let sk = PrivateKey::new();
    let pk = sk.public_key();
    assert_ne!(pk.bytes, [0u8; 65]);
    let msg = b"pay the recipient";
    let sig = Signature::sign_message(msg, &sk);
    assert!(sig.verify_message(msg, &pk));
    assert!(!sig.verify_message(b"pay someone else", &pk));
    let invalid = PrivateKey { secret: [0u8; 32] };
    assert_eq!(invalid.public_key().bytes, [0u8; 65]);
}

#[test]
fn public_keys_round_trip_through_pem() {
    let pk = key_of(7).public_key();
    let text = arcnet::crypto::public_key_to_pem(&pk).unwrap();
    let expected = verifying_key(&pk).to_public_key_pem(Default::default()).unwrap();
    assert_eq!(text, expected);
    assert!(text.starts_with("-----BEGIN PUBLIC KEY-----"));
    let back = arcnet::crypto::public_key_from_pem(&text).unwrap();
    assert_eq!(back.bytes, pk.bytes);
    let other = arcnet::crypto::public_key_from_pem(&arcnet::crypto::public_key_to_pem(&key_of(8).public_key()).unwrap()).unwrap();
    assert_ne!(other.bytes, pk.bytes);
}

#[test]
fn bad_pem_and_bad_keys_are_refused() {
    assert!(arcnet::crypto::public_key_from_pem("not a key").is_none());
    assert!(arcnet::crypto::public_key_from_pem("").is_none());
    assert!(arcnet::crypto::public_key_to_pem(&PublicKey { bytes: [0u8; 65] }).is_none());
}

#[test]
fn fresh_keys_are_valid_and_differ() {
    let a = PrivateKey::new();
    let b = PrivateKey::new();
    assert_ne!(a.public_key().bytes, [0u8; 65]);
    assert_eq!(a.public_key().bytes[0], 4);
    assert_ne!(a.secret, b.secret);
}
