use arcnet::crypto::{PrivateKey, Signature};
use arcnet::error::ArcNetError;
use arcnet::timestamp::Timestamp;
use arcnet::types::block::{Block, BlockHeader};
use arcnet::types::blockchain::{Blockchain, default_target, next_target};
use arcnet::types::transaction::{Transaction, TransactionInput, TransactionOutput};
use arcnet::types::utxos::UtxoSet;
use arcnet::u256::{U256, parse_dec_bytes};
use arcnet::util::MarkleRoot;

fn key(n: u8) -> PrivateKey {
    let mut secret = [0u8; 32];
    secret[31] = n;
    PrivateKey { secret }
}

fn out(value: u64, owner: u8, id: u8) -> TransactionOutput {
    TransactionOutput { value, unique_id: [id; 16], pub_key: key(owner).public_key() }
}

fn coinbase(value: u64, id: u8) -> Transaction {
    Transaction::new(vec![], vec![out(value, 1, id)])
}

fn spend(prev: &TransactionOutput, owner: u8, outputs: Vec<TransactionOutput>) -> Transaction {
    let h = prev.hash();
    Transaction::new(
        vec![TransactionInput { prev_transaction_output_hash: h, signature: Signature::sign_output(&h, &key(owner)) }],
        outputs,
    )
}

fn max_target() -> U256 {
    U256::from_limbs([u64::MAX; 4])
}

fn at(secs: i64) -> Timestamp {
    Timestamp { secs, nanos: 0 }
}

fn make_block(prev: &Block, txs: Vec<Transaction>, secs: i64) -> Block {
    let root = MarkleRoot::calculate(&txs);
    Block::new(BlockHeader::new(at(secs), 0, prev.hash(), root, max_target()), txs)
}

fn genesis() -> Block {
    let txs = vec![coinbase(5_000_000_000, 0)];
    let root = MarkleRoot::calculate(&txs);
    Block::new(BlockHeader::new(at(1_000), 0, arcnet::sha256::Hash::zero(), root, max_target()), txs)
}

fn chain_with_genesis() -> Blockchain {
    let mut chain = Blockchain::new();
    chain.blocks.push(genesis());
    chain
}

fn same(a: &U256, b: &U256) -> bool {
    a.l0 == b.l0 && a.l1 == b.l1 && a.l2 == b.l2 && a.l3 == b.l3
}

fn dec(s: &str) -> U256 {
    parse_dec_bytes(s.as_bytes()).unwrap()
}

#[test]
fn new_chain_is_empty_with_the_easiest_target() {
    let chain = Blockchain::new();
    assert_eq!(chain.block_height(), 0);
    assert!(chain.mempool().is_empty());
    assert!(chain.blocks().is_empty());
    assert!(same(&chain.target(), &default_target()));
    assert_eq!(default_target().l3, 0x0000_FFFF_FFFF_FFFF);
    assert_eq!(default_target().l0, u64::MAX);
    assert!(chain.utxos().entries.is_empty());
}

#[test]
fn genesis_block_needs_a_zero_header_hash() {
    let mut chain = Blockchain::new();
    assert_eq!(chain.add_block_checked(genesis()), Some(Err(ArcNetError::InvalidBlock)));
    assert_eq!(chain.block_height(), 0);
}

#[test]
fn block_on_the_tip_with_the_right_coinbase_is_added() {
    let mut chain = chain_with_genesis();
    let b = make_block(&chain.blocks[0], vec![coinbase(5_000_000_000, 1)], 2_000);
    assert_eq!(chain.add_block(b), Ok(()));
    assert_eq!(chain.block_height(), 2);
    assert!(same(&chain.target(), &default_target()));
}

#[test]
fn block_not_naming_the_tip_is_refused_and_changes_nothing() {
    let mut chain = chain_with_genesis();
    let other = make_block(&chain.blocks[0], vec![coinbase(1, 5)], 1_500);
    let b = make_block(&other, vec![coinbase(5_000_000_000, 1)], 2_000);
    assert_eq!(chain.add_block(b), Err(ArcNetError::InvalidBlock));
    assert_eq!(chain.block_height(), 1);
}

#[test]
fn block_missing_its_target_is_refused() {
    let mut chain = chain_with_genesis();
    let mut b = make_block(&chain.blocks[0], vec![coinbase(5_000_000_000, 1)], 2_000);
    b.header.target = U256::zero();
    assert_eq!(chain.add_block(b), Err(ArcNetError::InvalidBlock));
}

#[test]
fn block_with_a_wrong_merkle_root_is_refused() {
    let mut chain = chain_with_genesis();
    let mut b = make_block(&chain.blocks[0], vec![coinbase(5_000_000_000, 1)], 2_000);
    b.header.markle_root = MarkleRoot(arcnet::sha256::Hash::zero());
    assert_eq!(chain.add_block(b), Err(ArcNetError::InvalidMerkleError));
}

#[test]
fn block_not_later_than_the_tip_is_refused() {
    let mut chain = chain_with_genesis();
    let b = make_block(&chain.blocks[0], vec![coinbase(5_000_000_000, 1)], 1_000);
    assert_eq!(chain.add_block(b), Err(ArcNetError::InvalidBlock));
}

#[test]
fn coinbase_verdict_does_not_decide_the_block() {
    let mut chain = chain_with_genesis();
    let b = make_block(&chain.blocks[0], vec![coinbase(5_000_000_001, 1)], 2_000);
    assert_eq!(b.verify_coinbase_transaction(1, chain.utxos()), Err(ArcNetError::InvalidTransaction));
    assert_eq!(chain.add_block_checked(b), Some(Ok(())));
    assert_eq!(chain.block_height(), 2);
}

#[test]
fn block_without_transactions_is_refused() {
    let mut chain = chain_with_genesis();
    let b = Block::new(
        BlockHeader::new(at(2_000), 0, chain.blocks[0].hash(), MarkleRoot(arcnet::sha256::Hash::zero()), max_target()),
        vec![],
    );
    assert_eq!(chain.add_block_checked(b), Some(Err(ArcNetError::InvalidMerkleError)));
    assert_eq!(chain.block_height(), 1);
}

#[test]
fn block_whose_transactions_fail_is_refused_with_their_error() {
    let mut chain = chain_with_genesis();
    let a = out(700, 2, 1);
    chain.utxos.insert(a.hash(), false, a);
    let forged = spend(&a, 3, vec![out(600, 3, 2)]);
    let b = make_block(&chain.blocks[0], vec![coinbase(5_000_000_100, 1), forged], 2_000);
    assert_eq!(b.verify_transaction(1, chain.utxos()), Err(ArcNetError::InvalidSignature));
    let target_before = chain.target();
    assert_eq!(chain.add_block(b.copy()), Err(ArcNetError::InvalidSignature));
    assert_eq!(chain.add_block_checked(b), Some(Err(ArcNetError::InvalidSignature)));
    assert_eq!(chain.block_height(), 1);
    assert!(same(&chain.target(), &target_before));
    assert!(chain.utxos().contains_key(&a.hash()));
    assert_eq!(chain.utxos().entries.len(), 1);
}

#[test]
fn miners_fee_is_spent_less_paid() {
    let mut utxos = UtxoSet::new();
    let a = out(700, 2, 1);
    utxos.insert(a.hash(), false, a);
    let tx = spend(&a, 2, vec![out(650, 3, 2)]);
    let b = Block::new(BlockHeader::new(at(1), 0, arcnet::sha256::Hash::zero(), MarkleRoot(arcnet::sha256::Hash::zero()), max_target()), vec![coinbase(0, 9), tx]);
    assert_eq!(b.calculate_miners_fee(&utxos), Ok(50));
    assert_eq!(b.verify_coinbase_transaction(0, &utxos), Err(ArcNetError::InvalidTransaction));
    assert_eq!(b.verify_transaction(0, &utxos), Ok(()));
}

#[test]
fn miners_fee_refuses_unknown_repeated_and_many_outputs() {
    let mut utxos = UtxoSet::new();
    let a = out(700, 2, 1);
    utxos.insert(a.hash(), false, a);
    let unknown = out(1, 2, 7);
    let empty_header = BlockHeader::new(at(1), 0, arcnet::sha256::Hash::zero(), MarkleRoot(arcnet::sha256::Hash::zero()), max_target());
    let b1 = Block::new(empty_header, vec![coinbase(0, 9), spend(&unknown, 2, vec![])]);
    assert_eq!(b1.calculate_miners_fee(&utxos), Err(ArcNetError::InvalidTransaction));
    let b2 = Block::new(empty_header, vec![coinbase(0, 9), spend(&a, 2, vec![]), spend(&a, 2, vec![])]);
    assert_eq!(b2.calculate_miners_fee(&utxos), Err(ArcNetError::InvalidTransaction));
    let b3 = Block::new(empty_header, vec![coinbase(0, 9), spend(&a, 2, vec![out(1, 3, 3), out(1, 3, 4)])]);
    assert_eq!(b3.calculate_miners_fee(&utxos), Err(ArcNetError::InvalidTransaction));
}

#[test]
fn coinbase_paying_subsidy_and_fee_is_valid() {
    let mut utxos = UtxoSet::new();
    let a = out(700, 2, 1);
    utxos.insert(a.hash(), false, a);
    let tx = spend(&a, 2, vec![out(650, 3, 2)]);
    let h = BlockHeader::new(at(1), 0, arcnet::sha256::Hash::zero(), MarkleRoot(arcnet::sha256::Hash::zero()), max_target());
    let b = Block::new(h, vec![coinbase(5_000_000_050, 9), tx.copy()]);
    assert_eq!(b.verify_coinbase_transaction(0, &utxos), Ok(()));
    let halved = Block::new(h, vec![coinbase(2_500_000_050, 9), tx.copy()]);
    assert_eq!(halved.verify_coinbase_transaction(240, &utxos), Ok(()));
    let spends = Block::new(h, vec![spend(&a, 2, vec![out(5_000_000_050, 1, 1)]), tx]);
    assert_eq!(spends.verify_coinbase_transaction(0, &utxos), Err(ArcNetError::InvalidTransaction));
}

#[test]
fn verification_reports_the_first_failure() {
    let mut utxos = UtxoSet::new();
    let a = out(700, 2, 1);
    utxos.insert(a.hash(), false, a);
    let h = BlockHeader::new(at(1), 0, arcnet::sha256::Hash::zero(), MarkleRoot(arcnet::sha256::Hash::zero()), max_target());
    let empty = Block::new(h, vec![]);
    assert_eq!(empty.verify_transaction_checked(0, &utxos), Some(Err(ArcNetError::InvalidTransaction)));
    let badly_signed = Block::new(h, vec![coinbase(5_000_000_000, 9), spend(&a, 3, vec![out(700, 3, 2)])]);
    assert_eq!(badly_signed.verify_transaction(0, &utxos), Err(ArcNetError::InvalidSignature));
    let overspends = Block::new(h, vec![coinbase(5_000_000_000, 9), spend(&a, 2, vec![out(701, 3, 2)])]);
    assert_eq!(overspends.verify_transaction_checked(0, &utxos), None);
    let unknown = Block::new(h, vec![coinbase(5_000_000_000, 9), spend(&out(1, 2, 8), 2, vec![])]);
    assert_eq!(unknown.verify_transaction_checked(0, &utxos), None);
}

#[test]
fn mining_meets_an_easy_target_at_once_and_steps_otherwise() {
    let root = MarkleRoot(arcnet::sha256::Hash::zero());
    let mut easy = BlockHeader::new(at(5), 7, arcnet::sha256::Hash::zero(), root, max_target());
    assert!(easy.mine(10));
    assert_eq!(easy.nonce, 7);
    let mut hard = BlockHeader::new(at(5), 7, arcnet::sha256::Hash::zero(), root, U256::zero());
    assert!(!hard.mine(3));
    assert_eq!(hard.nonce, 10);
    assert_eq!(hard.timestamp.secs, 5);
}

#[test]
fn mining_finds_a_nonce_for_a_moderate_target() {
    let root = MarkleRoot(arcnet::sha256::Hash::zero());
    let target = U256::from_limbs([u64::MAX, u64::MAX, u64::MAX, 0x00FF_FFFF_FFFF_FFFF]);
    let mut h = BlockHeader::new(at(5), 0, arcnet::sha256::Hash::zero(), root, target);
    assert!(h.mine(100_000));
    assert!(h.hash().matches_target(target));
}

fn chain_of(n: usize, span: i64) -> Blockchain {
    let mut chain = Blockchain::new();
    let g = genesis();
    for i in 0..n {
        let mut b = g.copy();
        b.header.timestamp = at(if i + 1 == n { 1_000 + span } else { 1_000 });
        chain.blocks.push(b);
    }
    chain
}

#[test]
fn target_is_kept_between_adjustments() {
    let mut chain = chain_of(49, 100);
    chain.try_adjust_target();
    assert!(same(&chain.target(), &default_target()));
}

#[test]
fn target_scales_with_the_time_the_interval_took() {
    let mut chain = chain_of(50, 250);
    chain.try_adjust_target();
    assert!(same(&chain.target(), &dec("883423532389192164791648750371459257913741948437809479060803100646309887")));
}

#[test]
fn target_is_clamped_to_a_quarter() {
    let mut chain = chain_of(50, 100);
    chain.try_adjust_target();
    assert!(same(&chain.target(), &dec("441711766194596082395824375185729628956870974218904739530401550323154943")));
}

#[test]
fn target_never_exceeds_the_easiest() {
    let mut chain = chain_of(50, 5_000);
    chain.try_adjust_target();
    assert!(same(&chain.target(), &default_target()));
    assert_eq!(chain.calculate_block_reward(), 5_000_000_000);
}

#[test]
fn negative_interval_leaves_the_target_unadjusted() {
    let mut chain = chain_of(50, -100);
    assert!(!chain.try_adjust_target_checked());
    assert!(same(&chain.target(), &default_target()));
}

#[test]
fn next_target_reads_the_integer_part() {
    let t = U256::from_limbs([1000, 0, 0, 0]);
    assert!(same(&next_target(t, b"1500.75").unwrap(), &U256::from_limbs([1500, 0, 0, 0])));
    assert!(same(&next_target(t, b"10").unwrap(), &U256::from_limbs([250, 0, 0, 0])));
    assert!(same(&next_target(t, b"99999").unwrap(), &U256::from_limbs([4000, 0, 0, 0])));
    assert!(next_target(t, b"-5").is_none());
    assert!(same(&next_target(t, b"1.5E+3").unwrap(), &U256::from_limbs([250, 0, 0, 0])));
    assert!(next_target(t, b"1E+3").is_none());
    assert!(same(&next_target(t, b".5").unwrap(), &U256::from_limbs([250, 0, 0, 0])));
}

#[test]
fn block_reward_halves_every_interval() {
    let mut chain = chain_of(240, 0);
    assert_eq!(chain.calculate_block_reward(), 2_500_000_000);
    for _ in 0..240 {
        let b = chain.blocks[0].copy();
        chain.blocks.push(b);
    }
    assert_eq!(chain.calculate_block_reward(), 1_250_000_000);
}

#[test]
fn rebuilding_files_outputs_under_the_transaction_hash() {
    let mut chain = chain_with_genesis();
    let b = make_block(&chain.blocks[0], vec![coinbase(5_000_000_000, 1)], 2_000);
    let cb_hash = b.transactions[0].hash();
    chain.add_block(b).unwrap();
    chain.rebuild_utxos();
    let g_hash = chain.blocks[0].transactions[0].hash();
    let (marked, o) = chain.utxos().get(&cb_hash).unwrap();
    assert!(!marked);
    assert_eq!(o.value, 5_000_000_000);
    assert!(chain.utxos().contains_key(&g_hash));
    assert_eq!(chain.utxos().entries.len(), 2);
}

#[test]
fn block_spending_an_output_twice_cannot_pass() {
    let mut utxos = UtxoSet::new();
    let a = out(700, 2, 1);
    utxos.insert(a.hash(), false, a);
    let h = BlockHeader::new(at(1), 0, arcnet::sha256::Hash::zero(), MarkleRoot(arcnet::sha256::Hash::zero()), max_target());
    let twice = Block::new(
        h,
        vec![coinbase(5_000_000_000, 9), spend(&a, 2, vec![out(300, 3, 2)]), spend(&a, 2, vec![out(300, 3, 3)])],
    );
    assert_eq!(twice.calculate_miners_fee(&utxos), Err(ArcNetError::InvalidTransaction));
    assert_eq!(twice.verify_transaction_checked(0, &utxos), None);
}

#[test]
fn checked_fee_and_coinbase_answer_where_the_plain_ones_cannot_run() {
    let mut utxos = UtxoSet::new();
    let a = out(700, 2, 1);
    utxos.insert(a.hash(), false, a);
    let header = BlockHeader::new(at(1), 0, arcnet::sha256::Hash::zero(), MarkleRoot(arcnet::sha256::Hash::zero()), max_target());
    let good = Block::new(header, vec![coinbase(5_000_000_050, 9), spend(&a, 2, vec![out(650, 3, 2)])]);
    assert_eq!(good.calculate_miners_fee_checked(&utxos), Some(Ok(50)));
    assert_eq!(good.verify_coinbase_transaction_checked(0, &utxos), Some(Ok(())));
    let underpaid = Block::new(header, vec![coinbase(1, 9), spend(&a, 2, vec![out(650, 3, 2)])]);
    assert_eq!(underpaid.verify_coinbase_transaction_checked(0, &utxos), Some(Err(ArcNetError::InvalidTransaction)));
    let unknown = Block::new(header, vec![coinbase(0, 9), spend(&out(1, 2, 7), 2, vec![])]);
    assert_eq!(unknown.calculate_miners_fee_checked(&utxos), Some(Err(ArcNetError::InvalidTransaction)));
    assert_eq!(unknown.verify_coinbase_transaction_checked(0, &utxos), None);
    let empty = Block::new(header, vec![]);
    assert_eq!(empty.verify_coinbase_transaction_checked(0, &utxos), None);
    assert_eq!(empty.calculate_miners_fee_checked(&utxos), Some(Ok(0)));
}
