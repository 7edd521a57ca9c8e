use arcnet::crypto::{PrivateKey, Signature};
use arcnet::miner::{LongestChain, MinerState, MinerStep};
use arcnet::network::{Message, frame, frame_length};
use arcnet::node::{NodeAction, block_template, handle_message, height_difference, template_is_current, utxos_of};
use arcnet::timestamp::Timestamp;
use arcnet::types::block::{Block, BlockHeader};
use arcnet::types::blockchain::Blockchain;
use arcnet::types::transaction::{Transaction, TransactionInput, TransactionOutput};
use arcnet::u256::U256;
use arcnet::util::MarkleRoot;

fn key(n: u8) -> PrivateKey {
    let mut secret = [0u8; 32];
    secret[31] = n;
    PrivateKey { secret }
}

fn out(value: u64, owner: u8, id: u8) -> TransactionOutput {
    TransactionOutput { value, unique_id: [id; 16], pub_key: key(owner).public_key() }
}

fn at(secs: i64) -> Timestamp {
    Timestamp { secs, nanos: 0 }
}

fn genesis() -> Block {
    let txs = vec![Transaction::new(vec![], vec![out(5_000_000_000, 1, 0)])];
    let root = MarkleRoot::calculate(&txs);
    Block::new(BlockHeader::new(at(1_000), 0, arcnet::sha256::Hash::zero(), root, U256::from_limbs([u64::MAX; 4])), txs)
}

fn spend(prev: &TransactionOutput, owner: u8, outputs: Vec<TransactionOutput>) -> Transaction {
    let h = prev.hash();
    Transaction::new(
        vec![TransactionInput { prev_transaction_output_hash: h, signature: Signature::sign_output(&h, &key(owner)) }],
        outputs,
    )
}

#[test]
fn frames_announce_their_length() {
    let f = frame(b"hello");
    assert_eq!(f.len(), 13);
    assert_eq!(&f[0..8], &5u64.to_be_bytes());
    assert_eq!(&f[8..], b"hello");
    let mut header = [0u8; 8];
    header.copy_from_slice(&f[0..8]);
    assert_eq!(frame_length(&header), 5);
    assert_eq!(frame_length(&[1, 0, 0, 0, 0, 0, 0, 2]), 0x0100_0000_0000_0002);
}

#[test]
fn replies_to_a_node_close_the_connection() {
    let mut chain = Blockchain::new();
    let r = handle_message(&mut chain, Message::Difference(3), at(1), [0; 16]);
    assert!(matches!(r, NodeAction::Close));
    let r = handle_message(&mut chain, Message::TemplateValidity(true), at(1), [0; 16]);
    assert!(matches!(r, NodeAction::Close));
}

#[test]
fn block_requests_answer_with_the_block_or_close() {
    let mut chain = Blockchain::new();
    chain.blocks.push(genesis());
    match handle_message(&mut chain, Message::FetchBlock(0), at(1), [0; 16]) {
        NodeAction::Reply(Message::NewBlock(b)) => assert!(b.hash().equals(&chain.blocks[0].hash())),
        _ => panic!("expected the block"),
    }
    assert!(matches!(handle_message(&mut chain, Message::FetchBlock(1), at(1), [0; 16]), NodeAction::Close));
}

#[test]
fn height_difference_is_answered() {
    let mut chain = Blockchain::new();
    chain.blocks.push(genesis());
    assert_eq!(height_difference(&chain, 0), 1);
    assert_eq!(height_difference(&chain, 5), -4);
    assert!(matches!(
        handle_message(&mut chain, Message::AskDifference(0), at(1), [0; 16]),
        NodeAction::Reply(Message::Difference(1))
    ));
    assert!(matches!(handle_message(&mut chain, Message::DiscoverNodes, at(1), [0; 16]), NodeAction::SendNodeList));
}

#[test]
fn utxos_of_a_key_are_listed_with_their_marks() {
    let mut chain = Blockchain::new();
    let a = out(10, 1, 1);
    let b = out(20, 2, 2);
    let c = out(30, 1, 3);
    chain.utxos.insert(a.hash(), false, a);
    chain.utxos.insert(b.hash(), true, b);
    chain.utxos.insert(c.hash(), true, c);
    let mine = utxos_of(&chain, &key(1).public_key());
    assert_eq!(mine.len(), 2);
    assert_eq!((mine[0].0.value, mine[0].1), (10, false));
    assert_eq!((mine[1].0.value, mine[1].1), (30, true));
    match handle_message(&mut chain, Message::FetchUTXOs(key(2).public_key()), at(1), [0; 16]) {
        NodeAction::Reply(Message::UTXOs(v)) => assert_eq!(v.len(), 1),
        _ => panic!("expected the outputs"),
    }
}

#[test]
fn template_on_an_empty_chain_pays_the_full_subsidy() {
    let chain = Blockchain::new();
    let b = block_template(&chain, key(4).public_key(), at(77), [5; 16]).unwrap().unwrap();
    assert_eq!(b.transactions.len(), 1);
    assert_eq!(b.transactions[0].output[0].value, 5_000_000_000);
    assert_eq!(b.transactions[0].output[0].unique_id, [5; 16]);
    assert!(b.header.prev_block_hash.equals(&arcnet::sha256::Hash::zero()));
    assert_eq!(b.header.nonce, 0);
    assert_eq!(b.header.timestamp.secs, 77);
    assert!(b.header.markle_root.equals(&MarkleRoot::calculate(&b.transactions)));
    assert!(template_is_current(&chain, &b));
}

#[test]
fn template_takes_mempool_transactions_and_their_fees() {
    let mut chain = Blockchain::new();
    chain.blocks.push(genesis());
    let a = out(100, 2, 1);
    chain.utxos.insert(a.hash(), false, a);
    chain.add_to_mempool_at(spend(&a, 2, vec![out(60, 3, 2)]), at(5)).unwrap();
    match handle_message(&mut chain, Message::FetchTemplate(key(4).public_key()), at(9), [6; 16]) {
        NodeAction::Reply(Message::Template(b)) => {
            assert_eq!(b.transactions.len(), 2);
            assert_eq!(b.transactions[0].output[0].value, 5_000_000_040);
            assert!(b.header.prev_block_hash.equals(&chain.blocks[0].hash()));
            assert!(template_is_current(&chain, &b));
        },
        _ => panic!("expected a template"),
    }
}

#[test]
fn submitted_transactions_are_passed_on() {
    let mut chain = Blockchain::new();
    let a = out(100, 2, 1);
    chain.utxos.insert(a.hash(), false, a);
    let tx = spend(&a, 2, vec![out(60, 3, 2)]);
    let h = tx.hash();
    match handle_message(&mut chain, Message::SubmitTransaction(tx), at(5), [0; 16]) {
        NodeAction::Broadcast(Message::NewTransaction(t)) => assert!(t.hash().equals(&h)),
        _ => panic!("expected a broadcast"),
    }
    assert_eq!(chain.mempool().len(), 1);
    let again = spend(&out(1, 2, 9), 2, vec![]);
    assert!(matches!(handle_message(&mut chain, Message::NewTransaction(again), at(6), [0; 16]), NodeAction::Close));
}

#[test]
fn submitted_block_is_added_rebuilt_and_passed_on() {
    let mut chain = Blockchain::new();
    chain.blocks.push(genesis());
    let txs = vec![Transaction::new(vec![], vec![out(5_000_000_000, 1, 1)])];
    let root = MarkleRoot::calculate(&txs);
    let b = Block::new(BlockHeader::new(at(2_000), 0, chain.blocks[0].hash(), root, U256::from_limbs([u64::MAX; 4])), txs);
    let h = b.hash();
    let cb = b.transactions[0].hash();
    match handle_message(&mut chain, Message::SubmitTemplate(b), at(5), [0; 16]) {
        NodeAction::Broadcast(Message::NewBlock(x)) => assert!(x.hash().equals(&h)),
        _ => panic!("expected a broadcast"),
    }
    assert_eq!(chain.block_height(), 2);
    assert!(chain.utxos().contains_key(&cb));
    let stale = genesis();
    assert!(matches!(handle_message(&mut chain, Message::NewBlock(stale), at(6), [0; 16]), NodeAction::Continue));
    assert_eq!(chain.block_height(), 2);
}

#[test]
fn miner_fetches_then_validates_then_stops() {
    let mut m = MinerState::new();
    assert!(matches!(m.next_request(key(1).public_key()), Some(Message::FetchTemplate(_))));
    assert_eq!(m.on_template_reply(Message::Template(genesis())), MinerStep::Accepted);
    assert!(m.mining);
    assert!(matches!(m.next_request(key(1).public_key()), Some(Message::ValidateTemplate(_))));
    assert_eq!(m.on_validity_reply(Message::TemplateValidity(true)), MinerStep::Accepted);
    assert!(m.mining);
    assert_eq!(m.on_validity_reply(Message::DiscoverNodes), MinerStep::Unexpected);
    assert_eq!(m.on_validity_reply(Message::TemplateValidity(false)), MinerStep::Accepted);
    assert!(!m.mining);
    assert_eq!(m.on_template_reply(Message::DiscoverNodes), MinerStep::Unexpected);
    m.on_block_done();
    assert!(!m.mining);
}

#[test]
fn longest_chain_keeps_the_largest_count() {
    let mut l = LongestChain::new();
    l.observe("a:1".to_string(), &Message::Difference(3));
    l.observe("b:2".to_string(), &Message::Difference(2));
    l.observe("c:3".to_string(), &Message::DiscoverNodes);
    assert_eq!(l.name, "a:1");
    assert_eq!(l.blocks(), 3);
    l.observe("d:4".to_string(), &Message::Difference(9));
    assert_eq!(l.name, "d:4");
}

#[test]
fn submitted_block_with_failing_transactions_closes_and_changes_nothing() {
    let mut chain = Blockchain::new();
    chain.blocks.push(genesis());
    let a = out(700, 2, 1);
    chain.utxos.insert(a.hash(), false, a);
    let txs = vec![Transaction::new(vec![], vec![out(5_000_000_100, 1, 1)]), spend(&a, 3, vec![out(600, 3, 2)])];
    let root = MarkleRoot::calculate(&txs);
    let b = Block::new(BlockHeader::new(at(2_000), 0, chain.blocks[0].hash(), root, U256::from_limbs([u64::MAX; 4])), txs);
    assert!(matches!(handle_message(&mut chain, Message::SubmitTemplate(b), at(5), [0; 16]), NodeAction::Close));
    assert_eq!(chain.block_height(), 1);
    assert_eq!(chain.utxos().entries.len(), 1);
    assert!(chain.utxos().contains_key(&a.hash()));
}
