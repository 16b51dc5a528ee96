use k256::ecdsa::{RecoveryId, Signature as EcdsaSignature, SigningKey};
use k256::EncodedPoint;
use pint::block::Block;
use pint::builder::{default_payload, BuildArguments};
use pint::consensus::{ConsensusAction, ConsensusEvent, ConsensusState};
use pint::db::{genesis_accounts_info, InMemoryDB};
use pint::message::NetworkHandleMessage;
use pint::miner::{mine_batch, MineOutcome, POLL_INTERVAL};
use pint::pool::{PoolErrorKind, TransactionOrigin};
use pint::provider::{BlockImporter, ProviderFactory};
use pint::transaction::{Signature, SignedTransaction, Transaction};
use pint::txpool::Pool;
use pint::types::Address;
use pint::u256::U256;
use sha2::{Digest, Sha256};

fn key(seed: &str) -> (SigningKey, Address) {
    let sk = SigningKey::from_bytes(&Sha256::digest(seed.as_bytes())).unwrap();
    let point: EncodedPoint = sk.verifying_key().to_encoded_point(false);
    let bytes = point.as_bytes();
    let addr: [u8; 20] = bytes[bytes.len() - 20..].try_into().unwrap();
    (sk, Address::from_byte(addr))
}

fn signed(sk: &SigningKey, to: Address, nonce: u64, fee: u128, value: u128) -> SignedTransaction {
    let tx = Transaction { chain_id: 0, nonce, to, fee, value: U256::from_u128(value) };
    let hash = tx.encode_for_signing();
    let (sig, recid): (EcdsaSignature, RecoveryId) =
        sk.sign_digest_recoverable(Sha256::new_with_prefix(hash.hash().0)).unwrap();
    let r: [u8; 32] = sig.r().to_bytes().into();
    let s: [u8; 32] = sig.s().to_bytes().into();
    SignedTransaction::new(
        tx,
        Signature { y_parity: recid.to_byte() != 0, r: U256::from_be_bytes(&r, 0), s: U256::from_be_bytes(&s, 0) },
        hash,
    )
}

/// Builds, mines and imports one block the way the consensus engine does.
fn produce_block(importer: &mut BlockImporter, pool: &mut Pool, miner: Address, timestamp: u64) -> Block {
    let parent = importer.provider.db().get_latest_block_header();
    let args = BuildArguments::new(miner, parent, 4);
    let payload = default_payload(args, &importer.provider, &pool.pool, timestamp).unwrap();
    let (mut consensus, _) = ConsensusState::new();
    let header = payload.header;
    let actions = consensus.step(ConsensusEvent::Payload(payload));
    assert!(matches!(actions[0], ConsensusAction::MinePayload(_)));
    let mut start = 0;
    let mined = loop {
        match mine_batch(&header, start, POLL_INTERVAL) {
            MineOutcome::Found(h) => break h,
            MineOutcome::Exhausted(next) => start = next,
        }
    };
    let mut actions = consensus.step(ConsensusEvent::MiningSuccess(mined));
    let block = match actions.pop() {
        Some(ConsensusAction::ImportBlock(b)) => b,
        other => panic!("unexpected {:?}", other),
    };
    let result = importer.import_new_block(block.duplicate());
    assert_eq!(result, Ok(()));
    let actions = consensus.step(ConsensusEvent::Imported(block.duplicate(), result));
    assert!(matches!(actions[2], ConsensusAction::BroadcastBlock(_)));
    pool.remove_block_transactions(&block);
    pool.reorganize_pool(&importer.provider);
    block
}

fn genesis_node() -> BlockImporter {
    let db = InMemoryDB::genesis_state();
    BlockImporter::new(ProviderFactory::new(db))
}

#[test]
fn single_node_block_production() {
    let (a_key, a) = key("pint");
    assert_eq!(a, genesis_accounts_info()[0].0);
    let (_, b) = key("apple");
    let m = key("miner").1;
    let mut node = genesis_node();
    let mut pool = Pool::new();
    let t1 = signed(&a_key, b, 0, 5, 1000);
    pool.add_transaction(&node.provider, TransactionOrigin::Local, t1.into_recovered().unwrap()).unwrap();
    produce_block(&mut node, &mut pool, m, 1_700_000_000);

    let db = node.provider.db();
    assert_eq!(db.latest_block_number(), 1);
    let acc_a = db.basic(&a).unwrap();
    assert_eq!(acc_a.nonce, 1);
    assert_eq!(acc_a.balance, U256::from_u128(10_000_000 - 1005));
    assert_eq!(db.basic(&b).unwrap().balance, U256::from_u128(1000));
    assert_eq!(db.basic(&m).unwrap().balance, U256::from_u128(5));
    assert_eq!(pool.check_pending_pool_len(), 0);
}

#[test]
fn two_node_gossip() {
    let (a_key, _) = key("pint");
    let (_, b) = key("apple");
    let m = key("miner").1;
    let mut n1 = genesis_node();
    let mut n2 = genesis_node();
    let mut pool = Pool::new();
    pool.add_transaction(&n1.provider, TransactionOrigin::Local, signed(&a_key, b, 0, 5, 1000).into_recovered().unwrap())
        .unwrap();
    let block = produce_block(&mut n1, &mut pool, m, 1_700_000_000);

    let frame = NetworkHandleMessage::NewPayload(block).encode();
    let received = match NetworkHandleMessage::decode(&frame, [127, 0, 0, 1], 33333).unwrap() {
        Some(NetworkHandleMessage::NewPayload(b)) => b,
        other => panic!("unexpected {:?}", other),
    };
    assert_eq!(n2.import_new_block(received), Ok(()));
    assert_eq!(n2.provider.block_number(), 1);
    let h1 = n1.provider.db().get_header(1).unwrap().calculate_hash();
    let h2 = n2.provider.db().get_header(1).unwrap().calculate_hash();
    assert_eq!(h1, h2);
}

#[test]
fn replace_by_fee_keeps_the_first_at_lower_fee() {
    let (a_key, _) = key("pint");
    let (_, b) = key("apple");
    let node = genesis_node();
    let mut pool = Pool::new();
    let first = signed(&a_key, b, 0, 5, 10);
    let second = signed(&a_key, b, 0, 4, 10);
    pool.add_transaction(&node.provider, TransactionOrigin::Local, first.into_recovered().unwrap()).unwrap();
    let err = pool.add_transaction(&node.provider, TransactionOrigin::Local, second.into_recovered().unwrap()).unwrap_err();
    assert!(matches!(err.kind, PoolErrorKind::ReplacementUnderpriced(_)));
    assert_eq!(pool.check_pending_pool_len(), 1);
    assert!(pool.pool.contains(&first.hash));
}

#[test]
fn parked_transaction_is_promoted_after_its_predecessor_is_mined() {
    let (a_key, _) = key("pint");
    let (_, b) = key("apple");
    let m = key("miner").1;
    let mut node = genesis_node();
    let mut pool = Pool::new();
    let later = signed(&a_key, b, 1, 5, 10);
    let first = signed(&a_key, b, 0, 5, 10);
    pool.add_transaction(&node.provider, TransactionOrigin::Local, later.into_recovered().unwrap()).unwrap();
    assert_eq!(pool.pool.parked_len(), 1);
    pool.add_transaction(&node.provider, TransactionOrigin::Local, first.into_recovered().unwrap()).unwrap();
    assert_eq!(pool.pool.pending_len(), 1);
    let block = produce_block(&mut node, &mut pool, m, 1_700_000_000);
    assert_eq!(block.body.len(), 1);
    assert!(!pool.pool.contains(&first.hash));
    assert_eq!(pool.pool.pending_len(), 1);
    assert_eq!(pool.pool.parked_len(), 0);
    assert!(pool.pool.contains(&later.hash));
}

#[test]
fn reorg_adopts_the_longer_chain() {
    let (a_key, _) = key("pint");
    let (c_key, _) = key("chain");
    let (_, b) = key("apple");
    let mut n1 = genesis_node();
    let mut n2 = genesis_node();
    let mut pool_one = Pool::new();
    let mut pool_two = Pool::new();
    pool_one.add_transaction(&n1.provider, TransactionOrigin::Local, signed(&a_key, b, 0, 5, 1).into_recovered().unwrap()).unwrap();
    produce_block(&mut n1, &mut pool_one, key("m1").1, 1_700_000_000);
    pool_two.add_transaction(&n2.provider, TransactionOrigin::Local, signed(&c_key, b, 0, 7, 2).into_recovered().unwrap()).unwrap();
    produce_block(&mut n2, &mut pool_two, key("m2").1, 1_700_000_001);
    pool_two.add_transaction(&n2.provider, TransactionOrigin::Local, signed(&c_key, b, 1, 7, 3).into_recovered().unwrap()).unwrap();
    produce_block(&mut n2, &mut pool_two, key("m2").1, 1_700_000_002);

    let hashes = n2.provider.chain_hashes();
    let from = n1.provider.reorg_to_common_ancestor(&hashes);
    assert_eq!(from, 1);
    assert_eq!(n1.provider.block_number(), 0);
    for h in from..=n2.provider.block_number() {
        let block = n2.provider.db().get_block(h).unwrap();
        assert_eq!(n1.import_new_block(block), Ok(()));
    }
    assert_eq!(
        n1.provider.db().get_latest_block_header().calculate_hash(),
        n2.provider.db().get_latest_block_header().calculate_hash()
    );
}
