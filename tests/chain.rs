use pint::block::{Block, Header};
use pint::consensus::{BlockImportError, ConsensusAction, ConsensusEvent, ConsensusState};
use pint::db::{DatabaseError, InMemoryDB};
use pint::executor::{ExecutableState, Executor, ExecutionError, StateExecutionError, TxExecutionError};
use pint::merkle::calculate_merkle_root;
use pint::miner::{meets_target, mine_batch, MineOutcome};
use pint::provider::{BlockImporter, ProviderFactory};
use pint::state::{AccountState, World};
use pint::transaction::{Recovered, Signature, SignedTransaction, Transaction};
use pint::types::{Account, Address, TxHash, B256};
use pint::u256::U256;
use sha2::{Digest, Sha256};

fn addr(b: u8) -> Address {
    let mut a = [0u8; 20];
    a[19] = b;
    Address::from_byte(a)
}

fn recovered(from: Address, to: Address, nonce: u64, fee: u128, value: u128) -> Recovered {
    let tx = Transaction { chain_id: 0, nonce, to, fee, value: U256::from_u128(value) };
    let signed = tx.into_signed(Signature { y_parity: false, r: U256::zero(), s: U256::zero() });
    Recovered::new_unchecked(signed, from)
}

fn sha(data: &[u8]) -> [u8; 32] {
    Sha256::digest(data).into()
}

#[test]
fn merkle_single_leaf_is_leaf_paired_with_itself() {
    let leaf = B256(sha(b"leaf"));
    let mut both = leaf.0.to_vec();
    both.extend_from_slice(&leaf.0);
    assert_eq!(calculate_merkle_root(vec![leaf]).0, sha(&both));
}

#[test]
fn merkle_odd_level_pairs_last_with_itself() {
    let a = B256(sha(b"a"));
    let b = B256(sha(b"b"));
    let c = B256(sha(b"c"));
    let ab = sha(&[a.0, b.0].concat());
    let cc = sha(&[c.0, c.0].concat());
    let root = sha(&[ab, cc].concat());
    assert_eq!(calculate_merkle_root(vec![a, b, c]).0, root);
    assert_eq!(calculate_merkle_root(vec![]).0, [0u8; 32]);
}

#[test]
fn execute_transfer_moves_value_and_fee() {
    let a = addr(1);
    let b = addr(2);
    let mut accounts = AccountState::new();
    accounts.set(a, Account::new(0, U256::from_u128(10_000_000)));
    let mut state = ExecutableState::new(accounts, World::new());
    let fee = state.execute_transaction(&recovered(a, b, 0, 5, 1000)).unwrap();
    assert_eq!(fee, 5);
    let sender = state.accounts_write.get(&a).unwrap();
    assert_eq!(sender.nonce, 1);
    assert_eq!(sender.balance, U256::from_u128(10_000_000 - 1005));
    assert_eq!(state.accounts_write.get(&b).unwrap().balance, U256::from_u128(1000));
}

#[test]
fn execute_transaction_errors() {
    let a = addr(1);
    let b = addr(2);
    let mut accounts = AccountState::new();
    accounts.set(a, Account::new(3, U256::from_u128(100)));
    let mut state = ExecutableState::new(accounts, World::new());
    let no_account = state.execute_transaction(&recovered(b, a, 0, 1, 1)).unwrap_err();
    assert!(matches!(no_account, StateExecutionError::TransactionExecutionError(_, TxExecutionError::SenderHasNoAccount)));
    let nonce = state.execute_transaction(&recovered(a, b, 0, 1, 1)).unwrap_err();
    assert!(matches!(nonce, StateExecutionError::TransactionExecutionError(_, TxExecutionError::NonceError(3, 0))));
    let poor = state.execute_transaction(&recovered(a, b, 3, 1, 100)).unwrap_err();
    assert!(matches!(poor, StateExecutionError::TransactionExecutionError(_, TxExecutionError::SenderHasNotEnoughBalance)));
    assert_eq!(state.execute_transaction(&recovered(a, b, 3, 1, 99)).unwrap(), 1);
    assert_eq!(state.accounts_write.get(&a).unwrap().balance, U256::zero());
}

#[test]
fn state_root_ignores_insertion_order() {
    let mut s1 = AccountState::new();
    s1.set(addr(1), Account::new(1, U256::from_u128(10)));
    s1.set(addr(9), Account::new(0, U256::from_u128(20)));
    s1.set(addr(5), Account::new(2, U256::from_u128(30)));
    let mut s2 = AccountState::new();
    s2.set(addr(5), Account::new(2, U256::from_u128(30)));
    s2.set(addr(1), Account::new(1, U256::from_u128(10)));
    s2.set(addr(9), Account::new(0, U256::from_u128(20)));
    let w = World::new();
    assert_eq!(s1.calculate_state_root(&w), s2.calculate_state_root(&w));
    let mut s3 = AccountState::new();
    s3.set(addr(5), Account::new(2, U256::from_u128(31)));
    s3.set(addr(1), Account::new(1, U256::from_u128(10)));
    s3.set(addr(9), Account::new(0, U256::from_u128(20)));
    assert_ne!(s1.calculate_state_root(&w), s3.calculate_state_root(&w));
}

#[test]
fn state_root_leaf_uses_hex_address() {
    let mut s = AccountState::new();
    s.set(addr(1), Account::new(7, U256::from_u128(3)));
    let mut leaf_input = hex::encode(addr(1).0).into_bytes();
    leaf_input.extend_from_slice(&[0u8; 31]);
    leaf_input.push(3);
    leaf_input.extend_from_slice(&7u64.to_be_bytes());
    let leaf = sha(&leaf_input);
    let root = sha(&[leaf, [0u8; 32]].concat());
    assert_eq!(s.calculate_state_root(&World::new()).0, root);
}

#[test]
fn meets_target_counts_leading_zero_bits() {
    let mut h = [0xffu8; 32];
    h[0] = 0;
    h[1] = 0x0f;
    assert!(meets_target(&h, 12));
    assert!(!meets_target(&h, 13));
    assert!(meets_target(&h, 0));
    assert!(meets_target(&[0u8; 32], 256));
    assert!(!meets_target(&[0u8; 32], 257));
}

#[test]
fn mined_header_meets_its_difficulty() {
    let mut header = Header::genesis_header();
    header.difficulty = 8;
    header.height = 1;
    let payload = pint::block::PayloadHeader {
        previous_hash: header.previous_hash,
        transaction_root: header.transaction_root,
        state_root: header.state_root,
        proposer: header.proposer,
        difficulty: 8,
        timestamp: 42,
        height: 1,
        total_fee: U256::zero(),
    };
    match mine_batch(&payload, 0, 100_000) {
        MineOutcome::Found(h) => {
            let mut input = Vec::new();
            input.extend_from_slice(&h.previous_hash.0 .0);
            input.extend_from_slice(&h.transaction_root.0);
            input.extend_from_slice(&h.state_root.0);
            input.extend_from_slice(&h.timestamp.to_be_bytes());
            input.extend_from_slice(&h.proposer.0);
            input.extend_from_slice(&h.difficulty.to_be_bytes());
            input.extend_from_slice(&h.height.to_be_bytes());
            input.extend_from_slice(&h.nonce.to_be_bytes());
            assert_eq!(sha(&input)[0], 0);
            assert_eq!(h.timestamp, 42);
        }
        MineOutcome::Exhausted(_) => panic!("difficulty 8 should be met"),
    }
    payload_exhausts(&payload);
}

fn payload_exhausts(p: &pint::block::PayloadHeader) {
    let mut hard = *p;
    hard.difficulty = 200;
    assert_eq!(mine_batch(&hard, 5, 10), MineOutcome::Exhausted(15));
}

#[test]
fn consensus_discards_stale_mining_result() {
    let (mut state, actions) = ConsensusState::new();
    assert!(matches!(actions[0], ConsensusAction::BuildPayload));
    let mut header = Header::genesis_header();
    header.timestamp = 10;
    let r = recovered(addr(1), addr(2), 0, 1, 1);
    let payload = pint::block::Payload {
        header: pint::block::PayloadHeader {
            previous_hash: header.previous_hash,
            transaction_root: header.transaction_root,
            state_root: header.state_root,
            proposer: header.proposer,
            difficulty: 1,
            timestamp: 20,
            height: 1,
            total_fee: U256::zero(),
        },
        body: vec![*r.tx()],
    };
    let actions = state.step(ConsensusEvent::Payload(payload));
    assert!(matches!(actions[0], ConsensusAction::MinePayload(_)));
    assert!(state.step(ConsensusEvent::MiningSuccess(header)).is_empty());
    header.timestamp = 20;
    let actions = state.step(ConsensusEvent::MiningSuccess(header));
    assert_eq!(actions.len(), 1);
    match &actions[0] {
        ConsensusAction::ImportBlock(b) => assert_eq!(b.body.len(), 1),
        other => panic!("unexpected {:?}", other),
    }
}

#[test]
fn consensus_broadcasts_only_after_successful_import() {
    let (mut state, _) = ConsensusState::new();
    let block = Block::genesis_block();
    let actions = state.step(ConsensusEvent::Imported(block.duplicate(), Err(BlockImportError::NotChainedBlock)));
    assert!(matches!(actions[..], [ConsensusAction::SyncChain]));
    let actions = state.step(ConsensusEvent::Imported(block.duplicate(), Err(BlockImportError::AlreadyImportedBlock)));
    assert!(actions.is_empty());
    let actions = state.step(ConsensusEvent::Imported(block, Ok(())));
    assert_eq!(actions.len(), 4);
    assert!(matches!(actions[0], ConsensusAction::PrunePool(_)));
    assert!(matches!(actions[1], ConsensusAction::HaltMining));
    assert!(matches!(actions[2], ConsensusAction::BroadcastBlock(_)));
    assert!(matches!(actions[3], ConsensusAction::BuildPayload));
    assert!(state.mining_payload.is_none());
    assert!(state.step(ConsensusEvent::PoolIsEmpty).is_empty());
}

fn next_block(factory: &ProviderFactory, proposer: Address, body: Vec<SignedTransaction>, total_fee: u128) -> Block {
    let parent = factory.db().get_latest_block_header();
    let mut header = Header::genesis_header();
    header.previous_hash = parent.calculate_hash();
    header.height = parent.height + 1;
    header.proposer = proposer;
    header.total_fee = U256::from_u128(total_fee);
    Block { header, body }
}

#[test]
fn import_checks_height_and_parent() {
    let mut importer = BlockImporter::new(ProviderFactory::new(InMemoryDB::new()));
    let block = next_block(&importer.provider, addr(9), vec![], 0);
    let mut far = block.duplicate();
    far.header.height = 5;
    assert_eq!(importer.import_new_block(far), Err(BlockImportError::BlockHeightError));
    let mut old = block.duplicate();
    old.header.height = 0;
    assert_eq!(importer.import_new_block(old), Err(BlockImportError::AlreadyImportedBlock));
    let mut unchained = block.duplicate();
    unchained.header.previous_hash = pint::types::BlockHash(B256([1u8; 32]));
    assert_eq!(importer.import_new_block(unchained), Err(BlockImportError::NotChainedBlock));
    let mut wrong_fee = block.duplicate();
    wrong_fee.header.total_fee = U256::from_u128(1);
    assert_eq!(importer.import_new_block(wrong_fee), Err(BlockImportError::ProviderError));
    assert_eq!(importer.import_new_block(block), Ok(()));
    assert_eq!(importer.provider.block_number(), 1);
}

#[test]
fn remove_data_only_at_tip() {
    let mut importer = BlockImporter::new(ProviderFactory::new(InMemoryDB::new()));
    for _ in 0..3 {
        let b = next_block(&importer.provider, addr(9), vec![], 0);
        importer.import_new_block(b).unwrap();
    }
    let mut db = InMemoryDB::new();
    assert_eq!(db.remove_data(0), Err(DatabaseError::CannotRemove));
    assert_eq!(db.latest_block_number(), 0);
    let hashes = importer.provider.chain_hashes();
    assert_eq!(hashes.len(), 3);
    let fork = importer.provider.reorg_to_common_ancestor(&vec![hashes[1]]);
    assert_eq!(fork, 2);
    assert_eq!(importer.provider.block_number(), 1);
    let none = importer.provider.reorg_to_common_ancestor(&vec![pint::types::BlockHash(B256([7u8; 32]))]);
    assert_eq!(none, 1);
    assert_eq!(importer.provider.block_number(), 0);
}

#[test]
fn executor_rejects_fee_mismatch() {
    let accounts = AccountState::new();
    let mut executor = Executor::new(ExecutableState::new(accounts, World::new()));
    let mut block = Block::genesis_block();
    block.header.total_fee = U256::from_u128(3);
    assert_eq!(executor.execute_block(&block), Err(ExecutionError::TotalFeeisDifferent));
}

#[test]
fn difficulty_follows_block_spacing() {
    let mut importer = BlockImporter::new(ProviderFactory::new(InMemoryDB::new()));
    assert_eq!(importer.provider.get_next_difficulty(), 20);
    let mut b = next_block(&importer.provider, addr(9), vec![], 0);
    b.header.timestamp = 100;
    b.header.difficulty = 20;
    importer.import_new_block(b).unwrap();
    let mut b = next_block(&importer.provider, addr(9), vec![], 0);
    b.header.timestamp = 105;
    b.header.difficulty = 20;
    importer.import_new_block(b).unwrap();
    assert_eq!(importer.provider.get_next_difficulty(), 21);
    let mut b = next_block(&importer.provider, addr(9), vec![], 0);
    b.header.timestamp = 117;
    b.header.difficulty = 21;
    importer.import_new_block(b).unwrap();
    assert_eq!(importer.provider.get_next_difficulty(), 21);
    let mut b = next_block(&importer.provider, addr(9), vec![], 0);
    b.header.timestamp = 200;
    b.header.difficulty = 21;
    importer.import_new_block(b).unwrap();
    assert_eq!(importer.provider.get_next_difficulty(), 20);
    let _ = TxHash(B256([0u8; 32]));
}
