use k256::ecdsa::{RecoveryId, Signature as EcdsaSignature, SigningKey};
use k256::EncodedPoint;
use pint::block::{Block, Header};
use pint::pool::{PoolErrorKind, TxPool};
use pint::transaction::{Signature, SignedTransaction, Transaction};
use pint::txpool::MockValidator;
use pint::types::Address;
use pint::u256::U256;
use sha2::{Digest, Sha256};

fn create_key_pairs(seed: &[u8]) -> (SigningKey, Vec<u8>) {
    let private_key_random = Sha256::digest(seed);
    let signing_key = SigningKey::from_bytes(&private_key_random).unwrap();
    let verifying_key = *signing_key.verifying_key();
    let pubkey_uncompressed: EncodedPoint = verifying_key.to_encoded_point(false);
    let pubkey_bytes = pubkey_uncompressed.as_bytes();
    let address = pubkey_bytes[pubkey_bytes.len() - 20..].to_vec();
    (signing_key, address)
}

fn create_new_signed_tx(nonce: u64, fee: u128, value: U256, sender: &str, receiver: &str) -> SignedTransaction {
    let (signing_key, _) = create_key_pairs(sender.as_bytes());
    let (_, receiver) = create_key_pairs(receiver.as_bytes());
    let receiver = Address::from_byte(receiver.try_into().unwrap());
    let tx = Transaction { chain_id: 0, nonce, to: receiver, fee, value };
    let tx_hash = tx.encode_for_signing();
    let digest = Sha256::new_with_prefix(tx_hash.hash().0);
    let (sig, recid): (EcdsaSignature, RecoveryId) = signing_key.sign_digest_recoverable(digest).unwrap();
    let r: [u8; 32] = sig.r().to_bytes().into();
    let s: [u8; 32] = sig.s().to_bytes().into();
    let signature = Signature {
        y_parity: recid.to_byte() != 0,
        r: U256::from_be_bytes(&r, 0),
        s: U256::from_be_bytes(&s, 0),
    };
    SignedTransaction::new(tx, signature, tx_hash)
}

#[test]
fn test_insert_pending_pool() {
    let mut factory = MockValidator::default();
    let mut pool = TxPool::new();

    let signed_tx = create_new_signed_tx(0, 1, U256::from_u128(1), "pint", "chain");
    let vtx = factory.validate(signed_tx).unwrap();
    let _res = pool.add_transaction(vtx, U256::from_u128(2), 0);
    assert_eq!(1, pool.pending_len());
    assert_eq!(0, pool.parked_len());
    assert_eq!(1, pool.len());

    let signed_tx = create_new_signed_tx(0, 1, U256::from_u128(1), "apple", "banana");
    let vtx = factory.validate(signed_tx).unwrap();
    let _res = pool.add_transaction(vtx, U256::from_u128(2), 0);
    assert_eq!(2, pool.pending_len());
    assert_eq!(0, pool.parked_len());
    assert_eq!(2, pool.len());

    let signed_tx = create_new_signed_tx(0, 2, U256::from_u128(1), "apple", "banana");
    let vtx = factory.validate(signed_tx).unwrap();
    let _res = pool.add_transaction(vtx, U256::from_u128(2), 0);
    assert_eq!(1, pool.pending_len());
    assert_eq!(1, pool.parked_len());
    assert_eq!(2, pool.len());
}

#[test]
fn test_insert_parked_pool() {
    let mut factory = MockValidator::default();
    let mut pool = TxPool::new();

    let signed_tx = create_new_signed_tx(0, 1, U256::from_u128(1), "pint", "chain");
    let vtx = factory.validate(signed_tx).unwrap();
    let _res = pool.add_transaction(vtx, U256::from_u128(1), 0);
    assert_eq!(0, pool.pending_len());
    assert_eq!(1, pool.parked_len());

    let signed_tx = create_new_signed_tx(1, 1, U256::from_u128(1), "pint", "chain");
    let vtx = factory.validate(signed_tx).unwrap();
    let _res = pool.add_transaction(vtx, U256::from_u128(2), 0);
    assert_eq!(0, pool.pending_len());
    assert_eq!(2, pool.parked_len());
}

#[test]
fn test_insert_already_imported() {
    let mut factory = MockValidator::default();
    let mut pool = TxPool::new();
    let signed_tx = create_new_signed_tx(0, 1, U256::from_u128(1), "pint", "chain");
    let vtx = factory.validate(signed_tx).unwrap();

    let _res = pool.add_transaction(vtx, U256::from_u128(2), 0);
    assert_eq!(1, pool.pending_len());
    assert_eq!(0, pool.parked_len());

    let res = pool.add_transaction(vtx, U256::from_u128(2), 0);
    assert_eq!(res.unwrap_err().kind, PoolErrorKind::AlreadyImported);
    assert_eq!(1, pool.pending_len());
    assert_eq!(0, pool.parked_len());
}

#[test]
fn test_replace_pending_pool() {
    let mut factory = MockValidator::default();
    let mut pool = TxPool::new();

    let signed_tx = create_new_signed_tx(0, 1, U256::from_u128(1), "pint", "chain");
    let vtx = factory.validate(signed_tx).unwrap();
    let _res = pool.add_transaction(vtx, U256::from_u128(4), 0);
    assert_eq!(1, pool.pending_len());
    assert_eq!(0, pool.parked_len());

    let signed_tx = create_new_signed_tx(0, 2, U256::from_u128(1), "pint", "chain");
    let vtx = factory.validate(signed_tx).unwrap();
    let _res = pool.add_transaction(vtx, U256::from_u128(4), 0);
    assert_eq!(1, pool.pending_len());
    assert_eq!(0, pool.parked_len());
}

#[test]
fn test_remove_tx_from_pool() {
    let mut factory = MockValidator::default();
    let mut pool = TxPool::new();
    let signed_tx = create_new_signed_tx(0, 1, U256::from_u128(1), "pint", "chain");
    let vtx = factory.validate(signed_tx).unwrap();

    let _res = pool.add_transaction(vtx, U256::from_u128(2), 0);
    assert_eq!(1, pool.pending_len());
    assert_eq!(0, pool.parked_len());

    pool.remove_transaction(vtx.tid());
    assert_eq!(0, pool.len());
    assert_eq!(0, pool.pending_len());
}

#[test]
fn replacement_needs_strictly_higher_fee() {
    let mut factory = MockValidator::default();
    let mut pool = TxPool::new();
    let first = factory.validate(create_new_signed_tx(0, 5, U256::from_u128(1), "pint", "chain")).unwrap();
    pool.add_transaction(first, U256::from_u128(100), 0).unwrap();

    let lower = factory.validate(create_new_signed_tx(0, 4, U256::from_u128(1), "pint", "chain")).unwrap();
    let err = pool.add_transaction(lower, U256::from_u128(100), 0).unwrap_err();
    assert!(matches!(err.kind, PoolErrorKind::ReplacementUnderpriced(_)));

    let equal = factory.validate(create_new_signed_tx(0, 5, U256::from_u128(2), "pint", "chain")).unwrap();
    let err = pool.add_transaction(equal, U256::from_u128(100), 0).unwrap_err();
    assert!(matches!(err.kind, PoolErrorKind::ReplacementUnderpriced(_)));
    assert!(pool.contains(&first.hash()));
    assert_eq!(pool.len(), 1);

    let higher = factory.validate(create_new_signed_tx(0, 6, U256::from_u128(1), "pint", "chain")).unwrap();
    pool.add_transaction(higher, U256::from_u128(100), 0).unwrap();
    assert!(!pool.contains(&first.hash()));
    assert!(pool.contains(&higher.hash()));
    assert_eq!(pool.len(), 1);
    assert_eq!(pool.pending_len(), 1);
}

#[test]
fn zero_fee_or_stale_nonce_is_invalid() {
    let mut factory = MockValidator::default();
    let mut pool = TxPool::new();
    let zero_fee = factory.validate(create_new_signed_tx(0, 0, U256::from_u128(1), "pint", "chain")).unwrap();
    assert!(matches!(pool.add_transaction(zero_fee, U256::from_u128(2), 0).unwrap_err().kind, PoolErrorKind::InvalidTransaction(_)));
    let stale = factory.validate(create_new_signed_tx(0, 1, U256::from_u128(1), "pint", "chain")).unwrap();
    assert!(matches!(pool.add_transaction(stale, U256::from_u128(2), 1).unwrap_err().kind, PoolErrorKind::InvalidTransaction(_)));
    assert_eq!(pool.len(), 0);
}

#[test]
fn prune_removes_block_transactions() {
    let mut factory = MockValidator::default();
    let mut pool = TxPool::new();
    let a = create_new_signed_tx(0, 1, U256::from_u128(1), "pint", "chain");
    let b = create_new_signed_tx(0, 1, U256::from_u128(2), "apple", "chain");
    pool.add_transaction(factory.validate(a).unwrap(), U256::from_u128(10), 0).unwrap();
    pool.add_transaction(factory.validate(b).unwrap(), U256::from_u128(10), 0).unwrap();
    let mut header = Header::genesis_header();
    header.height = 1;
    let block = Block { header, body: vec![a] };
    pool.remove_block_transactions(&block);
    assert!(!pool.contains(&a.hash));
    assert!(pool.contains(&b.hash));
    assert_eq!(pool.len(), 1);
}

#[test]
fn best_transactions_come_by_fee_then_submission() {
    let mut factory = MockValidator::default();
    let mut pool = TxPool::new();
    let low = create_new_signed_tx(0, 2, U256::from_u128(1), "pint", "chain");
    let high_first = create_new_signed_tx(0, 9, U256::from_u128(2), "apple", "chain");
    let high_second = create_new_signed_tx(0, 9, U256::from_u128(3), "banana", "chain");
    pool.add_transaction(factory.validate(low).unwrap(), U256::from_u128(100), 0).unwrap();
    pool.add_transaction(factory.validate(high_first).unwrap(), U256::from_u128(100), 0).unwrap();
    pool.add_transaction(factory.validate(high_second).unwrap(), U256::from_u128(100), 0).unwrap();
    let mut best = pool.best_transactions();
    assert_eq!(best.next().unwrap().hash(), high_first.hash);
    assert_eq!(best.next().unwrap().hash(), high_second.hash);
    assert_eq!(best.next().unwrap().hash(), low.hash);
    assert!(best.next().is_none());
    assert_eq!(pool.len(), 3);
}
