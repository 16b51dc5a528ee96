use pint::db::InMemoryDB;
use pint::pool::{InvalidPoolTransactionError, TransactionOrigin, TransactionValidationOutcome};
use pint::provider::ProviderFactory;
use pint::transaction::SignedTransaction;
use pint::txpool::Validator;
use pint::types::Account;
use pint::u256::U256;

fn new_transaction() -> SignedTransaction {
    let raw = "000000000000000000000000000000000534501c34f5a0f3fa43dc5d78e619be7edfa21a000000000000000000000000000000010000000000000000000000000000000000000000000000000000000000000001edb54ca220c37699400def4d371e024ef94c7b62cd88d65d6e544807f957174c6aed902279a2abcd976584998e4c2b886e2a252ed375d44000f842e0d362fcea00";
    let data = hex::decode(raw).unwrap();
    let (signed_tx, _) = SignedTransaction::decode(&data).unwrap();
    signed_tx
}

fn new_zero_fee_transaction() -> SignedTransaction {
    let raw = "000000000000000000000000000000000534501c34f5a0f3fa43dc5d78e619be7edfa21a000000000000000000000000000000000000000000000000000000000000000000000000000000000000000000000001edb54ca220c37699400def4d371e024ef94c7b62cd88d65d6e544807f957174c6aed902279a2abcd976584998e4c2b886e2a252ed375d44000f842e0d362fcea00";
    let data = hex::decode(raw).unwrap();
    let (signed_tx, _) = SignedTransaction::decode(&data).unwrap();
    signed_tx
}

#[test]
fn test_validate_pending_transaction() {
    let transaction = new_transaction();
    let recovered = transaction.into_recovered().unwrap();
    let mut db = InMemoryDB::new();
    db.add_account(recovered.signer(), Account::new(recovered.nonce(), U256::max_value()));
    let provider = ProviderFactory::new(db);
    let validator = Validator::new(provider);
    let outcome = validator.validate_transaction(TransactionOrigin::External, recovered);
    assert!(outcome.is_valid());
}

#[test]
fn test_validate_parked_transaction() {
    let transaction = new_transaction();
    let recovered = transaction.into_recovered().unwrap();
    let mut db = InMemoryDB::new();
    db.add_account(recovered.signer(), Account::new(recovered.nonce(), U256::zero()));
    let provider = ProviderFactory::new(db);
    let validator = Validator::new(provider);
    let outcome = validator.validate_transaction(TransactionOrigin::External, recovered);
    assert!(outcome.is_valid());
}

#[test]
fn test_validate_invalid_fee_transaction() {
    let transaction = new_zero_fee_transaction();
    let recovered = transaction.into_recovered().unwrap();
    let mut db = InMemoryDB::new();
    db.add_account(recovered.signer(), Account::new(recovered.nonce(), U256::max_value()));
    let provider = ProviderFactory::new(db);
    let validator = Validator::new(provider);
    let outcome = validator.validate_transaction(TransactionOrigin::External, recovered);
    assert!(!outcome.is_valid());
}

#[test]
fn test_validate_invalid_nonce_transaction() {
    let transaction = new_transaction();
    let recovered = transaction.into_recovered().unwrap();
    let mut db = InMemoryDB::new();
    db.add_account(recovered.signer(), Account::new(recovered.nonce() + 1, U256::max_value()));
    let provider = ProviderFactory::new(db);
    let validator = Validator::new(provider);
    let outcome = validator.validate_transaction(TransactionOrigin::External, recovered);
    assert!(!outcome.is_valid());
}

#[test]
fn validation_errors_name_the_rule() {
    let recovered = new_zero_fee_transaction().into_recovered().unwrap();
    let validator = Validator::new(ProviderFactory::new(InMemoryDB::new()));
    match validator.validate_transaction(TransactionOrigin::Local, recovered) {
        TransactionValidationOutcome::Invalid { error, .. } => {
            assert_eq!(error, InvalidPoolTransactionError::NotEnoughFeeError)
        }
        other => panic!("unexpected {:?}", other),
    }
    let recovered = new_transaction().into_recovered().unwrap();
    let mut db = InMemoryDB::new();
    db.add_account(recovered.signer(), Account::new(5, U256::zero()));
    let validator = Validator::new(ProviderFactory::new(db));
    match validator.validate_transaction(TransactionOrigin::Local, recovered) {
        TransactionValidationOutcome::Invalid { error, .. } => {
            assert_eq!(error, InvalidPoolTransactionError::NonceIsNotConsistent)
        }
        other => panic!("unexpected {:?}", other),
    }
}
