//! The pool as the node uses it: validation against the chain store, then
//! insertion, pruning and reorganisation.
use vstd::prelude::*;
use crate::types::{TxHash, addr_key};
use crate::transaction::{Recovered, RecoveryError, SignedTransaction, signer_of};
use crate::provider::ProviderFactory;
use crate::pool::{
    TxPool, TransactionOrigin, ValidPoolTransaction, TransactionValidationOutcome, PoolError, PoolErrorKind, BestTransactions, SubPool,
    validate_one, validation_error, on_chain, count_in, valid_tx_of, has_hash, insert_outcome, reclassified,
};
use crate::block::Block;

verus! {

/// Validates transactions against the latest accounts of a chain store.
pub struct Validator {
    pub provider: ProviderFactory,
}

impl Validator {
    pub fn new(provider: ProviderFactory) -> (r: Validator)
        ensures
            r.provider == provider,
    {
        Validator { provider }
    }

    /// Validates a transaction against its sender's latest account.
    pub fn validate_transaction(&self, origin: TransactionOrigin, transaction: Recovered) -> (r:
        TransactionValidationOutcome)
        requires
            self.provider.wf(),
        ensures
            ({
                let a = on_chain(self.provider.store().states()[self.provider.store().latest()], addr_key(transaction.signer));
                match validation_error(transaction, a.nonce) {
                    Some(e) => r == TransactionValidationOutcome::Invalid { transaction, error: e },
                    None => r matches TransactionValidationOutcome::Valid { transaction: v, balance, nonce } && v.wf()
                        && v.transaction == transaction && v.origin == origin && balance == a.balance && nonce == a.nonce,
                }
            }),
    {
        validate_against(&self.provider, origin, transaction)
    }
}

/// Validates a transaction against its sender's latest account in a store.
pub fn validate_against(factory: &ProviderFactory, origin: TransactionOrigin, transaction: Recovered) -> (r:
    TransactionValidationOutcome)
    requires
        factory.wf(),
    ensures
        ({
            let a = on_chain(factory.store().states()[factory.store().latest()], addr_key(transaction.signer));
            match validation_error(transaction, a.nonce) {
                Some(e) => r == TransactionValidationOutcome::Invalid { transaction, error: e },
                None => r matches TransactionValidationOutcome::Valid { transaction: v, balance, nonce } && v.wf()
                    && v == valid_tx_of(transaction, origin) && balance == a.balance && nonce == a.nonce,
            }
        }),
{
    let view = factory.latest();
    let account = view.basic_account(factory, &transaction.signer);
    validate_one(origin, transaction, account)
}

/// Forgets the value of a success.
pub open spec fn unit_result(r: Result<TxHash, PoolError>) -> Result<(), PoolError> {
    match r {
        Ok(_) => Ok(()),
        Err(e) => Err(e),
    }
}

/// The node's transaction pool.
pub struct Pool {
    pub pool: TxPool,
}

impl Pool {
    pub fn new() -> (r: Pool)
        ensures
            r.pool.wf(),
            r.pool@.len() == 0,
    {
        Pool { pool: TxPool::new() }
    }

    /// Validates a transaction against the latest accounts and inserts it.
    pub fn add_transaction(&mut self, factory: &ProviderFactory, origin: TransactionOrigin, transaction: Recovered)
        -> (r: Result<TxHash, PoolError>)
        requires
            old(self).pool.wf(),
            factory.wf(),
        ensures
            final(self).pool.wf(),
            ({
                let a = on_chain(factory.store().states()[factory.store().latest()], addr_key(transaction.signer));
                match validation_error(transaction, a.nonce) {
                    Some(e) => r == Err::<TxHash, PoolError>(PoolError {
                        hash: transaction.tx.hash,
                        kind: PoolErrorKind::InvalidPoolTransactionError(e),
                    }) && final(self).pool@ == old(self).pool@,
                    None => {
                        let v = valid_tx_of(transaction, origin);
                        if has_hash(old(self).pool@, transaction.tx.hash.0.0@) {
                            r == Err::<TxHash, PoolError>(PoolError { hash: transaction.tx.hash, kind: PoolErrorKind::AlreadyImported })
                                && final(self).pool@ == old(self).pool@
                        } else {
                            insert_outcome(old(self).pool@, final(self).pool@, v, a.balance, a.nonce, unit_result(r))
                                && (r is Ok ==> r->Ok_0 == transaction.tx.hash)
                        }
                    },
                }
            }),
    {
        let hash = transaction.hash();
        match validate_against(factory, origin, transaction) {
            TransactionValidationOutcome::Valid { transaction, balance, nonce } => {
                match self.pool.add_transaction(transaction, balance, nonce) {
                    Ok(()) => Ok(hash),
                    Err(e) => Err(e),
                }
            },
            TransactionValidationOutcome::Invalid { transaction: _, error } => Err(
                PoolError { hash, kind: PoolErrorKind::InvalidPoolTransactionError(error) },
            ),
            TransactionValidationOutcome::UnexpectedError(h) => Err(PoolError { hash: h, kind: PoolErrorKind::ImportError }),
        }
    }

    /// Removes a committed block's transactions.
    pub fn remove_block_transactions(&mut self, block: &Block)
        requires
            old(self).pool.wf(),
        ensures
            final(self).pool.wf(),
            forall|k: int|
                0 <= k < block.body@.len() ==> !crate::pool::has_hash(final(self).pool@, (#[trigger] block.body@[k]).hash.0.0@),
            forall|i: int| 0 <= i < final(self).pool@.len() ==> old(self).pool@.contains(#[trigger] final(self).pool@[i]),
            forall|i: int|
                0 <= i < old(self).pool@.len() && !crate::pool::in_body(block.body@, (#[trigger] old(self).pool@[i]).transaction.hash_view())
                    ==> final(self).pool@.contains(old(self).pool@[i]),
    {
        self.pool.remove_block_transactions(block);
    }

    /// Revalidates the parked transactions against the latest accounts.
    pub fn reorganize_pool(&mut self, factory: &ProviderFactory)
        requires
            old(self).pool.wf(),
            factory.wf(),
        ensures
            final(self).pool.wf(),
            ({
                let m = factory.store().states()[factory.store().latest()];
                &&& forall|i: int| 0 <= i < final(self).pool@.len() && (#[trigger] final(self).pool@[i]).sub_pool == SubPool::Parked ==>
                    validation_error(final(self).pool@[i].transaction.transaction, on_chain(m, final(self).pool@[i].transaction.tid_key().0).nonce) is None
                    && final(self).pool@[i] == reclassified(final(self).pool@[i], on_chain(m, final(self).pool@[i].transaction.tid_key().0))
                &&& forall|i: int| 0 <= i < old(self).pool@.len() && (#[trigger] old(self).pool@[i]).sub_pool == SubPool::Pending ==>
                    final(self).pool@.contains(old(self).pool@[i])
                &&& forall|i: int| 0 <= i < old(self).pool@.len() && (#[trigger] old(self).pool@[i]).sub_pool == SubPool::Parked
                    && validation_error(old(self).pool@[i].transaction.transaction, on_chain(m, old(self).pool@[i].transaction.tid_key().0).nonce) is None
                    ==> final(self).pool@.contains(reclassified(old(self).pool@[i], on_chain(m, old(self).pool@[i].transaction.tid_key().0)))
            }),
    {
        let latest = factory.block_number();
        match factory.db().get_state(latest) {
            Some((state, _world)) => self.pool.reorganize_pool(&state),
            None => {},
        }
    }

    pub fn best_transactions(&self) -> (r: BestTransactions)
        ensures
            r.independent@.len() == count_in(self.pool@, SubPool::Pending),
            crate::pool::all_taken(r.independent@, self.pool@),
    {
        self.pool.best_transactions()
    }

    pub fn check_pending_pool_len(&self) -> (r: usize)
        ensures
            r == count_in(self.pool@, SubPool::Pending),
    {
        self.pool.pending_len()
    }
}

/// Marks any signed transaction valid, as from outside, for exercising the
/// pool without a chain store.
#[derive(Clone, Copy, Debug, Default)]
pub struct MockValidator;

impl MockValidator {
    pub fn validate(&mut self, tx: SignedTransaction) -> (r: Result<ValidPoolTransaction, RecoveryError>)
        ensures
            signer_of(tx.hash.0.0@, tx.signature) is None ==> r is Err,
            signer_of(tx.hash.0.0@, tx.signature) is Some ==> r is Ok && r->Ok_0.wf() && r->Ok_0.transaction.tx == tx
                && r->Ok_0.origin == TransactionOrigin::External,
    {
        match tx.into_recovered() {
            Ok(recovered) => Ok(ValidPoolTransaction::new(recovered, TransactionOrigin::External)),
            Err(e) => Err(e),
        }
    }
}

} // verus!
