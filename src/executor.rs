//! Applying transactions and blocks to account state.
use vstd::prelude::*;
use crate::types::{Account, TxHash, addr_key};
use crate::u256::{U256, u256_max};
use crate::bytes::be_value;
use crate::state::{AccountState, World};
use crate::transaction::{Recovered, RecoveryError, SignedTransaction, Transaction, signer_of};
use crate::block::Block;

verus! {

/// An account as numbers: nonce and balance.
pub type AccountModel = (u64, nat);

pub open spec fn account_model(a: Account) -> AccountModel {
    (a.nonce, a.balance.value())
}

/// Accounts by address key, as numbers.
pub open spec fn model_of(m: Map<nat, Account>) -> Map<nat, AccountModel> {
    m.map_values(|a: Account| account_model(a))
}

pub open spec fn sat_add(a: nat, b: nat) -> nat {
    if a + b > u256_max() {
        u256_max()
    } else {
        a + b
    }
}

pub open spec fn sat_inc(n: u64) -> u64 {
    if n == u64::MAX {
        n
    } else {
        (n + 1) as u64
    }
}

/// Why a transaction could not be applied.
#[derive(Clone, Copy, Debug, PartialEq, Eq, Structural)]
pub enum TxExecutionError {
    SenderHasNotEnoughBalance,
    SenderHasNoAccount,
    /// The sender's nonce, then the transaction's.
    NonceError(u64, u64),
}

#[derive(Clone, Copy, Debug, PartialEq, Eq)]
pub enum StateExecutionError {
    TransactionExecutionError(TxHash, TxExecutionError),
}

#[derive(Clone, Copy, Debug, PartialEq, Eq)]
pub enum ExecutionError {
    StateExecutionError(StateExecutionError),
    TransactionRecoveryError(RecoveryError),
    TotalFeeisDifferent,
}

/// The effect of a transaction from sender `sk` to receiver `rk`: the sender
/// must exist, its nonce must match and it must afford fee plus value; then
/// the sender pays both and counts one more nonce, and the receiver, created
/// if new, gets the value.
pub open spec fn apply_tx(m: Map<nat, AccountModel>, sk: nat, rk: nat, t: Transaction) -> Result<
    Map<nat, AccountModel>,
    TxExecutionError,
> {
    if !m.contains_key(sk) {
        Err(TxExecutionError::SenderHasNoAccount)
    } else if m[sk].0 != t.nonce {
        Err(TxExecutionError::NonceError(m[sk].0, t.nonce))
    } else if t.fee + t.value.value() > m[sk].1 {
        Err(TxExecutionError::SenderHasNotEnoughBalance)
    } else {
        let paid = m.insert(sk, (sat_inc(m[sk].0), (m[sk].1 - t.value.value() - t.fee) as nat));
        let old_r = if paid.contains_key(rk) {
            paid[rk]
        } else {
            (0u64, 0nat)
        };
        Ok(paid.insert(rk, (old_r.0, sat_add(old_r.1, t.value.value()))))
    }
}

/// What a block's body does to the accounts, in order: a transaction whose
/// signer cannot be recovered stops everything; one that cannot be applied
/// is skipped; the fees of the others are summed.
pub open spec fn apply_body(m: Map<nat, AccountModel>, body: Seq<SignedTransaction>) -> Result<
    (Map<nat, AccountModel>, nat),
    RecoveryError,
>
    decreases body.len(),
{
    if body.len() == 0 {
        Ok((m, 0))
    } else {
        match apply_body(m, body.drop_last()) {
            Err(e) => Err(e),
            Ok((m1, fees)) => {
                let s = body.last();
                match signer_of(s.hash.0.0@, s.signature) {
                    None => Err(RecoveryError::RecoveryFromDigestError),
                    Some(signer) => match apply_tx(m1, be_value(signer), addr_key(s.tx.to), s.tx) {
                        Ok(m2) => Ok((m2, sat_add(fees, s.tx.fee as nat))),
                        Err(_) => Ok((m1, fees)),
                    },
                }
            },
        }
    }
}

/// Credits the proposer with the collected fees.
pub open spec fn credit(m: Map<nat, AccountModel>, pk: nat, fees: nat) -> Map<nat, AccountModel> {
    let old_p = if m.contains_key(pk) {
        m[pk]
    } else {
        (0u64, 0nat)
    };
    m.insert(pk, (old_p.0, sat_add(old_p.1, fees)))
}

/// A speculative copy of the accounts and the world, changed in place.
pub struct ExecutableState {
    pub accounts_write: AccountState,
    pub field_write: World,
}

impl ExecutableState {
    pub open spec fn wf(&self) -> bool {
        self.accounts_write.wf()
    }

    pub open spec fn model(&self) -> Map<nat, AccountModel> {
        model_of(self.accounts_write@)
    }

    pub fn new(accounts: AccountState, world: World) -> (r: ExecutableState)
        ensures
            r.accounts_write == accounts,
            r.field_write == world,
    {
        ExecutableState { accounts_write: accounts, field_write: world }
    }

    /// Applies one transaction; on failure nothing changes. Returns the fee.
    pub fn execute_transaction(&mut self, transaction: &Recovered) -> (r: Result<u128, StateExecutionError>)
        requires
            old(self).wf(),
        ensures
            final(self).wf(),
            final(self).field_write == old(self).field_write,
            match apply_tx(old(self).model(), addr_key(transaction.signer), addr_key(transaction.tx.tx.to), transaction.tx.tx) {
                Ok(m2) => r == Ok::<u128, StateExecutionError>(transaction.tx.tx.fee) && final(self).model() == m2,
                Err(e) => r == Err::<u128, StateExecutionError>(
                    StateExecutionError::TransactionExecutionError(transaction.tx.hash, e),
                ) && final(self).model() == old(self).model(),
            },
    {
        let ghost m0 = self.model();
        let sender = transaction.signer();
        let receiver = transaction.to();
        let t = transaction.tx.tx;
        let mut sender_account = match self.accounts_write.get(&sender) {
            Some(account) => account,
            None => {
                return Err(
                    StateExecutionError::TransactionExecutionError(
                        transaction.hash(),
                        TxExecutionError::SenderHasNoAccount,
                    ),
                );
            },
        };
        if sender_account.nonce() != t.nonce {
            return Err(
                StateExecutionError::TransactionExecutionError(
                    transaction.hash(),
                    TxExecutionError::NonceError(sender_account.nonce, t.nonce),
                ),
            );
        }
        let fee = U256::from_u128(t.fee);
        if !t.value.le(&sender_account.balance) || !fee.le(&sender_account.balance.saturating_sub(&t.value)) {
            return Err(
                StateExecutionError::TransactionExecutionError(
                    transaction.hash(),
                    TxExecutionError::SenderHasNotEnoughBalance,
                ),
            );
        }
        sender_account.sub_balance(&t.value);
        sender_account.sub_balance(&fee);
        sender_account.increase_nonce();
        self.accounts_write.set(sender, sender_account);
        let ghost m1 = self.model();
        assert(m1 =~= m0.insert(addr_key(sender), account_model(sender_account)));
        let mut receiver_account = match self.accounts_write.get(&receiver) {
            Some(account) => account,
            None => Account::empty(),
        };
        receiver_account.add_balance(&t.value);
        self.accounts_write.set(receiver, receiver_account);
        assert(self.model() =~= m1.insert(addr_key(receiver), account_model(receiver_account)));
        Ok(t.fee)
    }
}

/// The result of executing one transaction.
#[derive(Clone, Copy, Debug, PartialEq, Eq)]
pub struct Receipt {
    pub tx_hash: TxHash,
    pub fee: u128,
    pub success: bool,
    pub error: Option<ExecutionError>,
}

/// Runs transactions on a speculative state and records receipts.
pub struct Executor {
    pub state: ExecutableState,
    pub receipts: Vec<Receipt>,
}

impl Executor {
    pub fn new(state: ExecutableState) -> (r: Executor)
        ensures
            r.state == state,
            r.receipts@.len() == 0,
    {
        Executor { state, receipts: Vec::new() }
    }

    /// Executes one transaction; a failure gives a receipt with no fee.
    pub fn execute_transaction(&mut self, tx: &Recovered) -> (r: Receipt)
        requires
            old(self).state.wf(),
        ensures
            final(self).state.wf(),
            final(self).state.field_write == old(self).state.field_write,
            final(self).receipts@ == old(self).receipts@.push(r),
            r.tx_hash == tx.tx.hash,
            match apply_tx(old(self).state.model(), addr_key(tx.signer), addr_key(tx.tx.tx.to), tx.tx.tx) {
                Ok(m2) => r.success && r.fee == tx.tx.tx.fee && r.error is None && final(self).state.model() == m2,
                Err(e) => !r.success && r.fee == 0 && r.error == Some(
                    ExecutionError::StateExecutionError(StateExecutionError::TransactionExecutionError(tx.tx.hash, e)),
                ) && final(self).state.model() == old(self).state.model(),
            },
    {
        let receipt = match self.state.execute_transaction(tx) {
            Ok(fee) => Receipt { tx_hash: tx.hash(), fee, success: true, error: None },
            Err(err) => Receipt {
                tx_hash: tx.hash(),
                fee: 0,
                success: false,
                error: Some(ExecutionError::StateExecutionError(err)),
            },
        };
        self.receipts.push(receipt);
        receipt
    }

    /// Validates a block against the state: runs its body in order, skipping
    /// failed transactions, credits the proposer with the fees, and requires
    /// the header's total fee to equal them.
    pub fn execute_block(&mut self, block: &Block) -> (r: Result<(), ExecutionError>)
        requires
            old(self).state.wf(),
        ensures
            final(self).state.wf(),
            match apply_body(old(self).state.model(), block.body@) {
                Err(e) => r == Err::<(), ExecutionError>(ExecutionError::TransactionRecoveryError(e)),
                Ok((m, fees)) => if block.header.total_fee.value() != fees {
                    r == Err::<(), ExecutionError>(ExecutionError::TotalFeeisDifferent)
                } else {
                    r is Ok && final(self).state.model() == credit(m, addr_key(block.header.proposer), fees)
                },
            },
    {
        let ghost m0 = self.state.model();
        let mut fee_sum = U256::zero();
        let mut i: usize = 0;
        while i < block.body.len()
            invariant
                self.state.wf(),
                m0 == old(self).state.model(),
                i <= block.body@.len(),
                apply_body(m0, block.body@.subrange(0, i as int)) == Ok::<(Map<nat, AccountModel>, nat), RecoveryError>(
                    (self.state.model(), fee_sum.value()),
                ),
            decreases block.body@.len() - i,
        {
            let ghost prefix = block.body@.subrange(0, i as int);
            let ghost next = block.body@.subrange(0, i + 1);
            assert(next.drop_last() =~= prefix);
            let signed = block.body[i];
            let recovered = match signed.into_recovered() {
                Ok(recovered) => recovered,
                Err(e) => {
                    assert(signer_of(signed.hash.0.0@, signed.signature) is None);
                    assert(next.last() == signed);
                    assert(apply_body(m0, next) == Err::<(Map<nat, AccountModel>, nat), RecoveryError>(e));
                    proof {
                        lemma_body_err_extends(m0, block.body@, i as int + 1);
                        assert(apply_body(m0, block.body@) == Err::<(Map<nat, AccountModel>, nat), RecoveryError>(e));
                        assert(m0 == old(self).state.model());
                    }
                    return Err(ExecutionError::TransactionRecoveryError(e));
                },
            };
            proof {
                crate::bytes::lemma_be_value_bound(recovered.signer.0@);
            }
            let receipt = self.execute_transaction(&recovered);
            if receipt.success {
                fee_sum = fee_sum.saturating_add(&U256::from_u128(receipt.fee));
            }
            i = i + 1;
        }
        assert(block.body@.subrange(0, i as int) =~= block.body@);
        if !block.header.total_fee.le(&fee_sum) || !fee_sum.le(&block.header.total_fee) {
            return Err(ExecutionError::TotalFeeisDifferent);
        }
        let proposer = block.header.proposer;
        let ghost mb = self.state.model();
        let mut account = match self.state.accounts_write.get(&proposer) {
            Some(account) => account,
            None => Account::empty(),
        };
        account.add_balance(&fee_sum);
        self.state.accounts_write.set(proposer, account);
        assert(self.state.model() =~= credit(mb, addr_key(proposer), fee_sum.value()));
        Ok(())
    }

    /// The state root of the speculative state.
    pub fn calculate_state_root(&self) -> (r: crate::types::B256)
        ensures
            r.0@ == crate::state::state_root_of(self.state.accounts_write.entries_view()),
    {
        self.state.accounts_write.calculate_state_root(&self.state.field_write)
    }
}

/// Once a prefix of a body fails recovery, the whole body does.
pub proof fn lemma_body_err_extends(m: Map<nat, AccountModel>, body: Seq<SignedTransaction>, n: int)
    requires
        0 <= n <= body.len(),
        apply_body(m, body.subrange(0, n)) is Err,
    ensures
        apply_body(m, body) == apply_body(m, body.subrange(0, n)),
    decreases body.len() - n,
{
    if n < body.len() {
        let next = body.subrange(0, n + 1);
        assert(next.drop_last() =~= body.subrange(0, n));
        lemma_body_err_extends(m, body, n + 1);
    } else {
        assert(body.subrange(0, n) =~= body);
    }
}

} // verus!
