//! The transaction pool: validated transactions split into a pending and a
//! parked subpool, with replace-by-fee.
use vstd::prelude::*;
use crate::types::{Address, Account, TxHash, addr_key, is_coinbase};
use crate::u256::U256;
use crate::transaction::Recovered;
use crate::state::AccountState;

verus! {

/// A transaction's identity: its sender and nonce.
#[derive(Clone, Copy, Debug, PartialEq, Eq)]
pub struct TransactionId {
    pub sender: Address,
    pub nonce: u64,
}

/// Where a transaction came from.
#[derive(Clone, Copy, Debug, PartialEq, Eq, Structural)]
pub enum TransactionOrigin {
    Local,
    External,
}

/// The two subpools.
#[derive(Clone, Copy, Debug, PartialEq, Eq, Structural)]
pub enum SubPool {
    Pending,
    Parked,
}

impl SubPool {
    pub fn is_pending(&self) -> (r: bool)
        ensures
            r == (*self == SubPool::Pending),
    {
        match self {
            SubPool::Pending => true,
            SubPool::Parked => false,
        }
    }
}

/// What classification found: whether the balance covers fee plus value,
/// and whether a nonce gap lies before the transaction.
#[derive(Clone, Copy, Debug, PartialEq, Eq, Structural)]
pub struct TxState {
    pub has_balance: bool,
    pub has_ancestor: bool,
}

impl TxState {
    pub fn new() -> (r: TxState)
        ensures
            !r.has_balance,
            !r.has_ancestor,
    {
        TxState { has_balance: false, has_ancestor: false }
    }

    pub fn has_balance(&mut self)
        ensures
            final(self).has_balance,
            final(self).has_ancestor == old(self).has_ancestor,
    {
        self.has_balance = true;
    }

    pub fn has_ancestor(&mut self)
        ensures
            final(self).has_ancestor,
            final(self).has_balance == old(self).has_balance,
    {
        self.has_ancestor = true;
    }

    /// Pending exactly when the balance suffices and no gap precedes.
    pub fn sub_pool(&self) -> (r: SubPool)
        ensures
            r == (if self.has_balance && !self.has_ancestor {
                SubPool::Pending
            } else {
                SubPool::Parked
            }),
    {
        if self.has_balance && !self.has_ancestor {
            SubPool::Pending
        } else {
            SubPool::Parked
        }
    }
}

/// Pending exactly when fee plus value fits the on-chain balance and the
/// nonce is the on-chain nonce.
pub open spec fn classify(fee: u128, value: U256, balance: U256, nonce: u64, on_chain_nonce: u64) -> SubPool {
    if fee + value.value() <= balance.value() && nonce <= on_chain_nonce {
        SubPool::Pending
    } else {
        SubPool::Parked
    }
}

/// The classification of a transaction against on-chain balance and nonce.
pub fn new_with(tx: &ValidPoolTransaction, on_chain_balance: &U256, on_chain_nonce: u64) -> (r: TxState)
    ensures
        r.has_balance == (tx.fee() + tx.value().value() <= on_chain_balance.value()),
        r.has_ancestor == (tx.nonce() > on_chain_nonce),
{
    let mut state = TxState::new();
    let value = tx.transaction.tx.tx.value;
    let fee = U256::from_u128(tx.transaction.tx.tx.fee);
    if value.le(on_chain_balance) && fee.le(&on_chain_balance.saturating_sub(&value)) {
        state.has_balance();
    }
    if tx.transaction.tx.tx.nonce > on_chain_nonce {
        state.has_ancestor();
    }
    state
}

/// A transaction that passed validation.
#[derive(Clone, Copy, Debug, PartialEq, Eq)]
pub struct ValidPoolTransaction {
    pub transaction: Recovered,
    pub transaction_id: TransactionId,
    pub origin: TransactionOrigin,
}

impl ValidPoolTransaction {
    pub open spec fn fee(&self) -> nat {
        self.transaction.tx.tx.fee as nat
    }

    pub open spec fn value(&self) -> U256 {
        self.transaction.tx.tx.value
    }

    pub open spec fn nonce(&self) -> u64 {
        self.transaction.tx.tx.nonce
    }

    pub open spec fn hash_view(&self) -> Seq<u8> {
        self.transaction.tx.hash.0.0@
    }

    pub open spec fn tid_key(&self) -> (nat, u64) {
        (addr_key(self.transaction_id.sender), self.transaction_id.nonce)
    }

    /// Its identity matches its signer and nonce.
    pub open spec fn wf(&self) -> bool {
        &&& self.transaction_id.sender == self.transaction.signer
        &&& self.transaction_id.nonce == self.transaction.tx.tx.nonce
    }

    pub fn new(transaction: Recovered, origin: TransactionOrigin) -> (r: ValidPoolTransaction)
        ensures
            r.wf(),
            r.transaction == transaction,
            r.origin == origin,
    {
        let transaction_id = TransactionId { sender: transaction.signer, nonce: transaction.tx.tx.nonce };
        ValidPoolTransaction { transaction, transaction_id, origin }
    }

    pub fn tx(&self) -> (r: &Recovered)
        ensures
            r == &self.transaction,
    {
        &self.transaction
    }

    pub fn tid(&self) -> (r: &TransactionId)
        ensures
            r == &self.transaction_id,
    {
        &self.transaction_id
    }

    pub fn sender(&self) -> (r: Address)
        ensures
            r == self.transaction_id.sender,
    {
        self.transaction_id.sender
    }

    pub fn hash(&self) -> (r: TxHash)
        ensures
            r == self.transaction.tx.hash,
    {
        self.transaction.tx.hash
    }

    /// Whether this transaction's fee is below the other's.
    pub fn is_underpriced(&self, other: &ValidPoolTransaction) -> (r: bool)
        ensures
            r == (self.fee() < other.fee()),
    {
        self.transaction.tx.tx.fee < other.transaction.tx.tx.fee
    }
}

/// The pool form of a transaction that passed validation.
pub open spec fn valid_tx_of(t: Recovered, origin: TransactionOrigin) -> ValidPoolTransaction {
    ValidPoolTransaction {
        transaction: t,
        transaction_id: TransactionId { sender: t.signer, nonce: t.tx.tx.nonce },
        origin,
    }
}

/// Why a transaction failed validation.
#[derive(Clone, Copy, Debug, PartialEq, Eq, Structural)]
pub enum InvalidPoolTransactionError {
    NotEnoughFeeError,
    NonceIsNotConsistent,
    UsingCoinbaseAddr,
}

/// The outcome of validating a transaction against an on-chain account.
#[derive(Clone, Copy, Debug, PartialEq, Eq)]
pub enum TransactionValidationOutcome {
    Valid { transaction: ValidPoolTransaction, balance: U256, nonce: u64 },
    Invalid { transaction: Recovered, error: InvalidPoolTransactionError },
    UnexpectedError(TxHash),
}

impl TransactionValidationOutcome {
    pub fn is_valid(&self) -> (r: bool)
        ensures
            r == (self is Valid),
    {
        match self {
            TransactionValidationOutcome::Valid { .. } => true,
            _ => false,
        }
    }
}

/// The validation rule: a sender other than the coinbase, a fee above zero
/// and a nonce not below the on-chain nonce.
pub open spec fn validation_error(t: Recovered, on_chain_nonce: u64) -> Option<InvalidPoolTransactionError> {
    if is_coinbase(t.signer) {
        Some(InvalidPoolTransactionError::UsingCoinbaseAddr)
    } else if t.tx.tx.fee == 0 {
        Some(InvalidPoolTransactionError::NotEnoughFeeError)
    } else if t.tx.tx.nonce < on_chain_nonce {
        Some(InvalidPoolTransactionError::NonceIsNotConsistent)
    } else {
        None
    }
}

/// Validates a transaction against the sender's on-chain account (an
/// absent account counts as nonce 0 and no balance).
pub fn validate_one(origin: TransactionOrigin, transaction: Recovered, account: Option<Account>) -> (r:
    TransactionValidationOutcome)
    ensures
        ({
            let a = if account is Some { account->0 } else { Account { nonce: 0, balance: U256 { hi: 0, lo: 0 } } };
            match validation_error(transaction, a.nonce) {
                Some(e) => r == TransactionValidationOutcome::Invalid { transaction, error: e },
                None => r matches TransactionValidationOutcome::Valid { transaction: v, balance, nonce } && v.wf()
                    && v == valid_tx_of(transaction, origin) && balance == a.balance && nonce == a.nonce,
            }
        }),
{
    let account = match account {
        Some(a) => a,
        None => Account { nonce: 0, balance: U256::zero() },
    };
    let zero = crate::types::coinbase();
    if crate::types::bytes_equal(&transaction.signer.0, &zero.0) {
        return TransactionValidationOutcome::Invalid {
            transaction,
            error: InvalidPoolTransactionError::UsingCoinbaseAddr,
        };
    }
    if transaction.tx.tx.fee == 0 {
        return TransactionValidationOutcome::Invalid {
            transaction,
            error: InvalidPoolTransactionError::NotEnoughFeeError,
        };
    }
    if transaction.tx.tx.nonce < account.nonce {
        return TransactionValidationOutcome::Invalid {
            transaction,
            error: InvalidPoolTransactionError::NonceIsNotConsistent,
        };
    }
    TransactionValidationOutcome::Valid {
        transaction: ValidPoolTransaction::new(transaction, origin),
        balance: account.balance,
        nonce: account.nonce,
    }
}

/// Why the pool refused a transaction.
#[derive(Clone, Copy, Debug, PartialEq, Eq)]
pub enum PoolErrorKind {
    AlreadyImported,
    InvalidTransaction(ValidPoolTransaction),
    ReplacementUnderpriced(ValidPoolTransaction),
    ImportError,
    InvalidPoolTransactionError(InvalidPoolTransactionError),
}

#[derive(Clone, Copy, Debug, PartialEq, Eq)]
pub struct PoolError {
    pub hash: TxHash,
    pub kind: PoolErrorKind,
}

impl PoolError {
    pub fn new(hash: TxHash, kind: PoolErrorKind) -> (r: PoolError)
        ensures
            r.hash == hash,
            r.kind == kind,
    {
        PoolError { hash, kind }
    }
}

/// A pooled transaction with its subpool, its submission number and the
/// on-chain balance and nonce it was classified against.
#[derive(Clone, Copy, Debug, PartialEq, Eq)]
pub struct PoolEntry {
    pub transaction: ValidPoolTransaction,
    pub sub_pool: SubPool,
    pub submission_id: u64,
    pub on_chain_balance: U256,
    pub on_chain_nonce: u64,
}

/// An entry's subpool agrees with its classification, and it passed the
/// pool's checks.
pub open spec fn entry_ok(e: PoolEntry) -> bool {
    &&& e.transaction.wf()
    &&& e.transaction.fee() > 0
    &&& e.transaction.nonce() >= e.on_chain_nonce
    &&& e.sub_pool == classify(
        e.transaction.transaction.tx.tx.fee,
        e.transaction.value(),
        e.on_chain_balance,
        e.transaction.nonce(),
        e.on_chain_nonce,
    )
}

/// No two entries share an identity or a hash.
pub open spec fn distinct_entries(s: Seq<PoolEntry>) -> bool {
    forall|i: int, j: int|
        0 <= i < s.len() && 0 <= j < s.len() && i != j ==> (#[trigger] s[i]).transaction.tid_key()
            != (#[trigger] s[j]).transaction.tid_key() && s[i].transaction.hash_view() != s[j].transaction.hash_view()
}

pub open spec fn has_hash(s: Seq<PoolEntry>, h: Seq<u8>) -> bool {
    exists|i: int| 0 <= i < s.len() && (#[trigger] s[i]).transaction.hash_view() == h
}

/// The number of entries in a subpool.
pub open spec fn count_in(s: Seq<PoolEntry>, p: SubPool) -> nat
    decreases s.len(),
{
    if s.len() == 0 {
        0
    } else {
        count_in(s.drop_last(), p) + if s.last().sub_pool == p {
            1nat
        } else {
            0nat
        }
    }
}

/// All validated transactions, each in exactly one subpool.
pub struct TxPool {
    entries: Vec<PoolEntry>,
    next_id: u64,
    sender_info: AccountState,
}

impl TxPool {
    pub closed spec fn view(&self) -> Seq<PoolEntry> {
        self.entries@
    }

    pub closed spec fn wf(&self) -> bool {
        &&& forall|i: int| 0 <= i < self.entries@.len() ==> entry_ok(#[trigger] self.entries@[i])
        &&& distinct_entries(self.entries@)
        &&& self.sender_info.wf()
    }

    /// The on-chain accounts last seen per sender.
    pub closed spec fn senders(&self) -> Map<nat, Account> {
        self.sender_info@
    }

    pub fn new() -> (r: TxPool)
        ensures
            r.wf(),
            r@.len() == 0,
    {
        TxPool { entries: Vec::new(), next_id: 0, sender_info: AccountState::new() }
    }

    pub fn len(&self) -> (r: usize)
        ensures
            r == self@.len(),
    {
        self.entries.len()
    }

    fn count(&self, p: SubPool) -> (r: usize)
        ensures
            r == count_in(self@, p),
    {
        let mut n: usize = 0;
        let mut i: usize = 0;
        while i < self.entries.len()
            invariant
                i <= self.entries@.len(),
                n == count_in(self.entries@.subrange(0, i as int), p),
                n <= i,
            decreases self.entries@.len() - i,
        {
            assert(self.entries@.subrange(0, i + 1).drop_last() =~= self.entries@.subrange(0, i as int));
            if self.entries[i].sub_pool == p {
                n = n + 1;
            }
            i = i + 1;
        }
        assert(self.entries@.subrange(0, i as int) =~= self.entries@);
        n
    }

    /// The number of pending transactions.
    pub fn pending_len(&self) -> (r: usize)
        ensures
            r == count_in(self@, SubPool::Pending),
    {
        self.count(SubPool::Pending)
    }

    /// The number of parked transactions.
    pub fn parked_len(&self) -> (r: usize)
        ensures
            r == count_in(self@, SubPool::Parked),
    {
        self.count(SubPool::Parked)
    }

    fn find_hash(&self, hash: &TxHash) -> (r: Option<usize>)
        ensures
            r is None == !has_hash(self@, hash.0.0@),
            r is Some ==> r->0 < self@.len() && self@[r->0 as int].transaction.hash_view() == hash.0.0@,
    {
        let mut i: usize = 0;
        while i < self.entries.len()
            invariant
                i <= self.entries@.len(),
                forall|j: int| 0 <= j < i ==> (#[trigger] self.entries@[j]).transaction.hash_view() != hash.0.0@,
            decreases self.entries@.len() - i,
        {
            if self.entries[i].transaction.transaction.tx.hash.equals(hash) {
                return Some(i);
            }
            i = i + 1;
        }
        None
    }

    fn find_tid(&self, sender: &Address, nonce: u64) -> (r: Option<usize>)
        ensures
            r is None ==> forall|j: int| 0 <= j < self@.len() ==> (#[trigger] self@[j]).transaction.tid_key() != (
                addr_key(*sender),
                nonce,
            ),
            r is Some ==> r->0 < self@.len() && self@[r->0 as int].transaction.tid_key() == (addr_key(*sender), nonce),
    {
        let mut i: usize = 0;
        while i < self.entries.len()
            invariant
                i <= self.entries@.len(),
                forall|j: int| 0 <= j < i ==> (#[trigger] self.entries@[j]).transaction.tid_key() != (
                    addr_key(*sender),
                    nonce,
                ),
            decreases self.entries@.len() - i,
        {
            let id = self.entries[i].transaction.transaction_id;
            if id.nonce == nonce && id.sender.cmp_key(sender) == 0 {
                return Some(i);
            }
            i = i + 1;
        }
        None
    }

    /// Whether a transaction with this hash is in the pool.
    pub fn contains(&self, tx_hash: &TxHash) -> (r: bool)
        ensures
            r == has_hash(self@, tx_hash.0.0@),
    {
        self.find_hash(tx_hash).is_some()
    }

    fn next_submission(&mut self) -> (r: u64)
        ensures
            final(self).entries == old(self).entries,
            final(self).sender_info == old(self).sender_info,
    {
        let id = self.next_id;
        if self.next_id < u64::MAX {
            self.next_id = self.next_id + 1;
        }
        id
    }

    /// Inserts a validated transaction, given the sender's on-chain balance
    /// and nonce. A known hash is refused; so is a zero fee or a nonce below
    /// the on-chain nonce. A transaction with the identity of a pooled one
    /// replaces it only with a strictly higher fee.
    pub fn add_transaction(&mut self, transaction: ValidPoolTransaction, on_chain_balance: U256, on_chain_nonce: u64)
        -> (r: Result<(), PoolError>)
        requires
            old(self).wf(),
            transaction.wf(),
        ensures
            final(self).wf(),
            has_hash(old(self)@, transaction.hash_view()) ==> r == Err::<(), PoolError>(
                PoolError::new_spec(transaction.transaction.tx.hash, PoolErrorKind::AlreadyImported),
            ) && final(self)@ == old(self)@,
            !has_hash(old(self)@, transaction.hash_view()) && (transaction.fee() == 0 || transaction.nonce()
                < on_chain_nonce) ==> r == Err::<(), PoolError>(
                PoolError::new_spec(transaction.transaction.tx.hash, PoolErrorKind::InvalidTransaction(transaction)),
            ) && final(self)@ == old(self)@,
            !has_hash(old(self)@, transaction.hash_view()) && transaction.fee() > 0 && transaction.nonce()
                >= on_chain_nonce ==> insert_outcome(old(self)@, final(self)@, transaction, on_chain_balance, on_chain_nonce, r),
    {
        let hash = transaction.hash();
        if self.contains(&hash) {
            return Err(PoolError::new(hash, PoolErrorKind::AlreadyImported));
        }
        if transaction.transaction.tx.tx.fee == 0 || transaction.transaction.tx.tx.nonce < on_chain_nonce {
            return Err(PoolError::new(hash, PoolErrorKind::InvalidTransaction(transaction)));
        }
        let sender = transaction.sender();
        let state = new_with(&transaction, &on_chain_balance, on_chain_nonce);
        let sub_pool = state.sub_pool();
        let ghost old_entries = self.entries@;
        match self.find_tid(&sender, transaction.transaction_id.nonce) {
            Some(i) => {
                proof {
                    assert(old_entries[i as int].transaction.tid_key() == transaction.tid_key());
                    let c = choose|j: int|
                        0 <= j < old_entries.len() && (#[trigger] old_entries[j]).transaction.tid_key()
                            == transaction.tid_key();
                    if c != i {
                        assert(old_entries[c].transaction.tid_key() != old_entries[i as int].transaction.tid_key());
                    }
                }
                let old_tx = self.entries[i].transaction;
                if !old_tx.is_underpriced(&transaction) {
                    return Err(PoolError::new(hash, PoolErrorKind::ReplacementUnderpriced(transaction)));
                }
                let submission_id = self.next_submission();
                let entry = PoolEntry { transaction, sub_pool, submission_id, on_chain_balance, on_chain_nonce };
                self.entries[i] = entry;
                assert(self.entries@ == old_entries.update(i as int, entry));
                assert forall|x: int, y: int|
                    0 <= x < self.entries@.len() && 0 <= y < self.entries@.len() && x != y implies (
                    #[trigger] self.entries@[x]).transaction.tid_key() != (
                    #[trigger] self.entries@[y]).transaction.tid_key() && self.entries@[x].transaction.hash_view()
                    != self.entries@[y].transaction.hash_view() by {
                    if x == i {
                        assert(old_entries[y] == self.entries@[y]);
                        assert(old_entries[y].transaction.tid_key() != old_entries[x].transaction.tid_key());
                    } else if y == i {
                        assert(old_entries[x] == self.entries@[x]);
                        assert(old_entries[x].transaction.tid_key() != old_entries[y].transaction.tid_key());
                    }
                }
            },
            None => {
                let submission_id = self.next_submission();
                let entry = PoolEntry { transaction, sub_pool, submission_id, on_chain_balance, on_chain_nonce };
                self.entries.push(entry);
                assert(self.entries@.drop_last() =~= old_entries);
                assert(!exists|j: int| 0 <= j < old_entries.len() && (#[trigger] old_entries[j]).transaction.tid_key()
                    == transaction.tid_key());
                assert forall|x: int, y: int|
                    0 <= x < self.entries@.len() && 0 <= y < self.entries@.len() && x != y implies (
                    #[trigger] self.entries@[x]).transaction.tid_key() != (
                    #[trigger] self.entries@[y]).transaction.tid_key() && self.entries@[x].transaction.hash_view()
                    != self.entries@[y].transaction.hash_view() by {
                    if x == old_entries.len() {
                        assert(old_entries[y] == self.entries@[y]);
                    } else if y == old_entries.len() {
                        assert(old_entries[x] == self.entries@[x]);
                    }
                }
            },
        }
        let account = Account::new(on_chain_nonce, on_chain_balance);
        self.sender_info.set(sender, account);
        Ok(())
    }
}

impl PoolError {
    pub open spec fn new_spec(hash: TxHash, kind: PoolErrorKind) -> PoolError {
        PoolError { hash, kind }
    }
}

/// The outcome of inserting a transaction that passed the pool's checks:
/// with no pooled transaction of its identity it is appended; with one, it
/// replaces it when its fee is strictly higher and is refused otherwise.
pub open spec fn insert_outcome(
    before: Seq<PoolEntry>,
    after: Seq<PoolEntry>,
    t: ValidPoolTransaction,
    balance: U256,
    nonce: u64,
    r: Result<(), PoolError>,
) -> bool {
    let placed = |e: PoolEntry|
        e.transaction == t && e.on_chain_balance == balance && e.on_chain_nonce == nonce && e.sub_pool == classify(
            t.transaction.tx.tx.fee,
            t.value(),
            balance,
            t.nonce(),
            nonce,
        );
    if exists|i: int| 0 <= i < before.len() && (#[trigger] before[i]).transaction.tid_key() == t.tid_key() {
        let i = choose|i: int| 0 <= i < before.len() && (#[trigger] before[i]).transaction.tid_key() == t.tid_key();
        if t.fee() <= before[i].transaction.fee() {
            r == Err::<(), PoolError>(PoolError::new_spec(t.transaction.tx.hash, PoolErrorKind::ReplacementUnderpriced(t)))
                && after == before
        } else {
            r is Ok && after.len() == before.len() && placed(after[i]) && forall|j: int|
                0 <= j < before.len() && j != i ==> #[trigger] after[j] == before[j]
        }
    } else {
        r is Ok && after.len() == before.len() + 1 && placed(after.last()) && after.drop_last() == before
    }
}

/// Whether a hash is among a block's transactions.
pub open spec fn in_body(body: Seq<crate::transaction::SignedTransaction>, h: Seq<u8>) -> bool {
    exists|k: int| 0 <= k < body.len() && (#[trigger] body[k]).hash.0.0@ == h
}

/// The on-chain account of a sender in a state, an absent one counting as
/// nonce 0 and no balance.
pub open spec fn on_chain(m: Map<nat, Account>, k: nat) -> Account {
    if m.contains_key(k) {
        m[k]
    } else {
        Account { nonce: 0, balance: U256 { hi: 0, lo: 0 } }
    }
}

/// An entry revalidated and reclassified against an on-chain account.
pub open spec fn reclassified(e: PoolEntry, a: Account) -> PoolEntry {
    PoolEntry {
        sub_pool: classify(e.transaction.transaction.tx.tx.fee, e.transaction.value(), a.balance, e.transaction.nonce(), a.nonce),
        on_chain_balance: a.balance,
        on_chain_nonce: a.nonce,
        ..e
    }
}

impl TxPool {
    /// Removes the transaction with an identity.
    pub fn remove_transaction(&mut self, id: &TransactionId) -> (r: Option<ValidPoolTransaction>)
        requires
            old(self).wf(),
        ensures
            final(self).wf(),
            r is None ==> final(self)@ == old(self)@ && forall|j: int|
                0 <= j < old(self)@.len() ==> (#[trigger] old(self)@[j]).transaction.tid_key() != (addr_key(id.sender), id.nonce),
            r is Some ==> exists|i: int|
                0 <= i < old(self)@.len() && old(self)@[i].transaction.tid_key() == (addr_key(id.sender), id.nonce)
                    && r->0 == old(self)@[i].transaction && final(self)@ == old(self)@.remove(i),
    {
        match self.find_tid(&id.sender, id.nonce) {
            None => None,
            Some(i) => {
                let ghost old_entries = self.entries@;
                let e = self.entries.remove(i);
                assert forall|x: int, y: int|
                    0 <= x < self.entries@.len() && 0 <= y < self.entries@.len() && x != y implies (
                    #[trigger] self.entries@[x]).transaction.tid_key() != (
                    #[trigger] self.entries@[y]).transaction.tid_key() && self.entries@[x].transaction.hash_view()
                    != self.entries@[y].transaction.hash_view() by {
                    let ox = if x < i { x } else { x + 1 };
                    let oy = if y < i { y } else { y + 1 };
                    assert(self.entries@[x] == old_entries[ox]);
                    assert(self.entries@[y] == old_entries[oy]);
                }
                assert forall|x: int| 0 <= x < self.entries@.len() implies entry_ok(#[trigger] self.entries@[x]) by {
                    let ox = if x < i { x } else { x + 1 };
                    assert(self.entries@[x] == old_entries[ox]);
                }
                Some(e.transaction)
            },
        }
    }

    /// Keeps the entries that `keep` marks, in order.
    fn retain_marked(&mut self, keep: &Vec<bool>)
        requires
            old(self).wf(),
            keep@.len() == old(self)@.len(),
        ensures
            final(self).wf(),
            forall|i: int| 0 <= i < final(self)@.len() ==> old(self)@.contains(#[trigger] final(self)@[i]),
            forall|i: int| 0 <= i < old(self)@.len() && keep@[i] ==> final(self)@.contains(#[trigger] old(self)@[i]),
            forall|i: int| 0 <= i < old(self)@.len() && !keep@[i] ==> !final(self)@.contains(#[trigger] old(self)@[i]),
    {
        let ghost old_entries = self.entries@;
        let mut kept: Vec<PoolEntry> = Vec::new();
        let ghost mut picked: Seq<int> = Seq::empty();
        let mut i: usize = 0;
        while i < self.entries.len()
            invariant
                self.entries@ == old_entries,
                keep@.len() == old_entries.len(),
                distinct_entries(old_entries),
                forall|x: int| 0 <= x < old_entries.len() ==> entry_ok(#[trigger] old_entries[x]),
                i <= old_entries.len(),
                picked.len() == kept@.len(),
                forall|a: int| 0 <= a < picked.len() ==> 0 <= #[trigger] picked[a] < i && kept@[a] == old_entries[picked[a]]
                    && keep@[picked[a]],
                forall|a: int, b: int| 0 <= a < b < picked.len() ==> #[trigger] picked[a] < #[trigger] picked[b],
                forall|x: int| 0 <= x < i && keep@[x] ==> exists|a: int| 0 <= a < picked.len() && #[trigger] picked[a] == x,
            decreases old_entries.len() - i,
        {
            let ghost old_picked = picked;
            if keep[i] {
                kept.push(self.entries[i]);
                proof {
                    picked = picked.push(i as int);
                    assert(picked[picked.len() - 1] == i);
                }
            }
            assert forall|x: int| 0 <= x < i + 1 && keep@[x] implies exists|a: int| 0 <= a < picked.len() && #[trigger] picked[a] == x by {
                if x == i {
                    assert(picked[picked.len() - 1] == x);
                } else {
                    let a = choose|a: int| 0 <= a < old_picked.len() && #[trigger] old_picked[a] == x;
                    assert(picked[a] == x);
                }
            }
            i = i + 1;
        }
        assert forall|x: int, y: int| 0 <= x < kept@.len() && 0 <= y < kept@.len() && x != y implies (
            #[trigger] kept@[x]).transaction.tid_key() != (#[trigger] kept@[y]).transaction.tid_key()
            && kept@[x].transaction.hash_view() != kept@[y].transaction.hash_view() by {
            if x < y {
                assert(picked[x] < picked[y]);
            } else {
                assert(picked[y] < picked[x]);
            }
        }
        assert forall|x: int| 0 <= x < kept@.len() implies old_entries.contains(#[trigger] kept@[x]) by {
            assert(old_entries[picked[x]] == kept@[x]);
        }
        assert forall|x: int| 0 <= x < old_entries.len() && keep@[x] implies kept@.contains(#[trigger] old_entries[x]) by {
            let a = choose|a: int| 0 <= a < picked.len() && #[trigger] picked[a] == x;
            assert(kept@[a] == old_entries[x]);
        }
        assert forall|x: int| 0 <= x < old_entries.len() && !keep@[x] implies !kept@.contains(#[trigger] old_entries[x]) by {
            if kept@.contains(old_entries[x]) {
                let a = choose|a: int| 0 <= a < kept@.len() && kept@[a] == old_entries[x];
                let p = picked[a];
                assert(old_entries[p] == old_entries[x]);
                if p != x {
                    assert(old_entries[p].transaction.tid_key() != old_entries[x].transaction.tid_key());
                }
            }
        }
        assert forall|x: int| 0 <= x < kept@.len() implies entry_ok(#[trigger] kept@[x]) by {
            assert(kept@[x] == old_entries[picked[x]]);
        }
        self.entries = kept;
    }

    /// Removes every transaction that a committed block includes; the rest
    /// stay.
    pub fn remove_block_transactions(&mut self, block: &crate::block::Block)
        requires
            old(self).wf(),
        ensures
            final(self).wf(),
            forall|k: int| 0 <= k < block.body@.len() ==> !has_hash(final(self)@, (#[trigger] block.body@[k]).hash.0.0@),
            forall|i: int| 0 <= i < final(self)@.len() ==> old(self)@.contains(#[trigger] final(self)@[i]),
            forall|i: int|
                0 <= i < old(self)@.len() && !in_body(block.body@, (#[trigger] old(self)@[i]).transaction.hash_view())
                    ==> final(self)@.contains(old(self)@[i]),
    {
        let mut keep: Vec<bool> = Vec::new();
        let mut i: usize = 0;
        while i < self.entries.len()
            invariant
                i <= self.entries@.len(),
                keep@.len() == i,
                forall|x: int| 0 <= x < i ==> #[trigger] keep@[x] == !in_body(block.body@, self.entries@[x].transaction.hash_view()),
            decreases self.entries@.len() - i,
        {
            let h = self.entries[i].transaction.transaction.tx.hash;
            let mut found = false;
            let mut k: usize = 0;
            while k < block.body.len()
                invariant
                    k <= block.body@.len(),
                    h == self.entries@[i as int].transaction.transaction.tx.hash,
                    found == exists|j: int| 0 <= j < k && (#[trigger] block.body@[j]).hash.0.0@ == h.0.0@,
                decreases block.body@.len() - k,
            {
                if block.body[k].hash.equals(&h) {
                    found = true;
                }
                k = k + 1;
            }
            keep.push(!found);
            i = i + 1;
        }
        let ghost before = self.entries@;
        self.retain_marked(&keep);
        assert forall|k: int| 0 <= k < block.body@.len() implies !has_hash(self.entries@, (#[trigger] block.body@[k]).hash.0.0@) by {
            if has_hash(self.entries@, block.body@[k].hash.0.0@) {
                let i = choose|i: int| 0 <= i < self.entries@.len() && (#[trigger] self.entries@[i]).transaction.hash_view() == block.body@[k].hash.0.0@;
                let j = choose|j: int| 0 <= j < before.len() && before[j] == self.entries@[i];
                assert(!keep@[j]);
            }
        }
    }

    /// Revalidates every parked transaction against the latest accounts:
    /// an invalid one leaves the pool; a valid one is classified again and
    /// may move to pending. Pending transactions stay as they are.
    pub fn reorganize_pool(&mut self, state: &AccountState)
        requires
            old(self).wf(),
            state.wf(),
        ensures
            final(self).wf(),
            final(self)@.len() <= old(self)@.len(),
            forall|i: int| 0 <= i < final(self)@.len() && (#[trigger] final(self)@[i]).sub_pool == SubPool::Parked ==>
                validation_error(final(self)@[i].transaction.transaction, on_chain(state@, final(self)@[i].transaction.tid_key().0).nonce) is None
                && final(self)@[i] == reclassified(final(self)@[i], on_chain(state@, final(self)@[i].transaction.tid_key().0)),
            forall|i: int| 0 <= i < old(self)@.len() && (#[trigger] old(self)@[i]).sub_pool == SubPool::Pending ==>
                final(self)@.contains(old(self)@[i]),
            forall|i: int| 0 <= i < old(self)@.len() && (#[trigger] old(self)@[i]).sub_pool == SubPool::Parked
                && validation_error(old(self)@[i].transaction.transaction, on_chain(state@, old(self)@[i].transaction.tid_key().0).nonce) is None
                ==> final(self)@.contains(reclassified(old(self)@[i], on_chain(state@, old(self)@[i].transaction.tid_key().0))),
            forall|i: int| 0 <= i < final(self)@.len() && (#[trigger] final(self)@[i]).sub_pool == SubPool::Pending ==>
                old(self)@.contains(final(self)@[i]) || (final(self)@[i] == reclassified(final(self)@[i], on_chain(state@, final(self)@[i].transaction.tid_key().0))
                && validation_error(final(self)@[i].transaction.transaction, on_chain(state@, final(self)@[i].transaction.tid_key().0).nonce) is None),
    {
        let ghost old_entries = self.entries@;
        let mut next: Vec<PoolEntry> = Vec::new();
        let ghost mut origin: Seq<int> = Seq::empty();
        let mut i: usize = 0;
        while i < self.entries.len()
            invariant
                self.entries@ == old_entries,
                state.wf(),
                distinct_entries(old_entries),
                forall|x: int| 0 <= x < old_entries.len() ==> entry_ok(#[trigger] old_entries[x]),
                i <= old_entries.len(),
                origin.len() == next@.len(),
                forall|a: int, b: int| 0 <= a < b < origin.len() ==> #[trigger] origin[a] < #[trigger] origin[b],
                forall|a: int| 0 <= a < origin.len() ==> 0 <= #[trigger] origin[a] < i
                    && next@[a].transaction == old_entries[origin[a]].transaction && entry_ok(next@[a])
                    && (old_entries[origin[a]].sub_pool == SubPool::Pending ==> next@[a] == old_entries[origin[a]])
                    && (old_entries[origin[a]].sub_pool == SubPool::Parked ==> next@[a] == reclassified(old_entries[origin[a]], on_chain(state@, old_entries[origin[a]].transaction.tid_key().0))
                        && validation_error(next@[a].transaction.transaction, on_chain(state@, next@[a].transaction.tid_key().0).nonce) is None),
                forall|x: int| 0 <= x < i && (#[trigger] old_entries[x]).sub_pool == SubPool::Pending ==> exists|a: int| 0 <= a < origin.len() && #[trigger] origin[a] == x,
                forall|x: int| 0 <= x < i && (#[trigger] old_entries[x]).sub_pool == SubPool::Parked
                    && validation_error(old_entries[x].transaction.transaction, on_chain(state@, old_entries[x].transaction.tid_key().0).nonce) is None
                    ==> exists|a: int| 0 <= a < origin.len() && #[trigger] origin[a] == x,
            decreases old_entries.len() - i,
        {
            let e = self.entries[i];
            let ghost old_origin = origin;
            if e.sub_pool.is_pending() {
                next.push(e);
                proof {
                    origin = origin.push(i as int);
                    assert(origin[origin.len() - 1] == i);
                }
            } else {
                let sender = e.transaction.transaction_id.sender;
                let account = state.get(&sender);
                match validate_one(e.transaction.origin, e.transaction.transaction, account) {
                    TransactionValidationOutcome::Valid { transaction: _, balance, nonce } => {
                        let st = new_with(&e.transaction, &balance, nonce);
                        let ne = PoolEntry {
                            transaction: e.transaction,
                            sub_pool: st.sub_pool(),
                            submission_id: e.submission_id,
                            on_chain_balance: balance,
                            on_chain_nonce: nonce,
                        };
                        next.push(ne);
                        proof {
                            origin = origin.push(i as int);
                            assert(origin[origin.len() - 1] == i);
                        }
                    },
                    _ => {},
                }
            }
            assert forall|x: int| 0 <= x < i + 1 && (#[trigger] old_entries[x]).sub_pool == SubPool::Parked
                && validation_error(old_entries[x].transaction.transaction, on_chain(state@, old_entries[x].transaction.tid_key().0).nonce) is None
                implies exists|a: int| 0 <= a < origin.len() && #[trigger] origin[a] == x by {
                if x == i {
                    assert(origin[origin.len() - 1] == x);
                } else {
                    let a = choose|a: int| 0 <= a < old_origin.len() && #[trigger] old_origin[a] == x;
                    assert(origin[a] == x);
                }
            }
            assert forall|x: int| 0 <= x < i + 1 && (#[trigger] old_entries[x]).sub_pool == SubPool::Pending implies exists|a: int| 0 <= a < origin.len() && #[trigger] origin[a] == x by {
                if x == i {
                    assert(origin[origin.len() - 1] == x);
                } else {
                    let a = choose|a: int| 0 <= a < old_origin.len() && #[trigger] old_origin[a] == x;
                    assert(origin[a] == x);
                }
            }
            i = i + 1;
        }
        assert forall|x: int, y: int| 0 <= x < next@.len() && 0 <= y < next@.len() && x != y implies (
            #[trigger] next@[x]).transaction.tid_key() != (#[trigger] next@[y]).transaction.tid_key()
            && next@[x].transaction.hash_view() != next@[y].transaction.hash_view() by {
            if x < y {
                assert(origin[x] < origin[y]);
            } else {
                assert(origin[y] < origin[x]);
            }
        }
        assert forall|x: int| 0 <= x < old_entries.len() && (#[trigger] old_entries[x]).sub_pool == SubPool::Pending
            implies next@.contains(old_entries[x]) by {
            let a = choose|a: int| 0 <= a < origin.len() && #[trigger] origin[a] == x;
            assert(next@[a] == old_entries[x]);
        }
        assert forall|x: int| 0 <= x < next@.len() && (#[trigger] next@[x]).sub_pool == SubPool::Pending implies
            old_entries.contains(next@[x]) || (next@[x] == reclassified(next@[x], on_chain(state@, next@[x].transaction.tid_key().0))
            && validation_error(next@[x].transaction.transaction, on_chain(state@, next@[x].transaction.tid_key().0).nonce) is None) by {
            let o = origin[x];
            if old_entries[o].sub_pool == SubPool::Pending {
                assert(old_entries[o] == next@[x]);
            }
        }
        assert forall|x: int| 0 <= x < old_entries.len() && (#[trigger] old_entries[x]).sub_pool == SubPool::Parked
            && validation_error(old_entries[x].transaction.transaction, on_chain(state@, old_entries[x].transaction.tid_key().0).nonce) is None
            implies next@.contains(reclassified(old_entries[x], on_chain(state@, old_entries[x].transaction.tid_key().0))) by {
            let a = choose|a: int| 0 <= a < origin.len() && #[trigger] origin[a] == x;
            assert(next@[a] == reclassified(old_entries[x], on_chain(state@, old_entries[x].transaction.tid_key().0)));
        }
        assert forall|x: int| 0 <= x < next@.len() implies entry_ok(#[trigger] next@[x]) by {
            let o = origin[x];
        }
        assert forall|x: int| 0 <= x < next@.len() && (#[trigger] next@[x]).sub_pool == SubPool::Parked implies
            validation_error(next@[x].transaction.transaction, on_chain(state@, next@[x].transaction.tid_key().0).nonce) is None
            && next@[x] == reclassified(next@[x], on_chain(state@, next@[x].transaction.tid_key().0)) by {
            let o = origin[x];
            if old_entries[o].sub_pool == SubPool::Pending {
                assert(next@[x] == old_entries[o]);
            }
        }
        proof {
            lemma_strictly_increasing_len(origin, old_entries.len() as int);
        }
        self.entries = next;
    }
}

/// A strictly increasing list of indices below `n` has at most `n` items.
proof fn lemma_strictly_increasing_len(s: Seq<int>, n: int)
    requires
        0 <= n,
        forall|a: int, b: int| 0 <= a < b < s.len() ==> #[trigger] s[a] < #[trigger] s[b],
        forall|a: int| 0 <= a < s.len() ==> 0 <= #[trigger] s[a] < n,
    ensures
        s.len() <= n,
    decreases s.len(),
{
    if s.len() > 0 {
        let t = s.drop_last();
        assert(s[s.len() - 1] < n);
        assert forall|a: int, b: int| 0 <= a < b < t.len() implies #[trigger] t[a] < #[trigger] t[b] by {
            assert(s[a] < s[b]);
        }
        assert forall|a: int| 0 <= a < t.len() implies 0 <= #[trigger] t[a] < s.last() by {
            assert(s[a] < s[s.len() - 1]);
            assert(0 <= s[a]);
        }
        lemma_strictly_increasing_len(t, s.last());
    }
}

/// A pending transaction with its priority (its fee) and submission number.
#[derive(Clone, Copy, Debug, PartialEq, Eq)]
pub struct PendingTransaction {
    pub submission_id: u64,
    pub transaction: ValidPoolTransaction,
    pub priority: u128,
}

/// `a` goes before `b`: a higher fee, or the same fee and an earlier
/// submission.
pub open spec fn goes_before(a: PendingTransaction, b: PendingTransaction) -> bool {
    a.priority > b.priority || (a.priority == b.priority && a.submission_id <= b.submission_id)
}

/// The pool's ordering: a transaction's priority is its fee.
#[derive(Clone, Copy, Debug, Default)]
pub struct PintOrdering;

impl PintOrdering {
    pub fn priority(&self, transaction: &ValidPoolTransaction) -> (r: u128)
        ensures
            r == transaction.transaction.tx.tx.fee,
    {
        transaction.transaction.tx.tx.fee
    }
}

/// The pending transactions, handed out best first.
pub struct BestTransactions {
    pub independent: Vec<PendingTransaction>,
}

impl BestTransactions {
    /// Takes out the best remaining transaction.
    pub fn next(&mut self) -> (r: Option<ValidPoolTransaction>)
        ensures
            old(self).independent@.len() == 0 ==> r is None && final(self).independent@ == old(self).independent@,
            old(self).independent@.len() > 0 ==> exists|i: int|
                0 <= i < old(self).independent@.len() && r == Some(old(self).independent@[i].transaction)
                    && final(self).independent@ == old(self).independent@.remove(i) && forall|j: int|
                    0 <= j < old(self).independent@.len() ==> goes_before(
                        old(self).independent@[i],
                        #[trigger] old(self).independent@[j],
                    ),
    {
        if self.independent.len() == 0 {
            return None;
        }
        let mut best: usize = 0;
        let mut i: usize = 1;
        while i < self.independent.len()
            invariant
                1 <= i <= self.independent@.len(),
                best < i,
                forall|j: int| 0 <= j < i ==> goes_before(self.independent@[best as int], #[trigger] self.independent@[j]),
            decreases self.independent@.len() - i,
        {
            let c = self.independent[i];
            let b = self.independent[best];
            if c.priority > b.priority || (c.priority == b.priority && c.submission_id < b.submission_id) {
                best = i;
            }
            i = i + 1;
        }
        let e = self.independent.remove(best);
        Some(e.transaction)
    }

    pub fn len(&self) -> (r: usize)
        ensures
            r == self.independent@.len(),
    {
        self.independent.len()
    }
}

impl TxPool {
    /// The pending transactions, to be handed out best first. The pool
    /// itself does not change.
    pub fn best_transactions(&self) -> (r: BestTransactions)
        ensures
            r.independent@.len() == count_in(self@, SubPool::Pending),
            all_taken(r.independent@, self@),
    {
        let mut out: Vec<PendingTransaction> = Vec::new();
        let mut i: usize = 0;
        while i < self.entries.len()
            invariant
                i <= self.entries@.len(),
                out@.len() == count_in(self.entries@.subrange(0, i as int), SubPool::Pending),
                forall|k: int| 0 <= k < out@.len() ==> exists|j: int| 0 <= j < self.entries@.len() && taken_from(#[trigger] out@[k], self.entries@[j]),
            decreases self.entries@.len() - i,
        {
            assert(self.entries@.subrange(0, i + 1).drop_last() =~= self.entries@.subrange(0, i as int));
            let e = self.entries[i];
            if e.sub_pool.is_pending() {
                let p = PendingTransaction {
                    submission_id: e.submission_id,
                    transaction: e.transaction,
                    priority: PintOrdering.priority(&e.transaction),
                };
                out.push(p);
                proof {
                    assert(taken_from(p, self.entries@[i as int]));
                }
            }
            i = i + 1;
        }
        assert(self.entries@.subrange(0, i as int) =~= self.entries@);
        assert(all_taken(out@, self.entries@));
        BestTransactions { independent: out }
    }
}

/// Each pending transaction was taken from some pending pool entry.
pub open spec fn all_taken(ps: Seq<PendingTransaction>, es: Seq<PoolEntry>) -> bool {
    forall|k: int| 0 <= k < ps.len() ==> exists|j: int| 0 <= j < es.len() && taken_from(#[trigger] ps[k], es[j])
}

/// A pending transaction taken from a pending pool entry.
pub open spec fn taken_from(p: PendingTransaction, e: PoolEntry) -> bool {
    &&& e.sub_pool == SubPool::Pending
    &&& p.transaction == e.transaction
    &&& p.submission_id == e.submission_id
    &&& p.priority == e.transaction.transaction.tx.tx.fee
}

/// Pooled transactions have distinct identities and distinct hashes, and
/// each entry's subpool agrees with its classification.
pub proof fn lemma_pool_entries(pool: &TxPool)
    requires
        pool.wf(),
    ensures
        distinct_entries(pool@),
        forall|i: int| 0 <= i < pool@.len() ==> entry_ok(#[trigger] pool@[i]),
{
}

/// Every pending transaction is affordable against the balance it was
/// classified with and carries exactly the on-chain nonce it was classified
/// with.
pub proof fn lemma_pending_affordable(pool: &TxPool)
    requires
        pool.wf(),
    ensures
        forall|i: int|
            0 <= i < pool@.len() && (#[trigger] pool@[i]).sub_pool == SubPool::Pending ==> pool@[i].transaction.fee()
                + pool@[i].transaction.value().value() <= pool@[i].on_chain_balance.value()
                && pool@[i].transaction.nonce() == pool@[i].on_chain_nonce,
{
    assert forall|i: int| 0 <= i < pool@.len() && (#[trigger] pool@[i]).sub_pool == SubPool::Pending implies pool@[i].transaction.fee()
        + pool@[i].transaction.value().value() <= pool@[i].on_chain_balance.value()
        && pool@[i].transaction.nonce() == pool@[i].on_chain_nonce by {
        assert(entry_ok(pool.entries@[i]));
    }
}

} // verus!
