//! Building a payload: the best pending transactions that execute against a
//! speculative copy of the latest state.
use vstd::prelude::*;
use crate::types::{Address, B256};
use crate::u256::U256;
use crate::block::{Header, Payload, PayloadHeader, block_hash_of};
use crate::merkle::{calculate_merkle_root, merkle_root, digest_views};
use crate::executor::{Executor, sat_add};
use crate::provider::{ProviderFactory, ProviderError};
use crate::pool::{BestTransactions, SubPool, TxPool, PoolEntry, PendingTransaction, count_in, all_taken, taken_from, goes_before};
use crate::types::{Account, addr_key};
use crate::state::{sorted_entries, represents, state_root_of};
use crate::executor::{AccountModel, apply_tx, model_of};
use crate::transaction::Recovered;
use crate::transaction::SignedTransaction;

verus! {

/// The default cap on transactions per payload.
pub const DEFAULT_MAX_TRANSACTIONS: usize = 20;

/// What the consensus engine asks of the builder.
#[derive(Clone, Copy, Debug, PartialEq, Eq, Structural)]
pub enum PayloadBuilderHandleMessage {
    BuildPayload,
    Stop,
}

/// The settings of one build.
#[derive(Clone, Copy, Debug, PartialEq, Eq, Structural)]
pub struct PayloadBuilderAttributes {
    pub max_transactions: usize,
    pub next_difficulty: u32,
}

/// What a build needs: the proposer, the parent header and the settings.
#[derive(Clone, Copy, Debug, PartialEq, Eq)]
pub struct BuildArguments {
    pub address: Address,
    pub parent_header: Header,
    pub attributes: PayloadBuilderAttributes,
}

impl BuildArguments {
    pub fn new(address: Address, parent_header: Header, next_difficulty: u32) -> (r: BuildArguments)
        ensures
            r.address == address,
            r.parent_header == parent_header,
            r.attributes.max_transactions == DEFAULT_MAX_TRANSACTIONS,
            r.attributes.next_difficulty == next_difficulty,
    {
        BuildArguments {
            address,
            parent_header,
            attributes: PayloadBuilderAttributes { max_transactions: DEFAULT_MAX_TRANSACTIONS, next_difficulty },
        }
    }
}

/// A signed transaction is that of some pending pool entry.
pub open spec fn from_pending(pool: Seq<PoolEntry>, s: SignedTransaction) -> bool {
    exists|j: int| 0 <= j < pool.len() && pool[j].sub_pool == SubPool::Pending && (#[trigger] pool[j]).transaction.transaction.tx == s
}

/// The hashes of a body's transactions.
pub open spec fn body_hashes(body: Seq<SignedTransaction>) -> Seq<Seq<u8>> {
    body.map_values(|s: SignedTransaction| s.hash.0.0@)
}

/// The fees of a body, summed without passing the largest 256-bit value.
pub open spec fn fee_total(body: Seq<SignedTransaction>) -> nat
    decreases body.len(),
{
    if body.len() == 0 {
        0
    } else {
        sat_add(fee_total(body.drop_last()), body.last().tx.fee as nat)
    }
}

/// Applies transactions one after another; `None` as soon as one fails.
pub open spec fn apply_seq(m: Map<nat, AccountModel>, rs: Seq<Recovered>) -> Option<Map<nat, AccountModel>>
    decreases rs.len(),
{
    if rs.len() == 0 {
        Some(m)
    } else {
        match apply_seq(m, rs.drop_last()) {
            None => None,
            Some(m1) => match apply_tx(m1, addr_key(rs.last().signer), addr_key(rs.last().tx.tx.to), rs.last().tx.tx) {
                Ok(m2) => Some(m2),
                Err(_) => None,
            },
        }
    }
}

/// The recovered transactions of pending pool records.
pub open spec fn recovered_of(ps: Seq<PendingTransaction>) -> Seq<Recovered> {
    ps.map_values(|q: PendingTransaction| q.transaction.transaction)
}

/// What a built payload is, given the pool, the latest accounts `m0`, the
/// pending records `ps` its body was taken from, and the accounts `mm`
/// (listed as `e`) after the body: each body transaction comes from a
/// pending entry, the records go best first, every one of them executes in
/// turn on `m0` to give `mm`, and the state root is that of `mm`.
pub open spec fn payload_witness(
    pool: Seq<PoolEntry>,
    m0: Map<nat, AccountModel>,
    p: Payload,
    ps: Seq<PendingTransaction>,
    e: Seq<(Address, Account)>,
    mm: Map<nat, Account>,
) -> bool {
    &&& ps.len() == p.body@.len()
    &&& forall|k: int| 0 <= k < ps.len() ==> (#[trigger] ps[k]).transaction.transaction.tx == p.body@[k]
    &&& all_taken(ps, pool)
    &&& forall|i: int, j: int| 0 <= i < j < ps.len() ==> goes_before(#[trigger] ps[i], #[trigger] ps[j])
    &&& apply_seq(m0, recovered_of(ps)) == Some(model_of(mm))
    &&& sorted_entries(e)
    &&& represents(e, mm)
    &&& p.header.state_root.0@ == state_root_of(e)
}

/// Some pending records and resulting accounts witness how a payload was
/// built.
pub open spec fn built_from(pool: Seq<PoolEntry>, m0: Map<nat, AccountModel>, p: Payload) -> bool {
    exists|ps: Seq<PendingTransaction>, e: Seq<(Address, Account)>, mm: Map<nat, Account>|
        payload_witness(pool, m0, p, ps, e, mm)
}

/// Builds a payload on the latest state from the pool's best transactions:
/// each is executed on a speculative copy, only those that succeed enter the
/// body, and at most `max_transactions` do. `timestamp` is the wall-clock
/// time in seconds.
pub fn default_payload(args: BuildArguments, factory: &ProviderFactory, pool: &TxPool, timestamp: u64) -> (r: Result<
    Payload,
    ProviderError,
>)
    requires
        factory.wf(),
        args.parent_header.height < u64::MAX,
    ensures
        r is Ok,
        r matches Ok(p) ==> built_from(pool@, model_of(factory.store().states()[factory.store().latest()]), p),
        r matches Ok(p) ==> ({
            &&& p.header.previous_hash.0.0@ == block_hash_of(args.parent_header)
            &&& p.header.height == args.parent_header.height + 1
            &&& p.header.proposer == args.address
            &&& p.header.difficulty == args.attributes.next_difficulty
            &&& p.header.timestamp == timestamp
            &&& p.header.transaction_root.0@ == merkle_root(body_hashes(p.body@))
            &&& p.header.total_fee.value() == fee_total(p.body@)
            &&& p.body@.len() <= args.attributes.max_transactions
            &&& p.body@.len() <= count_in(pool@, SubPool::Pending)
            &&& forall|k: int| 0 <= k < p.body@.len() ==> from_pending(pool@, #[trigger] p.body@[k])
        }),
{
    let view = factory.latest();
    let state = match view.executable_state(factory) {
        Ok(s) => s,
        Err(e) => return Err(e),
    };
    let ghost m0 = model_of(factory.store().states()[factory.store().latest()]);
    let mut executor = Executor::new(state);
    let mut best: BestTransactions = pool.best_transactions();
    let ghost mut ps: Seq<PendingTransaction> = Seq::empty();
    let ghost n_best = best.independent@.len();
    let mut body: Vec<SignedTransaction> = Vec::new();
    let mut total_fee = U256::zero();
    while body.len() < args.attributes.max_transactions && best.len() > 0
        invariant
            executor.state.wf(),
            body@.len() <= args.attributes.max_transactions,
            body@.len() + best.independent@.len() <= n_best,
            n_best == count_in(pool@, SubPool::Pending),
            total_fee.value() == fee_total(body@),
            all_taken(best.independent@, pool@),
            forall|k: int| 0 <= k < body@.len() ==> from_pending(pool@, #[trigger] body@[k]),
            m0 == model_of(factory.store().states()[factory.store().latest()]),
            ps.len() == body@.len(),
            forall|k: int| 0 <= k < ps.len() ==> (#[trigger] ps[k]).transaction.transaction.tx == body@[k],
            all_taken(ps, pool@),
            forall|i: int, j: int| 0 <= i < j < ps.len() ==> goes_before(#[trigger] ps[i], #[trigger] ps[j]),
            forall|i: int, j: int| 0 <= i < ps.len() && 0 <= j < best.independent@.len() ==> goes_before(#[trigger] ps[i], #[trigger] best.independent@[j]),
            apply_seq(m0, recovered_of(ps)) == Some(executor.state.model()),
        decreases best.independent@.len(),
    {
        let ghost before_best = best.independent@;
        let ghost before_ps = ps;
        let ghost mut picked: PendingTransaction = before_best[0];
        let next = best.next();
        proof {
            if before_best.len() > 0 {
                let i = choose|i: int| 0 <= i < before_best.len() && next == Some(before_best[i].transaction)
                    && best.independent@ == before_best.remove(i) && forall|j: int|
                    0 <= j < before_best.len() ==> goes_before(before_best[i], #[trigger] before_best[j]);
                picked = before_best[i];
                assert forall|a: int, j: int| 0 <= a < ps.len() && 0 <= j < best.independent@.len() implies goes_before(#[trigger] ps[a], #[trigger] best.independent@[j]) by {
                    let o = if j < i { j } else { j + 1 };
                    assert(best.independent@[j] == before_best[o]);
                }
                assert forall|j: int| 0 <= j < best.independent@.len() implies goes_before(picked, #[trigger] best.independent@[j]) by {
                    let o = if j < i { j } else { j + 1 };
                    assert(best.independent@[j] == before_best[o]);
                }
                assert forall|a: int| 0 <= a < ps.len() implies goes_before(#[trigger] ps[a], picked) by {
                    assert(goes_before(ps[a], before_best[i]));
                }
                assert forall|k: int| 0 <= k < best.independent@.len() implies exists|j: int|
                    0 <= j < pool@.len() && taken_from(#[trigger] best.independent@[k], pool@[j]) by {
                    let o = if k < i { k } else { k + 1 };
                    assert(best.independent@[k] == before_best[o]);
                }
                let j = choose|j: int| 0 <= j < pool@.len() && taken_from(before_best[i], pool@[j]);
                assert(pool@[j].sub_pool == SubPool::Pending && pool@[j].transaction == before_best[i].transaction);
            }
        }
        match next {
            Some(pool_tx) => {
                let receipt = executor.execute_transaction(&pool_tx.transaction);
                if receipt.success {
                    let ghost before = body@;
                    proof {
                        ps = ps.push(picked);
                        assert(recovered_of(ps).drop_last() =~= recovered_of(before_ps));
                        assert(recovered_of(ps).last() == pool_tx.transaction);
                        assert forall|i: int, j: int| 0 <= i < j < ps.len() implies goes_before(#[trigger] ps[i], #[trigger] ps[j]) by {
                            if j == ps.len() - 1 {
                                assert(ps[i] == before_ps[i]);
                            } else {
                                assert(ps[i] == before_ps[i]);
                                assert(ps[j] == before_ps[j]);
                            }
                        }
                        assert forall|a: int, j: int| 0 <= a < ps.len() && 0 <= j < best.independent@.len() implies goes_before(#[trigger] ps[a], #[trigger] best.independent@[j]) by {
                            if a < before_ps.len() {
                                assert(ps[a] == before_ps[a]);
                            }
                        }
                        assert forall|k: int| 0 <= k < ps.len() implies exists|j: int| 0 <= j < pool@.len() && taken_from(#[trigger] ps[k], pool@[j]) by {
                            if k < before_ps.len() {
                                assert(ps[k] == before_ps[k]);
                            }
                        }
                    }
                    body.push(pool_tx.transaction.tx);
                    total_fee = total_fee.saturating_add(&U256::from_u128(pool_tx.transaction.tx.tx.fee));
                    assert(body@.drop_last() == before);
                    assert(from_pending(pool@, body@[body@.len() - 1]));
                }
            },
            None => {},
        }
    }
    let mut hashes: Vec<B256> = Vec::new();
    let mut i: usize = 0;
    while i < body.len()
        invariant
            i <= body@.len(),
            hashes@.len() == i,
            forall|k: int| 0 <= k < i ==> (#[trigger] hashes@[k]).0@ == body@[k].hash.0.0@,
        decreases body@.len() - i,
    {
        hashes.push(body[i].hash.0);
        i = i + 1;
    }
    assert(digest_views(hashes@) =~= body_hashes(body@));
    proof {
        executor.state.accounts_write.lemma_wf_represents();
    }
    let transaction_root = calculate_merkle_root(hashes);
    let state_root = executor.calculate_state_root();
    let header = PayloadHeader {
        previous_hash: args.parent_header.calculate_hash(),
        transaction_root,
        state_root,
        proposer: args.address,
        difficulty: args.attributes.next_difficulty,
        timestamp,
        height: args.parent_header.height + 1,
        total_fee,
    };
    let p = Payload { header, body };
    assert(payload_witness(pool@, m0, p, ps, executor.state.accounts_write.entries_view(), executor.state.accounts_write@));
    assert(built_from(pool@, model_of(factory.store().states()[factory.store().latest()]), p));
    Ok(p)
}

} // verus!
