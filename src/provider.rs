//! Height-pinned reads of the chain store, difficulty, block import and the
//! reorganisation probe.
use vstd::prelude::*;
use crate::types::{Address, Account, BlockHash, addr_key};
use crate::db::{InMemoryDB, DatabaseError};
use crate::block::{Block, block_hash_of};
use crate::executor::{ExecutableState, Executor, ExecutionError, apply_body, credit, model_of, AccountModel};
use crate::consensus::BlockImportError;

verus! {

#[derive(Clone, Copy, Debug, PartialEq, Eq)]
pub enum ProviderError {
    DatabaseError(DatabaseError),
    ExecutionError(ExecutionError),
    StateNotExist(u64),
}

/// The difficulty after a parent with difficulty `prev`, `delta` seconds
/// after its own parent: up by one within 10 seconds, the same within 15,
/// down by one (not below zero) beyond.
pub open spec fn next_difficulty(prev: u32, delta: int) -> u32 {
    if delta <= 10 {
        if prev == u32::MAX {
            prev
        } else {
            (prev + 1) as u32
        }
    } else if delta <= 15 {
        prev
    } else if prev == 0 {
        0
    } else {
        (prev - 1) as u32
    }
}

/// None of `hashes` after index `j` is the hash of a stored block.
pub open spec fn no_match_above(blocks: Seq<Block>, hashes: Seq<BlockHash>, j: int) -> bool {
    forall|x: int, h: int| j < x < hashes.len() && 0 <= h < blocks.len() ==> block_hash_of(#[trigger] blocks[h].header)
        != (#[trigger] hashes[x]).0.0@
}

/// What importing a block does to a store whose latest accounts are `m`.
pub open spec fn import_effect(m: Map<nat, AccountModel>, b: Block) -> Result<Map<nat, AccountModel>, ExecutionError> {
    match apply_body(m, b.body@) {
        Err(e) => Err(ExecutionError::TransactionRecoveryError(e)),
        Ok((m2, fees)) => if b.header.total_fee.value() != fees {
            Err(ExecutionError::TotalFeeisDifferent)
        } else {
            Ok(credit(m2, addr_key(b.header.proposer), fees))
        },
    }
}

/// A handle on the chain store.
pub struct ProviderFactory {
    db: InMemoryDB,
}

/// A view of the chain store pinned at a height.
#[derive(Clone, Copy, Debug, PartialEq, Eq, Structural)]
pub struct Provider {
    pub block_no: u64,
}

impl ProviderFactory {
    pub closed spec fn store(&self) -> InMemoryDB {
        self.db
    }

    pub open spec fn wf(&self) -> bool {
        self.store().wf()
    }

    pub fn new(db: InMemoryDB) -> (r: ProviderFactory)
        ensures
            r.store() == db,
    {
        ProviderFactory { db }
    }

    pub fn db(&self) -> (r: &InMemoryDB)
        ensures
            *r == self.store(),
    {
        &self.db
    }

    pub fn block_number(&self) -> (r: u64)
        requires
            self.wf(),
        ensures
            r == self.store().latest(),
    {
        self.db.latest_block_number()
    }

    /// A view at the latest height.
    pub fn latest(&self) -> (r: Provider)
        requires
            self.wf(),
        ensures
            r.block_no == self.store().latest(),
    {
        let block_no = self.db.latest_block_number();
        self.state_by_block_number(block_no)
    }

    /// A view at a height.
    pub fn state_by_block_number(&self, block_no: u64) -> (r: Provider)
        ensures
            r.block_no == block_no,
    {
        Provider { block_no }
    }

    /// The difficulty of the next block, from the timestamps of the last two
    /// headers; at genesis the stored difficulty.
    pub fn get_next_difficulty(&self) -> (r: u32)
        requires
            self.wf(),
        ensures
            ({
                let blocks = self.store().blocks();
                let last = blocks[blocks.len() - 1].header;
                if blocks.len() == 1 {
                    r == last.difficulty
                } else {
                    r == next_difficulty(last.difficulty, last.timestamp - blocks[blocks.len() - 2].header.timestamp)
                }
            }),
    {
        let latest = self.db.latest_block_number();
        let last = self.db.get_latest_block_header();
        if latest == 0 {
            return last.difficulty;
        }
        let parent = match self.db.get_header(latest - 1) {
            Ok(h) => h,
            Err(_) => return last.difficulty,
        };
        let prev = last.difficulty;
        let grew = last.timestamp >= parent.timestamp;
        let delta: u64 = if grew { last.timestamp - parent.timestamp } else { 0 };
        if !grew || delta <= 10 {
            if prev == u32::MAX { prev } else { prev + 1 }
        } else if delta <= 15 {
            prev
        } else if prev == 0 {
            0
        } else {
            prev - 1
        }
    }

    /// Hashes of the blocks below the latest, at most 16, oldest first.
    pub fn chain_hashes(&self) -> (r: Vec<BlockHash>)
        requires
            self.wf(),
        ensures
            ({
                let latest = self.store().latest();
                let start = if latest >= 16 { latest - 16 } else { 0 };
                &&& r@.len() == latest - start
                &&& forall|i: int| 0 <= i < r@.len() ==> (#[trigger] r@[i]).0.0@ == block_hash_of(self.store().blocks()[start + i].header)
            }),
    {
        let latest = self.db.latest_block_number();
        let start: u64 = if latest >= 16 { latest - 16 } else { 0 };
        let mut out: Vec<BlockHash> = Vec::new();
        let mut i: u64 = start;
        while i < latest
            invariant
                self.wf(),
                latest == self.store().latest(),
                start <= i <= latest,
                out@.len() == i - start,
                forall|j: int| 0 <= j < out@.len() ==> (#[trigger] out@[j]).0.0@ == block_hash_of(self.store().blocks()[start + j].header),
            decreases latest - i,
        {
            match self.db.get_header(i) {
                Ok(h) => out.push(h.calculate_hash()),
                Err(_) => {},
            }
            i = i + 1;
        }
        out
    }

    /// Truncates the chain above the newest of `hashes` that is stored here
    /// (walking from the last hash to the first), or down to genesis when
    /// none is; returns the height to request blocks from.
    pub fn reorg_to_common_ancestor(&mut self, hashes: &Vec<BlockHash>) -> (r: u64)
        requires
            old(self).wf(),
        ensures
            final(self).wf(),
            1 <= r <= old(self).store().blocks().len(),
            final(self).store().blocks() == old(self).store().blocks().subrange(0, r as int),
            final(self).store().states() == old(self).store().states().subrange(0, r as int),
            no_match_above(old(self).store().blocks(), hashes@, -1) ==> r == 1,
            !no_match_above(old(self).store().blocks(), hashes@, -1) ==> exists|j: int|
                0 <= j < hashes@.len() && hashes@[j].0.0@ == block_hash_of(old(self).store().blocks()[r - 1].header)
                    && no_match_above(old(self).store().blocks(), hashes@, j),
    {
        proof {
            self.db.lemma_wf_bounds();
        }
        let mut i: usize = hashes.len();
        while i > 0
            invariant
                self.wf(),
                self.store() == old(self).store(),
                i <= hashes@.len(),
                no_match_above(self.store().blocks(), hashes@, i - 1),
            decreases i,
        {
            i = i - 1;
            match self.db.get_block_by_hash(&hashes[i]) {
                Some((_block, height)) => {
                    proof {
                        self.db.lemma_wf_bounds();
                        self.db.lemma_states_len();
                    }
                    let _ = self.db.remove_datas(height);
                    proof {
                        self.db.lemma_wf_bounds();
                        assert(old(self).store().blocks().subrange(0, old(self).store().blocks().len() as int) =~= old(self).store().blocks());
                        assert(old(self).store().states().subrange(0, old(self).store().states().len() as int) =~= old(self).store().states());
                    }
                    return height + 1;
                },
                None => {},
            }
        }
        proof {
            self.db.lemma_states_len();
        }
        let _ = self.db.remove_datas(0);
        proof {
            self.db.lemma_wf_bounds();
            if old(self).store().blocks().len() == 1 {
                assert(old(self).store().blocks().subrange(0, 1) =~= old(self).store().blocks());
                assert(old(self).store().states().subrange(0, 1) =~= old(self).store().states());
            }
        }
        1
    }
}

impl Provider {
    /// The account at an address at the latest height.
    pub fn basic_account(&self, factory: &ProviderFactory, address: &Address) -> (r: Option<Account>)
        requires
            factory.wf(),
        ensures
            r is Some == factory.store().states()[factory.store().latest()].contains_key(addr_key(*address)),
            r is Some ==> r->0 == factory.store().states()[factory.store().latest()][addr_key(*address)],
    {
        factory.db().basic(address)
    }

    /// A speculative copy of the state at this view's height.
    pub fn executable_state(&self, factory: &ProviderFactory) -> (r: Result<ExecutableState, ProviderError>)
        requires
            factory.wf(),
        ensures
            self.block_no > factory.store().latest() ==> r == Err::<ExecutableState, ProviderError>(
                ProviderError::StateNotExist(self.block_no),
            ),
            self.block_no <= factory.store().latest() ==> r is Ok && r->Ok_0.wf()
                && r->Ok_0.accounts_write@ == factory.store().states()[self.block_no as int],
    {
        match factory.db().get_state(self.block_no) {
            None => Err(ProviderError::StateNotExist(self.block_no)),
            Some((accounts, world)) => Ok(ExecutableState::new(accounts, world)),
        }
    }
}

/// Checks blocks against the chain and imports the valid ones.
pub struct BlockImporter {
    pub provider: ProviderFactory,
}

impl BlockImporter {
    pub fn new(provider: ProviderFactory) -> (r: BlockImporter)
        ensures
            r.provider == provider,
    {
        BlockImporter { provider }
    }

    /// Imports a block that extends the latest one: its height must be the
    /// next height and its previous hash the latest block's hash, and its
    /// execution must succeed; the resulting accounts are stored with it.
    pub fn import_new_block(&mut self, block: Block) -> (r: Result<(), BlockImportError>)
        requires
            old(self).provider.wf(),
        ensures
            final(self).provider.wf(),
            ({
                let db = old(self).provider.store();
                let latest = db.latest();
                if block.header.height > latest + 1 {
                    r == Err::<(), BlockImportError>(BlockImportError::BlockHeightError)
                        && final(self).provider.store().blocks() == db.blocks() && final(self).provider.store().states() == db.states()
                } else if block.header.height != latest + 1 {
                    r == Err::<(), BlockImportError>(BlockImportError::AlreadyImportedBlock)
                        && final(self).provider.store().blocks() == db.blocks() && final(self).provider.store().states() == db.states()
                } else if block.header.previous_hash.0.0@ != block_hash_of(db.blocks()[latest].header) {
                    r == Err::<(), BlockImportError>(BlockImportError::NotChainedBlock)
                        && final(self).provider.store().blocks() == db.blocks() && final(self).provider.store().states() == db.states()
                } else {
                    match import_effect(model_of(db.states()[latest]), block) {
                        Err(_) => r == Err::<(), BlockImportError>(BlockImportError::ProviderError)
                            && final(self).provider.store().blocks() == db.blocks() && final(self).provider.store().states() == db.states(),
                        Ok(m) => db.blocks().len() < u64::MAX ==> r is Ok
                            && final(self).provider.store().blocks() == db.blocks().push(block)
                            && model_of(final(self).provider.store().states()[latest + 1]) == m,
                    }
                }
            }),
    {
        let latest = self.provider.block_number();
        proof {
            self.provider.db.lemma_wf_bounds();
        }
        if block.header.height > latest + 1 {
            return Err(BlockImportError::BlockHeightError);
        }
        if block.header.height != latest + 1 {
            return Err(BlockImportError::AlreadyImportedBlock);
        }
        let parent_hash = self.provider.db().get_latest_block_header().calculate_hash();
        if !block.header.previous_hash.equals(&parent_hash) {
            return Err(BlockImportError::NotChainedBlock);
        }
        let view = self.provider.latest();
        let state = match view.executable_state(&self.provider) {
            Ok(s) => s,
            Err(_) => return Err(BlockImportError::ProviderError),
        };
        let mut executor = Executor::new(state);
        match executor.execute_block(&block) {
            Ok(()) => {},
            Err(_) => return Err(BlockImportError::ProviderError),
        }
        if latest == u64::MAX - 1 {
            return Err(BlockImportError::ProviderError);
        }
        let Executor { state, receipts: _ } = executor;
        let ExecutableState { accounts_write, field_write } = state;
        let ghost acc = accounts_write@;
        self.provider.db.update(accounts_write, field_write, block);
        proof {
            assert(self.provider.store().states()[latest + 1] == acc);
        }
        Ok(())
    }
}

} // verus!
