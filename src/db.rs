//! The chain store: one snapshot of accounts and world per height, and the
//! blocks, heights forming the range `[0, latest]`.
use vstd::prelude::*;
use crate::types::{Address, Account, BlockHash, TxHash, addr_key};
use crate::bytes::be_value;
use crate::state::{AccountState, World};
use crate::block::{Block, Header, block_hash_of, is_genesis_header};
use crate::transaction::SignedTransaction;

verus! {

#[derive(Clone, Copy, Debug, PartialEq, Eq, Structural)]
pub enum DatabaseError {
    BlockEncodeError,
    DataNotExists,
    DBError,
    CannotRemove,
}

impl DatabaseError {
    /// A sentence that describes the error.
    pub fn message(&self) -> (r: &'static str) {
        match self {
            DatabaseError::BlockEncodeError => "failed to encode block",
            DatabaseError::DataNotExists => "requested data does not exist in database",
            DatabaseError::DBError => "database error",
            DatabaseError::CannotRemove => "Cannot Remove! Only latest can be removed",
        }
    }
}

/// An in-memory chain store.
pub struct InMemoryDB {
    accounts: Vec<AccountState>,
    field: Vec<World>,
    blockchain: Vec<Block>,
}

impl InMemoryDB {
    pub closed spec fn wf(&self) -> bool {
        &&& self.blockchain@.len() >= 1
        &&& self.accounts@.len() == self.blockchain@.len()
        &&& self.field@.len() == self.blockchain@.len()
        &&& self.blockchain@.len() <= u64::MAX
        &&& forall|h: int| 0 <= h < self.accounts@.len() ==> (#[trigger] self.accounts@[h]).wf()
    }

    /// The stored blocks, by height.
    pub closed spec fn blocks(&self) -> Seq<Block> {
        self.blockchain@
    }

    /// The accounts at each height.
    pub closed spec fn states(&self) -> Seq<Map<nat, Account>> {
        self.accounts@.map_values(|a: AccountState| a@)
    }

    pub open spec fn latest(&self) -> int {
        self.blocks().len() - 1
    }

    pub proof fn lemma_states_len(&self)
        requires
            self.wf(),
        ensures
            self.states().len() == self.blocks().len(),
    {
    }

    pub proof fn lemma_wf_bounds(&self)
        requires
            self.wf(),
        ensures
            1 <= self.blocks().len() <= u64::MAX,
            self.states().len() == self.blocks().len(),
    {
    }

    /// A store holding the genesis block and no accounts.
    pub fn new() -> (r: InMemoryDB)
        ensures
            r.wf(),
            r.blocks().len() == 1,
            is_genesis_header(r.blocks()[0].header),
            r.blocks()[0].body@.len() == 0,
            r.states()[0] == Map::<nat, Account>::empty(),
    {
        let mut accounts: Vec<AccountState> = Vec::new();
        accounts.push(AccountState::new());
        let mut field: Vec<World> = Vec::new();
        field.push(World::new());
        let mut blockchain: Vec<Block> = Vec::new();
        blockchain.push(Block::genesis_block());
        let r = InMemoryDB { accounts, field, blockchain };
        assert(r.states()[0] == r.accounts@[0]@);
        r
    }

    /// Sets an account at the latest height.
    pub fn add_account(&mut self, address: Address, account: Account)
        requires
            old(self).wf(),
        ensures
            final(self).wf(),
            final(self).blocks() == old(self).blocks(),
            final(self).states() == old(self).states().update(old(self).latest(), old(self).states()[old(self).latest()].insert(addr_key(address), account)),
    {
        let latest = self.accounts.len() - 1;
        let ghost old_accounts = self.accounts@;
        let mut state = self.accounts.remove(latest);
        state.set(address, account);
        self.accounts.insert(latest, state);
        assert(self.accounts@ =~= old_accounts.update(latest as int, state));
        assert(self.states() =~= old(self).states().update(old(self).latest(), old(self).states()[old(self).latest()].insert(addr_key(address), account)));
    }

    pub fn latest_block_number(&self) -> (r: u64)
        requires
            self.wf(),
        ensures
            r == self.latest(),
    {
        (self.blockchain.len() - 1) as u64
    }

    /// The account at an address at the latest height.
    pub fn basic(&self, address: &Address) -> (r: Option<Account>)
        requires
            self.wf(),
        ensures
            r is Some == self.states()[self.latest()].contains_key(addr_key(*address)),
            r is Some ==> r->0 == self.states()[self.latest()][addr_key(*address)],
    {
        let latest = self.accounts.len() - 1;
        self.accounts[latest].get(address)
    }

    /// A copy of the accounts and world at a height.
    pub fn get_state(&self, block_no: u64) -> (r: Option<(AccountState, World)>)
        requires
            self.wf(),
        ensures
            block_no > self.latest() ==> r is None,
            block_no <= self.latest() ==> r is Some && (r->0).0.wf() && (r->0).0@ == self.states()[block_no as int],
    {
        if block_no >= self.accounts.len() as u64 {
            return None;
        }
        let i = block_no as usize;
        Some((self.accounts[i].duplicate(), self.field[i]))
    }

    pub fn get_block(&self, block_no: u64) -> (r: Result<Block, DatabaseError>)
        requires
            self.wf(),
        ensures
            block_no > self.latest() ==> r == Err::<Block, DatabaseError>(DatabaseError::DataNotExists),
            block_no <= self.latest() ==> r is Ok && r->Ok_0.header == self.blocks()[block_no as int].header
                && r->Ok_0.body@ == self.blocks()[block_no as int].body@,
    {
        if block_no >= self.blockchain.len() as u64 {
            return Err(DatabaseError::DataNotExists);
        }
        Ok(self.blockchain[block_no as usize].duplicate())
    }

    pub fn get_header(&self, block_no: u64) -> (r: Result<Header, DatabaseError>)
        requires
            self.wf(),
        ensures
            block_no > self.latest() ==> r == Err::<Header, DatabaseError>(DatabaseError::DataNotExists),
            block_no <= self.latest() ==> r == Ok::<Header, DatabaseError>(self.blocks()[block_no as int].header),
    {
        if block_no >= self.blockchain.len() as u64 {
            return Err(DatabaseError::DataNotExists);
        }
        Ok(self.blockchain[block_no as usize].header)
    }

    pub fn get_latest_block_header(&self) -> (r: Header)
        requires
            self.wf(),
        ensures
            r == self.blocks()[self.latest()].header,
    {
        self.blockchain[self.blockchain.len() - 1].header
    }

    /// The lowest stored block whose header hashes to `hash`.
    pub fn get_block_by_hash(&self, hash: &BlockHash) -> (r: Option<(Block, u64)>)
        requires
            self.wf(),
        ensures
            r is None ==> forall|h: int| 0 <= h < self.blocks().len() ==> block_hash_of(#[trigger] self.blocks()[h].header) != hash.0.0@,
            r is Some ==> (r->0).1 <= self.latest() && block_hash_of(self.blocks()[(r->0).1 as int].header) == hash.0.0@
                && (r->0).0.header == self.blocks()[(r->0).1 as int].header && (r->0).0.body@ == self.blocks()[(r->0).1 as int].body@,
    {
        let mut i: usize = 0;
        while i < self.blockchain.len()
            invariant
                self.wf(),
                i <= self.blockchain@.len(),
                forall|h: int| 0 <= h < i ==> block_hash_of(#[trigger] self.blockchain@[h].header) != hash.0.0@,
            decreases self.blockchain@.len() - i,
        {
            let bh = self.blockchain[i].header.calculate_hash();
            if bh.equals(hash) {
                return Some((self.blockchain[i].duplicate(), i as u64));
            }
            i = i + 1;
        }
        None
    }

    /// A stored transaction with this hash, and its block's height.
    pub fn get_transaction_by_hash(&self, hash: &TxHash) -> (r: Option<(SignedTransaction, u64)>)
        requires
            self.wf(),
        ensures
            r is None ==> forall|h: int, k: int| 0 <= h < self.blocks().len() && 0 <= k < self.blocks()[h].body@.len()
                ==> (#[trigger] self.blocks()[h].body@[k]).hash.0.0@ != hash.0.0@,
            r is Some ==> (r->0).1 <= self.latest() && self.blocks()[(r->0).1 as int].body@.contains((r->0).0)
                && (r->0).0.hash.0.0@ == hash.0.0@,
    {
        let mut i: usize = 0;
        while i < self.blockchain.len()
            invariant
                self.wf(),
                i <= self.blockchain@.len(),
                forall|h: int, k: int| 0 <= h < i && 0 <= k < self.blockchain@[h].body@.len()
                    ==> (#[trigger] self.blockchain@[h].body@[k]).hash.0.0@ != hash.0.0@,
            decreases self.blockchain@.len() - i,
        {
            let block = &self.blockchain[i];
            let mut k: usize = 0;
            while k < block.body.len()
                invariant
                    self.wf(),
                    i < self.blockchain@.len(),
                    *block == self.blockchain@[i as int],
                    k <= block.body@.len(),
                    forall|j: int| 0 <= j < k ==> (#[trigger] block.body@[j]).hash.0.0@ != hash.0.0@,
                decreases block.body@.len() - k,
            {
                if block.body[k].hash.equals(hash) {
                    return Some((block.body[k], i as u64));
                }
                k = k + 1;
            }
            i = i + 1;
        }
        None
    }

    /// Appends a block with the accounts and world after it, at `latest + 1`.
    pub fn update(&mut self, new_accounts: AccountState, new_world: World, block: Block)
        requires
            old(self).wf(),
            new_accounts.wf(),
            old(self).blocks().len() < u64::MAX,
        ensures
            final(self).wf(),
            final(self).blocks() == old(self).blocks().push(block),
            final(self).states() == old(self).states().push(new_accounts@),
    {
        let ghost acc = new_accounts@;
        self.accounts.push(new_accounts);
        self.field.push(new_world);
        self.blockchain.push(block);
        assert(self.states() =~= old(self).states().push(acc));
    }

    /// Removes the latest block and its state; only the latest height, and
    /// never the genesis block, can be removed.
    pub fn remove_data(&mut self, height: u64) -> (r: Result<(), DatabaseError>)
        requires
            old(self).wf(),
        ensures
            final(self).wf(),
            (height != old(self).latest() || height == 0) ==> r == Err::<(), DatabaseError>(DatabaseError::CannotRemove)
                && final(self).blocks() == old(self).blocks() && final(self).states() == old(self).states(),
            (height == old(self).latest() && height != 0) ==> r is Ok && final(self).blocks() == old(self).blocks().drop_last()
                && final(self).states() == old(self).states().drop_last(),
    {
        let latest = (self.blockchain.len() - 1) as u64;
        if height != latest || height == 0 {
            return Err(DatabaseError::CannotRemove);
        }
        self.accounts.pop();
        self.field.pop();
        self.blockchain.pop();
        assert(self.states() =~= old(self).states().drop_last());
        Ok(())
    }

    /// Removes every block above `height`.
    pub fn remove_datas(&mut self, height: u64) -> (r: Result<(), DatabaseError>)
        requires
            old(self).wf(),
        ensures
            final(self).wf(),
            r is Ok,
            height >= old(self).latest() ==> final(self).blocks() == old(self).blocks() && final(self).states() == old(self).states(),
            height < old(self).latest() ==> final(self).blocks() == old(self).blocks().subrange(0, height + 1)
                && final(self).states() == old(self).states().subrange(0, height + 1),
    {
        assert(old(self).states().len() == old(self).blocks().len());
        while (self.blockchain.len() - 1) as u64 > height
            invariant
                self.wf(),
                old(self).wf(),
                old(self).states().len() == old(self).blocks().len(),
                self.states().len() == self.blocks().len(),
                self.blocks().len() >= 1,
                self.blocks().len() <= old(self).blocks().len(),
                height < old(self).latest() ==> self.blocks().len() >= height + 1,
                height >= old(self).latest() ==> self.blocks().len() == old(self).blocks().len(),
                self.blocks() == old(self).blocks().subrange(0, self.blocks().len() as int),
                self.states() == old(self).states().subrange(0, self.blocks().len() as int),
            decreases self.blocks().len(),
        {
            let latest = (self.blockchain.len() - 1) as u64;
            let _ = self.remove_data(latest);
            assert(old(self).blocks().subrange(0, self.blocks().len() as int) =~= old(self).blocks().subrange(0, self.blocks().len() as int + 1).drop_last());
            assert(old(self).states().subrange(0, self.blocks().len() as int) =~= old(self).states().subrange(0, self.blocks().len() as int + 1).drop_last());
        }
        assert(height >= old(self).latest() ==> old(self).blocks().subrange(0, self.blocks().len() as int) =~= old(self).blocks());
        assert(height >= old(self).latest() ==> old(self).states().subrange(0, self.blocks().len() as int) =~= old(self).states());
        Ok(())
    }
}

/// Each account as `address(20) || nonce(8) || balance(32)`, in order.
pub open spec fn accounts_bytes(s: Seq<(Address, Account)>) -> Seq<u8>
    decreases s.len(),
{
    if s.len() == 0 {
        Seq::empty()
    } else {
        accounts_bytes(s.drop_last()) + s.last().0.0@ + crate::bytes::be_bytes(s.last().1.nonce as nat, 8)
            + s.last().1.balance.bytes()
    }
}

/// The key of an account at a height: `height(8) || address(20)`.
#[derive(Clone, Copy, Debug, PartialEq, Eq)]
pub struct DBAdress {
    pub block_no: u64,
    pub address: Address,
}

impl DBAdress {
    pub fn new(addr: Address, bno: u64) -> (r: DBAdress)
        ensures
            r.address == addr,
            r.block_no == bno,
    {
        DBAdress { address: addr, block_no: bno }
    }

    pub fn encode(&self) -> (r: Vec<u8>)
        ensures
            r@ == crate::bytes::be_bytes(self.block_no as nat, 8) + self.address.0@,
    {
        let mut out: Vec<u8> = Vec::new();
        crate::bytes::put_be(&mut out, self.block_no as u128, 8);
        crate::transaction::put_bytes(&mut out, &self.address.0);
        out
    }

    /// Reads a key; `None` when fewer than 28 bytes.
    pub fn decode(b: &[u8]) -> (r: Option<DBAdress>)
        ensures
            b@.len() < 28 ==> r is None,
            b@.len() >= 28 ==> r is Some && (r->0).block_no as nat == crate::bytes::be_value(b@.subrange(0, 8))
                && (r->0).address.0@ == b@.subrange(8, 28),
    {
        if b.len() < 28 {
            return None;
        }
        let block_no = crate::transaction::get_u64(b, 0);
        let address = crate::transaction::read_address(b, 8);
        Some(DBAdress { block_no, address })
    }
}

/// The bytes of the first demo address.
pub open spec fn demo_address_a() -> Seq<u8> {
    seq![0x28u8, 0xdc, 0xb1, 0x33, 0x8b, 0x90, 0x04, 0x19, 0xcd, 0x61, 0x3a, 0x8f, 0xb2, 0x73, 0xae, 0x36, 0xe7, 0xec, 0x2b, 0x1d]
}

/// The bytes of the second demo address.
pub open spec fn demo_address_b() -> Seq<u8> {
    seq![0x05u8, 0x34, 0x50, 0x1c, 0x34, 0xf5, 0xa0, 0xf3, 0xfa, 0x43, 0xdc, 0x5d, 0x78, 0xe6, 0x19, 0xbe, 0x7e, 0xdf, 0xa2, 0x1a]
}

/// The two demo accounts of a fresh chain.
pub fn genesis_accounts_info() -> (r: Vec<(Address, Account)>)
    ensures
        r@.len() == 2,
        r@[0].0.0@ == demo_address_a(),
        r@[0].1.nonce == 0 && r@[0].1.balance.value() == 10_000_000,
        r@[1].0.0@ == demo_address_b(),
        r@[1].1.nonce == 0 && r@[1].1.balance.value() == 12_000_000,
{
    let a = Address([0x28, 0xdc, 0xb1, 0x33, 0x8b, 0x90, 0x04, 0x19, 0xcd, 0x61, 0x3a, 0x8f, 0xb2, 0x73, 0xae, 0x36, 0xe7, 0xec, 0x2b, 0x1d]);
    let b = Address([0x05, 0x34, 0x50, 0x1c, 0x34, 0xf5, 0xa0, 0xf3, 0xfa, 0x43, 0xdc, 0x5d, 0x78, 0xe6, 0x19, 0xbe, 0x7e, 0xdf, 0xa2, 0x1a]);
    let mut out: Vec<(Address, Account)> = Vec::new();
    out.push((a, Account::new(0, crate::u256::U256::from_u128(10_000_000))));
    out.push((b, Account::new(0, crate::u256::U256::from_u128(12_000_000))));
    assert(a.0@ =~= demo_address_a());
    assert(b.0@ =~= demo_address_b());
    out
}

impl InMemoryDB {
    /// A fresh chain whose genesis state holds the demo accounts.
    pub fn genesis_state() -> (r: InMemoryDB)
        ensures
            r.wf(),
            r.blocks().len() == 1,
            is_genesis_header(r.blocks()[0].header),
            forall|k: nat| #[trigger] r.states()[0].contains_key(k) <==> (k == be_value(demo_address_a()) || k
                == be_value(demo_address_b())),
            r.states()[0][be_value(demo_address_a())].nonce == 0,
            r.states()[0][be_value(demo_address_a())].balance.value() == 10_000_000,
            r.states()[0][be_value(demo_address_b())].nonce == 0,
            r.states()[0][be_value(demo_address_b())].balance.value() == 12_000_000,
    {
        let mut db = InMemoryDB::new();
        let accounts = genesis_accounts_info();
        let (a0, acc0) = accounts[0];
        let (a1, acc1) = accounts[1];
        db.add_account(a0, acc0);
        db.add_account(a1, acc1);
        proof {
            assert(a0.0@ == demo_address_a());
            assert(a1.0@ == demo_address_b());
            assert(addr_key(a0) != addr_key(a1)) by {
                if addr_key(a0) == addr_key(a1) {
                    crate::bytes::lemma_be_injective(a0.0@, a1.0@);
                    assert(a0.0@[0] != a1.0@[0]);
                }
            }
        }
        db
    }

    /// The accounts at a height, each as `address(20) || nonce(8) ||
    /// balance(32)` in address order, then the world's encoding.
    pub fn encode_block(&self, block_no: u64) -> (r: Result<Vec<u8>, DatabaseError>)
        requires
            self.wf(),
        ensures
            block_no > self.latest() ==> r == Err::<Vec<u8>, DatabaseError>(DatabaseError::BlockEncodeError),
            block_no <= self.latest() ==> r is Ok && r->Ok_0@ == accounts_bytes(self.entries_at(block_no as int)),
    {
        if block_no >= self.accounts.len() as u64 {
            return Err(DatabaseError::BlockEncodeError);
        }
        let state = &self.accounts[block_no as usize];
        let entries = state.entries_copy();
        let mut res: Vec<u8> = Vec::new();
        let mut i: usize = 0;
        while i < entries.len()
            invariant
                i <= entries@.len(),
                res@ == accounts_bytes(entries@.subrange(0, i as int)),
            decreases entries@.len() - i,
        {
            let (address, account) = entries[i];
            crate::transaction::put_bytes(&mut res, &address.0);
            let enc = account.encode();
            crate::transaction::put_bytes(&mut res, enc.as_slice());
            i = i + 1;
            assert(entries@.subrange(0, i as int).drop_last() =~= entries@.subrange(0, i - 1));
            assert(res@ =~= accounts_bytes(entries@.subrange(0, i as int)));
        }
        assert(entries@.subrange(0, i as int) =~= entries@);
        let world = self.field[block_no as usize].encode();
        crate::transaction::put_bytes(&mut res, world.as_slice());
        assert(res@ =~= accounts_bytes(entries@));
        Ok(res)
    }

    /// The entries of the accounts at a height, in address order.
    pub closed spec fn entries_at(&self, h: int) -> Seq<(Address, Account)> {
        self.accounts@[h].entries_view()
    }
}

} // verus!
