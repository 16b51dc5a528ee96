//! Account state, ordered by address, and the state root over it.
use vstd::prelude::*;
use crate::types::{Address, Account, B256, addr_key};
use crate::bytes::{be_bytes, put_be};
use crate::crypto::{sha256, sha256_of, hex_text_of};
use crate::merkle::{calculate_merkle_root, merkle_root, digest_views};

verus! {

/// Non-account state. It holds nothing yet and hashes to all zeros.
#[derive(Clone, Copy, Debug, PartialEq, Eq, Structural)]
pub struct World {}

impl World {
    pub fn new() -> (r: World) {
        World {}
    }

    pub fn calculate_hash(&self) -> (r: B256)
        ensures
            r.0@ == Seq::new(32, |i: int| 0u8),
    {
        B256::zero()
    }

    /// The encoding of the world: empty.
    pub fn encode(&self) -> (r: Vec<u8>)
        ensures
            r@.len() == 0,
    {
        Vec::new()
    }
}

/// Accounts kept in ascending address order, one entry per address.
pub struct AccountState {
    entries: Vec<(Address, Account)>,
    model: Ghost<Map<nat, Account>>,
}

/// Entries in strictly ascending address order.
pub open spec fn sorted_entries(s: Seq<(Address, Account)>) -> bool {
    forall|i: int, j: int| 0 <= i < j < s.len() ==> addr_key(#[trigger] s[i].0) < addr_key(#[trigger] s[j].0)
}

/// The leaf of the state tree for one account: SHA-256 over the address's
/// hex text, the balance's 32 bytes and the nonce's 8 bytes.
pub open spec fn account_leaf(e: (Address, Account)) -> Seq<u8> {
    sha256_of(hex_text_of(e.0.0@) + e.1.balance.bytes() + be_bytes(e.1.nonce as nat, 8))
}

/// The leaves of the state tree: the accounts in order, then the world hash.
pub open spec fn state_leaves(s: Seq<(Address, Account)>) -> Seq<Seq<u8>> {
    s.map_values(|e: (Address, Account)| account_leaf(e)).push(Seq::new(32, |i: int| 0u8))
}

/// The state root of a list of accounts.
pub open spec fn state_root_of(s: Seq<(Address, Account)>) -> Seq<u8> {
    merkle_root(state_leaves(s))
}

impl AccountState {
    /// The accounts by address key.
    pub closed spec fn view(&self) -> Map<nat, Account> {
        self.model@
    }

    /// The entries in address order.
    pub closed spec fn entries_view(&self) -> Seq<(Address, Account)> {
        self.entries@
    }

    pub closed spec fn wf(&self) -> bool {
        &&& sorted_entries(self.entries@)
        &&& forall|i: int|
            0 <= i < self.entries@.len() ==> #[trigger] self.model@.contains_key(addr_key(self.entries@[i].0))
                && self.model@[addr_key(self.entries@[i].0)] == self.entries@[i].1
        &&& forall|k: nat|
            #[trigger] self.model@.contains_key(k) ==> exists|i: int|
                0 <= i < self.entries@.len() && addr_key(#[trigger] self.entries@[i].0) == k
    }

    pub fn new() -> (r: AccountState)
        ensures
            r.wf(),
            r@ == Map::<nat, Account>::empty(),
            r.entries_view().len() == 0,
    {
        AccountState { entries: Vec::new(), model: Ghost(Map::empty()) }
    }

    pub fn len(&self) -> (r: usize)
        ensures
            r == self.entries_view().len(),
    {
        self.entries.len()
    }

    /// The account at an address, if there is one.
    pub fn get(&self, a: &Address) -> (r: Option<Account>)
        requires
            self.wf(),
        ensures
            r is Some == self@.contains_key(addr_key(*a)),
            r is Some ==> r->0 == self@[addr_key(*a)],
    {
        let mut i: usize = 0;
        while i < self.entries.len()
            invariant
                self.wf(),
                i <= self.entries@.len(),
                forall|j: int| 0 <= j < i ==> addr_key(#[trigger] self.entries@[j].0) != addr_key(*a),
            decreases self.entries@.len() - i,
        {
            if self.entries[i].0.cmp_key(a) == 0 {
                assert(self.model@.contains_key(addr_key(self.entries@[i as int].0)));
                return Some(self.entries[i].1);
            }
            i = i + 1;
        }
        None
    }

    /// Sets the account at an address, keeping address order.
    pub fn set(&mut self, a: Address, acc: Account)
        requires
            old(self).wf(),
        ensures
            final(self).wf(),
            final(self)@ == old(self)@.insert(addr_key(a), acc),
    {
        let ghost k = addr_key(a);
        let mut i: usize = 0;
        let mut done = false;
        while !done && i < self.entries.len()
            invariant
                self.wf(),
                k == addr_key(a),
                i <= self.entries@.len(),
                forall|j: int| 0 <= j < i ==> addr_key(#[trigger] self.entries@[j].0) < k,
                done ==> i < self.entries@.len() && addr_key(self.entries@[i as int].0) >= k,
            decreases self.entries@.len() - i, if done { 0int } else { 1int },
        {
            if self.entries[i].0.cmp_key(&a) >= 0 {
                done = true;
            } else {
                i = i + 1;
            }
        }
        let ghost old_entries = self.entries@;
        if i < self.entries.len() && self.entries[i].0.cmp_key(&a) == 0 {
            self.entries[i] = (a, acc);
            self.model = Ghost(self.model@.insert(k, acc));
            assert(self.entries@ =~= old_entries.update(i as int, (a, acc)));
            assert forall|m: nat| #[trigger] self.model@.contains_key(m) implies exists|j: int|
                0 <= j < self.entries@.len() && addr_key(#[trigger] self.entries@[j].0) == m by {
                if m != k {
                    let j = choose|j: int| 0 <= j < old_entries.len() && addr_key(#[trigger] old_entries[j].0) == m;
                    assert(self.entries@[j] == old_entries[j]);
                } else {
                    assert(addr_key(self.entries@[i as int].0) == m);
                }
            }
            return;
        }
        assert(i < old_entries.len() ==> addr_key(old_entries[i as int].0) > k);
        self.entries.insert(i, (a, acc));
        self.model = Ghost(self.model@.insert(k, acc));
        assert(forall|j: int| 0 <= j < i ==> self.entries@[j] == old_entries[j]);
        assert(forall|j: int| i < j < self.entries@.len() ==> self.entries@[j] == old_entries[j - 1]);
        assert(self.entries@[i as int] == (a, acc));
        assert forall|j: int| i < j < self.entries@.len() implies addr_key(#[trigger] self.entries@[j].0) > k by {
            assert(self.entries@[j] == old_entries[j - 1]);
            if j - 1 > i {
                assert(addr_key(old_entries[i as int].0) < addr_key(old_entries[j - 1].0));
            }
        }
        assert forall|m: nat| #[trigger] self.model@.contains_key(m) implies exists|j: int|
            0 <= j < self.entries@.len() && addr_key(#[trigger] self.entries@[j].0) == m by {
            if m != k {
                let j = choose|j: int| 0 <= j < old_entries.len() && addr_key(#[trigger] old_entries[j].0) == m;
                if j < i {
                    assert(self.entries@[j] == old_entries[j]);
                } else {
                    assert(self.entries@[j + 1] == old_entries[j]);
                }
            } else {
                assert(addr_key(self.entries@[i as int].0) == m);
            }
        }
        assert forall|j: int| 0 <= j < self.entries@.len() implies #[trigger] self.model@.contains_key(
            addr_key(self.entries@[j].0),
        ) && self.model@[addr_key(self.entries@[j].0)] == self.entries@[j].1 by {
            if j < i {
                assert(self.entries@[j] == old_entries[j]);
                assert(addr_key(old_entries[j].0) < k);
            } else if j > i {
                assert(self.entries@[j] == old_entries[j - 1]);
                assert(addr_key(self.entries@[j].0) > k);
            }
        }
        assert forall|x: int, y: int| 0 <= x < y < self.entries@.len() implies addr_key(
            #[trigger] self.entries@[x].0,
        ) < addr_key(#[trigger] self.entries@[y].0) by {
            if y < i {
                assert(self.entries@[y] == old_entries[y]);
                assert(self.entries@[x] == old_entries[x]);
            } else if y == i {
                assert(self.entries@[x] == old_entries[x]);
            } else if x < i {
                assert(self.entries@[x] == old_entries[x]);
                assert(addr_key(self.entries@[y].0) > k);
            } else if x == i {
                assert(addr_key(self.entries@[y].0) > k);
            } else {
                assert(self.entries@[y] == old_entries[y - 1]);
                assert(self.entries@[x] == old_entries[x - 1]);
            }
        }
    }

    /// The entries in address order.
    pub fn entries_copy(&self) -> (r: Vec<(Address, Account)>)
        ensures
            r@ == self.entries_view(),
    {
        let mut out: Vec<(Address, Account)> = Vec::new();
        let mut i: usize = 0;
        while i < self.entries.len()
            invariant
                i <= self.entries@.len(),
                out@ == self.entries@.subrange(0, i as int),
            decreases self.entries@.len() - i,
        {
            out.push(self.entries[i]);
            i = i + 1;
            assert(out@ =~= self.entries@.subrange(0, i as int));
        }
        assert(out@ =~= self.entries@);
        out
    }

    /// A well-formed state lists its accounts in address order, each once.
    pub proof fn lemma_wf_represents(&self)
        requires
            self.wf(),
        ensures
            sorted_entries(self.entries_view()),
            represents(self.entries_view(), self@),
    {
    }

    /// A copy of the accounts.
    pub fn duplicate(&self) -> (r: AccountState)
        requires
            self.wf(),
        ensures
            r.wf(),
            r@ == self@,
            r.entries_view() == self.entries_view(),
    {
        let mut entries: Vec<(Address, Account)> = Vec::new();
        let mut i: usize = 0;
        while i < self.entries.len()
            invariant
                self.wf(),
                i <= self.entries@.len(),
                entries@ == self.entries@.subrange(0, i as int),
            decreases self.entries@.len() - i,
        {
            entries.push(self.entries[i]);
            i = i + 1;
            assert(entries@ =~= self.entries@.subrange(0, i as int));
        }
        assert(entries@ =~= self.entries@);
        let r = AccountState { entries, model: Ghost(self.model@) };
        assert(r.entries@ == self.entries@);
        assert(r.model@ == self.model@);
        assert(sorted_entries(r.entries@));
        assert(forall|k: nat| #[trigger] r.model@.contains_key(k) ==> self.model@.contains_key(k));
        r
    }

    /// The state root: the merkle root over each account's leaf, in address
    /// order, followed by the world hash.
    pub fn calculate_state_root(&self, world: &World) -> (r: B256)
        ensures
            r.0@ == state_root_of(self.entries_view()),
    {
        let mut leaves: Vec<B256> = Vec::new();
        let mut i: usize = 0;
        while i < self.entries.len()
            invariant
                i <= self.entries@.len(),
                leaves@.len() == i,
                forall|j: int| 0 <= j < i ==> (#[trigger] leaves@[j]).0@ == account_leaf(self.entries@[j]),
            decreases self.entries@.len() - i,
        {
            let (addr, acc) = self.entries[i];
            let mut buf = addr.get_addr_hex();
            acc.balance.to_be_bytes(&mut buf);
            put_be(&mut buf, acc.nonce as u128, 8);
            leaves.push(B256(sha256(buf.as_slice())));
            i = i + 1;
        }
        leaves.push(world.calculate_hash());
        assert(digest_views(leaves@) =~= state_leaves(self.entries@));
        calculate_merkle_root(leaves)
    }
}

/// A list of entries holds exactly the accounts of a map.
pub open spec fn represents(s: Seq<(Address, Account)>, m: Map<nat, Account>) -> bool {
    &&& forall|i: int|
        0 <= i < s.len() ==> #[trigger] m.contains_key(addr_key(s[i].0)) && m[addr_key(s[i].0)] == s[i].1
    &&& forall|k: nat| #[trigger] m.contains_key(k) ==> exists|i: int| 0 <= i < s.len() && addr_key(#[trigger] s[i].0) == k
}

/// Two lists in address order that hold the accounts of one map agree
/// position by position.
proof fn lemma_sorted_same(x: Seq<(Address, Account)>, y: Seq<(Address, Account)>, m: Map<nat, Account>)
    requires
        sorted_entries(x),
        sorted_entries(y),
        represents(x, m),
        represents(y, m),
    ensures
        x.len() == y.len(),
        forall|i: int| 0 <= i < x.len() ==> addr_key(#[trigger] x[i].0) == addr_key(y[i].0) && x[i].1 == y[i].1,
    decreases x.len(),
{
    if x.len() == 0 {
        if y.len() > 0 {
            assert(m.contains_key(addr_key(y[0].0)));
        }
    } else if y.len() == 0 {
        assert(m.contains_key(addr_key(x[0].0)));
    } else {
        let kx = addr_key(x[0].0);
        let ky = addr_key(y[0].0);
        assert(m.contains_key(kx));
        assert(m.contains_key(ky));
        let j = choose|j: int| 0 <= j < y.len() && addr_key(#[trigger] y[j].0) == kx;
        let i = choose|i: int| 0 <= i < x.len() && addr_key(#[trigger] x[i].0) == ky;
        if j > 0 {
            assert(addr_key(y[0].0) < addr_key(y[j].0));
        }
        if i > 0 {
            assert(addr_key(x[0].0) < addr_key(x[i].0));
        }
        assert(kx == ky);
        let m2 = m.remove(kx);
        let x2 = x.drop_first();
        let y2 = y.drop_first();
        assert forall|a: int| 0 <= a < x2.len() implies #[trigger] m2.contains_key(addr_key(x2[a].0)) && m2[addr_key(
            x2[a].0,
        )] == x2[a].1 by {
            assert(x2[a] == x[a + 1]);
            assert(addr_key(x[0].0) < addr_key(x[a + 1].0));
            assert(m.contains_key(addr_key(x[a + 1].0)));
        }
        assert forall|a: int| 0 <= a < y2.len() implies #[trigger] m2.contains_key(addr_key(y2[a].0)) && m2[addr_key(
            y2[a].0,
        )] == y2[a].1 by {
            assert(y2[a] == y[a + 1]);
            assert(addr_key(y[0].0) < addr_key(y[a + 1].0));
            assert(m.contains_key(addr_key(y[a + 1].0)));
        }
        assert forall|k: nat| #[trigger] m2.contains_key(k) implies exists|a: int|
            0 <= a < x2.len() && addr_key(#[trigger] x2[a].0) == k by {
            assert(m.contains_key(k));
            let a = choose|a: int| 0 <= a < x.len() && addr_key(#[trigger] x[a].0) == k;
            assert(a != 0);
            assert(x2[a - 1] == x[a]);
        }
        assert forall|k: nat| #[trigger] m2.contains_key(k) implies exists|a: int|
            0 <= a < y2.len() && addr_key(#[trigger] y2[a].0) == k by {
            assert(m.contains_key(k));
            let a = choose|a: int| 0 <= a < y.len() && addr_key(#[trigger] y[a].0) == k;
            assert(a != 0);
            assert(y2[a - 1] == y[a]);
        }
        assert(sorted_entries(x2)) by {
            assert forall|a: int, b: int| 0 <= a < b < x2.len() implies addr_key(#[trigger] x2[a].0) < addr_key(
                #[trigger] x2[b].0,
            ) by {
                assert(x2[a] == x[a + 1]);
                assert(x2[b] == x[b + 1]);
            }
        }
        assert(sorted_entries(y2)) by {
            assert forall|a: int, b: int| 0 <= a < b < y2.len() implies addr_key(#[trigger] y2[a].0) < addr_key(
                #[trigger] y2[b].0,
            ) by {
                assert(y2[a] == y[a + 1]);
                assert(y2[b] == y[b + 1]);
            }
        }
        lemma_sorted_same(x2, y2, m2);
        assert forall|a: int| 0 <= a < x.len() implies addr_key(#[trigger] x[a].0) == addr_key(y[a].0) && x[a].1
            == y[a].1 by {
            if a > 0 {
                assert(x[a] == x2[a - 1]);
                assert(y[a] == y2[a - 1]);
            } else {
                assert(m[kx] == x[0].1);
                assert(m[ky] == y[0].1);
            }
        }
    }
}

/// The state root depends on which accounts are held, not on the order in
/// which they were set.
pub proof fn lemma_state_root_order_free(a: &AccountState, b: &AccountState)
    requires
        a.wf(),
        b.wf(),
        a@ == b@,
    ensures
        state_root_of(a.entries_view()) == state_root_of(b.entries_view()),
{
    let x = a.entries@;
    let y = b.entries@;
    lemma_sorted_same(x, y, a.model@);
    assert forall|i: int| 0 <= i < x.len() implies #[trigger] x[i].0.0@ == y[i].0.0@ by {
        crate::bytes::lemma_be_injective(x[i].0.0@, y[i].0.0@);
    }
    assert(state_leaves(x) =~= state_leaves(y));
}

} // verus!
