//! Addresses, hashes and accounts.
use vstd::prelude::*;
use crate::bytes::{be_value, get_be};
use crate::u256::{U256, u256_max};
use crate::crypto::{hex_decode, hex_bytes_of, hex_text, hex_text_of};

verus! {

pub const ADDR_LEN: usize = 20;

/// A 20-byte account identifier.
#[derive(Clone, Copy, Debug, PartialEq, Eq)]
pub struct Address(pub [u8; 20]);

/// The reserved all-zero address, never a transaction sender.
pub open spec fn is_coinbase(a: Address) -> bool {
    a.0@ == Seq::new(20, |i: int| 0u8)
}

/// The coinbase address.
pub fn coinbase() -> (r: Address)
    ensures
        is_coinbase(r),
{
    Address::min()
}

/// A 32-byte digest.
#[derive(Clone, Copy, Debug, PartialEq, Eq)]
pub struct B256(pub [u8; 32]);

/// The hash of a transaction's canonical encoding.
#[derive(Clone, Copy, Debug, PartialEq, Eq)]
pub struct TxHash(pub B256);

/// The hash of a block header.
#[derive(Clone, Copy, Debug, PartialEq, Eq)]
pub struct BlockHash(pub B256);

pub type ChainId = u64;

/// Byte-wise equality of two byte strings of one length.
pub fn bytes_equal(a: &[u8], b: &[u8]) -> (r: bool)
    requires
        a@.len() == b@.len(),
    ensures
        r == (a@ == b@),
{
    let mut i: usize = 0;
    while i < a.len()
        invariant
            a@.len() == b@.len(),
            i <= a@.len(),
            a@.subrange(0, i as int) == b@.subrange(0, i as int),
        decreases a@.len() - i,
    {
        if a[i] != b[i] {
            return false;
        }
        assert(a@.subrange(0, i + 1) =~= a@.subrange(0, i as int).push(a@[i as int]));
        assert(b@.subrange(0, i + 1) =~= b@.subrange(0, i as int).push(b@[i as int]));
        i = i + 1;
    }
    assert(a@ =~= a@.subrange(0, i as int));
    assert(b@ =~= b@.subrange(0, i as int));
    true
}

impl B256 {
    pub open spec fn view(self) -> Seq<u8> {
        self.0@
    }

    pub fn zero() -> (r: B256)
        ensures
            r.0@ == Seq::new(32, |i: int| 0u8),
    {
        let r = B256([0u8; 32]);
        assert(r.0@ =~= Seq::new(32, |i: int| 0u8));
        r
    }

    pub fn from_array(bytes: [u8; 32]) -> (r: B256)
        ensures
            r.0 == bytes,
    {
        B256(bytes)
    }

    pub fn equals(&self, other: &B256) -> (r: bool)
        ensures
            r == (self.0@ == other.0@),
    {
        bytes_equal(&self.0, &other.0)
    }
}

impl TxHash {
    pub fn equals(&self, other: &TxHash) -> (r: bool)
        ensures
            r == (self.0.0@ == other.0.0@),
    {
        self.0.equals(&other.0)
    }

    pub fn hash(&self) -> (r: B256)
        ensures
            r == self.0,
    {
        self.0
    }
}

impl BlockHash {
    pub fn equals(&self, other: &BlockHash) -> (r: bool)
        ensures
            r == (self.0.0@ == other.0.0@),
    {
        self.0.equals(&other.0)
    }

    pub fn hash(&self) -> (r: B256)
        ensures
            r == self.0,
    {
        self.0
    }
}

/// The order of addresses: their bytes as a big-endian number, which is
/// lexicographic byte order.
pub open spec fn addr_key(a: Address) -> nat {
    be_value(a.0@)
}

impl Address {
    pub fn min() -> (r: Address)
        ensures
            r.0@ == Seq::new(20, |i: int| 0u8),
    {
        let r = Address::from_byte([0u8; 20]);
        assert(r.0@ =~= Seq::new(20, |i: int| 0u8));
        r
    }

    pub fn max() -> (r: Address)
        ensures
            r.0@ == Seq::new(20, |i: int| 0xffu8),
    {
        let r = Address::from_byte([0xffu8; 20]);
        assert(r.0@ =~= Seq::new(20, |i: int| 0xffu8));
        r
    }

    pub fn from_byte(address: [u8; 20]) -> (r: Address)
        ensures
            r.0 == address,
    {
        Address(address)
    }

    pub fn get_addr(&self) -> (r: &[u8; 20])
        ensures
            r == &self.0,
    {
        &self.0
    }

    /// Parses 40 hex digits.
    pub fn from_hex(address: &str) -> (r: Result<Address, AddressError>)
        ensures
            hex_bytes_of(address@) is None ==> r == Err::<Address, AddressError>(AddressError::FromHexError),
            hex_bytes_of(address@) is Some && hex_bytes_of(address@)->0.len() != 20 ==> r == Err::<Address, AddressError>(
                AddressError::InvalidLength(hex_bytes_of(address@)->0.len() as usize),
            ),
            hex_bytes_of(address@) is Some && hex_bytes_of(address@)->0.len() == 20 ==> r is Ok && r->Ok_0.0@
                == hex_bytes_of(address@)->0,
    {
        match hex_decode(address) {
            None => Err(AddressError::FromHexError),
            Some(bytes) => {
                if bytes.len() != ADDR_LEN {
                    Err(AddressError::InvalidLength(bytes.len()))
                } else {
                    let mut arr = [0u8; 20];
                    let mut i: usize = 0;
                    while i < 20
                        invariant
                            bytes@.len() == 20,
                            i <= 20,
                            forall|j: int| 0 <= j < i ==> arr@[j] == bytes@[j],
                        decreases 20 - i,
                    {
                        arr[i] = bytes[i];
                        i = i + 1;
                    }
                    assert(arr@ =~= bytes@);
                    Ok(Address(arr))
                }
            }
        }
    }

    /// The ASCII bytes of the address's hex text.
    pub fn get_addr_hex(&self) -> (r: Vec<u8>)
        ensures
            r@ == hex_text_of(self.0@),
    {
        hex_text(&self.0)
    }

    /// Numeric comparison of addresses, which is lexicographic byte order.
    pub fn cmp_key(&self, other: &Address) -> (r: i8)
        ensures
            r < 0 <==> addr_key(*self) < addr_key(*other),
            r == 0 <==> addr_key(*self) == addr_key(*other),
            r > 0 <==> addr_key(*self) > addr_key(*other),
    {
        let a_hi = get_be(&self.0, 0, 4);
        let a_lo = get_be(&self.0, 4, 16);
        let b_hi = get_be(&other.0, 0, 4);
        let b_lo = get_be(&other.0, 4, 16);
        proof {
            crate::bytes::lemma_be_split(self.0@, 4);
            crate::bytes::lemma_be_split(other.0@, 4);
            crate::bytes::lemma_be_value_bound(self.0@.subrange(4, 20));
            crate::bytes::lemma_be_value_bound(other.0@.subrange(4, 20));
            crate::bytes::lemma_pow256_values();
            assert(self.0@.subrange(0, 20) =~= self.0@);
            assert(other.0@.subrange(0, 20) =~= other.0@);
            crate::bytes::lemma_lex_order(a_hi as nat, a_lo as nat, b_hi as nat, b_lo as nat, crate::bytes::pow256(16));
            crate::bytes::lemma_lex_order(b_hi as nat, b_lo as nat, a_hi as nat, a_lo as nat, crate::bytes::pow256(16));
        }
        if a_hi < b_hi {
            -1
        } else if a_hi > b_hi {
            1
        } else if a_lo < b_lo {
            -1
        } else if a_lo > b_lo {
            1
        } else {
            0
        }
    }
}

/// Why a hex text is not an address.
#[derive(Clone, Copy, Debug, PartialEq, Eq, Structural)]
pub enum AddressError {
    FromHexError,
    InvalidLength(usize),
}

/// An account: the count of its outgoing transactions and its balance.
#[derive(Clone, Copy, Debug, PartialEq, Eq, Structural)]
pub struct Account {
    pub nonce: u64,
    pub balance: U256,
}

impl Account {
    pub fn new(nonce: u64, balance: U256) -> (r: Account)
        ensures
            r.nonce == nonce,
            r.balance == balance,
    {
        Account { nonce, balance }
    }

    /// A fresh account: nonce zero, no balance.
    pub fn empty() -> (r: Account)
        ensures
            r.nonce == 0,
            r.balance.value() == 0,
    {
        Account { nonce: 0, balance: U256::zero() }
    }

    pub fn update(&mut self, nonce: u64, balance: U256)
        ensures
            final(self).nonce == nonce,
            final(self).balance == balance,
    {
        self.nonce = nonce;
        self.balance = balance;
    }

    pub fn balance(&self) -> (r: U256)
        ensures
            r == self.balance,
    {
        self.balance
    }

    pub fn nonce(&self) -> (r: u64)
        ensures
            r == self.nonce,
    {
        self.nonce
    }

    /// Takes `value` off the balance, stopping at zero.
    pub fn sub_balance(&mut self, value: &U256)
        ensures
            final(self).nonce == old(self).nonce,
            final(self).balance.value() == if value.value() > old(self).balance.value() {
                0
            } else {
                (old(self).balance.value() - value.value()) as nat
            },
    {
        self.balance = self.balance.saturating_sub(value);
    }

    /// Adds `value` to the balance, stopping at the largest value.
    pub fn add_balance(&mut self, value: &U256)
        ensures
            final(self).nonce == old(self).nonce,
            final(self).balance.value() == if old(self).balance.value() + value.value() > u256_max() {
                u256_max()
            } else {
                old(self).balance.value() + value.value()
            },
    {
        self.balance = self.balance.saturating_add(value);
    }

    /// Counts one more outgoing transaction, stopping at the largest nonce.
    pub fn increase_nonce(&mut self)
        ensures
            final(self).balance == old(self).balance,
            final(self).nonce == if old(self).nonce == u64::MAX {
                u64::MAX
            } else {
                (old(self).nonce + 1) as u64
            },
    {
        if self.nonce < u64::MAX {
            self.nonce = self.nonce + 1;
        }
    }
}

impl Account {
    /// `nonce(8) || balance(32)`, big-endian.
    pub fn encode(&self) -> (r: Vec<u8>)
        ensures
            r@ == crate::bytes::be_bytes(self.nonce as nat, 8) + self.balance.bytes(),
    {
        let mut out: Vec<u8> = Vec::new();
        crate::bytes::put_be(&mut out, self.nonce as u128, 8);
        self.balance.to_be_bytes(&mut out);
        out
    }

    /// Reads `nonce(8) || balance(32)`; `None` when fewer than 40 bytes.
    pub fn decode(b: &[u8]) -> (r: Option<Account>)
        ensures
            b@.len() < 40 ==> r is None,
            b@.len() >= 40 ==> r is Some && (r->0).nonce as nat == be_value(b@.subrange(0, 8))
                && (r->0).balance.hi as nat == be_value(b@.subrange(8, 24))
                && (r->0).balance.lo as nat == be_value(b@.subrange(24, 40)),
    {
        if b.len() < 40 {
            return None;
        }
        let v = get_be(b, 0, 8);
        proof {
            crate::bytes::lemma_be_value_bound(b@.subrange(0, 8));
            crate::bytes::lemma_pow256_values();
        }
        let balance = U256::from_be_bytes(b, 8);
        Some(Account { nonce: v as u64, balance })
    }
}

} // verus!
