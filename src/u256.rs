//! 256-bit unsigned integers held as two 128-bit halves.
use vstd::prelude::*;
use crate::bytes::{be_bytes, be_value, put_be, get_be, lemma_be_round_trip, lemma_pow256_values};

verus! {

pub const HALF: u128 = 0xffff_ffff_ffff_ffff_ffff_ffff_ffff_ffff;

pub open spec fn two_128() -> nat {
    0xffff_ffff_ffff_ffff_ffff_ffff_ffff_ffff + 1
}

pub open spec fn u256_max() -> nat {
    0xffff_ffff_ffff_ffff_ffff_ffff_ffff_ffff * two_128() + 0xffff_ffff_ffff_ffff_ffff_ffff_ffff_ffff
}

/// An unsigned 256-bit number: `hi * 2^128 + lo`.
#[derive(Clone, Copy, Debug, PartialEq, Eq, Structural)]
pub struct U256 {
    pub hi: u128,
    pub lo: u128,
}

impl U256 {
    pub open spec fn value(self) -> nat {
        self.hi as nat * two_128() + self.lo as nat
    }

    /// The 32-byte big-endian encoding.
    pub open spec fn bytes(self) -> Seq<u8> {
        be_bytes(self.hi as nat, 16) + be_bytes(self.lo as nat, 16)
    }

    pub fn zero() -> (r: U256)
        ensures
            r.value() == 0,
            r.hi == 0 && r.lo == 0,
    {
        U256 { hi: 0, lo: 0 }
    }

    pub fn max_value() -> (r: U256)
        ensures
            r.value() == u256_max(),
    {
        U256 { hi: HALF, lo: HALF }
    }

    pub fn from_u128(x: u128) -> (r: U256)
        ensures
            r.value() == x as nat,
    {
        U256 { hi: 0, lo: x }
    }

    pub fn le(&self, other: &U256) -> (r: bool)
        ensures
            r == (self.value() <= other.value()),
    {
        proof {
            lemma_value_order(*self, *other);
            lemma_value_order(*other, *self);
        }
        self.hi < other.hi || (self.hi == other.hi && self.lo <= other.lo)
    }

    /// `self + other`, or the largest value where the sum does not fit.
    pub fn saturating_add(&self, other: &U256) -> (r: U256)
        ensures
            r.value() == if self.value() + other.value() > u256_max() {
                u256_max()
            } else {
                self.value() + other.value()
            },
    {
        let ghost t = two_128();
        let ghost sum = self.value() + other.value();
        proof {
            lemma_distrib(self.hi as nat, other.hi as nat, t);
        }
        if self.lo > HALF - other.lo {
            let lo: u128 = self.lo - (HALF - other.lo) - 1;
            if self.hi >= HALF - other.hi {
                proof {
                    lemma_mul_le(HALF as nat, (self.hi + other.hi) as nat, t);
                }
                U256::max_value()
            } else {
                let r = U256 { hi: self.hi + other.hi + 1, lo };
                proof {
                    lemma_distrib((self.hi + other.hi) as nat, 1, t);
                    lemma_mul_le((self.hi + other.hi + 1) as nat, HALF as nat, t);
                }
                r
            }
        } else {
            let lo: u128 = self.lo + other.lo;
            if self.hi > HALF - other.hi {
                proof {
                    lemma_mul_le((HALF + 1) as nat, (self.hi + other.hi) as nat, t);
                    lemma_distrib(HALF as nat, 1, t);
                }
                U256::max_value()
            } else {
                proof {
                    lemma_mul_le((self.hi + other.hi) as nat, HALF as nat, t);
                }
                U256 { hi: self.hi + other.hi, lo }
            }
        }
    }

    /// `self - other`, or zero where `other` is larger.
    pub fn saturating_sub(&self, other: &U256) -> (r: U256)
        ensures
            r.value() == if other.value() > self.value() {
                0
            } else {
                (self.value() - other.value()) as nat
            },
    {
        let ghost t = two_128();
        proof {
            lemma_value_order(*self, *other);
            lemma_value_order(*other, *self);
        }
        if !other.le(self) {
            U256::zero()
        } else if self.lo >= other.lo {
            proof {
                lemma_distrib((self.hi - other.hi) as nat, other.hi as nat, t);
            }
            U256 { hi: self.hi - other.hi, lo: self.lo - other.lo }
        } else {
            proof {
                lemma_distrib((self.hi - other.hi - 1) as nat, other.hi as nat, t);
                lemma_distrib((self.hi - other.hi - 1) as nat, 1, t);
                lemma_distrib((self.hi - other.hi - 1 + other.hi) as nat, 1, t);
            }
            U256 { hi: self.hi - other.hi - 1, lo: HALF - (other.lo - self.lo) + 1 }
        }
    }

    pub fn to_be_bytes(&self, out: &mut Vec<u8>)
        ensures
            final(out)@ == old(out)@ + self.bytes(),
    {
        put_be(out, self.hi, 16);
        put_be(out, self.lo, 16);
        assert(final(out)@ =~= old(out)@ + self.bytes());
    }

    pub fn from_be_bytes(buf: &[u8], start: usize) -> (r: U256)
        requires
            start + 32 <= buf@.len(),
        ensures
            r.hi as nat == be_value(buf@.subrange(start as int, start + 16)),
            r.lo as nat == be_value(buf@.subrange(start + 16, start + 32)),
    {
        let hi = get_be(buf, start, 16);
        let len = buf.len();
        let lo = get_be(buf, start + 16, 16);
        U256 { hi, lo }
    }
}

proof fn lemma_value_order(a: U256, b: U256)
    ensures
        a.hi < b.hi ==> a.value() < b.value(),
        a.hi == b.hi ==> (a.value() <= b.value() <==> a.lo <= b.lo),
{
    let t = two_128();
    if a.hi < b.hi {
        assert(a.hi as nat * t + a.lo < b.hi as nat * t + b.lo) by (nonlinear_arith)
            requires
                a.hi < b.hi,
                a.lo < t,
        ;
    }
}

proof fn lemma_distrib(a: nat, b: nat, t: nat)
    ensures
        (a + b) * t == a * t + b * t,
{
    assert((a + b) * t == a * t + b * t) by (nonlinear_arith);
}

proof fn lemma_mul_le(a: nat, b: nat, t: nat)
    ensures
        a <= b ==> a * t <= b * t,
{
    assert(a <= b ==> a * t <= b * t) by (nonlinear_arith);
}

/// Decoding the 32-byte encoding gives the same number.
pub proof fn lemma_u256_round_trip(x: U256)
    ensures
        x.bytes().len() == 32,
        be_value(x.bytes().subrange(0, 16)) == x.hi,
        be_value(x.bytes().subrange(16, 32)) == x.lo,
{
    lemma_pow256_values();
    lemma_be_round_trip(x.hi as nat, 16);
    lemma_be_round_trip(x.lo as nat, 16);
    assert(x.bytes().subrange(0, 16) =~= be_bytes(x.hi as nat, 16));
    assert(x.bytes().subrange(16, 32) =~= be_bytes(x.lo as nat, 16));
}

} // verus!
