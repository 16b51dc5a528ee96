//! Fixed-width big-endian integer encodings.
use vstd::prelude::*;

verus! {

/// `256^n`.
pub open spec fn pow256(n: nat) -> nat
    decreases n,
{
    if n == 0 {
        1
    } else {
        256 * pow256((n - 1) as nat)
    }
}

/// The `n` low-order bytes of `v`, most significant first.
pub open spec fn be_bytes(v: nat, n: nat) -> Seq<u8>
    decreases n,
{
    if n == 0 {
        Seq::empty()
    } else {
        be_bytes(v / 256, (n - 1) as nat).push((v % 256) as u8)
    }
}

/// The number that a big-endian byte string denotes.
pub open spec fn be_value(s: Seq<u8>) -> nat
    decreases s.len(),
{
    if s.len() == 0 {
        0
    } else {
        be_value(s.drop_last()) * 256 + s.last() as nat
    }
}

pub proof fn lemma_pow256_pos(n: nat)
    ensures
        pow256(n) >= 1,
    decreases n,
{
    if n > 0 {
        lemma_pow256_pos((n - 1) as nat);
    }
}

pub proof fn lemma_be_bytes_len(v: nat, n: nat)
    ensures
        be_bytes(v, n).len() == n,
    decreases n,
{
    if n > 0 {
        lemma_be_bytes_len(v / 256, (n - 1) as nat);
    }
}

/// Decoding an encoding gives the number back, when it fits.
pub proof fn lemma_be_round_trip(v: nat, n: nat)
    requires
        v < pow256(n),
    ensures
        be_value(be_bytes(v, n)) == v,
        be_bytes(v, n).len() == n,
    decreases n,
{
    lemma_be_bytes_len(v, n);
    if n > 0 {
        let p = pow256((n - 1) as nat);
        assert(v / 256 < p) by (nonlinear_arith)
            requires
                v < 256 * p,
        ;
        lemma_be_round_trip(v / 256, (n - 1) as nat);
        let s = be_bytes(v, n);
        assert(s.drop_last() =~= be_bytes(v / 256, (n - 1) as nat));
        assert((v / 256) * 256 + v % 256 == v) by (nonlinear_arith);
    } else {
        assert(v == 0);
    }
}

/// A byte string of length `n` denotes a number below `256^n`.
pub proof fn lemma_be_value_bound(s: Seq<u8>)
    ensures
        be_value(s) < pow256(s.len()),
    decreases s.len(),
{
    if s.len() > 0 {
        let t = s.drop_last();
        lemma_be_value_bound(t);
        let a = be_value(t);
        let p = pow256(t.len());
        let b = s.last() as nat;
        assert(a * 256 + b < 256 * p) by (nonlinear_arith)
            requires
                a < p,
                b < 256,
        ;
    }
}

pub proof fn lemma_pow256_values()
    ensures
        pow256(2) == 0x1_0000,
        pow256(4) == 0x1_0000_0000,
        pow256(8) == 0x1_0000_0000_0000_0000,
        pow256(16) == 0x1_0000_0000_0000_0000 * 0x1_0000_0000_0000_0000,
{
    reveal_with_fuel(pow256, 17);
}

/// Appends the `n` low-order bytes of `x` to `out`, most significant first.
pub fn put_be(out: &mut Vec<u8>, x: u128, n: usize)
    ensures
        final(out)@ == old(out)@ + be_bytes(x as nat, n as nat),
    decreases n,
{
    if n > 0 {
        put_be(out, x / 256, n - 1);
        out.push((x % 256) as u8);
        assert(old(out)@ + be_bytes(x as nat, n as nat) =~= old(out)@ + be_bytes(
            (x / 256) as nat,
            (n - 1) as nat,
        ).push((x % 256) as u8));
    } else {
        assert(old(out)@ + be_bytes(x as nat, 0) =~= old(out)@);
    }
}

/// Reads `n` bytes at `start` as a big-endian number.
pub fn get_be(buf: &[u8], start: usize, n: usize) -> (r: u128)
    requires
        n <= 16,
        start + n <= buf@.len(),
    ensures
        r as nat == be_value(buf@.subrange(start as int, start + n)),
{
    let len = buf.len();
    let mut acc: u128 = 0;
    let mut i: usize = 0;
    proof {
        lemma_pow256_values();
    }
    while i < n
        invariant
            i <= n,
            n <= 16,
            start + n <= buf@.len(),
            len == buf@.len(),
            acc as nat == be_value(buf@.subrange(start as int, start + i)),
            pow256(16) == 0x1_0000_0000_0000_0000 * 0x1_0000_0000_0000_0000,
        decreases n - i,
    {
        let ghost prev = buf@.subrange(start as int, start + i);
        proof {
            lemma_be_value_bound(prev);
            lemma_pow256_mono(i as nat, 15);
        }
        let b = buf[start + i];
        assert(acc * 256 + b <= u128::MAX) by (nonlinear_arith)
            requires
                acc as nat <= pow256(15) - 1,
                256 * pow256(15) == 0x1_0000_0000_0000_0000 * 0x1_0000_0000_0000_0000,
                b < 256,
        ;
        acc = acc * 256 + b as u128;
        i = i + 1;
        assert(buf@.subrange(start as int, start + i).drop_last() =~= prev);
    }
    acc
}

pub proof fn lemma_pow256_mono(a: nat, b: nat)
    requires
        a <= b,
    ensures
        pow256(a) <= pow256(b),
    decreases b,
{
    if a < b {
        lemma_pow256_mono(a, (b - 1) as nat);
        lemma_pow256_pos((b - 1) as nat);
    }
}

/// The value of a byte string split in two.
pub proof fn lemma_be_concat(a: Seq<u8>, b: Seq<u8>)
    ensures
        be_value(a + b) == be_value(a) * pow256(b.len()) + be_value(b),
    decreases b.len(),
{
    if b.len() == 0 {
        assert(a + b =~= a);
        assert(pow256(0) == 1);
        assert(be_value(a) * 1 == be_value(a));
    } else {
        let bl = b.drop_last();
        lemma_be_concat(a, bl);
        assert((a + b).drop_last() =~= a + bl);
        assert((a + b).last() == b.last());
        assert(pow256(b.len()) == 256 * pow256(bl.len()));
        assert(be_value(b) == be_value(bl) * 256 + b.last() as nat);
        assert(be_value(a + b) == be_value(a + bl) * 256 + b.last() as nat);
        let x = be_value(a);
        let p = pow256(bl.len());
        let y = be_value(bl);
        let l = b.last() as nat;
        assert((x * p + y) * 256 + l == x * (256 * p) + (y * 256 + l)) by (nonlinear_arith);
        assert(be_value(a + bl) == x * p + y);
    }
}

pub proof fn lemma_be_split(s: Seq<u8>, k: int)
    requires
        0 <= k <= s.len(),
    ensures
        be_value(s) == be_value(s.subrange(0, k)) * pow256((s.len() - k) as nat) + be_value(
            s.subrange(k, s.len() as int),
        ),
{
    lemma_be_concat(s.subrange(0, k), s.subrange(k, s.len() as int));
    assert(s.subrange(0, k) + s.subrange(k, s.len() as int) =~= s);
}

/// Pairs compare as the numbers `hi * p + lo` when `lo < p`.
pub proof fn lemma_lex_order(ah: nat, al: nat, bh: nat, bl: nat, p: nat)
    requires
        al < p,
        bl < p,
    ensures
        ah < bh ==> ah * p + al < bh * p + bl,
        ah == bh ==> (ah * p + al < bh * p + bl <==> al < bl),
{
    if ah < bh {
        assert(ah * p + al < bh * p + bl) by (nonlinear_arith)
            requires
                ah < bh,
                al < p,
        ;
    }
}

/// Byte strings of one length with the same value are equal.
pub proof fn lemma_be_injective(s: Seq<u8>, t: Seq<u8>)
    requires
        s.len() == t.len(),
        be_value(s) == be_value(t),
    ensures
        s == t,
    decreases s.len(),
{
    if s.len() > 0 {
        let a = be_value(s.drop_last());
        let b = be_value(t.drop_last());
        let x = s.last() as nat;
        let y = t.last() as nat;
        assert(a * 256 + x == b * 256 + y);
        assert(x == y && a == b) by (nonlinear_arith)
            requires
                a * 256 + x == b * 256 + y,
                x < 256,
                y < 256,
        ;
        lemma_be_injective(s.drop_last(), t.drop_last());
        assert(s =~= s.drop_last().push(s.last()));
        assert(t =~= t.drop_last().push(t.last()));
    } else {
        assert(s =~= t);
    }
}

} // verus!
