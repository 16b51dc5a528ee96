//! The merkle root used for transaction roots and state roots.
use vstd::prelude::*;
use crate::types::B256;
use crate::crypto::{sha256, sha256_of};
use crate::transaction::put_bytes;

verus! {

/// The bytes of each digest.
pub open spec fn digest_views(s: Seq<B256>) -> Seq<Seq<u8>> {
    s.map_values(|h: B256| h.0@)
}

/// The `i`-th node of the next level: the hash of a pair, where an odd last
/// node is paired with itself.
pub open spec fn pair_hash(s: Seq<Seq<u8>>, i: int) -> Seq<u8> {
    let left = s[2 * i];
    let right = if 2 * i + 1 < s.len() {
        s[2 * i + 1]
    } else {
        s[2 * i]
    };
    sha256_of(left + right)
}

/// One level up the tree.
pub open spec fn next_level(s: Seq<Seq<u8>>) -> Seq<Seq<u8>> {
    Seq::new(((s.len() + 1) / 2) as nat, |i: int| pair_hash(s, i))
}

/// Hashes level after level until one node is left.
pub open spec fn reduce_levels(s: Seq<Seq<u8>>) -> Seq<u8>
    decreases s.len(),
{
    if s.len() <= 1 {
        if s.len() == 1 {
            s[0]
        } else {
            Seq::new(32, |i: int| 0u8)
        }
    } else {
        reduce_levels(next_level(s))
    }
}

/// The merkle root of a list of digests: all zeros for none; otherwise at
/// least one level of pairing, then pairing until one node is left.
pub open spec fn merkle_root(s: Seq<Seq<u8>>) -> Seq<u8> {
    if s.len() == 0 {
        Seq::new(32, |i: int| 0u8)
    } else {
        reduce_levels(next_level(s))
    }
}

/// The next level of the tree.
fn pair_level(cur: &Vec<B256>) -> (r: Vec<B256>)
    requires
        cur@.len() >= 1,
    ensures
        digest_views(r@) == next_level(digest_views(cur@)),
        r@.len() == (cur@.len() + 1) / 2,
{
    let ghost v = digest_views(cur@);
    let n = cur.len();
    let m = n / 2 + n % 2;
    let mut next: Vec<B256> = Vec::new();
    let mut j: usize = 0;
    while j < m
        invariant
            n == cur@.len(),
            m == (n + 1) / 2,
            v == digest_views(cur@),
            j <= m,
            next@.len() == j,
            forall|k: int| 0 <= k < next@.len() ==> (#[trigger] next@[k]).0@ == pair_hash(v, k),
        decreases m - j,
    {
        let i = 2 * j;
        let mut buf: Vec<u8> = Vec::new();
        put_bytes(&mut buf, &cur[i].0);
        if i + 1 < n {
            put_bytes(&mut buf, &cur[i + 1].0);
        } else {
            put_bytes(&mut buf, &cur[i].0);
        }
        let h = B256(sha256(buf.as_slice()));
        assert(h.0@ == pair_hash(v, j as int));
        next.push(h);
        j = j + 1;
    }
    assert(digest_views(next@) =~= next_level(v));
    next
}

/// The merkle root of a list of digests.
pub fn calculate_merkle_root(hashes: Vec<B256>) -> (r: B256)
    ensures
        r.0@ == merkle_root(digest_views(hashes@)),
{
    if hashes.len() == 0 {
        return B256::zero();
    }
    let mut level = pair_level(&hashes);
    while level.len() > 1
        invariant
            level@.len() >= 1,
            reduce_levels(digest_views(level@)) == merkle_root(digest_views(hashes@)),
        decreases level@.len(),
    {
        level = pair_level(&level);
    }
    let r = level[0];
    assert(digest_views(level@)[0] == r.0@);
    r
}

/// The root over one leaf is the hash of the leaf paired with itself.
pub proof fn lemma_merkle_single(leaf: Seq<u8>)
    ensures
        merkle_root(seq![leaf]) == sha256_of(leaf + leaf),
{
    let s = seq![leaf];
    let l = next_level(s);
    assert(l.len() == 1);
    assert(l[0] == pair_hash(s, 0));
}

} // verus!
