//! Proof-of-work search.
use vstd::prelude::*;
use crate::bytes::{be_bytes, put_be};
use crate::block::{Header, PayloadHeader, header_with_nonce};
use crate::crypto::{sha256, sha256_of};
use crate::transaction::{put_bytes, copy_bytes};

verus! {

/// How many nonces a worker tries between two looks at its cancellation.
pub const POLL_INTERVAL: u64 = 10_000;

/// `2^n`.
pub open spec fn pow2(n: nat) -> nat
    decreases n,
{
    if n == 0 {
        1
    } else {
        2 * pow2((n - 1) as nat)
    }
}

/// A digest with at least `d` leading zero bits: its first `d / 8` bytes are
/// zero and, where `d` is not a whole number of bytes, the next byte is below
/// `2^(8 - d % 8)`.
pub open spec fn meets_difficulty(s: Seq<u8>, d: nat) -> bool {
    &&& d <= 8 * s.len()
    &&& forall|i: int| 0 <= i < d / 8 ==> s[i] == 0
    &&& d % 8 != 0 ==> (s[(d / 8) as int] as nat) < pow2((8 - d % 8) as nat)
}

/// The bytes the miner hashes for a header: previous hash, transaction
/// root, state root, timestamp, proposer, difficulty, height, then nonce.
pub open spec fn pow_prefix(p: PayloadHeader) -> Seq<u8> {
    p.previous_hash.0.0@ + p.transaction_root.0@ + p.state_root.0@ + be_bytes(p.timestamp as nat, 8)
        + p.proposer.0@ + be_bytes(p.difficulty as nat, 4) + be_bytes(p.height as nat, 8)
}

pub open spec fn pow_bytes(h: Header) -> Seq<u8> {
    h.previous_hash.0.0@ + h.transaction_root.0@ + h.state_root.0@ + be_bytes(h.timestamp as nat, 8)
        + h.proposer.0@ + be_bytes(h.difficulty as nat, 4) + be_bytes(h.height as nat, 8) + be_bytes(
        h.nonce as nat,
        8,
    )
}

/// The proof-of-work hash of a header.
pub open spec fn pow_hash(h: Header) -> Seq<u8> {
    sha256_of(pow_bytes(h))
}

/// No nonce in `[from, to)` gives a header that meets its difficulty.
pub open spec fn none_meets(p: PayloadHeader, from: u64, to: u64) -> bool {
    forall|n: u64| from <= n < to ==> !#[trigger] meets_difficulty(pow_hash(header_with_nonce(p, n)), p.difficulty as nat)
}

/// Whether a digest has at least `difficulty` leading zero bits.
pub fn meets_target(result: &[u8; 32], difficulty: u32) -> (r: bool)
    ensures
        r == meets_difficulty(result@, difficulty as nat),
{
    let mut remains: u32 = difficulty;
    let mut i: usize = 0;
    while i < 32
        invariant
            i <= 32,
            remains as nat + 8 * i == difficulty as nat,
            forall|k: int| 0 <= k < i ==> result@[k] == 0,
        decreases 32 - i,
    {
        if remains >= 8 {
            if result[i] != 0 {
                return false;
            }
            remains = remains - 8;
        } else if remains > 0 {
            let mut limit: u16 = 1;
            let mut k: u32 = 0;
            while k < 8 - remains
                invariant
                    0 < remains < 8,
                    k <= 8 - remains,
                    limit as nat == pow2(k as nat),
                    limit <= 256,
                decreases 8 - remains - k,
            {
                proof {
                    lemma_pow2_bound(k as nat + 1);
                }
                limit = limit * 2;
                k = k + 1;
            }
            assert(difficulty as nat / 8 == i);
            assert(difficulty as nat % 8 == remains);
            return (result[i] as u16) < limit;
        } else {
            assert(difficulty as nat / 8 == i);
            return true;
        }
        i = i + 1;
    }
    remains == 0
}

proof fn lemma_pow2_bound(n: nat)
    requires
        n <= 8,
    ensures
        pow2(n) <= 256,
    decreases n,
{
    reveal_with_fuel(pow2, 9);
}

/// The prefix of the proof-of-work input, which stays the same for every
/// nonce.
pub fn encode_pow_prefix(p: &PayloadHeader) -> (r: Vec<u8>)
    ensures
        r@ == pow_prefix(*p),
{
    let mut out: Vec<u8> = Vec::new();
    put_bytes(&mut out, &p.previous_hash.0.0);
    put_bytes(&mut out, &p.transaction_root.0);
    put_bytes(&mut out, &p.state_root.0);
    put_be(&mut out, p.timestamp as u128, 8);
    put_bytes(&mut out, &p.proposer.0);
    put_be(&mut out, p.difficulty as u128, 4);
    put_be(&mut out, p.height as u128, 8);
    assert(out@ =~= pow_prefix(*p));
    out
}

/// The result of one bounded round of nonce search.
#[derive(Clone, Copy, Debug, PartialEq, Eq)]
pub enum MineOutcome {
    /// A header whose proof-of-work hash meets its difficulty.
    Found(Header),
    /// No nonce in the round met the difficulty; the next nonce to try.
    Exhausted(u64),
}

/// Tries nonces `start, start + 1, ...`, at most `attempts` of them and not
/// past the largest nonce, and stops at the first whose proof-of-work hash
/// has `difficulty` leading zero bits.
pub fn mine_batch(p: &PayloadHeader, start: u64, attempts: u64) -> (r: MineOutcome)
    ensures
        r matches MineOutcome::Found(h) ==> h == header_with_nonce(*p, h.nonce) && start <= h.nonce
            && h.nonce - start < attempts && meets_difficulty(pow_hash(h), h.difficulty as nat) && none_meets(
            *p,
            start,
            h.nonce,
        ),
        r matches MineOutcome::Exhausted(next) ==> start <= next && next - start <= attempts && (next - start
            == attempts || next == u64::MAX) && none_meets(
            *p,
            start,
            next,
        ),
{
    let prefix = encode_pow_prefix(p);
    let mut nonce: u64 = start;
    let mut tried: u64 = 0;
    while tried < attempts && nonce < u64::MAX
        invariant
            prefix@ == pow_prefix(*p),
            nonce == start + tried,
            tried <= attempts,
            none_meets(*p, start, nonce),
        decreases attempts - tried,
    {
        let mut buf = copy_bytes(prefix.as_slice());
        put_be(&mut buf, nonce as u128, 8);
        let digest = sha256(buf.as_slice());
        let h = p.into_header(nonce);
        assert(buf@ =~= pow_bytes(h));
        if meets_target(&digest, p.difficulty) {
            return MineOutcome::Found(h);
        }
        assert forall|n: u64| start <= n < nonce + 1 implies !#[trigger] meets_difficulty(
            pow_hash(header_with_nonce(*p, n)),
            p.difficulty as nat,
        ) by {
            if n == nonce {
                assert(header_with_nonce(*p, n) == h);
            }
        }
        nonce = nonce + 1;
        tried = tried + 1;
    }
    MineOutcome::Exhausted(nonce)
}

/// What the consensus engine asks of the miner.
#[derive(Clone, Copy, Debug, PartialEq, Eq)]
pub enum MinerHandleMessage {
    NewPayload(PayloadHeader),
    HaltMining,
}

/// What the miner reports.
#[derive(Clone, Copy, Debug, PartialEq, Eq)]
pub enum MinerResultMessage {
    MiningSuccess(Header),
    MiningHalted,
}

/// The miner's cancellation state: the epoch of the current job (a job
/// whose epoch is older is cancelled) and the number of running workers.
#[derive(Clone, Copy, Debug, PartialEq, Eq, Structural)]
pub struct MinerControl {
    pub epoch: u64,
    pub workers: u64,
}

impl MinerControl {
    pub fn new() -> (r: MinerControl)
        ensures
            r.epoch == 0,
            r.workers == 0,
    {
        MinerControl { epoch: 0, workers: 0 }
    }

    /// A new payload supersedes the current job; returns the new job's
    /// epoch.
    pub fn start_job(&mut self) -> (r: u64)
        ensures
            r == final(self).epoch,
            final(self).epoch != old(self).epoch,
            final(self).workers == if old(self).workers == u64::MAX { old(self).workers } else { (old(self).workers + 1) as u64 },
    {
        self.epoch = if self.epoch == u64::MAX { 0 } else { self.epoch + 1 };
        if self.workers < u64::MAX {
            self.workers = self.workers + 1;
        }
        self.epoch
    }

    /// A halt cancels the current job. Returns whether `MiningHalted` is
    /// to be reported at once, which is when no worker runs; otherwise the
    /// worker reports it at its next look.
    pub fn halt(&mut self) -> (r: bool)
        ensures
            r == (old(self).workers == 0),
            final(self).epoch != old(self).epoch,
            final(self).workers == old(self).workers,
    {
        self.epoch = if self.epoch == u64::MAX { 0 } else { self.epoch + 1 };
        self.workers == 0
    }

    /// Whether the worker of job `job` is to stop at this look.
    pub fn is_cancelled(&self, job: u64) -> (r: bool)
        ensures
            r == (job != self.epoch),
    {
        job != self.epoch
    }

    /// A worker stopped, by success or by cancellation.
    pub fn worker_done(&mut self)
        ensures
            final(self).epoch == old(self).epoch,
            final(self).workers == if old(self).workers == 0 { 0 } else { (old(self).workers - 1) as u64 },
    {
        if self.workers > 0 {
            self.workers = self.workers - 1;
        }
    }
}

/// A round's outcome: a found header meets its difficulty, and at most
/// `POLL_INTERVAL` nonces were tried.
pub open spec fn round_ok(p: PayloadHeader, start: u64, o: MineOutcome) -> bool {
    match o {
        MineOutcome::Found(h) => h == header_with_nonce(p, h.nonce) && start <= h.nonce && h.nonce - start
            < POLL_INTERVAL && meets_difficulty(pow_hash(h), h.difficulty as nat) && none_meets(p, start, h.nonce),
        MineOutcome::Exhausted(next) => start <= next && next - start <= POLL_INTERVAL && (next - start == POLL_INTERVAL
            || next == u64::MAX) && none_meets(p, start, next),
    }
}

/// One look of a worker: stop if its job was cancelled, otherwise try the
/// next round of at most `POLL_INTERVAL` nonces. So a halt is seen after at
/// most that many more hashes.
pub fn worker_round(control: &MinerControl, job: u64, p: &PayloadHeader, start: u64) -> (r: Option<MineOutcome>)
    ensures
        control.is_cancelled_spec(job) ==> r is None,
        !control.is_cancelled_spec(job) ==> r is Some && round_ok(*p, start, r->0),
{
    if control.is_cancelled(job) {
        None
    } else {
        Some(mine_batch(p, start, POLL_INTERVAL))
    }
}

impl MinerControl {
    pub open spec fn is_cancelled_spec(&self, job: u64) -> bool {
        job != self.epoch
    }
}

} // verus!
