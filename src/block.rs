//! Headers, blocks and payloads, with their encodings and hashes.
use vstd::prelude::*;
use crate::bytes::{be_bytes, be_value, put_be, get_be, lemma_be_round_trip, lemma_pow256_values, lemma_be_value_bound};
use crate::u256::{U256, lemma_u256_round_trip};
use crate::types::{Address, BlockHash, B256, coinbase, is_coinbase};
use crate::crypto::{sha256, sha256_of};
use crate::transaction::{
    SignedTransaction, DecodeError, signed_bytes, sig_bytes, decoded_signed, put_bytes, copy_bytes, read_address,
    read_b256, get_u64, same_tx, signing_hash, lemma_signed_round_trip,
};

verus! {

pub const HEADER_RAW_LEN: usize = 176;

/// A block header.
#[derive(Clone, Copy, Debug, PartialEq, Eq)]
pub struct Header {
    pub previous_hash: BlockHash,
    pub transaction_root: B256,
    pub state_root: B256,
    pub timestamp: u64,
    pub proposer: Address,
    pub nonce: u64,
    pub difficulty: u32,
    pub height: u64,
    pub total_fee: U256,
}

/// The 176-byte encoding of a header, fields in declaration order.
pub open spec fn header_bytes(h: Header) -> Seq<u8> {
    h.previous_hash.0.0@ + h.transaction_root.0@ + h.state_root.0@ + be_bytes(h.timestamp as nat, 8)
        + h.proposer.0@ + be_bytes(h.nonce as nat, 8) + be_bytes(h.difficulty as nat, 4) + be_bytes(
        h.height as nat,
        8,
    ) + h.total_fee.bytes()
}

/// Two headers with the same fields.
pub open spec fn same_header(a: Header, b: Header) -> bool {
    &&& a.previous_hash.0.0@ == b.previous_hash.0.0@
    &&& a.transaction_root.0@ == b.transaction_root.0@
    &&& a.state_root.0@ == b.state_root.0@
    &&& a.timestamp == b.timestamp
    &&& a.proposer.0@ == b.proposer.0@
    &&& a.nonce == b.nonce
    &&& a.difficulty == b.difficulty
    &&& a.height == b.height
    &&& a.total_fee == b.total_fee
}

/// The genesis header's fields.
pub open spec fn is_genesis_header(r: Header) -> bool {
    &&& r.previous_hash.0.0@ == Seq::new(32, |i: int| 0u8)
    &&& r.transaction_root.0@ == Seq::new(32, |i: int| 0u8)
    &&& r.state_root.0@ == Seq::new(32, |i: int| 0u8)
    &&& r.timestamp == 0
    &&& is_coinbase(r.proposer)
    &&& r.nonce == 0
    &&& r.difficulty == 20
    &&& r.height == 0
    &&& r.total_fee.value() == 0
}

/// The block hash: SHA-256 of the header's encoding.
pub open spec fn block_hash_of(h: Header) -> Seq<u8> {
    sha256_of(header_bytes(h))
}

/// What `decode` reads from 176 bytes.
pub open spec fn decoded_header(w: Seq<u8>, h: Header) -> bool {
    &&& h.previous_hash.0.0@ == w.subrange(0, 32)
    &&& h.transaction_root.0@ == w.subrange(32, 64)
    &&& h.state_root.0@ == w.subrange(64, 96)
    &&& h.timestamp as nat == be_value(w.subrange(96, 104))
    &&& h.proposer.0@ == w.subrange(104, 124)
    &&& h.nonce as nat == be_value(w.subrange(124, 132))
    &&& h.difficulty as nat == be_value(w.subrange(132, 136))
    &&& h.height as nat == be_value(w.subrange(136, 144))
    &&& h.total_fee.hi as nat == be_value(w.subrange(144, 160))
    &&& h.total_fee.lo as nat == be_value(w.subrange(160, 176))
}

impl Header {
    /// The header of the genesis block: zero hashes, coinbase proposer,
    /// difficulty 20, height 0.
    pub fn genesis_header() -> (r: Header)
        ensures
            is_genesis_header(r),
    {
        Header {
            previous_hash: BlockHash(B256::zero()),
            transaction_root: B256::zero(),
            state_root: B256::zero(),
            timestamp: 0,
            proposer: coinbase(),
            nonce: 0,
            difficulty: 20,
            height: 0,
            total_fee: U256::zero(),
        }
    }

    /// The 176-byte encoding.
    pub fn encode(&self) -> (r: Vec<u8>)
        ensures
            r@ == header_bytes(*self),
    {
        let mut out: Vec<u8> = Vec::new();
        put_bytes(&mut out, &self.previous_hash.0.0);
        put_bytes(&mut out, &self.transaction_root.0);
        put_bytes(&mut out, &self.state_root.0);
        put_be(&mut out, self.timestamp as u128, 8);
        put_bytes(&mut out, &self.proposer.0);
        put_be(&mut out, self.nonce as u128, 8);
        put_be(&mut out, self.difficulty as u128, 4);
        put_be(&mut out, self.height as u128, 8);
        self.total_fee.to_be_bytes(&mut out);
        assert(out@ =~= header_bytes(*self));
        out
    }

    /// Reads a header from 176 bytes at `start`.
    pub fn decode_at(buf: &[u8], start: usize) -> (r: Header)
        requires
            start + 176 <= buf@.len(),
        ensures
            decoded_header(buf@.subrange(start as int, start + 176), r),
    {
        let len = buf.len();
        let ghost w = buf@.subrange(start as int, start + 176);
        let previous_hash = BlockHash(read_b256(buf, start));
        let transaction_root = read_b256(buf, start + 32);
        let state_root = read_b256(buf, start + 64);
        let timestamp = get_u64(buf, start + 96);
        let proposer = read_address(buf, start + 104);
        let nonce = get_u64(buf, start + 124);
        let d = get_be(buf, start + 132, 4);
        proof {
            lemma_be_value_bound(buf@.subrange(start + 132, start + 136));
            lemma_pow256_values();
        }
        let difficulty = d as u32;
        let height = get_u64(buf, start + 136);
        let total_fee = U256::from_be_bytes(buf, start + 144);
        let h = Header {
            previous_hash,
            transaction_root,
            state_root,
            timestamp,
            proposer,
            nonce,
            difficulty,
            height,
            total_fee,
        };
        assert(w.subrange(0, 32) =~= buf@.subrange(start as int, start + 32));
        assert(w.subrange(32, 64) =~= buf@.subrange(start + 32, start + 64));
        assert(w.subrange(64, 96) =~= buf@.subrange(start + 64, start + 96));
        assert(w.subrange(96, 104) =~= buf@.subrange(start + 96, start + 104));
        assert(w.subrange(104, 124) =~= buf@.subrange(start + 104, start + 124));
        assert(w.subrange(124, 132) =~= buf@.subrange(start + 124, start + 132));
        assert(w.subrange(132, 136) =~= buf@.subrange(start + 132, start + 136));
        assert(w.subrange(136, 144) =~= buf@.subrange(start + 136, start + 144));
        assert(w.subrange(144, 160) =~= buf@.subrange(start + 144, start + 160));
        assert(w.subrange(160, 176) =~= buf@.subrange(start + 160, start + 176));
        h
    }

    /// Reads a header from its 176-byte encoding.
    pub fn decode(buf: &[u8; 176]) -> (r: Header)
        ensures
            decoded_header(buf@, r),
    {
        let h = Header::decode_at(buf, 0);
        assert(buf@.subrange(0, 176) =~= buf@);
        h
    }

    /// The block hash.
    pub fn calculate_hash(&self) -> (r: BlockHash)
        ensures
            r.0.0@ == block_hash_of(*self),
    {
        let raw = self.encode();
        BlockHash(B256(sha256(raw.as_slice())))
    }
}

/// Decoding a header's encoding gives back the same fields.
pub proof fn lemma_header_round_trip(h: Header, d: Header)
    requires
        decoded_header(header_bytes(h), d),
    ensures
        same_header(h, d),
        header_bytes(h).len() == 176,
{
    let e = header_bytes(h);
    lemma_pow256_values();
    lemma_be_round_trip(h.timestamp as nat, 8);
    lemma_be_round_trip(h.nonce as nat, 8);
    lemma_be_round_trip(h.difficulty as nat, 4);
    lemma_be_round_trip(h.height as nat, 8);
    lemma_u256_round_trip(h.total_fee);
    let fb = h.total_fee.bytes();
    assert(e.subrange(0, 32) =~= h.previous_hash.0.0@);
    assert(e.subrange(32, 64) =~= h.transaction_root.0@);
    assert(e.subrange(64, 96) =~= h.state_root.0@);
    assert(e.subrange(96, 104) =~= be_bytes(h.timestamp as nat, 8));
    assert(e.subrange(104, 124) =~= h.proposer.0@);
    assert(e.subrange(124, 132) =~= be_bytes(h.nonce as nat, 8));
    assert(e.subrange(132, 136) =~= be_bytes(h.difficulty as nat, 4));
    assert(e.subrange(136, 144) =~= be_bytes(h.height as nat, 8));
    assert(e.subrange(144, 160) =~= fb.subrange(0, 16));
    assert(e.subrange(160, 176) =~= fb.subrange(16, 32));
    assert(h.total_fee == d.total_fee);
}

/// Headers with the same fields have the same hash.
pub proof fn lemma_same_header_same_hash(a: Header, b: Header)
    requires
        same_header(a, b),
    ensures
        block_hash_of(a) == block_hash_of(b),
{
    assert(header_bytes(a) =~= header_bytes(b));
}

/// A header and its ordered transactions.
#[derive(Clone, Debug)]
pub struct Block {
    pub header: Header,
    pub body: Vec<SignedTransaction>,
}

/// The encodings of a list of transactions, one after another.
pub open spec fn body_bytes(s: Seq<SignedTransaction>) -> Seq<u8>
    decreases s.len(),
{
    if s.len() == 0 {
        Seq::empty()
    } else {
        body_bytes(s.drop_last()) + signed_bytes(s.last())
    }
}

/// A block's encoding: header, then each transaction in order.
pub open spec fn block_bytes(b: Block) -> Seq<u8> {
    header_bytes(b.header) + body_bytes(b.body@)
}

/// The 149 bytes of the `k`-th transaction in a block encoding.
pub open spec fn body_chunk(buf: Seq<u8>, k: int) -> Seq<u8> {
    buf.subrange(176 + 149 * k, 176 + 149 * k + 149)
}

/// The number of whole transactions after the header.
pub open spec fn body_count(buf: Seq<u8>) -> int {
    (buf.len() - 176) / 149
}

/// Every whole transaction in a block encoding has a parity byte of 0 or 1.
pub open spec fn body_parity_ok(buf: Seq<u8>) -> bool {
    forall|k: int| 0 <= k < body_count(buf) ==> #[trigger] buf[176 + 149 * k + 148] <= 1
}

/// What `Block::decode` reads.
pub open spec fn decoded_block(buf: Seq<u8>, d: Block) -> bool {
    &&& buf.len() >= 176
    &&& decoded_header(buf.subrange(0, 176), d.header)
    &&& d.body@.len() == body_count(buf)
    &&& forall|k: int| 0 <= k < d.body@.len() ==> decoded_signed(#[trigger] body_chunk(buf, k), d.body@[k])
}

/// Two signed transactions with the same fields.
pub open spec fn same_signed(a: SignedTransaction, b: SignedTransaction) -> bool {
    &&& same_tx(a.tx, b.tx)
    &&& a.signature == b.signature
    &&& a.hash.0.0@ == b.hash.0.0@
}

/// Two blocks with the same header fields and the same transactions in the
/// same order.
pub open spec fn same_block(a: Block, b: Block) -> bool {
    &&& same_header(a.header, b.header)
    &&& a.body@.len() == b.body@.len()
    &&& forall|k: int| 0 <= k < a.body@.len() ==> same_signed(#[trigger] a.body@[k], b.body@[k])
}

/// Each transaction carries its own signing hash.
pub open spec fn body_hashes_ok(b: Block) -> bool {
    forall|k: int| 0 <= k < b.body@.len() ==> (#[trigger] b.body@[k]).hash.0.0@ == signing_hash(b.body@[k].tx)
}

pub proof fn lemma_signed_bytes_len(s: SignedTransaction)
    ensures
        signed_bytes(s).len() == 149,
{
    crate::transaction::lemma_tx_bytes_len(s.tx);
    lemma_u256_round_trip(s.signature.r);
    lemma_u256_round_trip(s.signature.s);
}

/// The `k`-th 149 bytes of a body encoding are the `k`-th transaction's.
pub proof fn lemma_body_chunk(s: Seq<SignedTransaction>, k: int)
    requires
        0 <= k < s.len(),
    ensures
        body_bytes(s).len() == 149 * s.len(),
        body_bytes(s).subrange(149 * k, 149 * k + 149) == signed_bytes(s[k]),
    decreases s.len(),
{
    lemma_body_len(s);
    let t = s.drop_last();
    lemma_body_len(t);
    lemma_signed_bytes_len(s.last());
    if k == s.len() - 1 {
        assert(body_bytes(s).subrange(149 * k, 149 * k + 149) =~= signed_bytes(s[k]));
    } else {
        lemma_body_chunk(t, k);
        assert(body_bytes(s).subrange(149 * k, 149 * k + 149) =~= body_bytes(t).subrange(149 * k, 149 * k + 149));
    }
}

pub proof fn lemma_body_len(s: Seq<SignedTransaction>)
    ensures
        body_bytes(s).len() == 149 * s.len(),
    decreases s.len(),
{
    if s.len() > 0 {
        lemma_body_len(s.drop_last());
        lemma_signed_bytes_len(s.last());
    }
}

impl Block {
    /// The genesis block: the genesis header and no transactions.
    pub fn genesis_block() -> (r: Block)
        ensures
            is_genesis_header(r.header),
            r.body@.len() == 0,
    {
        Block { header: Header::genesis_header(), body: Vec::new() }
    }

    pub fn header(&self) -> (r: &Header)
        ensures
            r == &self.header,
    {
        &self.header
    }

    /// A copy of the block.
    pub fn duplicate(&self) -> (r: Block)
        ensures
            r.header == self.header,
            r.body@ == self.body@,
    {
        let mut body: Vec<SignedTransaction> = Vec::new();
        let mut i: usize = 0;
        while i < self.body.len()
            invariant
                i <= self.body@.len(),
                body@ == self.body@.subrange(0, i as int),
            decreases self.body@.len() - i,
        {
            body.push(self.body[i]);
            i = i + 1;
            assert(body@ =~= self.body@.subrange(0, i as int));
        }
        assert(body@ =~= self.body@);
        Block { header: self.header, body }
    }

    /// The block's encoding.
    pub fn encode_ref(&self) -> (r: Vec<u8>)
        ensures
            r@ == block_bytes(*self),
    {
        let mut res = self.header.encode();
        let mut i: usize = 0;
        while i < self.body.len()
            invariant
                i <= self.body@.len(),
                res@ == header_bytes(self.header) + body_bytes(self.body@.subrange(0, i as int)),
            decreases self.body@.len() - i,
        {
            let encoded = self.body[i].encode();
            put_bytes(&mut res, encoded.as_slice());
            i = i + 1;
            assert(self.body@.subrange(0, i as int).drop_last() =~= self.body@.subrange(0, i - 1));
            assert(res@ =~= header_bytes(self.header) + body_bytes(self.body@.subrange(0, i as int)));
        }
        assert(self.body@.subrange(0, i as int) =~= self.body@);
        res
    }

    /// The block's encoding.
    pub fn encode(&self) -> (r: Vec<u8>)
        ensures
            r@ == block_bytes(*self),
    {
        self.encode_ref()
    }

    /// Reads a header and then each whole 149-byte transaction; trailing
    /// bytes that make no whole transaction are ignored.
    pub fn decode(buf: &[u8]) -> (r: Result<Block, DecodeError>)
        ensures
            buf@.len() < 176 ==> (r matches Err(DecodeError::TooShortRawData(v)) && v@ == buf@),
            buf@.len() >= 176 && body_parity_ok(buf@) ==> r is Ok && decoded_block(buf@, r->Ok_0),
            buf@.len() >= 176 && !body_parity_ok(buf@) ==> (r matches Err(DecodeError::InvalidSignature(_))),
    {
        let len = buf.len();
        if len < HEADER_RAW_LEN {
            return Err(DecodeError::TooShortRawData(copy_bytes(buf)));
        }
        let header = Header::decode_at(buf, 0);
        let mut body: Vec<SignedTransaction> = Vec::new();
        let mut pos: usize = 176;
        while len - pos >= 149
            invariant
                len == buf@.len(),
                len >= 176,
                pos == 176 + 149 * body@.len(),
                pos <= len,
                forall|k: int| 0 <= k < body@.len() ==> decoded_signed(#[trigger] body_chunk(buf@, k), body@[k]),
                forall|k: int| 0 <= k < body@.len() ==> #[trigger] buf@[176 + 149 * k + 148] <= 1,
            decreases len - pos,
        {
            match SignedTransaction::decode_at(buf, pos) {
                Ok(signed) => {
                    body.push(signed);
                },
                Err(e) => {
                    assert(!body_parity_ok(buf@)) by {
                        let k = body@.len() as int;
                        assert(k < body_count(buf@));
                        assert(buf@[176 + 149 * k + 148] > 1);
                    }
                    return Err(e);
                },
            }
            pos = pos + 149;
        }
        assert(body@.len() == body_count(buf@));
        assert(body_parity_ok(buf@)) by {
            assert forall|k: int| 0 <= k < body_count(buf@) implies #[trigger] buf@[176 + 149 * k + 148] <= 1 by {
                assert(buf@[176 + 149 * k + 148] <= 1);
            }
        }
        Ok(Block { header, body })
    }
}

/// Decoding a block's encoding succeeds and gives back the same header and
/// the same transactions in the same order.
pub proof fn lemma_block_round_trip(b: Block, d: Block)
    requires
        body_hashes_ok(b),
    ensures
        block_bytes(b).len() >= 176,
        body_parity_ok(block_bytes(b)),
        decoded_block(block_bytes(b), d) ==> same_block(b, d),
{
    let e = block_bytes(b);
    let n = b.body@.len();
    lemma_header_round_trip_len(b.header);
    lemma_body_len(b.body@);
    assert(e.subrange(0, 176) =~= header_bytes(b.header));
    assert(body_count(e) == n);
    assert forall|k: int| 0 <= k < n implies body_chunk(e, k) == signed_bytes(#[trigger] b.body@[k]) by {
        lemma_body_chunk(b.body@, k);
        assert(body_chunk(e, k) =~= body_bytes(b.body@).subrange(149 * k, 149 * k + 149));
    }
    assert forall|k: int| 0 <= k < body_count(e) implies #[trigger] e[176 + 149 * k + 148] <= 1 by {
        let s = b.body@[k];
        lemma_u256_round_trip(s.signature.r);
        lemma_u256_round_trip(s.signature.s);
        crate::transaction::lemma_tx_bytes_len(s.tx);
        assert(body_chunk(e, k)[148] == e[176 + 149 * k + 148]);
        assert(signed_bytes(s)[148] == sig_bytes(s.signature)[64]);
    }
    if decoded_block(e, d) {
        lemma_header_round_trip(b.header, d.header);
        assert forall|k: int| 0 <= k < n implies same_signed(#[trigger] b.body@[k], d.body@[k]) by {
            assert(decoded_signed(body_chunk(e, k), d.body@[k]));
            lemma_signed_round_trip(b.body@[k], d.body@[k]);
        }
    }
}

pub proof fn lemma_header_round_trip_len(h: Header)
    ensures
        header_bytes(h).len() == 176,
{
    lemma_u256_round_trip(h.total_fee);
    crate::bytes::lemma_be_bytes_len(h.timestamp as nat, 8);
    crate::bytes::lemma_be_bytes_len(h.nonce as nat, 8);
    crate::bytes::lemma_be_bytes_len(h.difficulty as nat, 4);
    crate::bytes::lemma_be_bytes_len(h.height as nat, 8);
}

/// Blocks with the same header fields and the same transactions in the same
/// order have the same block hash.
pub proof fn lemma_same_block_same_hash(a: Block, b: Block)
    requires
        same_block(a, b),
    ensures
        block_hash_of(a.header) == block_hash_of(b.header),
{
    lemma_same_header_same_hash(a.header, b.header);
}

/// A header without its nonce, as the builder hands it to the miner.
#[derive(Clone, Copy, Debug, PartialEq, Eq)]
pub struct PayloadHeader {
    pub previous_hash: BlockHash,
    pub transaction_root: B256,
    pub state_root: B256,
    pub proposer: Address,
    pub difficulty: u32,
    pub timestamp: u64,
    pub height: u64,
    pub total_fee: U256,
}

/// The header that a payload header becomes with a nonce.
pub open spec fn header_with_nonce(p: PayloadHeader, nonce: u64) -> Header {
    Header {
        previous_hash: p.previous_hash,
        transaction_root: p.transaction_root,
        state_root: p.state_root,
        timestamp: p.timestamp,
        proposer: p.proposer,
        nonce,
        difficulty: p.difficulty,
        height: p.height,
        total_fee: p.total_fee,
    }
}

impl PayloadHeader {
    pub fn into_header(self, nonce: u64) -> (r: Header)
        ensures
            r == header_with_nonce(self, nonce),
    {
        Header {
            previous_hash: self.previous_hash,
            transaction_root: self.transaction_root,
            state_root: self.state_root,
            timestamp: self.timestamp,
            proposer: self.proposer,
            nonce,
            difficulty: self.difficulty,
            height: self.height,
            total_fee: self.total_fee,
        }
    }
}

/// A header without nonce and its transactions, before mining.
#[derive(Clone, Debug)]
pub struct Payload {
    pub header: PayloadHeader,
    pub body: Vec<SignedTransaction>,
}

/// Why a block failed validation.
#[derive(Clone, Copy, Debug, PartialEq, Eq, Structural)]
pub enum BlockValidatioError {
    DefaultError,
    ExecutionError,
    NotChainedBlock,
}

/// The outcome of validating a block.
#[derive(Clone, Copy, Debug, PartialEq, Eq, Structural)]
pub struct BlockValidationResult {
    pub success: bool,
    pub error: Option<BlockValidatioError>,
}

impl BlockValidationResult {
    pub fn new() -> (r: BlockValidationResult)
        ensures
            !r.success,
            r.error == Some(BlockValidatioError::DefaultError),
    {
        BlockValidationResult { success: false, error: Some(BlockValidatioError::DefaultError) }
    }

    pub fn success(&mut self)
        ensures
            final(self).success,
            final(self).error == old(self).error,
    {
        self.success = true;
    }

    pub fn failed(&mut self)
        ensures
            !final(self).success,
            final(self).error == old(self).error,
    {
        self.success = false;
    }

    pub fn add_error(&mut self, e: BlockValidatioError)
        ensures
            final(self).success == old(self).success,
            final(self).error == Some(e),
    {
        self.error = Some(e);
    }
}

} // verus!
