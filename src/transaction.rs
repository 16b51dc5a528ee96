//! Transactions, signatures and their fixed-width encodings.
use vstd::prelude::*;
use crate::bytes::{be_bytes, be_value, put_be, get_be, lemma_be_round_trip, lemma_pow256_values, lemma_be_value_bound, lemma_be_bytes_len};
use crate::u256::{U256, lemma_u256_round_trip};
use crate::types::{Address, ChainId, TxHash, B256};
use crate::crypto::{sha256, sha256_of, recover_key, recovered_key_of};

verus! {

pub const TX_RAW_LEN: usize = 84;
pub const SIG_RAW_LEN: usize = 65;
pub const SIGNED_RAW_LEN: usize = 149;

/// Why a byte string could not be decoded.
#[derive(Clone, Debug, PartialEq, Eq)]
pub enum DecodeError {
    TooShortRawData(Vec<u8>),
    InvalidSignature(SignatureError),
}

#[derive(Clone, Copy, Debug, PartialEq, Eq, Structural)]
pub enum SignatureError {
    InvalidParity(u64),
}

/// Why a value could not be encoded.
#[derive(Clone, Copy, Debug, PartialEq, Eq, Structural)]
pub enum EncodeError {
    Invalid,
}

/// Why a signer could not be recovered.
#[derive(Clone, Copy, Debug, PartialEq, Eq, Structural)]
pub enum RecoveryError {
    RecoveryFromDigestError,
}

/// A value transfer.
#[derive(Clone, Copy, Debug, PartialEq, Eq)]
pub struct Transaction {
    pub chain_id: ChainId,
    pub nonce: u64,
    pub to: Address,
    pub fee: u128,
    pub value: U256,
}

/// The canonical 84-byte encoding of a transaction.
pub open spec fn tx_bytes(t: Transaction) -> Seq<u8> {
    be_bytes(t.chain_id as nat, 8) + be_bytes(t.nonce as nat, 8) + t.to.0@ + be_bytes(t.fee as nat, 16)
        + t.value.bytes()
}

/// Two transactions with the same fields.
pub open spec fn same_tx(a: Transaction, b: Transaction) -> bool {
    &&& a.chain_id == b.chain_id
    &&& a.nonce == b.nonce
    &&& a.to.0@ == b.to.0@
    &&& a.fee == b.fee
    &&& a.value == b.value
}

/// The signing hash: SHA-256 over the canonical encoding.
pub open spec fn signing_hash(t: Transaction) -> Seq<u8> {
    sha256_of(tx_bytes(t))
}

/// Copies 20 bytes at `start` into an address.
pub fn read_address(buf: &[u8], start: usize) -> (r: Address)
    requires
        start + 20 <= buf@.len(),
    ensures
        r.0@ == buf@.subrange(start as int, start + 20),
{
    let len = buf.len();
    let mut arr = [0u8; 20];
    let mut i: usize = 0;
    while i < 20
        invariant
            len == buf@.len(),
            i <= 20,
            start + 20 <= buf@.len(),
            forall|j: int| 0 <= j < i ==> arr@[j] == buf@[start + j],
        decreases 20 - i,
    {
        arr[i] = buf[start + i];
        i = i + 1;
    }
    assert(arr@ =~= buf@.subrange(start as int, start + 20));
    Address(arr)
}

/// Copies 32 bytes at `start` into a digest.
pub fn read_b256(buf: &[u8], start: usize) -> (r: B256)
    requires
        start + 32 <= buf@.len(),
    ensures
        r.0@ == buf@.subrange(start as int, start + 32),
{
    let len = buf.len();
    let mut arr = [0u8; 32];
    let mut i: usize = 0;
    while i < 32
        invariant
            len == buf@.len(),
            i <= 32,
            start + 32 <= buf@.len(),
            forall|j: int| 0 <= j < i ==> arr@[j] == buf@[start + j],
        decreases 32 - i,
    {
        arr[i] = buf[start + i];
        i = i + 1;
    }
    assert(arr@ =~= buf@.subrange(start as int, start + 32));
    B256(arr)
}

/// Appends a byte string.
pub fn put_bytes(out: &mut Vec<u8>, data: &[u8])
    ensures
        final(out)@ == old(out)@ + data@,
{
    let mut i: usize = 0;
    while i < data.len()
        invariant
            i <= data@.len(),
            out@ == old(out)@ + data@.subrange(0, i as int),
        decreases data@.len() - i,
    {
        out.push(data[i]);
        i = i + 1;
        assert(data@.subrange(0, i as int) =~= data@.subrange(0, i - 1).push(data@[i - 1]));
    }
    assert(data@.subrange(0, i as int) =~= data@);
}

/// A fresh copy of a byte string.
pub fn copy_bytes(data: &[u8]) -> (r: Vec<u8>)
    ensures
        r@ == data@,
{
    let mut out: Vec<u8> = Vec::new();
    put_bytes(&mut out, data);
    assert(out@ =~= data@);
    out
}

/// Reads an 8-byte big-endian number.
pub fn get_u64(buf: &[u8], start: usize) -> (r: u64)
    requires
        start + 8 <= buf@.len(),
    ensures
        r as nat == be_value(buf@.subrange(start as int, start + 8)),
{
    let v = get_be(buf, start, 8);
    proof {
        lemma_be_value_bound(buf@.subrange(start as int, start + 8));
        lemma_pow256_values();
    }
    v as u64
}

impl Transaction {
    pub fn raw_len() -> (r: usize)
        ensures
            r == 84,
    {
        84
    }

    /// The canonical encoding.
    pub fn encode(&self) -> (r: Vec<u8>)
        ensures
            r@ == tx_bytes(*self),
    {
        let mut out: Vec<u8> = Vec::new();
        put_be(&mut out, self.chain_id as u128, 8);
        put_be(&mut out, self.nonce as u128, 8);
        put_bytes(&mut out, &self.to.0);
        put_be(&mut out, self.fee, 16);
        self.value.to_be_bytes(&mut out);
        assert(out@ =~= tx_bytes(*self));
        out
    }

    /// The signing hash.
    pub fn encode_for_signing(&self) -> (r: TxHash)
        ensures
            r.0.0@ == signing_hash(*self),
    {
        let raw = self.encode();
        TxHash(B256(sha256(raw.as_slice())))
    }

    /// Reads a transaction from the first 84 bytes.
    pub fn raw_decode(data: &[u8]) -> (r: Result<(Transaction, usize), DecodeError>)
        ensures
            data@.len() < 84 ==> (r matches Err(DecodeError::TooShortRawData(v)) && v@ == data@),
            data@.len() >= 84 ==> r is Ok && r->Ok_0.1 == 84 && decoded_tx(data@.subrange(0, 84), r->Ok_0.0),
    {
        if data.len() < TX_RAW_LEN {
            return Err(DecodeError::TooShortRawData(copy_bytes(data)));
        }
        Ok((Transaction::decode_at(data, 0), 84))
    }

    /// Reads a transaction from 84 bytes at `start`.
    pub fn decode_at(data: &[u8], start: usize) -> (r: Transaction)
        requires
            start + 84 <= data@.len(),
        ensures
            decoded_tx(data@.subrange(start as int, start + 84), r),
    {
        let len = data.len();
        let chain_id = get_u64(data, start);
        let nonce = get_u64(data, start + 8);
        let to = read_address(data, start + 16);
        let fee = get_be(data, start + 36, 16);
        let value = U256::from_be_bytes(data, start + 52);
        let ghost w = data@.subrange(start as int, start + 84);
        assert(w.subrange(0, 8) =~= data@.subrange(start as int, start + 8));
        assert(w.subrange(8, 16) =~= data@.subrange(start + 8, start + 16));
        assert(w.subrange(16, 36) =~= data@.subrange(start + 16, start + 36));
        assert(w.subrange(36, 52) =~= data@.subrange(start + 36, start + 52));
        assert(w.subrange(52, 68) =~= data@.subrange(start + 52, start + 68));
        assert(w.subrange(68, 84) =~= data@.subrange(start + 68, start + 84));
        Transaction { chain_id, nonce, to, fee, value }
    }

    pub fn into_signed(self, signature: Signature) -> (r: SignedTransaction)
        ensures
            r.tx == self,
            r.signature == signature,
            r.hash.0.0@ == signing_hash(self),
    {
        let hash = self.encode_for_signing();
        SignedTransaction { tx: self, signature, hash }
    }
}

/// What `raw_decode` reads at the front of `data`.
pub open spec fn decoded_tx(data: Seq<u8>, t: Transaction) -> bool {
    &&& t.chain_id as nat == be_value(data.subrange(0, 8))
    &&& t.nonce as nat == be_value(data.subrange(8, 16))
    &&& t.to.0@ == data.subrange(16, 36)
    &&& t.fee as nat == be_value(data.subrange(36, 52))
    &&& t.value.hi as nat == be_value(data.subrange(52, 68))
    &&& t.value.lo as nat == be_value(data.subrange(68, 84))
}

pub proof fn lemma_tx_bytes_len(t: Transaction)
    ensures
        tx_bytes(t).len() == 84,
{
    lemma_be_bytes_len(t.chain_id as nat, 8);
    lemma_be_bytes_len(t.nonce as nat, 8);
    lemma_be_bytes_len(t.fee as nat, 16);
    lemma_u256_round_trip(t.value);
}

/// An encoding decodes to the transaction it encodes.
pub proof fn lemma_tx_decode_encode(t: Transaction, u: Transaction)
    requires
        decoded_tx(tx_bytes(t), u),
    ensures
        same_tx(t, u),
        tx_bytes(t).len() == 84,
{
    let e = tx_bytes(t);
    lemma_pow256_values();
    lemma_be_round_trip(t.chain_id as nat, 8);
    lemma_be_round_trip(t.nonce as nat, 8);
    lemma_be_round_trip(t.fee as nat, 16);
    lemma_u256_round_trip(t.value);
    let vb = t.value.bytes();
    assert(e.subrange(0, 8) =~= be_bytes(t.chain_id as nat, 8));
    assert(e.subrange(8, 16) =~= be_bytes(t.nonce as nat, 8));
    assert(e.subrange(16, 36) =~= t.to.0@);
    assert(e.subrange(36, 52) =~= be_bytes(t.fee as nat, 16));
    assert(e.subrange(52, 68) =~= vb.subrange(0, 16));
    assert(e.subrange(68, 84) =~= vb.subrange(16, 32));
}

/// An ECDSA signature over secp256k1 with its recovery parity.
#[derive(Clone, Copy, Debug, PartialEq, Eq, Structural)]
pub struct Signature {
    pub y_parity: bool,
    pub r: U256,
    pub s: U256,
}

/// The 65-byte encoding `r || s || parity`.
pub open spec fn sig_bytes(s: Signature) -> Seq<u8> {
    s.r.bytes() + s.s.bytes() + seq![if s.y_parity { 1u8 } else { 0u8 }]
}

impl Signature {
    pub fn y_parity(&self) -> (r: bool)
        ensures
            r == self.y_parity,
    {
        self.y_parity
    }

    pub fn raw_len() -> (r: usize)
        ensures
            r == 65,
    {
        65
    }

    /// The 65-byte encoding.
    pub fn as_bytes(&self) -> (r: Vec<u8>)
        ensures
            r@ == sig_bytes(*self),
    {
        let mut out: Vec<u8> = Vec::new();
        self.r.to_be_bytes(&mut out);
        self.s.to_be_bytes(&mut out);
        out.push(if self.y_parity { 1u8 } else { 0u8 });
        assert(out@ =~= sig_bytes(*self));
        out
    }

    /// `r || s`, the part the curve arithmetic reads.
    pub fn rs_bytes(&self) -> (r: [u8; 64])
        ensures
            r@ == self.r.bytes() + self.s.bytes(),
    {
        let v = self.as_bytes();
        proof {
            lemma_u256_round_trip(self.r);
            lemma_u256_round_trip(self.s);
        }
        let mut arr = [0u8; 64];
        let mut i: usize = 0;
        while i < 64
            invariant
                i <= 64,
                v@ == sig_bytes(*self),
                v@.len() == 65,
                forall|j: int| 0 <= j < i ==> arr@[j] == v@[j],
            decreases 64 - i,
        {
            arr[i] = v[i];
            i = i + 1;
        }
        proof {
            lemma_u256_round_trip(self.r);
            lemma_u256_round_trip(self.s);
        }
        assert(arr@ =~= self.r.bytes() + self.s.bytes());
        arr
    }

    /// Reads `r || s` from the first 64 bytes, with a given parity.
    pub fn from_bytes_and_parity(bytes: &[u8], parity: bool) -> (r: Signature)
        requires
            bytes@.len() >= 64,
        ensures
            r.y_parity == parity,
            r.r.hi as nat == be_value(bytes@.subrange(0, 16)),
            r.r.lo as nat == be_value(bytes@.subrange(16, 32)),
            r.s.hi as nat == be_value(bytes@.subrange(32, 48)),
            r.s.lo as nat == be_value(bytes@.subrange(48, 64)),
    {
        let sr = U256::from_be_bytes(bytes, 0);
        let ss = U256::from_be_bytes(bytes, 32);
        Signature { y_parity: parity, r: sr, s: ss }
    }

    /// Reads `r || s || parity`; the parity byte must be 0 or 1.
    pub fn raw_decode(bytes: &[u8], start: usize) -> (r: Result<Signature, DecodeError>)
        requires
            start + 65 <= bytes@.len(),
        ensures
            bytes@[start + 64] > 1 ==> r == Err::<Signature, DecodeError>(
                DecodeError::InvalidSignature(SignatureError::InvalidParity(bytes@[start + 64] as u64)),
            ),
            bytes@[start + 64] <= 1 ==> r is Ok && decoded_sig(bytes@.subrange(start as int, start + 65), r->Ok_0),
    {
        let len = bytes.len();
        let v = bytes[start + 64];
        if v > 1 {
            return Err(DecodeError::InvalidSignature(SignatureError::InvalidParity(v as u64)));
        }
        let sr = U256::from_be_bytes(bytes, start);
        let ss = U256::from_be_bytes(bytes, start + 32);
        let ghost w = bytes@.subrange(start as int, start + 65);
        assert(w.subrange(0, 16) =~= bytes@.subrange(start as int, start + 16));
        assert(w.subrange(16, 32) =~= bytes@.subrange(start + 16, start + 32));
        assert(w.subrange(32, 48) =~= bytes@.subrange(start + 32, start + 48));
        assert(w.subrange(48, 64) =~= bytes@.subrange(start + 48, start + 64));
        Ok(Signature { y_parity: v == 1, r: sr, s: ss })
    }
}

/// What `raw_decode` reads from 65 bytes.
pub open spec fn decoded_sig(w: Seq<u8>, s: Signature) -> bool {
    &&& s.r.hi as nat == be_value(w.subrange(0, 16))
    &&& s.r.lo as nat == be_value(w.subrange(16, 32))
    &&& s.s.hi as nat == be_value(w.subrange(32, 48))
    &&& s.s.lo as nat == be_value(w.subrange(48, 64))
    &&& s.y_parity == (w[64] == 1)
}

/// Decoding a signature's encoding gives it back.
pub proof fn lemma_sig_decode_encode(s: Signature, t: Signature)
    requires
        decoded_sig(sig_bytes(s), t),
    ensures
        t == s,
        sig_bytes(s).len() == 65,
{
    let e = sig_bytes(s);
    lemma_u256_round_trip(s.r);
    lemma_u256_round_trip(s.s);
    assert(e.subrange(0, 16) =~= s.r.bytes().subrange(0, 16));
    assert(e.subrange(16, 32) =~= s.r.bytes().subrange(16, 32));
    assert(e.subrange(32, 48) =~= s.s.bytes().subrange(0, 16));
    assert(e.subrange(48, 64) =~= s.s.bytes().subrange(16, 32));
}

/// A transaction with its signature and signing hash.
#[derive(Clone, Copy, Debug, PartialEq, Eq)]
pub struct SignedTransaction {
    pub tx: Transaction,
    pub signature: Signature,
    pub hash: TxHash,
}

/// The 149-byte encoding: transaction, then signature.
pub open spec fn signed_bytes(s: SignedTransaction) -> Seq<u8> {
    tx_bytes(s.tx) + sig_bytes(s.signature)
}

/// The signer that recovery yields for a signature over a signing hash: the
/// last 20 bytes of the recovered uncompressed key.
pub open spec fn signer_of(hash: Seq<u8>, sig: Signature) -> Option<Seq<u8>> {
    match recovered_key_of(sha256_of(hash), sig.r.bytes() + sig.s.bytes(), sig.y_parity) {
        Some(key) => Some(key.subrange(key.len() - 20, key.len() as int)),
        None => None,
    }
}

impl SignedTransaction {
    pub fn transaction(&self) -> (r: &Transaction)
        ensures
            r == &self.tx,
    {
        &self.tx
    }

    pub fn new(tx: Transaction, signature: Signature, hash: TxHash) -> (r: SignedTransaction)
        ensures
            r.tx == tx,
            r.signature == signature,
            r.hash == hash,
    {
        SignedTransaction { tx, signature, hash }
    }

    /// The 149-byte encoding.
    pub fn encode(&self) -> (r: Vec<u8>)
        ensures
            r@ == signed_bytes(*self),
    {
        let mut out = self.tx.encode();
        let sig = self.signature.as_bytes();
        put_bytes(&mut out, sig.as_slice());
        out
    }

    /// Reads a signed transaction from the first 149 bytes; the hash is
    /// computed afresh from the transaction. Returns the input's length too.
    pub fn decode(raw: &[u8]) -> (r: Result<(SignedTransaction, usize), DecodeError>)
        ensures
            raw@.len() < 149 ==> (r matches Err(DecodeError::TooShortRawData(v)) && v@ == raw@),
            raw@.len() >= 149 && raw@[148] > 1 ==> r == Err::<(SignedTransaction, usize), DecodeError>(
                DecodeError::InvalidSignature(SignatureError::InvalidParity(raw@[148] as u64)),
            ),
            raw@.len() >= 149 && raw@[148] <= 1 ==> r is Ok && r->Ok_0.1 == raw@.len() && decoded_signed(
                raw@.subrange(0, 149),
                r->Ok_0.0,
            ),
    {
        let size = raw.len();
        if size < SIGNED_RAW_LEN {
            return Err(DecodeError::TooShortRawData(copy_bytes(raw)));
        }
        match SignedTransaction::decode_at(raw, 0) {
            Ok(signed) => Ok((signed, size)),
            Err(e) => Err(e),
        }
    }

    /// Reads a signed transaction from 149 bytes at `start`.
    pub fn decode_at(raw: &[u8], start: usize) -> (r: Result<SignedTransaction, DecodeError>)
        requires
            start + 149 <= raw@.len(),
        ensures
            raw@[start + 148] > 1 ==> r == Err::<SignedTransaction, DecodeError>(
                DecodeError::InvalidSignature(SignatureError::InvalidParity(raw@[start + 148] as u64)),
            ),
            raw@[start + 148] <= 1 ==> r is Ok && decoded_signed(
                raw@.subrange(start as int, start + 149),
                r->Ok_0,
            ),
    {
        let len = raw.len();
        let tx = Transaction::decode_at(raw, start);
        let signature = match Signature::raw_decode(raw, start + 84) {
            Ok(sig) => sig,
            Err(e) => return Err(e),
        };
        let ghost w = raw@.subrange(start as int, start + 149);
        assert(w.subrange(0, 84) =~= raw@.subrange(start as int, start + 84));
        assert(w.subrange(84, 149) =~= raw@.subrange(start + 84, start + 149));
        Ok(tx.into_signed(signature))
    }

    /// The address whose key made the signature.
    pub fn recover_signer(&self) -> (r: Result<Address, RecoveryError>)
        ensures
            signer_of(self.hash.0.0@, self.signature) is None ==> r == Err::<Address, RecoveryError>(
                RecoveryError::RecoveryFromDigestError,
            ),
            signer_of(self.hash.0.0@, self.signature) is Some ==> r is Ok && r->Ok_0.0@ == signer_of(
                self.hash.0.0@,
                self.signature,
            )->0,
    {
        let prehash = sha256(&self.hash.0.0);
        let rs = self.signature.rs_bytes();
        match recover_key(&prehash, &rs, self.signature.y_parity) {
            None => Err(RecoveryError::RecoveryFromDigestError),
            Some(key) => {
                let addr = read_address(key.as_slice(), 45);
                assert(key@.subrange(45, 65) == key@.subrange(key@.len() - 20, key@.len() as int));
                Ok(addr)
            }
        }
    }

    pub fn into_recovered(self) -> (r: Result<Recovered, RecoveryError>)
        ensures
            signer_of(self.hash.0.0@, self.signature) is None ==> r == Err::<Recovered, RecoveryError>(
                RecoveryError::RecoveryFromDigestError,
            ),
            signer_of(self.hash.0.0@, self.signature) is Some ==> r is Ok && r->Ok_0.tx == self
                && r->Ok_0.signer.0@ == signer_of(self.hash.0.0@, self.signature)->0,
    {
        match self.recover_signer() {
            Ok(signer) => Ok(Recovered { tx: self, signer }),
            Err(e) => Err(e),
        }
    }
}

/// What `decode` reads from 149 bytes.
pub open spec fn decoded_signed(raw: Seq<u8>, s: SignedTransaction) -> bool {
    &&& decoded_tx(raw.subrange(0, 84), s.tx)
    &&& decoded_sig(raw.subrange(84, 149), s.signature)
    &&& s.hash.0.0@ == signing_hash(s.tx)
}

/// Decoding a signed transaction's encoding gives back its transaction and
/// signature, and a hash that is the signing hash of that transaction; so
/// recovery on the decoded value yields the signer that it yields on a value
/// signed over its signing hash.
pub proof fn lemma_signed_round_trip(s: SignedTransaction, d: SignedTransaction)
    requires
        decoded_signed(signed_bytes(s), d),
    ensures
        same_tx(d.tx, s.tx),
        d.signature == s.signature,
        signed_bytes(s).len() == 149,
        s.hash.0.0@ == signing_hash(s.tx) ==> d.hash.0.0@ == s.hash.0.0@ && signer_of(d.hash.0.0@, d.signature)
            == signer_of(s.hash.0.0@, s.signature),
{
    let e = signed_bytes(s);
    lemma_tx_bytes_len(s.tx);
    assert(e.subrange(0, 84) =~= tx_bytes(s.tx));
    lemma_tx_decode_encode(s.tx, d.tx);
    lemma_u256_round_trip(s.signature.r);
    lemma_u256_round_trip(s.signature.s);
    assert(e.subrange(84, 149) =~= sig_bytes(s.signature));
    lemma_sig_decode_encode(s.signature, d.signature);
    assert(tx_bytes(d.tx) =~= tx_bytes(s.tx));
}

/// A signed transaction with the signer recovered from it.
#[derive(Clone, Copy, Debug, PartialEq, Eq)]
pub struct Recovered {
    pub tx: SignedTransaction,
    pub signer: Address,
}

impl Recovered {
    /// Pairs a signed transaction with a signer already known.
    pub fn new_unchecked(tx: SignedTransaction, signer: Address) -> (r: Recovered)
        ensures
            r.tx == tx,
            r.signer == signer,
    {
        Recovered { tx, signer }
    }

    pub fn tx(&self) -> (r: &SignedTransaction)
        ensures
            r == &self.tx,
    {
        &self.tx
    }

    pub fn signer(&self) -> (r: Address)
        ensures
            r == self.signer,
    {
        self.signer
    }

    pub fn hash(&self) -> (r: TxHash)
        ensures
            r == self.tx.hash,
    {
        self.tx.hash
    }

    pub fn nonce(&self) -> (r: u64)
        ensures
            r == self.tx.tx.nonce,
    {
        self.tx.tx.nonce
    }

    pub fn fee(&self) -> (r: u128)
        ensures
            r == self.tx.tx.fee,
    {
        self.tx.tx.fee
    }

    pub fn value(&self) -> (r: U256)
        ensures
            r == self.tx.tx.value,
    {
        self.tx.tx.value
    }

    pub fn to(&self) -> (r: Address)
        ensures
            r == self.tx.tx.to,
    {
        self.tx.tx.to
    }
}

/// The fields that every form of a transaction exposes.
pub trait Tx {
    fn chain_id(&self) -> ChainId;

    fn nonce(&self) -> u64;

    fn to(&self) -> Address;

    fn fee(&self) -> u128;

    fn value(&self) -> U256;
}

impl Tx for Transaction {
    fn chain_id(&self) -> ChainId {
        self.chain_id
    }

    fn nonce(&self) -> u64 {
        self.nonce
    }

    fn to(&self) -> Address {
        self.to
    }

    fn fee(&self) -> u128 {
        self.fee
    }

    fn value(&self) -> U256 {
        self.value
    }
}

impl Tx for SignedTransaction {
    fn chain_id(&self) -> ChainId {
        self.tx.chain_id
    }

    fn nonce(&self) -> u64 {
        self.tx.nonce
    }

    fn to(&self) -> Address {
        self.tx.to
    }

    fn fee(&self) -> u128 {
        self.tx.fee
    }

    fn value(&self) -> U256 {
        self.tx.value
    }
}

} // verus!
