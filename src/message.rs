//! Network messages and their wire framing:
//! `type(1) || version(1) || payload length(8, big-endian) || payload`.
use vstd::prelude::*;
use crate::bytes::{be_bytes, be_value, put_be, get_be, lemma_be_value_bound, lemma_pow256_values, lemma_be_round_trip, pow256};
use crate::types::BlockHash;
use crate::transaction::{
    SignedTransaction, DecodeError, put_bytes, copy_bytes, get_u64, read_b256, signed_bytes, decoded_signed,
    SignatureError, signing_hash, lemma_signed_round_trip,
};
use crate::block::{Block, block_bytes, decoded_block, body_parity_ok, same_block, same_signed, body_hashes_ok};

verus! {

pub const PROTOCOL_VERSION: u8 = 0;

/// The messages of the network manager. Those without a wire tag are
/// internal and never leave the process.
#[derive(Debug)]
pub enum NetworkHandleMessage {
    PeerConnectionTest { ip: [u8; 4], port: u16 },
    NewTransaction(SignedTransaction),
    NewPayload(Block),
    BroadcastBlock(Block),
    RequestDataResponse(u64, [u8; 4], u16),
    RequestData(u64),
    RequestDataResponseFinished,
    HandShake(u64, [u8; 4], u16),
    Hello(u64, [u8; 4], u16),
    RemovePeer(u64),
    RemoveUnresponsivePeer(u64),
    BroadcastTransaction(SignedTransaction),
    ReorgChainData,
    Ping,
    Pong,
    RequestChainData([u8; 4], u16),
    RespondChainDataResult(u64, Vec<BlockHash>),
}

/// The wire tag of a message, if it has one.
pub open spec fn msg_tag(m: NetworkHandleMessage) -> Option<u8> {
    match m {
        NetworkHandleMessage::PeerConnectionTest { .. } => Some(0x00u8),
        NetworkHandleMessage::NewTransaction(_) => Some(0x01u8),
        NetworkHandleMessage::NewPayload(_) => Some(0x02u8),
        NetworkHandleMessage::RequestDataResponse(..) => Some(0x04u8),
        NetworkHandleMessage::RequestData(_) => Some(0x05u8),
        NetworkHandleMessage::RequestDataResponseFinished => Some(0x06u8),
        NetworkHandleMessage::HandShake(..) => Some(0x07u8),
        NetworkHandleMessage::Hello(..) => Some(0x08u8),
        NetworkHandleMessage::RequestChainData(..) => Some(0x12u8),
        NetworkHandleMessage::RespondChainDataResult(..) => Some(0x13u8),
        _ => None,
    }
}

/// The concatenated bytes of a list of hashes.
pub open spec fn hashes_bytes(s: Seq<BlockHash>) -> Seq<u8>
    decreases s.len(),
{
    if s.len() == 0 {
        Seq::empty()
    } else {
        hashes_bytes(s.drop_last()) + s.last().0.0@
    }
}

/// The payload of a message with a wire tag.
pub open spec fn msg_payload(m: NetworkHandleMessage) -> Seq<u8> {
    match m {
        NetworkHandleMessage::NewTransaction(s) => signed_bytes(s),
        NetworkHandleMessage::NewPayload(b) => block_bytes(b),
        NetworkHandleMessage::RequestDataResponse(from, ip, port) => be_bytes(from as nat, 8) + ip@ + be_bytes(
            port as nat,
            2,
        ),
        NetworkHandleMessage::RequestData(from) => be_bytes(from as nat, 8),
        NetworkHandleMessage::HandShake(pid, ip, port) => be_bytes(pid as nat, 8) + ip@ + be_bytes(port as nat, 2),
        NetworkHandleMessage::Hello(pid, ip, port) => be_bytes(pid as nat, 8) + ip@ + be_bytes(port as nat, 2),
        NetworkHandleMessage::RequestChainData(ip, port) => ip@ + be_bytes(port as nat, 2),
        NetworkHandleMessage::RespondChainDataResult(len, hashes) => be_bytes(len as nat, 8) + hashes_bytes(hashes@),
        _ => Seq::empty(),
    }
}

/// A whole frame.
pub open spec fn frame(tag: u8, payload: Seq<u8>) -> Seq<u8> {
    seq![tag, 0u8] + be_bytes(payload.len(), 8) + payload
}

/// Appends `type || version || length || payload`.
fn put_frame(tag: u8, payload: &Vec<u8>) -> (r: Vec<u8>)
    ensures
        r@ == frame(tag, payload@),
{
    let mut raw: Vec<u8> = Vec::new();
    raw.push(tag);
    raw.push(PROTOCOL_VERSION);
    put_be(&mut raw, payload.len() as u128, 8);
    put_bytes(&mut raw, payload.as_slice());
    assert(raw@ =~= frame(tag, payload@));
    raw
}

/// Reads 4 bytes at `start`.
fn read_ip(buf: &[u8], start: usize) -> (r: [u8; 4])
    requires
        start + 4 <= buf@.len(),
    ensures
        r@ == buf@.subrange(start as int, start + 4),
{
    let len = buf.len();
    let r = [buf[start], buf[start + 1], buf[start + 2], buf[start + 3]];
    assert(r@ =~= buf@.subrange(start as int, start + 4));
    r
}

/// Reads a 2-byte big-endian port at `start`.
fn read_port(buf: &[u8], start: usize) -> (r: u16)
    requires
        start + 2 <= buf@.len(),
    ensures
        r as nat == be_value(buf@.subrange(start as int, start + 2)),
{
    let v = get_be(buf, start, 2);
    proof {
        lemma_be_value_bound(buf@.subrange(start as int, start + 2));
        lemma_pow256_values();
    }
    v as u16
}

/// `pid(8) || ip(4) || port(2)`, the payload of three message kinds.
fn addr_payload(pid: u64, ip: &[u8; 4], port: u16) -> (r: Vec<u8>)
    ensures
        r@ == be_bytes(pid as nat, 8) + ip@ + be_bytes(port as nat, 2),
{
    let mut data: Vec<u8> = Vec::new();
    put_be(&mut data, pid as u128, 8);
    put_bytes(&mut data, ip);
    put_be(&mut data, port as u128, 2);
    data
}

/// What `decode` returns for a byte string.
pub open spec fn decode_result(
    buf: Seq<u8>,
    ip: [u8; 4],
    port: u16,
    r: Result<Option<NetworkHandleMessage>, DecodeError>,
) -> bool {
    if buf.len() < 10 || buf.len() - 10 < be_value(buf.subrange(2, 10)) || buf[1] != 0 {
        r == Ok::<Option<NetworkHandleMessage>, DecodeError>(None)
    } else {
        decoded_payload(buf[0], buf.subrange(10, 10 + be_value(buf.subrange(2, 10)) as int), buf, ip, port, r)
    }
}

/// What `decode` reads from a frame's payload, by tag.
pub open spec fn decoded_payload(
    tag: u8,
    p: Seq<u8>,
    buf: Seq<u8>,
    ip: [u8; 4],
    port: u16,
    r: Result<Option<NetworkHandleMessage>, DecodeError>,
) -> bool {
    if tag == 0x00 {
        r == Ok::<Option<NetworkHandleMessage>, DecodeError>(Some(NetworkHandleMessage::PeerConnectionTest { ip, port }))
    } else if tag == 0x01 {
        if p.len() < 149 {
            r is Err
        } else if p[148] > 1 {
            r == Err::<Option<NetworkHandleMessage>, DecodeError>(
                DecodeError::InvalidSignature(SignatureError::InvalidParity(p[148] as u64)),
            )
        } else {
            r matches Ok(Some(NetworkHandleMessage::NewTransaction(s))) && decoded_signed(p.subrange(0, 149), s)
        }
    } else if tag == 0x02 {
        if p.len() < 176 || !body_parity_ok(p) {
            r is Err
        } else {
            r matches Ok(Some(NetworkHandleMessage::NewPayload(b))) && decoded_block(p, b)
        }
    } else if tag == 0x04 || tag == 0x07 || tag == 0x08 {
        if p.len() < 14 {
            r is Err
        } else {
            let n = be_value(p.subrange(0, 8));
            let a = p.subrange(8, 12);
            let q = be_value(p.subrange(12, 14));
            match r {
                Ok(Some(NetworkHandleMessage::RequestDataResponse(x, i, o))) => tag == 0x04 && x == n && i@ == a && o == q,
                Ok(Some(NetworkHandleMessage::HandShake(x, i, o))) => tag == 0x07 && x == n && i@ == a && o == q,
                Ok(Some(NetworkHandleMessage::Hello(x, i, o))) => tag == 0x08 && x == n && i@ == a && o == q,
                _ => false,
            }
        }
    } else if tag == 0x05 {
        if p.len() < 8 {
            r is Err
        } else {
            r matches Ok(Some(NetworkHandleMessage::RequestData(x))) && x == be_value(p.subrange(0, 8))
        }
    } else if tag == 0x06 {
        r matches Ok(Some(NetworkHandleMessage::RequestDataResponseFinished))
    } else if tag == 0x12 {
        if p.len() < 6 {
            r is Err
        } else {
            r matches Ok(Some(NetworkHandleMessage::RequestChainData(i, o))) && i@ == p.subrange(0, 4) && o == be_value(
                p.subrange(4, 6),
            )
        }
    } else if tag == 0x13 {
        if p.len() < 8 || p.len() < 8 + 32 * be_value(p.subrange(0, 8)) {
            r is Err
        } else {
            r matches Ok(Some(NetworkHandleMessage::RespondChainDataResult(n, hs))) && n == be_value(p.subrange(0, 8))
                && hs@.len() == n && forall|k: int| 0 <= k < n ==> (#[trigger] hs@[k]).0.0@ == p.subrange(8 + 32 * k, 8 + 32 * k + 32)
        }
    } else {
        r == Ok::<Option<NetworkHandleMessage>, DecodeError>(None)
    }
}

impl NetworkHandleMessage {
    /// The frame of a message with a wire tag; nothing for an internal one.
    pub fn encode(&self) -> (r: Vec<u8>)
        ensures
            msg_tag(*self) is None ==> r@.len() == 0,
            msg_tag(*self) is Some ==> r@ == frame(msg_tag(*self)->0, msg_payload(*self)),
    {
        match self {
            NetworkHandleMessage::PeerConnectionTest { .. } => put_frame(0x00, &Vec::new()),
            NetworkHandleMessage::NewTransaction(signed) => put_frame(0x01, &signed.encode()),
            NetworkHandleMessage::NewPayload(block) => put_frame(0x02, &block.encode_ref()),
            NetworkHandleMessage::RequestDataResponse(from, ip, port) => put_frame(0x04, &addr_payload(*from, ip, *port)),
            NetworkHandleMessage::RequestData(from) => {
                let mut data: Vec<u8> = Vec::new();
                put_be(&mut data, *from as u128, 8);
                put_frame(0x05, &data)
            },
            NetworkHandleMessage::RequestDataResponseFinished => put_frame(0x06, &Vec::new()),
            NetworkHandleMessage::HandShake(pid, ip, port) => put_frame(0x07, &addr_payload(*pid, ip, *port)),
            NetworkHandleMessage::Hello(pid, ip, port) => put_frame(0x08, &addr_payload(*pid, ip, *port)),
            NetworkHandleMessage::RequestChainData(ip, port) => {
                let mut data: Vec<u8> = Vec::new();
                put_bytes(&mut data, ip);
                put_be(&mut data, *port as u128, 2);
                put_frame(0x12, &data)
            },
            NetworkHandleMessage::RespondChainDataResult(len, hashes) => {
                let mut data: Vec<u8> = Vec::new();
                put_be(&mut data, *len as u128, 8);
                let mut i: usize = 0;
                while i < hashes.len()
                    invariant
                        i <= hashes@.len(),
                        data@ == be_bytes(*len as nat, 8) + hashes_bytes(hashes@.subrange(0, i as int)),
                    decreases hashes@.len() - i,
                {
                    put_bytes(&mut data, &hashes[i].0.0);
                    i = i + 1;
                    assert(hashes@.subrange(0, i as int).drop_last() =~= hashes@.subrange(0, i - 1));
                    assert(data@ =~= be_bytes(*len as nat, 8) + hashes_bytes(hashes@.subrange(0, i as int)));
                }
                assert(hashes@.subrange(0, i as int) =~= hashes@);
                put_frame(0x13, &data)
            },
            _ => Vec::new(),
        }
    }

    /// Reads one frame from the front of `buf`; `ip` and `port` name the
    /// peer it came from. `Ok(None)` while the frame is incomplete, for a
    /// version other than 0 and for an unknown type.
    pub fn decode(buf: &[u8], ip: [u8; 4], port: u16) -> (r: Result<Option<NetworkHandleMessage>, DecodeError>)
        ensures
            decode_result(buf@, ip, port, r),
    {
        let len = buf.len();
        if len < 10 {
            return Ok(None);
        }
        let n = get_u64(buf, 2);
        if ((len - 10) as u64) < n {
            return Ok(None);
        }
        if buf[1] != PROTOCOL_VERSION {
            return Ok(None);
        }
        let n = n as usize;
        let mut payload: Vec<u8> = Vec::new();
        let mut i: usize = 0;
        while i < n
            invariant
                len == buf@.len(),
                10 + n <= len,
                i <= n,
                payload@ == buf@.subrange(10, 10 + i),
            decreases n - i,
        {
            payload.push(buf[10 + i]);
            i = i + 1;
            assert(payload@ =~= buf@.subrange(10, 10 + i));
        }
        let p = payload.as_slice();
        let tag = buf[0];
        if tag == 0x00 {
            Ok(Some(NetworkHandleMessage::PeerConnectionTest { ip, port }))
        } else if tag == 0x01 {
            match SignedTransaction::decode(p) {
                Ok((signed, _)) => Ok(Some(NetworkHandleMessage::NewTransaction(signed))),
                Err(e) => Err(e),
            }
        } else if tag == 0x02 {
            match Block::decode(p) {
                Ok(block) => Ok(Some(NetworkHandleMessage::NewPayload(block))),
                Err(e) => Err(e),
            }
        } else if tag == 0x04 || tag == 0x07 || tag == 0x08 {
            if n < 14 {
                return Err(DecodeError::TooShortRawData(copy_bytes(buf)));
            }
            let x = get_u64(p, 0);
            let a = read_ip(p, 8);
            let q = read_port(p, 12);
            if tag == 0x04 {
                Ok(Some(NetworkHandleMessage::RequestDataResponse(x, a, q)))
            } else if tag == 0x07 {
                Ok(Some(NetworkHandleMessage::HandShake(x, a, q)))
            } else {
                Ok(Some(NetworkHandleMessage::Hello(x, a, q)))
            }
        } else if tag == 0x05 {
            if n < 8 {
                return Err(DecodeError::TooShortRawData(copy_bytes(buf)));
            }
            Ok(Some(NetworkHandleMessage::RequestData(get_u64(p, 0))))
        } else if tag == 0x06 {
            Ok(Some(NetworkHandleMessage::RequestDataResponseFinished))
        } else if tag == 0x12 {
            if n < 6 {
                return Err(DecodeError::TooShortRawData(copy_bytes(buf)));
            }
            Ok(Some(NetworkHandleMessage::RequestChainData(read_ip(p, 0), read_port(p, 4))))
        } else if tag == 0x13 {
            if n < 8 {
                return Err(DecodeError::TooShortRawData(copy_bytes(buf)));
            }
            let count = get_u64(p, 0);
            if (((n - 8) / 32) as u64) < count {
                return Err(DecodeError::TooShortRawData(copy_bytes(buf)));
            }
            let mut hashes: Vec<BlockHash> = Vec::new();
            let mut k: u64 = 0;
            while k < count
                invariant
                    p@.len() == n,
                    count as nat == be_value(p@.subrange(0, 8)),
                    8 + 32 * count <= n,
                    k <= count,
                    hashes@.len() == k,
                    forall|j: int| 0 <= j < k ==> (#[trigger] hashes@[j]).0.0@ == p@.subrange(8 + 32 * j, 8 + 32 * j + 32),
                decreases count - k,
            {
                let start = 8 + 32 * (k as usize);
                hashes.push(BlockHash(read_b256(p, start)));
                k = k + 1;
            }
            Ok(Some(NetworkHandleMessage::RespondChainDataResult(count, hashes)))
        } else {
            Ok(None)
        }
    }
}

/// The length of the whole frame at the front of `buf`, once all of it has
/// arrived.
pub open spec fn complete_frame_len(buf: Seq<u8>) -> Option<nat> {
    if buf.len() >= 10 && buf.len() - 10 >= be_value(buf.subrange(2, 10)) {
        Some(10 + be_value(buf.subrange(2, 10)))
    } else {
        None
    }
}

/// Gathers bytes as they arrive and cuts them into whole frames: a frame may
/// span several reads, and one read may hold several frames.
pub struct FrameReader {
    pub buf: Vec<u8>,
}

impl FrameReader {
    pub fn new() -> (r: FrameReader)
        ensures
            r.buf@.len() == 0,
    {
        FrameReader { buf: Vec::new() }
    }

    /// Adds the bytes of one read.
    pub fn push(&mut self, data: &[u8])
        ensures
            final(self).buf@ == old(self).buf@ + data@,
    {
        put_bytes(&mut self.buf, data);
    }

    /// Takes out the first whole frame, if all of it has arrived.
    pub fn next_frame(&mut self) -> (r: Option<Vec<u8>>)
        ensures
            complete_frame_len(old(self).buf@) is None ==> r is None && final(self).buf@ == old(self).buf@,
            complete_frame_len(old(self).buf@) matches Some(n) ==> r is Some && r->0@ == old(self).buf@.subrange(0, n as int)
                && final(self).buf@ == old(self).buf@.subrange(n as int, old(self).buf@.len() as int),
    {
        let len = self.buf.len();
        if len < 10 {
            return None;
        }
        let n = get_u64(self.buf.as_slice(), 2);
        if ((len - 10) as u64) < n {
            return None;
        }
        let total = 10 + n as usize;
        let mut frame: Vec<u8> = Vec::new();
        let mut rest: Vec<u8> = Vec::new();
        let mut i: usize = 0;
        while i < len
            invariant
                len == self.buf@.len(),
                total <= len,
                i <= len,
                i <= total ==> frame@ == self.buf@.subrange(0, i as int) && rest@.len() == 0,
                i > total ==> frame@ == self.buf@.subrange(0, total as int) && rest@ == self.buf@.subrange(total as int, i as int),
            decreases len - i,
        {
            if i < total {
                frame.push(self.buf[i]);
            } else {
                rest.push(self.buf[i]);
            }
            i = i + 1;
            assert(i <= total ==> frame@ =~= self.buf@.subrange(0, i as int));
            assert(i > total ==> rest@ =~= self.buf@.subrange(total as int, i as int));
        }
        if total == len {
            assert(rest@ =~= self.buf@.subrange(total as int, len as int));
        }
        assert(frame@ =~= self.buf@.subrange(0, total as int));
        self.buf = rest;
        Some(frame)
    }
}

/// Two wire messages with the same fields.
pub open spec fn same_wire_message(a: NetworkHandleMessage, b: NetworkHandleMessage) -> bool {
    match (a, b) {
        (NetworkHandleMessage::NewTransaction(x), NetworkHandleMessage::NewTransaction(y)) => same_signed(x, y),
        (NetworkHandleMessage::NewPayload(x), NetworkHandleMessage::NewPayload(y)) => same_block(x, y),
        (NetworkHandleMessage::RequestDataResponse(f, i, p), NetworkHandleMessage::RequestDataResponse(g, j, q)) => f == g
            && i@ == j@ && p == q,
        (NetworkHandleMessage::RequestData(f), NetworkHandleMessage::RequestData(g)) => f == g,
        (NetworkHandleMessage::RequestDataResponseFinished, NetworkHandleMessage::RequestDataResponseFinished) => true,
        (NetworkHandleMessage::HandShake(f, i, p), NetworkHandleMessage::HandShake(g, j, q)) => f == g && i@ == j@ && p == q,
        (NetworkHandleMessage::Hello(f, i, p), NetworkHandleMessage::Hello(g, j, q)) => f == g && i@ == j@ && p == q,
        (NetworkHandleMessage::RequestChainData(i, p), NetworkHandleMessage::RequestChainData(j, q)) => i@ == j@ && p == q,
        (NetworkHandleMessage::RespondChainDataResult(n, hs), NetworkHandleMessage::RespondChainDataResult(k, gs)) => n == k
            && hs@.len() == gs@.len() && forall|i: int| 0 <= i < hs@.len() ==> (#[trigger] hs@[i]).0.0@ == gs@[i].0.0@,
        _ => false,
    }
}

/// The messages whose frames carry all of their fields: every tagged kind
/// but the peer probe (whose address the receiver fills in); transactions
/// must carry their own signing hashes, and a hash list its own length.
pub open spec fn round_trips(m: NetworkHandleMessage) -> bool {
    match m {
        NetworkHandleMessage::NewTransaction(s) => s.hash.0.0@ == signing_hash(s.tx),
        NetworkHandleMessage::NewPayload(b) => body_hashes_ok(b),
        NetworkHandleMessage::RequestDataResponse(..) => true,
        NetworkHandleMessage::RequestData(_) => true,
        NetworkHandleMessage::RequestDataResponseFinished => true,
        NetworkHandleMessage::HandShake(..) => true,
        NetworkHandleMessage::Hello(..) => true,
        NetworkHandleMessage::RequestChainData(..) => true,
        NetworkHandleMessage::RespondChainDataResult(n, hs) => n == hs@.len(),
        _ => false,
    }
}

/// The `k`-th 32 bytes of a hash list's encoding are the `k`-th hash.
pub proof fn lemma_hashes_chunk(s: Seq<BlockHash>, k: int)
    requires
        0 <= k < s.len(),
    ensures
        hashes_bytes(s).len() == 32 * s.len(),
        hashes_bytes(s).subrange(32 * k, 32 * k + 32) == s[k].0.0@,
    decreases s.len(),
{
    lemma_hashes_len(s);
    let t = s.drop_last();
    lemma_hashes_len(t);
    if k == s.len() - 1 {
        assert(hashes_bytes(s).subrange(32 * k, 32 * k + 32) =~= s[k].0.0@);
    } else {
        lemma_hashes_chunk(t, k);
        assert(hashes_bytes(s).subrange(32 * k, 32 * k + 32) =~= hashes_bytes(t).subrange(32 * k, 32 * k + 32));
    }
}

pub proof fn lemma_hashes_len(s: Seq<BlockHash>)
    ensures
        hashes_bytes(s).len() == 32 * s.len(),
    decreases s.len(),
{
    if s.len() > 0 {
        lemma_hashes_len(s.drop_last());
    }
}

proof fn lemma_addr_payload(pid: u64, ip: [u8; 4], port: u16)
    ensures
        ({
            let p = be_bytes(pid as nat, 8) + ip@ + be_bytes(port as nat, 2);
            &&& p.len() == 14
            &&& be_value(p.subrange(0, 8)) == pid
            &&& p.subrange(8, 12) == ip@
            &&& be_value(p.subrange(12, 14)) == port
        }),
{
    lemma_pow256_values();
    lemma_be_round_trip(pid as nat, 8);
    lemma_be_round_trip(port as nat, 2);
    let p = be_bytes(pid as nat, 8) + ip@ + be_bytes(port as nat, 2);
    assert(p.subrange(0, 8) =~= be_bytes(pid as nat, 8));
    assert(p.subrange(8, 12) =~= ip@);
    assert(p.subrange(12, 14) =~= be_bytes(port as nat, 2));
}

/// Decoding the frame of a wire message gives back the same message.
pub proof fn lemma_frame_round_trip(m: NetworkHandleMessage, ip: [u8; 4], port: u16, r: Result<Option<NetworkHandleMessage>, DecodeError>)
    requires
        round_trips(m),
        msg_payload(m).len() < pow256(8),
        decode_result(frame(msg_tag(m)->0, msg_payload(m)), ip, port, r),
    ensures
        r matches Ok(Some(d)) && same_wire_message(m, d),
{
    let p = msg_payload(m);
    let tag = msg_tag(m)->0;
    let f = frame(tag, p);
    lemma_pow256_values();
    match m {
        NetworkHandleMessage::NewTransaction(s) => {
            crate::block::lemma_signed_bytes_len(s);
        },
        NetworkHandleMessage::NewPayload(b) => {
            crate::block::lemma_block_round_trip(b, b);
        },
        NetworkHandleMessage::RequestDataResponse(x, i, o) => {
            lemma_addr_payload(x, i, o);
        },
        NetworkHandleMessage::HandShake(x, i, o) => {
            lemma_addr_payload(x, i, o);
        },
        NetworkHandleMessage::Hello(x, i, o) => {
            lemma_addr_payload(x, i, o);
        },
        NetworkHandleMessage::RequestData(x) => {
            lemma_be_round_trip(x as nat, 8);
            assert(p.subrange(0, 8) =~= p);
        },
        NetworkHandleMessage::RequestChainData(i, o) => {
            lemma_be_round_trip(o as nat, 2);
            assert(p.subrange(0, 4) =~= i@);
            assert(p.subrange(4, 6) =~= be_bytes(o as nat, 2));
        },
        NetworkHandleMessage::RespondChainDataResult(n, hs) => {
            lemma_be_round_trip(n as nat, 8);
            lemma_hashes_len(hs@);
            assert(p.subrange(0, 8) =~= be_bytes(n as nat, 8));
        },
        _ => {},
    }
    lemma_be_round_trip(p.len(), 8);
    assert(f.subrange(2, 10) =~= be_bytes(p.len(), 8));
    assert(f.subrange(10, 10 + p.len() as int) =~= p);
    match m {
        NetworkHandleMessage::NewTransaction(s) => {
            assert(p.subrange(0, 149) =~= p);
            match r {
                Ok(Some(NetworkHandleMessage::NewTransaction(d))) => {
                    lemma_signed_round_trip(s, d);
                },
                _ => {},
            }
        },
        NetworkHandleMessage::NewPayload(b) => {
            match r {
                Ok(Some(NetworkHandleMessage::NewPayload(d))) => {
                    crate::block::lemma_block_round_trip(b, d);
                },
                _ => {},
            }
        },
        NetworkHandleMessage::RespondChainDataResult(n, hs) => {
            match r {
                Ok(Some(NetworkHandleMessage::RespondChainDataResult(k, gs))) => {
                    assert forall|i: int| 0 <= i < hs@.len() implies (#[trigger] hs@[i]).0.0@ == gs@[i].0.0@ by {
                        lemma_hashes_chunk(hs@, i);
                        assert(p.subrange(8 + 32 * i, 8 + 32 * i + 32) =~= hashes_bytes(hs@).subrange(32 * i, 32 * i + 32));
                    }
                },
                _ => {},
            }
        },
        _ => {},
    }
}

} // verus!
