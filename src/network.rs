//! The network manager's decisions: from a message, received from a peer
//! or from the node itself, to the messages to send, the calls into the
//! pool and the chain store, and the peer table's changes.
use vstd::prelude::*;
use crate::message::NetworkHandleMessage;
use crate::peer::{Peer, PeerList, with_alive};
use crate::pool::TransactionOrigin;
use crate::txpool::Pool;
use crate::provider::{ProviderFactory, no_match_above};
use crate::consensus::ConsensusHandleMessage;
use crate::block::{Block, block_hash_of};
use crate::transaction::SignedTransaction;

verus! {

/// How long a probed peer has to answer, in seconds.
pub const PEER_DEADLINE_SECS: u64 = 10;

/// The node's own network settings.
#[derive(Clone, Copy, Debug, PartialEq, Eq)]
pub struct NetworkConfig {
    pub pid: u64,
    pub ip: [u8; 4],
    pub port: u16,
    pub boot_node: bool,
    pub max_peer_size: usize,
}

/// A message for the network manager: from a peer, by its id, or from the
/// node's own components.
#[derive(Debug)]
pub enum NetworkEvent {
    FromPeer(u64, NetworkHandleMessage),
    FromNode(NetworkHandleMessage),
}

/// What the network manager asks to be done.
#[derive(Debug)]
pub enum NetworkAction {
    /// Write a message to a peer.
    SendTo(u64, NetworkHandleMessage),
    /// Hand a message to the consensus engine.
    ToConsensus(ConsensusHandleMessage),
    /// Deliver `RemoveUnresponsivePeer(id)` after the answer deadline.
    RemoveLater(u64),
}

/// The outcome of an incoming connection.
#[derive(Debug)]
pub enum Admission {
    /// Admitted under this id; write "Ok", then this greeting.
    Accepted(u64, NetworkHandleMessage),
    /// Full: write this peer's address as a redirect and close.
    Redirect([u8; 4], u16),
    /// Full, with no peer to redirect to.
    Refused,
}

pub open spec fn sends_block(a: NetworkAction, q: u64, b: Block) -> bool {
    match a {
        NetworkAction::SendTo(p, NetworkHandleMessage::NewPayload(x)) => p == q && x.header == b.header && x.body@ == b.body@,
        _ => false,
    }
}

pub open spec fn sends_tx(a: NetworkAction, q: u64, s: SignedTransaction) -> bool {
    match a {
        NetworkAction::SendTo(p, NetworkHandleMessage::NewTransaction(x)) => p == q && x == s,
        _ => false,
    }
}

pub open spec fn sends(a: NetworkAction, q: u64, m: NetworkHandleMessage) -> bool {
    match a {
        NetworkAction::SendTo(p, x) => p == q && x == m,
        _ => false,
    }
}

/// A gossip of a transaction to a known peer other than its source.
pub open spec fn gossips(a: NetworkAction, peers: Seq<Peer>, from: u64, s: SignedTransaction) -> bool {
    match a {
        NetworkAction::SendTo(q, NetworkHandleMessage::NewTransaction(x)) => x == s && q != from && exists|i: int|
            0 <= i < peers.len() && (#[trigger] peers[i]).id == q,
        _ => false,
    }
}

/// The peer table after an address update for one id.
pub open spec fn addr_updated(before: Seq<Peer>, after: Seq<Peer>, id: u64, ip: [u8; 4], port: u16) -> bool {
    &&& after.len() == before.len()
    &&& forall|i: int| 0 <= i < after.len() ==> (#[trigger] after[i]) == if before[i].id == id {
        Peer { id: before[i].id, ip, port, alive: before[i].alive }
    } else {
        before[i]
    }
}

/// The peer table without one id.
pub open spec fn peer_removed(before: Seq<Peer>, after: Seq<Peer>, id: u64) -> bool {
    &&& forall|i: int| 0 <= i < after.len() ==> (#[trigger] after[i]).id != id && before.contains(after[i])
    &&& forall|i: int| 0 <= i < before.len() && (#[trigger] before[i]).id != id ==> after.contains(before[i])
}

/// The effect of one message on the network manager, the chain store and
/// the pool, and the actions it yields:
/// - a transaction from a peer is gossiped to the other peers and handed
///   to consensus, if the pool takes it;
/// - a block from a peer goes to consensus for import;
/// - a block or transaction to broadcast goes to every peer;
/// - `RequestData(h)` is answered with each stored block from `h` up, in
///   order, then `RequestDataResponseFinished`;
/// - `Hello` updates the peer's address and is answered with `HandShake`;
///   `HandShake` updates it and, on a node that is not the boot node, asks
///   for blocks from height 1;
/// - `ReorgChainData` asks the first peer for its chain hashes; a request
///   for them is answered with the hashes of the blocks below the latest
///   (at most 16); an answer truncates the chain at the newest common block
///   and asks for blocks after it;
/// - a liveness probe marks every peer unanswered, pings it and schedules
///   its removal; `Ping` is answered with `Pong`; `Pong` marks the peer
///   alive; a scheduled removal drops a peer that did not answer;
///   `RemovePeer` drops a peer.
pub open spec fn network_step(
    before: NetworkManager,
    after: NetworkManager,
    db0: ProviderFactory,
    db1: ProviderFactory,
    pool0: Seq<crate::pool::PoolEntry>,
    pool1: Seq<crate::pool::PoolEntry>,
    event: NetworkEvent,
    actions: Seq<NetworkAction>,
) -> bool {
    let peers0 = before.peers.peers@;
    let peers1 = after.peers.peers@;
    let cfg = before.config;
    match event {
        NetworkEvent::FromPeer(from, NetworkHandleMessage::NewTransaction(s)) => {
            &&& peers1 == peers0
            &&& db1 == db0
            &&& crate::transaction::signer_of(s.hash.0.0@, s.signature) is None ==> actions.len() == 0 && pool1 == pool0
            &&& actions.len() > 0 ==> (actions.last() matches NetworkAction::ToConsensus(ConsensusHandleMessage::NewTransaction(rec)) && rec.tx == s)
            &&& forall|k: int| 0 <= k < actions.len() - 1 ==> gossips(#[trigger] actions[k], peers0, from, s)
        },
        NetworkEvent::FromPeer(_, NetworkHandleMessage::NewPayload(b)) => {
            &&& peers1 == peers0 && db1 == db0 && pool1 == pool0
            &&& actions.len() == 1
            &&& actions[0] == NetworkAction::ToConsensus(ConsensusHandleMessage::ImportBlock(b))
        },
        NetworkEvent::FromNode(NetworkHandleMessage::BroadcastBlock(b)) => {
            &&& peers1 == peers0 && db1 == db0 && pool1 == pool0
            &&& actions.len() == peers0.len()
            &&& forall|k: int| 0 <= k < actions.len() ==> sends_block(#[trigger] actions[k], peers0[k].id, b)
        },
        NetworkEvent::FromNode(NetworkHandleMessage::BroadcastTransaction(s)) => {
            &&& peers1 == peers0 && db1 == db0 && pool1 == pool0
            &&& actions.len() == peers0.len()
            &&& forall|k: int| 0 <= k < actions.len() ==> sends_tx(#[trigger] actions[k], peers0[k].id, s)
        },
        NetworkEvent::FromPeer(from, NetworkHandleMessage::RequestData(h)) => {
            let latest = db0.store().latest();
            let n = if h <= latest { latest - h + 1 } else { 0 };
            &&& peers1 == peers0 && db1 == db0 && pool1 == pool0
            &&& actions.len() == n + 1
            &&& forall|k: int| 0 <= k < n ==> sends_block(#[trigger] actions[k], from, db0.store().blocks()[h + k])
            &&& sends(actions[n], from, NetworkHandleMessage::RequestDataResponseFinished)
        },
        NetworkEvent::FromPeer(from, NetworkHandleMessage::Hello(_, ip, port)) => {
            &&& addr_updated(peers0, peers1, from, ip, port) && db1 == db0 && pool1 == pool0
            &&& actions.len() == 1
            &&& sends(actions[0], from, NetworkHandleMessage::HandShake(cfg.pid, cfg.ip, cfg.port))
        },
        NetworkEvent::FromPeer(from, NetworkHandleMessage::HandShake(_, ip, port)) => {
            &&& addr_updated(peers0, peers1, from, ip, port) && db1 == db0 && pool1 == pool0
            &&& cfg.boot_node ==> actions.len() == 0
            &&& !cfg.boot_node ==> actions.len() == 1 && sends(actions[0], from, NetworkHandleMessage::RequestData(1))
        },
        NetworkEvent::FromNode(NetworkHandleMessage::ReorgChainData) => {
            &&& peers1 == peers0 && db1 == db0 && pool1 == pool0
            &&& peers0.len() == 0 ==> actions.len() == 0
            &&& peers0.len() > 0 ==> actions.len() == 1 && sends(actions[0], peers0[0].id, NetworkHandleMessage::RequestChainData(cfg.ip, cfg.port))
        },
        NetworkEvent::FromPeer(from, NetworkHandleMessage::RequestChainData(_, _)) => {
            let latest = db0.store().latest();
            let start = if latest >= 16 { latest - 16 } else { 0 };
            &&& peers1 == peers0 && db1 == db0 && pool1 == pool0
            &&& actions.len() == 1
            &&& actions[0] matches NetworkAction::SendTo(q, NetworkHandleMessage::RespondChainDataResult(n, hs)) && q == from
                && n == hs@.len() && hs@.len() == latest - start && forall|i: int| 0 <= i < hs@.len() ==> (#[trigger] hs@[i]).0.0@
                == block_hash_of(db0.store().blocks()[start + i].header)
        },
        NetworkEvent::FromPeer(from, NetworkHandleMessage::RespondChainDataResult(_, hashes)) => {
            let r = db1.store().blocks().len();
            &&& peers1 == peers0 && pool1 == pool0
            &&& 1 <= r <= db0.store().blocks().len()
            &&& db1.store().blocks() == db0.store().blocks().subrange(0, r as int)
            &&& db1.store().states() == db0.store().states().subrange(0, r as int)
            &&& no_match_above(db0.store().blocks(), hashes@, -1) ==> r == 1
            &&& !no_match_above(db0.store().blocks(), hashes@, -1) ==> exists|j: int|
                0 <= j < hashes@.len() && hashes@[j].0.0@ == block_hash_of(db0.store().blocks()[r - 1].header)
                    && no_match_above(db0.store().blocks(), hashes@, j)
            &&& actions.len() == 1
            &&& sends(actions[0], from, NetworkHandleMessage::RequestData(r as u64))
        },
        NetworkEvent::FromNode(NetworkHandleMessage::PeerConnectionTest { .. }) => {
            &&& db1 == db0 && pool1 == pool0
            &&& peers1.len() == peers0.len()
            &&& forall|k: int| 0 <= k < peers1.len() ==> #[trigger] peers1[k] == with_alive(peers0[k], false)
            &&& actions.len() == 2 * peers0.len()
            &&& forall|k: int| 0 <= k < peers0.len() ==> sends(#[trigger] actions[2 * k], peers0[k].id, NetworkHandleMessage::Ping)
                && actions[2 * k + 1] == NetworkAction::RemoveLater(peers0[k].id)
        },
        NetworkEvent::FromPeer(from, NetworkHandleMessage::Ping) => {
            &&& peers1 == peers0 && db1 == db0 && pool1 == pool0
            &&& actions.len() == 1 && sends(actions[0], from, NetworkHandleMessage::Pong)
        },
        NetworkEvent::FromPeer(from, NetworkHandleMessage::Pong) => {
            &&& db1 == db0 && pool1 == pool0 && actions.len() == 0
            &&& peers1.len() == peers0.len()
            &&& forall|k: int| 0 <= k < peers1.len() ==> #[trigger] peers1[k] == if peers0[k].id == from {
                with_alive(peers0[k], true)
            } else {
                peers0[k]
            }
        },
        NetworkEvent::FromNode(NetworkHandleMessage::RemoveUnresponsivePeer(pid)) => {
            &&& db1 == db0 && pool1 == pool0 && actions.len() == 0
            &&& (exists|i: int| 0 <= i < peers0.len() && (#[trigger] peers0[i]).id == pid && !peers0[i].alive)
                ==> peer_removed(peers0, peers1, pid)
            &&& !(exists|i: int| 0 <= i < peers0.len() && (#[trigger] peers0[i]).id == pid && !peers0[i].alive) ==> peers1 == peers0
        },
        NetworkEvent::FromNode(NetworkHandleMessage::RemovePeer(pid)) => {
            &&& db1 == db0 && pool1 == pool0 && actions.len() == 0
            &&& peer_removed(peers0, peers1, pid)
        },
        _ => peers1 == peers0 && db1 == db0 && pool1 == pool0 && actions.len() == 0,
    }
}

/// The network manager: its settings and its peer table.
pub struct NetworkManager {
    pub config: NetworkConfig,
    pub peers: PeerList,
}

impl NetworkManager {
    pub fn new(config: NetworkConfig) -> (r: NetworkManager)
        ensures
            r.config == config,
            r.peers.wf(),
            r.peers.peers@.len() == 0,
    {
        NetworkManager { config, peers: PeerList::new() }
    }

    /// An incoming connection: admitted while there is room, otherwise
    /// redirected to the first known peer.
    pub fn accept_peer(&mut self, ip: [u8; 4], port: u16) -> (r: Admission)
        requires
            old(self).peers.wf(),
        ensures
            final(self).peers.wf(),
            final(self).config == old(self).config,
            old(self).peers.peers@.len() < old(self).config.max_peer_size && old(self).peers.submission_id < u64::MAX ==> r
                == Admission::Accepted(
                old(self).peers.submission_id,
                NetworkHandleMessage::Hello(old(self).config.pid, old(self).config.ip, old(self).config.port),
            ) && final(self).peers.peers@ == old(self).peers.peers@.push(Peer { id: old(self).peers.submission_id, ip, port, alive: true }),
            old(self).peers.peers@.len() >= old(self).config.max_peer_size && old(self).peers.peers@.len() > 0 ==> r
                == Admission::Redirect(old(self).peers.peers@[0].ip, old(self).peers.peers@[0].port)
                && final(self).peers.peers@ == old(self).peers.peers@,
    {
        if !self.peers.has_room(self.config.max_peer_size) {
            if self.peers.peers.len() > 0 {
                let p = self.peers.peers[0];
                return Admission::Redirect(p.ip, p.port);
            }
            return Admission::Refused;
        }
        match self.peers.insert_new_peer(ip, port) {
            Some(id) => Admission::Accepted(id, NetworkHandleMessage::Hello(self.config.pid, self.config.ip, self.config.port)),
            None => Admission::Refused,
        }
    }

    /// Handles one message.
    pub fn step(&mut self, pool: &mut Pool, provider: &mut ProviderFactory, event: NetworkEvent) -> (r: Vec<NetworkAction>)
        requires
            old(self).peers.wf(),
            old(pool).pool.wf(),
            old(provider).wf(),
        ensures
            final(self).peers.wf(),
            final(pool).pool.wf(),
            final(provider).wf(),
            final(self).config == old(self).config,
            network_step(*old(self), *final(self), *old(provider), *final(provider), old(pool).pool@, final(pool).pool@, event, r@),
    {
        let mut actions: Vec<NetworkAction> = Vec::new();
        match event {
            NetworkEvent::FromPeer(from, NetworkHandleMessage::NewTransaction(signed)) => {
                match signed.into_recovered() {
                    Err(_) => {},
                    Ok(recovered) => if pool.add_transaction(provider, TransactionOrigin::External, recovered).is_ok() {
                        let mut i: usize = 0;
                        while i < self.peers.peers.len()
                            invariant
                                i <= self.peers.peers@.len(),
                                forall|k: int| 0 <= k < actions@.len() ==> gossips(#[trigger] actions@[k], self.peers.peers@, from, signed),
                            decreases self.peers.peers@.len() - i,
                        {
                            let q = self.peers.peers[i].id;
                            if q != from {
                                actions.push(NetworkAction::SendTo(q, NetworkHandleMessage::NewTransaction(signed)));
                            }
                            i = i + 1;
                        }
                        actions.push(NetworkAction::ToConsensus(ConsensusHandleMessage::NewTransaction(recovered)));
                    },
                }
            },
            NetworkEvent::FromPeer(_, NetworkHandleMessage::NewPayload(block)) => {
                actions.push(NetworkAction::ToConsensus(ConsensusHandleMessage::ImportBlock(block)));
            },
            NetworkEvent::FromNode(NetworkHandleMessage::BroadcastBlock(block)) => {
                let mut i: usize = 0;
                while i < self.peers.peers.len()
                    invariant
                        i <= self.peers.peers@.len(),
                        actions@.len() == i,
                        forall|k: int| 0 <= k < i ==> sends_block(#[trigger] actions@[k], self.peers.peers@[k].id, block),
                    decreases self.peers.peers@.len() - i,
                {
                    let q = self.peers.peers[i].id;
                    actions.push(NetworkAction::SendTo(q, NetworkHandleMessage::NewPayload(block.duplicate())));
                    i = i + 1;
                }
            },
            NetworkEvent::FromNode(NetworkHandleMessage::BroadcastTransaction(signed)) => {
                let mut i: usize = 0;
                while i < self.peers.peers.len()
                    invariant
                        i <= self.peers.peers@.len(),
                        actions@.len() == i,
                        forall|k: int| 0 <= k < i ==> sends_tx(#[trigger] actions@[k], self.peers.peers@[k].id, signed),
                    decreases self.peers.peers@.len() - i,
                {
                    let q = self.peers.peers[i].id;
                    actions.push(NetworkAction::SendTo(q, NetworkHandleMessage::NewTransaction(signed)));
                    i = i + 1;
                }
            },
            NetworkEvent::FromPeer(from, NetworkHandleMessage::RequestData(start)) => {
                let latest = provider.block_number();
                proof {
                    provider.store().lemma_wf_bounds();
                }
                if start <= latest {
                    let mut h: u64 = start;
                    while h <= latest
                        invariant
                            provider.wf(),
                            latest == provider.store().latest(),
                            latest < u64::MAX,
                            start <= h <= latest + 1,
                            actions@.len() == h - start,
                            forall|k: int| 0 <= k < actions@.len() ==> sends_block(#[trigger] actions@[k], from, provider.store().blocks()[start + k]),
                        decreases latest + 1 - h,
                    {
                        match provider.db().get_block(h) {
                            Ok(block) => actions.push(NetworkAction::SendTo(from, NetworkHandleMessage::NewPayload(block))),
                            Err(_) => {},
                        }
                        h = h + 1;
                    }
                }
                actions.push(NetworkAction::SendTo(from, NetworkHandleMessage::RequestDataResponseFinished));
            },
            NetworkEvent::FromPeer(from, NetworkHandleMessage::Hello(_, ip, port)) => {
                self.peers.update_peer_addr(from, ip, port);
                actions.push(NetworkAction::SendTo(from, NetworkHandleMessage::HandShake(self.config.pid, self.config.ip, self.config.port)));
            },
            NetworkEvent::FromPeer(from, NetworkHandleMessage::HandShake(_, ip, port)) => {
                self.peers.update_peer_addr(from, ip, port);
                if !self.config.boot_node {
                    actions.push(NetworkAction::SendTo(from, NetworkHandleMessage::RequestData(1)));
                }
            },
            NetworkEvent::FromNode(NetworkHandleMessage::ReorgChainData) => {
                if self.peers.peers.len() > 0 {
                    let q = self.peers.peers[0].id;
                    actions.push(NetworkAction::SendTo(q, NetworkHandleMessage::RequestChainData(self.config.ip, self.config.port)));
                }
            },
            NetworkEvent::FromPeer(from, NetworkHandleMessage::RequestChainData(_, _)) => {
                let hashes = provider.chain_hashes();
                let n = hashes.len() as u64;
                actions.push(NetworkAction::SendTo(from, NetworkHandleMessage::RespondChainDataResult(n, hashes)));
            },
            NetworkEvent::FromPeer(from, NetworkHandleMessage::RespondChainDataResult(_, hashes)) => {
                let next = provider.reorg_to_common_ancestor(&hashes);
                actions.push(NetworkAction::SendTo(from, NetworkHandleMessage::RequestData(next)));
            },
            NetworkEvent::FromNode(NetworkHandleMessage::PeerConnectionTest { .. }) => {
                self.peers.mark_all_unanswered();
                let mut i: usize = 0;
                while i < self.peers.peers.len()
                    invariant
                        i <= self.peers.peers@.len(),
                        actions@.len() == 2 * i,
                        forall|k: int| 0 <= k < i ==> sends(#[trigger] actions@[2 * k], self.peers.peers@[k].id, NetworkHandleMessage::Ping)
                            && actions@[2 * k + 1] == NetworkAction::RemoveLater(self.peers.peers@[k].id),
                    decreases self.peers.peers@.len() - i,
                {
                    let q = self.peers.peers[i].id;
                    actions.push(NetworkAction::SendTo(q, NetworkHandleMessage::Ping));
                    actions.push(NetworkAction::RemoveLater(q));
                    i = i + 1;
                }
            },
            NetworkEvent::FromPeer(from, NetworkHandleMessage::Ping) => {
                actions.push(NetworkAction::SendTo(from, NetworkHandleMessage::Pong));
            },
            NetworkEvent::FromPeer(from, NetworkHandleMessage::Pong) => {
                self.peers.mark_alive(from);
            },
            NetworkEvent::FromNode(NetworkHandleMessage::RemoveUnresponsivePeer(pid)) => {
                if self.peers.is_unresponsive(pid) {
                    self.peers.remove_peer_by_id(pid);
                }
            },
            NetworkEvent::FromNode(NetworkHandleMessage::RemovePeer(pid)) => {
                self.peers.remove_peer_by_id(pid);
            },
            _ => {},
        }
        actions
    }
}

} // verus!
