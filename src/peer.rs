//! The peer table: ids handed out in order, listening addresses, and
//! liveness marks.
use vstd::prelude::*;

verus! {

/// A known peer: its id, its address (IPv4 and port) and whether it has
/// answered the latest liveness probe.
#[derive(Clone, Copy, Debug, PartialEq, Eq)]
pub struct Peer {
    pub id: u64,
    pub ip: [u8; 4],
    pub port: u16,
    pub alive: bool,
}

impl Peer {
    pub fn new(id: u64, ip: [u8; 4], port: u16) -> (r: Peer)
        ensures
            r.id == id,
            r.ip == ip,
            r.port == port,
            r.alive,
    {
        Peer { id, ip, port, alive: true }
    }

    pub fn id(&self) -> (r: u64)
        ensures
            r == self.id,
    {
        self.id
    }

    pub fn update_addr(&mut self, ip: [u8; 4], port: u16)
        ensures
            final(self).id == old(self).id,
            final(self).alive == old(self).alive,
            final(self).ip == ip,
            final(self).port == port,
    {
        self.ip = ip;
        self.port = port;
    }
}

/// A peer with its liveness mark set.
pub open spec fn with_alive(p: Peer, alive: bool) -> Peer {
    Peer { alive, ..p }
}

/// Ids are distinct and below the next id to hand out.
pub open spec fn peers_ok(peers: Seq<Peer>, next: u64) -> bool {
    &&& forall|i: int| 0 <= i < peers.len() ==> (#[trigger] peers[i]).id < next
    &&& forall|i: int, j: int| 0 <= i < peers.len() && 0 <= j < peers.len() && i != j ==> (#[trigger] peers[i]).id != (#[trigger] peers[j]).id
}

fn same_ip(a: &[u8; 4], b: &[u8; 4]) -> (r: bool)
    ensures
        r == (a@ == b@),
{
    let r = a[0] == b[0] && a[1] == b[1] && a[2] == b[2] && a[3] == b[3];
    if r {
        assert(a@ =~= b@);
    }
    r
}

#[derive(Debug)]
pub struct PeerList {
    pub submission_id: u64,
    pub peers: Vec<Peer>,
}

impl PeerList {
    pub open spec fn wf(&self) -> bool {
        peers_ok(self.peers@, self.submission_id)
    }

    pub fn new() -> (r: PeerList)
        ensures
            r.wf(),
            r.peers@.len() == 0,
            r.submission_id == 0,
    {
        PeerList { submission_id: 0, peers: Vec::new() }
    }

    pub fn len(&self) -> (r: usize)
        ensures
            r == self.peers@.len(),
    {
        self.peers.len()
    }

    /// Whether another peer fits under the configured maximum.
    pub fn has_room(&self, max_peer_size: usize) -> (r: bool)
        ensures
            r == (self.peers@.len() < max_peer_size),
    {
        self.peers.len() < max_peer_size
    }

    /// The next id; ids are handed out in increasing order.
    pub fn get_id(&mut self) -> (r: Option<u64>)
        requires
            old(self).wf(),
        ensures
            final(self).wf(),
            final(self).peers == old(self).peers,
            old(self).submission_id < u64::MAX ==> r == Some(old(self).submission_id) && final(self).submission_id
                == old(self).submission_id + 1,
            old(self).submission_id == u64::MAX ==> r is None && final(self).submission_id == old(self).submission_id,
    {
        if self.submission_id == u64::MAX {
            return None;
        }
        let id = self.submission_id;
        self.submission_id = self.submission_id + 1;
        Some(id)
    }

    /// Adds a peer at an address under a fresh id.
    pub fn insert_new_peer(&mut self, ip: [u8; 4], port: u16) -> (r: Option<u64>)
        requires
            old(self).wf(),
        ensures
            final(self).wf(),
            r is None <==> old(self).submission_id == u64::MAX,
            r is None ==> final(self).peers@ == old(self).peers@,
            r is Some ==> r->0 == old(self).submission_id && final(self).peers@ == old(self).peers@.push(
                Peer { id: r->0, ip, port, alive: true },
            ),
    {
        match self.get_id() {
            None => None,
            Some(pid) => {
                self.peers.push(Peer::new(pid, ip, port));
                Some(pid)
            },
        }
    }

    /// The first peer at an address.
    pub fn find_peer(&self, ip: [u8; 4], port: u16) -> (r: Option<Peer>)
        ensures
            r is None ==> forall|i: int| 0 <= i < self.peers@.len() ==> !((#[trigger] self.peers@[i]).ip@ == ip@ && self.peers@[i].port == port),
            r is Some ==> self.peers@.contains(r->0) && (r->0).ip@ == ip@ && (r->0).port == port,
    {
        let mut i: usize = 0;
        while i < self.peers.len()
            invariant
                i <= self.peers@.len(),
                forall|j: int| 0 <= j < i ==> !((#[trigger] self.peers@[j]).ip@ == ip@ && self.peers@[j].port == port),
            decreases self.peers@.len() - i,
        {
            let p = self.peers[i];
            if p.port == port && same_ip(&p.ip, &ip) {
                assert(self.peers@[i as int] == p);
                return Some(p);
            }
            i = i + 1;
        }
        None
    }

    /// Drops the peer with an id.
    pub fn remove_peer_by_id(&mut self, pid: u64)
        requires
            old(self).wf(),
        ensures
            final(self).wf(),
            forall|i: int| 0 <= i < final(self).peers@.len() ==> (#[trigger] final(self).peers@[i]).id != pid,
            forall|i: int| 0 <= i < final(self).peers@.len() ==> old(self).peers@.contains(#[trigger] final(self).peers@[i]),
            forall|i: int| 0 <= i < old(self).peers@.len() && (#[trigger] old(self).peers@[i]).id != pid ==> final(self).peers@.contains(old(self).peers@[i]),
    {
        let ghost old_peers = self.peers@;
        let mut kept: Vec<Peer> = Vec::new();
        let mut i: usize = 0;
        while i < self.peers.len()
            invariant
                self.peers@ == old_peers,
                peers_ok(old_peers, self.submission_id),
                i <= old_peers.len(),
                forall|a: int| 0 <= a < kept@.len() ==> (#[trigger] kept@[a]).id != pid && exists|b: int| 0 <= b < i && old_peers[b] == kept@[a],
                forall|b: int| 0 <= b < i && (#[trigger] old_peers[b]).id != pid ==> kept@.contains(old_peers[b]),
                forall|a: int, c: int| 0 <= a < c < kept@.len() ==> (#[trigger] kept@[a]).id != (#[trigger] kept@[c]).id,
                forall|a: int| 0 <= a < kept@.len() ==> forall|b: int| i <= b < old_peers.len() ==> (#[trigger] kept@[a]).id != (#[trigger] old_peers[b]).id,
            decreases old_peers.len() - i,
        {
            let p = self.peers[i];
            let ghost before = kept@;
            if p.id != pid {
                kept.push(p);
                assert(kept@[kept@.len() - 1] == old_peers[i as int]);
                assert forall|a: int| 0 <= a < before.len() implies (#[trigger] kept@[a]) == before[a] by {}
            }
            assert forall|b: int| 0 <= b < i + 1 && (#[trigger] old_peers[b]).id != pid implies kept@.contains(old_peers[b]) by {
                if b < i {
                    let a = choose|a: int| 0 <= a < before.len() && before[a] == old_peers[b];
                    assert(kept@[a] == old_peers[b]);
                } else {
                    assert(kept@[kept@.len() - 1] == old_peers[b]);
                }
            }
            assert forall|a: int| 0 <= a < kept@.len() implies forall|b: int| i + 1 <= b < old_peers.len() ==> (#[trigger] kept@[a]).id != (#[trigger] old_peers[b]).id by {
                assert forall|b: int| i + 1 <= b < old_peers.len() implies (#[trigger] kept@[a]).id != (#[trigger] old_peers[b]).id by {
                    if a < before.len() {
                        assert(kept@[a] == before[a]);
                    } else {
                        assert(kept@[a] == old_peers[i as int]);
                        assert(old_peers[i as int].id != old_peers[b].id);
                    }
                }
            }
            i = i + 1;
        }
        assert forall|x: int, y: int| 0 <= x < kept@.len() && 0 <= y < kept@.len() && x != y implies (#[trigger] kept@[x]).id != (#[trigger] kept@[y]).id by {
            if x < y {
                assert(kept@[x].id != kept@[y].id);
            } else {
                assert(kept@[y].id != kept@[x].id);
            }
        }
        assert forall|x: int| 0 <= x < kept@.len() implies (#[trigger] kept@[x]).id < self.submission_id by {
            let b = choose|b: int| 0 <= b < old_peers.len() && old_peers[b] == kept@[x];
        }
        assert forall|x: int| 0 <= x < kept@.len() implies old_peers.contains(#[trigger] kept@[x]) by {
            let b = choose|b: int| 0 <= b < old_peers.len() && old_peers[b] == kept@[x];
        }
        self.peers = kept;
    }

    /// Starts a liveness round: every peer is marked as not yet answered.
    pub fn mark_all_unanswered(&mut self)
        requires
            old(self).wf(),
        ensures
            final(self).wf(),
            final(self).submission_id == old(self).submission_id,
            final(self).peers@.len() == old(self).peers@.len(),
            forall|i: int| 0 <= i < final(self).peers@.len() ==> (#[trigger] final(self).peers@[i]) == with_alive(old(self).peers@[i], false),
    {
        let mut i: usize = 0;
        while i < self.peers.len()
            invariant
                self.submission_id == old(self).submission_id,
                self.peers@.len() == old(self).peers@.len(),
                i <= self.peers@.len(),
                forall|j: int| 0 <= j < i ==> (#[trigger] self.peers@[j]) == with_alive(old(self).peers@[j], false),
                forall|j: int| i <= j < self.peers@.len() ==> (#[trigger] self.peers@[j]) == old(self).peers@[j],
            decreases self.peers@.len() - i,
        {
            let mut p = self.peers[i];
            p.alive = false;
            self.peers[i] = p;
            i = i + 1;
        }
    }

    /// A reply to a probe: the peer with this id is alive.
    pub fn mark_alive(&mut self, pid: u64)
        requires
            old(self).wf(),
        ensures
            final(self).wf(),
            final(self).submission_id == old(self).submission_id,
            final(self).peers@.len() == old(self).peers@.len(),
            forall|i: int| 0 <= i < final(self).peers@.len() ==> (#[trigger] final(self).peers@[i]) == if old(self).peers@[i].id == pid {
                with_alive(old(self).peers@[i], true)
            } else {
                old(self).peers@[i]
            },
    {
        let mut i: usize = 0;
        while i < self.peers.len()
            invariant
                self.submission_id == old(self).submission_id,
                self.peers@.len() == old(self).peers@.len(),
                i <= self.peers@.len(),
                forall|j: int| 0 <= j < i ==> (#[trigger] self.peers@[j]) == if old(self).peers@[j].id == pid {
                    with_alive(old(self).peers@[j], true)
                } else {
                    old(self).peers@[j]
                },
                forall|j: int| i <= j < self.peers@.len() ==> (#[trigger] self.peers@[j]) == old(self).peers@[j],
            decreases self.peers@.len() - i,
        {
            let mut p = self.peers[i];
            if p.id == pid {
                p.alive = true;
                self.peers[i] = p;
            }
            i = i + 1;
        }
        assert forall|x: int, y: int| 0 <= x < self.peers@.len() && 0 <= y < self.peers@.len() && x != y implies (#[trigger] self.peers@[x]).id != (#[trigger] self.peers@[y]).id by {
            assert(old(self).peers@[x].id != old(self).peers@[y].id);
        }
        assert forall|x: int| 0 <= x < self.peers@.len() implies (#[trigger] self.peers@[x]).id < self.submission_id by {
            assert(old(self).peers@[x].id < old(self).submission_id);
        }
    }

    /// Whether the peer with this id failed to answer the probe, so that it
    /// is to be removed.
    pub fn is_unresponsive(&self, pid: u64) -> (r: bool)
        ensures
            r == exists|i: int| 0 <= i < self.peers@.len() && (#[trigger] self.peers@[i]).id == pid && !self.peers@[i].alive,
    {
        let mut i: usize = 0;
        while i < self.peers.len()
            invariant
                i <= self.peers@.len(),
                forall|j: int| 0 <= j < i ==> !((#[trigger] self.peers@[j]).id == pid && !self.peers@[j].alive),
            decreases self.peers@.len() - i,
        {
            if self.peers[i].id == pid && !self.peers[i].alive {
                assert(self.peers@[i as int].id == pid);
                return true;
            }
            i = i + 1;
        }
        false
    }
}

impl PeerList {
    /// Sets the listening address of the peer with an id.
    pub fn update_peer_addr(&mut self, pid: u64, ip: [u8; 4], port: u16)
        requires
            old(self).wf(),
        ensures
            final(self).wf(),
            final(self).submission_id == old(self).submission_id,
            final(self).peers@.len() == old(self).peers@.len(),
            forall|i: int| 0 <= i < final(self).peers@.len() ==> (#[trigger] final(self).peers@[i]) == if old(self).peers@[i].id == pid {
                Peer { id: old(self).peers@[i].id, ip, port, alive: old(self).peers@[i].alive }
            } else {
                old(self).peers@[i]
            },
    {
        let mut i: usize = 0;
        while i < self.peers.len()
            invariant
                self.submission_id == old(self).submission_id,
                self.peers@.len() == old(self).peers@.len(),
                i <= self.peers@.len(),
                forall|j: int| 0 <= j < i ==> (#[trigger] self.peers@[j]) == if old(self).peers@[j].id == pid {
                    Peer { id: old(self).peers@[j].id, ip, port, alive: old(self).peers@[j].alive }
                } else {
                    old(self).peers@[j]
                },
                forall|j: int| i <= j < self.peers@.len() ==> (#[trigger] self.peers@[j]) == old(self).peers@[j],
            decreases self.peers@.len() - i,
        {
            let mut p = self.peers[i];
            if p.id == pid {
                p.update_addr(ip, port);
                self.peers[i] = p;
            }
            i = i + 1;
        }
        assert forall|x: int, y: int| 0 <= x < self.peers@.len() && 0 <= y < self.peers@.len() && x != y implies (#[trigger] self.peers@[x]).id != (#[trigger] self.peers@[y]).id by {
            assert(old(self).peers@[x].id != old(self).peers@[y].id);
        }
        assert forall|x: int| 0 <= x < self.peers@.len() implies (#[trigger] self.peers@[x]).id < self.submission_id by {
            assert(old(self).peers@[x].id < old(self).submission_id);
        }
    }
}

} // verus!
