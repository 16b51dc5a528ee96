use pint::block::{Block, Header};
use pint::db::InMemoryDB;
use pint::message::NetworkHandleMessage;
use pint::network::{Admission, NetworkAction, NetworkConfig, NetworkEvent, NetworkManager};
use pint::provider::{BlockImporter, ProviderFactory};
use pint::txpool::Pool;
use pint::types::Address;
use pint::u256::U256;

fn config(boot_node: bool) -> NetworkConfig {
    NetworkConfig { pid: 9, ip: [127, 0, 0, 1], port: 33333, boot_node, max_peer_size: 1 }
}

fn chain(n: u64, proposer: u8) -> ProviderFactory {
    let mut importer = BlockImporter::new(ProviderFactory::new(InMemoryDB::new()));
    for _ in 0..n {
        let parent = importer.provider.db().get_latest_block_header();
        let mut header = Header::genesis_header();
        header.previous_hash = parent.calculate_hash();
        header.height = parent.height + 1;
        let mut a = [0u8; 20];
        a[0] = proposer;
        header.proposer = Address::from_byte(a);
        header.total_fee = U256::zero();
        importer.import_new_block(Block { header, body: vec![] }).unwrap();
    }
    importer.provider
}

#[test]
fn handshake_sequence_and_capacity() {
    let mut m = NetworkManager::new(config(false));
    let mut pool = Pool::new();
    let mut db = chain(0, 1);
    let id = match m.accept_peer([10, 0, 0, 1], 5000) {
        Admission::Accepted(id, NetworkHandleMessage::Hello(9, [127, 0, 0, 1], 33333)) => id,
        other => panic!("unexpected {:?}", other),
    };
    assert!(matches!(m.accept_peer([10, 0, 0, 2], 5001), Admission::Redirect([10, 0, 0, 1], 5000)));
    let acts = m.step(&mut pool, &mut db, NetworkEvent::FromPeer(id, NetworkHandleMessage::Hello(4, [10, 0, 0, 1], 7000)));
    assert!(matches!(acts[..], [NetworkAction::SendTo(p, NetworkHandleMessage::HandShake(9, _, 33333))] if p == id));
    assert_eq!(m.peers.peers[0].port, 7000);
    let acts = m.step(&mut pool, &mut db, NetworkEvent::FromPeer(id, NetworkHandleMessage::HandShake(4, [10, 0, 0, 1], 7001)));
    assert!(matches!(acts[..], [NetworkAction::SendTo(_, NetworkHandleMessage::RequestData(1))]));
}

#[test]
fn request_data_sends_blocks_in_order() {
    let mut m = NetworkManager::new(config(true));
    let mut pool = Pool::new();
    let mut db = chain(3, 1);
    let acts = m.step(&mut pool, &mut db, NetworkEvent::FromPeer(5, NetworkHandleMessage::RequestData(2)));
    assert_eq!(acts.len(), 3);
    let heights: Vec<u64> = acts[..2]
        .iter()
        .map(|a| match a {
            NetworkAction::SendTo(5, NetworkHandleMessage::NewPayload(b)) => b.header.height,
            other => panic!("unexpected {:?}", other),
        })
        .collect();
    assert_eq!(heights, vec![2, 3]);
    assert!(matches!(acts[2], NetworkAction::SendTo(5, NetworkHandleMessage::RequestDataResponseFinished)));
}

#[test]
fn chain_probe_truncates_at_newest_common_block() {
    let mut m = NetworkManager::new(config(true));
    let mut pool = Pool::new();
    let theirs = chain(4, 1);
    let mut ours = chain(2, 1);
    let mut other = chain(3, 2);
    let mut mine = NetworkManager::new(config(true));
    let acts = mine.step(&mut pool, &mut other, NetworkEvent::FromPeer(1, NetworkHandleMessage::RequestChainData([0; 4], 0)));
    assert_eq!(acts.len(), 1);
    let hashes = theirs.chain_hashes();
    let acts = m.step(&mut pool, &mut ours, NetworkEvent::FromPeer(1, NetworkHandleMessage::RespondChainDataResult(hashes.len() as u64, hashes)));
    assert_eq!(ours.block_number(), 2);
    assert!(matches!(acts[..], [NetworkAction::SendTo(1, NetworkHandleMessage::RequestData(3))]));
    let foreign = other.chain_hashes();
    let mut ours2 = chain(2, 1);
    let acts = m.step(&mut pool, &mut ours2, NetworkEvent::FromPeer(1, NetworkHandleMessage::RespondChainDataResult(foreign.len() as u64, foreign)));
    assert_eq!(ours2.block_number(), 0);
    assert!(matches!(acts[..], [NetworkAction::SendTo(1, NetworkHandleMessage::RequestData(1))]));
}

#[test]
fn liveness_probe_drops_silent_peers() {
    let mut m = NetworkManager::new(NetworkConfig { max_peer_size: 4, ..config(true) });
    let mut pool = Pool::new();
    let mut db = chain(0, 1);
    m.accept_peer([10, 0, 0, 1], 1);
    m.accept_peer([10, 0, 0, 2], 2);
    let acts = m.step(&mut pool, &mut db, NetworkEvent::FromNode(NetworkHandleMessage::PeerConnectionTest { ip: [0; 4], port: 0 }));
    assert_eq!(acts.len(), 4);
    assert!(matches!(acts[0], NetworkAction::SendTo(0, NetworkHandleMessage::Ping)));
    assert!(matches!(acts[1], NetworkAction::RemoveLater(0)));
    m.step(&mut pool, &mut db, NetworkEvent::FromPeer(0, NetworkHandleMessage::Pong));
    m.step(&mut pool, &mut db, NetworkEvent::FromNode(NetworkHandleMessage::RemoveUnresponsivePeer(0)));
    m.step(&mut pool, &mut db, NetworkEvent::FromNode(NetworkHandleMessage::RemoveUnresponsivePeer(1)));
    assert_eq!(m.peers.len(), 1);
    assert_eq!(m.peers.peers[0].id, 0);
}
