use pint::block::PayloadHeader;
use pint::message::{FrameReader, NetworkHandleMessage};
use pint::miner::{worker_round, MineOutcome, MinerControl, POLL_INTERVAL};
use pint::peer::PeerList;
use pint::types::{Address, BlockHash, B256};
use pint::u256::U256;

#[test]
fn frame_reader_splits_and_joins_reads() {
    let a = NetworkHandleMessage::RequestData(1).encode();
    let b = NetworkHandleMessage::RequestData(2).encode();
    let mut both = a.clone();
    both.extend_from_slice(&b);
    let mut reader = FrameReader::new();
    reader.push(&both[..5]);
    assert!(reader.next_frame().is_none());
    reader.push(&both[5..]);
    assert_eq!(reader.next_frame().unwrap(), a);
    assert_eq!(reader.next_frame().unwrap(), b);
    assert!(reader.next_frame().is_none());
    assert!(reader.buf.is_empty());
}

#[test]
fn peer_table_ids_and_liveness() {
    let mut peers = PeerList::new();
    assert!(peers.has_room(2));
    assert_eq!(peers.insert_new_peer([10, 0, 0, 1], 1000), Some(0));
    assert_eq!(peers.insert_new_peer([10, 0, 0, 2], 2000), Some(1));
    assert!(!peers.has_room(2));
    assert_eq!(peers.find_peer([10, 0, 0, 2], 2000).unwrap().id, 1);
    assert!(peers.find_peer([10, 0, 0, 2], 2001).is_none());
    peers.mark_all_unanswered();
    peers.mark_alive(0);
    assert!(!peers.is_unresponsive(0));
    assert!(peers.is_unresponsive(1));
    peers.remove_peer_by_id(1);
    assert_eq!(peers.len(), 1);
    assert_eq!(peers.insert_new_peer([10, 0, 0, 3], 3000), Some(2));
}

fn payload(difficulty: u32) -> PayloadHeader {
    PayloadHeader {
        previous_hash: BlockHash(B256([0u8; 32])),
        transaction_root: B256([0u8; 32]),
        state_root: B256([0u8; 32]),
        proposer: Address::min(),
        difficulty,
        timestamp: 1,
        height: 1,
        total_fee: U256::zero(),
    }
}

#[test]
fn halt_is_seen_within_one_round() {
    let mut control = MinerControl::new();
    assert!(control.halt());
    let job = control.start_job();
    let hard = payload(255);
    match worker_round(&control, job, &hard, 0) {
        Some(MineOutcome::Exhausted(next)) => assert_eq!(next, POLL_INTERVAL),
        other => panic!("unexpected {:?}", other),
    }
    assert!(!control.halt());
    assert!(worker_round(&control, job, &hard, POLL_INTERVAL).is_none());
    control.worker_done();
    assert_eq!(control.workers, 0);
}
