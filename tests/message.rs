use pint::message::NetworkHandleMessage;
use pint::transaction::DecodeError;
use pint::types::{BlockHash, B256};

const IP: [u8; 4] = [127, 0, 0, 1];

#[test]
fn hello_frame_layout_and_round_trip() {
    let raw = NetworkHandleMessage::Hello(7, [10, 0, 0, 2], 33333).encode();
    assert_eq!(raw[0], 0x08);
    assert_eq!(raw[1], 0);
    assert_eq!(&raw[2..10], &14u64.to_be_bytes());
    assert_eq!(raw.len(), 24);
    match NetworkHandleMessage::decode(&raw, IP, 1).unwrap() {
        Some(NetworkHandleMessage::Hello(pid, ip, port)) => {
            assert_eq!(pid, 7);
            assert_eq!(ip, [10, 0, 0, 2]);
            assert_eq!(port, 33333);
        }
        other => panic!("unexpected {:?}", other),
    }
}

#[test]
fn request_data_round_trip() {
    let raw = NetworkHandleMessage::RequestData(42).encode();
    assert_eq!(raw.len(), 18);
    assert!(matches!(NetworkHandleMessage::decode(&raw, IP, 1).unwrap(), Some(NetworkHandleMessage::RequestData(42))));
    let raw = NetworkHandleMessage::RequestDataResponseFinished.encode();
    assert_eq!(raw, vec![0x06, 0, 0, 0, 0, 0, 0, 0, 0, 0]);
}

#[test]
fn chain_hashes_round_trip() {
    let hashes = vec![BlockHash(B256([1u8; 32])), BlockHash(B256([2u8; 32]))];
    let raw = NetworkHandleMessage::RespondChainDataResult(2, hashes).encode();
    assert_eq!(raw.len(), 10 + 8 + 64);
    match NetworkHandleMessage::decode(&raw, IP, 1).unwrap() {
        Some(NetworkHandleMessage::RespondChainDataResult(n, hs)) => {
            assert_eq!(n, 2);
            assert_eq!(hs[0].0 .0, [1u8; 32]);
            assert_eq!(hs[1].0 .0, [2u8; 32]);
        }
        other => panic!("unexpected {:?}", other),
    }
}

#[test]
fn incomplete_unknown_and_future_frames_yield_nothing() {
    let raw = NetworkHandleMessage::RequestChainData([1, 2, 3, 4], 8888).encode();
    assert!(NetworkHandleMessage::decode(&raw[..raw.len() - 1], IP, 1).unwrap().is_none());
    assert!(NetworkHandleMessage::decode(&raw[..5], IP, 1).unwrap().is_none());
    let mut unknown = raw.clone();
    unknown[0] = 0x42;
    assert!(NetworkHandleMessage::decode(&unknown, IP, 1).unwrap().is_none());
    let mut future = raw.clone();
    future[1] = 1;
    assert!(NetworkHandleMessage::decode(&future, IP, 1).unwrap().is_none());
    match NetworkHandleMessage::decode(&raw, IP, 1).unwrap() {
        Some(NetworkHandleMessage::RequestChainData(ip, port)) => {
            assert_eq!(ip, [1, 2, 3, 4]);
            assert_eq!(port, 8888);
        }
        other => panic!("unexpected {:?}", other),
    }
}

#[test]
fn peer_test_names_the_peer_and_internal_messages_are_silent() {
    let raw = NetworkHandleMessage::PeerConnectionTest { ip: [0; 4], port: 0 }.encode();
    assert_eq!(raw.len(), 10);
    match NetworkHandleMessage::decode(&raw, IP, 5555).unwrap() {
        Some(NetworkHandleMessage::PeerConnectionTest { ip, port }) => {
            assert_eq!(ip, IP);
            assert_eq!(port, 5555);
        }
        other => panic!("unexpected {:?}", other),
    }
    assert!(NetworkHandleMessage::ReorgChainData.encode().is_empty());
    assert!(NetworkHandleMessage::RemovePeer(3).encode().is_empty());
}

#[test]
fn short_payload_is_an_error() {
    let mut raw = vec![0x07, 0];
    raw.extend_from_slice(&3u64.to_be_bytes());
    raw.extend_from_slice(&[1, 2, 3]);
    assert!(matches!(NetworkHandleMessage::decode(&raw, IP, 1), Err(DecodeError::TooShortRawData(_))));
}
