use k256::ecdsa::{RecoveryId, Signature as EcdsaSignature, SigningKey};
use k256::EncodedPoint;
use pint::block::{Block, Header};
use pint::transaction::{DecodeError, Signature, SignatureError, SignedTransaction, Transaction};
use pint::types::Address;
use pint::u256::U256;
use sha2::{Digest, Sha256};

fn create_key_pairs(seed: &[u8]) -> (SigningKey, Vec<u8>) {
    let private_key_random = Sha256::digest(seed);
    let signing_key = SigningKey::from_bytes(&private_key_random).unwrap();
    let verifying_key = *signing_key.verifying_key();
    let pubkey_uncompressed: EncodedPoint = verifying_key.to_encoded_point(false);
    let pubkey_bytes = pubkey_uncompressed.as_bytes();
    let address = pubkey_bytes[pubkey_bytes.len() - 20..].to_vec();
    (signing_key, address)
}

fn u256_of(bytes: &[u8]) -> U256 {
    U256::from_be_bytes(bytes, 0)
}

fn sign(tx: Transaction, signing_key: &SigningKey) -> SignedTransaction {
    let tx_hash = tx.encode_for_signing();
    let digest = Sha256::new_with_prefix(tx_hash.hash().0);
    let (sig, recid): (EcdsaSignature, RecoveryId) = signing_key.sign_digest_recoverable(digest).unwrap();
    let r: [u8; 32] = sig.r().to_bytes().into();
    let s: [u8; 32] = sig.s().to_bytes().into();
    let signature = Signature { y_parity: recid.to_byte() != 0, r: u256_of(&r), s: u256_of(&s) };
    SignedTransaction::new(tx, signature, tx_hash)
}

#[test]
fn test_primitives_encode_and_decode_transaction() {
    let (signing_key, sender) = create_key_pairs("pint".as_bytes());
    let sender = Address::from_byte(sender.try_into().unwrap());
    let (_, receiver) = create_key_pairs("apple".as_bytes());
    let receiver = Address::from_byte(receiver.try_into().unwrap());

    let tx = Transaction { chain_id: 0, nonce: 2, to: receiver, fee: 5, value: U256::from_u128(1000) };
    let signed_tx = sign(tx, &signing_key);
    let encoded = signed_tx.encode();

    let (recovered_signed, _) = SignedTransaction::decode(&encoded).unwrap();
    let recovered_sender = recovered_signed.recover_signer().unwrap();

    assert_eq!(sender, recovered_sender);
}

#[test]
fn signed_transaction_round_trip_keeps_fields() {
    let (signing_key, _) = create_key_pairs(b"chain");
    let (_, receiver) = create_key_pairs(b"banana");
    let tx = Transaction {
        chain_id: 7,
        nonce: 0x0102_0304_0506_0708,
        to: Address::from_byte(receiver.try_into().unwrap()),
        fee: 0x1122_3344_5566_7788_99aa_bbcc_ddee_ff00,
        value: U256 { hi: 3, lo: u128::MAX },
    };
    let signed = sign(tx, &signing_key);
    let encoded = signed.encode();
    assert_eq!(encoded.len(), 149);
    assert_eq!(&encoded[0..8], &[0, 0, 0, 0, 0, 0, 0, 7]);
    assert_eq!(&encoded[8..16], &[1, 2, 3, 4, 5, 6, 7, 8]);
    let (decoded, size) = SignedTransaction::decode(&encoded).unwrap();
    assert_eq!(size, 149);
    assert_eq!(decoded, signed);
}

#[test]
fn transaction_encoding_is_84_bytes() {
    let tx = Transaction { chain_id: 1, nonce: 2, to: Address::max(), fee: 3, value: U256::from_u128(4) };
    let raw = tx.encode();
    assert_eq!(raw.len(), 84);
    assert_eq!(Transaction::raw_len(), 84);
    assert_eq!(raw[7], 1);
    assert_eq!(raw[15], 2);
    assert!(raw[16..36].iter().all(|b| *b == 0xff));
    assert_eq!(raw[51], 3);
    assert_eq!(raw[83], 4);
    let (back, n) = Transaction::raw_decode(&raw).unwrap();
    assert_eq!(n, 84);
    assert_eq!(back, tx);
}

#[test]
fn signing_hash_is_sha256_of_encoding() {
    let tx = Transaction { chain_id: 1, nonce: 2, to: Address::min(), fee: 3, value: U256::from_u128(4) };
    let expected: [u8; 32] = Sha256::digest(tx.encode()).into();
    assert_eq!(tx.encode_for_signing().hash().0, expected);
    assert_ne!(expected.to_vec(), tx.encode());
}

#[test]
fn decode_rejects_short_input() {
    let raw = vec![0u8; 148];
    match SignedTransaction::decode(&raw) {
        Err(DecodeError::TooShortRawData(v)) => assert_eq!(v, raw),
        other => panic!("unexpected {:?}", other),
    }
}

#[test]
fn decode_rejects_bad_parity() {
    let mut raw = vec![0u8; 149];
    raw[148] = 2;
    assert_eq!(
        SignedTransaction::decode(&raw).unwrap_err(),
        DecodeError::InvalidSignature(SignatureError::InvalidParity(2))
    );
}

#[test]
fn recover_signer_fails_on_zero_signature() {
    let tx = Transaction { chain_id: 0, nonce: 0, to: Address::min(), fee: 1, value: U256::zero() };
    let signed = tx.into_signed(Signature { y_parity: false, r: U256::zero(), s: U256::zero() });
    assert!(signed.recover_signer().is_err());
    assert!(signed.into_recovered().is_err());
}

#[test]
fn header_round_trip_keeps_fields() {
    let mut h = Header::genesis_header();
    h.timestamp = 1_700_000_000;
    h.nonce = 99;
    h.difficulty = 21;
    h.height = 5;
    h.total_fee = U256::from_u128(1005);
    h.proposer = Address::max();
    let raw = h.encode();
    assert_eq!(raw.len(), 176);
    let arr: [u8; 176] = raw.as_slice().try_into().unwrap();
    assert_eq!(Header::decode(&arr), h);
}

#[test]
fn block_round_trip_keeps_body_order() {
    let (k1, _) = create_key_pairs(b"pint");
    let (k2, _) = create_key_pairs(b"apple");
    let t1 = sign(Transaction { chain_id: 0, nonce: 0, to: Address::max(), fee: 5, value: U256::from_u128(1) }, &k1);
    let t2 = sign(Transaction { chain_id: 0, nonce: 1, to: Address::min(), fee: 6, value: U256::from_u128(2) }, &k2);
    let mut header = Header::genesis_header();
    header.height = 1;
    let block = Block { header, body: vec![t1, t2] };
    let raw = block.encode();
    assert_eq!(raw.len(), 176 + 2 * 149);
    let back = Block::decode(&raw).unwrap();
    assert_eq!(back.header, block.header);
    assert_eq!(back.body, block.body);
}

#[test]
fn block_decode_rejects_short_input() {
    assert!(matches!(Block::decode(&[0u8; 175]), Err(DecodeError::TooShortRawData(_))));
}

#[test]
fn identical_blocks_have_identical_hash() {
    let mut h1 = Header::genesis_header();
    h1.height = 3;
    let h2 = h1;
    assert_eq!(h1.calculate_hash(), h2.calculate_hash());
    let mut h3 = h1;
    h3.nonce = 1;
    assert_ne!(h1.calculate_hash(), h3.calculate_hash());
    let expected: [u8; 32] = Sha256::digest(h1.encode()).into();
    assert_eq!(h1.calculate_hash().hash().0, expected);
}

#[test]
fn address_from_hex_parses_forty_digits() {
    let a = Address::from_hex("28dcb1338b900419cd613a8fb273ae36e7ec2b1d").unwrap();
    assert_eq!(a.0[0], 0x28);
    assert_eq!(a.0[19], 0x1d);
    assert_eq!(String::from_utf8(a.get_addr_hex()).unwrap(), "28dcb1338b900419cd613a8fb273ae36e7ec2b1d");
    assert_eq!(Address::from_hex("zz"), Err(pint::types::AddressError::FromHexError));
    assert_eq!(Address::from_hex("abcd"), Err(pint::types::AddressError::InvalidLength(2)));
}

#[test]
fn account_and_key_encodings() {
    let acc = pint::types::Account::new(9, U256::from_u128(258));
    let raw = acc.encode();
    assert_eq!(raw.len(), 40);
    assert_eq!(raw[7], 9);
    assert_eq!(&raw[38..40], &[1, 2]);
    assert_eq!(pint::types::Account::decode(&raw), Some(acc));
    assert_eq!(pint::types::Account::decode(&raw[..39]), None);
    let key = pint::db::DBAdress::new(Address::max(), 3);
    let raw = key.encode();
    assert_eq!(raw.len(), 28);
    assert_eq!(pint::db::DBAdress::decode(&raw), Some(key));
}

#[test]
fn u256_saturates() {
    let max = U256::max_value();
    assert_eq!(max.saturating_add(&U256::from_u128(1)), max);
    assert_eq!(U256::from_u128(1).saturating_sub(&U256::from_u128(2)), U256::zero());
    let carry = U256::from_u128(u128::MAX).saturating_add(&U256::from_u128(1));
    assert_eq!(carry, U256 { hi: 1, lo: 0 });
    assert_eq!(carry.saturating_sub(&U256::from_u128(1)), U256::from_u128(u128::MAX));
}
