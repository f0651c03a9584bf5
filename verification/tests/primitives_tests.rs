use mbongo_core::primitives::{compute_transactions_root, Address, Transaction, TransactionType};
use ed25519_dalek::Signer;

#[test]
fn hash_invalid_length() {
    let too_short = "0x1234"; // Not 64 hex characters
    assert!(too_short.parse::<mbongo_core::primitives::Hash>().is_err());

    let too_long = "0x".to_string() + &"0".repeat(65);
    assert!(too_long.parse::<mbongo_core::primitives::Hash>().is_err());
}

#[test]
fn hash_parse_accepts_missing_prefix() {
    // The 0x prefix is optional when parsing.
    let no_prefix = "0".repeat(64);
    let parsed: mbongo_core::primitives::Hash = no_prefix.parse().unwrap();
    assert_eq!(parsed, mbongo_core::primitives::Hash::zero());
}

#[test]
fn hash_text_roundtrip() {
    let h = mbongo_core::primitives::Hash([0xABu8; 32]);
    let s = h.to_string();
    assert_eq!(s.len(), 66);
    assert!(s.starts_with("0xabab"));
    let back: mbongo_core::primitives::Hash = s.parse().unwrap();
    assert_eq!(back, h);

    let zero = mbongo_core::primitives::Hash::zero();
    assert_eq!(zero.to_string(), format!("0x{}", "0".repeat(64)));
}

#[test]
fn hash_parse_rejects_bad_characters() {
    let bad = "0x".to_string() + &"zz".repeat(32);
    assert!(mbongo_core::primitives::Hash::parse(&bad).is_err());
    // Uppercase digits are accepted.
    let upper = "0x".to_string() + &"AB".repeat(32);
    let parsed = mbongo_core::primitives::Hash::parse(&upper).unwrap();
    assert_eq!(parsed, mbongo_core::primitives::Hash([0xABu8; 32]));
}

#[test]
fn address_text_roundtrip() {
    let a = Address([7u8; 32]);
    let s = a.to_string();
    let back: Address = s.parse().unwrap();
    assert_eq!(back, a);
    assert_eq!(Address::zero(), Address::default());
}

#[test]
fn blake3_digest_matches_known_vector() {
    // BLAKE3 of the empty input.
    let digest = mbongo_core::hashing::hash_bytes(b"");
    let expected =
        "af1349b9f5f9a1a6a0404dea36dcc9499bcb25c9adc112b7cc9a93cae41f3262";
    let got: String = digest.iter().map(|b| format!("{:02x}", b)).collect();
    assert_eq!(got, expected);
}

fn sample_tx(tt: TransactionType) -> Transaction {
    Transaction {
        tx_type: tt,
        sender: Address([3u8; 32]),
        receiver: Address([4u8; 32]),
        amount: 1234,
        nonce: 9,
        signature: [5u8; 64],
    }
}

#[test]
fn encoding_roundtrip_all_tx_types() {
    for tt in [
        TransactionType::Transfer,
        TransactionType::ComputeTask,
        TransactionType::Stake,
    ] {
        let tx = sample_tx(tt);
        let enc = mbongo_core::primitives::encode_transaction(&tx);
        assert_eq!(enc.len(), 153);
        let dec = mbongo_core::primitives::decode_transaction(&enc).unwrap();
        assert_eq!(dec.tx_type, tt);
        assert_eq!(dec.sender, Address([3u8; 32]));
        assert_eq!(dec.receiver, Address([4u8; 32]));
        assert_eq!(dec.amount, 1234);
        assert_eq!(dec.nonce, 9);
        assert_eq!(dec.signature, [5u8; 64]);
        assert_eq!(dec, tx);
    }
}

#[test]
fn decode_rejects_malformed_encodings() {
    // Truncated input.
    assert!(mbongo_core::primitives::decode_transaction(&[0u8; 100]).is_err());
    // Unknown discriminant.
    let mut enc = mbongo_core::primitives::encode_transaction(&sample_tx(
        TransactionType::Transfer,
    ));
    enc[0] = 9;
    assert!(mbongo_core::primitives::decode_transaction(&enc).is_err());
    // Trailing byte.
    let mut enc2 = mbongo_core::primitives::encode_transaction(&sample_tx(
        TransactionType::Transfer,
    ));
    enc2.push(0);
    assert!(mbongo_core::primitives::decode_transaction(&enc2).is_err());
}

#[test]
fn signing_payload_omits_signature() {
    let a = sample_tx(TransactionType::Transfer);
    let mut b = sample_tx(TransactionType::Transfer);
    b.signature = [9u8; 64];
    assert_eq!(a.signing_payload(), b.signing_payload());
    assert_eq!(a.signing_payload().len(), 89);
    assert_ne!(
        mbongo_core::primitives::encode_transaction(&a),
        mbongo_core::primitives::encode_transaction(&b)
    );
}

#[test]
fn ed25519_signature_verification_transfer() {
    let sk_bytes = [1u8; 32];
    let sk = ed25519_dalek::SigningKey::from_bytes(&sk_bytes);
    let vk = sk.verifying_key();
    let sender = Address(vk.to_bytes());
    let tx = Transaction {
        tx_type: TransactionType::Transfer,
        sender,
        receiver: Address::zero(),
        amount: 42,
        nonce: 7,
        signature: [0u8; 64],
    };
    let payload = tx.signing_payload();
    let sig = sk.sign(&payload);
    let mut tx_signed = tx;
    tx_signed.signature = sig.to_bytes();
    assert!(tx_signed.verify_signature());

    // Any mutation after signing breaks verification.
    let mut mutated = tx_signed.clone();
    mutated.amount = 43;
    assert!(!mutated.verify_signature());
    let mut wrong_nonce = tx_signed.clone();
    wrong_nonce.nonce = 8;
    assert!(!wrong_nonce.verify_signature());
    let mut wrong_receiver = tx_signed.clone();
    wrong_receiver.receiver = Address([1u8; 32]);
    assert!(!wrong_receiver.verify_signature());
    // An unsigned transaction does not verify.
    let mut unsigned = tx_signed;
    unsigned.signature = [0u8; 64];
    assert!(!unsigned.verify_signature());
}

#[test]
fn transactions_root_changes_with_body() {
    let a = vec![Transaction {
        tx_type: TransactionType::Transfer,
        sender: Address::zero(),
        receiver: Address::zero(),
        amount: 1,
        nonce: 0,
        signature: [0u8; 64],
    }];
    let b = vec![Transaction {
        tx_type: TransactionType::Transfer,
        sender: Address::zero(),
        receiver: Address::zero(),
        amount: 2,
        nonce: 0,
        signature: [0u8; 64],
    }];
    let ra = compute_transactions_root(&a);
    let rb = compute_transactions_root(&b);
    assert_ne!(ra, rb);
}

#[test]
fn transactions_root_order_sensitive() {
    let a = sample_tx(TransactionType::Transfer);
    let mut b = sample_tx(TransactionType::Stake);
    b.nonce = 10;
    let r1 = compute_transactions_root(&[a.clone(), b.clone()]);
    let r2 = compute_transactions_root(&[b, a]);
    assert_ne!(r1, r2);
}

#[test]
fn transactions_root_deterministic() {
    let txs = vec![
        sample_tx(TransactionType::Transfer),
        sample_tx(TransactionType::ComputeTask),
    ];
    assert_eq!(
        compute_transactions_root(&txs),
        compute_transactions_root(&txs)
    );
}

#[test]
fn it_works() {
    assert_eq!(2 + 2, 4);
}

#[test]
fn lib_it_works() {
    assert_eq!(2 + 2, 4);
}

#[test]
fn main_it_works() {
    assert_eq!(2 + 2, 4);
}
