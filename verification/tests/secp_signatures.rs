use clarity_repl::secp256k1::{
    secp256k1_recover, secp256k1_verify, MessageSignature, Secp256k1Error, Secp256k1PrivateKey, Secp256k1PublicKey,
};

fn signed(msg: &[u8; 32], key: &[u8; 32]) -> ([u8; 64], [u8; 65], Vec<u8>) {
    let ctx = secp256k1::Secp256k1::new();
    let sk = secp256k1::SecretKey::from_slice(key).unwrap();
    let m = secp256k1::Message::from_slice(msg).unwrap();
    let plain = ctx.sign(&m, &sk).serialize_compact();
    let (id, rec) = ctx.sign_recoverable(&m, &sk).serialize_compact();
    let mut with_id = [0u8; 65];
    with_id[..64].copy_from_slice(&rec);
    with_id[64] = id.to_i32() as u8;
    let pk = secp256k1::PublicKey::from_secret_key(&ctx, &sk).serialize().to_vec();
    (plain, with_id, pk)
}

#[test]
fn a_signature_verifies_and_recovers_its_key() {
    let msg = [7u8; 32];
    let (plain, with_id, pk) = signed(&msg, &[3u8; 32]);
    assert_eq!(secp256k1_verify(&msg, &plain, &pk), Ok(()));
    assert_eq!(secp256k1_recover(&msg, &with_id), Ok(pk.clone()));
    let other = [8u8; 32];
    assert_eq!(secp256k1_verify(&other, &plain, &pk), Err(Secp256k1Error::IncorrectSignature));
}

#[test]
fn verify_and_recover_errors() {
    let msg = [7u8; 32];
    let (plain, mut with_id, pk) = signed(&msg, &[3u8; 32]);
    assert_eq!(secp256k1_verify(&msg[..31], &plain, &pk), Err(Secp256k1Error::InvalidMessage));
    assert_eq!(secp256k1_verify(&msg, &[0xffu8; 64], &pk), Err(Secp256k1Error::InvalidSignature));
    assert_eq!(secp256k1_verify(&msg, &plain, &[5u8; 33]), Err(Secp256k1Error::InvalidPublicKey));
    assert_eq!(secp256k1_verify(&msg, &[0u8; 65], &pk), Err(Secp256k1Error::IncorrectSignature));
    with_id[64] = 4;
    assert_eq!(secp256k1_recover(&msg, &with_id), Err(Secp256k1Error::InvalidRecoveryId));
    assert_eq!(secp256k1_recover(&msg[..1], &with_id), Err(Secp256k1Error::InvalidMessage));
    assert_eq!(secp256k1_recover(&msg, &[0u8; 65]), Err(Secp256k1Error::InvalidSignature));
}

#[test]
fn recover_to_pubkey_gives_the_signer() {
    let msg = [9u8; 32];
    let (_, with_id, pk) = signed(&msg, &[5u8; 32]);
    let mut sig = [0u8; 65];
    sig[0] = with_id[64];
    sig[1..].copy_from_slice(&with_id[..64]);
    let key = Secp256k1PublicKey::recover_to_pubkey(&msg, &MessageSignature(sig)).unwrap();
    assert_eq!(key.to_bytes(), pk);
    assert!(MessageSignature(sig).to_secp256k1_recoverable().is_some());
    assert!(MessageSignature::empty().to_secp256k1_recoverable().is_some());
    assert_eq!(
        Secp256k1PublicKey::recover_to_pubkey(&msg, &MessageSignature::empty()).err(),
        Some("Invalid signature: failed to recover public key")
    );
}

#[test]
fn keys_give_back_their_bytes() {
    let k = Secp256k1PrivateKey::from_slice(&[1u8; 32]).unwrap();
    assert_eq!(k.to_hex(), "01".repeat(32));
    let mut marked = [1u8; 33];
    marked[32] = 1;
    let k2 = Secp256k1PrivateKey::from_slice(&marked).unwrap();
    assert_eq!(k2.to_hex(), "01".repeat(33));
    let p = Secp256k1PublicKey::from_private(&k2);
    let bytes = p.to_bytes();
    assert_eq!(Secp256k1PublicKey::from_slice(&bytes).unwrap().to_bytes(), bytes);
    let p_long = Secp256k1PublicKey::from_private(&k);
    let long = p_long.to_bytes();
    assert_eq!(long.len(), 65);
    assert_eq!(Secp256k1PublicKey::from_slice(&long).unwrap().to_bytes(), long);
    assert_eq!(p_long.to_bytes_compressed(), bytes);
}

#[test]
fn a_zero_secret_key_is_refused() {
    assert_eq!(Secp256k1PrivateKey::from_slice(&[0u8; 32]).err(), Some("Invalid private key: failed to load"));
    assert_eq!(Secp256k1PrivateKey::from_slice(&[0xffu8; 32]).err(), Some("Invalid private key: failed to load"));
}

#[test]
fn a_recoverable_signature_is_written_with_its_id_first() {
    let ctx = secp256k1::Secp256k1::new();
    let sk = secp256k1::SecretKey::from_slice(&[4u8; 32]).unwrap();
    let m = secp256k1::Message::from_slice(&[6u8; 32]).unwrap();
    let rec = ctx.sign_recoverable(&m, &sk);
    let (id, compact) = rec.serialize_compact();
    let written = MessageSignature::from_secp256k1_recoverable(&rec);
    assert_eq!(written.0[0] as i32, id.to_i32());
    assert_eq!(&written.0[1..], &compact[..]);
    assert!(written.to_secp256k1_recoverable().is_some());
}
