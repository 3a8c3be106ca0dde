use pairing_crypto::error::Error;
use pairing_crypto::keys::{PublicKey, SecretKey};
use pairing_crypto::message::Message;
use pairing_crypto::signature::Signature;

const CLAIMS: [&[u8]; 6] = [
    b"first_name",
    b"surname",
    b"date_of_birth",
    b"father",
    b"mother",
    b"credential_id",
];

fn claims() -> Vec<Message> {
    CLAIMS.iter().map(|c| Message::hash(c)).collect()
}

#[test]
fn sign_then_verify_accepts() {
    let sk = SecretKey::from_seed(b"abc", 6).unwrap();
    let pk = PublicKey::from_secret_key(&sk);
    let msgs = claims();
    let sig = Signature::new(&sk, &msgs).unwrap();
    assert!(sig.verify(&pk, &msgs));
}

#[test]
fn signing_is_deterministic() {
    let sk = SecretKey::from_seed(b"abc", 6).unwrap();
    let msgs = claims();
    let a = Signature::new(&sk, &msgs).unwrap();
    let b = Signature::new(&sk, &msgs).unwrap();
    assert_eq!(a.to_bytes(), b.to_bytes());
    let sk2 = SecretKey::from_seed(b"abc", 6).unwrap();
    let c = Signature::new(&sk2, &msgs).unwrap();
    assert_eq!(a.to_bytes(), c.to_bytes());
    let other = SecretKey::from_seed(b"abcdefgh", 6).unwrap();
    let d = Signature::new(&other, &msgs).unwrap();
    assert_ne!(a.to_bytes(), d.to_bytes());
}

#[test]
fn encoding_round_trips() {
    let sk = SecretKey::from_seed(b"", 6).unwrap();
    let sig = Signature::new(&sk, &claims()).unwrap();
    let bytes = sig.to_bytes();
    assert_eq!(bytes.len(), Signature::BYTES);
    let back = Signature::from_bytes(&bytes).unwrap();
    assert_eq!(back, sig);
    assert_eq!(back.to_bytes(), bytes);
}

#[test]
fn decoding_rejects_wrong_length() {
    assert_eq!(Signature::from_bytes(&[0u8; 127]), Err(Error::InvalidEncoding));
    assert_eq!(Signature::from_bytes(&[0u8; 129]), Err(Error::InvalidEncoding));
}

#[test]
fn decoding_rejects_non_canonical_scalar() {
    let sk = SecretKey::from_seed(b"abc", 6).unwrap();
    let mut bytes = Signature::new(&sk, &claims()).unwrap().to_bytes();
    for b in bytes[96..128].iter_mut() {
        *b = 0xff;
    }
    assert_eq!(Signature::from_bytes(&bytes), Err(Error::InvalidEncoding));
}

#[test]
fn too_many_messages_is_mismatched_lengths() {
    let sk = SecretKey::from_seed(b"abc", 2).unwrap();
    assert_eq!(Signature::new(&sk, &claims()), Err(Error::MismatchedLengths));
}

#[test]
fn verify_rejects_changed_message() {
    let sk = SecretKey::from_seed(b"abc", 6).unwrap();
    let pk = PublicKey::from_secret_key(&sk);
    let msgs = claims();
    let sig = Signature::new(&sk, &msgs).unwrap();
    let mut changed = msgs.clone();
    changed[3] = Message::hash(b"someone else");
    assert!(!sig.verify(&pk, &changed));
}

#[test]
fn verify_rejects_changed_signature_bytes() {
    let sk = SecretKey::from_seed(b"abc", 6).unwrap();
    let pk = PublicKey::from_secret_key(&sk);
    let msgs = claims();
    let bytes = Signature::new(&sk, &msgs).unwrap().to_bytes();
    for pos in 0..Signature::BYTES {
        let mut b = bytes.clone();
        b[pos] ^= 0x01;
        match Signature::from_bytes(&b) {
            Ok(s) => assert!(!s.verify(&pk, &msgs), "byte {} accepted", pos),
            Err(e) => assert_eq!(e, Error::InvalidEncoding),
        }
    }
}

#[test]
fn verify_rejects_other_key() {
    let sk = SecretKey::from_seed(b"abc", 6).unwrap();
    let other = PublicKey::from_secret_key(&SecretKey::from_seed(b"abcdefgh", 6).unwrap());
    let msgs = claims();
    let sig = Signature::new(&sk, &msgs).unwrap();
    assert!(!sig.verify(&other, &msgs));
}

#[test]
fn verify_rejects_more_messages_than_slots() {
    let sk = SecretKey::from_seed(b"abc", 6).unwrap();
    let msgs = claims();
    let sig = Signature::new(&sk, &msgs).unwrap();
    let small = PublicKey::from_secret_key(&SecretKey::from_seed(b"abc", 5).unwrap());
    assert!(!sig.verify(&small, &msgs));
}

#[test]
fn all_seeds_sign_and_verify() {
    let seeds: [&[u8]; 7] = [
        b"",
        b"abc",
        b"abcdefgh",
        b"abcdefghijklmnopqrstuvwxyz",
        b"qqqqqqqqqqqqqqqqqqqqqqqqqqqqqqqqqqqqqqqqqqqqqqqqqq",
        b"12345678901234567890123456789012345678901234567890",
        b"1qaz2wsx3edc4rfv5tgb6yhn7ujm8ik,9ol.0p;/",
    ];
    let msgs = claims();
    for seed in seeds {
        let sk = SecretKey::from_seed(seed, msgs.len()).unwrap();
        let pk = PublicKey::from_secret_key(&sk);
        let sig = Signature::new(&sk, &msgs).unwrap();
        assert!(sig.verify(&pk, &msgs));
    }
}

#[test]
fn identity_signature_is_rejected() {
    let sk = SecretKey::from_seed(b"abc", 6).unwrap();
    let pk = PublicKey::from_secret_key(&sk);
    let mut bytes = vec![0u8; Signature::BYTES];
    bytes[0] = 0xc0;
    bytes[48] = 0xc0;
    let sig = Signature::from_bytes(&bytes).unwrap();
    assert!(!sig.verify(&pk, &claims()));
}
