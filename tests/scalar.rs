use pairing_crypto::builder::ProofCommittedBuilder;
use pairing_crypto::error::Error;
use pairing_crypto::keys::{PublicKey, SecretKey};
use pairing_crypto::message::{Challenge, Message};
use pairing_crypto::scalar::Fr;
use pairing_crypto::transcript::u64_le_bytes;

const Q_LE: [u8; 32] = [
    0x01, 0x00, 0x00, 0x00, 0xff, 0xff, 0xff, 0xff, 0xfe, 0x5b, 0xfe, 0xff, 0x02, 0xa4, 0xbd, 0x53,
    0x05, 0xd8, 0xa1, 0x09, 0x08, 0xd8, 0x39, 0x33, 0x48, 0x7d, 0x9d, 0x29, 0x53, 0xa7, 0xed, 0x73,
];

#[test]
fn field_arithmetic_values() {
    let two = Fr::from_u64(2);
    let three = Fr::from_u64(3);
    assert_eq!(two.add(&three), Fr::from_u64(5));
    assert_eq!(two.mul(&three), Fr::from_u64(6));
    assert_eq!(three.neg().add(&three), Fr::zero());
    assert!(three.neg().add(&three).is_zero());
    assert!(!three.is_zero());
    let inv = two.invert().unwrap();
    assert_eq!(inv.mul(&two), Fr::one());
    assert!(Fr::zero().invert().is_none());
    assert!(two.equals(&Fr::from_u64(2)));
    assert!(!two.equals(&three));
}

#[test]
fn negation_wraps_modulo_q() {
    let mut q_minus_one = Q_LE;
    q_minus_one[0] = 0x00;
    assert_eq!(Fr::one().neg().to_bytes(), q_minus_one);
}

#[test]
fn canonical_decoding_stops_at_q() {
    assert!(Fr::from_bytes(Q_LE).is_none());
    let mut below = Q_LE;
    below[0] = 0x00;
    assert!(Fr::from_bytes(below).is_some());
    let mut five = [0u8; 32];
    five[0] = 5;
    assert_eq!(Fr::from_bytes(five).unwrap(), Fr::from_u64(5));
    assert_eq!(Fr::from_u64(0x0102).to_bytes()[..2], [0x02, 0x01]);
}

#[test]
fn wide_and_okm_reductions() {
    let mut wide = [0u8; 64];
    wide[0] = 7;
    assert_eq!(Fr::from_wide(wide), Fr::from_u64(7));
    wide[..32].copy_from_slice(&Q_LE);
    wide[0] = 0x08;
    assert_eq!(Fr::from_wide(wide), Fr::from_u64(7));
    let mut okm = [0u8; 48];
    okm[47] = 9;
    okm[46] = 1;
    assert_eq!(Fr::from_okm(okm), Fr::from_u64(0x0109));
    assert_eq!(Challenge::from_okm(okm).0, Fr::from_u64(0x0109));
}

#[test]
fn hashing_is_deterministic_and_input_dependent() {
    assert_eq!(Message::hash(b"surname"), Message::hash(b"surname"));
    assert_ne!(Message::hash(b"surname"), Message::hash(b"father"));
    assert_ne!(Fr::hash(b""), Fr::zero());
    assert_eq!(Challenge::hash(b"abc").0, Fr::hash(b"abc"));
}

#[test]
fn random_scalars_differ() {
    assert_ne!(Fr::random(), Fr::random());
}

#[test]
fn index_bytes_are_little_endian() {
    assert_eq!(u64_le_bytes(0x0102030405060708), vec![8, 7, 6, 5, 4, 3, 2, 1]);
    assert_eq!(u64_le_bytes(0), vec![0u8; 8]);
}

#[test]
fn key_derivation_depends_on_seed_and_slot() {
    let a = SecretKey::from_seed(b"abc", 3).unwrap();
    let b = SecretKey::from_seed(b"abc", 3).unwrap();
    let c = SecretKey::from_seed(b"abd", 3).unwrap();
    assert_eq!(a.x, b.x);
    assert_eq!(a.y, b.y);
    assert_ne!(a.x, c.x);
    assert_ne!(a.x, a.w);
    assert_ne!(a.y[0], a.y[1]);
    assert_eq!(a.y.len(), 3);
    let pk = PublicKey::from_secret_key(&a);
    assert_eq!(pk.message_count(), 3);
    assert_ne!(pk.x, pk.w);
}

#[test]
fn builder_responses_follow_insertion_order() {
    let pk = PublicKey::from_secret_key(&SecretKey::from_seed(b"abc", 2).unwrap());
    let mut b = ProofCommittedBuilder::new();
    b.commit(pk.w, Fr::from_u64(5)).unwrap();
    b.commit(pk.y[0], Fr::from_u64(10)).unwrap();
    assert_eq!(b.len(), 2);
    let mut t = vec![1u8, 2, 3];
    b.add_challenge_contribution(&mut t);
    assert_eq!(t.len(), 3 + 192);
    assert_eq!(t[..3], [1, 2, 3]);
    assert_eq!(t[3..], b.commitment().to_uncompressed()[..]);
    let r = b.generate_proof(Fr::from_u64(3), &vec![Fr::from_u64(7), Fr::from_u64(1)]).unwrap();
    assert_eq!(r, vec![Fr::from_u64(26), Fr::from_u64(13)]);
}

#[test]
fn builder_rejects_wrong_secret_count() {
    let pk = PublicKey::from_secret_key(&SecretKey::from_seed(b"abc", 1).unwrap());
    let mut b = ProofCommittedBuilder::new();
    b.commit(pk.w, Fr::from_u64(5)).unwrap();
    b.commit_random(pk.y[0]).unwrap();
    assert_eq!(b.len(), 2);
    let r = b.generate_proof(Fr::from_u64(3), &vec![Fr::from_u64(7)]);
    assert_eq!(r, Err(Error::BuilderMisuse));
}

#[test]
fn commitment_depends_on_blindings() {
    let pk = PublicKey::from_secret_key(&SecretKey::from_seed(b"abc", 1).unwrap());
    let mut a = ProofCommittedBuilder::new();
    a.commit(pk.w, Fr::from_u64(5)).unwrap();
    let mut b = ProofCommittedBuilder::new();
    b.commit(pk.w, Fr::from_u64(6)).unwrap();
    assert_ne!(a.commitment(), b.commitment());
    assert_ne!(a.commitment().to_uncompressed()[..], pk.w.to_uncompressed()[..]);
}

#[test]
fn derived_keys_are_valid() {
    let sk = SecretKey::from_seed(b"abc", 4).unwrap();
    assert!(sk.is_valid());
    let zeroed = SecretKey { x: Fr::zero(), w: sk.w, y: sk.y.clone() };
    assert!(!zeroed.is_valid());
    let mut ys = sk.y.clone();
    ys[2] = Fr::zero();
    let bad_slot = SecretKey { x: sk.x, w: sk.w, y: ys };
    assert!(!bad_slot.is_valid());
}

#[test]
fn builder_rejects_zero_blinding_and_zero_challenge() {
    let pk = PublicKey::from_secret_key(&SecretKey::from_seed(b"abc", 1).unwrap());
    let mut b = ProofCommittedBuilder::new();
    assert_eq!(b.commit(pk.w, Fr::zero()), Err(Error::ZeroBlinding));
    assert_eq!(b.len(), 0);
    b.commit(pk.w, Fr::from_u64(5)).unwrap();
    let r = b.generate_proof(Fr::zero(), &vec![Fr::from_u64(7)]);
    assert_eq!(r, Err(Error::BuilderMisuse));
}
