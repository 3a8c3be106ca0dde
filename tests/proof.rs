use pairing_crypto::error::Error;
use pairing_crypto::keys::{PublicKey, SecretKey};
use pairing_crypto::message::{Challenge, HiddenMessage, Message, Nonce, ProofMessage};
use pairing_crypto::pok_signature::{derive_proof, derive_proof_with_randomness, PokSignature, PokSignatureProof};
use pairing_crypto::pok_verify::Verifier;
use pairing_crypto::scalar::Fr;
use pairing_crypto::signature::Signature;

const CLAIMS: [&[u8]; 6] = [
    b"first_name",
    b"surname",
    b"date_of_birth",
    b"father",
    b"mother",
    b"credential_id",
];

fn setup(seed: &[u8]) -> (PublicKey, Signature, Vec<Message>) {
    let msgs: Vec<Message> = CLAIMS.iter().map(|c| Message::hash(c)).collect();
    let sk = SecretKey::from_seed(seed, msgs.len()).unwrap();
    let pk = PublicKey::from_secret_key(&sk);
    let sig = Signature::new(&sk, &msgs).unwrap();
    (pk, sig, msgs)
}

fn all_hidden(msgs: &[Message]) -> Vec<ProofMessage> {
    msgs.iter().map(|m| ProofMessage::Hidden(HiddenMessage::ProofSpecificBlinding(*m))).collect()
}

fn fixed_blindings(n: usize, start: u64) -> Vec<Fr> {
    (0..n as u64 + 2).map(|i| Fr::from_u64(start + 7 * i + 1)).collect()
}

fn reveal_one_at_a_time(seed: &[u8]) {
    let (pk, sig, msgs) = setup(seed);
    let nonce = Nonce::default();
    assert_eq!(nonce.to_bytes(), [0u8; 32]);
    let mut proof_msgs = all_hidden(&msgs);
    for j in 0..proof_msgs.len() {
        let (proof, c) = derive_proof(sig, &pk, &proof_msgs, nonce).unwrap();
        let revealed: Vec<(usize, Message)> = (0..j).map(|k| (k, msgs[k])).collect();
        assert_eq!(proof.proof.len(), 2 + msgs.len() - j);
        assert!(Verifier::verify_signature_pok(&revealed, &pk, msgs.len(), &proof, nonce, c), "step {}", j);
        proof_msgs[j] = ProofMessage::Revealed(msgs[j]);
    }
}

#[test]
fn proofs_reveal_one_message_at_a_time() {
    reveal_one_at_a_time(b"abc");
}

#[test]
fn proofs_reveal_one_message_at_a_time_empty_seed() {
    reveal_one_at_a_time(b"");
}

#[test]
fn step_by_step_proof_verifies() {
    let (pk, sig, msgs) = setup(b"abcdefgh");
    let mut proof_msgs = all_hidden(&msgs);
    proof_msgs[1] = ProofMessage::Revealed(msgs[1]);
    proof_msgs[4] = ProofMessage::Revealed(msgs[4]);
    let nonce = Nonce::random();
    let pok = PokSignature::init(sig, &pk, &proof_msgs).unwrap();
    let mut transcript = Vec::new();
    pok.add_proof_contribution(&mut transcript);
    assert_eq!(transcript.len(), 96 + 96 + 192 + 192);
    transcript.extend_from_slice(&nonce.to_bytes());
    let c = Challenge::hash(&transcript);
    let proof = pok.generate_proof(c).unwrap();
    let revealed = vec![(1usize, msgs[1]), (4usize, msgs[4])];
    assert!(Verifier::verify_signature_pok(&revealed, &pk, msgs.len(), &proof, nonce, c));
    assert_eq!(proof.to_bytes().len(), 48 + 48 + 96 + 32 * 6);
}

#[test]
fn fixed_randomness_gives_identical_proofs() {
    let (pk, sig, msgs) = setup(b"abc");
    let mut proof_msgs = all_hidden(&msgs);
    proof_msgs[0] = ProofMessage::Revealed(msgs[0]);
    let bl = fixed_blindings(msgs.len(), 100);
    let nonce = Nonce::zero();
    let (p1, c1) =
        derive_proof_with_randomness(sig, &pk, &proof_msgs, nonce, Fr::from_u64(3), Fr::from_u64(5), &bl).unwrap();
    let (p2, c2) =
        derive_proof_with_randomness(sig, &pk, &proof_msgs, nonce, Fr::from_u64(3), Fr::from_u64(5), &bl).unwrap();
    assert_eq!(c1, c2);
    assert_eq!(p1.to_bytes(), p2.to_bytes());
    assert!(Verifier::verify_signature_pok(&[(0, msgs[0])], &pk, msgs.len(), &p1, nonce, c1));
}

#[test]
fn challenge_from_other_nonce_is_rejected() {
    let (pk, sig, msgs) = setup(b"abc");
    let proof_msgs = all_hidden(&msgs);
    let nonce = Nonce(Fr::from_u64(1));
    let other = Nonce(Fr::from_u64(2));
    let (proof, c) = derive_proof(sig, &pk, &proof_msgs, nonce).unwrap();
    assert!(Verifier::verify_signature_pok(&[], &pk, msgs.len(), &proof, nonce, c));
    assert!(!Verifier::verify_signature_pok(&[], &pk, msgs.len(), &proof, other, c));
    let (_, c_other) = derive_proof(sig, &pk, &proof_msgs, other).unwrap();
    assert!(!Verifier::verify_signature_pok(&[], &pk, msgs.len(), &proof, nonce, c_other));
}

#[test]
fn tampered_proofs_are_rejected() {
    let (pk, sig, msgs) = setup(b"abc");
    let mut proof_msgs = all_hidden(&msgs);
    proof_msgs[2] = ProofMessage::Revealed(msgs[2]);
    let nonce = Nonce::zero();
    let (proof, c) = derive_proof(sig, &pk, &proof_msgs, nonce).unwrap();
    let revealed = vec![(2usize, msgs[2])];
    assert!(Verifier::verify_signature_pok(&revealed, &pk, msgs.len(), &proof, nonce, c));

    let wrong_value = vec![(2usize, msgs[3])];
    assert!(!Verifier::verify_signature_pok(&wrong_value, &pk, msgs.len(), &proof, nonce, c));

    let wrong_slot = vec![(3usize, msgs[2])];
    assert!(!Verifier::verify_signature_pok(&wrong_slot, &pk, msgs.len(), &proof, nonce, c));

    let mut bad = proof.clone();
    bad.proof[3] = bad.proof[3].add(&Fr::one());
    assert!(!Verifier::verify_signature_pok(&revealed, &pk, msgs.len(), &bad, nonce, c));

    let mut short = proof.clone();
    short.proof.pop();
    assert!(!Verifier::verify_signature_pok(&revealed, &pk, msgs.len(), &short, nonce, c));

    let bad_challenge = Challenge(c.0.add(&Fr::one()));
    assert!(!Verifier::verify_signature_pok(&revealed, &pk, msgs.len(), &proof, nonce, bad_challenge));
}

#[test]
fn revealed_indices_out_of_range_or_repeated_are_rejected() {
    let (pk, sig, msgs) = setup(b"abc");
    let nonce = Nonce::zero();
    let (proof, c) = derive_proof(sig, &pk, &all_hidden(&msgs), nonce).unwrap();
    assert!(!Verifier::verify_signature_pok(&[(6, msgs[0])], &pk, msgs.len(), &proof, nonce, c));
    assert!(!Verifier::verify_signature_pok(&[(1, msgs[1]), (1, msgs[1])], &pk, msgs.len(), &proof, nonce, c));
}

#[test]
fn proof_needs_enough_slots() {
    let (_, sig, msgs) = setup(b"abc");
    let small = PublicKey::from_secret_key(&SecretKey::from_seed(b"abc", 5).unwrap());
    let res = PokSignature::init(sig, &small, &all_hidden(&msgs));
    assert!(matches!(res, Err(Error::MismatchedLengths)));
    let res = derive_proof(sig, &small, &all_hidden(&msgs), Nonce::zero());
    assert!(matches!(res, Err(Error::MismatchedLengths)));
}

#[test]
fn blindings_must_match_message_count() {
    let (pk, sig, msgs) = setup(b"abc");
    let bl = fixed_blindings(msgs.len() - 1, 0);
    let res = PokSignature::init_with_randomness(sig, &pk, &all_hidden(&msgs), Fr::one(), Fr::one(), &bl);
    assert!(matches!(res, Err(Error::MismatchedLengths)));
}

#[test]
fn external_blinding_links_two_proofs() {
    let (pk, sig, msgs) = setup(b"abc");
    let n = Nonce(Fr::from_u64(424242));
    let mut first = all_hidden(&msgs);
    first[0] = ProofMessage::Revealed(msgs[0]);
    first[3] = ProofMessage::Hidden(HiddenMessage::ExternalBlinding(msgs[3], n));
    let mut second = first.clone();
    second[1] = ProofMessage::Hidden(HiddenMessage::ExternalBlinding(msgs[1], Nonce(Fr::from_u64(9))));
    let nonce = Nonce::zero();
    let (p1, c1) = derive_proof_with_randomness(
        sig, &pk, &first, nonce, Fr::from_u64(11), Fr::from_u64(13), &fixed_blindings(6, 1000),
    )
    .unwrap();
    let (p2, c2) = derive_proof_with_randomness(
        sig, &pk, &second, nonce, Fr::from_u64(17), Fr::from_u64(19), &fixed_blindings(6, 5000),
    )
    .unwrap();
    let revealed = vec![(0usize, msgs[0])];
    assert!(Verifier::verify_signature_pok(&revealed, &pk, msgs.len(), &p1, nonce, c1));
    assert!(Verifier::verify_signature_pok(&revealed, &pk, msgs.len(), &p2, nonce, c2));
    // Slot 3 is the third hidden slot, after the pairs for t and m_tick.
    let k = 2 + 2;
    let blind1 = p1.proof[k].add(&c1.0.mul(&msgs[3].0).neg());
    let blind2 = p2.proof[k].add(&c2.0.mul(&msgs[3].0).neg());
    assert_eq!(blind1, n.0);
    assert_eq!(blind2, n.0);
    // The proof-specific blindings of other slots differ.
    let other1 = p1.proof[k + 1].add(&c1.0.mul(&msgs[4].0).neg());
    let other2 = p2.proof[k + 1].add(&c2.0.mul(&msgs[4].0).neg());
    assert_ne!(other1, other2);
}

#[test]
fn seeded_scenario_is_reproducible_and_verifies() {
    let (pk, sig, msgs) = setup(b"abc");
    let nonce = Nonce::zero();
    let mut proof_msgs = all_hidden(&msgs);
    let mut previous: Vec<Vec<u8>> = Vec::new();
    for j in 0..proof_msgs.len() {
        let bl = fixed_blindings(msgs.len(), 31 * j as u64);
        let r = Fr::from_u64(1000 + j as u64);
        let t = Fr::from_u64(2000 + j as u64);
        let (p1, c1) = derive_proof_with_randomness(sig, &pk, &proof_msgs, nonce, r, t, &bl).unwrap();
        let (p2, c2) = derive_proof_with_randomness(sig, &pk, &proof_msgs, nonce, r, t, &bl).unwrap();
        let bytes = p1.to_bytes();
        assert_eq!(bytes, p2.to_bytes());
        assert_eq!(c1, c2);
        assert_eq!(bytes.len(), 48 + 48 + 96 + 32 * (2 + msgs.len() - j));
        assert!(!previous.contains(&bytes));
        previous.push(bytes);
        let revealed: Vec<(usize, Message)> = (0..j).map(|k| (k, msgs[k])).collect();
        assert!(Verifier::verify_signature_pok(&revealed, &pk, msgs.len(), &p1, nonce, c1));
        proof_msgs[j] = ProofMessage::Revealed(msgs[j]);
    }
}

#[test]
fn proof_encoding_round_trips_for_its_disclosure() {
    let (pk, sig, msgs) = setup(b"abc");
    let mut proof_msgs = all_hidden(&msgs);
    proof_msgs[5] = ProofMessage::Revealed(msgs[5]);
    let nonce = Nonce::zero();
    let (proof, c) = derive_proof(sig, &pk, &proof_msgs, nonce).unwrap();
    let bytes = proof.to_bytes();
    let back = PokSignatureProof::from_bytes(&bytes, 5).unwrap();
    assert_eq!(back, proof);
    assert!(Verifier::verify_signature_pok(&[(5, msgs[5])], &pk, msgs.len(), &back, nonce, c));
    assert_eq!(PokSignatureProof::from_bytes(&bytes, 4), Err(Error::InvalidEncoding));
    assert_eq!(PokSignatureProof::from_bytes(&bytes, 6), Err(Error::InvalidEncoding));
    assert_eq!(PokSignatureProof::from_bytes(&bytes[..bytes.len() - 1], 5), Err(Error::InvalidEncoding));
    let mut bad = bytes.clone();
    let last = bad.len() - 1;
    bad[last] = 0xff;
    assert_eq!(PokSignatureProof::from_bytes(&bad, 5), Err(Error::InvalidEncoding));
    let mut bad_point = bytes.clone();
    bad_point[100] ^= 0x55;
    assert_eq!(PokSignatureProof::from_bytes(&bad_point, 5), Err(Error::InvalidEncoding));
}

#[test]
fn zero_randomness_is_rejected() {
    let (pk, sig, msgs) = setup(b"abc");
    let msgs_h = all_hidden(&msgs);
    let nonce = Nonce::zero();
    let bl = fixed_blindings(msgs.len(), 1);
    let res = derive_proof_with_randomness(sig, &pk, &msgs_h, nonce, Fr::zero(), Fr::one(), &bl);
    assert!(matches!(res, Err(Error::ZeroBlinding)));
    let res = derive_proof_with_randomness(sig, &pk, &msgs_h, nonce, Fr::one(), Fr::zero(), &bl);
    assert!(matches!(res, Err(Error::ZeroBlinding)));
    let mut zero_slot = bl.clone();
    zero_slot[4] = Fr::zero();
    let res = PokSignature::init_with_randomness(sig, &pk, &msgs_h, Fr::one(), Fr::one(), &zero_slot);
    assert!(matches!(res, Err(Error::ZeroBlinding)));
    // An unused blinding value may be zero: slot 2 is revealed.
    let mut revealed = msgs_h.clone();
    revealed[2] = ProofMessage::Revealed(msgs[2]);
    let (proof, c) = derive_proof_with_randomness(sig, &pk, &revealed, nonce, Fr::one(), Fr::one(), &zero_slot).unwrap();
    assert!(Verifier::verify_signature_pok(&[(2, msgs[2])], &pk, msgs.len(), &proof, nonce, c));
    let mut ext = msgs_h.clone();
    ext[0] = ProofMessage::Hidden(HiddenMessage::ExternalBlinding(msgs[0], Nonce::zero()));
    let res = derive_proof_with_randomness(sig, &pk, &ext, nonce, Fr::one(), Fr::one(), &bl);
    assert!(matches!(res, Err(Error::ZeroBlinding)));
}

#[test]
fn zero_challenge_is_rejected() {
    let (pk, sig, msgs) = setup(b"abc");
    let nonce = Nonce::zero();
    let (proof, _) = derive_proof(sig, &pk, &all_hidden(&msgs), nonce).unwrap();
    assert!(!Verifier::verify_signature_pok(&[], &pk, msgs.len(), &proof, nonce, Challenge(Fr::zero())));
}

#[test]
fn proof_for_fewer_messages_than_key_slots_verifies() {
    let msgs: Vec<Message> = CLAIMS[..4].iter().map(|c| Message::hash(c)).collect();
    let sk = SecretKey::from_seed(b"abc", 6).unwrap();
    let pk = PublicKey::from_secret_key(&sk);
    let sig = Signature::new(&sk, &msgs).unwrap();
    let mut proof_msgs = all_hidden(&msgs);
    proof_msgs[1] = ProofMessage::Revealed(msgs[1]);
    let nonce = Nonce::zero();
    let (proof, c) = derive_proof(sig, &pk, &proof_msgs, nonce).unwrap();
    assert!(Verifier::verify_signature_pok(&[(1, msgs[1])], &pk, 4, &proof, nonce, c));
    assert!(!Verifier::verify_signature_pok(&[(1, msgs[1])], &pk, 6, &proof, nonce, c));
    assert!(!Verifier::verify_signature_pok(&[(1, msgs[1])], &pk, 7, &proof, nonce, c));
    assert!(!Verifier::verify_signature_pok(&[(4, msgs[1])], &pk, 4, &proof, nonce, c));
}

#[test]
fn generate_proof_rejects_zero_challenge() {
    let (pk, sig, msgs) = setup(b"abc");
    let pok = PokSignature::init(sig, &pk, &all_hidden(&msgs)).unwrap();
    assert!(matches!(pok.generate_proof(Challenge(Fr::zero())), Err(Error::BuilderMisuse)));
}
