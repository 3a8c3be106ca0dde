//! Messages, nonces, challenges, and the disclosure policy of a message slot.
use vstd::prelude::*;
use crate::scalar::{Fr, hash_to_field};

verus! {

/// A signed message: a field element obtained by hashing the claim bytes.
#[derive(Clone, Copy, Debug, PartialEq, Eq)]
pub struct Message(pub Fr);

impl Message {
    /// Hashes arbitrary bytes into a message.
    pub fn hash(data: &[u8]) -> (r: Message)
        ensures
            r.0.val() == hash_to_field(data@),
    {
        Message(Fr::hash(data))
    }
}

/// A random value that binds a proof to one presentation.
#[derive(Clone, Copy, Debug, PartialEq, Eq)]
pub struct Nonce(pub Fr);

impl Nonce {
    /// The empty nonce, zero.
    pub fn zero() -> (r: Nonce)
        ensures
            r.0.val() == 0,
    {
        Nonce(Fr::zero())
    }

    /// A fresh nonce from the thread-local generator.
    pub fn random() -> (r: Nonce) {
        Nonce(Fr::random())
    }

    /// The 32-byte little-endian encoding.
    pub fn to_bytes(&self) -> (r: [u8; 32])
        ensures
            r@ == self.0.to_bytes_spec(),
    {
        self.0.to_bytes()
    }
}

impl Default for Nonce {
    /// The empty nonce, zero.
    fn default() -> (r: Nonce)
        ensures
            r.0.val() == 0,
    {
        Nonce::zero()
    }
}

/// The Fiat-Shamir challenge of a proof.
#[derive(Clone, Copy, Debug, PartialEq, Eq)]
pub struct Challenge(pub Fr);

impl Challenge {
    /// Reads 48 bytes of hash output as a challenge.
    pub fn from_okm(okm: [u8; 48]) -> (r: Challenge)
        ensures
            r.0.val() == crate::scalar::be_int(okm@) % crate::scalar::modulus(),
    {
        Challenge(Fr::from_okm(okm))
    }

    /// The challenge for a transcript: the transcript hashed into the field.
    pub fn hash(transcript: &[u8]) -> (r: Challenge)
        ensures
            r.0.val() == hash_to_field(transcript@),
    {
        Challenge(Fr::hash(transcript))
    }
}

/// How a hidden message is blinded in a proof.
#[derive(Clone, Copy, Debug, PartialEq, Eq)]
pub enum HiddenMessage {
    /// The prover draws a fresh blinding value for this proof only.
    ProofSpecificBlinding(Message),
    /// The caller supplies the blinding value, so that several proofs can be
    /// shown to hide the same message.
    ExternalBlinding(Message, Nonce),
}

/// A message together with its disclosure policy.
#[derive(Clone, Copy, Debug, PartialEq, Eq)]
pub enum ProofMessage {
    Revealed(Message),
    Hidden(HiddenMessage),
}

impl ProofMessage {
    /// The message value, whatever the policy.
    pub open spec fn value(self) -> nat {
        match self {
            ProofMessage::Revealed(m) => m.0.val(),
            ProofMessage::Hidden(HiddenMessage::ProofSpecificBlinding(m)) => m.0.val(),
            ProofMessage::Hidden(HiddenMessage::ExternalBlinding(m, _)) => m.0.val(),
        }
    }

    pub open spec fn is_hidden(self) -> bool {
        self is Hidden
    }
}

} // verus!
