//! A multi-message signature scheme on BLS12-381 with proofs of knowledge of
//! a signature that reveal a chosen subset of the signed messages.
//!
//! Scalars are modelled as integers modulo the group order and points by
//! their encodings; the curve arithmetic itself is bls12_381_plus's, and the
//! contracts name its results.
pub mod builder;
pub mod error;
pub mod group;
pub mod keys;
pub mod message;
pub mod multibuf;
pub mod pok_signature;
pub mod pok_verify;
pub mod scalar;
pub mod signature;
pub mod transcript;
