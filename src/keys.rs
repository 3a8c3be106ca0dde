//! Signing keys: one secret scalar per role (`x`, `w`, one `y_i` per message
//! slot), all derived from a seed, and the matching G2 points.
use vstd::prelude::*;
use crate::group::{G2Point, g2_mul_gen, g2_mul_gen_of};
use crate::scalar::{Fr, hash_to_field};
use crate::transcript::{absorb, le_bytes, u64_le_bytes};

verus! {

/// The `j`-th scalar derived from a seed: the seed followed by the 8-byte
/// little-endian index, hashed into the field.
pub open spec fn key_scalar(seed: Seq<u8>, j: nat) -> nat {
    hash_to_field(seed + le_bytes(j, 8))
}

/// The secret key of a signer for `y.len()` message slots.
pub struct SecretKey {
    pub x: Fr,
    pub w: Fr,
    pub y: Vec<Fr>,
}

/// The public key: `X = x * G2`, `W = w * G2` and one base `Y_i = y_i * G2`
/// per message slot.
#[derive(Clone, Debug, PartialEq, Eq)]
pub struct PublicKey {
    pub x: G2Point,
    pub w: G2Point,
    pub y: Vec<G2Point>,
}

/// The `j`-th scalar derived from `seed`.
fn derive_scalar(seed: &[u8], j: u64) -> (r: Fr)
    ensures
        r.val() == key_scalar(seed@, j as nat),
{
    let mut data: Vec<u8> = Vec::new();
    absorb(&mut data, seed);
    let tag = u64_le_bytes(j);
    absorb(&mut data, tag.as_slice());
    Fr::hash(data.as_slice())
}

impl SecretKey {
    /// Whether this key is the one derived from `seed` for `y.len()` slots.
    pub open spec fn derived_from(&self, seed: Seq<u8>) -> bool {
        &&& self.x.val() == key_scalar(seed, 0)
        &&& self.w.val() == key_scalar(seed, 1)
        &&& forall|i: int| 0 <= i < self.y@.len() ==> (#[trigger] self.y@[i]).val()
            == key_scalar(seed, (i + 2) as nat)
    }

    /// Whether every scalar of the key is non-zero.
    pub open spec fn valid(&self) -> bool {
        &&& self.x.val() != 0
        &&& self.w.val() != 0
        &&& forall|i: int| 0 <= i < self.y@.len() ==> (#[trigger] self.y@[i]).val() != 0
    }

    /// Checks that every scalar of the key is non-zero.
    pub fn is_valid(&self) -> (r: bool)
        ensures
            r == self.valid(),
    {
        if self.x.is_zero() || self.w.is_zero() {
            return false;
        }
        let mut i: usize = 0;
        while i < self.y.len()
            invariant
                i <= self.y@.len(),
                forall|k: int| 0 <= k < i ==> (#[trigger] self.y@[k]).val() != 0,
            decreases self.y.len() - i,
        {
            if self.y[i].is_zero() {
                return false;
            }
            i = i + 1;
        }
        true
    }

    /// Derives the key for `count` message slots from `seed`: `x`, `w` and
    /// `y_0 .. y_{count-1}` are the scalars number 0, 1 and 2.. derived from it.
    /// `None` if any of them is zero.
    pub fn from_seed(seed: &[u8], count: usize) -> (r: Option<SecretKey>)
        requires
            count < u64::MAX - 2,
        ensures
            r.is_some() <==> (key_scalar(seed@, 0) != 0 && key_scalar(seed@, 1) != 0
                && forall|i: int| 0 <= i < count ==> #[trigger] key_scalar(seed@, (i + 2) as nat) != 0),
            r.is_some() ==> r.unwrap().y@.len() == count && r.unwrap().derived_from(seed@)
                && r.unwrap().valid(),
    {
        let x = derive_scalar(seed, 0);
        let w = derive_scalar(seed, 1);
        if x.is_zero() || w.is_zero() {
            return None;
        }
        let mut y: Vec<Fr> = Vec::new();
        let mut i: usize = 0;
        while i < count
            invariant
                count < u64::MAX - 2,
                i <= count,
                y@.len() == i,
                forall|k: int| 0 <= k < i ==> (#[trigger] y@[k]).val() == key_scalar(seed@, (k + 2) as nat),
                forall|k: int| 0 <= k < i ==> #[trigger] key_scalar(seed@, (k + 2) as nat) != 0,
            decreases count - i,
        {
            let s = derive_scalar(seed, i as u64 + 2);
            if s.is_zero() {
                assert(key_scalar(seed@, (i as int + 2) as nat) == 0);
                return None;
            }
            y.push(s);
            i = i + 1;
        }
        Some(SecretKey { x, w, y })
    }
}

impl PublicKey {
    /// The public key of `sk`.
    pub open spec fn of(&self, sk: &SecretKey) -> bool {
        &&& self.x@ == g2_mul_gen_of(sk.x.val())
        &&& self.w@ == g2_mul_gen_of(sk.w.val())
        &&& self.y@.len() == sk.y@.len()
        &&& forall|i: int| 0 <= i < self.y@.len() ==> (#[trigger] self.y@[i])@ == g2_mul_gen_of(sk.y@[i].val())
    }

    /// Computes the public key of `sk`.
    pub fn from_secret_key(sk: &SecretKey) -> (r: PublicKey)
        ensures
            r.of(sk),
    {
        let x = g2_mul_gen(&sk.x);
        let w = g2_mul_gen(&sk.w);
        let mut y: Vec<G2Point> = Vec::new();
        let mut i: usize = 0;
        while i < sk.y.len()
            invariant
                i <= sk.y@.len(),
                y@.len() == i,
                forall|k: int| 0 <= k < i ==> (#[trigger] y@[k])@ == g2_mul_gen_of(sk.y@[k].val()),
            decreases sk.y.len() - i,
        {
            y.push(g2_mul_gen(&sk.y[i]));
            i = i + 1;
        }
        PublicKey { x, w, y }
    }

    /// Number of message slots.
    pub fn message_count(&self) -> (r: usize)
        ensures
            r == self.y@.len(),
    {
        self.y.len()
    }
}

} // verus!
