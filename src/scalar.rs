//! Elements of the scalar field of BLS12-381, modelled as integers modulo the
//! prime group order `q`.
use vstd::prelude::*;
use bls12_381_plus::Scalar;
use rand::RngCore;
use sha3::digest::ExtendableOutput;
use crate::transcript::{le_bytes, u64_le_bytes};

verus! {

/// Value of a little-endian byte string.
pub open spec fn le_int(b: Seq<u8>) -> nat
    decreases b.len(),
{
    if b.len() == 0 {
        0
    } else {
        b[0] as nat + 256 * le_int(b.subrange(1, b.len() as int))
    }
}

/// Value of a big-endian byte string.
pub open spec fn be_int(b: Seq<u8>) -> nat
    decreases b.len(),
{
    if b.len() == 0 {
        0
    } else {
        be_int(b.drop_last()) * 256 + b.last() as nat
    }
}

/// The order `q` of the BLS12-381 groups, which is the size of the scalar field:
/// 0x73eda753299d7d483339d80809a1d80553bda402fffe5bfeffffffff00000001.
pub open spec fn modulus() -> nat {
    0x73eda753299d7d48_3339d80809a1d805 * 0x1_0000_0000_0000_0000_0000_0000_0000_0000
        + 0x53bda402fffe5bfe_ffffffff00000001
}

/// The field element `a + b`.
pub open spec fn fadd(a: nat, b: nat) -> nat {
    (a + b) % modulus()
}

/// The field element `a * b`.
pub open spec fn fmul(a: nat, b: nat) -> nat {
    (a * b) % modulus()
}

/// The field element `-a`.
pub open spec fn fneg(a: nat) -> nat {
    ((modulus() - a % modulus()) as nat) % modulus()
}

/// The multiplicative inverse of a non-zero field element.
pub open spec fn finv(a: nat) -> nat {
    choose|b: nat| b < modulus() && #[trigger] fmul(a, b) == 1
}

/// Name for the first 48 bytes that SHAKE256 outputs on `data`.
pub uninterp spec fn shake256_48_of(data: Seq<u8>) -> Seq<u8>;

/// Hash of arbitrary bytes into the field: the SHAKE256 output read as a
/// big-endian integer and reduced.
pub open spec fn hash_to_field(data: Seq<u8>) -> nat {
    be_int(shake256_48_of(data)) % modulus()
}

/// An element of the scalar field, stored as its canonical 32-byte little-endian
/// encoding.
#[derive(Clone, Copy, Debug, PartialEq, Eq)]
pub struct Fr {
    le: [u8; 32],
}

impl Fr {
    /// The integer in `[0, q)` that this element stands for.
    pub closed spec fn val(&self) -> nat {
        le_int(self.le@)
    }

    #[verifier::type_invariant]
    pub open spec fn canonical(&self) -> bool {
        self.val() < modulus()
    }

    /// The canonical little-endian encoding, as a sequence.
    pub closed spec fn to_bytes_spec(&self) -> Seq<u8> {
        self.le@
    }

    /// The canonical little-endian encoding.
    pub fn to_bytes(&self) -> (r: [u8; 32])
        ensures
            r@ == self.to_bytes_spec(),
            le_int(r@) == self.val(),
    {
        self.le
    }

    /// Reads a canonical little-endian encoding; `None` if the integer is not
    /// below `q`.
    pub fn from_bytes(b: [u8; 32]) -> (r: Option<Fr>)
        ensures
            r.is_some() <==> le_int(b@) < modulus(),
            r.is_some() ==> r.unwrap().val() == le_int(b@),
    {
        if le_below_modulus(&b) {
            Some(Fr { le: b })
        } else {
            None
        }
    }

    /// The field element equal to `v`.
    pub fn from_u64(v: u64) -> (r: Fr)
        ensures
            r.val() == v,
    {
        let b = u64_le_bytes(v);
        let mut le: [u8; 32] = [0u8; 32];
        let mut i: usize = 0;
        while i < 8
            invariant
                i <= 8,
                b@.len() == 8,
                le@.len() == 32,
                forall|k: int| 0 <= k < i ==> le@[k] == b@[k],
                forall|k: int| 8 <= k < 32 ==> le@[k] == 0,
            decreases 8 - i,
        {
            le[i] = b[i];
            i = i + 1;
        }
        proof {
            let zeros = Seq::new(24, |k: int| 0u8);
            assert(le@ =~= b@ + zeros);
            lemma_le_int_zero(zeros);
            lemma_le_int_append_zeros(b@, zeros);
            assert(pow256(0) == 1);
            assert(pow256(1) == 0x100);
            assert(pow256(2) == 0x1_0000);
            assert(pow256(3) == 0x100_0000);
            assert(pow256(4) == 0x1_0000_0000);
            assert(pow256(5) == 0x100_0000_0000);
            assert(pow256(6) == 0x1_0000_0000_0000);
            assert(pow256(7) == 0x100_0000_0000_0000);
            assert(pow256(8) == 0x1_0000_0000_0000_0000);
            lemma_le_int_le_bytes(v as nat, 8);
        }
        Fr { le }
    }

    pub fn zero() -> (r: Fr)
        ensures
            r.val() == 0,
    {
        Fr::from_u64(0)
    }

    pub fn one() -> (r: Fr)
        ensures
            r.val() == 1,
    {
        Fr::from_u64(1)
    }

    /// Whether this is the additive identity.
    pub fn is_zero(&self) -> (r: bool)
        ensures
            r == (self.val() == 0),
    {
        let mut i: usize = 0;
        while i < 32
            invariant
                i <= 32,
                forall|j: int| 0 <= j < i ==> self.le@[j] == 0,
            decreases 32 - i,
        {
            if self.le[i] != 0 {
                proof {
                    lemma_le_int_nonzero(self.le@, i as int);
                }
                return false;
            }
            i = i + 1;
        }
        proof {
            lemma_le_int_zero(self.le@);
        }
        true
    }

    /// Whether the two elements are equal.
    pub fn equals(&self, o: &Fr) -> (r: bool)
        ensures
            r == (self.val() == o.val()),
    {
        let mut i: usize = 0;
        while i < 32
            invariant
                i <= 32,
                forall|j: int| 0 <= j < i ==> self.le@[j] == o.le@[j],
            decreases 32 - i,
        {
            if self.le[i] != o.le[i] {
                proof {
                    if le_int(self.le@) == le_int(o.le@) {
                        lemma_le_int_injective(self.le@, o.le@);
                    }
                }
                return false;
            }
            i = i + 1;
        }
        assert(self.le@ =~= o.le@);
        true
    }

    pub fn add(&self, o: &Fr) -> (r: Fr)
        ensures
            r.val() == fadd(self.val(), o.val()),
    {
        scalar_add(self, o)
    }

    pub fn mul(&self, o: &Fr) -> (r: Fr)
        ensures
            r.val() == fmul(self.val(), o.val()),
    {
        scalar_mul(self, o)
    }

    pub fn neg(&self) -> (r: Fr)
        ensures
            r.val() == fneg(self.val()),
    {
        scalar_neg(self)
    }

    /// The inverse, or `None` for zero.
    pub fn invert(&self) -> (r: Option<Fr>)
        ensures
            r.is_some() <==> self.val() != 0,
            r.is_some() ==> r.unwrap().val() == finv(self.val()),
    {
        if self.is_zero() {
            None
        } else {
            Some(scalar_invert(self))
        }
    }

    /// Reduces a 64-byte little-endian integer into the field.
    pub fn from_wide(b: [u8; 64]) -> (r: Fr)
        ensures
            r.val() == le_int(b@) % modulus(),
    {
        scalar_from_wide(&b)
    }

    /// Reduces 48 bytes of key-derivation output, read big-endian, into the field.
    pub fn from_okm(b: [u8; 48]) -> (r: Fr)
        ensures
            r.val() == be_int(b@) % modulus(),
    {
        scalar_from_okm(&b)
    }

    /// Hashes arbitrary bytes into the field.
    pub fn hash(data: &[u8]) -> (r: Fr)
        ensures
            r.val() == hash_to_field(data@),
    {
        let okm = shake256_48(data);
        Fr::from_okm(okm)
    }

    /// A uniformly distributed element drawn from the thread-local generator.
    pub fn random() -> (r: Fr) {
        Fr::from_wide(random_wide())
    }
}

/// The encoding of an element has 32 bytes and its value.
pub proof fn lemma_bytes_spec(a: Fr)
    ensures
        a.to_bytes_spec().len() == 32,
        le_int(a.to_bytes_spec()) == a.val(),
{
}

/// Two elements with the same value have the same encoding.
pub proof fn lemma_same_value_same_bytes(a: Fr, b: Fr)
    requires
        a.val() == b.val(),
    ensures
        a.to_bytes_spec() == b.to_bytes_spec(),
{
    lemma_le_int_injective(a.le@, b.le@);
}

proof fn lemma_le_int_injective(a: Seq<u8>, b: Seq<u8>)
    requires
        a.len() == b.len(),
        le_int(a) == le_int(b),
    ensures
        a == b,
    decreases a.len(),
{
    if a.len() > 0 {
        let ta = a.subrange(1, a.len() as int);
        let tb = b.subrange(1, b.len() as int);
        let x = le_int(ta);
        let y = le_int(tb);
        let a0 = a[0] as int;
        let b0 = b[0] as int;
        assert(a0 == b0 && x == y) by (nonlinear_arith)
            requires
                a0 + 256 * x == b0 + 256 * y,
                0 <= a0 < 256,
                0 <= b0 < 256,
                x >= 0,
                y >= 0,
        ;
        lemma_le_int_injective(ta, tb);
        assert(a =~= b) by {
            assert forall|j: int| 0 <= j < a.len() implies a[j] == b[j] by {
                if j > 0 {
                    assert(a[j] == ta[j - 1]);
                    assert(b[j] == tb[j - 1]);
                }
            }
        }
    }
}

/// `256^n`.
spec fn pow256(n: nat) -> nat
    decreases n,
{
    if n == 0 {
        1
    } else {
        256 * pow256((n - 1) as nat)
    }
}

/// The `n` little-endian bytes of a value below `256^n` read back to it.
proof fn lemma_le_int_le_bytes(v: nat, n: nat)
    requires
        v < pow256(n),
    ensures
        le_int(le_bytes(v, n)) == v,
    decreases n,
{
    if n > 0 {
        let rest = le_bytes(v / 256, (n - 1) as nat);
        assert(v / 256 < pow256((n - 1) as nat)) by (nonlinear_arith)
            requires
                v < 256 * pow256((n - 1) as nat),
        ;
        lemma_le_int_le_bytes(v / 256, (n - 1) as nat);
        let s = le_bytes(v, n);
        assert(s.subrange(1, s.len() as int) =~= rest);
    } else {
        assert(v == 0);
    }
}

/// Trailing zero bytes do not change a little-endian value.
proof fn lemma_le_int_append_zeros(a: Seq<u8>, z: Seq<u8>)
    requires
        le_int(z) == 0,
    ensures
        le_int(a + z) == le_int(a),
    decreases a.len(),
{
    if a.len() > 0 {
        let s = a + z;
        let tail = a.subrange(1, a.len() as int);
        assert(s.subrange(1, s.len() as int) =~= tail + z);
        lemma_le_int_append_zeros(tail, z);
    } else {
        assert(a + z =~= z);
    }
}

proof fn lemma_le_int_zero(b: Seq<u8>)
    requires
        forall|j: int| 0 <= j < b.len() ==> b[j] == 0,
    ensures
        le_int(b) == 0,
    decreases b.len(),
{
    if b.len() > 0 {
        lemma_le_int_zero(b.subrange(1, b.len() as int));
    }
}

proof fn lemma_le_int_nonzero(b: Seq<u8>, i: int)
    requires
        0 <= i < b.len(),
        b[i] != 0,
    ensures
        le_int(b) != 0,
    decreases b.len(),
{
    if i > 0 {
        lemma_le_int_nonzero(b.subrange(1, b.len() as int), i - 1);
    }
}

/// Relies on `Scalar::from_le_bytes`: it accepts exactly the encodings of
/// integers below `q`.
#[verifier::external_body]
fn le_below_modulus(b: &[u8; 32]) -> (r: bool)
    ensures
        r == (le_int(b@) < modulus()),
{
    bool::from(Scalar::from_le_bytes(b).is_some())
}

/// Relies on `Scalar`'s `+`, field addition modulo `q`.
#[verifier::external_body]
fn scalar_add(a: &Fr, b: &Fr) -> (r: Fr)
    ensures
        r.val() == fadd(a.val(), b.val()),
{
    let s = Scalar::from_le_bytes(&a.le).unwrap() + Scalar::from_le_bytes(&b.le).unwrap();
    Fr { le: s.to_le_bytes() }
}

/// Relies on `Scalar`'s `*`, field multiplication modulo `q`.
#[verifier::external_body]
fn scalar_mul(a: &Fr, b: &Fr) -> (r: Fr)
    ensures
        r.val() == fmul(a.val(), b.val()),
{
    let s = Scalar::from_le_bytes(&a.le).unwrap() * Scalar::from_le_bytes(&b.le).unwrap();
    Fr { le: s.to_le_bytes() }
}

/// Relies on `Scalar::neg`, the additive inverse modulo `q`.
#[verifier::external_body]
fn scalar_neg(a: &Fr) -> (r: Fr)
    ensures
        r.val() == fneg(a.val()),
{
    Fr { le: Scalar::from_le_bytes(&a.le).unwrap().neg().to_le_bytes() }
}

/// Relies on `Scalar::invert`, which succeeds on every non-zero element and
/// returns its multiplicative inverse modulo the prime `q`.
#[verifier::external_body]
fn scalar_invert(a: &Fr) -> (r: Fr)
    requires
        a.val() != 0,
    ensures
        r.val() == finv(a.val()),
{
    Fr { le: Scalar::from_le_bytes(&a.le).unwrap().invert().unwrap().to_le_bytes() }
}

/// Relies on `Scalar::from_bytes_wide`: a 512-bit little-endian integer reduced
/// modulo `q`.
#[verifier::external_body]
fn scalar_from_wide(b: &[u8; 64]) -> (r: Fr)
    ensures
        r.val() == le_int(b@) % modulus(),
{
    Fr { le: Scalar::from_bytes_wide(b).to_le_bytes() }
}

/// Relies on `Scalar::from_okm`: 48 bytes read as a big-endian integer and
/// reduced modulo `q`.
#[verifier::external_body]
fn scalar_from_okm(b: &[u8; 48]) -> (r: Fr)
    ensures
        r.val() == be_int(b@) % modulus(),
{
    Fr { le: Scalar::from_okm(b).to_le_bytes() }
}

/// Relies on `ExtendableOutput::digest_xof` for sha3's `Shake256`: the first
/// 48 bytes of the SHAKE256 output stream on `data`.
#[verifier::external_body]
fn shake256_48(data: &[u8]) -> (r: [u8; 48])
    ensures
        r@ == shake256_48_of(data@),
{
    let mut out = [0u8; 48];
    sha3::Shake256::digest_xof(data, &mut out);
    out
}

/// Relies on rand's `thread_rng`: 64 bytes from the thread-local
/// cryptographically secure generator. Nothing is known of them.
#[verifier::external_body]
fn random_wide() -> (r: [u8; 64]) {
    let mut out = [0u8; 64];
    rand::thread_rng().fill_bytes(&mut out);
    out
}

} // verus!
