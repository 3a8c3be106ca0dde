//! Signatures over a vector of messages: `(sigma_1, sigma_2, m_tick)` with
//! `sigma_1 = G1 / (x + e)` and `sigma_2 = sigma_1 * (x + w * m_tick + sum_i y_i * m_i)`.
use vstd::prelude::*;
use crate::error::Error;
use crate::group::{
    G1Point, G2Point, fr_vals, g1_add_of, g1_compress, g1_compressed_of, g1_decompress,
    g1_from_compressed_of, g1_is_identity, g1_is_identity_of, g1_mul, g1_mul_gen, g1_mul_gen_of,
    g1_mul_of, g2_mul_gen, g2_mul_gen_of, g2_sum_of_products, g2_sum_of_products_of, g2_views,
    pairing_eq, pairing_eq_of,
};
use crate::keys::{PublicKey, SecretKey};
use crate::message::Message;
use crate::scalar::{Fr, fadd, finv, fmul, hash_to_field, le_int, modulus};
use crate::transcript::{absorb, copy_array};

verus! {

/// The values of a sequence of messages.
pub open spec fn msg_vals(ms: Seq<Message>) -> Seq<nat> {
    ms.map_values(|m: Message| m.0.val())
}

/// The encodings of the messages, one after the other.
pub open spec fn messages_bytes(ms: Seq<Message>) -> Seq<u8>
    decreases ms.len(),
{
    if ms.len() == 0 {
        Seq::empty()
    } else {
        messages_bytes(ms.drop_last()) + ms.last().0.to_bytes_spec()
    }
}

/// The auxiliary scalar `m_tick`: the messages hashed into the field.
pub open spec fn m_tick_of(ms: Seq<Message>) -> nat {
    hash_to_field(messages_bytes(ms))
}

/// The per-signature exponent `e`: the secret `x` and the messages hashed into
/// the field.
pub open spec fn e_of(sk: &SecretKey, ms: Seq<Message>) -> nat {
    hash_to_field(sk.x.to_bytes_spec() + messages_bytes(ms))
}

/// `x + w * m_tick + sum_i ys[i] * ms[i]` over the first `ms.len()` slots.
pub open spec fn exponent(x: nat, w: nat, m_tick: nat, ys: Seq<nat>, ms: Seq<nat>) -> nat
    decreases ms.len(),
{
    if ms.len() == 0 {
        fadd(x, fmul(w, m_tick))
    } else {
        let n = ms.len() - 1;
        fadd(exponent(x, w, m_tick, ys, ms.drop_last()), fmul(ys[n], ms[n]))
    }
}

/// The divisor `x + e` of a signature.
pub open spec fn divisor_of(sk: &SecretKey, ms: Seq<Message>) -> nat {
    fadd(sk.x.val(), e_of(sk, ms))
}

/// The bases that `verify` combines for `n` messages: `X`, `W`, `Y_0 .. Y_{n-1}`.
pub open spec fn verify_bases(pk: &PublicKey, n: nat) -> Seq<Seq<u8>> {
    seq![pk.x@, pk.w@] + g2_views(pk.y@.take(n as int))
}

/// The scalars that `verify` combines: `1`, `m_tick`, then the messages.
pub open spec fn verify_scalars(m_tick: nat, ms: Seq<Message>) -> Seq<nat> {
    seq![1nat, m_tick] + msg_vals(ms)
}

/// A signature on a vector of messages.
#[derive(Clone, Copy, Debug, PartialEq, Eq)]
pub struct Signature {
    pub sigma_1: G1Point,
    pub sigma_2: G1Point,
    pub m_tick: Fr,
}

/// Whether `s` is the signature that `sk` makes on `ms`.
pub open spec fn signed(s: &Signature, sk: &SecretKey, ms: Seq<Message>) -> bool {
    let sigma_1 = g1_mul_gen_of(finv(divisor_of(sk, ms)));
    &&& s.m_tick.val() == m_tick_of(ms)
    &&& s.sigma_1@ == sigma_1
    &&& s.sigma_2@ == g1_mul_of(
        sigma_1,
        exponent(sk.x.val(), sk.w.val(), m_tick_of(ms), fr_vals(sk.y@), msg_vals(ms)),
    )
}

/// Whether `verify` accepts `s` on `ms` under `pk`.
pub open spec fn verifies(s: &Signature, pk: &PublicKey, ms: Seq<Message>) -> bool {
    &&& ms.len() <= pk.y@.len()
    &&& !g1_is_identity_of(s.sigma_1@)
    &&& pairing_eq_of(
        s.sigma_1@,
        g2_sum_of_products_of(verify_bases(pk, ms.len()), verify_scalars(s.m_tick.val(), ms)),
        s.sigma_2@,
        g2_mul_gen_of(1),
    )
}

/// The encoding: compressed `sigma_1`, compressed `sigma_2`, then `m_tick`.
pub open spec fn signature_bytes(s: &Signature) -> Seq<u8> {
    g1_compressed_of(s.sigma_1@) + g1_compressed_of(s.sigma_2@) + s.m_tick.to_bytes_spec()
}

/// The encodings of messages, one after the other.
fn concat_messages(msgs: &[Message], out: &mut Vec<u8>)
    ensures
        final(out)@ == old(out)@ + messages_bytes(msgs@),
{
    let mut i: usize = 0;
    while i < msgs.len()
        invariant
            i <= msgs@.len(),
            out@ == old(out)@ + messages_bytes(msgs@.take(i as int)),
        decreases msgs.len() - i,
    {
        let b = msgs[i].0.to_bytes();
        absorb(out, &b);
        proof {
            assert(msgs@.take(i + 1).drop_last() =~= msgs@.take(i as int));
        }
        i = i + 1;
    }
    assert(msgs@.take(msgs@.len() as int) =~= msgs@);
}

impl Signature {
    /// Length of the encoding.
    pub const BYTES: usize = 128;

    /// Signs `msgs` with `sk`. `MismatchedLengths` if the key has fewer slots
    /// than there are messages; `DegenerateKey` if `x + e` is zero.
    pub fn new(sk: &SecretKey, msgs: &[Message]) -> (r: Result<Signature, Error>)
        ensures
            sk.y@.len() < msgs@.len() ==> r == Err::<Signature, Error>(Error::MismatchedLengths),
            sk.y@.len() >= msgs@.len() && divisor_of(sk, msgs@) == 0
                ==> r == Err::<Signature, Error>(Error::DegenerateKey),
            sk.y@.len() >= msgs@.len() && divisor_of(sk, msgs@) != 0
                ==> r.is_ok() && signed(&r.unwrap(), sk, msgs@),
    {
        if sk.y.len() < msgs.len() {
            return Err(Error::MismatchedLengths);
        }
        let mut data: Vec<u8> = Vec::new();
        concat_messages(msgs, &mut data);
        let m_tick = Fr::hash(data.as_slice());

        let mut keyed: Vec<u8> = Vec::new();
        let xb = sk.x.to_bytes();
        absorb(&mut keyed, &xb);
        concat_messages(msgs, &mut keyed);
        let e = Fr::hash(keyed.as_slice());

        let divisor = sk.x.add(&e);
        let inv = match divisor.invert() {
            Some(v) => v,
            None => {
                return Err(Error::DegenerateKey);
            },
        };
        let sigma_1 = g1_mul_gen(&inv);

        let mut exp = sk.x.add(&sk.w.mul(&m_tick));
        let mut i: usize = 0;
        while i < msgs.len()
            invariant
                msgs@.len() <= sk.y@.len(),
                i <= msgs@.len(),
                exp.val() == exponent(sk.x.val(), sk.w.val(), m_tick.val(), fr_vals(sk.y@),
                    msg_vals(msgs@.take(i as int))),
            decreases msgs.len() - i,
        {
            proof {
                assert(msg_vals(msgs@.take(i + 1)).drop_last() =~= msg_vals(msgs@.take(i as int)));
            }
            exp = exp.add(&sk.y[i].mul(&msgs[i].0));
            i = i + 1;
        }
        assert(msgs@.take(msgs@.len() as int) =~= msgs@);
        let sigma_2 = g1_mul(&sigma_1, &exp);
        Ok(Signature { sigma_1, sigma_2, m_tick })
    }

    /// Checks the signature on `msgs` under `pk`: `false` if the key has fewer
    /// slots than there are messages, if `sigma_1` is the identity, or if
    /// `e(sigma_1, X + m_tick * W + sum_i m_i * Y_i) != e(sigma_2, G2)`.
    pub fn verify(&self, pk: &PublicKey, msgs: &[Message]) -> (r: bool)
        ensures
            r == verifies(self, pk, msgs@),
    {
        if pk.y.len() < msgs.len() {
            return false;
        }
        if g1_is_identity(&self.sigma_1) {
            return false;
        }
        let mut points: Vec<G2Point> = Vec::new();
        let mut scalars: Vec<Fr> = Vec::new();
        points.push(pk.x);
        scalars.push(Fr::one());
        points.push(pk.w);
        scalars.push(self.m_tick);
        let mut i: usize = 0;
        while i < msgs.len()
            invariant
                msgs@.len() <= pk.y@.len(),
                i <= msgs@.len(),
                g2_views(points@) == verify_bases(pk, i as nat),
                fr_vals(scalars@) == verify_scalars(self.m_tick.val(), msgs@.take(i as int)),
            decreases msgs.len() - i,
        {
            let ghost old_points = points@;
            let ghost old_scalars = scalars@;
            points.push(pk.y[i]);
            scalars.push(msgs[i].0);
            assert(g2_views(points@) =~= g2_views(old_points).push(pk.y@[i as int]@));
            assert(verify_bases(pk, (i + 1) as nat) =~= verify_bases(pk, i as nat).push(pk.y@[i as int]@));
            assert(fr_vals(scalars@) =~= fr_vals(old_scalars).push(msgs@[i as int].0.val()));
            assert(verify_scalars(self.m_tick.val(), msgs@.take(i + 1))
                =~= verify_scalars(self.m_tick.val(), msgs@.take(i as int)).push(msgs@[i as int].0.val()));
            i = i + 1;
        }
        assert(msgs@.take(msgs@.len() as int) =~= msgs@);
        let j = g2_sum_of_products(&points, &scalars);
        let g2 = g2_mul_gen(&Fr::one());
        pairing_eq(&self.sigma_1, &j, &self.sigma_2, &g2)
    }
}

impl Signature {
    /// The encoding: compressed `sigma_1`, compressed `sigma_2`, then the
    /// little-endian `m_tick`; `from_bytes` reads it back to this signature.
    pub fn to_bytes(&self) -> (r: Vec<u8>)
        ensures
            r@ == signature_bytes(self),
            r@.len() == Signature::BYTES,
            g1_from_compressed_of(r@.subrange(0, 48)) == Some(self.sigma_1@),
            g1_from_compressed_of(r@.subrange(48, 96)) == Some(self.sigma_2@),
            le_int(r@.subrange(96, 128)) == self.m_tick.val(),
            le_int(r@.subrange(96, 128)) < modulus(),
    {
        proof {
            use_type_invariant(&self.m_tick);
        }
        let mut out: Vec<u8> = Vec::new();
        let c1 = g1_compress(&self.sigma_1);
        let c2 = g1_compress(&self.sigma_2);
        let m = self.m_tick.to_bytes();
        absorb(&mut out, &c1);
        absorb(&mut out, &c2);
        absorb(&mut out, &m);
        assert(out@.subrange(0, 48) =~= c1@);
        assert(out@.subrange(48, 96) =~= c2@);
        assert(out@.subrange(96, 128) =~= m@);
        out
    }

    /// Decodes a signature. `InvalidEncoding` unless `b` has `BYTES` bytes, both
    /// points decode to points of the prime-order subgroup, and `m_tick` is
    /// canonical.
    pub fn from_bytes(b: &[u8]) -> (r: Result<Signature, Error>)
        ensures
            r.is_ok() <==> (b@.len() == Signature::BYTES
                && g1_from_compressed_of(b@.subrange(0, 48)).is_some()
                && g1_from_compressed_of(b@.subrange(48, 96)).is_some()
                && le_int(b@.subrange(96, 128)) < modulus()),
            r.is_err() ==> r == Err::<Signature, Error>(Error::InvalidEncoding),
            r.is_ok() ==> r.unwrap().sigma_1@ == g1_from_compressed_of(b@.subrange(0, 48)).unwrap()
                && r.unwrap().sigma_2@ == g1_from_compressed_of(b@.subrange(48, 96)).unwrap()
                && r.unwrap().m_tick.val() == le_int(b@.subrange(96, 128)),
    {
        if b.len() != Signature::BYTES {
            return Err(Error::InvalidEncoding);
        }
        let c1: [u8; 48] = copy_array(b, 0);
        let c2: [u8; 48] = copy_array(b, 48);
        let m: [u8; 32] = copy_array(b, 96);
        let sigma_1 = match g1_decompress(&c1) {
            Some(p) => p,
            None => {
                return Err(Error::InvalidEncoding);
            },
        };
        let sigma_2 = match g1_decompress(&c2) {
            Some(p) => p,
            None => {
                return Err(Error::InvalidEncoding);
            },
        };
        let m_tick = match Fr::from_bytes(m) {
            Some(v) => v,
            None => {
                return Err(Error::InvalidEncoding);
            },
        };
        Ok(Signature { sigma_1, sigma_2, m_tick })
    }
}

/// Signing is deterministic: two signatures that `new` makes with the same
/// key on the same messages have the same encoding.
pub proof fn lemma_sign_deterministic(sk: &SecretKey, ms: Seq<Message>, s1: &Signature, s2: &Signature)
    requires
        signed(s1, sk, ms),
        signed(s2, sk, ms),
    ensures
        signature_bytes(s1) == signature_bytes(s2),
{
    crate::scalar::lemma_same_value_same_bytes(s1.m_tick, s2.m_tick);
}

} // verus!
