//! Proof of knowledge of a signature with selective disclosure.
//!
//! The prover re-randomizes the signature, `sigma_1' = r * sigma_1` and
//! `sigma_2' = r * (sigma_2 + t * sigma_1)`, and proves knowledge of the
//! opening of `J = t * G2 + m_tick * W + sum_{i hidden} m_i * Y_i` with one
//! Schnorr pair per term, in that order.
use vstd::prelude::*;
use crate::builder::{ProofCommittedBuilder, responses};
use crate::error::Error;
use crate::group::{
    G1Point, G2Point, fr_vals, g1_add, g1_add_of, g1_compress, g1_compressed_of, g1_decompress,
    g1_from_compressed_of, g1_mul, g1_mul_of, g2_compress, g2_compressed_of, g2_decompress,
    g2_from_compressed_of, g2_mul_gen, g2_mul_gen_of, g2_sum_of_products, g2_sum_of_products_of,
    g2_views,
};
use crate::keys::PublicKey;
use crate::message::{Challenge, HiddenMessage, Nonce, ProofMessage};
use crate::scalar::{Fr, hash_to_field, le_int, modulus};
use crate::signature::Signature;
use crate::transcript::{absorb, copy_array};

verus! {

/// The bases `Y_i` of the hidden slots, in slot order.
pub open spec fn hidden_bases(ys: Seq<G2Point>, msgs: Seq<ProofMessage>) -> Seq<Seq<u8>>
    decreases msgs.len(),
{
    if msgs.len() == 0 {
        Seq::empty()
    } else {
        let rest = hidden_bases(ys, msgs.drop_last());
        if msgs.last().is_hidden() {
            rest.push(ys[msgs.len() - 1]@)
        } else {
            rest
        }
    }
}

/// The values of the hidden messages, in slot order.
pub open spec fn hidden_values(msgs: Seq<ProofMessage>) -> Seq<nat>
    decreases msgs.len(),
{
    if msgs.len() == 0 {
        Seq::empty()
    } else {
        let rest = hidden_values(msgs.drop_last());
        if msgs.last().is_hidden() {
            rest.push(msgs.last().value())
        } else {
            rest
        }
    }
}

/// The blinding value of a hidden slot `i`: the caller's for an external
/// blinding, else `blindings[i + 2]`.
pub open spec fn slot_blinding(m: ProofMessage, i: int, blindings: Seq<nat>) -> nat {
    match m {
        ProofMessage::Hidden(HiddenMessage::ExternalBlinding(_, n)) => n.0.val(),
        _ => blindings[i + 2],
    }
}

/// The blinding values of the hidden slots, in slot order.
pub open spec fn hidden_randoms(msgs: Seq<ProofMessage>, blindings: Seq<nat>) -> Seq<nat>
    decreases msgs.len(),
{
    if msgs.len() == 0 {
        Seq::empty()
    } else {
        let rest = hidden_randoms(msgs.drop_last(), blindings);
        if msgs.last().is_hidden() {
            rest.push(slot_blinding(msgs.last(), msgs.len() - 1, blindings))
        } else {
            rest
        }
    }
}

/// The bases of the proof: `G2`, `W`, then `Y_i` for each hidden slot.
pub open spec fn pok_bases(pk: &PublicKey, msgs: Seq<ProofMessage>) -> Seq<Seq<u8>> {
    seq![g2_mul_gen_of(1), pk.w@] + hidden_bases(pk.y@, msgs)
}

/// The secrets of the proof: `t`, `m_tick`, then each hidden message.
pub open spec fn pok_secrets(t: nat, m_tick: nat, msgs: Seq<ProofMessage>) -> Seq<nat> {
    seq![t, m_tick] + hidden_values(msgs)
}

/// The blinding values of the proof: `blindings[0]`, `blindings[1]`, then one
/// per hidden slot.
pub open spec fn pok_randoms(msgs: Seq<ProofMessage>, blindings: Seq<nat>) -> Seq<nat> {
    seq![blindings[0], blindings[1]] + hidden_randoms(msgs, blindings)
}

/// Whether the re-randomizer, `t` and every blinding value are non-zero.
pub open spec fn nonzero_randomness(r: nat, t: nat, randoms: Seq<nat>) -> bool {
    &&& r != 0
    &&& t != 0
    &&& forall|k: int| 0 <= k < randoms.len() ==> #[trigger] randoms[k] != 0
}

/// A zero blinding value in hidden slot `i` is a zero entry of the proof's
/// blinding values.
proof fn lemma_zero_pair(ys: Seq<G2Point>, msgs: Seq<ProofMessage>, bl: Seq<nat>, i: int)
    requires
        0 <= i < msgs.len(),
        msgs[i].is_hidden(),
        slot_blinding(msgs[i], i, bl) == 0,
    ensures
        exists|k: int| 0 <= k < pok_randoms(msgs, bl).len() && #[trigger] pok_randoms(msgs, bl)[k] == 0,
{
    lemma_hidden_lengths(ys, msgs, bl);
    lemma_hidden_prefix(ys, msgs, bl, i + 1);
    lemma_hidden_lengths(ys, msgs.take(i), bl);
    let next = msgs.take(i + 1);
    assert(next.drop_last() =~= msgs.take(i));
    assert(next.last() == msgs[i]);
    let h = hidden_values(msgs.take(i)).len() as int;
    assert(hidden_randoms(next, bl) == hidden_randoms(msgs.take(i), bl).push(0));
    assert(hidden_randoms(msgs, bl)[h] == hidden_randoms(msgs, bl).take(h + 1)[h]);
    assert(pok_randoms(msgs, bl)[2 + h] == 0);
}

/// The prover's state between commitment and response.
pub struct PokSignature {
    secrets: Vec<Fr>,
    proof: ProofCommittedBuilder,
    commitment: G2Point,
    sigma_1: G1Point,
    sigma_2: G1Point,
}

/// What the verifier receives: the re-randomized signature, the commitment `J`
/// and one response per Schnorr pair.
#[derive(Clone, Debug, PartialEq, Eq)]
pub struct PokSignatureProof {
    pub sigma_1: G1Point,
    pub sigma_2: G1Point,
    pub commitment: G2Point,
    pub proof: Vec<Fr>,
}

impl PokSignature {
    #[verifier::type_invariant]
    closed spec fn inv(&self) -> bool {
        &&& self.proof.wf()
        &&& self.secrets@.len() == self.proof.randoms().len()
    }

    /// The re-randomized `sigma_1`.
    pub closed spec fn sigma_1_view(&self) -> Seq<u8> {
        self.sigma_1@
    }

    /// The re-randomized `sigma_2`.
    pub closed spec fn sigma_2_view(&self) -> Seq<u8> {
        self.sigma_2@
    }

    /// The commitment `J`.
    pub closed spec fn commitment_view(&self) -> Seq<u8> {
        self.commitment@
    }

    /// The secrets, in the order of the Schnorr pairs.
    pub closed spec fn secret_vals(&self) -> Seq<nat> {
        fr_vals(self.secrets@)
    }

    /// The bases of the Schnorr pairs.
    pub closed spec fn bases(&self) -> Seq<Seq<u8>> {
        self.proof.bases()
    }

    /// The blinding values of the Schnorr pairs.
    pub closed spec fn randoms(&self) -> Seq<nat> {
        self.proof.randoms()
    }

    /// The Schnorr commitment `sum_i randoms[i] * bases[i]`.
    pub open spec fn schnorr_commitment(&self) -> Seq<u8> {
        g2_sum_of_products_of(self.bases(), self.randoms())
    }

    /// Whether this state is the one built for `sig`, `pk` and `msgs` with the
    /// re-randomizer `r`, the blinding `t` and the blinding values `blindings`.
    pub open spec fn built_from(
        &self,
        sig: &Signature,
        pk: &PublicKey,
        msgs: Seq<ProofMessage>,
        r: nat,
        t: nat,
        blindings: Seq<nat>,
    ) -> bool {
        &&& self.sigma_1_view() == g1_mul_of(sig.sigma_1@, r)
        &&& self.sigma_2_view() == g1_mul_of(g1_add_of(sig.sigma_2@, g1_mul_of(sig.sigma_1@, t)), r)
        &&& self.bases() == pok_bases(pk, msgs)
        &&& self.randoms() == pok_randoms(msgs, blindings)
        &&& self.secret_vals() == pok_secrets(t, sig.m_tick.val(), msgs)
        &&& self.commitment_view() == g2_sum_of_products_of(
            pok_bases(pk, msgs),
            pok_secrets(t, sig.m_tick.val(), msgs),
        )
    }

    /// Builds the proof state from given randomness: `r` re-randomizes the
    /// signature, `t` blinds `sigma_2`, and `blindings` holds the blinding values
    /// of `t` and `m_tick` followed by one per message slot (used only for hidden
    /// slots with a proof-specific blinding). `MismatchedLengths` if the key has
    /// fewer slots than there are messages, or `blindings` is not two longer
    /// than `messages`; else `ZeroBlinding` if `r`, `t` or a blinding value that
    /// a Schnorr pair uses is zero.
    pub fn init_with_randomness(
        signature: Signature,
        public_key: &PublicKey,
        messages: &[ProofMessage],
        r: Fr,
        t: Fr,
        blindings: &Vec<Fr>,
    ) -> (res: Result<PokSignature, Error>)
        ensures
            (public_key.y@.len() < messages@.len() || blindings@.len() != messages@.len() + 2)
                <==> res == Err::<PokSignature, Error>(Error::MismatchedLengths),
            !(public_key.y@.len() < messages@.len() || blindings@.len() != messages@.len() + 2) ==> (
                !nonzero_randomness(r.val(), t.val(), pok_randoms(messages@, fr_vals(blindings@)))
                <==> res == Err::<PokSignature, Error>(Error::ZeroBlinding)),
            res.is_err() ==> res == Err::<PokSignature, Error>(Error::MismatchedLengths)
                || res == Err::<PokSignature, Error>(Error::ZeroBlinding),
            res.is_ok() ==> res.unwrap().built_from(&signature, public_key, messages@, r.val(),
                t.val(), fr_vals(blindings@)),
    {
        if public_key.y.len() < messages.len() || blindings.len() < 2 || blindings.len() - 2 != messages.len() {
            return Err(Error::MismatchedLengths);
        }
        let ghost bl = fr_vals(blindings@);
        if r.is_zero() || t.is_zero() {
            return Err(Error::ZeroBlinding);
        }

        let sigma_1 = g1_mul(&signature.sigma_1, &r);
        let sigma_2 = g1_mul(&g1_add(&signature.sigma_2, &g1_mul(&signature.sigma_1, &t)), &r);

        let g2 = g2_mul_gen(&Fr::one());
        let mut proof = ProofCommittedBuilder::new();
        let mut points: Vec<G2Point> = Vec::new();
        let mut secrets: Vec<Fr> = Vec::new();

        if proof.commit(g2, blindings[0]).is_err() || proof.commit(public_key.w, blindings[1]).is_err() {
            proof {
                let k: int = if bl[0] == 0 { 0 } else { 1 };
                assert(pok_randoms(messages@, bl)[k] == 0);
            }
            return Err(Error::ZeroBlinding);
        }
        points.push(g2);
        secrets.push(t);

        points.push(public_key.w);
        secrets.push(signature.m_tick);

        assert(g2_views(points@) =~= pok_bases(public_key, messages@.take(0)));
        assert(proof.bases() =~= pok_bases(public_key, messages@.take(0)));
        assert(proof.randoms() =~= pok_randoms(messages@.take(0), bl));
        assert(fr_vals(secrets@) =~= pok_secrets(t.val(), signature.m_tick.val(), messages@.take(0)));

        let bl_len = blindings.len();
        let mut i: usize = 0;
        while i < messages.len()
            invariant
                bl_len == blindings@.len(),
                public_key.y@.len() >= messages@.len(),
                blindings@.len() == messages@.len() + 2,
                bl == fr_vals(blindings@),
                i <= messages@.len(),
                proof.wf(),
                g2_views(points@) == pok_bases(public_key, messages@.take(i as int)),
                proof.bases() == pok_bases(public_key, messages@.take(i as int)),
                proof.randoms() == pok_randoms(messages@.take(i as int), bl),
                fr_vals(secrets@) == pok_secrets(t.val(), signature.m_tick.val(), messages@.take(i as int)),
                points@.len() == secrets@.len(),
                proof.randoms().len() == secrets@.len(),
                r.val() != 0,
                t.val() != 0,
                forall|k: int| 0 <= k < proof.randoms().len() ==> #[trigger] proof.randoms()[k] != 0,
            decreases messages.len() - i,
        {
            let ghost pre = messages@.take(i as int);
            let ghost next = messages@.take(i + 1);
            let ghost old_points = points@;
            let ghost old_secrets = secrets@;
            assert(next.drop_last() =~= pre);
            assert(next.last() == messages@[i as int]);
            match messages[i] {
                ProofMessage::Hidden(HiddenMessage::ProofSpecificBlinding(m)) => {
                    if proof.commit(public_key.y[i], blindings[i + 2]).is_err() {
                        proof {
                            lemma_zero_pair(public_key.y@, messages@, bl, i as int);
                        }
                        return Err(Error::ZeroBlinding);
                    }
                    points.push(public_key.y[i]);
                    secrets.push(m.0);
                    assert(g2_views(points@) =~= g2_views(old_points).push(public_key.y@[i as int]@));
                    assert(fr_vals(secrets@) =~= fr_vals(old_secrets).push(m.0.val()));
                },
                ProofMessage::Hidden(HiddenMessage::ExternalBlinding(m, n)) => {
                    if proof.commit(public_key.y[i], n.0).is_err() {
                        proof {
                            lemma_zero_pair(public_key.y@, messages@, bl, i as int);
                        }
                        return Err(Error::ZeroBlinding);
                    }
                    points.push(public_key.y[i]);
                    secrets.push(m.0);
                    assert(g2_views(points@) =~= g2_views(old_points).push(public_key.y@[i as int]@));
                    assert(fr_vals(secrets@) =~= fr_vals(old_secrets).push(m.0.val()));
                },
                ProofMessage::Revealed(_) => {},
            }
            assert(g2_views(points@) =~= pok_bases(public_key, next));
            assert(proof.bases() =~= pok_bases(public_key, next));
            assert(proof.randoms() =~= pok_randoms(next, bl));
            assert(fr_vals(secrets@) =~= pok_secrets(t.val(), signature.m_tick.val(), next));
            i = i + 1;
        }
        assert(messages@.take(messages@.len() as int) =~= messages@);
        let commitment = g2_sum_of_products(&points, &secrets);
        Ok(PokSignature { secrets, proof, commitment, sigma_1, sigma_2 })
    }
}

impl PokSignature {
    /// Builds the proof state with fresh randomness from the thread-local
    /// generator. `MismatchedLengths` if the key has fewer slots than there are
    /// messages; `ZeroBlinding` if a drawn value is zero.
    pub fn init(signature: Signature, public_key: &PublicKey, messages: &[ProofMessage]) -> (res:
        Result<PokSignature, Error>)
        ensures
            public_key.y@.len() < messages@.len() <==> res == Err::<PokSignature, Error>(Error::MismatchedLengths),
            res.is_err() ==> res == Err::<PokSignature, Error>(Error::MismatchedLengths)
                || res == Err::<PokSignature, Error>(Error::ZeroBlinding),
            res.is_ok() ==> exists|r: nat, t: nat, bl: Seq<nat>|
                nonzero_randomness(r, t, pok_randoms(messages@, bl))
                && #[trigger] res.unwrap().built_from(&signature, public_key, messages@, r, t, bl),
    {
        if public_key.y.len() < messages.len() {
            return Err(Error::MismatchedLengths);
        }
        let r = Fr::random();
        let t = Fr::random();
        let mut blindings: Vec<Fr> = Vec::new();
        blindings.push(Fr::random());
        blindings.push(Fr::random());
        let mut i: usize = 0;
        while i < messages.len()
            invariant
                i <= messages@.len(),
                blindings@.len() == i + 2,
            decreases messages.len() - i,
        {
            blindings.push(Fr::random());
            i = i + 1;
        }
        let res = PokSignature::init_with_randomness(signature, public_key, messages, r, t, &blindings);
        match res {
            Ok(p) => {
                assert(p.built_from(&signature, public_key, messages@, r.val(), t.val(), fr_vals(blindings@)));
                Ok(p)
            },
            Err(e) => Err(e),
        }
    }

    /// Appends the re-randomized signature, the commitment `J` and the Schnorr
    /// commitment to the transcript, in that order. The caller appends any
    /// further context (a nonce) before hashing it into the challenge.
    pub fn add_proof_contribution(&self, transcript: &mut Vec<u8>)
        ensures
            final(transcript)@ == old(transcript)@ + self.sigma_1_view() + self.sigma_2_view()
                + self.commitment_view() + self.schnorr_commitment(),
    {
        proof {
            use_type_invariant(self);
        }
        let s1 = self.sigma_1.to_uncompressed();
        let s2 = self.sigma_2.to_uncompressed();
        let c = self.commitment.to_uncompressed();
        absorb(transcript, &s1);
        absorb(transcript, &s2);
        absorb(transcript, &c);
        self.proof.add_challenge_contribution(transcript);
    }

    /// The proof for `challenge`: the re-randomized signature, `J`, and the
    /// responses `random_i + challenge * secret_i` of the Schnorr pairs;
    /// `BuilderMisuse` if the challenge is zero.
    pub fn generate_proof(self, challenge: Challenge) -> (res: Result<PokSignatureProof, Error>)
        ensures
            challenge.0.val() == 0 <==> res == Err::<PokSignatureProof, Error>(Error::BuilderMisuse),
            challenge.0.val() != 0 ==> res.is_ok(),
            res.is_ok() ==> res.unwrap().sigma_1@ == self.sigma_1_view(),
            res.is_ok() ==> res.unwrap().sigma_2@ == self.sigma_2_view(),
            res.is_ok() ==> res.unwrap().commitment@ == self.commitment_view(),
            res.is_ok() ==> fr_vals(res.unwrap().proof@) == responses(self.randoms(),
                challenge.0.val(), self.secret_vals()),
    {
        proof {
            use_type_invariant(&self);
        }
        let PokSignature { secrets, proof, commitment, sigma_1, sigma_2 } = self;
        match proof.generate_proof(challenge.0, &secrets) {
            Ok(responses) => Ok(PokSignatureProof { sigma_1, sigma_2, commitment, proof: responses }),
            Err(e) => Err(e),
        }
    }
}

/// The encodings of the responses, one after the other, 32 bytes each.
pub open spec fn responses_bytes(rs: Seq<Fr>) -> Seq<u8>
    decreases rs.len(),
{
    if rs.len() == 0 {
        Seq::empty()
    } else {
        responses_bytes(rs.drop_last()) + rs.last().to_bytes_spec()
    }
}

/// Length of the encoding of a proof with `hidden` hidden slots.
pub open spec fn proof_len(hidden: nat) -> nat {
    192 + 32 * (hidden + 2)
}

/// The `k`-th response in an encoded proof.
pub open spec fn response_chunk(b: Seq<u8>, k: int) -> Seq<u8> {
    b.subrange(192 + 32 * k, 224 + 32 * k)
}

/// Whether `b` encodes a proof with `hidden` hidden slots.
pub open spec fn proof_decodes(b: Seq<u8>, hidden: nat) -> bool {
    &&& b.len() == proof_len(hidden)
    &&& g1_from_compressed_of(b.subrange(0, 48)).is_some()
    &&& g1_from_compressed_of(b.subrange(48, 96)).is_some()
    &&& g2_from_compressed_of(b.subrange(96, 192)).is_some()
    &&& forall|k: int| 0 <= k < hidden + 2 ==> le_int(#[trigger] response_chunk(b, k)) < modulus()
}

impl PokSignatureProof {
    /// Decodes a proof for a disclosure pattern with `hidden` hidden slots:
    /// `InvalidEncoding` unless `b` has exactly the length for `hidden + 2`
    /// responses, the three points decode to points of the prime-order
    /// subgroups, and every response is canonical.
    pub fn from_bytes(b: &[u8], hidden: usize) -> (r: Result<PokSignatureProof, Error>)
        ensures
            r.is_ok() <==> proof_decodes(b@, hidden as nat),
            r.is_err() ==> r == Err::<PokSignatureProof, Error>(Error::InvalidEncoding),
            r.is_ok() ==> ({
                let p = r.unwrap();
                &&& p.sigma_1@ == g1_from_compressed_of(b@.subrange(0, 48)).unwrap()
                &&& p.sigma_2@ == g1_from_compressed_of(b@.subrange(48, 96)).unwrap()
                &&& p.commitment@ == g2_from_compressed_of(b@.subrange(96, 192)).unwrap()
                &&& p.proof@.len() == hidden + 2
                &&& forall|k: int| 0 <= k < hidden + 2 ==> (#[trigger] p.proof@[k]).val()
                    == le_int(response_chunk(b@, k))
            }),
    {
        let len = b.len();
        if len as u128 != 192 + 32 * (hidden as u128 + 2) {
            return Err(Error::InvalidEncoding);
        }
        let s1 = match g1_decompress(&copy_array::<48>(b, 0)) {
            Some(p) => p,
            None => {
                return Err(Error::InvalidEncoding);
            },
        };
        let s2 = match g1_decompress(&copy_array::<48>(b, 48)) {
            Some(p) => p,
            None => {
                return Err(Error::InvalidEncoding);
            },
        };
        let j = match g2_decompress(&copy_array::<96>(b, 96)) {
            Some(p) => p,
            None => {
                return Err(Error::InvalidEncoding);
            },
        };
        let count = hidden + 2;
        let mut responses: Vec<Fr> = Vec::new();
        let mut k: usize = 0;
        while k < count
            invariant
                len == b@.len(),
                count == hidden + 2,
                b@.len() == proof_len(hidden as nat),
                k <= count,
                responses@.len() == k,
                forall|q: int| 0 <= q < k ==> le_int(#[trigger] response_chunk(b@, q)) < modulus(),
                forall|q: int| 0 <= q < k ==> (#[trigger] responses@[q]).val() == le_int(response_chunk(b@, q)),
            decreases count - k,
        {
            let chunk = copy_array::<32>(b, 192 + 32 * k);
            assert(chunk@ == response_chunk(b@, k as int));
            match Fr::from_bytes(chunk) {
                Some(v) => {
                    responses.push(v);
                },
                None => {
                    return Err(Error::InvalidEncoding);
                },
            }
            k = k + 1;
        }
        Ok(PokSignatureProof { sigma_1: s1, sigma_2: s2, commitment: j, proof: responses })
    }

    /// The encoding: compressed `sigma_1'`, compressed `sigma_2'`, compressed
    /// `J`, then each response in little-endian form; `from_bytes`, given the
    /// number of hidden slots, reads it back to this proof.
    pub fn to_bytes(&self) -> (r: Vec<u8>)
        ensures
            r@ == g1_compressed_of(self.sigma_1@) + g1_compressed_of(
                self.sigma_2@,
            ) + g2_compressed_of(self.commitment@) + responses_bytes(self.proof@),
            r@.len() == 192 + 32 * self.proof@.len(),
            g1_from_compressed_of(r@.subrange(0, 48)) == Some(self.sigma_1@),
            g1_from_compressed_of(r@.subrange(48, 96)) == Some(self.sigma_2@),
            g2_from_compressed_of(r@.subrange(96, 192)) == Some(self.commitment@),
            forall|k: int| 0 <= k < self.proof@.len() ==> le_int(#[trigger] response_chunk(r@, k))
                == self.proof@[k].val(),
            self.proof@.len() >= 2 ==> proof_decodes(r@, (self.proof@.len() - 2) as nat),
    {
        let mut out: Vec<u8> = Vec::new();
        let c1 = g1_compress(&self.sigma_1);
        let c2 = g1_compress(&self.sigma_2);
        let cj = g2_compress(&self.commitment);
        absorb(&mut out, &c1);
        absorb(&mut out, &c2);
        absorb(&mut out, &cj);
        let ghost head = out@;
        assert(head.subrange(0, 48) =~= c1@);
        assert(head.subrange(48, 96) =~= c2@);
        assert(head.subrange(96, 192) =~= cj@);
        let mut i: usize = 0;
        while i < self.proof.len()
            invariant
                head.len() == 192,
                i <= self.proof@.len(),
                out@ == head + responses_bytes(self.proof@.take(i as int)),
                out@.len() == 192 + 32 * i,
                out@.subrange(0, 192) == head,
                forall|q: int| 0 <= q < i ==> #[trigger] response_chunk(out@, q)
                    == self.proof@[q].to_bytes_spec(),
                forall|q: int| 0 <= q < i ==> (#[trigger] self.proof@[q]).val() < modulus(),
            decreases self.proof.len() - i,
        {
            let ghost before = out@;
            let x = self.proof[i];
            proof {
                use_type_invariant(&x);
            }
            let b = x.to_bytes();
            absorb(&mut out, &b);
            proof {
                assert(self.proof@.take(i + 1).drop_last() =~= self.proof@.take(i as int));
                assert(out@.subrange(0, 192) =~= before.subrange(0, 192));
                assert forall|q: int| 0 <= q < i + 1 implies #[trigger] response_chunk(out@, q)
                    == self.proof@[q].to_bytes_spec() by {
                    if q < i {
                        assert(response_chunk(out@, q) =~= response_chunk(before, q));
                    } else {
                        assert(response_chunk(out@, q) =~= b@);
                    }
                }
            }
            i = i + 1;
        }
        assert(self.proof@.take(self.proof@.len() as int) =~= self.proof@);
        assert(out@.subrange(0, 48) =~= head.subrange(0, 48));
        assert(out@.subrange(48, 96) =~= head.subrange(48, 96));
        assert(out@.subrange(96, 192) =~= head.subrange(96, 192));
        proof {
            assert forall|k: int| 0 <= k < self.proof@.len() implies le_int(#[trigger] response_chunk(out@, k))
                == self.proof@[k].val() && le_int(response_chunk(out@, k)) < modulus() by {
                crate::scalar::lemma_bytes_spec(self.proof@[k]);
            }
        }
        out
    }
}

/// Whether `(proof, c)` is what `derive_proof` makes for `sig`, `pk`, `msgs`
/// and `nonce` with the randomness `r`, `t` and `blindings`.
pub open spec fn derived_proof(
    proof: &PokSignatureProof,
    c: Challenge,
    sig: &Signature,
    pk: &PublicKey,
    msgs: Seq<ProofMessage>,
    nonce: Nonce,
    r: nat,
    t: nat,
    blindings: Seq<nat>,
) -> bool {
    let secrets = pok_secrets(t, sig.m_tick.val(), msgs);
    let randoms = pok_randoms(msgs, blindings);
    &&& c.0.val() == derived_challenge(sig, pk, msgs, nonce, r, t, blindings)
    &&& proof.sigma_1@ == g1_mul_of(sig.sigma_1@, r)
    &&& proof.sigma_2@ == g1_mul_of(g1_add_of(sig.sigma_2@, g1_mul_of(sig.sigma_1@, t)), r)
    &&& proof.commitment@ == g2_sum_of_products_of(pok_bases(pk, msgs), secrets)
    &&& fr_vals(proof.proof@) == responses(randoms, c.0.val(), secrets)
}

/// The challenge that `derive_proof` computes: the hash of the re-randomized
/// signature, `J`, the Schnorr commitment and the nonce.
pub open spec fn derived_challenge(
    sig: &Signature,
    pk: &PublicKey,
    msgs: Seq<ProofMessage>,
    nonce: Nonce,
    r: nat,
    t: nat,
    blindings: Seq<nat>,
) -> nat {
    let sigma_1 = g1_mul_of(sig.sigma_1@, r);
    let sigma_2 = g1_mul_of(g1_add_of(sig.sigma_2@, g1_mul_of(sig.sigma_1@, t)), r);
    let j = g2_sum_of_products_of(pok_bases(pk, msgs), pok_secrets(t, sig.m_tick.val(), msgs));
    let schnorr = g2_sum_of_products_of(pok_bases(pk, msgs), pok_randoms(msgs, blindings));
    hash_to_field(sigma_1 + sigma_2 + j + schnorr + nonce.0.to_bytes_spec())
}

/// Derives a proof for `messages` bound to `nonce`, with the given randomness
/// (see `PokSignature::init_with_randomness`): the challenge is the hash of the
/// prover's transcript followed by the nonce. Returns the proof and its
/// challenge; `BuilderMisuse` if that challenge is zero.
pub fn derive_proof_with_randomness(
    signature: Signature,
    public_key: &PublicKey,
    messages: &[ProofMessage],
    nonce: Nonce,
    r: Fr,
    t: Fr,
    blindings: &Vec<Fr>,
) -> (res: Result<(PokSignatureProof, Challenge), Error>)
    ensures
        (public_key.y@.len() < messages@.len() || blindings@.len() != messages@.len() + 2)
            <==> res == Err::<(PokSignatureProof, Challenge), Error>(Error::MismatchedLengths),
        !(public_key.y@.len() < messages@.len() || blindings@.len() != messages@.len() + 2) ==> (
            !nonzero_randomness(r.val(), t.val(), pok_randoms(messages@, fr_vals(blindings@)))
            <==> res == Err::<(PokSignatureProof, Challenge), Error>(Error::ZeroBlinding)),
        !(public_key.y@.len() < messages@.len() || blindings@.len() != messages@.len() + 2)
            && nonzero_randomness(r.val(), t.val(), pok_randoms(messages@, fr_vals(blindings@))) ==> (
            derived_challenge(&signature, public_key, messages@, nonce, r.val(), t.val(),
                fr_vals(blindings@)) == 0
            <==> res == Err::<(PokSignatureProof, Challenge), Error>(Error::BuilderMisuse)),
        res.is_err() ==> res == Err::<(PokSignatureProof, Challenge), Error>(Error::MismatchedLengths)
            || res == Err::<(PokSignatureProof, Challenge), Error>(Error::ZeroBlinding)
            || res == Err::<(PokSignatureProof, Challenge), Error>(Error::BuilderMisuse),
        res.is_ok() ==> derived_proof(&res.unwrap().0, res.unwrap().1, &signature, public_key,
            messages@, nonce, r.val(), t.val(), fr_vals(blindings@)),
{
    let pok = match PokSignature::init_with_randomness(signature, public_key, messages, r, t, blindings) {
        Ok(p) => p,
        Err(e) => {
            return Err(e);
        },
    };
    finish_proof(pok, nonce)
}

/// Derives a proof for `messages` bound to `nonce`, with fresh randomness from
/// the thread-local generator. Returns the proof and its challenge;
/// `ZeroBlinding` if a drawn value is zero, `BuilderMisuse` if the challenge is.
pub fn derive_proof(signature: Signature, public_key: &PublicKey, messages: &[ProofMessage], nonce: Nonce)
    -> (res: Result<(PokSignatureProof, Challenge), Error>)
    ensures
        public_key.y@.len() < messages@.len()
            <==> res == Err::<(PokSignatureProof, Challenge), Error>(Error::MismatchedLengths),
        res.is_err() ==> res == Err::<(PokSignatureProof, Challenge), Error>(Error::MismatchedLengths)
            || res == Err::<(PokSignatureProof, Challenge), Error>(Error::ZeroBlinding)
            || res == Err::<(PokSignatureProof, Challenge), Error>(Error::BuilderMisuse),
        res.is_ok() ==> exists|r: nat, t: nat, bl: Seq<nat>|
            nonzero_randomness(r, t, pok_randoms(messages@, bl)) && #[trigger] derived_proof(
                &res.unwrap().0, res.unwrap().1, &signature, public_key, messages@, nonce, r, t, bl),
{
    let pok = match PokSignature::init(signature, public_key, messages) {
        Ok(p) => p,
        Err(e) => {
            return Err(e);
        },
    };
    let ghost (r, t, bl) = choose|r: nat, t: nat, bl: Seq<nat>|
        nonzero_randomness(r, t, pok_randoms(messages@, bl))
        && #[trigger] pok.built_from(&signature, public_key, messages@, r, t, bl);
    let res = finish_proof(pok, nonce);
    if res.is_ok() {
        assert(derived_proof(&res.unwrap().0, res.unwrap().1, &signature, public_key, messages@, nonce, r, t, bl));
    }
    res
}

/// Hashes the prover's transcript and the nonce into the challenge and makes
/// the responses.
fn finish_proof(pok: PokSignature, nonce: Nonce) -> (res: Result<(PokSignatureProof, Challenge), Error>)
    ensures
        res.is_err() ==> res == Err::<(PokSignatureProof, Challenge), Error>(Error::BuilderMisuse),
        forall|sig: Signature, pk: PublicKey, msgs: Seq<ProofMessage>, r: nat, t: nat, bl: Seq<nat>|
            #[trigger] pok.built_from(&sig, &pk, msgs, r, t, bl) ==> (res.is_err() <==> derived_challenge(
                &sig, &pk, msgs, nonce, r, t, bl) == 0),
        forall|sig: Signature, pk: PublicKey, msgs: Seq<ProofMessage>, r: nat, t: nat, bl: Seq<nat>|
            #[trigger] pok.built_from(&sig, &pk, msgs, r, t, bl) && res.is_ok() ==> derived_proof(
                &res.unwrap().0, res.unwrap().1, &sig, &pk, msgs, nonce, r, t, bl),
{
    let mut transcript: Vec<u8> = Vec::new();
    pok.add_proof_contribution(&mut transcript);
    absorb(&mut transcript, &nonce.to_bytes());
    let c = Challenge::hash(transcript.as_slice());
    match pok.generate_proof(c) {
        Ok(p) => Ok((p, c)),
        Err(e) => Err(e),
    }
}

/// The hidden parts of a prefix of the slots are prefixes of the hidden parts
/// of all slots, and the three have one entry per hidden slot.
proof fn lemma_hidden_prefix(ys: Seq<G2Point>, msgs: Seq<ProofMessage>, bl: Seq<nat>, j: int)
    requires
        0 <= j <= msgs.len(),
    ensures
        hidden_bases(ys, msgs.take(j)).len() == hidden_values(msgs.take(j)).len(),
        hidden_randoms(msgs.take(j), bl).len() == hidden_values(msgs.take(j)).len(),
        hidden_values(msgs.take(j)).len() <= hidden_values(msgs).len(),
        hidden_bases(ys, msgs).take(hidden_values(msgs.take(j)).len() as int) == hidden_bases(ys, msgs.take(j)),
        hidden_values(msgs).take(hidden_values(msgs.take(j)).len() as int) == hidden_values(msgs.take(j)),
        hidden_randoms(msgs, bl).take(hidden_values(msgs.take(j)).len() as int) == hidden_randoms(msgs.take(j), bl),
    decreases msgs.len(),
{
    if j == msgs.len() {
        assert(msgs.take(j) =~= msgs);
        lemma_hidden_lengths(ys, msgs, bl);
        assert(hidden_bases(ys, msgs).take(hidden_values(msgs).len() as int) =~= hidden_bases(ys, msgs));
        assert(hidden_values(msgs).take(hidden_values(msgs).len() as int) =~= hidden_values(msgs));
        assert(hidden_randoms(msgs, bl).take(hidden_values(msgs).len() as int) =~= hidden_randoms(msgs, bl));
    } else {
        let front = msgs.drop_last();
        assert(front.take(j) =~= msgs.take(j));
        lemma_hidden_prefix(ys, front, bl, j);
        lemma_hidden_lengths(ys, front, bl);
        let k = hidden_values(msgs.take(j)).len() as int;
        assert(hidden_bases(ys, msgs).take(k) =~= hidden_bases(ys, front).take(k));
        assert(hidden_values(msgs).take(k) =~= hidden_values(front).take(k));
        assert(hidden_randoms(msgs, bl).take(k) =~= hidden_randoms(front, bl).take(k));
    }
}

/// The hidden bases, values and blinding values have one entry per hidden slot.
pub proof fn lemma_hidden_lengths(ys: Seq<G2Point>, msgs: Seq<ProofMessage>, bl: Seq<nat>)
    ensures
        hidden_bases(ys, msgs).len() == hidden_values(msgs).len(),
        hidden_randoms(msgs, bl).len() == hidden_values(msgs).len(),
    decreases msgs.len(),
{
    if msgs.len() > 0 {
        lemma_hidden_lengths(ys, msgs.drop_last(), bl);
    }
}

/// The Schnorr pair of hidden slot `i` sits at position `2 + (hidden slots before i)`:
/// base `Y_i`, blinding `blinding` and secret `value`.
proof fn lemma_slot_pair(
    p: &PokSignature,
    sig: &Signature,
    pk: &PublicKey,
    msgs: Seq<ProofMessage>,
    r: nat,
    t: nat,
    bl: Seq<nat>,
    i: int,
)
    requires
        p.built_from(sig, pk, msgs, r, t, bl),
        0 <= i < msgs.len(),
        msgs[i].is_hidden(),
        i < pk.y@.len(),
    ensures
        ({
            let k = 2 + hidden_values(msgs.take(i)).len() as int;
            &&& k < p.bases().len()
            &&& p.bases()[k] == pk.y@[i]@
            &&& p.randoms()[k] == slot_blinding(msgs[i], i, bl)
            &&& p.secret_vals()[k] == msgs[i].value()
        }),
{
    let ys = pk.y@;
    lemma_hidden_lengths(ys, msgs, bl);
    lemma_hidden_prefix(ys, msgs, bl, i + 1);
    let next = msgs.take(i + 1);
    assert(next.drop_last() =~= msgs.take(i));
    assert(next.last() == msgs[i]);
    let h = hidden_values(msgs.take(i)).len() as int;
    assert(hidden_values(next).len() == h + 1);
    assert(hidden_bases(ys, msgs)[h] == hidden_bases(ys, msgs).take(h + 1)[h]);
    assert(hidden_values(msgs)[h] == hidden_values(msgs).take(h + 1)[h]);
    assert(hidden_randoms(msgs, bl)[h] == hidden_randoms(msgs, bl).take(h + 1)[h]);
}

/// Linkage by external blinding: when two proofs hide the same message in
/// slot `i` with the same caller-supplied blinding value, both commit to slot
/// `i` with the same Schnorr pair (base `Y_i`, that blinding value, that
/// message), each at position `2 + (hidden slots before i)` of its own proof.
/// The Schnorr commitments therefore hold the same term `blinding * Y_i` for
/// the linked message, whatever else each proof hides or reveals.
pub proof fn lemma_external_blinding_linkage(
    p1: &PokSignature,
    p2: &PokSignature,
    sig1: &Signature,
    sig2: &Signature,
    pk: &PublicKey,
    msgs1: Seq<ProofMessage>,
    msgs2: Seq<ProofMessage>,
    r1: nat,
    t1: nat,
    bl1: Seq<nat>,
    r2: nat,
    t2: nat,
    bl2: Seq<nat>,
    i: int,
)
    requires
        p1.built_from(sig1, pk, msgs1, r1, t1, bl1),
        p2.built_from(sig2, pk, msgs2, r2, t2, bl2),
        0 <= i < msgs1.len(),
        i < msgs2.len(),
        i < pk.y@.len(),
        msgs1[i] is Hidden,
        msgs1[i]->Hidden_0 is ExternalBlinding,
        msgs1[i] == msgs2[i],
    ensures
        ({
            let k1 = 2 + hidden_values(msgs1.take(i)).len() as int;
            let k2 = 2 + hidden_values(msgs2.take(i)).len() as int;
            let n = msgs1[i]->Hidden_0->ExternalBlinding_1;
            let m = msgs1[i]->Hidden_0->ExternalBlinding_0;
            &&& k1 < p1.bases().len()
            &&& k2 < p2.bases().len()
            &&& p1.bases()[k1] == pk.y@[i]@
            &&& p2.bases()[k2] == pk.y@[i]@
            &&& p1.randoms()[k1] == n.0.val()
            &&& p2.randoms()[k2] == n.0.val()
            &&& p1.secret_vals()[k1] == m.0.val()
            &&& p2.secret_vals()[k2] == m.0.val()
        }),
{
    lemma_slot_pair(p1, sig1, pk, msgs1, r1, t1, bl1, i);
    lemma_slot_pair(p2, sig2, pk, msgs2, r2, t2, bl2, i);
}

} // verus!
