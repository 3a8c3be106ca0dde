//! Verification of a proof of knowledge of a signature against the revealed
//! messages.
use vstd::prelude::*;
use crate::group::{
    G2Point, fr_vals, g1_is_identity, g1_is_identity_of, g2_mul_gen, g2_mul_gen_of,
    g2_sum_of_products, g2_sum_of_products_of, g2_views, pairing_eq, pairing_eq_of,
};
use crate::keys::PublicKey;
use crate::message::{Challenge, Message, Nonce};
use crate::pok_signature::{PokSignature, PokSignatureProof, hidden_bases, pok_bases};
use crate::message::ProofMessage;
use crate::signature::Signature;
use crate::scalar::{Fr, fneg, hash_to_field};
use crate::transcript::absorb;

verus! {

/// Whether slot `j` is among the revealed ones.
pub open spec fn is_revealed(rv: Seq<(usize, Message)>, j: int) -> bool {
    exists|k: int| 0 <= k < rv.len() && #[trigger] rv[k].0 == j
}

/// Revealed slots are in range and pairwise distinct.
pub open spec fn revealed_valid(rv: Seq<(usize, Message)>, n: nat) -> bool {
    &&& forall|k: int| 0 <= k < rv.len() ==> (#[trigger] rv[k]).0 < n
    &&& forall|k1: int, k2: int| 0 <= k1 < k2 < rv.len() ==> (#[trigger] rv[k1]).0 != (#[trigger] rv[k2]).0
}

/// The bases `Y_j` of the slots below `n` that are not revealed, in slot order.
pub open spec fn unrevealed_bases(ys: Seq<G2Point>, rv: Seq<(usize, Message)>, n: nat) -> Seq<Seq<u8>>
    decreases n,
{
    if n == 0 {
        Seq::empty()
    } else {
        let rest = unrevealed_bases(ys, rv, (n - 1) as nat);
        if is_revealed(rv, n - 1) {
            rest
        } else {
            rest.push(ys[n - 1]@)
        }
    }
}

/// The bases of the Schnorr check: `G2`, `W`, each hidden `Y_j`, then `J`.
pub open spec fn schnorr_bases(pk: &PublicKey, n: nat, rv: Seq<(usize, Message)>, j: Seq<u8>) -> Seq<Seq<u8>> {
    seq![g2_mul_gen_of(1), pk.w@] + unrevealed_bases(pk.y@, rv, n) + seq![j]
}

/// The Schnorr commitment recomputed from the responses:
/// `sum_i responses[i] * bases[i] - challenge * J`.
pub open spec fn recomputed_commitment(
    pk: &PublicKey,
    n: nat,
    rv: Seq<(usize, Message)>,
    proof: &PokSignatureProof,
    c: nat,
) -> Seq<u8> {
    g2_sum_of_products_of(
        schnorr_bases(pk, n, rv, proof.commitment@),
        fr_vals(proof.proof@) + seq![fneg(c)],
    )
}

/// The transcript the verifier hashes: `sigma_1'`, `sigma_2'`, `J`, the
/// recomputed Schnorr commitment, then the nonce.
pub open spec fn pok_transcript(
    pk: &PublicKey,
    n: nat,
    rv: Seq<(usize, Message)>,
    proof: &PokSignatureProof,
    nonce: Nonce,
    c: nat,
) -> Seq<u8> {
    proof.sigma_1@ + proof.sigma_2@ + proof.commitment@ + recomputed_commitment(pk, n, rv, proof, c)
        + nonce.0.to_bytes_spec()
}

/// `X + sum_k m_k * Y_{idx_k} + J` over the revealed messages.
pub open spec fn pairing_base(pk: &PublicKey, rv: Seq<(usize, Message)>, proof: &PokSignatureProof) -> Seq<u8> {
    g2_sum_of_products_of(
        seq![pk.x@] + Seq::new(rv.len(), |k: int| pk.y@[rv[k].0 as int]@) + seq![proof.commitment@],
        seq![1nat] + Seq::new(rv.len(), |k: int| rv[k].1.0.val()) + seq![1nat],
    )
}

/// Whether `verify_signature_pok` accepts.
pub open spec fn pok_verifies(
    rv: Seq<(usize, Message)>,
    pk: &PublicKey,
    n: nat,
    proof: &PokSignatureProof,
    nonce: Nonce,
    c: Challenge,
) -> bool {
    &&& c.0.val() != 0
    &&& n <= pk.y@.len()
    &&& revealed_valid(rv, n)
    &&& proof.proof@.len() == unrevealed_bases(pk.y@, rv, n).len() + 2
    &&& hash_to_field(pok_transcript(pk, n, rv, proof, nonce, c.0.val())) == c.0.val()
    &&& !g1_is_identity_of(proof.sigma_1@)
    &&& pairing_eq_of(proof.sigma_1@, pairing_base(pk, rv, proof), proof.sigma_2@, g2_mul_gen_of(1))
}

/// Whether some revealed entry names slot `j`.
fn contains_index(rv: &[(usize, Message)], j: usize) -> (r: bool)
    ensures
        r == is_revealed(rv@, j as int),
{
    let mut k: usize = 0;
    while k < rv.len()
        invariant
            k <= rv@.len(),
            forall|i: int| 0 <= i < k ==> (#[trigger] rv@[i]).0 != j,
        decreases rv.len() - k,
    {
        if rv[k].0 == j {
            return true;
        }
        k = k + 1;
    }
    false
}

/// Whether the revealed slots are below `n` and pairwise distinct.
fn check_revealed(rv: &[(usize, Message)], n: usize) -> (r: bool)
    ensures
        r == revealed_valid(rv@, n as nat),
{
    let mut k: usize = 0;
    while k < rv.len()
        invariant
            k <= rv@.len(),
            forall|i: int| 0 <= i < k ==> (#[trigger] rv@[i]).0 < n,
            forall|i1: int, i2: int| 0 <= i1 < i2 < rv@.len() && i1 < k ==> (#[trigger] rv@[i1]).0 != (#[trigger] rv@[i2]).0,
        decreases rv.len() - k,
    {
        if rv[k].0 >= n {
            return false;
        }
        let mut l: usize = k + 1;
        while l < rv.len()
            invariant
                k < rv@.len(),
                k + 1 <= l <= rv@.len(),
                forall|i2: int| k < i2 < l ==> rv@[k as int].0 != (#[trigger] rv@[i2]).0,
            decreases rv.len() - l,
        {
            if rv[k].0 == rv[l].0 {
                return false;
            }
            l = l + 1;
        }
        k = k + 1;
    }
    true
}

/// Checks proofs of knowledge of a signature.
pub struct Verifier;

impl Verifier {
    /// Checks `proof` of a signature on `message_count` messages, of which
    /// `revealed_msgs` (slot index and value) are revealed, under `public_key`,
    /// against the nonce of the presentation and the challenge. It accepts
    /// exactly when the challenge is not zero, the key has at least
    /// `message_count` slots, the revealed slots are below `message_count` and
    /// distinct, there is one response for each of `G2`, `W` and every hidden
    /// slot, the challenge hashed from `sigma_1'`, `sigma_2'`, `J`, the
    /// recomputed Schnorr commitment and the nonce equals `challenge`,
    /// `sigma_1'` is not the identity, and
    /// `e(sigma_1', X + sum_revealed m_i * Y_i + J) == e(sigma_2', G2)`.
    pub fn verify_signature_pok(
        revealed_msgs: &[(usize, Message)],
        public_key: &PublicKey,
        message_count: usize,
        proof: &PokSignatureProof,
        nonce: Nonce,
        challenge: Challenge,
    ) -> (r: bool)
        ensures
            r == pok_verifies(revealed_msgs@, public_key, message_count as nat, proof, nonce, challenge),
    {
        if challenge.0.is_zero() {
            return false;
        }
        if message_count > public_key.y.len() {
            return false;
        }
        let n = message_count;
        if !check_revealed(revealed_msgs, n) {
            return false;
        }
        let g2 = g2_mul_gen(&Fr::one());
        let mut points: Vec<G2Point> = Vec::new();
        points.push(g2);
        points.push(public_key.w);
        let mut j: usize = 0;
        while j < n
            invariant
                n <= public_key.y@.len(),
                j <= n,
                g2_views(points@) == seq![g2_mul_gen_of(1), public_key.w@]
                    + unrevealed_bases(public_key.y@, revealed_msgs@, j as nat),
            decreases n - j,
        {
            let ghost old_points = points@;
            if !contains_index(revealed_msgs, j) {
                points.push(public_key.y[j]);
                assert(g2_views(points@) =~= g2_views(old_points).push(public_key.y@[j as int]@));
            }
            j = j + 1;
            assert(g2_views(points@) =~= seq![g2_mul_gen_of(1), public_key.w@]
                + unrevealed_bases(public_key.y@, revealed_msgs@, j as nat));
        }
        if proof.proof.len() != points.len() {
            return false;
        }
        points.push(proof.commitment);
        assert(g2_views(points@) =~= schnorr_bases(public_key, n as nat, revealed_msgs@, proof.commitment@));

        let mut scalars: Vec<Fr> = Vec::new();
        let mut i: usize = 0;
        while i < proof.proof.len()
            invariant
                i <= proof.proof@.len(),
                fr_vals(scalars@) == fr_vals(proof.proof@.take(i as int)),
            decreases proof.proof.len() - i,
        {
            let ghost old_scalars = scalars@;
            scalars.push(proof.proof[i]);
            assert(fr_vals(scalars@) =~= fr_vals(old_scalars).push(proof.proof@[i as int].val()));
            assert(fr_vals(proof.proof@.take(i + 1)) =~= fr_vals(proof.proof@.take(i as int)).push(
                proof.proof@[i as int].val(),
            ));
            i = i + 1;
        }
        assert(proof.proof@.take(proof.proof@.len() as int) =~= proof.proof@);
        scalars.push(challenge.0.neg());
        assert(fr_vals(scalars@) =~= fr_vals(proof.proof@) + seq![fneg(challenge.0.val())]);
        let t = g2_sum_of_products(&points, &scalars);

        let mut transcript: Vec<u8> = Vec::new();
        absorb(&mut transcript, &proof.sigma_1.to_uncompressed());
        absorb(&mut transcript, &proof.sigma_2.to_uncompressed());
        absorb(&mut transcript, &proof.commitment.to_uncompressed());
        absorb(&mut transcript, &t.to_uncompressed());
        absorb(&mut transcript, &nonce.to_bytes());
        let recomputed = Challenge::hash(transcript.as_slice());
        if !recomputed.0.equals(&challenge.0) {
            return false;
        }
        if g1_is_identity(&proof.sigma_1) {
            return false;
        }

        let mut bases: Vec<G2Point> = Vec::new();
        let mut exps: Vec<Fr> = Vec::new();
        bases.push(public_key.x);
        exps.push(Fr::one());
        let mut k: usize = 0;
        while k < revealed_msgs.len()
            invariant
                k <= revealed_msgs@.len(),
                revealed_valid(revealed_msgs@, n as nat),
                n <= public_key.y@.len(),
                g2_views(bases@) == seq![public_key.x@] + Seq::new(k as nat, |q: int| public_key.y@[revealed_msgs@[q].0 as int]@),
                fr_vals(exps@) == seq![1nat] + Seq::new(k as nat, |q: int| revealed_msgs@[q].1.0.val()),
            decreases revealed_msgs.len() - k,
        {
            let (idx, m) = revealed_msgs[k];
            assert(revealed_msgs@[k as int].0 < n);
            let ghost old_bases = bases@;
            let ghost old_exps = exps@;
            bases.push(public_key.y[idx]);
            exps.push(m.0);
            assert(g2_views(bases@) =~= g2_views(old_bases).push(public_key.y@[idx as int]@));
            assert(fr_vals(exps@) =~= fr_vals(old_exps).push(m.0.val()));
            assert(Seq::new((k + 1) as nat, |q: int| public_key.y@[revealed_msgs@[q].0 as int]@)
                =~= Seq::new(k as nat, |q: int| public_key.y@[revealed_msgs@[q].0 as int]@).push(public_key.y@[idx as int]@));
            assert(Seq::new((k + 1) as nat, |q: int| revealed_msgs@[q].1.0.val())
                =~= Seq::new(k as nat, |q: int| revealed_msgs@[q].1.0.val()).push(m.0.val()));
            k = k + 1;
            assert(g2_views(bases@) =~= seq![public_key.x@] + Seq::new(k as nat, |q: int| public_key.y@[revealed_msgs@[q].0 as int]@));
            assert(fr_vals(exps@) =~= seq![1nat] + Seq::new(k as nat, |q: int| revealed_msgs@[q].1.0.val()));
        }
        bases.push(proof.commitment);
        exps.push(Fr::one());
        assert(g2_views(bases@) =~= seq![public_key.x@] + Seq::new(revealed_msgs@.len(), |q: int| public_key.y@[revealed_msgs@[q].0 as int]@) + seq![proof.commitment@]);
        assert(fr_vals(exps@) =~= seq![1nat] + Seq::new(revealed_msgs@.len(), |q: int| revealed_msgs@[q].1.0.val()) + seq![1nat]);
        let jb = g2_sum_of_products(&bases, &exps);
        pairing_eq(&proof.sigma_1, &jb, &proof.sigma_2, &g2)
    }
}

/// Challenge binding: the verifier's transcript ends with the nonce, so the
/// transcripts for two different nonces differ; a challenge computed for one
/// nonce is rejected under the other whenever the hash tells the two
/// transcripts apart.
pub proof fn lemma_challenge_binding(
    rv: Seq<(usize, Message)>,
    pk: &PublicKey,
    n: nat,
    proof: &PokSignatureProof,
    nonce: Nonce,
    other: Nonce,
    c: Challenge,
)
    requires
        nonce.0.val() != other.0.val(),
        c.0.val() == hash_to_field(pok_transcript(pk, n, rv, proof, other, c.0.val())),
    ensures
        pok_transcript(pk, n, rv, proof, nonce, c.0.val()) != pok_transcript(pk, n, rv, proof, other, c.0.val()),
        hash_to_field(pok_transcript(pk, n, rv, proof, nonce, c.0.val()))
            != hash_to_field(pok_transcript(pk, n, rv, proof, other, c.0.val()))
            ==> !pok_verifies(rv, pk, n, proof, nonce, c),
{
    let prefix = proof.sigma_1@ + proof.sigma_2@ + proof.commitment@ + recomputed_commitment(pk, n, rv, proof, c.0.val());
    let a = pok_transcript(pk, n, rv, proof, nonce, c.0.val());
    let b = pok_transcript(pk, n, rv, proof, other, c.0.val());
    crate::scalar::lemma_bytes_spec(nonce.0);
    crate::scalar::lemma_bytes_spec(other.0);
    if a == b {
        assert(a.subrange(prefix.len() as int, a.len() as int) =~= nonce.0.to_bytes_spec());
        assert(b.subrange(prefix.len() as int, b.len() as int) =~= other.0.to_bytes_spec());
    }
}

/// Whether the revealed entries name exactly the revealed slots of `msgs`.
pub open spec fn matches_disclosure(rv: Seq<(usize, Message)>, msgs: Seq<ProofMessage>) -> bool {
    forall|i: int| 0 <= i < msgs.len() ==> (#[trigger] msgs[i]).is_hidden() == !is_revealed(rv, i)
}

proof fn lemma_hidden_is_unrevealed(ys: Seq<G2Point>, msgs: Seq<ProofMessage>, rv: Seq<(usize, Message)>, k: nat)
    requires
        k <= msgs.len(),
        forall|i: int| 0 <= i < msgs.len() ==> (#[trigger] msgs[i]).is_hidden() == !is_revealed(rv, i),
    ensures
        hidden_bases(ys, msgs.take(k as int)) == unrevealed_bases(ys, rv, k),
    decreases k,
{
    if k > 0 {
        lemma_hidden_is_unrevealed(ys, msgs, rv, (k - 1) as nat);
        assert(msgs.take(k as int).drop_last() =~= msgs.take(k - 1));
        assert(msgs.take(k as int).last() == msgs[k - 1]);
    }
}

/// Prover and verifier agree on the Schnorr pairs for every disclosure
/// pattern: when the revealed entries name exactly the revealed slots of a
/// proof state, the bases the verifier
/// recomputes the Schnorr commitment over, for the number of messages proved,
/// are the prover's bases followed by `J`, and the prover makes exactly as many
/// responses as the verifier expects.
pub proof fn lemma_disclosure_bases_agree(
    p: &PokSignature,
    sig: &Signature,
    pk: &PublicKey,
    msgs: Seq<ProofMessage>,
    r: nat,
    t: nat,
    bl: Seq<nat>,
    rv: Seq<(usize, Message)>,
)
    requires
        p.built_from(sig, pk, msgs, r, t, bl),
        msgs.len() <= pk.y@.len(),
        matches_disclosure(rv, msgs),
    ensures
        schnorr_bases(pk, msgs.len(), rv, p.commitment_view()) == p.bases() + seq![p.commitment_view()],
        p.randoms().len() == unrevealed_bases(pk.y@, rv, msgs.len()).len() + 2,
{
    lemma_hidden_is_unrevealed(pk.y@, msgs, rv, msgs.len());
    assert(msgs.take(msgs.len() as int) =~= msgs);
    crate::pok_signature::lemma_hidden_lengths(pk.y@, msgs, bl);
}

} // verus!
