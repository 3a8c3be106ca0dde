//! The Schnorr commitment engine: an accumulator of (base, blinding) pairs that
//! yields one multi-exponentiation commitment and, once the challenge is known,
//! one response per pair.
use vstd::prelude::*;
use crate::error::Error;
use crate::group::{G2Point, g2_sum_of_products, g2_sum_of_products_of, g2_views, fr_vals};
use crate::scalar::{Fr, fadd, fmul};

verus! {

/// The response `random + challenge * secret` of one Schnorr pair.
pub open spec fn response(random: nat, challenge: nat, secret: nat) -> nat {
    fadd(random, fmul(challenge, secret))
}

/// The responses for pairs with the given blindings and secrets.
pub open spec fn responses(randoms: Seq<nat>, challenge: nat, secrets: Seq<nat>) -> Seq<nat> {
    Seq::new(randoms.len(), |i: int| response(randoms[i], challenge, secrets[i]))
}

/// Bases with their blinding values, in insertion order. Consuming `generate_proof`
/// ends its life, so no pair can be added after the responses are made.
pub struct ProofCommittedBuilder {
    points: Vec<G2Point>,
    scalars: Vec<Fr>,
}

impl ProofCommittedBuilder {
    /// The bases, as encodings, in insertion order.
    pub closed spec fn bases(&self) -> Seq<Seq<u8>> {
        g2_views(self.points@)
    }

    /// The blinding values, in insertion order.
    pub closed spec fn randoms(&self) -> Seq<nat> {
        fr_vals(self.scalars@)
    }

    pub closed spec fn wf(&self) -> bool {
        self.points.len() == self.scalars.len()
    }

    /// The encoding of the commitment `sum_i randoms[i] * bases[i]`.
    pub open spec fn commitment_spec(&self) -> Seq<u8> {
        g2_sum_of_products_of(self.bases(), self.randoms())
    }

    pub fn new() -> (r: ProofCommittedBuilder)
        ensures
            r.wf(),
            r.bases() == Seq::<Seq<u8>>::empty(),
            r.randoms() == Seq::<nat>::empty(),
    {
        let r = ProofCommittedBuilder { points: Vec::new(), scalars: Vec::new() };
        assert(r.bases() =~= Seq::<Seq<u8>>::empty());
        assert(r.randoms() =~= Seq::<nat>::empty());
        r
    }

    /// Number of pairs committed so far.
    pub fn len(&self) -> (r: usize)
        requires
            self.wf(),
        ensures
            r == self.bases().len(),
            r == self.randoms().len(),
    {
        self.points.len()
    }

    /// Commits to `base` with the caller-supplied blinding value `random`;
    /// `ZeroBlinding`, and nothing committed, if `random` is zero.
    pub fn commit(&mut self, base: G2Point, random: Fr) -> (r: Result<(), Error>)
        requires
            old(self).wf(),
        ensures
            final(self).wf(),
            r.is_err() <==> random.val() == 0,
            r.is_err() ==> r == Err::<(), Error>(Error::ZeroBlinding),
            r.is_err() ==> final(self).bases() == old(self).bases() && final(self).randoms()
                == old(self).randoms(),
            r.is_ok() ==> final(self).bases() == old(self).bases().push(base@),
            r.is_ok() ==> final(self).randoms() == old(self).randoms().push(random.val()),
    {
        if random.is_zero() {
            return Err(Error::ZeroBlinding);
        }
        self.points.push(base);
        self.scalars.push(random);
        assert(self.bases() =~= old(self).bases().push(base@));
        assert(self.randoms() =~= old(self).randoms().push(random.val()));
        Ok(())
    }

    /// Commits to `base` with a blinding value drawn from the thread-local
    /// generator; `ZeroBlinding`, and nothing committed, if the draw is zero.
    pub fn commit_random(&mut self, base: G2Point) -> (r: Result<(), Error>)
        requires
            old(self).wf(),
        ensures
            final(self).wf(),
            r.is_err() ==> r == Err::<(), Error>(Error::ZeroBlinding),
            r.is_err() ==> final(self).bases() == old(self).bases() && final(self).randoms()
                == old(self).randoms(),
            r.is_ok() ==> final(self).bases() == old(self).bases().push(base@),
            r.is_ok() ==> final(self).randoms().len() == old(self).randoms().len() + 1,
            r.is_ok() ==> final(self).randoms().subrange(0, old(self).randoms().len() as int)
                == old(self).randoms(),
            r.is_ok() ==> final(self).randoms().last() != 0,
    {
        let random = Fr::random();
        let r = self.commit(base, random);
        assert(r.is_ok() ==> self.randoms().subrange(0, old(self).randoms().len() as int)
            =~= old(self).randoms());
        r
    }

    /// The commitment over all pairs so far.
    pub fn commitment(&self) -> (r: G2Point)
        requires
            self.wf(),
        ensures
            r@ == self.commitment_spec(),
    {
        g2_sum_of_products(&self.points, &self.scalars)
    }

    /// Appends the encoding of the commitment to a transcript.
    pub fn add_challenge_contribution(&self, transcript: &mut Vec<u8>)
        requires
            self.wf(),
        ensures
            final(transcript)@ == old(transcript)@ + self.commitment_spec(),
    {
        let c = self.commitment();
        let enc = c.to_uncompressed();
        let mut i: usize = 0;
        while i < enc.len()
            invariant
                i <= enc@.len(),
                enc@ == self.commitment_spec(),
                transcript@ == old(transcript)@ + enc@.subrange(0, i as int),
            decreases enc.len() - i,
        {
            transcript.push(enc[i]);
            i = i + 1;
            assert(transcript@ =~= old(transcript)@ + enc@.subrange(0, i as int));
        }
        assert(enc@.subrange(0, enc@.len() as int) =~= enc@);
    }

    /// The responses `random_i + challenge * secrets[i]`, in insertion order;
    /// `BuilderMisuse` when the number of secrets differs from the number of
    /// pairs, or the challenge is zero.
    pub fn generate_proof(self, challenge: Fr, secrets: &Vec<Fr>) -> (r: Result<Vec<Fr>, Error>)
        requires
            self.wf(),
        ensures
            r.is_err() <==> (secrets.len() != self.randoms().len() || challenge.val() == 0),
            r.is_err() ==> r == Err::<Vec<Fr>, Error>(Error::BuilderMisuse),
            r.is_ok() ==> fr_vals(r.unwrap()@)
                == responses(self.randoms(), challenge.val(), fr_vals(secrets@)),
    {
        if secrets.len() != self.scalars.len() || challenge.is_zero() {
            return Err(Error::BuilderMisuse);
        }
        let mut out: Vec<Fr> = Vec::new();
        let mut i: usize = 0;
        while i < self.scalars.len()
            invariant
                self.wf(),
                secrets.len() == self.scalars.len(),
                i <= self.scalars.len(),
                out.len() == i,
                forall|k: int| 0 <= k < i ==> (#[trigger] out@[k]).val()
                    == response(self.scalars@[k].val(), challenge.val(), secrets@[k].val()),
            decreases self.scalars.len() - i,
        {
            let s = challenge.mul(&secrets[i]).add(&self.scalars[i]);
            proof {
                assert(fadd(fmul(challenge.val(), secrets@[i as int].val()), self.scalars@[i as int].val())
                    == fadd(self.scalars@[i as int].val(), fmul(challenge.val(), secrets@[i as int].val())));
            }
            out.push(s);
            i = i + 1;
        }
        assert(fr_vals(out@) =~= responses(self.randoms(), challenge.val(), fr_vals(secrets@)));
        Ok(out)
    }
}

} // verus!
