//! Points of the BLS12-381 groups G1 and G2, held as their uncompressed
//! encodings, and the pairing between them.
//!
//! Values of `G1Point` and `G2Point` are only built in this module, and only
//! from the encoding of a point that bls12_381_plus computed or checked, so
//! every stored encoding decodes.
use vstd::prelude::*;
use bls12_381_plus::group::Group;
use bls12_381_plus::{pairing, G1Affine, G1Projective, G2Affine, G2Projective, Scalar};
use crate::scalar::Fr;

verus! {

/// Name for the encoding of `s` times the fixed generator of G1.
pub uninterp spec fn g1_mul_gen_of(s: nat) -> Seq<u8>;

/// Name for the encoding of `s` times the G1 point encoded by `p`.
pub uninterp spec fn g1_mul_of(p: Seq<u8>, s: nat) -> Seq<u8>;

/// Name for the encoding of the sum of the G1 points encoded by `p` and `q`.
pub uninterp spec fn g1_add_of(p: Seq<u8>, q: Seq<u8>) -> Seq<u8>;

/// Name for whether the G1 point encoded by `p` is the identity.
pub uninterp spec fn g1_is_identity_of(p: Seq<u8>) -> bool;

/// Name for the 48-byte compressed form of the G1 point encoded by `p`.
pub uninterp spec fn g1_compressed_of(p: Seq<u8>) -> Seq<u8>;

/// Name for the point, if any, that the 48 bytes `c` encode in compressed form
/// (on the curve and in the prime-order subgroup).
pub uninterp spec fn g1_from_compressed_of(c: Seq<u8>) -> Option<Seq<u8>>;

/// Name for the encoding of `s` times the fixed generator of G2.
pub uninterp spec fn g2_mul_gen_of(s: nat) -> Seq<u8>;

/// Name for the encoding of `sum_i ss[i] * ps[i]` in G2.
pub uninterp spec fn g2_sum_of_products_of(ps: Seq<Seq<u8>>, ss: Seq<nat>) -> Seq<u8>;

/// Name for the 96-byte compressed form of the G2 point encoded by `p`.
pub uninterp spec fn g2_compressed_of(p: Seq<u8>) -> Seq<u8>;

/// Name for the point, if any, that the 96 bytes `c` encode in compressed form
/// (on the curve and in the prime-order subgroup).
pub uninterp spec fn g2_from_compressed_of(c: Seq<u8>) -> Option<Seq<u8>>;

/// Name for whether `e(a, b) == e(c, d)`.
pub uninterp spec fn pairing_eq_of(a: Seq<u8>, b: Seq<u8>, c: Seq<u8>, d: Seq<u8>) -> bool;

/// A point of G1, stored as its 96-byte uncompressed encoding.
#[derive(Clone, Copy, Debug, PartialEq, Eq)]
pub struct G1Point {
    enc: [u8; 96],
}

/// A point of G2, stored as its 192-byte uncompressed encoding.
#[derive(Clone, Copy, Debug, PartialEq, Eq)]
pub struct G2Point {
    enc: [u8; 192],
}

impl View for G1Point {
    type V = Seq<u8>;

    closed spec fn view(&self) -> Seq<u8> {
        self.enc@
    }
}

impl View for G2Point {
    type V = Seq<u8>;

    closed spec fn view(&self) -> Seq<u8> {
        self.enc@
    }
}

/// The views of a sequence of G2 points.
pub open spec fn g2_views(ps: Seq<G2Point>) -> Seq<Seq<u8>> {
    ps.map_values(|p: G2Point| p@)
}

/// The values of a sequence of scalars.
pub open spec fn fr_vals(ss: Seq<Fr>) -> Seq<nat> {
    ss.map_values(|s: Fr| s.val())
}

impl G2Point {
    /// The uncompressed encoding.
    pub fn to_uncompressed(&self) -> (r: [u8; 192])
        ensures
            r@ == self@,
    {
        self.enc
    }
}

impl G1Point {
    /// The uncompressed encoding.
    pub fn to_uncompressed(&self) -> (r: [u8; 96])
        ensures
            r@ == self@,
    {
        self.enc
    }
}

/// Relies on `Group::mul_by_generator` for `G1Projective`.
#[verifier::external_body]
pub(crate) fn g1_mul_gen(s: &Fr) -> (r: G1Point)
    ensures
        r@ == g1_mul_gen_of(s.val()),
{
    let p = G1Projective::mul_by_generator(&Scalar::from_le_bytes(&s.to_bytes()).unwrap());
    G1Point { enc: p.to_uncompressed() }
}

/// Relies on `G1Projective * Scalar`.
#[verifier::external_body]
pub(crate) fn g1_mul(p: &G1Point, s: &Fr) -> (r: G1Point)
    ensures
        r@ == g1_mul_of(p@, s.val()),
{
    let a = G1Projective::from_uncompressed_unchecked(&p.enc).unwrap();
    let r = a * Scalar::from_le_bytes(&s.to_bytes()).unwrap();
    G1Point { enc: r.to_uncompressed() }
}

/// Relies on `G1Projective + G1Projective`.
#[verifier::external_body]
pub(crate) fn g1_add(p: &G1Point, q: &G1Point) -> (r: G1Point)
    ensures
        r@ == g1_add_of(p@, q@),
{
    let a = G1Projective::from_uncompressed_unchecked(&p.enc).unwrap();
    let b = G1Projective::from_uncompressed_unchecked(&q.enc).unwrap();
    G1Point { enc: (a + b).to_uncompressed() }
}

/// Relies on `G1Affine::is_identity`.
#[verifier::external_body]
pub(crate) fn g1_is_identity(p: &G1Point) -> (r: bool)
    ensures
        r == g1_is_identity_of(p@),
{
    bool::from(G1Affine::from_uncompressed_unchecked(&p.enc).unwrap().is_identity())
}

/// Relies on `G1Affine::to_compressed`, which `G1Affine::from_compressed`
/// reads back to the same point.
#[verifier::external_body]
pub(crate) fn g1_compress(p: &G1Point) -> (r: [u8; 48])
    ensures
        r@ == g1_compressed_of(p@),
        g1_from_compressed_of(r@) == Some(p@),
{
    G1Affine::from_uncompressed_unchecked(&p.enc).unwrap().to_compressed()
}

/// Relies on `G1Affine::from_compressed`, which checks that the point is on
/// the curve and in the prime-order subgroup.
#[verifier::external_body]
pub(crate) fn g1_decompress(c: &[u8; 48]) -> (r: Option<G1Point>)
    ensures
        r.is_some() == g1_from_compressed_of(c@).is_some(),
        r.is_some() ==> r.unwrap()@ == g1_from_compressed_of(c@).unwrap(),
{
    match Option::<G1Affine>::from(G1Affine::from_compressed(c)) {
        Some(a) => Some(G1Point { enc: a.to_uncompressed() }),
        None => None,
    }
}

/// Relies on `Group::mul_by_generator` for `G2Projective`.
#[verifier::external_body]
pub(crate) fn g2_mul_gen(s: &Fr) -> (r: G2Point)
    ensures
        r@ == g2_mul_gen_of(s.val()),
{
    let p = G2Projective::mul_by_generator(&Scalar::from_le_bytes(&s.to_bytes()).unwrap());
    G2Point { enc: p.to_uncompressed() }
}

/// Relies on `G2Projective::sum_of_products`, the multi-exponentiation
/// `sum_i scalars[i] * points[i]`.
#[verifier::external_body]
pub(crate) fn g2_sum_of_products(points: &Vec<G2Point>, scalars: &Vec<Fr>) -> (r: G2Point)
    requires
        points.len() == scalars.len(),
    ensures
        r@ == g2_sum_of_products_of(g2_views(points@), fr_vals(scalars@)),
{
    let ps: Vec<G2Projective> = points
        .iter()
        .map(|p| G2Projective::from_uncompressed_unchecked(&p.enc).unwrap())
        .collect();
    let ss: Vec<Scalar> = scalars.iter().map(|s| Scalar::from_le_bytes(&s.to_bytes()).unwrap()).collect();
    G2Point { enc: G2Projective::sum_of_products(&ps, &ss).to_uncompressed() }
}

/// Relies on `G2Affine::to_compressed`, which `G2Affine::from_compressed`
/// reads back to the same point.
#[verifier::external_body]
pub(crate) fn g2_compress(p: &G2Point) -> (r: [u8; 96])
    ensures
        r@ == g2_compressed_of(p@),
        g2_from_compressed_of(r@) == Some(p@),
{
    G2Affine::from_uncompressed_unchecked(&p.enc).unwrap().to_compressed()
}

/// Relies on `G2Affine::from_compressed`, which checks that the point is on
/// the curve and in the prime-order subgroup.
#[verifier::external_body]
pub(crate) fn g2_decompress(c: &[u8; 96]) -> (r: Option<G2Point>)
    ensures
        r.is_some() == g2_from_compressed_of(c@).is_some(),
        r.is_some() ==> r.unwrap()@ == g2_from_compressed_of(c@).unwrap(),
{
    match Option::<G2Affine>::from(G2Affine::from_compressed(c)) {
        Some(a) => Some(G2Point { enc: a.to_uncompressed() }),
        None => None,
    }
}

/// Relies on `bls12_381_plus::pairing` and the equality of its `Gt` results.
#[verifier::external_body]
pub(crate) fn pairing_eq(a: &G1Point, b: &G2Point, c: &G1Point, d: &G2Point) -> (r: bool)
    ensures
        r == pairing_eq_of(a@, b@, c@, d@),
{
    let a = G1Affine::from_uncompressed_unchecked(&a.enc).unwrap();
    let b = G2Affine::from_uncompressed_unchecked(&b.enc).unwrap();
    let c = G1Affine::from_uncompressed_unchecked(&c.enc).unwrap();
    let d = G2Affine::from_uncompressed_unchecked(&d.enc).unwrap();
    pairing(&a, &b) == pairing(&c, &d)
}

} // verus!
