//! Curve points of Vesta, carried by their canonical compressed encoding
//! (33 bytes: the x coordinate with a y-sign or infinity flag). Point
//! arithmetic is a single multiscalar multiplication, delegated to
//! `ark_ec`; what it returns is pinned by the uninterpreted name `msm_of`,
//! a function of the scalar values and the base encodings alone.

use vstd::prelude::*;
use ark_ec::{AffineRepr, CurveGroup, VariableBaseMSM};
use ark_ff::PrimeField;
use ark_serialize::{CanonicalDeserialize, CanonicalSerialize};
use crate::field::{Scalar, scalar_vals};

verus! {

/// The length in bytes of a compressed Vesta point encoding.
pub const POINT_BYTES: usize = 33;

/// A curve point, held as its compressed encoding.
pub struct Point {
    pub bytes: Vec<u8>,
}

impl View for Point {
    type V = Seq<u8>;

    open spec fn view(&self) -> Seq<u8> {
        self.bytes@
    }
}

/// The encodings of a sequence of points.
pub open spec fn point_reprs(s: Seq<Point>) -> Seq<Seq<u8>> {
    s.map_values(|p: Point| p@)
}

/// The compressed encoding of the multiscalar multiplication
/// `sum scalars[i] * bases[i]` over the Vesta group, where each base is
/// taken from its encoding (an undecodable encoding counts as the identity
/// point). A function of the scalar values and base encodings alone.
pub uninterp spec fn msm_of(scalars: Seq<nat>, bases: Seq<Seq<u8>>) -> Seq<u8>;

/// Whether `ark_serialize` accepts these bytes as a compressed encoding of
/// a Vesta point (a decodable x coordinate with a point on the curve, or
/// the canonical encoding of infinity).
pub uninterp spec fn point_repr_ok(bytes: Seq<u8>) -> bool;

/// The point, if any, that the deterministic seed-to-point derivation
/// (`from_random_bytes` on the byte encoding of `tag` and `ctr`) yields.
pub uninterp spec fn point_of_seed(tag: nat, ctr: nat) -> Option<Seq<u8>>;

impl Point {
    /// A copy of this point.
    pub fn duplicate(&self) -> (r: Point)
        ensures
            r@ == self@,
    {
        let mut out: Vec<u8> = Vec::new();
        let mut i: usize = 0;
        while i < self.bytes.len()
            invariant
                i <= self.bytes@.len(),
                out@ == self.bytes@.take(i as int),
            decreases self.bytes@.len() - i,
        {
            out.push(self.bytes[i]);
            proof {
                assert(out@ =~= self.bytes@.take(i + 1 as int));
            }
            i = i + 1;
        }
        proof {
            assert(out@ =~= self.bytes@);
        }
        Point { bytes: out }
    }
}

/// Whether two points have the same encoding. Encodings are canonical, so
/// this is equality of the points themselves.
pub fn point_eq(a: &Point, b: &Point) -> (r: bool)
    ensures
        r == (a@ == b@),
{
    if a.bytes.len() != b.bytes.len() {
        proof {
            assert(a@ != b@);
        }
        return false;
    }
    let mut i: usize = 0;
    while i < a.bytes.len()
        invariant
            a.bytes@.len() == b.bytes@.len(),
            i <= a.bytes@.len(),
            forall|j: int| 0 <= j < i ==> a.bytes@[j] == b.bytes@[j],
        decreases a.bytes@.len() - i,
    {
        if a.bytes[i] != b.bytes[i] {
            proof {
                assert(a@ != b@);
            }
            return false;
        }
        i = i + 1;
    }
    proof {
        assert(a@ =~= b@);
    }
    true
}

/// The weighted sum of a batch of points: the multiscalar multiplication of
/// the weights against the points.
pub fn weighted_sum_of_points(weights: &Vec<Scalar>, points: &Vec<Point>) -> (r: Point)
    requires
        weights@.len() == points@.len(),
    ensures
        r@ == msm_of(scalar_vals(weights@), point_reprs(points@)),
        r@.len() == POINT_BYTES,
        point_repr_ok(r@),
{
    msm(weights, points)
}

/// Relies on `ark_ec::VariableBaseMSM::msm_unchecked` over the Vesta group
/// (the sum of each base multiplied by its scalar), with
/// `ark_serialize` compressed (de)serialization and
/// `from_le_bytes_mod_order` converting the arguments and the result. A
/// base whose bytes do not decode is taken as the identity point. The
/// result is a real group element, so its compressed encoding is 33 bytes
/// and decodes back.
#[verifier::external_body]
pub(crate) fn msm(scalars: &Vec<Scalar>, bases: &Vec<Point>) -> (r: Point)
    requires
        scalars@.len() == bases@.len(),
    ensures
        r@ == msm_of(scalar_vals(scalars@), point_reprs(bases@)),
        r@.len() == POINT_BYTES,
        point_repr_ok(r@),
{
    let gs: Vec<ark_vesta::Affine> = bases.iter().map(|p|
        ark_vesta::Affine::deserialize_compressed(&p.bytes[..])
            .unwrap_or(ark_vesta::Affine::zero())).collect();
    let fs: Vec<ark_vesta::Fr> = scalars.iter().map(|s|
        ark_vesta::Fr::from_le_bytes_mod_order(
            &s.limbs.iter().flat_map(|x| x.to_le_bytes()).collect::<Vec<u8>>())).collect();
    let aff = ark_vesta::Projective::msm_unchecked(&gs, &fs).into_affine();
    let mut out: Vec<u8> = Vec::new();
    aff.serialize_compressed(&mut out).unwrap();
    Point { bytes: out }
}

/// Relies on `ark_ec::AffineRepr::from_random_bytes` on Vesta: a
/// deterministic map from the 33-byte seed (the little-endian bytes of
/// `tag` and `ctr`, zero padded) to a curve point where one exists, with
/// `ark_serialize` encoding the result. The encoded point decodes back.
#[verifier::external_body]
pub(crate) fn point_from_seed(tag: u64, ctr: u64) -> (r: Option<Point>)
    ensures
        match r {
            Some(p) => point_of_seed(tag as nat, ctr as nat) == Some(p@) && p@.len()
                == POINT_BYTES && point_repr_ok(p@),
            None => point_of_seed(tag as nat, ctr as nat) is None,
        },
{
    let mut seed = [0u8; 33];
    seed[..8].copy_from_slice(&tag.to_le_bytes());
    seed[8..16].copy_from_slice(&ctr.to_le_bytes());
    match ark_vesta::Affine::from_random_bytes(&seed) {
        None => None,
        Some(p) => {
            let mut out: Vec<u8> = Vec::new();
            p.serialize_compressed(&mut out).unwrap();
            Some(Point { bytes: out })
        },
    }
}

/// Relies on `ark_serialize::CanonicalDeserialize::deserialize_compressed`
/// on Vesta: whether the bytes decode to a point (the x coordinate is a
/// canonical field element lying on the curve, or the canonical infinity
/// encoding).
#[verifier::external_body]
pub(crate) fn point_decode_ok(bytes: &Vec<u8>) -> (r: bool)
    ensures
        r == point_repr_ok(bytes@),
{
    ark_vesta::Affine::deserialize_compressed(&bytes[..]).is_ok()
}

} // verus!
