//! The batch accumulator verifier: many claimed b-polynomial commitments
//! are checked at once. One scalar weight per entry combines the claimed
//! points into a single multiscalar sum; independently the b-polynomial
//! coefficient vectors are scaled by the same weights, summed
//! coefficient-wise with zero padding, and committed once; the batch is
//! accepted exactly when the two points coincide. With weights the prover
//! cannot predict, a mismatched entry escapes detection only with
//! probability bounded by the field size.

use vstd::prelude::*;
use vstd::arithmetic::power2::pow2;
use vstd::arithmetic::div_mod::lemma_small_mod;
use vstd::bits::lemma_u64_shl_is_mul;
use crate::field::{Scalar, scalar_vals, scalar_add, scalar_mul, scalar_from_limbs, field_order};
use crate::point::{Point, point_reprs, msm_of, point_eq, weighted_sum_of_points};
use crate::bpoly::{spec_b_poly, b_poly_coefficients};
use crate::commit::commit_repr;
use crate::srs::ReferenceString;

verus! {

/// A sequence of values scaled by a weight, modulo the field order.
pub open spec fn scale_vals(w: nat, s: Seq<nat>) -> Seq<nat> {
    s.map_values(|x: nat| (w * x) % field_order())
}

/// The coefficient-wise sum of two vectors modulo the field order, the
/// shorter zero padded to the longer.
pub open spec fn add_pad_vals(a: Seq<nat>, b: Seq<nat>) -> Seq<nat> {
    Seq::new(
        if a.len() >= b.len() {
            a.len()
        } else {
            b.len()
        },
        |i: int|
            ((if i < a.len() {
                a[i]
            } else {
                0nat
            }) + (if i < b.len() {
                b[i]
            } else {
                0nat
            })) % field_order(),
    )
}

/// The weighted sum of the b-polynomial coefficient vectors of a batch of
/// challenge sequences: each vector scaled by its weight, all summed
/// coefficient-wise with zero padding.
pub open spec fn combine_b_polys(ws: Seq<nat>, css: Seq<Seq<nat>>) -> Seq<nat>
    recommends
        ws.len() == css.len(),
    decreases ws.len(),
{
    if ws.len() == 0 {
        Seq::empty()
    } else {
        add_pad_vals(
            combine_b_polys(ws.drop_last(), css.drop_last()),
            scale_vals(ws.last(), spec_b_poly(css.last())),
        )
    }
}

/// The values of a batch of challenge sequences.
pub open spec fn chalss_vals(s: Seq<Vec<Scalar>>) -> Seq<Seq<nat>> {
    s.map_values(|v: Vec<Scalar>| scalar_vals(v@))
}

/// The batched accumulator equation under given weights: every
/// b-polynomial fits the reference string, and the weighted sum of the
/// claimed points equals the commitment to the weighted sum of the
/// b-polynomial coefficient vectors.
pub open spec fn batch_check_spec(
    g: Seq<Point>,
    comms: Seq<Point>,
    css: Seq<Seq<nat>>,
    ws: Seq<nat>,
) -> bool {
    &&& forall|i: int| 0 <= i < css.len() ==> pow2((#[trigger] css[i]).len()) <= g.len()
    &&& msm_of(ws, point_reprs(comms)) == commit_repr(g, combine_b_polys(ws, css))
}

/// The batched accumulator check under caller-supplied weights: accepts
/// exactly when the batched equation holds. Sound only when the weights
/// were unpredictable to whoever fixed the commitments; fixed weights
/// make the outcome reproducible for testing.
pub fn batch_accumulator_check_with_weights(
    srs: &ReferenceString,
    comms: &Vec<Point>,
    chalss: &Vec<Vec<Scalar>>,
    weights: &Vec<Scalar>,
) -> (r: bool)
    requires
        comms@.len() == chalss@.len(),
        weights@.len() == comms@.len(),
    ensures
        r == batch_check_spec(srs.g@, comms@, chalss_vals(chalss@), scalar_vals(weights@)),
{
    let glen = srs.g.len();
    let ghost css = chalss_vals(chalss@);
    let ghost ws = scalar_vals(weights@);
    let mut t: usize = 0;
    while t < chalss.len()
        invariant
            t <= chalss@.len(),
            glen == srs.g@.len(),
            css == chalss_vals(chalss@),
            forall|s: int| 0 <= s < t ==> pow2((#[trigger] css[s]).len()) <= glen,
        decreases chalss@.len() - t,
    {
        let k = chalss[t].len();
        if k >= 64 {
            proof {
                vstd::arithmetic::power2::lemma2_to64();
                vstd::arithmetic::power2::lemma2_to64_rest();
                if k > 64 {
                    vstd::arithmetic::power2::lemma_pow2_strictly_increases(64, k as nat);
                }
                assert(pow2(css[t as int].len()) > glen);
            }
            return false;
        }
        let needed: u64 = 1u64 << (k as u64);
        proof {
            vstd::bits::lemma_u64_pow2_no_overflow(k as nat);
            lemma_u64_shl_is_mul(1u64, k as u64);
        }
        if (glen as u64) < needed {
            proof {
                assert(pow2(css[t as int].len()) > glen);
            }
            return false;
        }
        t = t + 1;
    }
    let mut combined: Vec<Scalar> = Vec::new();
    let mut i: usize = 0;
    while i < chalss.len()
        invariant
            i <= chalss@.len(),
            comms@.len() == chalss@.len(),
            weights@.len() == comms@.len(),
            glen == srs.g@.len(),
            css == chalss_vals(chalss@),
            ws == scalar_vals(weights@),
            forall|s: int| 0 <= s < chalss@.len() ==> pow2((#[trigger] css[s]).len()) <= glen,
            combined@.len() <= glen,
            scalar_vals(combined@) == combine_b_polys(ws.take(i as int), css.take(i as int)),
        decreases chalss@.len() - i,
    {
        proof {
            vstd::arithmetic::power2::lemma2_to64();
            vstd::arithmetic::power2::lemma2_to64_rest();
            let klen = css[i as int].len();
            if klen >= 64 {
                if klen > 64 {
                    vstd::arithmetic::power2::lemma_pow2_strictly_increases(64, klen);
                }
                assert(pow2(klen) <= glen);
                assert(false);
            }
        }
        let b = b_poly_coefficients(&chalss[i]);
        let w = weights[i];
        let ghost pre = combined@;
        let ghost bvals = scalar_vals(b@);
        let ghost svals = scale_vals(w@, bvals);
        let mut j: usize = 0;
        while j < b.len()
            invariant
                j <= b@.len(),
                bvals == scalar_vals(b@),
                svals == scale_vals(w@, bvals),
                combined@.len() == (if j <= pre.len() {
                    pre.len()
                } else {
                    j as nat
                }),
                forall|u: int|
                    0 <= u < j ==> (#[trigger] combined@[u])@ == ((if u < pre.len() {
                        pre[u]@
                    } else {
                        0nat
                    }) + svals[u]) % field_order(),
                forall|u: int|
                    j <= u < pre.len() ==> (#[trigger] combined@[u])@ == pre[u]@,
            decreases b@.len() - j,
        {
            let term = scalar_mul(&w, &b[j]);
            proof {
                assert(svals[j as int] == (w@ * b@[j as int]@) % field_order());
                lemma_small_mod(term@, field_order());
            }
            if j < combined.len() {
                let cur = combined[j];
                let updated = scalar_add(&cur, &term);
                combined[j] = updated;
            } else {
                combined.push(term);
            }
            j = j + 1;
        }
        proof {
            let stepped = add_pad_vals(scalar_vals(pre), svals);
            assert forall|u: int|
                0 <= u < combined@.len() implies scalar_vals(combined@)[u] == stepped[u] by {
                if u < pre.len() && u >= b@.len() {
                    assert(combined@[u]@ == pre[u]@);
                    assert(pre[u]@ < field_order());
                    lemma_small_mod(pre[u]@, field_order());
                }
            }
            assert(scalar_vals(combined@) =~= stepped);
            assert(ws.take(i + 1).drop_last() =~= ws.take(i as int));
            assert(css.take(i + 1).drop_last() =~= css.take(i as int));
            assert(ws.take(i + 1).last() == w@);
            assert(css.take(i + 1).last() == scalar_vals(chalss@[i as int]@));
            assert(bvals == spec_b_poly(css[i as int]));
            assert(scalar_vals(combined@) == combine_b_polys(ws.take(i + 1), css.take(i + 1)));
        }
        i = i + 1;
    }
    proof {
        assert(ws.take(ws.len() as int) =~= ws);
        assert(css.take(css.len() as int) =~= css);
    }
    let lhs = weighted_sum_of_points(weights, comms);
    match srs.commit_non_hiding(&combined, None) {
        Ok(c) => {
            let rhs = &c.unshifted[0];
            let r = point_eq(&lhs, rhs);
            proof {
                assert(lhs@ == msm_of(ws, point_reprs(comms@)));
                assert(rhs@ == commit_repr(srs.g@, combine_b_polys(ws, css)));
            }
            r
        },
        Err(_) => {
            proof {
                assert(false);
            }
            false
        },
    }
}

/// The batched accumulator check under freshly drawn random weights: the
/// batched equation under weights sampled now, one per entry.
pub fn batch_accumulator_check(
    srs: &ReferenceString,
    comms: &Vec<Point>,
    chalss: &Vec<Vec<Scalar>>,
) -> (r: bool)
    requires
        comms@.len() == chalss@.len(),
    ensures
        exists|ws: Seq<nat>|
            ws.len() == comms@.len() && r == batch_check_spec(
                srs.g@,
                comms@,
                chalss_vals(chalss@),
                ws,
            ),
{
    let mut weights: Vec<Scalar> = Vec::new();
    let mut i: usize = 0;
    while i < comms.len()
        invariant
            i <= comms@.len(),
            weights@.len() == i,
        decreases comms@.len() - i,
    {
        let limbs = [random_u64(), random_u64(), random_u64(), random_u64()];
        weights.push(scalar_from_limbs(limbs));
        i = i + 1;
    }
    let r = batch_accumulator_check_with_weights(srs, comms, chalss, &weights);
    proof {
        let ws = scalar_vals(weights@);
        assert(ws.len() == comms@.len() && r == batch_check_spec(
            srs.g@,
            comms@,
            chalss_vals(chalss@),
            ws,
        ));
    }
    r
}

/// Relies on `rand::random` for an unpredictable 64-bit value; nothing is
/// promised of the outcome.
#[verifier::external_body]
fn random_u64() -> u64 {
    rand::random::<u64>()
}

} // verus!
