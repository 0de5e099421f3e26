//! The Lagrange basis service: commitments to Lagrange basis polynomials
//! over a radix-2 evaluation domain, and commitments to arbitrary
//! evaluation vectors, both by interpolating into coefficient form and
//! committing. Interpolation itself (an inverse FFT) is delegated to
//! `ark_poly`; its result is pinned by the name `interp_of`.

use vstd::prelude::*;
use vstd::arithmetic::power2::{pow2, lemma_pow2_strictly_increases, lemma2_to64};
use crate::field::{Scalar, scalar_vals, scalar_zero, scalar_one};
use crate::commit::{Commitment, UrsError, commit_repr};
use crate::srs::ReferenceString;

verus! {

/// Whether a radix-2 evaluation domain can cover `n` points: the Vesta
/// scalar field has two-adicity 32, so the next power of two above `n`
/// must be at most 2^32.
pub open spec fn domain_ok(n: nat) -> bool {
    1 <= n <= 0x100000000
}

/// Doubling from `p`, the first power reaching `n`.
pub open spec fn pow2_up(n: nat, p: nat) -> nat
    decreases (if p < n {
        (n - p) as nat
    } else {
        0nat
    }),
{
    if p == 0 {
        0
    } else if p >= n {
        p
    } else {
        pow2_up(n, 2 * p)
    }
}

/// The size of the evaluation domain used for `n` points: the least power
/// of two at least `n`.
pub open spec fn domain_size_for(n: nat) -> nat {
    pow2_up(n, 1)
}

/// The evaluation vector that is 1 at `index` and 0 elsewhere.
pub open spec fn indicator(size: nat, index: nat) -> Seq<nat> {
    Seq::new(size, |j: int| if j == index { 1nat } else { 0nat })
}

/// `count` zero values.
pub open spec fn zeros(count: nat) -> Seq<nat> {
    Seq::new(count, |j: int| 0nat)
}

/// An evaluation vector padded with zeros to the domain size.
pub open spec fn padded_vals(evals: Seq<nat>, size: nat) -> Seq<nat>
    recommends
        evals.len() <= size,
{
    evals + zeros((size - evals.len()) as nat)
}

/// The coefficients of the unique polynomial of degree below `evals.len()`
/// taking these values on the radix-2 domain of size `evals.len()`, with
/// trailing zero coefficients removed — what the inverse FFT of `ark_poly`
/// returns. A function of the evaluation values alone (the domain is
/// determined by their number).
pub uninterp spec fn interp_of(evals: Seq<nat>) -> Seq<nat>;

/// Doubling from `pow2(j)` towards `pow2(k)` ends exactly at `pow2(k)`.
proof fn lemma_pow2_up_exact(k: nat, j: nat)
    requires
        j <= k,
    ensures
        pow2_up(pow2(k), pow2(j)) == pow2(k),
    decreases k - j,
{
    vstd::arithmetic::power2::lemma_pow2_pos(j);
    if j < k {
        lemma_pow2_strictly_increases(j, k);
        assert(pow2(j + 1) == 2 * pow2(j)) by {
            vstd::arithmetic::power2::lemma_pow2_unfold(j + 1);
        }
        lemma_pow2_up_exact(k, j + 1);
    }
}

/// A power of two is its own domain size.
pub proof fn lemma_domain_size_for_pow2(k: nat)
    ensures
        domain_size_for(pow2(k)) == pow2(k),
{
    lemma2_to64();
    lemma_pow2_up_exact(k, 0);
}

/// The least power of two at least `n`, by doubling.
fn next_pow2_u64(n: u64) -> (r: u64)
    requires
        1 <= n <= 0x100000000,
    ensures
        r as nat == domain_size_for(n as nat),
        n <= r <= 0x100000000,
        exists|k: nat| k <= 32 && r as nat == pow2(k),
{
    proof {
        lemma2_to64();
    }
    let mut p: u64 = 1;
    let ghost mut j: nat = 0;
    while p < n
        invariant
            1 <= p <= 0x100000000,
            n <= 0x100000000,
            p as nat == pow2(j),
            j <= 32,
            pow2_up(n as nat, 1) == pow2_up(n as nat, p as nat),
        decreases 0x100000000 - p,
    {
        proof {
            lemma2_to64();
            if j >= 32 {
                if j > 32 {
                    lemma_pow2_strictly_increases(32, j);
                }
                assert(p >= n);
            }
            assert(pow2(j + 1) == 2 * pow2(j)) by {
                vstd::arithmetic::power2::lemma_pow2_unfold(j + 1);
            }
            if j + 1 > 32 {
                lemma_pow2_strictly_increases(32, j + 1);
            }
            j = j + 1;
        }
        p = p * 2;
    }
    proof {
        assert(pow2_up(n as nat, p as nat) == p as nat);
    }
    p
}

/// Relies on `ark_poly::Radix2EvaluationDomain::new` and
/// `ark_poly::Evaluations::from_vec_and_domain(..).interpolate()` on the
/// Vesta scalar field: the inverse FFT over the domain covering the
/// evaluation count, which first zero-pads the evaluations to the
/// domain's power-of-two size, a deterministic function of the values
/// alone; the returned polynomial drops trailing zero coefficients, so it
/// is no longer than the domain. Limb conversions as in the field module.
#[verifier::external_body]
fn interpolate(evals: &Vec<Scalar>) -> (r: Vec<Scalar>)
    requires
        1 <= evals@.len() <= 0x100000000,
    ensures
        scalar_vals(r@) == interp_of(
            padded_vals(scalar_vals(evals@), domain_size_for(evals@.len())),
        ),
        r@.len() <= domain_size_for(evals@.len()),
{
    let n = evals.len();
    let domain = <ark_poly::Radix2EvaluationDomain<ark_vesta::Fr> as
        ark_poly::EvaluationDomain<ark_vesta::Fr>>::new(n).unwrap();
    let fe: Vec<ark_vesta::Fr> = evals
        .iter()
        .map(|s| {
            let bytes: Vec<u8> = s.limbs.iter().flat_map(|x| x.to_le_bytes()).collect();
            <ark_vesta::Fr as ark_ff::PrimeField>::from_le_bytes_mod_order(&bytes)
        })
        .collect();
    let poly = ark_poly::Evaluations::from_vec_and_domain(fe, domain).interpolate();
    poly.coeffs
        .into_iter()
        .map(|c| Scalar { limbs: <ark_vesta::Fr as ark_ff::PrimeField>::into_bigint(c).0 })
        .collect()
}

/// The evaluation vector of length `size` that is 1 at `index` and 0
/// elsewhere.
fn indicator_vector(size: usize, index: usize) -> (r: Vec<Scalar>)
    requires
        index < size,
    ensures
        r@.len() == size,
        scalar_vals(r@) == indicator(size as nat, index as nat),
{
    let mut out: Vec<Scalar> = Vec::new();
    let mut i: usize = 0;
    while i < size
        invariant
            i <= size,
            out@.len() == i,
            forall|j: int|
                0 <= j < i ==> (#[trigger] out@[j])@ == (if j == index {
                    1nat
                } else {
                    0nat
                }),
        decreases size - i,
    {
        if i == index {
            out.push(scalar_one());
        } else {
            out.push(scalar_zero());
        }
        i = i + 1;
    }
    proof {
        assert(scalar_vals(out@) =~= indicator(size as nat, index as nat));
    }
    out
}

/// The commitment to the `index`-th Lagrange basis polynomial of the
/// evaluation domain covering `domain_size` points: the interpolation of
/// the indicator vector at `index`, committed under the reference string.
/// A Lagrange basis polynomial has the domain's full degree, so requiring
/// the bases to cover the domain is the same as requiring them to cover
/// the interpolated polynomial.
pub fn lagrange_commitment(srs: &ReferenceString, domain_size: usize, index: usize) -> (r: Result<
    Commitment,
    UrsError,
>)
    ensures
        (r is Ok) <==> (domain_ok(domain_size as nat) && index < domain_size && domain_size_for(
            domain_size as nat,
        ) <= srs.g@.len()),
        match r {
            Ok(c) => c.unshifted@.len() == 1 && c.unshifted@[0]@ == commit_repr(
                srs.g@,
                interp_of(indicator(domain_size_for(domain_size as nat), index as nat)),
            ) && c.shifted is None,
            Err(e) => match e {
                UrsError::UnsupportedDomain => !domain_ok(domain_size as nat),
                UrsError::IndexOutOfBounds => domain_ok(domain_size as nat) && index
                    >= domain_size,
                UrsError::InsufficientBasis => domain_ok(domain_size as nat) && index
                    < domain_size && domain_size_for(domain_size as nat) > srs.g@.len(),
                UrsError::WrongEvaluationCount => false,
            },
        },
{
    if domain_size == 0 || (domain_size as u64) > 0x100000000u64 {
        return Err(UrsError::UnsupportedDomain);
    }
    if index >= domain_size {
        return Err(UrsError::IndexOutOfBounds);
    }
    let dsz = next_pow2_u64(domain_size as u64);
    let glen = srs.g.len();
    if (glen as u64) < dsz {
        return Err(UrsError::InsufficientBasis);
    }
    let evals = indicator_vector(dsz as usize, index);
    let coeffs = interpolate(&evals);
    proof {
        let k = choose|k: nat| k <= 32 && dsz as nat == pow2(k);
        lemma_domain_size_for_pow2(k);
        assert(padded_vals(scalar_vals(evals@), dsz as nat) =~= scalar_vals(evals@));
    }
    match srs.commit_non_hiding(&coeffs, None) {
        Ok(c) => Ok(c),
        Err(_) => {
            proof {
                assert(false);
            }
            Err(UrsError::InsufficientBasis)
        },
    }
}

/// The commitment to the polynomial interpolating an arbitrary evaluation
/// vector, one entry per point of the requested domain, zero padded to the
/// domain's power-of-two size. The basis error comes from the interpolated
/// polynomial itself: an evaluation vector whose interpolant is short —
/// say, a constant one — commits even under few bases.
pub fn commit_evaluations(srs: &ReferenceString, domain_size: usize, evals: &Vec<Scalar>) -> (r:
    Result<Commitment, UrsError>)
    ensures
        (r is Ok) <==> (domain_ok(domain_size as nat) && evals@.len() == domain_size && interp_of(
            padded_vals(scalar_vals(evals@), domain_size_for(domain_size as nat)),
        ).len() <= srs.g@.len()),
        match r {
            Ok(c) => c.unshifted@.len() == 1 && c.unshifted@[0]@ == commit_repr(
                srs.g@,
                interp_of(
                    padded_vals(scalar_vals(evals@), domain_size_for(domain_size as nat)),
                ),
            ) && c.shifted is None,
            Err(e) => match e {
                UrsError::UnsupportedDomain => !domain_ok(domain_size as nat),
                UrsError::WrongEvaluationCount => domain_ok(domain_size as nat) && evals@.len()
                    != domain_size,
                UrsError::InsufficientBasis => domain_ok(domain_size as nat) && evals@.len()
                    == domain_size && interp_of(
                    padded_vals(scalar_vals(evals@), domain_size_for(domain_size as nat)),
                ).len() > srs.g@.len(),
                UrsError::IndexOutOfBounds => false,
            },
        },
{
    if domain_size == 0 || (domain_size as u64) > 0x100000000u64 {
        return Err(UrsError::UnsupportedDomain);
    }
    if evals.len() != domain_size {
        return Err(UrsError::WrongEvaluationCount);
    }
    let coeffs = interpolate(evals);
    let glen = srs.g.len();
    if coeffs.len() > glen {
        return Err(UrsError::InsufficientBasis);
    }
    match srs.commit_non_hiding(&coeffs, None) {
        Ok(c) => Ok(c),
        Err(_) => {
            proof {
                assert(false);
            }
            Err(UrsError::InsufficientBasis)
        },
    }
}

} // verus!
