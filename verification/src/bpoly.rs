//! The b-polynomial engine: a sequence of folding challenges
//! `c[0], ..., c[k-1]` expands into the coefficient vector of
//! `prod_{i} (1 + c[k-1-i] * X^(2^i))`, built by doubling — each step
//! appends the current vector scaled by the next challenge, taken from the
//! last challenge towards the first.

use vstd::prelude::*;
use vstd::arithmetic::power2::{pow2, lemma_pow2_strictly_increases, lemma2_to64, lemma2_to64_rest};
use vstd::arithmetic::div_mod::lemma_small_mod;
use vstd::bits::lemma_u64_shl_is_mul;
use crate::field::{Scalar, scalar_vals, scalar_one, scalar_mul, field_order};
use crate::commit::{Commitment, UrsError, commit_repr};
use crate::srs::ReferenceString;

verus! {

/// The coefficients of the b-polynomial of a challenge sequence: for the
/// empty sequence the single coefficient 1; otherwise the coefficients for
/// the remaining challenges, followed by the same coefficients scaled by
/// the first challenge (the first challenge gates the highest bit of the
/// coefficient index).
pub open spec fn spec_b_poly(chals: Seq<nat>) -> Seq<nat>
    decreases chals.len(),
{
    if chals.len() == 0 {
        seq![1nat]
    } else {
        let sub = spec_b_poly(chals.drop_first());
        sub + sub.map_values(|x: nat| (x * chals.first()) % field_order())
    }
}

/// One doubling step of the expansion, elementwise: the first half of the
/// coefficients for `chals` are those for the remaining challenges, the
/// second half are the same scaled by the first challenge.
pub proof fn lemma_b_poly_unfold(chals: Seq<nat>)
    requires
        chals.len() > 0,
    ensures
        spec_b_poly(chals).len() == 2 * spec_b_poly(chals.drop_first()).len(),
        forall|t: int|
            0 <= t < spec_b_poly(chals.drop_first()).len() ==> #[trigger] spec_b_poly(chals)[t]
                == spec_b_poly(chals.drop_first())[t],
        forall|t: int|
            0 <= t < spec_b_poly(chals.drop_first()).len() ==> spec_b_poly(chals)[spec_b_poly(
                chals.drop_first(),
            ).len() + t] == (spec_b_poly(chals.drop_first())[t] * chals.first()) % field_order(),
{
    let sub = spec_b_poly(chals.drop_first());
    assert(spec_b_poly(chals) == sub + sub.map_values(
        |x: nat| (x * chals.first()) % field_order(),
    ));
}

/// A challenge sequence of length `k` expands to exactly `2^k`
/// coefficients; the empty sequence expands to the single coefficient 1.
pub proof fn lemma_b_poly_length(chals: Seq<nat>)
    ensures
        spec_b_poly(chals).len() == pow2(chals.len()),
        chals.len() == 0 ==> spec_b_poly(chals) == seq![1nat],
    decreases chals.len(),
{
    if chals.len() == 0 {
        assert(pow2(0) == 1) by {
            lemma2_to64();
        }
    } else {
        lemma_b_poly_length(chals.drop_first());
        assert(pow2(chals.len()) == 2 * pow2((chals.len() - 1) as nat)) by {
            vstd::arithmetic::power2::lemma_pow2_unfold(chals.len());
        }
    }
}

/// For a single challenge `c` the b-polynomial coefficients are `[1, c]`.
pub proof fn lemma_b_poly_single(c: nat)
    requires
        c < field_order(),
    ensures
        spec_b_poly(seq![c]) == seq![1nat, c],
{
    let s = seq![c];
    assert(s.drop_first() =~= Seq::<nat>::empty());
    assert(spec_b_poly(s.drop_first()) == seq![1nat]);
    lemma_b_poly_unfold(s);
    lemma_small_mod(c, field_order());
    assert(spec_b_poly(s)[1] == (1nat * c) % field_order());
    assert((1nat * c) % field_order() == c);
    assert(spec_b_poly(s) =~= seq![1nat, c]);
}

/// For two challenges `c0, c1` the coefficients are
/// `[1, c1, c0, c0 * c1]`: the second (last) challenge gates the low bit
/// of the index, the first challenge the high bit.
pub proof fn lemma_b_poly_pair(c0: nat, c1: nat)
    requires
        c0 < field_order(),
        c1 < field_order(),
    ensures
        spec_b_poly(seq![c0, c1]) == seq![1nat, c1, c0, (c0 * c1) % field_order()],
{
    let s = seq![c0, c1];
    assert(s.drop_first() =~= seq![c1]);
    lemma_b_poly_single(c1);
    lemma_b_poly_unfold(s);
    lemma_small_mod(c0, field_order());
    lemma_small_mod(c1, field_order());
    assert(spec_b_poly(s)[2] == (1nat * c0) % field_order());
    assert((1nat * c0) % field_order() == c0);
    assert(spec_b_poly(s)[3] == (c1 * c0) % field_order());
    assert((c1 * c0) % field_order() == (c0 * c1) % field_order()) by {
        vstd::arithmetic::mul::lemma_mul_is_commutative(c0 as int, c1 as int);
    }
    assert(spec_b_poly(s) =~= seq![1nat, c1, c0, (c0 * c1) % field_order()]);
}

/// The b-polynomial coefficient vector of a challenge sequence, built by
/// doubling from the last challenge to the first.
pub fn b_poly_coefficients(chals: &Vec<Scalar>) -> (r: Vec<Scalar>)
    requires
        chals@.len() < 64,
    ensures
        scalar_vals(r@) == spec_b_poly(scalar_vals(chals@)),
        r@.len() == pow2(chals@.len()),
{
    let k = chals.len();
    let mut s: Vec<Scalar> = Vec::new();
    s.push(scalar_one());
    proof {
        assert(scalar_vals(s@) =~= seq![1nat]);
        assert(scalar_vals(chals@).skip(k as int) =~= Seq::<nat>::empty());
    }
    let mut i: usize = k;
    while i > 0
        invariant
            i <= k,
            k == chals@.len(),
            scalar_vals(s@) == spec_b_poly(scalar_vals(chals@).skip(i as int)),
        decreases i,
    {
        i = i - 1;
        let c = chals[i];
        let ghost pre = s@;
        let cur_len = s.len();
        let mut j: usize = 0;
        while j < cur_len
            invariant
                j <= cur_len,
                cur_len == pre.len(),
                s@.len() == pre.len() + j,
                s@.take(cur_len as int) == pre,
                c == chals@[i as int],
                i < chals@.len(),
                forall|t: int|
                    0 <= t < j ==> (#[trigger] s@[cur_len + t])@ == (pre[t]@ * c@)
                        % field_order(),
            decreases cur_len - j,
        {
            let term = scalar_mul(&s[j], &c);
            proof {
                assert(s@[j as int] == pre[j as int]);
                assert(s@.push(term).take(cur_len as int) =~= pre);
            }
            s.push(term);
            j = j + 1;
        }
        proof {
            let tail = scalar_vals(chals@).skip(i as int);
            assert(tail.drop_first() =~= scalar_vals(chals@).skip(i + 1));
            let sub = spec_b_poly(tail.drop_first());
            assert(tail.first() == chals@[i as int]@);
            assert(scalar_vals(pre) == sub);
            lemma_b_poly_unfold(tail);
            assert(scalar_vals(s@).len() == spec_b_poly(tail).len());
            assert forall|t: int| 0 <= t < s@.len() implies scalar_vals(s@)[t] == spec_b_poly(
                tail,
            )[t] by {
                if t < cur_len {
                    assert(s@[t] == pre[t]);
                    assert(scalar_vals(pre)[t] == pre[t]@);
                } else {
                    assert(s@[cur_len + (t - cur_len)]@ == (pre[t - cur_len]@ * c@)
                        % field_order());
                    assert(sub[t - cur_len] == pre[t - cur_len]@);
                }
            }
            assert(scalar_vals(s@) =~= spec_b_poly(tail));
        }
    }
    proof {
        assert(scalar_vals(chals@).skip(0) =~= scalar_vals(chals@));
        lemma_b_poly_length(scalar_vals(chals@));
    }
    s
}

/// The commitment to the b-polynomial of a challenge sequence, committed
/// under the reference string trimmed to exactly `2^k` bases. Rejected
/// when the reference string holds fewer bases than that.
pub fn b_poly_commitment(srs: &ReferenceString, chals: &Vec<Scalar>) -> (r: Result<
    Commitment,
    UrsError,
>)
    ensures
        (r is Ok) <==> pow2(chals@.len()) <= srs.g@.len(),
        r matches Err(e) ==> e == UrsError::InsufficientBasis,
        r matches Ok(c) ==> (c.unshifted@.len() == 1 && c.unshifted@[0]@ == commit_repr(
            srs.g@,
            spec_b_poly(scalar_vals(chals@)),
        ) && c.shifted is None),
{
    let k = chals.len();
    let glen = srs.g.len();
    if k >= 64 {
        proof {
            lemma2_to64();
            lemma2_to64_rest();
            if k > 64 {
                lemma_pow2_strictly_increases(64, k as nat);
            }
            assert(glen as nat <= usize::MAX as nat);
        }
        return Err(UrsError::InsufficientBasis);
    }
    let needed: u64 = 1u64 << (k as u64);
    proof {
        vstd::bits::lemma_u64_pow2_no_overflow(k as nat);
        lemma_u64_shl_is_mul(1u64, k as u64);
    }
    if (glen as u64) < needed {
        return Err(UrsError::InsufficientBasis);
    }
    let trimmed = srs.trim(needed as usize);
    let coeffs = b_poly_coefficients(chals);
    match trimmed.commit_non_hiding(&coeffs, None) {
        Ok(c) => {
            proof {
                assert(coeffs@.len() == needed as nat);
                assert(trimmed.g@.take(coeffs@.len() as int) =~= trimmed.g@);
                assert(srs.g@.take(needed as int) =~= srs.g@.take(coeffs@.len() as int));
            }
            Ok(c)
        },
        Err(_) => {
            proof {
                assert(false);
            }
            Err(UrsError::InsufficientBasis)
        },
    }
}

} // verus!
