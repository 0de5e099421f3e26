//! The committer: a polynomial given by its coefficient vector becomes a
//! commitment by multiscalar multiplication against the leading bases of
//! the reference string; an optional degree bound adds a shifted term
//! computed against the tail of the bases.

use vstd::prelude::*;
use crate::field::{Scalar, scalar_vals};
use crate::point::{Point, msm, msm_of, point_reprs};
use crate::srs::ReferenceString;

verus! {

/// Why an operation could not produce a commitment.
#[derive(Clone, Copy, Debug, PartialEq, Eq, Structural)]
pub enum UrsError {
    /// No evaluation domain of the requested size exists.
    UnsupportedDomain,
    /// The requested position lies outside the evaluation domain.
    IndexOutOfBounds,
    /// The evaluation vector does not have one entry per domain point.
    WrongEvaluationCount,
    /// More coefficients than the reference string has bases for.
    InsufficientBasis,
}

/// A commitment: the unshifted points (one here, since polynomials longer
/// than the basis are rejected rather than chunked) and, under a degree
/// bound, the shifted point.
pub struct Commitment {
    pub unshifted: Vec<Point>,
    pub shifted: Option<Point>,
}

/// The encoding of the commitment to `coeffs` under bases `g`: the
/// multiscalar multiplication of the coefficients against the leading
/// `coeffs.len()` bases.
pub open spec fn commit_repr(g: Seq<Point>, coeffs: Seq<nat>) -> Seq<u8> {
    msm_of(coeffs, point_reprs(g.take(coeffs.len() as int)))
}

/// The encoding of the shifted term under degree bound `m`: the
/// coefficients right-aligned against the tail of the bases, so that a
/// coefficient of degree `m - 1` meets the last base.
pub open spec fn shifted_repr(g: Seq<Point>, coeffs: Seq<nat>, m: nat) -> Seq<u8> {
    msm_of(
        coeffs,
        point_reprs(g.subrange(g.len() - m, g.len() - m + coeffs.len())),
    )
}

/// Committing a coefficient vector of length at most `m` is the same under
/// the full reference string and under any trim to `m` or more bases: both
/// are the multiscalar multiplication against the same leading bases.
pub proof fn lemma_trim_commit_consistent(g: Seq<Point>, coeffs: Seq<nat>, m: int)
    requires
        coeffs.len() <= m <= g.len(),
    ensures
        commit_repr(g.take(m), coeffs) == commit_repr(g, coeffs),
{
    assert(g.take(m).take(coeffs.len() as int) =~= g.take(coeffs.len() as int));
}

/// A copy of `count` points of `v` starting at `start`.
pub(crate) fn copy_points(v: &Vec<Point>, start: usize, count: usize) -> (r: Vec<Point>)
    requires
        start + count <= v@.len(),
    ensures
        r@.len() == count,
        forall|j: int| 0 <= j < count ==> (#[trigger] r@[j])@ == v@[start + j]@,
{
    let total = v.len();
    let mut out: Vec<Point> = Vec::new();
    let mut i: usize = 0;
    while i < count
        invariant
            i <= count,
            start + count <= total,
            total == v@.len(),
            out@.len() == i,
            forall|j: int| 0 <= j < i ==> (#[trigger] out@[j])@ == v@[start + j]@,
        decreases count - i,
    {
        out.push(v[start + i].duplicate());
        i = i + 1;
    }
    out
}

impl ReferenceString {
    /// The non-hiding commitment to a polynomial given by its coefficients,
    /// deterministic in its inputs. Rejected with `InsufficientBasis` when
    /// there are more coefficients than bases, or than a given degree
    /// bound allows. Under a degree bound smaller than the basis length
    /// the commitment also carries the shifted term; under a larger bound
    /// the shifted term is absent.
    pub fn commit_non_hiding(&self, coeffs: &Vec<Scalar>, degree_bound: Option<usize>) -> (r:
        Result<Commitment, UrsError>)
        ensures
            (r is Ok) <==> (coeffs@.len() <= self.g@.len() && (match degree_bound {
                Some(m) => coeffs@.len() <= m,
                None => true,
            })),
            r matches Err(e) ==> e == UrsError::InsufficientBasis,
            r matches Ok(c) ==> (c.unshifted@.len() == 1 && c.unshifted@[0]@ == commit_repr(
                self.g@,
                scalar_vals(coeffs@),
            )),
            r matches Ok(c) ==> (match degree_bound {
                Some(m) => if m < self.g@.len() {
                    c.shifted matches Some(p) && p@ == shifted_repr(
                        self.g@,
                        scalar_vals(coeffs@),
                        m as nat,
                    )
                } else {
                    c.shifted is None
                },
                None => c.shifted is None,
            }),
    {
        let n = self.g.len();
        let len = coeffs.len();
        if len > n {
            return Err(UrsError::InsufficientBasis);
        }
        if let Some(m) = degree_bound {
            if len > m {
                return Err(UrsError::InsufficientBasis);
            }
        }
        let leading = copy_points(&self.g, 0, len);
        proof {
            assert(point_reprs(leading@) =~= point_reprs(self.g@.take(len as int)));
        }
        let unshifted_point = msm(coeffs, &leading);
        let shifted = match degree_bound {
            None => None,
            Some(m) => {
                if m < n {
                    let tail = copy_points(&self.g, n - m, len);
                    proof {
                        assert(point_reprs(tail@) =~= point_reprs(
                            self.g@.subrange(
                                self.g@.len() - m,
                                self.g@.len() - m + coeffs@.len(),
                            ),
                        ));
                    }
                    Some(msm(coeffs, &tail))
                } else {
                    None
                }
            },
        };
        let mut unshifted: Vec<Point> = Vec::new();
        unshifted.push(unshifted_point);
        Ok(Commitment { unshifted, shifted })
    }
}

} // verus!
