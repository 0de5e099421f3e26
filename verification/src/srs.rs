//! The structured reference string: the ordered commitment bases `g` and
//! the auxiliary base `h`. Created deterministically from a depth alone,
//! restrictable to a prefix of its bases, and never mutated afterwards.

use vstd::prelude::*;
use crate::point::{Point, POINT_BYTES, point_repr_ok, point_of_seed, point_from_seed, point_reprs, msm, msm_of};
use crate::field::Scalar;

verus! {

/// A reference string: `depth` commitment bases and one auxiliary base.
pub struct ReferenceString {
    pub g: Vec<Point>,
    pub h: Point,
}

/// Every base carries a decodable 33-byte compressed point encoding.
pub open spec fn srs_wf(s: ReferenceString) -> bool {
    &&& forall|i: int|
        0 <= i < s.g@.len() ==> ((#[trigger] s.g@[i])@.len() == POINT_BYTES
            && point_repr_ok(s.g@[i]@))
    &&& s.h@.len() == POINT_BYTES
    &&& point_repr_ok(s.h@)
}

/// The encoding of the base point that tag `tag` derives, searching
/// counters from `c` up: the first counter whose seed the seed-to-point
/// map accepts, or — should all 256 attempts miss — the empty multiscalar
/// sum (the identity). A function of the tag alone.
pub open spec fn derived_repr(tag: nat, c: nat) -> Seq<u8>
    decreases 256 - c,
{
    if c >= 256 {
        msm_of(Seq::empty(), Seq::empty())
    } else {
        match point_of_seed(tag, c) {
            Some(b) => b,
            None => derived_repr(tag, c + 1),
        }
    }
}

/// A base point derived deterministically from `tag`: the first of 256
/// counter values whose seed the seed-to-point map accepts, as in
/// try-and-increment hashing to a curve. Each attempt succeeds for about
/// half of all seeds, so the empty multiscalar sum (the identity) stands
/// in only with probability about 2 to the minus 256.
fn derive_point(tag: u64) -> (r: Point)
    ensures
        r@ == derived_repr(tag as nat, 0),
        r@.len() == POINT_BYTES,
        point_repr_ok(r@),
{
    let mut ctr: u64 = 0;
    while ctr < 256
        invariant
            ctr <= 256,
            derived_repr(tag as nat, 0) == derived_repr(tag as nat, ctr as nat),
        decreases 256 - ctr,
    {
        match point_from_seed(tag, ctr) {
            Some(p) => {
                proof {
                    assert(derived_repr(tag as nat, ctr as nat) == p@);
                }
                return p;
            },
            None => {
                proof {
                    assert(derived_repr(tag as nat, ctr as nat) == derived_repr(
                        tag as nat,
                        (ctr + 1) as nat,
                    ));
                }
            },
        }
        ctr = ctr + 1;
    }
    let no_scalars: Vec<Scalar> = Vec::new();
    let no_points: Vec<Point> = Vec::new();
    let r = msm(&no_scalars, &no_points);
    proof {
        assert(crate::field::scalar_vals(no_scalars@) =~= Seq::<nat>::empty());
        assert(point_reprs(no_points@) =~= Seq::<Seq<u8>>::empty());
        assert(derived_repr(tag as nat, 256) == msm_of(Seq::empty(), Seq::empty()));
    }
    r
}

impl ReferenceString {
    /// Derives `depth` commitment bases and the auxiliary base from the
    /// depth alone, by a fixed public procedure: base `i` comes from seed
    /// tag `i + 1`, the auxiliary base from tag `0`. Two parties calling
    /// this with the same depth obtain identical reference strings.
    pub fn create(depth: usize) -> (r: ReferenceString)
        ensures
            r.g@.len() == depth,
            forall|i: int| 0 <= i < depth ==> (#[trigger] r.g@[i])@ == derived_repr((i + 1) as nat, 0),
            r.h@ == derived_repr(0, 0),
            srs_wf(r),
    {
        let mut g: Vec<Point> = Vec::new();
        let mut i: usize = 0;
        while i < depth
            invariant
                i <= depth,
                g@.len() == i,
                forall|j: int|
                    0 <= j < i ==> ((#[trigger] g@[j])@.len() == POINT_BYTES
                        && point_repr_ok(g@[j]@) && g@[j]@ == derived_repr((j + 1) as nat, 0)),
            decreases depth - i,
        {
            g.push(derive_point((i as u64) + 1));
            i = i + 1;
        }
        let h = derive_point(0);
        ReferenceString { g, h }
    }

    /// The auxiliary base.
    pub fn h(&self) -> (r: &Point)
        ensures
            r@ == self.h@,
    {
        &self.h
    }

    /// The reference string restricted to its first `new_length` bases,
    /// with the same auxiliary base. Asking for more bases than there are
    /// is a caller error.
    pub fn trim(&self, new_length: usize) -> (r: ReferenceString)
        requires
            new_length <= self.g@.len(),
        ensures
            r.g@.len() == new_length,
            point_reprs(r.g@) == point_reprs(self.g@.take(new_length as int)),
            r.h@ == self.h@,
            srs_wf(*self) ==> srs_wf(r),
    {
        let mut g: Vec<Point> = Vec::new();
        let mut i: usize = 0;
        while i < new_length
            invariant
                i <= new_length <= self.g@.len(),
                g@.len() == i,
                forall|j: int| 0 <= j < i ==> (#[trigger] g@[j])@ == self.g@[j]@,
            decreases new_length - i,
        {
            g.push(self.g[i].duplicate());
            i = i + 1;
        }
        let r = ReferenceString { g, h: self.h.duplicate() };
        proof {
            assert(point_reprs(r.g@) =~= point_reprs(self.g@.take(new_length as int)));
        }
        r
    }
}

} // verus!
