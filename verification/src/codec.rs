//! Persistence of the reference string as bytes: a little-endian 64-bit
//! count of the bases, the 33-byte encoding of each base in order, and the
//! encoding of the auxiliary base. Parsing starts at a caller-supplied
//! offset, so several reference strings can be packed into one byte
//! stream; a short or malformed stream parses to nothing rather than
//! failing. Reading and writing the bytes themselves is the caller's
//! affair.

use vstd::prelude::*;
use vstd::arithmetic::div_mod::{
    lemma_fundamental_div_mod,
    lemma_div_denominator,
    lemma_multiply_divide_lt,
    lemma_small_mod,
};
use crate::point::{Point, POINT_BYTES, point_repr_ok, point_decode_ok};
use crate::srs::{ReferenceString, srs_wf};

verus! {

/// The value of eight little-endian bytes.
pub open spec fn le8_val(b: Seq<u8>) -> nat
    recommends
        b.len() == 8,
{
    b[0] as nat + b[1] as nat * 0x100 + b[2] as nat * 0x10000 + b[3] as nat * 0x1000000
        + b[4] as nat * 0x100000000 + b[5] as nat * 0x10000000000 + b[6] as nat
        * 0x1000000000000 + b[7] as nat * 0x100000000000000
}

/// The eight little-endian bytes of a 64-bit value.
pub open spec fn u64_le_bytes(x: u64) -> Seq<u8> {
    seq![
        (x % 0x100) as u8,
        ((x / 0x100) % 0x100) as u8,
        ((x / 0x10000) % 0x100) as u8,
        ((x / 0x1000000) % 0x100) as u8,
        ((x / 0x100000000) % 0x100) as u8,
        ((x / 0x10000000000) % 0x100) as u8,
        ((x / 0x1000000000000) % 0x100) as u8,
        ((x / 0x100000000000000) % 0x100) as u8,
    ]
}

/// Eight little-endian bytes of a value read back as that value.
pub proof fn lemma_u64_le_round_trip(x: u64)
    ensures
        le8_val(u64_le_bytes(x)) == x,
{
    let xi = x as int;
    lemma_fundamental_div_mod(xi, 0x100);
    lemma_fundamental_div_mod(xi / 0x100, 0x100);
    lemma_fundamental_div_mod(xi / 0x10000, 0x100);
    lemma_fundamental_div_mod(xi / 0x1000000, 0x100);
    lemma_fundamental_div_mod(xi / 0x100000000, 0x100);
    lemma_fundamental_div_mod(xi / 0x10000000000, 0x100);
    lemma_fundamental_div_mod(xi / 0x1000000000000, 0x100);
    lemma_div_denominator(xi, 0x100, 0x100);
    assert(xi / 0x10000 == (xi / 0x100) / 0x100);
    lemma_div_denominator(xi, 0x10000, 0x100);
    lemma_div_denominator(xi, 0x1000000, 0x100);
    lemma_div_denominator(xi, 0x100000000, 0x100);
    lemma_div_denominator(xi, 0x10000000000, 0x100);
    lemma_div_denominator(xi, 0x1000000000000, 0x100);
    lemma_multiply_divide_lt(xi, 0x100000000000000, 0x100);
    lemma_small_mod((xi / 0x100000000000000) as nat, 0x100);
}

/// The concatenated encodings of a sequence of points.
pub open spec fn points_bytes(gs: Seq<Point>) -> Seq<u8>
    decreases gs.len(),
{
    if gs.len() == 0 {
        Seq::empty()
    } else {
        gs[0]@ + points_bytes(gs.drop_first())
    }
}

/// Appending one point appends its encoding.
pub proof fn lemma_points_bytes_push(gs: Seq<Point>, p: Point)
    ensures
        points_bytes(gs.push(p)) == points_bytes(gs) + p@,
    decreases gs.len(),
{
    if gs.len() == 0 {
        assert(gs.push(p).drop_first() =~= Seq::<Point>::empty());
        assert(gs.push(p)[0] == p);
        assert(points_bytes(Seq::<Point>::empty()) =~= Seq::<u8>::empty());
        assert(points_bytes(gs.push(p)) =~= points_bytes(gs) + p@);
    } else {
        lemma_points_bytes_push(gs.drop_first(), p);
        assert(gs.push(p).drop_first() =~= gs.drop_first().push(p));
        assert(points_bytes(gs.push(p)) =~= points_bytes(gs) + p@);
    }
}

/// With every encoding 33 bytes long, the concatenation has 33 bytes per
/// point, and the bytes of point `i` sit at offset `33 * i`.
pub proof fn lemma_points_bytes_parts(gs: Seq<Point>)
    requires
        forall|i: int| 0 <= i < gs.len() ==> (#[trigger] gs[i])@.len() == POINT_BYTES,
    ensures
        points_bytes(gs).len() == 33 * gs.len(),
        forall|i: int|
            0 <= i < gs.len() ==> points_bytes(gs).subrange(33 * i, 33 * i + 33) == (
            #[trigger] gs[i])@,
    decreases gs.len(),
{
    if gs.len() > 0 {
        lemma_points_bytes_parts(gs.drop_first());
        assert forall|i: int|
            0 <= i < gs.len() implies points_bytes(gs).subrange(33 * i, 33 * i + 33) == (
        #[trigger] gs[i])@ by {
            if i == 0 {
                assert(points_bytes(gs).subrange(0, 33) =~= gs[0]@);
            } else {
                assert(points_bytes(gs.drop_first()).subrange(33 * (i - 1), 33 * (i - 1) + 33)
                    == gs.drop_first()[i - 1]@);
                assert(points_bytes(gs).subrange(33 * i, 33 * i + 33) =~= points_bytes(
                    gs.drop_first(),
                ).subrange(33 * (i - 1), 33 * (i - 1) + 33));
            }
        }
    }
}

/// The byte form of a reference string: the count of bases, the bases,
/// the auxiliary base.
pub open spec fn srs_bytes_spec(s: ReferenceString) -> Seq<u8> {
    u64_le_bytes(s.g@.len() as u64) + points_bytes(s.g@) + s.h@
}

/// The base count a byte stream claims.
pub open spec fn parse_count(b: Seq<u8>) -> nat
    recommends
        b.len() >= 8,
{
    le8_val(b.take(8))
}

/// The bytes of the `i`-th encoded point of a byte stream.
pub open spec fn chunk(b: Seq<u8>, i: int) -> Seq<u8> {
    b.subrange(8 + 33 * i, 8 + 33 * i + 33)
}

/// Whether a byte stream begins with a well-formed reference string: a
/// count, that many base encodings and one more for the auxiliary base,
/// every one decodable.
pub open spec fn can_parse_srs(b: Seq<u8>) -> bool {
    &&& b.len() >= 8
    &&& 8 + (parse_count(b) + 1) * 33 <= b.len()
    &&& forall|i: int| 0 <= i <= parse_count(b) ==> point_repr_ok(#[trigger] chunk(b, i))
}

/// The value of the eight bytes of `bytes` starting at `off`.
fn read_u64_le(bytes: &Vec<u8>, off: usize) -> (r: u64)
    requires
        off + 8 <= bytes@.len(),
    ensures
        r as nat == le8_val(bytes@.subrange(off as int, off + 8)),
{
    let total = bytes.len();
    proof {
        assert(off + 8 <= total);
    }
    let b0 = bytes[off] as u64;
    let b1 = bytes[off + 1] as u64;
    let b2 = bytes[off + 2] as u64;
    let b3 = bytes[off + 3] as u64;
    let b4 = bytes[off + 4] as u64;
    let b5 = bytes[off + 5] as u64;
    let b6 = bytes[off + 6] as u64;
    let b7 = bytes[off + 7] as u64;
    let r = b0 + b1 * 0x100 + b2 * 0x10000 + b3 * 0x1000000 + b4 * 0x100000000 + b5
        * 0x10000000000 + b6 * 0x1000000000000 + b7 * 0x100000000000000;
    proof {
        let s = bytes@.subrange(off as int, off + 8);
        assert(s[0] == bytes@[off as int] && s[1] == bytes@[off + 1] && s[2] == bytes@[off + 2]
            && s[3] == bytes@[off + 3] && s[4] == bytes@[off + 4] && s[5] == bytes@[off + 5]
            && s[6] == bytes@[off + 6] && s[7] == bytes@[off + 7]);
    }
    r
}

/// Appends the eight little-endian bytes of `x`.
fn push_u64_le(out: &mut Vec<u8>, x: u64)
    ensures
        final(out)@ == old(out)@ + u64_le_bytes(x),
{
    out.push((x % 0x100) as u8);
    out.push(((x / 0x100) % 0x100) as u8);
    out.push(((x / 0x10000) % 0x100) as u8);
    out.push(((x / 0x1000000) % 0x100) as u8);
    out.push(((x / 0x100000000) % 0x100) as u8);
    out.push(((x / 0x10000000000) % 0x100) as u8);
    out.push(((x / 0x1000000000000) % 0x100) as u8);
    out.push(((x / 0x100000000000000) % 0x100) as u8);
    proof {
        assert(out@ =~= old(out)@ + u64_le_bytes(x));
    }
}

/// A copy of `count` bytes of `bytes` starting at `start`.
fn copy_range(bytes: &Vec<u8>, start: usize, count: usize) -> (r: Vec<u8>)
    requires
        start + count <= bytes@.len(),
    ensures
        r@ == bytes@.subrange(start as int, start + count),
{
    let total = bytes.len();
    let mut out: Vec<u8> = Vec::new();
    let mut i: usize = 0;
    while i < count
        invariant
            i <= count,
            start + count <= total,
            total == bytes@.len(),
            out@ == bytes@.subrange(start as int, start + i),
        decreases count - i,
    {
        out.push(bytes[start + i]);
        proof {
            assert(out@ =~= bytes@.subrange(start as int, start + i + 1));
        }
        i = i + 1;
    }
    out
}

impl ReferenceString {
    /// The byte form of this reference string: the count of bases, each
    /// base's encoding in order, and the auxiliary base's encoding.
    pub fn to_bytes(&self) -> (r: Vec<u8>)
        ensures
            r@ == srs_bytes_spec(*self),
    {
        let mut out: Vec<u8> = Vec::new();
        push_u64_le(&mut out, self.g.len() as u64);
        let mut i: usize = 0;
        while i < self.g.len()
            invariant
                i <= self.g@.len(),
                out@ == u64_le_bytes(self.g@.len() as u64) + points_bytes(self.g@.take(i as int)),
            decreases self.g@.len() - i,
        {
            let mut j: usize = 0;
            let ghost mid = out@;
            while j < self.g[i].bytes.len()
                invariant
                    i < self.g@.len(),
                    j <= self.g@[i as int]@.len(),
                    out@ == mid + self.g@[i as int]@.take(j as int),
                decreases self.g@[i as int]@.len() - j,
            {
                out.push(self.g[i].bytes[j]);
                proof {
                    assert(out@ =~= mid + self.g@[i as int]@.take(j + 1));
                }
                j = j + 1;
            }
            proof {
                assert(self.g@[i as int]@.take(self.g@[i as int]@.len() as int) =~= self.g@[
                    i as int
                ]@);
                assert(self.g@.take(i + 1) =~= self.g@.take(i as int).push(self.g@[i as int]));
                lemma_points_bytes_push(self.g@.take(i as int), self.g@[i as int]);
                assert(out@ =~= u64_le_bytes(self.g@.len() as u64) + points_bytes(
                    self.g@.take(i + 1),
                ));
            }
            i = i + 1;
        }
        let mut j: usize = 0;
        let ghost mid = out@;
        while j < self.h.bytes.len()
            invariant
                j <= self.h@.len(),
                out@ == mid + self.h@.take(j as int),
            decreases self.h@.len() - j,
        {
            out.push(self.h.bytes[j]);
            proof {
                assert(out@ =~= mid + self.h@.take(j + 1));
            }
            j = j + 1;
        }
        proof {
            assert(self.g@.take(self.g@.len() as int) =~= self.g@);
            assert(self.h@.take(self.h@.len() as int) =~= self.h@);
            assert(out@ =~= srs_bytes_spec(*self));
        }
        out
    }

    /// Parses a reference string from `bytes` starting at `offset`.
    /// Nothing — rather than an error — comes back when the stream from
    /// the offset on is too short, claims more bases than it carries, or
    /// holds bytes that do not decode as points; these are expected for
    /// callers probing files and offsets.
    pub fn from_bytes(bytes: &Vec<u8>, offset: usize) -> (r: Option<ReferenceString>)
        ensures
            (r is Some) <==> (offset <= bytes@.len() && can_parse_srs(
                bytes@.skip(offset as int),
            )),
            r matches Some(s) ==> {
                &&& srs_wf(s)
                &&& s.g@.len() == parse_count(bytes@.skip(offset as int))
                &&& forall|i: int|
                    0 <= i < s.g@.len() ==> (#[trigger] s.g@[i])@ == chunk(
                        bytes@.skip(offset as int),
                        i,
                    )
                &&& s.h@ == chunk(bytes@.skip(offset as int), s.g@.len() as int)
            },
    {
        let blen = bytes.len();
        if offset > blen {
            return None;
        }
        let ghost stream = bytes@.skip(offset as int);
        let rem = blen - offset;
        if rem < 8 {
            return None;
        }
        let n = read_u64_le(bytes, offset);
        proof {
            assert(stream.take(8) =~= bytes@.subrange(offset as int, offset + 8));
            assert(parse_count(stream) == n);
        }
        let avail = (rem - 8) / 33;
        proof {
            lemma_fundamental_div_mod((rem - 8) as int, 33);
        }
        if avail == 0 || n > (avail as u64) - 1 {
            proof {
                assert(rem - 8 == 33 * avail + (rem - 8) % 33);
                assert((n + 1) * 33 > rem - 8);
            }
            return None;
        }
        let count = n as usize;
        proof {
            assert((count + 1) * 33 <= avail * 33);
            assert(offset + 8 + (count + 1) * 33 <= blen);
        }
        let mut g: Vec<Point> = Vec::new();
        let mut i: usize = 0;
        while i < count
            invariant
                i <= count,
                count == n,
                offset + 8 + (count + 1) * 33 <= blen,
                blen == bytes@.len(),
                offset <= blen,
                stream == bytes@.skip(offset as int),
                parse_count(stream) == n,
                g@.len() == i,
                forall|t: int|
                    0 <= t < i ==> ((#[trigger] g@[t])@ == chunk(stream, t) && g@[t]@.len()
                        == POINT_BYTES && point_repr_ok(g@[t]@)),
            decreases count - i,
        {
            let p = copy_range(bytes, offset + 8 + 33 * i, 33);
            proof {
                assert(bytes@.subrange(
                    offset + 8 + 33 * (i as int),
                    offset + 8 + 33 * (i as int) + 33,
                ) =~= chunk(stream, i as int));
            }
            if !point_decode_ok(&p) {
                proof {
                    assert(!point_repr_ok(chunk(stream, i as int)));
                }
                return None;
            }
            g.push(Point { bytes: p });
            i = i + 1;
        }
        let hb = copy_range(bytes, offset + 8 + 33 * count, 33);
        proof {
            assert(bytes@.subrange(
                offset + 8 + 33 * (count as int),
                offset + 8 + 33 * (count as int) + 33,
            ) =~= chunk(stream, count as int));
        }
        if !point_decode_ok(&hb) {
            proof {
                assert(!point_repr_ok(chunk(stream, count as int)));
            }
            return None;
        }
        let s = ReferenceString { g, h: Point { bytes: hb } };
        proof {
            assert forall|t: int| 0 <= t <= parse_count(stream) implies point_repr_ok(
                #[trigger] chunk(stream, t),
            ) by {
                if t < count {
                    assert(g@[t]@ == chunk(stream, t));
                } else {
                    assert(hb@ == chunk(stream, count as int));
                }
            }
            assert(can_parse_srs(stream));
        }
        Some(s)
    }
}

/// Writing a well-formed reference string and parsing the bytes back at
/// offset zero recovers it: the same count of bases, every base with the
/// same encoding, and the same auxiliary base — so the copy commits
/// exactly as the original does.
pub proof fn lemma_srs_round_trip(s: ReferenceString)
    ensures
        (srs_wf(s) && s.g@.len() <= 0xffffffffffffffff) ==> {
            &&& can_parse_srs(srs_bytes_spec(s))
            &&& parse_count(srs_bytes_spec(s)) == s.g@.len()
            &&& forall|i: int|
                0 <= i < s.g@.len() ==> chunk(srs_bytes_spec(s), i) == (#[trigger] s.g@[i])@
            &&& chunk(srs_bytes_spec(s), s.g@.len() as int) == s.h@
        },
{
    if srs_wf(s) && s.g@.len() <= 0xffffffffffffffff {
        let b = srs_bytes_spec(s);
        let glen = s.g@.len();
        let prefix = u64_le_bytes(glen as u64);
        let middle = points_bytes(s.g@);
        lemma_points_bytes_parts(s.g@);
        assert(middle.len() == 33 * glen);
        assert(b.len() == 8 + 33 * glen + 33);
        assert(b.take(8) =~= prefix);
        lemma_u64_le_round_trip(glen as u64);
        assert(le8_val(prefix) == glen as u64 as nat);
        assert(parse_count(b) == glen);
        assert forall|i: int| 0 <= i < glen implies chunk(b, i) == (#[trigger] s.g@[i])@ by {
            assert(middle.subrange(33 * i, 33 * i + 33) == s.g@[i]@);
            assert(chunk(b, i) =~= middle.subrange(33 * i, 33 * i + 33));
        }
        assert(chunk(b, glen as int) =~= s.h@);
        assert forall|i: int| 0 <= i <= parse_count(b) implies point_repr_ok(
            #[trigger] chunk(b, i),
        ) by {
            if i < glen {
                assert(chunk(b, i) == s.g@[i]@);
            } else {
                assert(chunk(b, i) == s.h@);
            }
        }
        assert(8 + (parse_count(b) + 1) * 33 <= b.len());
        assert(can_parse_srs(b));
    }
}

} // verus!
