//! Scalar field elements: values of the scalar field of the Vesta curve
//! (equally, the base field of Pallas), carried as four little-endian
//! 64-bit limbs. A scalar's mathematical value is the limb integer reduced
//! modulo the field order; all constructors return canonical (reduced)
//! limbs, so the limbs of two equal scalars coincide.

use vstd::prelude::*;
use vstd::arithmetic::div_mod::lemma_small_mod;

verus! {

/// The order of the scalar field of Vesta.
pub open spec fn field_order() -> nat {
    0x40000000000000000000000000000000224698fc094cf91b992d30ed00000001nat
}

/// The integer a little-endian sequence of four 64-bit limbs stands for.
pub open spec fn limbs4_val(l: Seq<u64>) -> nat
    recommends
        l.len() == 4,
{
    l[0] as nat + l[1] as nat * 0x10000000000000000nat
        + l[2] as nat * 0x100000000000000000000000000000000nat
        + l[3] as nat * 0x1000000000000000000000000000000000000000000000000nat
}

/// A scalar field element. Any limb values are meaningful (the view reduces
/// them), but every constructor in this crate returns canonical limbs.
#[derive(Clone, Copy)]
pub struct Scalar {
    pub limbs: [u64; 4],
}

impl View for Scalar {
    type V = nat;

    open spec fn view(&self) -> nat {
        limbs4_val(self.limbs@) % field_order()
    }
}

/// The views of a sequence of scalars.
pub open spec fn scalar_vals(s: Seq<Scalar>) -> Seq<nat> {
    s.map_values(|x: Scalar| x@)
}

/// The zero element.
pub fn scalar_zero() -> (r: Scalar)
    ensures
        r@ == 0,
        limbs4_val(r.limbs@) < field_order(),
{
    let r = Scalar { limbs: [0, 0, 0, 0] };
    proof {
        assert(limbs4_val(r.limbs@) == 0);
        lemma_small_mod(0, field_order());
    }
    r
}

/// The unit element.
pub fn scalar_one() -> (r: Scalar)
    ensures
        r@ == 1,
        limbs4_val(r.limbs@) < field_order(),
{
    let r = Scalar { limbs: [1, 0, 0, 0] };
    proof {
        assert(limbs4_val(r.limbs@) == 1);
        lemma_small_mod(1, field_order());
    }
    r
}

/// The scalar with a small integer value.
pub fn scalar_from_u64(x: u64) -> (r: Scalar)
    ensures
        r@ == x as nat,
        limbs4_val(r.limbs@) < field_order(),
{
    let r = Scalar { limbs: [x, 0, 0, 0] };
    proof {
        assert(limbs4_val(r.limbs@) == x as nat);
        lemma_small_mod(x as nat, field_order());
    }
    r
}

/// The scalar whose value is the given limb integer reduced modulo the
/// field order.
pub fn scalar_from_limbs(l: [u64; 4]) -> (r: Scalar)
    ensures
        r@ == limbs4_val(l@) % field_order(),
        limbs4_val(r.limbs@) < field_order(),
{
    scalar_reduce(l)
}

/// Relies on `ark_ff::PrimeField::from_le_bytes_mod_order` on the Vesta
/// scalar field, which reads a little-endian byte integer and reduces it
/// modulo the field order, and on `into_bigint`, which returns the
/// canonical (reduced) limbs of a field element.
#[verifier::external_body]
fn scalar_reduce(l: [u64; 4]) -> (r: Scalar)
    ensures
        r@ == limbs4_val(l@) % field_order(),
        limbs4_val(r.limbs@) < field_order(),
{
    let bytes: Vec<u8> = l.iter().flat_map(|x| x.to_le_bytes()).collect();
    let f = <ark_vesta::Fr as ark_ff::PrimeField>::from_le_bytes_mod_order(&bytes);
    Scalar { limbs: <ark_vesta::Fr as ark_ff::PrimeField>::into_bigint(f).0 }
}

/// Relies on field addition of `ark_ff` on the Vesta scalar field (the sum
/// modulo the field order), with `from_le_bytes_mod_order` and
/// `into_bigint` converting the limbs at either end.
#[verifier::external_body]
pub(crate) fn scalar_add(a: &Scalar, b: &Scalar) -> (r: Scalar)
    ensures
        r@ == (a@ + b@) % field_order(),
        limbs4_val(r.limbs@) < field_order(),
{
    let ab: Vec<u8> = a.limbs.iter().flat_map(|x| x.to_le_bytes()).collect();
    let bb: Vec<u8> = b.limbs.iter().flat_map(|x| x.to_le_bytes()).collect();
    let s = <ark_vesta::Fr as ark_ff::PrimeField>::from_le_bytes_mod_order(&ab)
        + <ark_vesta::Fr as ark_ff::PrimeField>::from_le_bytes_mod_order(&bb);
    Scalar { limbs: <ark_vesta::Fr as ark_ff::PrimeField>::into_bigint(s).0 }
}

/// Relies on field multiplication of `ark_ff` on the Vesta scalar field
/// (the product modulo the field order), with `from_le_bytes_mod_order` and
/// `into_bigint` converting the limbs at either end.
#[verifier::external_body]
pub(crate) fn scalar_mul(a: &Scalar, b: &Scalar) -> (r: Scalar)
    ensures
        r@ == (a@ * b@) % field_order(),
        limbs4_val(r.limbs@) < field_order(),
{
    let ab: Vec<u8> = a.limbs.iter().flat_map(|x| x.to_le_bytes()).collect();
    let bb: Vec<u8> = b.limbs.iter().flat_map(|x| x.to_le_bytes()).collect();
    let s = <ark_vesta::Fr as ark_ff::PrimeField>::from_le_bytes_mod_order(&ab)
        * <ark_vesta::Fr as ark_ff::PrimeField>::from_le_bytes_mod_order(&bb);
    Scalar { limbs: <ark_vesta::Fr as ark_ff::PrimeField>::into_bigint(s).0 }
}

} // verus!
