//! The scalar field of BLS12-381.
//!
//! A [`FieldElement`] holds the canonical representative of a field value as four 64-bit
//! limbs, and its view is that representative as a natural number. The arithmetic itself
//! is done by the `pairing` crate; what it computes is stated here over natural numbers.

use pairing::bls12_381::{Fr, FrRepr};
use pairing::{Field, PrimeField};
use rand::{ChaChaRng, Rng};
use vstd::arithmetic::div_mod::lemma_fundamental_div_mod;
use vstd::prelude::*;

verus! {

/// The order of the field: every field value lies in `[0, modulus())`.
pub open spec fn modulus() -> nat {
    0x73eda753299d7d483339d80809a1d80553bda402fffe5bfeffffffff00000001nat
}

/// The sum of two values in the field.
pub open spec fn field_add(a: nat, b: nat) -> nat {
    (a + b) % modulus()
}

/// The product of two values in the field.
pub open spec fn field_mul(a: nat, b: nat) -> nat {
    (a * b) % modulus()
}

/// The additive inverse of a value in the field.
pub open spec fn field_neg(a: nat) -> nat {
    ((modulus() - a) % (modulus() as int)) as nat
}

/// The number that four 64-bit limbs encode, least significant limb first.
pub open spec fn limbs_value(l0: u64, l1: u64, l2: u64, l3: u64) -> nat {
    (l0 as nat) + (l1 as nat) * 0x1_0000_0000_0000_0000nat + (l2 as nat)
        * 0x1_0000_0000_0000_0000_0000_0000_0000_0000nat + (l3 as nat)
        * 0x1_0000_0000_0000_0000_0000_0000_0000_0000_0000_0000_0000_0000nat
}

/// The limbs of the field's order, least significant first.
pub const MODULUS_LIMBS: (u64, u64, u64, u64) = (
    0xffffffff00000001,
    0x53bda402fffe5bfe,
    0x3339d80809a1d805,
    0x73eda753299d7d48,
);

/// An element of the field, held as the limbs of its canonical representative.
#[derive(Clone, Copy, Debug, PartialEq, Eq, Structural)]
pub struct FieldElement {
    l0: u64,
    l1: u64,
    l2: u64,
    l3: u64,
}

impl View for FieldElement {
    type V = nat;

    closed spec fn view(&self) -> nat {
        limbs_value(self.l0, self.l1, self.l2, self.l3)
    }
}

impl FieldElement {
    /// What holds of every element: its value lies below the field's order.
    #[verifier::type_invariant]
    pub open spec fn canonical(self) -> bool {
        self@ < modulus()
    }

    /// The additive identity.
    pub fn zero() -> (r: FieldElement)
        ensures
            r@ == 0,
    {
        FieldElement { l0: 0, l1: 0, l2: 0, l3: 0 }
    }

    /// The multiplicative identity.
    pub fn one() -> (r: FieldElement)
        ensures
            r@ == 1,
    {
        FieldElement { l0: 1, l1: 0, l2: 0, l3: 0 }
    }

    /// The field element whose representative is `x`.
    pub fn from_u64(x: u64) -> (r: FieldElement)
        ensures
            r@ == x,
    {
        FieldElement { l0: x, l1: 0, l2: 0, l3: 0 }
    }

    /// The field element with the given limbs, if they encode a number below the
    /// field's order.
    pub fn from_limbs(limbs: [u64; 4]) -> (r: Option<FieldElement>)
        ensures
            r is Some <==> limbs_value(limbs[0], limbs[1], limbs[2], limbs[3]) < modulus(),
            r matches Some(e) ==> e@ == limbs_value(limbs[0], limbs[1], limbs[2], limbs[3]),
    {
        let l0 = limbs[0];
        let l1 = limbs[1];
        let l2 = limbs[2];
        let l3 = limbs[3];
        let below = if l3 != MODULUS_LIMBS.3 {
            l3 < MODULUS_LIMBS.3
        } else if l2 != MODULUS_LIMBS.2 {
            l2 < MODULUS_LIMBS.2
        } else if l1 != MODULUS_LIMBS.1 {
            l1 < MODULUS_LIMBS.1
        } else {
            l0 < MODULUS_LIMBS.0
        };
        proof {
            lemma_modulus_limbs();
        }
        if below {
            Some(FieldElement { l0, l1, l2, l3 })
        } else {
            None
        }
    }

    /// The limbs of the canonical representative, least significant first.
    pub fn limbs(&self) -> (r: [u64; 4])
        ensures
            limbs_value(r[0], r[1], r[2], r[3]) == self@,
    {
        [self.l0, self.l1, self.l2, self.l3]
    }

    /// Adds another element to this element.
    pub fn add_assign(&mut self, other: &FieldElement)
        ensures
            final(self)@ == field_add(old(self)@, other@),
    {
        proof {
            use_type_invariant(&*self);
            use_type_invariant(other);
        }
        *self = fr_add(*self, *other);
    }

    /// Multiplies this element by another element.
    pub fn mul_assign(&mut self, other: &FieldElement)
        ensures
            final(self)@ == field_mul(old(self)@, other@),
    {
        proof {
            use_type_invariant(&*self);
            use_type_invariant(other);
        }
        *self = fr_mul(*self, *other);
    }

    /// Squares this element.
    pub fn square(&mut self)
        ensures
            final(self)@ == field_mul(old(self)@, old(self)@),
    {
        proof {
            use_type_invariant(&*self);
        }
        *self = fr_square(*self);
    }

    /// Negates this element.
    pub fn negate(&mut self)
        ensures
            final(self)@ == field_neg(old(self)@),
    {
        proof {
            use_type_invariant(&*self);
        }
        *self = fr_negate(*self);
    }

    /// An element drawn from the generator: any element of the field.
    pub fn random(rng: &mut ChaChaRng) -> (r: FieldElement)
        ensures
            r@ < modulus(),
    {
        fr_random(rng)
    }

}

/// Adding the same value to two field values gives the same sum only if the two are the
/// same.
pub proof fn lemma_field_add_cancels(a: nat, b: nat, c: nat)
    requires
        a < modulus(),
        b < modulus(),
        field_add(a, c) == field_add(b, c),
    ensures
        a == b,
{
    let p = modulus() as int;
    let qa = (a + c) as int / p;
    let qb = (b + c) as int / p;
    lemma_fundamental_div_mod((a + c) as int, p);
    lemma_fundamental_div_mod((b + c) as int, p);
    assert(a - b == p * qa - p * qb);
    assert(qa == qb) by {
        if qa > qb {
            assert(p * qa - p * qb >= p) by (nonlinear_arith)
                requires
                    qa >= qb + 1,
                    p > 0,
            ;
        }
        if qa < qb {
            assert(p * qb - p * qa >= p) by (nonlinear_arith)
                requires
                    qb >= qa + 1,
                    p > 0,
            ;
        }
    }
}

/// The limbs of the field's order encode the field's order.
pub proof fn lemma_modulus_limbs()
    ensures
        limbs_value(MODULUS_LIMBS.0, MODULUS_LIMBS.1, MODULUS_LIMBS.2, MODULUS_LIMBS.3)
            == modulus(),
{
}

/// Two elements with the same value are the same element: the limbs of a number are
/// unique.
pub proof fn lemma_value_determines_element(a: FieldElement, b: FieldElement)
    ensures
        (a@ == b@) == (a == b),
{
    if a@ == b@ {
        let base = 0x1_0000_0000_0000_0000int;
        let d0 = a.l0 - b.l0;
        let d1 = a.l1 - b.l1;
        let d2 = a.l2 - b.l2;
        let d3 = a.l3 - b.l3;
        let k2 = d2 + base * d3;
        let k1 = d1 + base * k2;
        assert(d0 + base * k1 == 0);
        assert(k1 == 0);
        assert(k2 == 0);
        assert(d3 == 0);
    }
}

/// The generator of `rand` that the demo draws its round constants from.
#[verifier::external_type_specification]
#[verifier::external_body]
pub struct ExChaChaRng(ChaChaRng);

/// `rand::Rng::gen` for `Fr`: whatever the generator yields, the element drawn is a field
/// element, so its representative lies below the field's order.
#[verifier::external_body]
fn fr_random(rng: &mut ChaChaRng) -> (r: FieldElement)
    ensures
        r@ < modulus(),
{
    let x: Fr = rng.gen();
    let FrRepr(l) = x.into_repr();
    FieldElement { l0: l[0], l1: l[1], l2: l[2], l3: l[3] }
}

/// `pairing::Field::add_assign` on `Fr`: the representative of the sum is the sum of the
/// representatives, reduced by the field's order.
#[verifier::external_body]
fn fr_add(a: FieldElement, b: FieldElement) -> (r: FieldElement)
    requires
        a@ < modulus(),
        b@ < modulus(),
    ensures
        r@ == (a@ + b@) % modulus(),
{
    let mut x = Fr::from_repr(FrRepr([a.l0, a.l1, a.l2, a.l3])).unwrap();
    let y = Fr::from_repr(FrRepr([b.l0, b.l1, b.l2, b.l3])).unwrap();
    x.add_assign(&y);
    let FrRepr(l) = x.into_repr();
    FieldElement { l0: l[0], l1: l[1], l2: l[2], l3: l[3] }
}

/// `pairing::Field::mul_assign` on `Fr`: the representative of the product is the
/// product of the representatives, reduced by the field's order.
#[verifier::external_body]
fn fr_mul(a: FieldElement, b: FieldElement) -> (r: FieldElement)
    requires
        a@ < modulus(),
        b@ < modulus(),
    ensures
        r@ == (a@ * b@) % modulus(),
{
    let mut x = Fr::from_repr(FrRepr([a.l0, a.l1, a.l2, a.l3])).unwrap();
    let y = Fr::from_repr(FrRepr([b.l0, b.l1, b.l2, b.l3])).unwrap();
    x.mul_assign(&y);
    let FrRepr(l) = x.into_repr();
    FieldElement { l0: l[0], l1: l[1], l2: l[2], l3: l[3] }
}

/// `pairing::Field::square` on `Fr`: the representative of the square is the square of
/// the representative, reduced by the field's order.
#[verifier::external_body]
fn fr_square(a: FieldElement) -> (r: FieldElement)
    requires
        a@ < modulus(),
    ensures
        r@ == (a@ * a@) % modulus(),
{
    let mut x = Fr::from_repr(FrRepr([a.l0, a.l1, a.l2, a.l3])).unwrap();
    x.square();
    let FrRepr(l) = x.into_repr();
    FieldElement { l0: l[0], l1: l[1], l2: l[2], l3: l[3] }
}

/// `pairing::Field::negate` on `Fr`: zero stays zero, and the representative of any other
/// element becomes the field's order less that representative.
#[verifier::external_body]
fn fr_negate(a: FieldElement) -> (r: FieldElement)
    requires
        a@ < modulus(),
    ensures
        a@ == 0 ==> r@ == 0,
        a@ != 0 ==> r@ == modulus() - a@,
{
    let mut x = Fr::from_repr(FrRepr([a.l0, a.l1, a.l2, a.l3])).unwrap();
    x.negate();
    let FrRepr(l) = x.into_repr();
    FieldElement { l0: l[0], l1: l[1], l2: l[2], l3: l[3] }
}

} // verus!
