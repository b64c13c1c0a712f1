//! The MiMC permutation `LongsightF322p3`: a Feistel network over the scalar field whose
//! round function cubes the left half plus a round constant.

use crate::field::{
    field_add, field_mul, field_neg, lemma_value_determines_element, modulus, FieldElement,
};
use vstd::arithmetic::div_mod::{
    lemma_add_mod_noop, lemma_mod_multiples_vanish, lemma_mul_mod_noop_general, lemma_small_mod,
};
use vstd::prelude::*;

verus! {

/// The number of rounds of the permutation.
pub const MIMC_ROUNDS: usize = 322;

/// The values of a sequence of field elements.
pub open spec fn values(elements: Seq<FieldElement>) -> Seq<nat> {
    elements.map_values(|e: FieldElement| e@)
}

/// The left half that one round makes of the halves `xl` and `xr`:
/// `(xl + constant)^3 + xr` in the field.
pub open spec fn round_output(xl: nat, xr: nat, constant: nat) -> nat {
    ((xl + constant) * (xl + constant) * (xl + constant) + xr) % modulus()
}

/// The square that a round takes on its way to the cube: `(xl + constant)^2` in the field.
pub open spec fn round_square(xl: nat, constant: nat) -> nat {
    ((xl + constant) * (xl + constant)) % modulus()
}

/// The two halves after the first `rounds` rounds. Each round makes the left half the
/// new right half.
pub open spec fn state_after(xl: nat, xr: nat, constants: Seq<nat>, rounds: nat) -> (nat, nat)
    decreases rounds,
{
    if rounds == 0 {
        (xl, xr)
    } else {
        let before = state_after(xl, xr, constants, (rounds - 1) as nat);
        (round_output(before.0, before.1, constants[rounds - 1]), before.0)
    }
}

/// The image of `(xl, xr)`: the left half after one round for each constant.
pub open spec fn permutation(xl: nat, xr: nat, constants: Seq<nat>) -> nat {
    state_after(xl, xr, constants, constants.len()).0
}

/// Determinism: the image is a function of the preimage and the constants, so any two
/// elements that are the image of one preimage under the same constants are the same
/// element.
pub proof fn lemma_image_is_unique(
    first: FieldElement,
    second: FieldElement,
    xl: nat,
    xr: nat,
    constants: Seq<nat>,
)
    requires
        first@ == permutation(xl, xr, constants),
        second@ == permutation(xl, xr, constants),
    ensures
        first == second,
{
    lemma_value_determines_element(first, second);
}

/// Cubing in the field by a squaring and a multiplication, then adding, gives the round's
/// output, whichever way round the multiplication is done.
pub proof fn lemma_round_by_field_operations(xl: nat, xr: nat, constant: nat)
    ensures
        ({
            let t = field_add(xl, constant);
            let square = field_mul(t, t);
            &&& square == round_square(xl, constant)
            &&& field_add(field_mul(square, t), xr) == round_output(xl, xr, constant)
            &&& field_add(field_mul(t, square), xr) == round_output(xl, xr, constant)
        }),
{
    let p = modulus() as int;
    let s = (xl + constant) as int;
    let t = field_add(xl, constant) as int;
    let square = field_mul(t as nat, t as nat) as int;
    assert(square == (s * s) % p) by {
        lemma_mul_mod_noop_general(s, s, p);
    }
    assert((square * t) % p == (s * s * s) % p) by {
        lemma_mul_mod_noop_general(s * s, s, p);
    }
    assert(t * square == square * t) by (nonlinear_arith);
    let cube = (s * s * s) % p;
    assert((cube + xr) % p == (s * s * s + xr) % p) by {
        lemma_add_mod_noop(s * s * s, xr as int, p);
        lemma_add_mod_noop(cube, xr as int, p);
        lemma_small_mod(cube as nat, p as nat);
    }
}

/// The two products that a round is checked by. With `shifted` for `xl + constant`, each
/// taken as a sum of values times coefficients in the field:
/// `shifted * shifted = square` and `square * shifted = output - xr`.
pub proof fn lemma_round_products(xl: nat, xr: nat, constant: nat)
    ensures
        ({
            let shifted = field_add(field_mul(xl, 1), field_mul(1, constant));
            let square = round_square(xl, constant);
            let output = round_output(xl, xr, constant);
            &&& field_mul(shifted, shifted) == field_mul(square, 1)
            &&& field_mul(square, shifted) == field_add(
                field_mul(output, 1),
                field_mul(xr, field_neg(1)),
            )
        }),
{
    let p = modulus() as int;
    let s = (xl + constant) as int;
    let shifted = field_add(field_mul(xl, 1), field_mul(1, constant)) as int;
    let square = round_square(xl, constant) as int;
    let output = round_output(xl, xr, constant) as int;
    assert(shifted == s % p) by {
        lemma_add_mod_noop(xl as int, constant as int, p);
    }
    assert((shifted * shifted) % p == square) by {
        lemma_mul_mod_noop_general(s, s, p);
    }
    assert((square * 1) % p == square) by {
        lemma_small_mod(square as nat, p as nat);
    }
    assert((square * shifted) % p == (s * s * s) % p) by {
        lemma_mul_mod_noop_general(s * s, s, p);
    }
    let minus_xr = field_mul(xr, field_neg(1)) as int;
    assert(field_neg(1) == p - 1);
    assert(field_mul(output as nat, 1) == output) by {
        lemma_small_mod(output as nat, p as nat);
    }
    assert((output + minus_xr) % p == (s * s * s) % p) by {
        lemma_add_mod_noop(s * s * s + xr, xr * (p - 1), p);
        lemma_small_mod(output as nat, p as nat);
        assert(s * s * s + xr + xr * (p - 1) == p * xr + s * s * s) by (nonlinear_arith);
        lemma_mod_multiples_vanish(xr as int, s * s * s, p);
    }
}

/// The permutation over as many rounds as there are constants.
pub fn permute(xl: FieldElement, xr: FieldElement, constants: &[FieldElement]) -> (image:
    FieldElement)
    ensures
        image@ == permutation(xl@, xr@, values(constants@)),
{
    let ghost xl0 = xl@;
    let ghost xr0 = xr@;
    let mut xl = xl;
    let mut xr = xr;
    let mut i: usize = 0;
    while i < constants.len()
        invariant
            i <= constants@.len(),
            (xl@, xr@) == state_after(xl0, xr0, values(constants@), i as nat),
        decreases constants@.len() - i,
    {
        let mut tmp1 = xl;
        tmp1.add_assign(&constants[i]);
        let mut tmp2 = tmp1;
        tmp2.square();
        tmp2.mul_assign(&tmp1);
        tmp2.add_assign(&xr);
        proof {
            lemma_round_by_field_operations(xl@, xr@, constants@[i as int]@);
        }
        xr = xl;
        xl = tmp2;
        i = i + 1;
    }
    xl
}

/// `LongsightF322p3`: the permutation over its 322 rounds.
pub fn mimc(xl: FieldElement, xr: FieldElement, constants: &[FieldElement]) -> (image:
    FieldElement)
    requires
        constants@.len() == MIMC_ROUNDS,
    ensures
        image@ == permutation(xl@, xr@, values(constants@)),
{
    permute(xl, xr, constants)
}

} // verus!
