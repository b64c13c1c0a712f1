//! The circuit that proves knowledge of a preimage of the MiMC permutation.
//!
//! Each round of the permutation becomes two constraints: one that squares the left half
//! plus the round constant, and one that multiplies the square by it again and adds the
//! right half. The left half after the last round is the circuit's only public input.

use crate::field::{field_mul, field_neg, lemma_field_add_cancels, modulus, FieldElement};
use crate::permutation::{
    lemma_round_by_field_operations, lemma_round_products, permutation, round_output,
    round_square, state_after, values, MIMC_ROUNDS,
};
use crate::system::{
    value_of, ConstraintModel, ConstraintSystem, LinearCombination, SynthesisError, SystemModel,
    Terms, Variable,
};
use vstd::arithmetic::div_mod::lemma_small_mod;
use vstd::prelude::*;

verus! {

/// The variable that carries the left half after `after` rounds, in a circuit of `rounds`
/// rounds synthesized into `base`. The left half after no round is the first half of the
/// preimage; `after == -1` stands for the second half, which the first round has for its
/// right half.
pub open spec fn left_variable(base: SystemModel, rounds: nat, after: int) -> Variable {
    if after < 0 {
        Variable::Aux((base.aux.len() + 1) as usize)
    } else if after == 0 {
        Variable::Aux(base.aux.len() as usize)
    } else if after == rounds {
        Variable::Input(base.inputs.len() as usize)
    } else {
        Variable::Aux((base.aux.len() + 2 * after + 1) as usize)
    }
}

/// The variable that carries the square taken in round `round`.
pub open spec fn square_variable(base: SystemModel, round: nat) -> Variable {
    Variable::Aux((base.aux.len() + 2 * round + 2) as usize)
}

/// The value of the left half after `after` rounds, where the witness gives one. As in
/// [`left_variable`], `after == -1` stands for the second half of the preimage.
pub open spec fn left_value(xl: Option<nat>, xr: Option<nat>, constants: Seq<nat>, after: int)
    -> Option<nat> {
    if after < 0 {
        xr
    } else if after == 0 {
        xl
    } else if xl is Some && xr is Some {
        Some(state_after(xl.unwrap(), xr.unwrap(), constants, after as nat).0)
    } else {
        None
    }
}

/// The value of the square taken in round `round`, where the witness gives one.
pub open spec fn square_value(xl: Option<nat>, xr: Option<nat>, constants: Seq<nat>, round: nat)
    -> Option<nat> {
    if xl is Some && xr is Some {
        Some(
            round_square(
                state_after(xl.unwrap(), xr.unwrap(), constants, round).0,
                constants[round as int],
            ),
        )
    } else {
        None
    }
}

/// The value of the `k`-th auxiliary variable that the circuit allocates: the two halves
/// of the preimage, then for each round its square and, but for the last round, its new
/// left half.
pub open spec fn aux_entry(xl: Option<nat>, xr: Option<nat>, constants: Seq<nat>, k: int)
    -> Option<nat> {
    if k == 0 {
        xl
    } else if k == 1 {
        xr
    } else if k % 2 == 0 {
        square_value(xl, xr, constants, ((k - 2) / 2) as nat)
    } else {
        left_value(xl, xr, constants, (k - 1) / 2)
    }
}

/// The linear combination `left + constant` of round `round`: the left half that the round
/// starts from, plus the round constant times one.
pub open spec fn shifted_left(base: SystemModel, rounds: nat, constants: Seq<nat>, round: nat)
    -> Terms {
    Terms::empty().push((left_variable(base, rounds, round as int), 1nat)).push(
        (Variable::Input(0), constants[round as int]),
    )
}

/// The first constraint of round `round`: `(left + constant) * (left + constant) = square`.
pub open spec fn square_constraint(
    base: SystemModel,
    rounds: nat,
    constants: Seq<nat>,
    round: nat,
) -> ConstraintModel {
    ConstraintModel {
        a: shifted_left(base, rounds, constants, round),
        b: shifted_left(base, rounds, constants, round),
        c: Terms::empty().push((square_variable(base, round), 1nat)),
    }
}

/// The second constraint of round `round`:
/// `square * (left + constant) = new_left - right`.
pub open spec fn cube_constraint(
    base: SystemModel,
    rounds: nat,
    constants: Seq<nat>,
    round: nat,
) -> ConstraintModel {
    ConstraintModel {
        a: Terms::empty().push((square_variable(base, round), 1nat)),
        b: shifted_left(base, rounds, constants, round),
        c: Terms::empty().push((left_variable(base, rounds, round as int + 1), 1nat)).push(
            (left_variable(base, rounds, round as int - 1), field_neg(1)),
        ),
    }
}

/// The `k`-th constraint that the circuit enforces: two for each round.
pub open spec fn constraint_entry(base: SystemModel, rounds: nat, constants: Seq<nat>, k: int)
    -> ConstraintModel {
    if k % 2 == 0 {
        square_constraint(base, rounds, constants, (k / 2) as nat)
    } else {
        cube_constraint(base, rounds, constants, (k / 2) as nat)
    }
}

/// The system once the preimage is allocated and the first `done` rounds are emitted,
/// where `base` is the system before and the witness is not refused.
pub open spec fn after_rounds(
    base: SystemModel,
    xl: Option<nat>,
    xr: Option<nat>,
    constants: Seq<nat>,
    done: nat,
) -> SystemModel {
    let complete = done > 0 && done == constants.len();
    SystemModel {
        strict: base.strict,
        inputs: if complete {
            base.inputs.push(left_value(xl, xr, constants, done as int))
        } else {
            base.inputs
        },
        aux: base.aux + Seq::new(
            if complete {
                2 * done + 1
            } else {
                2 * done + 2
            },
            |k: int| aux_entry(xl, xr, constants, k),
        ),
        constraints: base.constraints + Seq::new(
            2 * done,
            |k: int| constraint_entry(base, constants.len(), constants, k),
        ),
    }
}

/// The system that the circuit makes of `base`, where the witness is not refused.
pub open spec fn synthesized(
    base: SystemModel,
    xl: Option<nat>,
    xr: Option<nat>,
    constants: Seq<nat>,
) -> SystemModel {
    after_rounds(base, xl, xr, constants, constants.len())
}

/// Whether the system refuses the witness: a strict system needs both halves of the
/// preimage.
pub open spec fn refused(base: SystemModel, xl: Option<nat>, xr: Option<nat>) -> bool {
    base.strict && (xl is None || xr is None)
}

/// The system that a refused synthesis leaves behind: the first half of the preimage is
/// allocated if it was there.
pub open spec fn abandoned(base: SystemModel, xl: Option<nat>) -> SystemModel {
    if xl is None {
        base
    } else {
        base.with_aux(xl)
    }
}

/// Allocating the two halves of the preimage gives the system before the first round.
proof fn lemma_preimage_allocated(
    base: SystemModel,
    xl: Option<nat>,
    xr: Option<nat>,
    constants: Seq<nat>,
)
    ensures
        base.with_aux(xl).with_aux(xr) == after_rounds(base, xl, xr, constants, 0),
{
    let allocated = base.with_aux(xl).with_aux(xr);
    let start = after_rounds(base, xl, xr, constants, 0);
    assert(allocated.aux =~= start.aux);
    assert(allocated.constraints =~= start.constraints);
}

/// Emitting one more round gives the system after that round: the square and its
/// constraint, then the new left half, public in the last round, and its constraint.
proof fn lemma_round_emitted(
    base: SystemModel,
    xl: Option<nat>,
    xr: Option<nat>,
    constants: Seq<nat>,
    done: nat,
)
    requires
        done < constants.len(),
    ensures
        ({
            let rounds = constants.len();
            let before = after_rounds(base, xl, xr, constants, done);
            let squared = before.with_aux(square_value(xl, xr, constants, done)).with_constraint(
                square_constraint(base, rounds, constants, done),
            );
            let output = left_value(xl, xr, constants, done as int + 1);
            let allocated = if done + 1 == rounds {
                squared.with_input(output)
            } else {
                squared.with_aux(output)
            };
            allocated.with_constraint(cube_constraint(base, rounds, constants, done))
                == after_rounds(base, xl, xr, constants, done + 1)
        }),
{
    let rounds = constants.len();
    let before = after_rounds(base, xl, xr, constants, done);
    let squared = before.with_aux(square_value(xl, xr, constants, done)).with_constraint(
        square_constraint(base, rounds, constants, done),
    );
    let output = left_value(xl, xr, constants, done as int + 1);
    let allocated = if done + 1 == rounds {
        squared.with_input(output)
    } else {
        squared.with_aux(output)
    };
    let emitted = allocated.with_constraint(cube_constraint(base, rounds, constants, done));
    let after = after_rounds(base, xl, xr, constants, done + 1);
    assert(emitted.inputs =~= after.inputs);
    assert(emitted.aux =~= after.aux);
    assert(emitted.constraints =~= after.constraints);
}

/// Synthesizes the circuit over as many rounds as there are constants.
///
/// A strict system refuses a witness that lacks a half of the preimage, at the
/// allocation of the first half that is missing. Any other synthesis completes, with or
/// without a witness.
pub fn synthesize_rounds(
    xl: Option<FieldElement>,
    xr: Option<FieldElement>,
    constants: &[FieldElement],
    cs: &mut ConstraintSystem,
) -> (r: Result<(), SynthesisError>)
    requires
        old(cs)@.wf(),
        xl is Some && xr is None ==> old(cs)@.strict,
    ensures
        final(cs)@.wf(),
        r is Err <==> refused(old(cs)@, value_of(xl), value_of(xr)),
        r is Ok ==> final(cs)@ == synthesized(
            old(cs)@,
            value_of(xl),
            value_of(xr),
            values(constants@),
        ),
        r is Err ==> r == Err::<(), SynthesisError>(SynthesisError::AssignmentMissing)
            && final(cs)@ == abandoned(old(cs)@, value_of(xl)),
        r is Ok && xl is Some && old(cs)@.satisfied() ==> final(cs)@.satisfied(),
{
    let ghost base = cs@;
    let ghost wl = value_of(xl);
    let ghost wr = value_of(xr);
    let ghost cv = values(constants@);
    let rounds = constants.len();

    // Allocate the first component of the preimage.
    let mut xl_value = xl;
    let mut xl_var = match cs.allocate(xl_value) {
        Ok(v) => v,
        Err(e) => {
            return Err(e);
        },
    };

    // Allocate the second component of the preimage.
    let mut xr_value = xr;
    let mut xr_var = match cs.allocate(xr_value) {
        Ok(v) => v,
        Err(e) => {
            return Err(e);
        },
    };
    proof {
        lemma_preimage_allocated(base, wl, wr, cv);
    }

    let mut i: usize = 0;
    while i < rounds
        invariant
            i <= rounds,
            rounds == constants@.len(),
            cv == values(constants@),
            base.wf(),
            cs@.wf(),
            cs@ == after_rounds(base, wl, wr, cv, i as nat),
            wl is Some ==> wr is Some,
            base.strict ==> wl is Some,
            xl_var == left_variable(base, rounds as nat, i as int),
            xr_var == left_variable(base, rounds as nat, i - 1),
            value_of(xl_value) == left_value(wl, wr, cv, i as int),
            value_of(xr_value) == left_value(wl, wr, cv, i - 1),
        decreases rounds - i,
    {
        let constant = constants[i];

        // tmp = (xL + Ci)^2
        let tmp_value = match xl_value {
            Some(e) => {
                let mut e = e;
                e.add_assign(&constant);
                e.square();
                Some(e)
            },
            None => None,
        };
        proof {
            if wl is Some {
                lemma_round_by_field_operations(
                    left_value(wl, wr, cv, i as int).unwrap(),
                    left_value(wl, wr, cv, i - 1).unwrap(),
                    cv[i as int],
                );
            }
            assert(value_of(tmp_value) == square_value(wl, wr, cv, i as nat));
        }
        let tmp = match cs.allocate(tmp_value) {
            Ok(v) => v,
            Err(e) => {
                return Err(e);
            },
        };
        assert(tmp == square_variable(base, i as nat));

        cs.enforce(
            LinearCombination::zero().add_variable(xl_var).add_term(
                constant,
                ConstraintSystem::one(),
            ),
            LinearCombination::zero().add_variable(xl_var).add_term(
                constant,
                ConstraintSystem::one(),
            ),
            LinearCombination::zero().add_variable(tmp),
        );

        // new_xL = xR + (xL + Ci)^3
        // new_xL = xR + tmp * (xL + Ci)
        // new_xL - xR = tmp * (xL + Ci)
        let new_xl_value = match (xl_value, tmp_value, xr_value) {
            (Some(e), Some(square), Some(right)) => {
                let mut e = e;
                e.add_assign(&constant);
                e.mul_assign(&square);
                e.add_assign(&right);
                Some(e)
            },
            _ => None,
        };
        assert(value_of(new_xl_value) == left_value(wl, wr, cv, i + 1));

        let new_xl = if i == rounds - 1 {
            // This is the last round, xL is our image and so
            // we allocate a public input.
            match cs.allocate_public_input(new_xl_value) {
                Ok(v) => v,
                Err(e) => {
                    return Err(e);
                },
            }
        } else {
            match cs.allocate(new_xl_value) {
                Ok(v) => v,
                Err(e) => {
                    return Err(e);
                },
            }
        };
        assert(new_xl == left_variable(base, rounds as nat, i + 1));

        cs.enforce(
            LinearCombination::zero().add_variable(tmp),
            LinearCombination::zero().add_variable(xl_var).add_term(
                constant,
                ConstraintSystem::one(),
            ),
            LinearCombination::zero().add_variable(new_xl).sub_variable(xr_var),
        );
        proof {
            lemma_round_emitted(base, wl, wr, cv, i as nat);
        }

        // xR = xL
        xr_var = xl_var;
        xr_value = xl_value;

        // xL = new_xL
        xl_var = new_xl;
        xl_value = new_xl_value;

        i = i + 1;
    }
    proof {
        if wl is Some && base.satisfied() {
            lemma_synthesis_keeps_satisfied(base, wl.unwrap(), wr.unwrap(), cv);
        }
    }
    Ok(())
}

/// The demo circuit: knowledge of a preimage `(xl, xr)` of the permutation's image under
/// the given round constants. Without a witness both halves are `None`.
pub struct MiMCDemo<'a> {
    pub xl: Option<FieldElement>,
    pub xr: Option<FieldElement>,
    pub constants: &'a [FieldElement],
}

impl<'a> MiMCDemo<'a> {
    /// Synthesizes the circuit of `LongsightF322p3` into the constraint system.
    ///
    /// A strict system refuses a witness that lacks a half of the preimage, at the
    /// allocation of the first half that is missing. Any other synthesis completes, with
    /// or without a witness.
    pub fn synthesize(self, cs: &mut ConstraintSystem) -> (r: Result<(), SynthesisError>)
        requires
            self.constants@.len() == MIMC_ROUNDS,
            old(cs)@.wf(),
            self.xl is Some && self.xr is None ==> old(cs)@.strict,
        ensures
            final(cs)@.wf(),
            r is Err <==> refused(old(cs)@, value_of(self.xl), value_of(self.xr)),
            r is Ok ==> final(cs)@ == synthesized(
                old(cs)@,
                value_of(self.xl),
                value_of(self.xr),
                values(self.constants@),
            ),
            r is Err ==> r == Err::<(), SynthesisError>(SynthesisError::AssignmentMissing)
                && final(cs)@ == abandoned(old(cs)@, value_of(self.xl)),
            r is Ok && self.xl is Some && old(cs)@.satisfied() ==> final(cs)@.satisfied(),
    {
        synthesize_rounds(self.xl, self.xr, self.constants, cs)
    }
}

/// A system that is not strict refuses no witness: a synthesis into it completes, with
/// the witness, with a part of it that [`MiMCDemo::synthesize`] admits, or without.
pub proof fn lemma_never_refused_unless_strict(
    base: SystemModel,
    xl: Option<nat>,
    xr: Option<nat>,
)
    requires
        !base.strict,
    ensures
        !refused(base, xl, xr),
{
}

/// A synthesis of at least one round adds two constraints for each round, one public
/// input, and an auxiliary variable for each half of the preimage, for each square and
/// for each new left half but the last: `2 * rounds + 2` variables in all. What the
/// system held before stays as it was.
pub proof fn lemma_synthesis_counts(
    base: SystemModel,
    xl: Option<nat>,
    xr: Option<nat>,
    constants: Seq<nat>,
)
    requires
        constants.len() > 0,
    ensures
        ({
            let system = synthesized(base, xl, xr, constants);
            let rounds = constants.len();
            &&& system.strict == base.strict
            &&& system.constraints.len() == base.constraints.len() + 2 * rounds
            &&& system.aux.len() == base.aux.len() + 2 * rounds + 1
            &&& system.inputs.len() == base.inputs.len() + 1
            &&& system.constraints.take(base.constraints.len() as int) == base.constraints
            &&& system.aux.take(base.aux.len() as int) == base.aux
            &&& system.inputs.take(base.inputs.len() as int) == base.inputs
        }),
{
    let system = synthesized(base, xl, xr, constants);
    assert(system.constraints.take(base.constraints.len() as int) =~= base.constraints);
    assert(system.aux.take(base.aux.len() as int) =~= base.aux);
    assert(system.inputs.take(base.inputs.len() as int) =~= base.inputs);
}

/// The one public input of a synthesis with a witness is the image of the preimage under
/// the permutation, carried by the variable that the last round allocates.
pub proof fn lemma_image_is_public(base: SystemModel, xl: nat, xr: nat, constants: Seq<nat>)
    requires
        constants.len() > 0,
    ensures
        synthesized(base, Some(xl), Some(xr), constants).inputs == base.inputs.push(
            Some(permutation(xl, xr, constants)),
        ),
        left_variable(base, constants.len(), constants.len() as int) == Variable::Input(
            base.inputs.len() as usize,
        ),
{
}

/// In a synthesis with a witness each variable of the circuit holds the value that the
/// permutation has at its place: the halves of the preimage, each round's square and
/// each round's new left half.
proof fn lemma_wire_values(base: SystemModel, xl: nat, xr: nat, constants: Seq<nat>, round: nat)
    requires
        base.wf(),
        base.aux.len() + 2 * constants.len() + 1 <= usize::MAX,
        base.inputs.len() < usize::MAX,
        round < constants.len(),
    ensures
        ({
            let system = synthesized(base, Some(xl), Some(xr), constants);
            let rounds = constants.len();
            let state = state_after(xl, xr, constants, round);
            &&& system.value(Variable::Input(0)) == Some(1nat)
            &&& system.value(left_variable(base, rounds, round as int)) == Some(state.0)
            &&& system.value(left_variable(base, rounds, round as int - 1)) == Some(state.1)
            &&& system.value(left_variable(base, rounds, round as int + 1)) == Some(
                round_output(state.0, state.1, constants[round as int]),
            )
            &&& system.value(square_variable(base, round)) == Some(
                round_square(state.0, constants[round as int]),
            )
        }),
{
    let system = synthesized(base, Some(xl), Some(xr), constants);
    let rounds = constants.len();
    let n = base.aux.len() as int;
    let state = state_after(xl, xr, constants, round);
    assert(system.inputs[0] == base.inputs[0]);
    assert forall|k: int| 0 <= k < 2 * rounds + 1 implies system.aux[n + k] == aux_entry(
        Some(xl),
        Some(xr),
        constants,
        k,
    ) by {}
    assert(system.inputs[base.inputs.len() as int] == left_value(
        Some(xl),
        Some(xr),
        constants,
        rounds as int,
    ));
    // The left half that the round starts from.
    if round == 0 {
        assert(system.aux[n + 0] == Some(xl));
    } else {
        assert(system.aux[n + (2 * round + 1)] == left_value(
            Some(xl),
            Some(xr),
            constants,
            round as int,
        ));
    }
    // Its right half: the left half of the round before.
    if round == 0 {
        assert(system.aux[n + 1] == Some(xr));
    } else if round == 1 {
        assert(system.aux[n + 0] == Some(xl));
        assert(state_after(xl, xr, constants, 0).0 == xl);
    } else {
        assert(system.aux[n + (2 * (round - 1) + 1)] == left_value(
            Some(xl),
            Some(xr),
            constants,
            round - 1,
        ));
    }
    // Its new left half.
    if round + 1 < rounds {
        assert(system.aux[n + (2 * (round + 1) + 1)] == left_value(
            Some(xl),
            Some(xr),
            constants,
            round as int + 1,
        ));
    }
    assert(state_after(xl, xr, constants, (round + 1) as nat).0 == round_output(
        state.0,
        state.1,
        constants[round as int],
    ));
    // Its square.
    assert(system.aux[n + (2 * round + 2)] == square_value(Some(xl), Some(xr), constants, round));
}

/// A system whose variables hold a round's halves, square and new left half meets both
/// constraints of the round.
proof fn lemma_round_meets_constraints(
    system: SystemModel,
    left: Variable,
    right: Variable,
    square: Variable,
    new_left: Variable,
    xl: nat,
    xr: nat,
    constant: nat,
)
    requires
        system.value(Variable::Input(0)) == Some(1nat),
        system.value(left) == Some(xl),
        system.value(right) == Some(xr),
        system.value(square) == Some(round_square(xl, constant)),
        system.value(new_left) == Some(round_output(xl, xr, constant)),
    ensures
        ({
            let shifted = Terms::empty().push((left, 1nat)).push((Variable::Input(0), constant));
            let squared = Terms::empty().push((square, 1nat));
            let difference = Terms::empty().push((new_left, 1nat)).push((right, field_neg(1)));
            &&& system.holds(ConstraintModel { a: shifted, b: shifted, c: squared })
            &&& system.holds(ConstraintModel { a: squared, b: shifted, c: difference })
        }),
{
    lemma_round_products(xl, xr, constant);
    system.lemma_evaluate_two(left, 1, Variable::Input(0), constant);
    system.lemma_evaluate_one(square, 1);
    system.lemma_evaluate_two(new_left, 1, right, field_neg(1));
}

/// In a synthesis with a witness the values of the variables meet both constraints of
/// each round.
proof fn lemma_round_holds(base: SystemModel, xl: nat, xr: nat, constants: Seq<nat>, round: nat)
    requires
        base.wf(),
        base.aux.len() + 2 * constants.len() + 1 <= usize::MAX,
        base.inputs.len() < usize::MAX,
        round < constants.len(),
    ensures
        ({
            let system = synthesized(base, Some(xl), Some(xr), constants);
            let rounds = constants.len();
            &&& system.holds(square_constraint(base, rounds, constants, round))
            &&& system.holds(cube_constraint(base, rounds, constants, round))
        }),
{
    let system = synthesized(base, Some(xl), Some(xr), constants);
    let rounds = constants.len();
    let state = state_after(xl, xr, constants, round);
    lemma_wire_values(base, xl, xr, constants, round);
    lemma_round_meets_constraints(
        system,
        left_variable(base, rounds, round as int),
        left_variable(base, rounds, round as int - 1),
        square_variable(base, round),
        left_variable(base, rounds, round as int + 1),
        state.0,
        state.1,
        constants[round as int],
    );
}

/// Satisfaction: in a synthesis with a witness every variable that the circuit allocates
/// has a value, these are the values that the permutation goes through, and they meet
/// every constraint that the circuit enforces.
pub proof fn lemma_synthesis_satisfied(base: SystemModel, xl: nat, xr: nat, constants: Seq<nat>)
    requires
        base.wf(),
        base.aux.len() + 2 * constants.len() + 1 <= usize::MAX,
        constants.len() > 0 ==> base.inputs.len() < usize::MAX,
    ensures
        ({
            let system = synthesized(base, Some(xl), Some(xr), constants);
            &&& forall|i: int|
                base.inputs.len() <= i < system.inputs.len() ==> (
                #[trigger] system.inputs[i]) is Some
            &&& forall|i: int|
                base.aux.len() <= i < system.aux.len() ==> (#[trigger] system.aux[i]) is Some
            &&& forall|k: int|
                base.constraints.len() <= k < system.constraints.len() ==> system.holds(
                    #[trigger] system.constraints[k],
                )
        }),
{
    let system = synthesized(base, Some(xl), Some(xr), constants);
    let rounds = constants.len();
    assert forall|k: int|
        base.constraints.len() <= k < system.constraints.len() implies system.holds(
        #[trigger] system.constraints[k],
    ) by {
        let offset = k - base.constraints.len();
        let round = (offset / 2) as nat;
        assert(system.constraints[k] == constraint_entry(base, rounds, constants, offset));
        lemma_round_holds(base, xl, xr, constants, round);
    }
}

/// A satisfied system is still satisfied after a synthesis with a witness.
pub proof fn lemma_synthesis_keeps_satisfied(
    base: SystemModel,
    xl: nat,
    xr: nat,
    constants: Seq<nat>,
)
    requires
        base.wf(),
        base.satisfied(),
        base.aux.len() + 2 * constants.len() + 1 <= usize::MAX,
        constants.len() > 0 ==> base.inputs.len() < usize::MAX,
    ensures
        synthesized(base, Some(xl), Some(xr), constants).satisfied(),
{
    let system = synthesized(base, Some(xl), Some(xr), constants);
    lemma_synthesis_satisfied(base, xl, xr, constants);
    assert(base.extended_by(system));
    assert forall|i: int| 0 <= i < system.inputs.len() implies (
    #[trigger] system.inputs[i]) is Some by {
        if i < base.inputs.len() {
            assert(system.inputs[i] == base.inputs[i]);
        }
    }
    assert forall|i: int| 0 <= i < system.aux.len() implies (#[trigger] system.aux[i]) is Some by {
        if i < base.aux.len() {
            assert(system.aux[i] == base.aux[i]);
        }
    }
    assert forall|k: int| 0 <= k < system.constraints.len() implies system.holds(
        #[trigger] system.constraints[k],
    ) by {
        if k < base.constraints.len() {
            assert(system.constraints[k] == base.constraints[k]);
            base.lemma_holds_extends(system, base.constraints[k]);
        }
    }
}

/// Whether `system` holds the variables and the constraints of the circuit synthesized
/// into `base`, whatever the values of its variables, and these values meet each of the
/// circuit's constraints.
pub open spec fn meets_circuit(system: SystemModel, base: SystemModel, constants: Seq<nat>)
    -> bool {
    let shape = synthesized(base, None, None, constants);
    &&& system.inputs.len() == shape.inputs.len()
    &&& system.aux.len() == shape.aux.len()
    &&& system.constraints == shape.constraints
    &&& forall|k: int|
        base.constraints.len() <= k < system.constraints.len() ==> system.holds(
            #[trigger] system.constraints[k],
        )
}

/// Values that meet both constraints of a round are the round's: given the two halves
/// that the round starts from, the square and the new left half can hold nothing but the
/// square and the output of the round.
proof fn lemma_round_constraints_force_values(
    system: SystemModel,
    left: Variable,
    right: Variable,
    square: Variable,
    new_left: Variable,
    xl: nat,
    xr: nat,
    constant: nat,
)
    requires
        system.in_field(),
        system.value(Variable::Input(0)) == Some(1nat),
        system.value(left) == Some(xl),
        system.value(right) == Some(xr),
        ({
            let shifted = Terms::empty().push((left, 1nat)).push((Variable::Input(0), constant));
            let squared = Terms::empty().push((square, 1nat));
            let difference = Terms::empty().push((new_left, 1nat)).push((right, field_neg(1)));
            &&& system.holds(ConstraintModel { a: shifted, b: shifted, c: squared })
            &&& system.holds(ConstraintModel { a: squared, b: shifted, c: difference })
        }),
    ensures
        system.value(square) == Some(round_square(xl, constant)),
        system.value(new_left) == Some(round_output(xl, xr, constant)),
{
    let squared = Terms::empty().push((square, 1nat));
    let difference = Terms::empty().push((new_left, 1nat)).push((right, field_neg(1)));
    system.lemma_evaluate_needs_values(squared, 0);
    system.lemma_evaluate_needs_values(difference, 0);
    let held_square = system.value(square).unwrap();
    let held_output = system.value(new_left).unwrap();
    system.lemma_value_in_field(square);
    system.lemma_value_in_field(new_left);
    system.lemma_evaluate_two(left, 1, Variable::Input(0), constant);
    system.lemma_evaluate_one(square, 1);
    system.lemma_evaluate_two(new_left, 1, right, field_neg(1));
    lemma_round_products(xl, xr, constant);
    lemma_small_mod(held_square, modulus());
    lemma_small_mod(held_output, modulus());
    lemma_small_mod(round_square(xl, constant), modulus());
    lemma_small_mod(round_output(xl, xr, constant), modulus());
    assert(held_square == round_square(xl, constant));
    lemma_field_add_cancels(
        held_output,
        round_output(xl, xr, constant),
        field_mul(xr, field_neg(1)),
    );
}

/// In a system that meets the circuit, the variable of the left half after each number of
/// rounds holds what the permutation makes of the values of the preimage's variables.
proof fn lemma_wires_carry_the_permutation(
    base: SystemModel,
    constants: Seq<nat>,
    system: SystemModel,
    after: nat,
)
    requires
        base.wf(),
        system.wf(),
        0 < constants.len(),
        after <= constants.len(),
        meets_circuit(system, base, constants),
    ensures
        ({
            let rounds = constants.len();
            let xl = system.value(left_variable(base, rounds, 0));
            let xr = system.value(left_variable(base, rounds, -1));
            &&& xl is Some
            &&& xr is Some
            &&& system.value(left_variable(base, rounds, after as int)) == Some(
                state_after(xl.unwrap(), xr.unwrap(), constants, after).0,
            )
            &&& system.value(left_variable(base, rounds, after as int - 1)) == Some(
                state_after(xl.unwrap(), xr.unwrap(), constants, after).1,
            )
        }),
    decreases after,
{
    let rounds = constants.len();
    let first = base.constraints.len() as int;
    let shape = synthesized(base, None, None, constants);
    if after == 0 {
        assert(system.holds(system.constraints[first]));
        assert(system.holds(system.constraints[first + 1]));
        assert(shape.constraints[first] == constraint_entry(base, rounds, constants, 0));
        assert(shape.constraints[first + 1] == constraint_entry(base, rounds, constants, 1));
        system.lemma_evaluate_needs_values(shifted_left(base, rounds, constants, 0), 0);
        system.lemma_evaluate_needs_values(cube_constraint(base, rounds, constants, 0).c, 1);
    } else {
        let round = (after - 1) as nat;
        lemma_wires_carry_the_permutation(base, constants, system, round);
        let xl = system.value(left_variable(base, rounds, 0)).unwrap();
        let xr = system.value(left_variable(base, rounds, -1)).unwrap();
        let state = state_after(xl, xr, constants, round);
        assert(system.holds(system.constraints[first + 2 * round]));
        assert(system.holds(system.constraints[first + 2 * round + 1]));
        assert(shape.constraints[first + 2 * round] == constraint_entry(
            base,
            rounds,
            constants,
            2 * round as int,
        ));
        assert(shape.constraints[first + 2 * round + 1] == constraint_entry(
            base,
            rounds,
            constants,
            2 * round as int + 1,
        ));
        assert(system.value(Variable::Input(0)) == Some(1nat));
        lemma_round_constraints_force_values(
            system,
            left_variable(base, rounds, round as int),
            left_variable(base, rounds, round as int - 1),
            square_variable(base, round),
            left_variable(base, rounds, round as int + 1),
            state.0,
            state.1,
            constants[round as int],
        );
    }
}

/// Soundness: whatever values the variables of the circuit hold, if they meet every
/// constraint of the circuit, then the public input holds the image, under the
/// permutation, of the values that the two variables of the preimage hold.
pub proof fn lemma_circuit_forces_the_image(
    base: SystemModel,
    constants: Seq<nat>,
    system: SystemModel,
)
    requires
        base.wf(),
        system.wf(),
        0 < constants.len(),
        meets_circuit(system, base, constants),
    ensures
        ({
            let xl = system.aux[base.aux.len() as int];
            let xr = system.aux[base.aux.len() as int + 1];
            &&& xl is Some
            &&& xr is Some
            &&& system.inputs.last() == Some(permutation(xl.unwrap(), xr.unwrap(), constants))
        }),
{
    lemma_wires_carry_the_permutation(base, constants, system, constants.len());
}

} // verus!
