use mimc_circuit::circuit::synthesize_rounds;
use mimc_circuit::permutation::permute;
use mimc_circuit::{
    mimc, ConstraintSystem, FieldElement, LinearCombination, MiMCDemo, SynthesisError, Variable,
    MIMC_ROUNDS,
};
use rand::ChaChaRng;

const MINUS_ONE: [u64; 4] = [
    0xffffffff00000000,
    0x53bda402fffe5bfe,
    0x3339d80809a1d805,
    0x73eda753299d7d48,
];

fn fe(x: u64) -> FieldElement {
    FieldElement::from_u64(x)
}

fn minus_one() -> FieldElement {
    FieldElement::from_limbs(MINUS_ONE).unwrap()
}

fn terms(lc: &LinearCombination) -> Vec<(Variable, FieldElement)> {
    (0..lc.len()).map(|i| lc.term(i)).collect()
}

fn constants_from(rng: &mut ChaChaRng, rounds: usize) -> Vec<FieldElement> {
    (0..rounds).map(|_| FieldElement::random(rng)).collect()
}

#[test]
fn two_rounds_give_four_satisfied_constraints() {
    let constants = [fe(1), fe(2)];
    let mut cs = ConstraintSystem::new(true);
    assert_eq!(synthesize_rounds(Some(fe(2)), Some(fe(3)), &constants, &mut cs), Ok(()));

    assert_eq!(cs.num_constraints(), 4);
    assert_eq!(cs.num_aux(), 5);
    assert_eq!(cs.num_inputs(), 2);

    // The preimage, then each round's square and new left half.
    assert_eq!(cs.value(Variable::Aux(0)), Some(fe(2)));
    assert_eq!(cs.value(Variable::Aux(1)), Some(fe(3)));
    assert_eq!(cs.value(Variable::Aux(2)), Some(fe(9)));
    assert_eq!(cs.value(Variable::Aux(3)), Some(fe(30)));
    assert_eq!(cs.value(Variable::Aux(4)), Some(fe(1024)));
    // The image is the only input besides the constant one.
    assert_eq!(cs.value(Variable::Input(0)), Some(fe(1)));
    assert_eq!(cs.value(Variable::Input(1)), Some(fe(32770)));
    assert_eq!(cs.value(Variable::Input(1)), Some(permute(fe(2), fe(3), &constants)));

    for k in 0..4 {
        assert!(cs.holds(cs.constraint(k)));
    }
    assert!(cs.is_satisfied());
}

#[test]
fn two_rounds_give_the_constraints_of_the_recurrence() {
    let constants = [fe(1), fe(2)];
    let mut cs = ConstraintSystem::new(false);
    assert_eq!(synthesize_rounds(None, None, &constants, &mut cs), Ok(()));
    let one = ConstraintSystem::one();

    // (xl + C0) * (xl + C0) = tmp0
    let c = cs.constraint(0);
    assert_eq!(terms(&c.a), vec![(Variable::Aux(0), fe(1)), (one, fe(1))]);
    assert_eq!(terms(&c.b), vec![(Variable::Aux(0), fe(1)), (one, fe(1))]);
    assert_eq!(terms(&c.c), vec![(Variable::Aux(2), fe(1))]);
    // tmp0 * (xl + C0) = x1 - xr
    let c = cs.constraint(1);
    assert_eq!(terms(&c.a), vec![(Variable::Aux(2), fe(1))]);
    assert_eq!(terms(&c.b), vec![(Variable::Aux(0), fe(1)), (one, fe(1))]);
    assert_eq!(terms(&c.c), vec![(Variable::Aux(3), fe(1)), (Variable::Aux(1), minus_one())]);
    // (x1 + C1) * (x1 + C1) = tmp1
    let c = cs.constraint(2);
    assert_eq!(terms(&c.a), vec![(Variable::Aux(3), fe(1)), (one, fe(2))]);
    assert_eq!(terms(&c.b), vec![(Variable::Aux(3), fe(1)), (one, fe(2))]);
    assert_eq!(terms(&c.c), vec![(Variable::Aux(4), fe(1))]);
    // tmp1 * (x1 + C1) = image - xl
    let c = cs.constraint(3);
    assert_eq!(terms(&c.a), vec![(Variable::Aux(4), fe(1))]);
    assert_eq!(terms(&c.b), vec![(Variable::Aux(3), fe(1)), (one, fe(2))]);
    assert_eq!(terms(&c.c), vec![(Variable::Input(1), fe(1)), (Variable::Aux(0), minus_one())]);
}

#[test]
fn one_round_publishes_its_output() {
    let constants = [fe(1)];
    let mut cs = ConstraintSystem::new(true);
    assert_eq!(synthesize_rounds(Some(fe(2)), Some(fe(3)), &constants, &mut cs), Ok(()));
    assert_eq!(cs.num_constraints(), 2);
    assert_eq!(cs.num_aux(), 3);
    assert_eq!(cs.num_inputs(), 2);
    assert_eq!(cs.value(Variable::Aux(2)), Some(fe(9)));
    assert_eq!(cs.value(Variable::Input(1)), Some(fe(30)));
    assert_eq!(
        terms(&cs.constraint(1).c),
        vec![(Variable::Input(1), fe(1)), (Variable::Aux(1), minus_one())]
    );
    assert!(cs.is_satisfied());
}

#[test]
fn no_round_allocates_the_preimage_only() {
    let mut cs = ConstraintSystem::new(true);
    assert_eq!(synthesize_rounds(Some(fe(2)), Some(fe(3)), &[], &mut cs), Ok(()));
    assert_eq!(cs.num_constraints(), 0);
    assert_eq!(cs.num_aux(), 2);
    assert_eq!(cs.num_inputs(), 1);
    assert_eq!(cs.value(Variable::Aux(0)), Some(fe(2)));
    assert_eq!(cs.value(Variable::Aux(1)), Some(fe(3)));
}

#[test]
fn synthesis_goes_on_from_what_the_system_holds() {
    let constants = [fe(1), fe(2)];
    let mut cs = ConstraintSystem::new(true);
    let a = cs.allocate(Some(fe(4))).unwrap();
    let b = cs.allocate_public_input(Some(fe(16))).unwrap();
    cs.enforce(
        LinearCombination::zero().add_variable(a),
        LinearCombination::zero().add_variable(a),
        LinearCombination::zero().add_variable(b),
    );
    assert_eq!(synthesize_rounds(Some(fe(2)), Some(fe(3)), &constants, &mut cs), Ok(()));
    assert_eq!(cs.num_constraints(), 5);
    assert_eq!(cs.num_aux(), 6);
    assert_eq!(cs.num_inputs(), 3);
    assert_eq!(cs.value(Variable::Aux(0)), Some(fe(4)));
    assert_eq!(cs.value(Variable::Input(1)), Some(fe(16)));
    assert_eq!(cs.value(Variable::Input(2)), Some(fe(32770)));
    assert_eq!(terms(&cs.constraint(0).c), vec![(b, fe(1))]);
    let last = cs.constraint(4);
    assert_eq!(terms(&last.a), vec![(Variable::Aux(5), fe(1))]);
    assert_eq!(terms(&last.b), vec![(Variable::Aux(4), fe(1)), (Variable::Input(0), fe(2))]);
    assert_eq!(terms(&last.c), vec![(Variable::Input(2), fe(1)), (Variable::Aux(1), minus_one())]);
    assert!(cs.is_satisfied());
}

#[test]
fn the_full_circuit_has_644_constraints_and_one_public_input() {
    let mut rng = ChaChaRng::new_unseeded();
    let constants = constants_from(&mut rng, MIMC_ROUNDS);
    let xl = FieldElement::random(&mut rng);
    let xr = FieldElement::random(&mut rng);
    let mut cs = ConstraintSystem::new(true);
    let circuit = MiMCDemo { xl: Some(xl), xr: Some(xr), constants: &constants };
    assert_eq!(circuit.synthesize(&mut cs), Ok(()));
    assert_eq!(cs.num_constraints(), 644);
    assert_eq!(cs.num_constraints(), 2 * MIMC_ROUNDS);
    // The constant one was there before: the circuit allocates one input and 645
    // auxiliary variables, 2 * 322 + 2 variables in all.
    assert_eq!(cs.num_inputs(), 2);
    assert_eq!(cs.num_aux(), 645);
    assert_eq!(cs.num_inputs() - 1 + cs.num_aux(), 2 * MIMC_ROUNDS + 2);
}

#[test]
fn the_full_circuit_is_satisfied_by_the_values_of_the_permutation() {
    let mut rng = ChaChaRng::new_unseeded();
    let constants = constants_from(&mut rng, MIMC_ROUNDS);
    for _ in 0..3 {
        let xl = FieldElement::random(&mut rng);
        let xr = FieldElement::random(&mut rng);
        let mut cs = ConstraintSystem::new(true);
        let circuit = MiMCDemo { xl: Some(xl), xr: Some(xr), constants: &constants };
        assert_eq!(circuit.synthesize(&mut cs), Ok(()));
        assert!(cs.is_fully_assigned());
        assert!(cs.is_satisfied());
        assert_eq!(cs.value(Variable::Aux(0)), Some(xl));
        assert_eq!(cs.value(Variable::Aux(1)), Some(xr));
        // The new left half of each round but the last is the image of the rounds so far.
        for rounds in [1, 2, 17, MIMC_ROUNDS - 1] {
            let image = permute(xl, xr, &constants[..rounds]);
            assert_eq!(cs.value(Variable::Aux(2 * rounds + 1)), Some(image));
        }
        assert_eq!(cs.value(Variable::Input(1)), Some(mimc(xl, xr, &constants)));
    }
}

#[test]
fn the_image_is_the_last_variable_and_the_only_public_one() {
    let mut rng = ChaChaRng::new_unseeded();
    let constants = constants_from(&mut rng, MIMC_ROUNDS);
    let mut cs = ConstraintSystem::new(false);
    let circuit = MiMCDemo { xl: Some(fe(2)), xr: Some(fe(3)), constants: &constants };
    assert_eq!(circuit.synthesize(&mut cs), Ok(()));
    assert_eq!(cs.num_inputs(), 2);
    let last = cs.constraint(2 * MIMC_ROUNDS - 1);
    assert_eq!(
        terms(&last.c),
        vec![(Variable::Input(1), fe(1)), (Variable::Aux(2 * MIMC_ROUNDS - 3), minus_one())]
    );
    // No other constraint speaks of an input but the constant one.
    for k in 0..2 * MIMC_ROUNDS - 1 {
        let c = cs.constraint(k);
        for lc in [&c.a, &c.b, &c.c] {
            for (variable, _) in terms(lc) {
                assert_ne!(variable, Variable::Input(1));
            }
        }
    }
}

#[test]
fn synthesis_without_a_witness_completes() {
    let mut rng = ChaChaRng::new_unseeded();
    let constants = constants_from(&mut rng, MIMC_ROUNDS);
    let mut cs = ConstraintSystem::new(false);
    let circuit = MiMCDemo { xl: None, xr: None, constants: &constants };
    assert_eq!(circuit.synthesize(&mut cs), Ok(()));
    assert_eq!(cs.num_constraints(), 644);
    assert_eq!(cs.num_aux(), 645);
    assert_eq!(cs.num_inputs(), 2);
    for i in 0..cs.num_aux() {
        assert_eq!(cs.value(Variable::Aux(i)), None);
    }
    assert_eq!(cs.value(Variable::Input(1)), None);
    assert!(!cs.is_satisfied());
}

#[test]
fn the_shape_of_the_circuit_does_not_depend_on_the_witness() {
    let mut rng = ChaChaRng::new_unseeded();
    let constants = constants_from(&mut rng, MIMC_ROUNDS);
    let mut shape = ConstraintSystem::new(false);
    let mut proof = ConstraintSystem::new(true);
    let without = MiMCDemo { xl: None, xr: None, constants: &constants };
    let with = MiMCDemo { xl: Some(fe(2)), xr: Some(fe(3)), constants: &constants };
    assert_eq!(without.synthesize(&mut shape), Ok(()));
    assert_eq!(with.synthesize(&mut proof), Ok(()));
    assert_eq!(shape.num_constraints(), proof.num_constraints());
    for k in 0..shape.num_constraints() {
        let (s, p) = (shape.constraint(k), proof.constraint(k));
        assert_eq!(terms(&s.a), terms(&p.a));
        assert_eq!(terms(&s.b), terms(&p.b));
        assert_eq!(terms(&s.c), terms(&p.c));
    }
}

#[test]
fn the_constants_are_the_coefficients_of_the_constant_one() {
    let mut rng = ChaChaRng::new_unseeded();
    let constants = constants_from(&mut rng, MIMC_ROUNDS);
    let mut cs = ConstraintSystem::new(false);
    let circuit = MiMCDemo { xl: None, xr: None, constants: &constants };
    assert_eq!(circuit.synthesize(&mut cs), Ok(()));
    for round in 0..MIMC_ROUNDS {
        let square = cs.constraint(2 * round);
        let cube = cs.constraint(2 * round + 1);
        assert_eq!(square.a.term(1), (Variable::Input(0), constants[round]));
        assert_eq!(square.b.term(1), (Variable::Input(0), constants[round]));
        assert_eq!(cube.b.term(1), (Variable::Input(0), constants[round]));
        assert_eq!(terms(&square.c), vec![(Variable::Aux(2 * round + 2), fe(1))]);
    }
}

#[test]
fn a_strict_system_refuses_a_missing_witness() {
    let constants = vec![fe(1); MIMC_ROUNDS];
    let mut cs = ConstraintSystem::new(true);
    let circuit = MiMCDemo { xl: None, xr: None, constants: &constants };
    assert_eq!(circuit.synthesize(&mut cs), Err(SynthesisError::AssignmentMissing));
    assert_eq!(cs.num_aux(), 0);
    assert_eq!(cs.num_inputs(), 1);
    assert_eq!(cs.num_constraints(), 0);

    let mut cs = ConstraintSystem::new(true);
    let circuit = MiMCDemo { xl: None, xr: Some(fe(3)), constants: &constants };
    assert_eq!(circuit.synthesize(&mut cs), Err(SynthesisError::AssignmentMissing));
    assert_eq!(cs.num_aux(), 0);
    assert_eq!(cs.num_constraints(), 0);
}

#[test]
fn a_strict_system_refuses_a_missing_right_half_after_the_left() {
    let constants = vec![fe(1); MIMC_ROUNDS];
    let mut cs = ConstraintSystem::new(true);
    let circuit = MiMCDemo { xl: Some(fe(2)), xr: None, constants: &constants };
    assert_eq!(circuit.synthesize(&mut cs), Err(SynthesisError::AssignmentMissing));
    assert_eq!(cs.num_aux(), 1);
    assert_eq!(cs.value(Variable::Aux(0)), Some(fe(2)));
    assert_eq!(cs.num_inputs(), 1);
    assert_eq!(cs.num_constraints(), 0);
}

#[test]
fn a_right_half_alone_is_allocated_and_nothing_else_has_a_value() {
    let constants = [fe(1), fe(2)];
    let mut cs = ConstraintSystem::new(false);
    assert_eq!(synthesize_rounds(None, Some(fe(3)), &constants, &mut cs), Ok(()));
    assert_eq!(cs.num_aux(), 5);
    assert_eq!(cs.value(Variable::Aux(0)), None);
    assert_eq!(cs.value(Variable::Aux(1)), Some(fe(3)));
    assert_eq!(cs.value(Variable::Aux(2)), None);
    assert_eq!(cs.value(Variable::Aux(3)), None);
    assert_eq!(cs.value(Variable::Aux(4)), None);
    assert_eq!(cs.value(Variable::Input(1)), None);
    assert_eq!(cs.num_constraints(), 4);
}

#[test]
fn a_wrong_witness_value_breaks_a_constraint() {
    // The circuit of one round by hand, with 31 in place of the output 30.
    let mut cs = ConstraintSystem::new(true);
    let one = ConstraintSystem::one();
    let xl = cs.allocate(Some(fe(2))).unwrap();
    let xr = cs.allocate(Some(fe(3))).unwrap();
    let tmp = cs.allocate(Some(fe(9))).unwrap();
    cs.enforce(
        LinearCombination::zero().add_variable(xl).add_term(fe(1), one),
        LinearCombination::zero().add_variable(xl).add_term(fe(1), one),
        LinearCombination::zero().add_variable(tmp),
    );
    let image = cs.allocate_public_input(Some(fe(31))).unwrap();
    cs.enforce(
        LinearCombination::zero().add_variable(tmp),
        LinearCombination::zero().add_variable(xl).add_term(fe(1), one),
        LinearCombination::zero().add_variable(image).sub_variable(xr),
    );
    assert!(cs.holds(cs.constraint(0)));
    assert!(!cs.holds(cs.constraint(1)));
    assert!(!cs.is_satisfied());
}
