use bellman::groth16::{
    create_random_proof, generate_random_parameters, prepare_verifying_key, verify_proof,
    Parameters, Proof,
};
use bellman::{Circuit, ConstraintSystem, LinearCombination, SynthesisError};
use mimc_circuit::circuit::synthesize_rounds;
use mimc_circuit::permutation::permute;
use mimc_circuit::{mimc, FieldElement, MIMC_ROUNDS};
use pairing::bls12_381::{Bls12, Fr, FrRepr};
use pairing::{Field, PrimeField};
use rand::ChaChaRng;

fn to_fr(e: &FieldElement) -> Fr {
    Fr::from_repr(FrRepr(e.limbs())).unwrap()
}

fn constants_from(rng: &mut ChaChaRng, rounds: usize) -> Vec<FieldElement> {
    (0..rounds).map(|_| FieldElement::random(rng)).collect()
}

/// The circuit written against bellman's own interface, over as many rounds as there are
/// constants.
struct Direct<'a> {
    xl: Option<Fr>,
    xr: Option<Fr>,
    constants: &'a [Fr],
}

impl<'a> Circuit<Bls12> for Direct<'a> {
    fn synthesize<CS: ConstraintSystem<Bls12>>(self, cs: &mut CS) -> Result<(), SynthesisError> {
        let rounds = self.constants.len();

        let mut xl_value = self.xl;
        let mut xl =
            cs.alloc(|| "preimage xl", || xl_value.ok_or(SynthesisError::AssignmentMissing))?;

        let mut xr_value = self.xr;
        let mut xr =
            cs.alloc(|| "preimage xr", || xr_value.ok_or(SynthesisError::AssignmentMissing))?;

        for i in 0..rounds {
            let cs = &mut cs.namespace(|| format!("round {}", i));

            let tmp_value = xl_value.map(|mut e| {
                e.add_assign(&self.constants[i]);
                e.square();
                e
            });
            let tmp = cs.alloc(|| "tmp", || tmp_value.ok_or(SynthesisError::AssignmentMissing))?;

            cs.enforce(
                || "tmp = (xL + Ci)^2",
                |lc| lc + xl + (self.constants[i], CS::one()),
                |lc| lc + xl + (self.constants[i], CS::one()),
                |lc| lc + tmp,
            );

            let new_xl_value = xl_value.map(|mut e| {
                e.add_assign(&self.constants[i]);
                e.mul_assign(&tmp_value.unwrap());
                e.add_assign(&xr_value.unwrap());
                e
            });

            let new_xl = if i == (rounds - 1) {
                cs.alloc_input(
                    || "image",
                    || new_xl_value.ok_or(SynthesisError::AssignmentMissing),
                )?
            } else {
                cs.alloc(|| "new_xl", || new_xl_value.ok_or(SynthesisError::AssignmentMissing))?
            };

            cs.enforce(
                || "new_xL = xR + (xL + Ci)^3",
                |lc| lc + tmp,
                |lc| lc + xl + (self.constants[i], CS::one()),
                |lc| lc + new_xl - xr,
            );

            xr = xl;
            xr_value = xl_value;

            xl = new_xl;
            xl_value = new_xl_value;
        }

        Ok(())
    }
}

/// A recorded system as a circuit of bellman: its allocations, then its constraints.
struct Replayed<'a> {
    system: &'a mimc_circuit::ConstraintSystem,
}

impl<'a> Replayed<'a> {
    fn combine(
        recorded: &mimc_circuit::LinearCombination,
        inputs: &[bellman::Variable],
        aux: &[bellman::Variable],
        mut lc: LinearCombination<Bls12>,
    ) -> LinearCombination<Bls12> {
        for k in 0..recorded.len() {
            let (variable, coefficient) = recorded.term(k);
            let variable = match variable {
                mimc_circuit::Variable::Input(i) => inputs[i],
                mimc_circuit::Variable::Aux(i) => aux[i],
            };
            lc = lc + (to_fr(&coefficient), variable);
        }
        lc
    }
}

impl<'a> Circuit<Bls12> for Replayed<'a> {
    fn synthesize<CS: ConstraintSystem<Bls12>>(self, cs: &mut CS) -> Result<(), SynthesisError> {
        let mut inputs = vec![CS::one()];
        let mut aux = vec![];
        for i in 0..self.system.num_aux() {
            let value = self.system.value(mimc_circuit::Variable::Aux(i));
            aux.push(cs.alloc(
                || format!("aux {}", i),
                || value.as_ref().map(to_fr).ok_or(SynthesisError::AssignmentMissing),
            )?);
        }
        for i in 1..self.system.num_inputs() {
            let value = self.system.value(mimc_circuit::Variable::Input(i));
            inputs.push(cs.alloc_input(
                || format!("input {}", i),
                || value.as_ref().map(to_fr).ok_or(SynthesisError::AssignmentMissing),
            )?);
        }
        for k in 0..self.system.num_constraints() {
            let constraint = self.system.constraint(k);
            cs.enforce(
                || format!("constraint {}", k),
                |lc| Replayed::combine(&constraint.a, &inputs, &aux, lc),
                |lc| Replayed::combine(&constraint.b, &inputs, &aux, lc),
                |lc| Replayed::combine(&constraint.c, &inputs, &aux, lc),
            );
        }
        Ok(())
    }
}

struct Setting {
    constants: Vec<FieldElement>,
    xl: FieldElement,
    xr: FieldElement,
}

impl Setting {
    fn new(rounds: usize) -> Setting {
        let mut rng = ChaChaRng::new_unseeded();
        let constants = constants_from(&mut rng, rounds);
        let xl = FieldElement::random(&mut rng);
        let xr = FieldElement::random(&mut rng);
        Setting { constants, xl, xr }
    }

    /// Parameters and a proof from the circuit that this library synthesizes.
    fn ours(&self, rng: &mut ChaChaRng) -> (Parameters<Bls12>, Proof<Bls12>) {
        let mut shape = mimc_circuit::ConstraintSystem::new(false);
        assert_eq!(synthesize_rounds(None, None, &self.constants, &mut shape), Ok(()));
        let params = generate_random_parameters(Replayed { system: &shape }, rng).unwrap();

        let mut witnessed = mimc_circuit::ConstraintSystem::new(true);
        let done = synthesize_rounds(Some(self.xl), Some(self.xr), &self.constants, &mut witnessed);
        assert_eq!(done, Ok(()));
        let proof = create_random_proof(Replayed { system: &witnessed }, &params, rng).unwrap();
        (params, proof)
    }

    /// Parameters and a proof from the circuit written against bellman.
    fn theirs(&self, rng: &mut ChaChaRng) -> (Parameters<Bls12>, Proof<Bls12>) {
        let constants: Vec<Fr> = self.constants.iter().map(to_fr).collect();
        let shape = Direct { xl: None, xr: None, constants: &constants };
        let params = generate_random_parameters(shape, rng).unwrap();
        let witnessed =
            Direct { xl: Some(to_fr(&self.xl)), xr: Some(to_fr(&self.xr)), constants: &constants };
        let proof = create_random_proof(witnessed, &params, rng).unwrap();
        (params, proof)
    }
}

#[test]
fn a_proof_of_two_rounds_verifies_for_the_image_only() {
    let setting = Setting::new(2);
    let (params, proof) = setting.ours(&mut ChaChaRng::new_unseeded());
    let pvk = prepare_verifying_key(&params.vk);

    let image = permute(setting.xl, setting.xr, &setting.constants);
    assert!(verify_proof(&pvk, &proof, &[to_fr(&image)]).unwrap());
    let mut other = image;
    other.add_assign(&FieldElement::one());
    assert!(!verify_proof(&pvk, &proof, &[to_fr(&other)]).unwrap());
    assert!(verify_proof(&pvk, &proof, &[]).is_err());
}

#[test]
fn two_rounds_give_the_parameters_and_the_proof_of_the_circuit_in_bellman() {
    let setting = Setting::new(2);
    let (our_params, our_proof) = setting.ours(&mut ChaChaRng::new_unseeded());
    let (their_params, their_proof) = setting.theirs(&mut ChaChaRng::new_unseeded());
    assert!(our_params == their_params);
    assert!(our_proof == their_proof);
}

#[test]
fn other_constants_give_other_parameters() {
    let setting = Setting::new(2);
    let mut other = Setting::new(2);
    other.constants[1].add_assign(&FieldElement::one());
    let (params, _) = setting.ours(&mut ChaChaRng::new_unseeded());
    let (other_params, _) = other.theirs(&mut ChaChaRng::new_unseeded());
    assert!(params != other_params);
}

#[test]
fn the_prover_of_bellman_refuses_a_replay_without_a_witness() {
    let setting = Setting::new(2);
    let (params, _) = setting.ours(&mut ChaChaRng::new_unseeded());
    let mut shape = mimc_circuit::ConstraintSystem::new(false);
    assert_eq!(synthesize_rounds(None, None, &setting.constants, &mut shape), Ok(()));
    let refused =
        create_random_proof(Replayed { system: &shape }, &params, &mut ChaChaRng::new_unseeded());
    assert!(matches!(refused, Err(SynthesisError::AssignmentMissing)));
}

#[test]
fn forty_rounds_give_the_parameters_and_the_proof_of_the_circuit_in_bellman() {
    let setting = Setting::new(40);
    let (our_params, our_proof) = setting.ours(&mut ChaChaRng::new_unseeded());
    let (their_params, their_proof) = setting.theirs(&mut ChaChaRng::new_unseeded());
    assert!(our_params == their_params);
    assert!(our_proof == their_proof);
}

#[test]
fn a_proof_of_all_rounds_verifies_for_the_image() {
    let setting = Setting::new(MIMC_ROUNDS);
    let (params, proof) = setting.ours(&mut ChaChaRng::new_unseeded());
    let pvk = prepare_verifying_key(&params.vk);
    let image = mimc(setting.xl, setting.xr, &setting.constants);
    assert!(verify_proof(&pvk, &proof, &[to_fr(&image)]).unwrap());
    assert!(!verify_proof(&pvk, &proof, &[to_fr(&setting.xl)]).unwrap());
}
