//! The demo: round constants from a generator with a fixed key, and the circuit's
//! synthesis without a witness.

use crate::circuit::{synthesized, MiMCDemo};
use crate::field::FieldElement;
use crate::permutation::{values, MIMC_ROUNDS};
use crate::system::{ConstraintSystem, SystemModel};
use rand::ChaChaRng;
use vstd::prelude::*;

verus! {

/// What a run of the demo leaves: the round constants that it drew and the constraint
/// system that the circuit was synthesized into.
pub struct DemoRun {
    pub constants: Vec<FieldElement>,
    pub system: ConstraintSystem,
}

/// `rand::ChaChaRng::new_unseeded`: a generator with the fixed key of zero words.
#[verifier::external_body]
fn unseeded_rng() -> ChaChaRng {
    ChaChaRng::new_unseeded()
}

/// Draws the round constants of the permutation from the generator.
pub fn generate_constants(rng: &mut ChaChaRng) -> (constants: Vec<FieldElement>)
    ensures
        constants@.len() == MIMC_ROUNDS,
{
    let mut constants: Vec<FieldElement> = Vec::new();
    let mut i: usize = 0;
    while i < MIMC_ROUNDS
        invariant
            i <= MIMC_ROUNDS,
            constants@.len() == i,
        decreases MIMC_ROUNDS - i,
    {
        constants.push(FieldElement::random(rng));
        i = i + 1;
    }
    constants
}

/// Runs the demo: draws the round constants from a generator that is not seeded, which
/// is of no use where the constants must not be predictable, and synthesizes the circuit
/// without a witness into a system that accepts that.
pub fn run_mimc() -> (run: DemoRun)
    ensures
        run.constants@.len() == MIMC_ROUNDS,
        run.system@ == synthesized(SystemModel::fresh(false), None, None, values(run.constants@)),
{
    // Obviously not safe: the key is fixed, so every run draws the same constants.
    let mut rng = unseeded_rng();
    let constants = generate_constants(&mut rng);
    let mut system = ConstraintSystem::new(false);
    // The circuit without a witness, as it is synthesized to create parameters.
    let c = MiMCDemo { xl: None, xr: None, constants: constants.as_slice() };
    let synthesis = c.synthesize(&mut system);
    assert(synthesis is Ok);
    DemoRun { constants, system }
}

} // verus!
