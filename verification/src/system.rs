//! Rank-1 constraint systems over the scalar field.
//!
//! A [`ConstraintSystem`] records the variables that a circuit allocates and the
//! constraints that it enforces. Its view, a [`SystemModel`], is what contracts speak of.

use crate::field::{
    field_add, field_mul, field_neg, lemma_value_determines_element, modulus, FieldElement,
};
use vstd::arithmetic::div_mod::lemma_small_mod;
use vstd::prelude::*;

verus! {

/// A variable of a constraint system: a public input or a private auxiliary wire, each
/// numbered in the order of allocation. `Input(0)` is the constant one.
#[derive(Clone, Copy, Debug, PartialEq, Eq, Structural)]
pub enum Variable {
    Input(usize),
    Aux(usize),
}

/// Why a synthesis did not complete.
#[derive(Clone, Copy, Debug, PartialEq, Eq, Structural)]
pub enum SynthesisError {
    /// A variable was allocated without a value in a system that demands one.
    AssignmentMissing,
}

/// A linear combination as contracts see it: its terms in the order they were added, each
/// a variable and the value of its coefficient.
pub type Terms = Seq<(Variable, nat)>;

/// The three linear combinations of a constraint `a * b = c`.
#[verifier::ext_equal]
pub struct ConstraintModel {
    pub a: Terms,
    pub b: Terms,
    pub c: Terms,
}

/// What a constraint system holds: the value, if any, of each input and auxiliary
/// variable in the order of allocation, and the constraints in the order they were
/// enforced.
#[verifier::ext_equal]
pub struct SystemModel {
    /// Whether an allocation without a value is refused.
    pub strict: bool,
    pub inputs: Seq<Option<nat>>,
    pub aux: Seq<Option<nat>>,
    pub constraints: Seq<ConstraintModel>,
}

impl SystemModel {
    /// The system before any circuit has touched it: it holds the constant one, and
    /// nothing else.
    pub open spec fn fresh(strict: bool) -> SystemModel {
        SystemModel {
            strict,
            inputs: seq![Some(1nat)],
            aux: Seq::empty(),
            constraints: Seq::empty(),
        }
    }

    /// The system with one more auxiliary variable.
    pub open spec fn with_aux(self, value: Option<nat>) -> SystemModel {
        SystemModel { aux: self.aux.push(value), ..self }
    }

    /// The system with one more input variable.
    pub open spec fn with_input(self, value: Option<nat>) -> SystemModel {
        SystemModel { inputs: self.inputs.push(value), ..self }
    }

    /// The system with one more constraint.
    pub open spec fn with_constraint(self, constraint: ConstraintModel) -> SystemModel {
        SystemModel { constraints: self.constraints.push(constraint), ..self }
    }

    /// Whether the variable has been allocated in this system.
    pub open spec fn allocated(self, variable: Variable) -> bool {
        match variable {
            Variable::Input(i) => i < self.inputs.len(),
            Variable::Aux(i) => i < self.aux.len(),
        }
    }

    /// Whether every variable of the linear combination has been allocated.
    pub open spec fn covers(self, terms: Terms) -> bool {
        forall|k: int| 0 <= k < terms.len() ==> self.allocated(#[trigger] terms[k].0)
    }

    /// The value of a variable, if it has been allocated with one.
    pub open spec fn value(self, variable: Variable) -> Option<nat> {
        match variable {
            Variable::Input(i) => if i < self.inputs.len() {
                self.inputs[i as int]
            } else {
                None
            },
            Variable::Aux(i) => if i < self.aux.len() {
                self.aux[i as int]
            } else {
                None
            },
        }
    }

    /// The value of a linear combination: the sum in the field of each variable's value
    /// times its coefficient, if every variable has one.
    pub open spec fn evaluate(self, terms: Terms) -> Option<nat>
        decreases terms.len(),
    {
        if terms.len() == 0 {
            Some(0nat)
        } else {
            match (self.evaluate(terms.drop_last()), self.value(terms.last().0)) {
                (Some(sum), Some(value)) => Some(
                    field_add(sum, field_mul(value, terms.last().1)),
                ),
                _ => None,
            }
        }
    }

    /// Whether the three combinations of the constraint have values and these meet it.
    pub open spec fn holds(self, constraint: ConstraintModel) -> bool {
        match (
            self.evaluate(constraint.a),
            self.evaluate(constraint.b),
            self.evaluate(constraint.c),
        ) {
            (Some(a), Some(b), Some(c)) => field_mul(a, b) == c,
            _ => false,
        }
    }

    /// Whether every variable has a value.
    pub open spec fn fully_assigned(self) -> bool {
        &&& forall|i: int| 0 <= i < self.inputs.len() ==> (#[trigger] self.inputs[i]) is Some
        &&& forall|i: int| 0 <= i < self.aux.len() ==> (#[trigger] self.aux[i]) is Some
    }

    /// Whether every variable has a value and these values meet every constraint.
    pub open spec fn satisfied(self) -> bool {
        &&& self.fully_assigned()
        &&& forall|k: int|
            0 <= k < self.constraints.len() ==> self.holds(#[trigger] self.constraints[k])
    }

    /// Whether every value that a variable has lies in the field.
    pub open spec fn in_field(self) -> bool {
        &&& forall|i: int|
            0 <= i < self.inputs.len() ==> ((#[trigger] self.inputs[i]) matches Some(v) ==> v
                < modulus())
        &&& forall|i: int|
            0 <= i < self.aux.len() ==> ((#[trigger] self.aux[i]) matches Some(v) ==> v
                < modulus())
    }

    /// What holds of every system that a [`ConstraintSystem`] can be in: the constant one
    /// is its first input, its variables can be counted in a `usize`, their values lie in
    /// the field, and its constraints speak of allocated variables only.
    pub open spec fn wf(self) -> bool {
        &&& 0 < self.inputs.len() <= usize::MAX
        &&& self.aux.len() <= usize::MAX
        &&& self.inputs[0] == Some(1nat)
        &&& self.in_field()
        &&& forall|k: int|
            0 <= k < self.constraints.len() ==> {
                &&& self.covers((#[trigger] self.constraints[k]).a)
                &&& self.covers(self.constraints[k].b)
                &&& self.covers(self.constraints[k].c)
            }
    }
}

impl SystemModel {
    /// A linear combination that speaks of allocated variables still does after further
    /// allocations.
    pub proof fn lemma_covers_extends(self, later: SystemModel, terms: Terms)
        requires
            self.covers(terms),
            self.inputs.len() <= later.inputs.len(),
            self.aux.len() <= later.aux.len(),
        ensures
            later.covers(terms),
    {
        assert forall|k: int| 0 <= k < terms.len() implies later.allocated(
            #[trigger] terms[k].0,
        ) by {
            assert(self.allocated(terms[k].0));
        }
    }

    /// Whether `later` holds every variable of this system, with the value it has here.
    pub open spec fn extended_by(self, later: SystemModel) -> bool {
        &&& self.inputs.len() <= later.inputs.len()
        &&& self.aux.len() <= later.aux.len()
        &&& forall|i: int| 0 <= i < self.inputs.len() ==> later.inputs[i] == self.inputs[i]
        &&& forall|i: int| 0 <= i < self.aux.len() ==> later.aux[i] == self.aux[i]
    }

    /// Further allocations leave the value of a linear combination as it was.
    pub proof fn lemma_evaluate_extends(self, later: SystemModel, terms: Terms)
        requires
            self.extended_by(later),
            self.covers(terms),
        ensures
            later.evaluate(terms) == self.evaluate(terms),
        decreases terms.len(),
    {
        if terms.len() > 0 {
            let head = terms.drop_last();
            assert forall|k: int| 0 <= k < head.len() implies self.allocated(
                #[trigger] head[k].0,
            ) by {
                assert(head[k] == terms[k]);
            }
            self.lemma_evaluate_extends(later, head);
            assert(self.allocated(terms[terms.len() - 1].0));
        }
    }

    /// Further allocations and constraints leave a constraint that held holding.
    pub proof fn lemma_holds_extends(self, later: SystemModel, constraint: ConstraintModel)
        requires
            self.extended_by(later),
            self.covers(constraint.a),
            self.covers(constraint.b),
            self.covers(constraint.c),
        ensures
            later.holds(constraint) == self.holds(constraint),
    {
        self.lemma_evaluate_extends(later, constraint.a);
        self.lemma_evaluate_extends(later, constraint.b);
        self.lemma_evaluate_extends(later, constraint.c);
    }

    /// In a system whose values lie in the field, the value of each variable does.
    pub proof fn lemma_value_in_field(self, variable: Variable)
        requires
            self.in_field(),
        ensures
            self.value(variable) matches Some(v) ==> v < modulus(),
    {
        match variable {
            Variable::Input(i) => {
                if i < self.inputs.len() {
                    assert(self.value(variable) == self.inputs[i as int]);
                }
            },
            Variable::Aux(i) => {
                if i < self.aux.len() {
                    assert(self.value(variable) == self.aux[i as int]);
                }
            },
        }
    }

    /// A combination has a value only if each of its variables has one.
    pub proof fn lemma_evaluate_needs_values(self, terms: Terms, k: int)
        requires
            self.evaluate(terms) is Some,
            0 <= k < terms.len(),
        ensures
            self.value(terms[k].0) is Some,
        decreases terms.len(),
    {
        if k < terms.len() - 1 {
            let head = terms.drop_last();
            assert(head[k] == terms[k]);
            self.lemma_evaluate_needs_values(head, k);
        }
    }

    /// A combination without a value has none either once more terms are added.
    pub proof fn lemma_evaluate_stays_none(self, terms: Terms, prefix: int)
        requires
            0 <= prefix <= terms.len(),
            self.evaluate(terms.take(prefix)) is None,
        ensures
            self.evaluate(terms) is None,
        decreases terms.len() - prefix,
    {
        if prefix < terms.len() {
            assert(terms.take(prefix + 1).drop_last() =~= terms.take(prefix));
            self.lemma_evaluate_stays_none(terms, prefix + 1);
        } else {
            assert(terms.take(prefix) =~= terms);
        }
    }

    /// The value of a combination of one term is the variable's value times the
    /// coefficient.
    pub proof fn lemma_evaluate_one(self, variable: Variable, coefficient: nat)
        requires
            self.value(variable) is Some,
        ensures
            self.evaluate(Terms::empty().push((variable, coefficient))) == Some(
                field_mul(self.value(variable).unwrap(), coefficient),
            ),
    {
        let terms = Terms::empty().push((variable, coefficient));
        assert(terms.drop_last() =~= Terms::empty());
        assert(self.evaluate(terms.drop_last()) == Some(0nat));
        lemma_small_mod(field_mul(self.value(variable).unwrap(), coefficient), modulus());
    }

    /// The value of a combination of two terms is the sum of the two products.
    pub proof fn lemma_evaluate_two(
        self,
        first: Variable,
        first_coefficient: nat,
        second: Variable,
        second_coefficient: nat,
    )
        requires
            self.value(first) is Some,
            self.value(second) is Some,
        ensures
            self.evaluate(
                Terms::empty().push((first, first_coefficient)).push((second, second_coefficient)),
            ) == Some(
                field_add(
                    field_mul(self.value(first).unwrap(), first_coefficient),
                    field_mul(self.value(second).unwrap(), second_coefficient),
                ),
            ),
    {
        let head = Terms::empty().push((first, first_coefficient));
        let terms = head.push((second, second_coefficient));
        assert(terms.drop_last() =~= head);
        self.lemma_evaluate_one(first, first_coefficient);
    }

    /// Allocating a variable keeps a system well formed, as long as the variables can
    /// still be counted.
    pub proof fn lemma_allocation_keeps_wf(self, value: Option<nat>)
        requires
            self.wf(),
            value matches Some(v) ==> v < modulus(),
        ensures
            self.aux.len() < usize::MAX ==> self.with_aux(value).wf(),
            self.inputs.len() < usize::MAX ==> self.with_input(value).wf(),
    {
        let with_aux = self.with_aux(value);
        let with_input = self.with_input(value);
        assert forall|k: int| 0 <= k < self.constraints.len() implies {
            &&& with_aux.covers((#[trigger] with_aux.constraints[k]).a)
            &&& with_aux.covers(with_aux.constraints[k].b)
            &&& with_aux.covers(with_aux.constraints[k].c)
            &&& with_input.covers((#[trigger] with_input.constraints[k]).a)
            &&& with_input.covers(with_input.constraints[k].b)
            &&& with_input.covers(with_input.constraints[k].c)
        } by {
            let held = self.constraints[k];
            self.lemma_covers_extends(with_aux, held.a);
            self.lemma_covers_extends(with_aux, held.b);
            self.lemma_covers_extends(with_aux, held.c);
            self.lemma_covers_extends(with_input, held.a);
            self.lemma_covers_extends(with_input, held.b);
            self.lemma_covers_extends(with_input, held.c);
        }
    }
}

/// A linear combination of variables with coefficients in the field.
pub struct LinearCombination {
    terms: Vec<(Variable, FieldElement)>,
}

impl View for LinearCombination {
    type V = Terms;

    closed spec fn view(&self) -> Terms {
        self.terms@.map_values(|t: (Variable, FieldElement)| (t.0, t.1@))
    }
}

impl LinearCombination {
    /// The empty combination, whose value is zero.
    pub fn zero() -> (r: LinearCombination)
        ensures
            r@ == Terms::empty(),
    {
        LinearCombination { terms: Vec::new() }
    }

    /// This combination plus `coefficient` times `variable`.
    pub fn add_term(self, coefficient: FieldElement, variable: Variable) -> (r:
        LinearCombination)
        ensures
            r@ == self@.push((variable, coefficient@)),
    {
        let mut terms = self.terms;
        terms.push((variable, coefficient));
        LinearCombination { terms }
    }

    /// This combination plus `variable`.
    pub fn add_variable(self, variable: Variable) -> (r: LinearCombination)
        ensures
            r@ == self@.push((variable, 1nat)),
    {
        self.add_term(FieldElement::one(), variable)
    }

    /// This combination minus `variable`.
    pub fn sub_variable(self, variable: Variable) -> (r: LinearCombination)
        ensures
            r@ == self@.push((variable, field_neg(1))),
    {
        let mut coefficient = FieldElement::one();
        coefficient.negate();
        self.add_term(coefficient, variable)
    }

    /// The number of terms.
    pub fn len(&self) -> (n: usize)
        ensures
            n == self@.len(),
    {
        self.terms.len()
    }

    /// The term at position `index`: its variable and its coefficient.
    pub fn term(&self, index: usize) -> (t: (Variable, FieldElement))
        requires
            index < self@.len(),
        ensures
            (t.0, t.1@) == self@[index as int],
    {
        self.terms[index]
    }
}

/// A constraint `a * b = c` between three linear combinations.
pub struct Constraint {
    pub a: LinearCombination,
    pub b: LinearCombination,
    pub c: LinearCombination,
}

impl View for Constraint {
    type V = ConstraintModel;

    open spec fn view(&self) -> ConstraintModel {
        ConstraintModel { a: self.a@, b: self.b@, c: self.c@ }
    }
}

/// The value that an allocation was made with, if any.
pub open spec fn value_of(assignment: Option<FieldElement>) -> Option<nat> {
    match assignment {
        Some(e) => Some(e@),
        None => None,
    }
}

/// A constraint system that records what a circuit allocates and enforces.
///
/// A strict system refuses an allocation without a value, as a prover does; one that is
/// not strict accepts it, as the generation of parameters does.
pub struct ConstraintSystem {
    strict: bool,
    inputs: Vec<Option<FieldElement>>,
    aux: Vec<Option<FieldElement>>,
    constraints: Vec<Constraint>,
}

impl View for ConstraintSystem {
    type V = SystemModel;

    closed spec fn view(&self) -> SystemModel {
        SystemModel {
            strict: self.strict,
            inputs: self.inputs@.map_values(|o: Option<FieldElement>| value_of(o)),
            aux: self.aux@.map_values(|o: Option<FieldElement>| value_of(o)),
            constraints: self.constraints@.map_values(|c: Constraint| c@),
        }
    }
}

impl ConstraintSystem {
    /// A system that holds the constant one and nothing else.
    pub fn new(strict: bool) -> (r: ConstraintSystem)
        ensures
            r@ == SystemModel::fresh(strict),
            r@.wf(),
    {
        let mut inputs: Vec<Option<FieldElement>> = Vec::new();
        inputs.push(Some(FieldElement::one()));
        ConstraintSystem { strict, inputs, aux: Vec::new(), constraints: Vec::new() }
    }

    /// The variable that stands for the constant one.
    pub fn one() -> (r: Variable)
        ensures
            r == Variable::Input(0),
    {
        Variable::Input(0)
    }

    /// Allocates a private variable with the given value, if there is one.
    ///
    /// A strict system refuses an allocation without a value and stays as it was.
    pub fn allocate(&mut self, value: Option<FieldElement>) -> (r: Result<
        Variable,
        SynthesisError,
    >)
        requires
            old(self)@.wf(),
        ensures
            final(self)@.wf(),
            r is Ok <==> (value is Some || !old(self)@.strict),
            r matches Ok(v) ==> v == Variable::Aux(old(self)@.aux.len() as usize)
                && final(self)@ == old(self)@.with_aux(value_of(value)),
            r matches Err(e) ==> e == SynthesisError::AssignmentMissing
                && final(self)@ == old(self)@,
    {
        if self.strict && value.is_none() {
            return Err(SynthesisError::AssignmentMissing);
        }
        if let Some(e) = value {
            proof {
                use_type_invariant(&e);
            }
        }
        let index = self.aux.len();
        self.aux.push(value);
        proof {
            assert(self.aux@.len() == self.aux.len());
            assert(self@.aux =~= old(self)@.aux.push(value_of(value)));
            assert(self@ == old(self)@.with_aux(value_of(value)));
            old(self)@.lemma_allocation_keeps_wf(value_of(value));
        }
        Ok(Variable::Aux(index))
    }

    /// Allocates a public input with the given value, if there is one.
    ///
    /// A strict system refuses an allocation without a value and stays as it was.
    pub fn allocate_public_input(&mut self, value: Option<FieldElement>) -> (r: Result<
        Variable,
        SynthesisError,
    >)
        requires
            old(self)@.wf(),
        ensures
            final(self)@.wf(),
            r is Ok <==> (value is Some || !old(self)@.strict),
            r matches Ok(v) ==> v == Variable::Input(old(self)@.inputs.len() as usize)
                && final(self)@ == old(self)@.with_input(value_of(value)),
            r matches Err(e) ==> e == SynthesisError::AssignmentMissing
                && final(self)@ == old(self)@,
    {
        if self.strict && value.is_none() {
            return Err(SynthesisError::AssignmentMissing);
        }
        if let Some(e) = value {
            proof {
                use_type_invariant(&e);
            }
        }
        let index = self.inputs.len();
        self.inputs.push(value);
        proof {
            assert(self.inputs@.len() == self.inputs.len());
            assert(self@.inputs =~= old(self)@.inputs.push(value_of(value)));
            assert(self@ == old(self)@.with_input(value_of(value)));
            old(self)@.lemma_allocation_keeps_wf(value_of(value));
        }
        Ok(Variable::Input(index))
    }

    /// Enforces that `a * b = c`.
    pub fn enforce(&mut self, a: LinearCombination, b: LinearCombination, c: LinearCombination)
        requires
            old(self)@.wf(),
            old(self)@.covers(a@),
            old(self)@.covers(b@),
            old(self)@.covers(c@),
        ensures
            final(self)@.wf(),
            final(self)@ == old(self)@.with_constraint((ConstraintModel { a: a@, b: b@, c: c@ })),
    {
        self.constraints.push(Constraint { a, b, c });
        proof {
            let constraint = ConstraintModel { a: a@, b: b@, c: c@ };
            assert(self@.constraints =~= old(self)@.constraints.push(constraint));
            assert(self@ == old(self)@.with_constraint(constraint));
        }
    }

    /// The value of a variable, if it has been allocated with one.
    pub fn value(&self, variable: Variable) -> (v: Option<FieldElement>)
        ensures
            value_of(v) == self@.value(variable),
    {
        match variable {
            Variable::Input(i) => if i < self.inputs.len() {
                self.inputs[i]
            } else {
                None
            },
            Variable::Aux(i) => if i < self.aux.len() {
                self.aux[i]
            } else {
                None
            },
        }
    }

    /// The value of a linear combination under the values of the system's variables, if
    /// each of its variables has one.
    pub fn evaluate(&self, lc: &LinearCombination) -> (v: Option<FieldElement>)
        ensures
            value_of(v) == self@.evaluate(lc@),
    {
        let mut acc = FieldElement::zero();
        let mut k: usize = 0;
        while k < lc.len()
            invariant
                k <= lc@.len(),
                self@.evaluate(lc@.take(k as int)) == Some(acc@),
            decreases lc@.len() - k,
        {
            let (variable, coefficient) = lc.term(k);
            proof {
                assert(lc@.take(k + 1).drop_last() =~= lc@.take(k as int));
            }
            match self.value(variable) {
                Some(value) => {
                    let mut product = value;
                    product.mul_assign(&coefficient);
                    acc.add_assign(&product);
                },
                None => {
                    proof {
                        self@.lemma_evaluate_stays_none(lc@, k + 1);
                    }
                    return None;
                },
            }
            k = k + 1;
        }
        proof {
            assert(lc@.take(k as int) =~= lc@);
        }
        Some(acc)
    }

    /// Whether the three combinations of the constraint have values and these meet it.
    pub fn holds(&self, constraint: &Constraint) -> (ok: bool)
        ensures
            ok == self@.holds(constraint@),
    {
        match (
            self.evaluate(&constraint.a),
            self.evaluate(&constraint.b),
            self.evaluate(&constraint.c),
        ) {
            (Some(a), Some(b), Some(c)) => {
                let mut product = a;
                product.mul_assign(&b);
                proof {
                    lemma_value_determines_element(product, c);
                }
                product == c
            },
            _ => false,
        }
    }

    /// Whether every variable has a value.
    pub fn is_fully_assigned(&self) -> (ok: bool)
        ensures
            ok == self@.fully_assigned(),
    {
        let mut i: usize = 0;
        while i < self.inputs.len()
            invariant
                i <= self@.inputs.len(),
                forall|j: int| 0 <= j < i ==> (#[trigger] self@.inputs[j]) is Some,
            decreases self@.inputs.len() - i,
        {
            if self.inputs[i].is_none() {
                assert(self@.inputs[i as int] is None);
                return false;
            }
            i = i + 1;
        }
        let mut i: usize = 0;
        while i < self.aux.len()
            invariant
                i <= self@.aux.len(),
                forall|j: int|
                    0 <= j < self@.inputs.len() ==> (#[trigger] self@.inputs[j]) is Some,
                forall|j: int| 0 <= j < i ==> (#[trigger] self@.aux[j]) is Some,
            decreases self@.aux.len() - i,
        {
            if self.aux[i].is_none() {
                assert(self@.aux[i as int] is None);
                return false;
            }
            i = i + 1;
        }
        true
    }

    /// Whether every variable has a value and these values meet every constraint.
    pub fn is_satisfied(&self) -> (ok: bool)
        ensures
            ok == self@.satisfied(),
    {
        if !self.is_fully_assigned() {
            return false;
        }
        let mut k: usize = 0;
        while k < self.constraints.len()
            invariant
                k <= self@.constraints.len(),
                self@.fully_assigned(),
                forall|j: int| 0 <= j < k ==> self@.holds(#[trigger] self@.constraints[j]),
            decreases self@.constraints.len() - k,
        {
            if !self.holds(&self.constraints[k]) {
                assert(!self@.holds(self@.constraints[k as int]));
                return false;
            }
            k = k + 1;
        }
        true
    }

    /// Whether the system refuses an allocation without a value.
    pub fn is_strict(&self) -> (strict: bool)
        ensures
            strict == self@.strict,
    {
        self.strict
    }

    /// The number of input variables, the constant one among them.
    pub fn num_inputs(&self) -> (n: usize)
        ensures
            n == self@.inputs.len(),
    {
        self.inputs.len()
    }

    /// The number of auxiliary variables.
    pub fn num_aux(&self) -> (n: usize)
        ensures
            n == self@.aux.len(),
    {
        self.aux.len()
    }

    /// The number of constraints.
    pub fn num_constraints(&self) -> (n: usize)
        ensures
            n == self@.constraints.len(),
    {
        self.constraints.len()
    }

    /// The constraint that was enforced as number `index`.
    pub fn constraint(&self, index: usize) -> (constraint: &Constraint)
        requires
            index < self@.constraints.len(),
        ensures
            constraint@ == self@.constraints[index as int],
    {
        &self.constraints[index]
    }
}

} // verus!
