//! Arithmetic on variables, scalars and linear combinations.
//!
//! Every operation yields a linear combination and works on the list of
//! terms alone: sums append, negation and scaling go term by term, and
//! nothing is merged. `LinearCombination::simplify` merges.

use vstd::prelude::*;
use crate::linear_combination::{is_single_term, LinearCombination};
use crate::scalar::{field_mul, field_neg, Scalar};
use crate::variable::Variable;
use core::ops::{Add, Mul, Neg, Sub};
use vstd::std_specs::ops::{AddSpecImpl, MulSpecImpl, NegSpecImpl, SubSpecImpl};

verus! {

/// `negated` has the terms of `terms`, each with the canonical scalar of
/// the additive inverse of its coefficient.
pub open spec fn is_negation_of(
    negated: Seq<(Variable, Scalar)>,
    terms: Seq<(Variable, Scalar)>,
) -> bool {
    &&& negated.len() == terms.len()
    &&& forall|i: int|
        0 <= i < terms.len() ==> {
            &&& (#[trigger] negated[i]).0 == terms[i].0
            &&& negated[i].1.encoded() == field_neg(terms[i].1@)
        }
}

/// `scaled` has the terms of `terms`, each with the canonical scalar of its
/// coefficient times `factor`.
pub open spec fn is_scaling_of(
    scaled: Seq<(Variable, Scalar)>,
    terms: Seq<(Variable, Scalar)>,
    factor: nat,
) -> bool {
    &&& scaled.len() == terms.len()
    &&& forall|i: int|
        0 <= i < terms.len() ==> {
            &&& (#[trigger] scaled[i]).0 == terms[i].0
            &&& scaled[i].1.encoded() == field_mul(terms[i].1@, factor)
        }
}

/// Every coefficient is canonical: its bytes encode the field element
/// itself.
pub open spec fn all_canonical(terms: Seq<(Variable, Scalar)>) -> bool {
    forall|i: int| 0 <= i < terms.len() ==> (#[trigger] terms[i]).1.is_canonical()
}

/// Negates the coefficient of every term.
fn negate_terms(terms: Vec<(Variable, Scalar)>) -> (negated: Vec<(Variable, Scalar)>)
    ensures
        is_negation_of(negated@, terms@),
{
    let mut negated = terms;
    let mut i: usize = 0;
    while i < negated.len()
        invariant
            i <= negated.len(),
            negated@.len() == terms@.len(),
            forall|j: int|
                0 <= j < i ==> {
                    &&& (#[trigger] negated@[j]).0 == terms@[j].0
                    &&& negated@[j].1.encoded() == field_neg(terms@[j].1@)
                },
            forall|j: int| i <= j < negated@.len() ==> negated@[j] == terms@[j],
        decreases negated.len() - i,
    {
        let (var, coeff) = negated[i];
        negated[i] = (var, coeff.neg());
        i += 1;
    }
    negated
}

/// Multiplies the coefficient of every term by `factor`.
fn scale_terms(terms: Vec<(Variable, Scalar)>, factor: Scalar) -> (scaled: Vec<(Variable, Scalar)>)
    ensures
        is_scaling_of(scaled@, terms@, factor@),
{
    let mut scaled = terms;
    let mut i: usize = 0;
    while i < scaled.len()
        invariant
            i <= scaled.len(),
            scaled@.len() == terms@.len(),
            forall|j: int|
                0 <= j < i ==> {
                    &&& (#[trigger] scaled@[j]).0 == terms@[j].0
                    &&& scaled@[j].1.encoded() == field_mul(terms@[j].1@, factor@)
                },
            forall|j: int| i <= j < scaled@.len() ==> scaled@[j] == terms@[j],
        decreases scaled.len() - i,
    {
        let (var, coeff) = scaled[i];
        scaled[i] = (var, coeff * factor);
        i += 1;
    }
    scaled
}

impl Neg for LinearCombination {
    type Output = LinearCombination;

    /// The linear combination with every coefficient negated.
    fn neg(self) -> (r: LinearCombination)
        ensures
            is_negation_of(r@, self@),
    {
        LinearCombination::from_terms(negate_terms(self.get_terms()))
    }
}

/// The contract stands on the method itself, as its `ensures`.
impl NegSpecImpl for LinearCombination {
    open spec fn obeys_neg_spec() -> bool {
        false
    }

    open spec fn neg_req(self) -> bool {
        true
    }

    open spec fn neg_spec(self) -> LinearCombination {
        arbitrary()
    }
}

impl<L: Into<LinearCombination>> Add<L> for LinearCombination {
    type Output = LinearCombination;

    /// The terms of `self` followed by the terms of what `rhs` converts to.
    fn add(self, rhs: L) -> (r: LinearCombination)
        ensures
            exists|other: LinearCombination| #[trigger]
                call_ensures(L::into, (rhs,), other) && r@ == self@ + other@,
    {
        let other: LinearCombination = rhs.into();
        let mut terms = self.get_terms();
        let mut added = other.get_terms();
        terms.append(&mut added);
        LinearCombination::from_terms(terms)
    }
}

/// The contract stands on the method itself, as its `ensures`.
impl<L: Into<LinearCombination>> AddSpecImpl<L> for LinearCombination {
    open spec fn obeys_add_spec() -> bool {
        false
    }

    open spec fn add_req(self, rhs: L) -> bool {
        true
    }

    open spec fn add_spec(self, rhs: L) -> LinearCombination {
        arbitrary()
    }
}

impl<L: Into<LinearCombination>> Sub<L> for LinearCombination {
    type Output = LinearCombination;

    /// The terms of `self` followed by the negated terms of what `rhs`
    /// converts to.
    fn sub(self, rhs: L) -> (r: LinearCombination)
        ensures
            exists|other: LinearCombination, negated: Seq<(Variable, Scalar)>|
                {
                    &&& #[trigger] call_ensures(L::into, (rhs,), other)
                    &&& #[trigger] is_negation_of(negated, other@)
                    &&& r@ == self@ + negated
                },
    {
        let other: LinearCombination = rhs.into();
        let mut terms = self.get_terms();
        let mut negated = negate_terms(other.get_terms());
        terms.append(&mut negated);
        LinearCombination::from_terms(terms)
    }
}

/// The contract stands on the method itself, as its `ensures`.
impl<L: Into<LinearCombination>> SubSpecImpl<L> for LinearCombination {
    open spec fn obeys_sub_spec() -> bool {
        false
    }

    open spec fn sub_req(self, rhs: L) -> bool {
        true
    }

    open spec fn sub_spec(self, rhs: L) -> LinearCombination {
        arbitrary()
    }
}

impl<S: Into<Scalar>> Mul<S> for LinearCombination {
    type Output = LinearCombination;

    /// The linear combination with every coefficient multiplied by the
    /// scalar that `other` converts to.
    fn mul(self, other: S) -> (r: LinearCombination)
        ensures
            exists|factor: Scalar| #[trigger]
                call_ensures(S::into, (other,), factor) && is_scaling_of(r@, self@, factor@),
    {
        let factor: Scalar = other.into();
        LinearCombination::from_terms(scale_terms(self.get_terms(), factor))
    }
}

/// The contract stands on the method itself, as its `ensures`.
impl<S: Into<Scalar>> MulSpecImpl<S> for LinearCombination {
    open spec fn obeys_mul_spec() -> bool {
        false
    }

    open spec fn mul_req(self, other: S) -> bool {
        true
    }

    open spec fn mul_spec(self, other: S) -> LinearCombination {
        arbitrary()
    }
}

impl Mul<LinearCombination> for Scalar {
    type Output = LinearCombination;

    /// The linear combination with every coefficient multiplied by the
    /// scalar.
    fn mul(self, other: LinearCombination) -> (r: LinearCombination)
        ensures
            is_scaling_of(r@, other@, self@),
    {
        LinearCombination::from_terms(scale_terms(other.get_terms(), self))
    }
}

/// The contract stands on the method itself, as its `ensures`.
impl MulSpecImpl<LinearCombination> for Scalar {
    open spec fn obeys_mul_spec() -> bool {
        false
    }

    open spec fn mul_req(self, other: LinearCombination) -> bool {
        true
    }

    open spec fn mul_spec(self, other: LinearCombination) -> LinearCombination {
        arbitrary()
    }
}

impl Neg for Variable {
    type Output = LinearCombination;

    /// The one term `-1 * self`.
    fn neg(self) -> (r: LinearCombination)
        ensures
            is_single_term(r@, self, field_neg(1)),
    {
        LinearCombination::from(self).neg()
    }
}

/// The contract stands on the method itself, as its `ensures`.
impl NegSpecImpl for Variable {
    open spec fn obeys_neg_spec() -> bool {
        false
    }

    open spec fn neg_req(self) -> bool {
        true
    }

    open spec fn neg_spec(self) -> LinearCombination {
        arbitrary()
    }
}

impl<L: Into<LinearCombination>> Add<L> for Variable {
    type Output = LinearCombination;

    /// The term `1 * self` followed by the terms of what `other` converts
    /// to.
    fn add(self, other: L) -> (r: LinearCombination)
        ensures
            exists|rhs: LinearCombination, head: Seq<(Variable, Scalar)>|
                {
                    &&& #[trigger] call_ensures(L::into, (other,), rhs)
                    &&& #[trigger] is_single_term(head, self, 1)
                    &&& r@ == head + rhs@
                },
    {
        let rhs: LinearCombination = other.into();
        let mut terms = LinearCombination::from(self).get_terms();
        let ghost head = terms@;
        let mut added = rhs.get_terms();
        terms.append(&mut added);
        let r = LinearCombination::from_terms(terms);
        assert(call_ensures(L::into, (other,), rhs) && is_single_term(head, self, 1) && r@ == head
            + rhs@);
        r
    }
}

/// The contract stands on the method itself, as its `ensures`.
impl<L: Into<LinearCombination>> AddSpecImpl<L> for Variable {
    open spec fn obeys_add_spec() -> bool {
        false
    }

    open spec fn add_req(self, other: L) -> bool {
        true
    }

    open spec fn add_spec(self, other: L) -> LinearCombination {
        arbitrary()
    }
}

impl<L: Into<LinearCombination>> Sub<L> for Variable {
    type Output = LinearCombination;

    /// The term `1 * self` followed by the negated terms of what `other`
    /// converts to.
    fn sub(self, other: L) -> (r: LinearCombination)
        ensures
            exists|rhs: LinearCombination, head: Seq<(Variable, Scalar)>, negated: Seq<
                (Variable, Scalar),
            >|
                {
                    &&& #[trigger] call_ensures(L::into, (other,), rhs)
                    &&& #[trigger] is_single_term(head, self, 1)
                    &&& #[trigger] is_negation_of(negated, rhs@)
                    &&& r@ == head + negated
                },
    {
        let rhs: LinearCombination = other.into();
        let mut terms = LinearCombination::from(self).get_terms();
        let ghost head = terms@;
        let mut negated = negate_terms(rhs.get_terms());
        let ghost tail = negated@;
        terms.append(&mut negated);
        let r = LinearCombination::from_terms(terms);
        assert(call_ensures(L::into, (other,), rhs) && is_single_term(head, self, 1)
            && is_negation_of(tail, rhs@) && r@ == head + tail);
        r
    }
}

/// The contract stands on the method itself, as its `ensures`.
impl<L: Into<LinearCombination>> SubSpecImpl<L> for Variable {
    open spec fn obeys_sub_spec() -> bool {
        false
    }

    open spec fn sub_req(self, other: L) -> bool {
        true
    }

    open spec fn sub_spec(self, other: L) -> LinearCombination {
        arbitrary()
    }
}

impl<S: Into<Scalar>> Mul<S> for Variable {
    type Output = LinearCombination;

    /// The one term `c * self`, where `c` is the scalar that `other`
    /// converts to.
    fn mul(self, other: S) -> (r: LinearCombination)
        ensures
            exists|c: Scalar| #[trigger]
                call_ensures(S::into, (other,), c) && r@ == seq![(self, c)],
    {
        let c: Scalar = other.into();
        let mut terms: Vec<(Variable, Scalar)> = Vec::new();
        terms.push((self, c));
        assert(terms@ =~= seq![(self, c)]);
        LinearCombination::from_terms(terms)
    }
}

/// The contract stands on the method itself, as its `ensures`.
impl<S: Into<Scalar>> MulSpecImpl<S> for Variable {
    open spec fn obeys_mul_spec() -> bool {
        false
    }

    open spec fn mul_req(self, other: S) -> bool {
        true
    }

    open spec fn mul_spec(self, other: S) -> LinearCombination {
        arbitrary()
    }
}

impl Add<Variable> for Scalar {
    type Output = LinearCombination;

    /// The constant term `self * One()` followed by the term `1 * other`.
    fn add(self, other: Variable) -> (r: LinearCombination)
        ensures
            r@.len() == 2,
            r@[0] == (Variable::One(), self),
            r@[1].0 == other,
            r@[1].1.encoded() == 1,
    {
        let mut terms: Vec<(Variable, Scalar)> = Vec::new();
        terms.push((Variable::One(), self));
        terms.push((other, Scalar::one()));
        LinearCombination::from_terms(terms)
    }
}

/// The contract stands on the method itself, as its `ensures`.
impl AddSpecImpl<Variable> for Scalar {
    open spec fn obeys_add_spec() -> bool {
        false
    }

    open spec fn add_req(self, other: Variable) -> bool {
        true
    }

    open spec fn add_spec(self, other: Variable) -> LinearCombination {
        arbitrary()
    }
}

impl Sub<Variable> for Scalar {
    type Output = LinearCombination;

    /// The constant term `self * One()` followed by the term `-1 * other`.
    fn sub(self, other: Variable) -> (r: LinearCombination)
        ensures
            r@.len() == 2,
            r@[0] == (Variable::One(), self),
            r@[1].0 == other,
            r@[1].1.encoded() == field_neg(1),
    {
        let mut terms: Vec<(Variable, Scalar)> = Vec::new();
        terms.push((Variable::One(), self));
        terms.push((other, Scalar::one().neg()));
        LinearCombination::from_terms(terms)
    }
}

/// The contract stands on the method itself, as its `ensures`.
impl SubSpecImpl<Variable> for Scalar {
    open spec fn obeys_sub_spec() -> bool {
        false
    }

    open spec fn sub_req(self, other: Variable) -> bool {
        true
    }

    open spec fn sub_spec(self, other: Variable) -> LinearCombination {
        arbitrary()
    }
}

impl Mul<Variable> for Scalar {
    type Output = LinearCombination;

    /// The one term `self * other`.
    fn mul(self, other: Variable) -> (r: LinearCombination)
        ensures
            r@ == seq![(other, self)],
    {
        let mut terms: Vec<(Variable, Scalar)> = Vec::new();
        terms.push((other, self));
        assert(terms@ =~= seq![(other, self)]);
        LinearCombination::from_terms(terms)
    }
}

/// The contract stands on the method itself, as its `ensures`.
impl MulSpecImpl<Variable> for Scalar {
    open spec fn obeys_mul_spec() -> bool {
        false
    }

    open spec fn mul_req(self, other: Variable) -> bool {
        true
    }

    open spec fn mul_spec(self, other: Variable) -> LinearCombination {
        arbitrary()
    }
}

} // verus!
