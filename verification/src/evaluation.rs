//! The value of a linear combination under an assignment of field elements
//! to the variables, and what the arithmetic does to it.
//!
//! A constraint says that a linear combination has the value 0 under the
//! witness.

use vstd::prelude::*;
use crate::arithmetic::{is_negation_of, is_scaling_of};
use crate::linear_combination::{coefficient, is_merge_of, mentions};
use crate::laws::law_merge_keeps_coefficients;
use crate::scalar::{
    field_add, field_mul, field_neg, group_order, lemma_field_add_associates,
    lemma_field_add_commutes, lemma_field_add_zero, lemma_field_bounds,
    lemma_field_mul_associates, lemma_field_mul_commutes, lemma_field_mul_distributes,
    lemma_field_mul_neg, lemma_field_neg_add, lemma_field_neg_cancels, Scalar,
};
use crate::variable::Variable;

verus! {

/// The sum, in the field, of the coefficient of each term times the value
/// that the assignment gives to its variable.
pub open spec fn value_under(
    terms: Seq<(Variable, Scalar)>,
    assignment: spec_fn(Variable) -> nat,
) -> nat
    decreases terms.len(),
{
    if terms.len() == 0 {
        0
    } else {
        field_add(
            value_under(terms.drop_last(), assignment),
            field_mul(terms.last().1@, assignment(terms.last().0)),
        )
    }
}

/// The value is a field element.
pub proof fn lemma_value_bound(terms: Seq<(Variable, Scalar)>, assignment: spec_fn(Variable) -> nat)
    ensures
        value_under(terms, assignment) < group_order(),
{
    if terms.len() > 0 {
        lemma_field_bounds(
            value_under(terms.drop_last(), assignment),
            field_mul(terms.last().1@, assignment(terms.last().0)),
        );
    }
}

/// The value of a sum is the sum of the values.
pub proof fn law_value_of_sum(
    a: Seq<(Variable, Scalar)>,
    b: Seq<(Variable, Scalar)>,
    assignment: spec_fn(Variable) -> nat,
)
    ensures
        value_under(a + b, assignment) == field_add(
            value_under(a, assignment),
            value_under(b, assignment),
        ),
    decreases b.len(),
{
    lemma_value_bound(a, assignment);
    if b.len() == 0 {
        assert(a + b =~= a);
        lemma_field_add_zero(value_under(a, assignment));
    } else {
        let rest = b.drop_last();
        assert((a + b).drop_last() =~= a + rest);
        assert((a + b).last() == b.last());
        law_value_of_sum(a, rest, assignment);
        lemma_field_add_associates(
            value_under(a, assignment),
            value_under(rest, assignment),
            field_mul(b.last().1@, assignment(b.last().0)),
        );
    }
}

/// The value of the negation is the inverse of the value.
pub proof fn law_value_of_negation(
    negated: Seq<(Variable, Scalar)>,
    terms: Seq<(Variable, Scalar)>,
    assignment: spec_fn(Variable) -> nat,
)
    requires
        is_negation_of(negated, terms),
    ensures
        value_under(negated, assignment) == field_neg(value_under(terms, assignment)),
    decreases terms.len(),
{
    if terms.len() == 0 {
        lemma_field_add_zero(0);
    } else {
        let n = terms.len() - 1;
        let rest = terms.drop_last();
        let negated_rest = negated.drop_last();
        assert forall|i: int| 0 <= i < rest.len() implies {
            &&& (#[trigger] negated_rest[i]).0 == rest[i].0
            &&& negated_rest[i].1.encoded() == field_neg(rest[i].1@)
        } by {
            assert(negated_rest[i] == negated[i]);
        }
        law_value_of_negation(negated_rest, rest, assignment);
        assert(negated.last() == negated[n]);
        let c = terms[n].1@;
        let x = assignment(terms[n].0);
        lemma_field_bounds(c, 0);
        negated[n].1.lemma_view();
        lemma_field_mul_neg(c, x);
        lemma_field_neg_add(value_under(rest, assignment), field_mul(c, x));
    }
}

/// The value of the scaled terms is the value times the factor.
pub proof fn law_value_of_scaling(
    scaled: Seq<(Variable, Scalar)>,
    terms: Seq<(Variable, Scalar)>,
    factor: nat,
    assignment: spec_fn(Variable) -> nat,
)
    requires
        is_scaling_of(scaled, terms, factor),
    ensures
        value_under(scaled, assignment) == field_mul(value_under(terms, assignment), factor),
    decreases terms.len(),
{
    if terms.len() == 0 {
        lemma_field_mul_distributes(0, 0, factor);
    } else {
        let n = terms.len() - 1;
        let rest = terms.drop_last();
        let scaled_rest = scaled.drop_last();
        assert forall|i: int| 0 <= i < rest.len() implies {
            &&& (#[trigger] scaled_rest[i]).0 == rest[i].0
            &&& scaled_rest[i].1.encoded() == field_mul(rest[i].1@, factor)
        } by {
            assert(scaled_rest[i] == scaled[i]);
        }
        law_value_of_scaling(scaled_rest, rest, factor, assignment);
        assert(scaled.last() == scaled[n]);
        let c = terms[n].1@;
        let x = assignment(terms[n].0);
        lemma_field_bounds(c, factor);
        scaled[n].1.lemma_view();
        lemma_field_mul_associates(c, factor, x);
        lemma_field_mul_commutes(factor, x);
        lemma_field_mul_associates(c, x, factor);
        lemma_field_mul_distributes(value_under(rest, assignment), field_mul(c, x), factor);
    }
}

/// A linear combination minus itself has the value 0 under every
/// assignment.
pub proof fn law_value_of_difference(
    terms: Seq<(Variable, Scalar)>,
    negated: Seq<(Variable, Scalar)>,
    assignment: spec_fn(Variable) -> nat,
)
    requires
        is_negation_of(negated, terms),
    ensures
        value_under(terms + negated, assignment) == 0,
{
    law_value_of_sum(terms, negated, assignment);
    law_value_of_negation(negated, terms, assignment);
    lemma_field_neg_cancels(value_under(terms, assignment));
}

/// One more term raises the value by the value of that term: where the
/// terms had the value 0, the value is now the coefficient of the new term
/// times the value of its variable.
pub proof fn law_value_with_one_more_term(
    terms: Seq<(Variable, Scalar)>,
    v: Variable,
    c: Scalar,
    assignment: spec_fn(Variable) -> nat,
)
    ensures
        value_under(terms + seq![(v, c)], assignment) == field_add(
            value_under(terms, assignment),
            field_mul(c@, assignment(v)),
        ),
        value_under(terms, assignment) == 0 ==> value_under(terms + seq![(v, c)], assignment)
            == field_mul(c@, assignment(v)),
{
    let more = terms + seq![(v, c)];
    assert(more.drop_last() =~= terms);
    assert(more.last() == (v, c));
    lemma_field_bounds(c@, assignment(v));
    lemma_field_add_zero(field_mul(c@, assignment(v)));
}

/// The terms without those of one variable.
spec fn without_variable(terms: Seq<(Variable, Scalar)>, v: Variable) -> Seq<(Variable, Scalar)>
    decreases terms.len(),
{
    if terms.len() == 0 {
        terms
    } else if terms.last().0 == v {
        without_variable(terms.drop_last(), v)
    } else {
        without_variable(terms.drop_last(), v).push(terms.last())
    }
}

/// Taking the terms of a variable out shortens the list if there are any.
proof fn lemma_without_variable_len(terms: Seq<(Variable, Scalar)>, v: Variable)
    ensures
        without_variable(terms, v).len() <= terms.len(),
        mentions(terms, v) ==> without_variable(terms, v).len() < terms.len(),
    decreases terms.len(),
{
    if terms.len() > 0 {
        let rest = terms.drop_last();
        lemma_without_variable_len(rest, v);
        if terms.last().0 != v && mentions(terms, v) {
            let i = choose|i: int| 0 <= i < terms.len() && (#[trigger] terms[i]).0 == v;
            assert(rest[i].0 == v);
        }
    }
}

/// Taking the terms of a variable out brings its coefficient to 0 and
/// leaves the other coefficients alone.
proof fn lemma_without_variable_coefficient(
    terms: Seq<(Variable, Scalar)>,
    v: Variable,
    u: Variable,
)
    ensures
        coefficient(without_variable(terms, v), u) == if u == v {
            0
        } else {
            coefficient(terms, u)
        },
    decreases terms.len(),
{
    if terms.len() > 0 {
        let rest = terms.drop_last();
        lemma_without_variable_coefficient(rest, v, u);
        if terms.last().0 != v {
            let kept = without_variable(rest, v).push(terms.last());
            assert(kept.drop_last() =~= without_variable(rest, v));
            assert(kept.last() == terms.last());
        }
    }
}

/// The value is the value of the terms of the other variables plus the
/// coefficient of the variable times its value.
proof fn lemma_value_apart(
    terms: Seq<(Variable, Scalar)>,
    v: Variable,
    assignment: spec_fn(Variable) -> nat,
)
    ensures
        value_under(terms, assignment) == field_add(
            value_under(without_variable(terms, v), assignment),
            field_mul(coefficient(terms, v), assignment(v)),
        ),
    decreases terms.len(),
{
    if terms.len() == 0 {
        lemma_field_mul_distributes(0, 0, assignment(v));
    } else {
        let rest = terms.drop_last();
        let last = terms.last();
        let others = value_under(without_variable(rest, v), assignment);
        let own = field_mul(coefficient(rest, v), assignment(v));
        let x = field_mul(last.1@, assignment(last.0));
        lemma_value_apart(rest, v, assignment);
        if last.0 == v {
            lemma_field_add_associates(others, own, x);
            lemma_field_mul_distributes(coefficient(rest, v), last.1@, assignment(v));
        } else {
            let kept = without_variable(rest, v).push(last);
            assert(kept.drop_last() =~= without_variable(rest, v));
            assert(kept.last() == last);
            lemma_field_add_associates(others, own, x);
            lemma_field_add_commutes(own, x);
            lemma_field_add_associates(others, x, own);
        }
    }
}

/// Terms that give every variable the same coefficient have the same value
/// under every assignment.
pub proof fn law_value_of_equal_coefficients(
    a: Seq<(Variable, Scalar)>,
    b: Seq<(Variable, Scalar)>,
    assignment: spec_fn(Variable) -> nat,
)
    requires
        forall|v: Variable| coefficient(a, v) == coefficient(b, v),
    ensures
        value_under(a, assignment) == value_under(b, assignment),
    decreases a.len() + b.len(),
{
    if a.len() + b.len() > 0 {
        let v = if a.len() > 0 {
            a[0].0
        } else {
            b[0].0
        };
        let a_rest = without_variable(a, v);
        let b_rest = without_variable(b, v);
        if a.len() > 0 {
            assert(mentions(a, a[0].0));
        } else {
            assert(mentions(b, b[0].0));
        }
        lemma_without_variable_len(a, v);
        lemma_without_variable_len(b, v);
        assert forall|u: Variable| coefficient(a_rest, u) == coefficient(b_rest, u) by {
            lemma_without_variable_coefficient(a, v, u);
            lemma_without_variable_coefficient(b, v, u);
        }
        law_value_of_equal_coefficients(a_rest, b_rest, assignment);
        lemma_value_apart(a, v, assignment);
        lemma_value_apart(b, v, assignment);
    }
}

/// Merging changes the value under no assignment.
pub proof fn law_merge_keeps_value(
    terms: Seq<(Variable, Scalar)>,
    merged: Seq<(Variable, Scalar)>,
    assignment: spec_fn(Variable) -> nat,
)
    requires
        is_merge_of(merged, terms),
    ensures
        value_under(merged, assignment) == value_under(terms, assignment),
{
    assert forall|v: Variable| coefficient(merged, v) == coefficient(terms, v) by {
        law_merge_keeps_coefficients(terms, merged, v);
    }
    law_value_of_equal_coefficients(merged, terms, assignment);
}

} // verus!
