//! The laws of the algebra: what merging, negation and scaling do to the
//! coefficient of each variable, and that merging does not depend on the
//! order of the terms.

use vstd::prelude::*;
use crate::arithmetic::{all_canonical, is_negation_of, is_scaling_of};
use crate::linear_combination::{
    coefficient, is_merge_of, lemma_coefficient_bound, lemma_coefficient_unmentioned, mentions,
    strictly_ascending,
};
use crate::scalar::{
    field_add, field_mul, field_neg, lemma_field_add_associates, lemma_field_add_zero,
    lemma_field_bounds, lemma_field_mul_distributes, lemma_field_neg_add,
    lemma_field_add_commutes, lemma_field_mul_one, lemma_field_neg_cancels,
    lemma_field_neg_twice, Scalar,
};
use crate::variable::Variable;

verus! {

/// A sum mentions the variables that one of its two parts mentions.
pub proof fn lemma_mentions_of_sum(
    a: Seq<(Variable, Scalar)>,
    b: Seq<(Variable, Scalar)>,
    v: Variable,
)
    ensures
        mentions(a + b, v) <==> mentions(a, v) || mentions(b, v),
{
    let sum = a + b;
    if mentions(sum, v) {
        let i = choose|i: int| 0 <= i < sum.len() && (#[trigger] sum[i]).0 == v;
        if i < a.len() {
            assert(a[i].0 == v);
        } else {
            assert(b[i - a.len()].0 == v);
        }
    }
    if mentions(a, v) {
        let i = choose|i: int| 0 <= i < a.len() && (#[trigger] a[i]).0 == v;
        assert(sum[i].0 == v);
    }
    if mentions(b, v) {
        let i = choose|i: int| 0 <= i < b.len() && (#[trigger] b[i]).0 == v;
        assert(sum[a.len() + i].0 == v);
    }
}

/// The coefficient of a variable in a sum is the sum of its coefficients in
/// the two parts.
pub proof fn lemma_coefficient_of_sum(
    a: Seq<(Variable, Scalar)>,
    b: Seq<(Variable, Scalar)>,
    v: Variable,
)
    ensures
        coefficient(a + b, v) == field_add(coefficient(a, v), coefficient(b, v)),
    decreases b.len(),
{
    lemma_coefficient_bound(a, v);
    if b.len() == 0 {
        assert(a + b =~= a);
        lemma_field_add_zero(coefficient(a, v));
    } else {
        let rest = b.drop_last();
        assert((a + b).drop_last() =~= a + rest);
        assert((a + b).last() == b.last());
        lemma_coefficient_of_sum(a, rest, v);
        if b.last().0 == v {
            lemma_field_add_associates(coefficient(a, v), coefficient(rest, v), b.last().1@);
        }
    }
}

/// Negation negates the coefficient of every variable.
pub proof fn lemma_coefficient_of_negation(
    negated: Seq<(Variable, Scalar)>,
    terms: Seq<(Variable, Scalar)>,
    v: Variable,
)
    requires
        is_negation_of(negated, terms),
    ensures
        coefficient(negated, v) == field_neg(coefficient(terms, v)),
    decreases terms.len(),
{
    if terms.len() == 0 {
        lemma_field_add_zero(0);
    } else {
        let n = terms.len() - 1;
        let rest = terms.drop_last();
        let negated_rest = negated.drop_last();
        assert forall|i: int| 0 <= i < rest.len() implies {
            &&& (#[trigger] negated_rest[i]).0 == rest[i].0
            &&& negated_rest[i].1.encoded() == field_neg(rest[i].1@)
        } by {
            assert(negated_rest[i] == negated[i]);
        }
        lemma_coefficient_of_negation(negated_rest, rest, v);
        assert(negated.last() == negated[n]);
        if terms.last().0 == v {
            lemma_field_bounds(terms[n].1@, 0);
            negated[n].1.lemma_view();
            lemma_field_neg_add(coefficient(rest, v), terms[n].1@);
        }
    }
}

/// Scaling multiplies the coefficient of every variable by the factor.
pub proof fn lemma_coefficient_of_scaling(
    scaled: Seq<(Variable, Scalar)>,
    terms: Seq<(Variable, Scalar)>,
    factor: nat,
    v: Variable,
)
    requires
        is_scaling_of(scaled, terms, factor),
    ensures
        coefficient(scaled, v) == field_mul(coefficient(terms, v), factor),
    decreases terms.len(),
{
    if terms.len() == 0 {
        lemma_field_mul_distributes(0, 0, factor);
    } else {
        let n = terms.len() - 1;
        let rest = terms.drop_last();
        let scaled_rest = scaled.drop_last();
        assert forall|i: int| 0 <= i < rest.len() implies {
            &&& (#[trigger] scaled_rest[i]).0 == rest[i].0
            &&& scaled_rest[i].1.encoded() == field_mul(rest[i].1@, factor)
        } by {
            assert(scaled_rest[i] == scaled[i]);
        }
        lemma_coefficient_of_scaling(scaled_rest, rest, factor, v);
        assert(scaled.last() == scaled[n]);
        if terms.last().0 == v {
            lemma_field_bounds(terms[n].1@, factor);
            scaled[n].1.lemma_view();
            lemma_field_mul_distributes(coefficient(rest, v), terms[n].1@, factor);
        }
    }
}

/// Merging a sum groups by variable and adds up: the merged terms are those
/// of the variables that either part mentions, and the coefficient of each
/// is the sum of its coefficients in the two parts.
pub proof fn law_merge_of_sum(
    a: Seq<(Variable, Scalar)>,
    b: Seq<(Variable, Scalar)>,
    merged: Seq<(Variable, Scalar)>,
)
    requires
        is_merge_of(merged, a + b),
    ensures
        strictly_ascending(merged),
        forall|v: Variable| mentions(merged, v) <==> mentions(a, v) || mentions(b, v),
        forall|i: int|
            0 <= i < merged.len() ==> (#[trigger] merged[i]).1.encoded() == field_add(
                coefficient(a, merged[i].0),
                coefficient(b, merged[i].0),
            ),
{
    assert forall|v: Variable| mentions(merged, v) <==> mentions(a, v) || mentions(b, v) by {
        lemma_mentions_of_sum(a, b, v);
    }
    assert forall|i: int| 0 <= i < merged.len() implies (#[trigger] merged[i]).1.encoded()
        == field_add(coefficient(a, merged[i].0), coefficient(b, merged[i].0)) by {
        lemma_coefficient_of_sum(a, b, merged[i].0);
    }
}

/// Merging a linear combination with its own negation keeps one term for
/// each of its variables, and every coefficient is 0.
pub proof fn law_merge_of_difference(
    a: Seq<(Variable, Scalar)>,
    negated: Seq<(Variable, Scalar)>,
    merged: Seq<(Variable, Scalar)>,
)
    requires
        is_negation_of(negated, a),
        is_merge_of(merged, a + negated),
    ensures
        strictly_ascending(merged),
        forall|v: Variable| mentions(merged, v) <==> mentions(a, v),
        forall|i: int| 0 <= i < merged.len() ==> (#[trigger] merged[i]).1.encoded() == 0,
{
    assert forall|v: Variable| mentions(merged, v) <==> mentions(a, v) by {
        lemma_mentions_of_sum(a, negated, v);
        if mentions(negated, v) {
            let i = choose|i: int| 0 <= i < negated.len() && (#[trigger] negated[i]).0 == v;
            assert(a[i].0 == v);
        }
    }
    assert forall|i: int| 0 <= i < merged.len() implies (#[trigger] merged[i]).1.encoded()
        == 0 by {
        let v = merged[i].0;
        lemma_coefficient_of_sum(a, negated, v);
        lemma_coefficient_of_negation(negated, a, v);
        lemma_field_neg_cancels(coefficient(a, v));
    }
}

/// Negation is determined term by term, so it distributes over a sum: the
/// negation of `a + b` is the negation of `a` followed by that of `b`.
pub proof fn law_negation_distributes(
    a: Seq<(Variable, Scalar)>,
    b: Seq<(Variable, Scalar)>,
    negated_a: Seq<(Variable, Scalar)>,
    negated_b: Seq<(Variable, Scalar)>,
    negated_sum: Seq<(Variable, Scalar)>,
)
    requires
        is_negation_of(negated_a, a),
        is_negation_of(negated_b, b),
        is_negation_of(negated_sum, a + b),
    ensures
        negated_sum == negated_a + negated_b,
{
    let parts = negated_a + negated_b;
    assert forall|i: int| 0 <= i < negated_sum.len() implies negated_sum[i] == parts[i] by {
        if i < a.len() {
            assert(parts[i] == negated_a[i]);
            assert((a + b)[i] == a[i]);
        } else {
            assert(parts[i] == negated_b[i - a.len()]);
            assert((a + b)[i] == b[i - a.len()]);
        }
        negated_sum[i].1.lemma_encoded_injective(parts[i].1);
    }
    assert(negated_sum =~= parts);
}

/// Scaling is determined term by term, so it distributes over a sum: `a + b`
/// scaled by a factor is `a` scaled by it followed by `b` scaled by it.
pub proof fn law_scaling_distributes(
    a: Seq<(Variable, Scalar)>,
    b: Seq<(Variable, Scalar)>,
    factor: nat,
    scaled_a: Seq<(Variable, Scalar)>,
    scaled_b: Seq<(Variable, Scalar)>,
    scaled_sum: Seq<(Variable, Scalar)>,
)
    requires
        is_scaling_of(scaled_a, a, factor),
        is_scaling_of(scaled_b, b, factor),
        is_scaling_of(scaled_sum, a + b, factor),
    ensures
        scaled_sum == scaled_a + scaled_b,
{
    let parts = scaled_a + scaled_b;
    assert forall|i: int| 0 <= i < scaled_sum.len() implies scaled_sum[i] == parts[i] by {
        if i < a.len() {
            assert(parts[i] == scaled_a[i]);
            assert((a + b)[i] == a[i]);
        } else {
            assert(parts[i] == scaled_b[i - a.len()]);
            assert((a + b)[i] == b[i - a.len()]);
        }
        scaled_sum[i].1.lemma_encoded_injective(parts[i].1);
    }
    assert(scaled_sum =~= parts);
}

/// Taking one term out lowers the coefficient of its variable by the
/// coefficient of that term and leaves the other variables alone.
pub proof fn lemma_coefficient_without(terms: Seq<(Variable, Scalar)>, at: int, v: Variable)
    requires
        0 <= at < terms.len(),
    ensures
        coefficient(terms, v) == if terms[at].0 == v {
            field_add(coefficient(terms.remove(at), v), terms[at].1@)
        } else {
            coefficient(terms.remove(at), v)
        },
    decreases terms.len(),
{
    let n = terms.len() - 1;
    if at == n {
        assert(terms.remove(at) =~= terms.drop_last());
    } else {
        let rest = terms.drop_last();
        let without = terms.remove(at);
        assert(without.drop_last() =~= rest.remove(at));
        assert(without.last() == terms.last());
        assert(rest[at] == terms[at]);
        lemma_coefficient_without(rest, at, v);
        if terms[at].0 == v && terms.last().0 == v {
            let c = coefficient(rest.remove(at), v);
            lemma_field_add_associates(c, terms[at].1@, terms.last().1@);
            lemma_field_add_commutes(terms[at].1@, terms.last().1@);
            lemma_field_add_associates(c, terms.last().1@, terms[at].1@);
        }
    }
}

/// The coefficient of a variable does not depend on the order of the terms.
pub proof fn lemma_coefficient_of_reordering(
    a: Seq<(Variable, Scalar)>,
    b: Seq<(Variable, Scalar)>,
    v: Variable,
)
    requires
        a.to_multiset() == b.to_multiset(),
    ensures
        coefficient(a, v) == coefficient(b, v),
    decreases a.len(),
{
    vstd::seq_lib::to_multiset_len(a);
    vstd::seq_lib::to_multiset_len(b);
    if a.len() == 0 {
    } else {
        let last = a.last();
        let rest = a.drop_last();
        assert(a =~= rest.push(last));
        vstd::seq_lib::to_multiset_build(rest, last);
        vstd::seq_lib::to_multiset_contains(b, last);
        assert(a.to_multiset().count(last) > 0);
        let at = choose|i: int| 0 <= i < b.len() && b[i] == last;
        vstd::seq_lib::to_multiset_remove(b, at);
        assert(rest.to_multiset() =~= b.remove(at).to_multiset());
        lemma_coefficient_of_reordering(rest, b.remove(at), v);
        lemma_coefficient_without(b, at, v);
    }
}

/// The variables that occur do not depend on the order of the terms.
pub proof fn lemma_mentions_of_reordering(
    a: Seq<(Variable, Scalar)>,
    b: Seq<(Variable, Scalar)>,
    v: Variable,
)
    requires
        a.to_multiset() == b.to_multiset(),
    ensures
        mentions(a, v) <==> mentions(b, v),
{
    if mentions(a, v) {
        let i = choose|i: int| 0 <= i < a.len() && (#[trigger] a[i]).0 == v;
        vstd::seq_lib::to_multiset_contains(a, a[i]);
        vstd::seq_lib::to_multiset_contains(b, a[i]);
        let j = choose|j: int| 0 <= j < b.len() && b[j] == a[i];
        assert(b[j].0 == v);
    }
    if mentions(b, v) {
        let i = choose|i: int| 0 <= i < b.len() && (#[trigger] b[i]).0 == v;
        vstd::seq_lib::to_multiset_contains(b, b[i]);
        vstd::seq_lib::to_multiset_contains(a, b[i]);
        let j = choose|j: int| 0 <= j < a.len() && a[j] == b[i];
        assert(a[j].0 == v);
    }
}

/// Two ascending lists of terms that mention the same variables list them
/// in the same places.
pub proof fn lemma_ascending_variables_unique(
    a: Seq<(Variable, Scalar)>,
    b: Seq<(Variable, Scalar)>,
)
    requires
        strictly_ascending(a),
        strictly_ascending(b),
        forall|v: Variable| mentions(a, v) <==> mentions(b, v),
    ensures
        a.len() == b.len(),
        forall|i: int| 0 <= i < a.len() ==> (#[trigger] a[i]).0 == b[i].0,
    decreases a.len(),
{
    if a.len() == 0 {
        if b.len() > 0 {
            assert(mentions(b, b[0].0));
        }
    } else if b.len() == 0 {
        assert(mentions(a, a[0].0));
    } else {
        let x = a[0].0;
        let y = b[0].0;
        assert(mentions(a, x));
        assert(mentions(b, y));
        let j = choose|j: int| 0 <= j < b.len() && (#[trigger] b[j]).0 == x;
        let i = choose|i: int| 0 <= i < a.len() && (#[trigger] a[i]).0 == y;
        x.lemma_total_order(y, x);
        assert(x == y);
        let a_rest = a.drop_first();
        let b_rest = b.drop_first();
        assert forall|v: Variable| mentions(a_rest, v) <==> mentions(b_rest, v) by {
            if mentions(a_rest, v) {
                let k = choose|k: int| 0 <= k < a_rest.len() && (#[trigger] a_rest[k]).0 == v;
                assert(a[k + 1].0 == v);
                assert(mentions(a, v));
                v.lemma_total_order(x, v);
                let l = choose|l: int| 0 <= l < b.len() && (#[trigger] b[l]).0 == v;
                assert(b_rest[l - 1].0 == v);
            }
            if mentions(b_rest, v) {
                let k = choose|k: int| 0 <= k < b_rest.len() && (#[trigger] b_rest[k]).0 == v;
                assert(b[k + 1].0 == v);
                assert(mentions(b, v));
                v.lemma_total_order(x, v);
                let l = choose|l: int| 0 <= l < a.len() && (#[trigger] a[l]).0 == v;
                assert(a_rest[l - 1].0 == v);
            }
        }
        assert(strictly_ascending(a_rest)) by {
            assert forall|p: int, q: int| 0 <= p < q < a_rest.len() implies (
            #[trigger] a_rest[p]).0.precedes((#[trigger] a_rest[q]).0) by {
                assert(a[p + 1].0.precedes(a[q + 1].0));
            }
        }
        assert(strictly_ascending(b_rest)) by {
            assert forall|p: int, q: int| 0 <= p < q < b_rest.len() implies (
            #[trigger] b_rest[p]).0.precedes((#[trigger] b_rest[q]).0) by {
                assert(b[p + 1].0.precedes(b[q + 1].0));
            }
        }
        lemma_ascending_variables_unique(a_rest, b_rest);
        assert forall|i: int| 0 <= i < a.len() implies (#[trigger] a[i]).0 == b[i].0 by {
            if i > 0 {
                assert(a_rest[i - 1].0 == b_rest[i - 1].0);
            }
        }
    }
}

/// The merged terms are determined by the terms that are merged.
pub proof fn law_merge_is_unique(
    terms: Seq<(Variable, Scalar)>,
    merged: Seq<(Variable, Scalar)>,
    other: Seq<(Variable, Scalar)>,
)
    requires
        is_merge_of(merged, terms),
        is_merge_of(other, terms),
    ensures
        merged == other,
{
    lemma_ascending_variables_unique(merged, other);
    assert forall|i: int| 0 <= i < merged.len() implies merged[i] == other[i] by {
        merged[i].1.lemma_encoded_injective(other[i].1);
    }
    assert(merged =~= other);
}

/// Merging does not depend on the order of the terms: two lists with the
/// same terms, each as often in one as in the other, merge to the same
/// list.
pub proof fn law_merge_ignores_order(
    a: Seq<(Variable, Scalar)>,
    b: Seq<(Variable, Scalar)>,
    merged_a: Seq<(Variable, Scalar)>,
    merged_b: Seq<(Variable, Scalar)>,
)
    requires
        a.to_multiset() == b.to_multiset(),
        is_merge_of(merged_a, a),
        is_merge_of(merged_b, b),
    ensures
        merged_a == merged_b,
{
    assert forall|v: Variable| mentions(merged_b, v) <==> mentions(a, v) by {
        lemma_mentions_of_reordering(a, b, v);
    }
    assert forall|i: int| 0 <= i < merged_b.len() implies (#[trigger] merged_b[i]).1.encoded()
        == coefficient(a, merged_b[i].0) by {
        lemma_coefficient_of_reordering(a, b, merged_b[i].0);
    }
    law_merge_is_unique(a, merged_a, merged_b);
}

/// Merging changes no coefficient: every variable has in the merged terms
/// the coefficient that it had before.
pub proof fn law_merge_keeps_coefficients(
    terms: Seq<(Variable, Scalar)>,
    merged: Seq<(Variable, Scalar)>,
    v: Variable,
)
    requires
        is_merge_of(merged, terms),
    ensures
        coefficient(merged, v) == coefficient(terms, v),
{
    if mentions(merged, v) {
        let at = choose|i: int| 0 <= i < merged.len() && (#[trigger] merged[i]).0 == v;
        let others = merged.remove(at);
        assert forall|i: int| 0 <= i < others.len() implies (#[trigger] others[i]).0 != v by {
            if i < at {
                assert(others[i] == merged[i]);
                assert(merged[i].0.precedes(merged[at].0));
            } else {
                assert(others[i] == merged[i + 1]);
                assert(merged[at].0.precedes(merged[i + 1].0));
            }
        }
        lemma_coefficient_unmentioned(others, v);
        lemma_coefficient_without(merged, at, v);
        lemma_coefficient_bound(terms, v);
        merged[at].1.lemma_view();
        lemma_field_add_zero(merged[at].1@);
    } else {
        lemma_coefficient_unmentioned(merged, v);
        lemma_coefficient_unmentioned(terms, v);
    }
}

/// Merging twice is merging once: merged terms are their own merge.
pub proof fn law_merge_is_idempotent(
    terms: Seq<(Variable, Scalar)>,
    merged: Seq<(Variable, Scalar)>,
)
    requires
        is_merge_of(merged, terms),
    ensures
        is_merge_of(merged, merged),
{
    assert forall|i: int| 0 <= i < merged.len() implies (#[trigger] merged[i]).1.encoded()
        == coefficient(merged, merged[i].0) by {
        law_merge_keeps_coefficients(terms, merged, merged[i].0);
    }
}

/// Negating twice gives canonical terms back.
pub proof fn law_negation_twice(
    terms: Seq<(Variable, Scalar)>,
    negated: Seq<(Variable, Scalar)>,
    twice: Seq<(Variable, Scalar)>,
)
    requires
        all_canonical(terms),
        is_negation_of(negated, terms),
        is_negation_of(twice, negated),
    ensures
        twice == terms,
{
    assert forall|i: int| 0 <= i < terms.len() implies twice[i] == terms[i] by {
        let x = terms[i].1@;
        terms[i].1.lemma_view();
        lemma_field_bounds(x, 0);
        negated[i].1.lemma_view();
        lemma_field_neg_twice(x);
        twice[i].1.lemma_view();
        twice[i].1.lemma_canonical_unique(terms[i].1);
    }
    assert(twice =~= terms);
}

/// Scaling by 1 gives canonical terms back.
pub proof fn law_scaling_by_one(terms: Seq<(Variable, Scalar)>, scaled: Seq<(Variable, Scalar)>)
    requires
        all_canonical(terms),
        is_scaling_of(scaled, terms, 1),
    ensures
        scaled == terms,
{
    assert forall|i: int| 0 <= i < terms.len() implies scaled[i] == terms[i] by {
        terms[i].1.lemma_view();
        lemma_field_mul_one(terms[i].1@);
        scaled[i].1.lemma_view();
        scaled[i].1.lemma_canonical_unique(terms[i].1);
    }
    assert(scaled =~= terms);
}

} // verus!
