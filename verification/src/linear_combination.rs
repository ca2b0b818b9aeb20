//! Linear combinations of variables.

use vstd::prelude::*;
use crate::scalar::{field_add, group_order, Scalar};
use crate::variable::Variable;
use sp_std::collections::btree_map::BTreeMap;
use vstd::std_specs::convert::FromSpecImpl;
use vstd::std_specs::cmp::OrdSpec;
use vstd::std_specs::iter::IteratorSpec;

verus! {

/// Whether some term is a multiple of the variable.
pub open spec fn mentions(terms: Seq<(Variable, Scalar)>, v: Variable) -> bool {
    exists|i: int| 0 <= i < terms.len() && (#[trigger] terms[i]).0 == v
}

/// The sum, in the field, of the coefficients that the terms give to the
/// variable; 0 where no term mentions it.
pub open spec fn coefficient(terms: Seq<(Variable, Scalar)>, v: Variable) -> nat
    decreases terms.len(),
{
    if terms.len() == 0 {
        0
    } else if terms.last().0 == v {
        field_add(coefficient(terms.drop_last(), v), terms.last().1@)
    } else {
        coefficient(terms.drop_last(), v)
    }
}

/// `terms` is the one term `n * v`, with the canonical scalar of `n`.
pub open spec fn is_single_term(terms: Seq<(Variable, Scalar)>, v: Variable, n: nat) -> bool {
    &&& terms.len() == 1
    &&& terms[0].0 == v
    &&& terms[0].1.encoded() == n
}

/// Each variable comes before the variables of all later terms, so no
/// variable occurs twice.
pub open spec fn strictly_ascending(terms: Seq<(Variable, Scalar)>) -> bool {
    forall|i: int, j: int|
        0 <= i < j < terms.len() ==> (#[trigger] terms[i]).0.precedes((#[trigger] terms[j]).0)
}

/// `merged` is `terms` with the terms of each variable added up: it has one
/// term for each variable that `terms` mentions, in the order of the
/// variables, and its coefficient is the canonical scalar of the sum. A sum
/// of 0 keeps its term.
pub open spec fn is_merge_of(
    merged: Seq<(Variable, Scalar)>,
    terms: Seq<(Variable, Scalar)>,
) -> bool {
    &&& strictly_ascending(merged)
    &&& forall|v: Variable| mentions(merged, v) <==> mentions(terms, v)
    &&& forall|i: int|
        0 <= i < merged.len() ==> (#[trigger] merged[i]).1.encoded() == coefficient(
            terms,
            merged[i].0,
        )
}

/// The coefficient of a variable is a field element.
pub proof fn lemma_coefficient_bound(terms: Seq<(Variable, Scalar)>, v: Variable)
    ensures
        coefficient(terms, v) < group_order(),
    decreases terms.len(),
{
    if terms.len() > 0 {
        lemma_coefficient_bound(terms.drop_last(), v);
    }
}

/// A variable that no term mentions has the coefficient 0.
pub proof fn lemma_coefficient_unmentioned(terms: Seq<(Variable, Scalar)>, v: Variable)
    requires
        !mentions(terms, v),
    ensures
        coefficient(terms, v) == 0,
    decreases terms.len(),
{
    if terms.len() > 0 {
        let rest = terms.drop_last();
        assert(terms.last() == terms[terms.len() - 1]);
        assert forall|i: int| 0 <= i < rest.len() implies (#[trigger] rest[i]).0 != v by {
            assert(rest[i] == terms[i]);
        }
        lemma_coefficient_unmentioned(rest, v);
    }
}

/// The map that collects the sums orders its keys as numbers.
spec fn keys_ordered() -> bool {
    vstd::laws_cmp::obeys_cmp::<u128>()
}

/// The keys of the variables are compared as the numbers they are.
proof fn lemma_keys_ordered()
    ensures
        keys_ordered(),
{
    broadcast use vstd::laws_cmp::group_laws_cmp;

}

/// A map that orders its keys as numbers hands them out in ascending order.
proof fn lemma_ascending_keys(keys: Seq<u128>)
    requires
        vstd::std_specs::btree::increasing_seq(keys),
    ensures
        forall|i: int, j: int| 0 <= i < j < keys.len() ==> keys[i] < keys[j],
{
    broadcast use vstd::laws_cmp::group_laws_cmp;
    broadcast use vstd::std_specs::btree::axiom_increasing_seq_meaning;

    assert forall|i: int, j: int| 0 <= i < j < keys.len() implies keys[i] < keys[j] by {
        assert(keys[i].cmp_spec(&keys[j]) is Less);
    }
}

/// A linear combination: a list of terms, each a variable with a scalar
/// coefficient. A variable may occur in several terms.
#[derive(Clone, Debug, PartialEq)]
pub struct LinearCombination {
    terms: Vec<(Variable, Scalar)>,
}

impl View for LinearCombination {
    type V = Seq<(Variable, Scalar)>;

    /// The terms, in the order in which they were added.
    closed spec fn view(&self) -> Seq<(Variable, Scalar)> {
        self.terms@
    }
}

impl Default for LinearCombination {
    /// The linear combination without terms.
    fn default() -> (r: LinearCombination)
        ensures
            r@ == Seq::<(Variable, Scalar)>::empty(),
    {
        LinearCombination { terms: Vec::new() }
    }
}

impl From<Variable> for LinearCombination {
    /// The variable itself: one term, with the coefficient 1.
    fn from(v: Variable) -> (r: LinearCombination)
        ensures
            is_single_term(r@, v, 1),
    {
        let mut terms: Vec<(Variable, Scalar)> = Vec::new();
        terms.push((v, Scalar::one()));
        LinearCombination { terms }
    }
}

/// The contract stands on the method itself, as its `ensures`.
impl FromSpecImpl<Variable> for LinearCombination {
    open spec fn obeys_from_spec() -> bool {
        false
    }

    open spec fn from_spec(v: Variable) -> LinearCombination {
        arbitrary()
    }
}

impl From<Scalar> for LinearCombination {
    /// A constant: the one term `s * One()`.
    fn from(s: Scalar) -> (r: LinearCombination)
        ensures
            r@ == seq![(Variable::One(), s)],
    {
        let mut terms: Vec<(Variable, Scalar)> = Vec::new();
        terms.push((Variable::One(), s));
        assert(terms@ =~= seq![(Variable::One(), s)]);
        LinearCombination { terms }
    }
}

/// The contract stands on the method itself, as its `ensures`.
impl FromSpecImpl<Scalar> for LinearCombination {
    open spec fn obeys_from_spec() -> bool {
        false
    }

    open spec fn from_spec(s: Scalar) -> LinearCombination {
        arbitrary()
    }
}

impl From<u8> for LinearCombination {
    /// A constant: the one term `x * One()`.
    fn from(x: u8) -> (r: LinearCombination)
        ensures
            is_single_term(r@, Variable::One(), x as nat),
    {
        let mut terms: Vec<(Variable, Scalar)> = Vec::new();
        terms.push((Variable::One(), Scalar::from(x)));
        LinearCombination { terms }
    }
}

/// The contract stands on the method itself, as its `ensures`.
impl FromSpecImpl<u8> for LinearCombination {
    open spec fn obeys_from_spec() -> bool {
        false
    }

    open spec fn from_spec(x: u8) -> LinearCombination {
        arbitrary()
    }
}

impl From<u16> for LinearCombination {
    /// A constant: the one term `x * One()`.
    fn from(x: u16) -> (r: LinearCombination)
        ensures
            is_single_term(r@, Variable::One(), x as nat),
    {
        let mut terms: Vec<(Variable, Scalar)> = Vec::new();
        terms.push((Variable::One(), Scalar::from(x)));
        LinearCombination { terms }
    }
}

/// The contract stands on the method itself, as its `ensures`.
impl FromSpecImpl<u16> for LinearCombination {
    open spec fn obeys_from_spec() -> bool {
        false
    }

    open spec fn from_spec(x: u16) -> LinearCombination {
        arbitrary()
    }
}

impl From<u32> for LinearCombination {
    /// A constant: the one term `x * One()`.
    fn from(x: u32) -> (r: LinearCombination)
        ensures
            is_single_term(r@, Variable::One(), x as nat),
    {
        let mut terms: Vec<(Variable, Scalar)> = Vec::new();
        terms.push((Variable::One(), Scalar::from(x)));
        LinearCombination { terms }
    }
}

/// The contract stands on the method itself, as its `ensures`.
impl FromSpecImpl<u32> for LinearCombination {
    open spec fn obeys_from_spec() -> bool {
        false
    }

    open spec fn from_spec(x: u32) -> LinearCombination {
        arbitrary()
    }
}

impl From<u64> for LinearCombination {
    /// A constant: the one term `x * One()`.
    fn from(x: u64) -> (r: LinearCombination)
        ensures
            is_single_term(r@, Variable::One(), x as nat),
    {
        let mut terms: Vec<(Variable, Scalar)> = Vec::new();
        terms.push((Variable::One(), Scalar::from(x)));
        LinearCombination { terms }
    }
}

/// The contract stands on the method itself, as its `ensures`.
impl FromSpecImpl<u64> for LinearCombination {
    open spec fn obeys_from_spec() -> bool {
        false
    }

    open spec fn from_spec(x: u64) -> LinearCombination {
        arbitrary()
    }
}

impl From<u128> for LinearCombination {
    /// A constant: the one term `x * One()`.
    fn from(x: u128) -> (r: LinearCombination)
        ensures
            is_single_term(r@, Variable::One(), x as nat),
    {
        let mut terms: Vec<(Variable, Scalar)> = Vec::new();
        terms.push((Variable::One(), Scalar::from(x)));
        LinearCombination { terms }
    }
}

/// The contract stands on the method itself, as its `ensures`.
impl FromSpecImpl<u128> for LinearCombination {
    open spec fn obeys_from_spec() -> bool {
        false
    }

    open spec fn from_spec(x: u128) -> LinearCombination {
        arbitrary()
    }
}

impl LinearCombination {
    /// The linear combination of the given terms, in their order.
    pub fn from_terms(terms: Vec<(Variable, Scalar)>) -> (r: LinearCombination)
        ensures
            r@ == terms@,
    {
        LinearCombination { terms }
    }

    /// The terms of the linear combination.
    pub fn get_terms(self) -> (terms: Vec<(Variable, Scalar)>)
        ensures
            terms@ == self@,
    {
        self.terms
    }

    /// The variables that the terms mention, each with the sum of its
    /// coefficients, in a map from the variable's key.
    fn collect_sums(terms: &Vec<(Variable, Scalar)>) -> (sums: BTreeMap<u128, (Variable, Scalar)>)
        ensures
            forall|k: u128| #[trigger]
                sums@.contains_key(k) ==> {
                    &&& sums@[k].0.key() == k
                    &&& mentions(terms@, sums@[k].0)
                    &&& sums@[k].1.encoded() == coefficient(terms@, sums@[k].0)
                },
            forall|v: Variable| mentions(terms@, v) ==> sums@.contains_key(v.key() as u128),
    {
        proof {
            lemma_keys_ordered();
        }
        let mut sums: BTreeMap<u128, (Variable, Scalar)> = BTreeMap::new();
        let mut n: usize = 0;
        while n < terms.len()
            invariant
                n <= terms.len(),
                keys_ordered(),
                forall|k: u128| #[trigger]
                    sums@.contains_key(k) ==> {
                        &&& sums@[k].0.key() == k
                        &&& mentions(terms@.take(n as int), sums@[k].0)
                        &&& sums@[k].1.encoded() == coefficient(terms@.take(n as int), sums@[k].0)
                    },
                forall|v: Variable|
                    mentions(terms@.take(n as int), v) ==> sums@.contains_key(v.key() as u128),
            decreases terms.len() - n,
        {
            let (var, val) = terms[n];
            let key = var.sort_key();
            let ghost seen = terms@.take(n as int);
            let ghost next = terms@.take(n + 1);
            let ghost before = sums@;
            let sum = match sums.get(&key) {
                Some(entry) => entry.1,
                None => Scalar::zero(),
            };
            let total = sum + val;
            sums.insert(key, (var, total));
            proof {
                assert(next.drop_last() =~= seen);
                assert(next.last() == terms@[n as int]);
                assert(next[n as int].0 == var);
                assert forall|i: int| 0 <= i < seen.len() implies seen[i] == next[i] by {}
                lemma_coefficient_bound(seen, var);
                if before.contains_key(key) {
                    before[key].0.lemma_key_order(var);
                } else {
                    assert(!mentions(seen, var));
                    lemma_coefficient_unmentioned(seen, var);
                }
                assert(total.encoded() == coefficient(next, var));
                assert forall|k: u128| #[trigger] sums@.contains_key(k) implies {
                    &&& sums@[k].0.key() == k
                    &&& mentions(next, sums@[k].0)
                    &&& sums@[k].1.encoded() == coefficient(next, sums@[k].0)
                } by {
                    if k != key {
                        let w = before[k].0;
                        w.lemma_key_order(var);
                        let i = choose|i: int| 0 <= i < seen.len() && (#[trigger] seen[i]).0 == w;
                        assert(next[i].0 == w);
                    }
                }
                assert forall|v: Variable| mentions(next, v) implies sums@.contains_key(
                    v.key() as u128,
                ) by {
                    let i = choose|i: int| 0 <= i < next.len() && (#[trigger] next[i]).0 == v;
                    if i < n {
                        assert(seen[i].0 == v);
                        assert(mentions(seen, v));
                        assert(before.contains_key(v.key() as u128));
                    } else {
                        assert(v == var);
                        assert(v.key() as u128 == key);
                    }
                }
            }
            n += 1;
        }
        assert(terms@.take(n as int) =~= terms@);
        sums
    }

    /// Merges the terms of each variable into one term.
    ///
    /// The result has one term for each variable that occurs, in the order
    /// of the variables; its coefficient is the sum of the coefficients of
    /// that variable. A term whose coefficients add up to 0 stays.
    pub fn simplify(self) -> (r: LinearCombination)
        ensures
            is_merge_of(r@, self@),
    {
        let terms = self.get_terms();
        let sums = Self::collect_sums(&terms);
        proof {
            lemma_keys_ordered();
        }
        let entries = sums.iter();
        let ghost start = entries;
        let mut merged: Vec<(Variable, Scalar)> = Vec::new();
        for entry in it: entries
            invariant
                it.seq() == start.remaining(),
                merged@.len() == it.index(),
                forall|j: int|
                    0 <= j < merged@.len() ==> merged@[j] == *(#[trigger] start.remaining()[j]).1,
        {
            merged.push(*entry.1);
        }
        proof {
            let listed = start.remaining();
            let keys = listed.map_values(|kv: (&u128, &(Variable, Scalar))| *kv.0);
            lemma_ascending_keys(keys);
            assert(start == vstd::std_specs::btree::spec_btree_map_iter(&sums));
            assert forall|i: int| 0 <= i < merged@.len() implies {
                &&& keys[i] == (#[trigger] merged@[i]).0.key()
                &&& sums@.contains_key(keys[i])
                &&& sums@[keys[i]] == merged@[i]
            } by {
                assert(keys[i] == *listed[i].0);
                assert(sums@.contains_key(*listed[i].0));
            }
            assert forall|i: int, j: int| 0 <= i < j < merged@.len() implies (
            #[trigger] merged@[i]).0.precedes((#[trigger] merged@[j]).0) by {
                merged@[i].0.lemma_key_order(merged@[j].0);
            }
            assert forall|v: Variable| mentions(terms@, v) implies mentions(merged@, v) by {
                let key = v.key() as u128;
                let at = listed.index_of((&key, &sums@[key]));
                assert(merged@[at] == sums@[key]);
                sums@[key].0.lemma_key_order(v);
            }
        }
        LinearCombination { terms: merged }
    }
}

} // verus!
