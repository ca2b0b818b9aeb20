use r1cs::{LinearCombination, Scalar, Variable};

fn n(x: u64) -> Scalar {
    Scalar::from(x)
}

#[test]
fn the_default_has_no_terms() {
    assert_eq!(LinearCombination::default().get_terms(), vec![]);
}

#[test]
fn from_terms_keeps_the_terms_and_their_order() {
    let x = Variable::Committed(1);
    let terms = vec![(x, n(3)), (Variable::One(), n(0)), (x, n(3))];
    assert_eq!(LinearCombination::from_terms(terms.clone()).get_terms(), terms);
}

#[test]
fn a_variable_lifts_to_one_term_with_the_coefficient_one() {
    let x = Variable::MultiplierOutput(4);
    assert_eq!(LinearCombination::from(x).get_terms(), vec![(x, n(1))]);
}

#[test]
fn a_number_lifts_to_a_constant_term() {
    assert_eq!(LinearCombination::from(9u8).get_terms(), vec![(Variable::One(), n(9))]);
    assert_eq!(LinearCombination::from(9u16).get_terms(), vec![(Variable::One(), n(9))]);
    assert_eq!(LinearCombination::from(9u32).get_terms(), vec![(Variable::One(), n(9))]);
    assert_eq!(LinearCombination::from(9u64).get_terms(), vec![(Variable::One(), n(9))]);
    assert_eq!(LinearCombination::from(9u128).get_terms(), vec![(Variable::One(), n(9))]);
}

#[test]
fn a_scalar_lifts_to_a_constant_term() {
    let s = Scalar::from_bytes_mod_order([0x42; 32]);
    assert_eq!(LinearCombination::from(s).get_terms(), vec![(Variable::One(), s)]);
}

#[test]
fn addition_appends_the_terms() {
    let x = Variable::Committed(0);
    let y = Variable::MultiplierLeft(0);
    let a = LinearCombination::from_terms(vec![(y, n(2)), (x, n(3))]);
    let b = LinearCombination::from_terms(vec![(x, n(4)), (y, n(5))]);
    assert_eq!((a + b).get_terms(), vec![(y, n(2)), (x, n(3)), (x, n(4)), (y, n(5))]);
}

#[test]
fn addition_does_not_merge() {
    let x = Variable::Committed(0);
    let sum = LinearCombination::from(x) + x;
    assert_eq!(sum.get_terms(), vec![(x, n(1)), (x, n(1))]);
}

#[test]
fn addition_takes_variables_numbers_and_scalars() {
    let x = Variable::Committed(0);
    let y = Variable::Committed(1);
    let s = Scalar::from_bytes_mod_order([0x17; 32]);
    let sum = LinearCombination::from(x) + y + 2u64 + s;
    assert_eq!(
        sum.get_terms(),
        vec![(x, n(1)), (y, n(1)), (Variable::One(), n(2)), (Variable::One(), s)]
    );
}

#[test]
fn addition_with_the_empty_combination() {
    let x = Variable::Committed(0);
    let a = LinearCombination::from_terms(vec![(x, n(3))]);
    assert_eq!((a.clone() + LinearCombination::default()).get_terms(), vec![(x, n(3))]);
    assert_eq!((LinearCombination::default() + a).get_terms(), vec![(x, n(3))]);
}

#[test]
fn subtraction_appends_the_negated_terms() {
    let x = Variable::Committed(0);
    let y = Variable::MultiplierRight(2);
    let a = LinearCombination::from_terms(vec![(x, n(3))]);
    let b = LinearCombination::from_terms(vec![(y, n(4)), (x, n(0))]);
    assert_eq!((a - b).get_terms(), vec![(x, n(3)), (y, -n(4)), (x, n(0))]);
}

#[test]
fn subtraction_takes_variables_and_numbers() {
    let x = Variable::Committed(0);
    let y = Variable::Committed(1);
    let difference = LinearCombination::from(x) - y - 5u64;
    assert_eq!(
        difference.get_terms(),
        vec![(x, n(1)), (y, -n(1)), (Variable::One(), -n(5))]
    );
}

#[test]
fn negation_negates_every_coefficient() {
    let x = Variable::Committed(0);
    let y = Variable::MultiplierOutput(1);
    let a = LinearCombination::from_terms(vec![(x, n(3)), (y, n(0)), (x, -n(7))]);
    assert_eq!((-a).get_terms(), vec![(x, -n(3)), (y, n(0)), (x, n(7))]);
}

#[test]
fn negation_of_the_empty_combination() {
    assert_eq!((-LinearCombination::default()).get_terms(), vec![]);
}

#[test]
fn negation_twice_gives_the_terms_back() {
    let x = Variable::Committed(0);
    let terms = vec![(x, n(3)), (Variable::One(), n(11))];
    let a = LinearCombination::from_terms(terms.clone());
    assert_eq!((-(-a)).get_terms(), terms);
}

#[test]
fn scaling_multiplies_every_coefficient() {
    let x = Variable::Committed(0);
    let y = Variable::MultiplierLeft(1);
    let a = LinearCombination::from_terms(vec![(x, n(3)), (y, n(5)), (x, n(0))]);
    assert_eq!((a * 4u64).get_terms(), vec![(x, n(12)), (y, n(20)), (x, n(0))]);
}

#[test]
fn scaling_by_a_scalar_from_either_side() {
    let x = Variable::Committed(0);
    let s = Scalar::from_bytes_mod_order([0x99; 32]);
    let c = Scalar::from_bytes_mod_order([0x31; 32]);
    let a = LinearCombination::from_terms(vec![(x, c), (Variable::One(), n(2))]);
    let expected = vec![(x, c * s), (Variable::One(), n(2) * s)];
    assert_eq!((a.clone() * s).get_terms(), expected);
    assert_eq!((s * a).get_terms(), expected);
}

#[test]
fn scaling_by_zero_keeps_the_terms() {
    let x = Variable::Committed(0);
    let a = LinearCombination::from_terms(vec![(x, n(3)), (x, n(4))]);
    assert_eq!((a * Scalar::zero()).get_terms(), vec![(x, n(0)), (x, n(0))]);
}

#[test]
fn a_variable_negates_to_minus_one_times_itself() {
    let x = Variable::MultiplierLeft(3);
    assert_eq!((-x).get_terms(), vec![(x, -n(1))]);
}

#[test]
fn a_variable_plus_something() {
    let x = Variable::Committed(0);
    let y = Variable::Committed(1);
    assert_eq!((x + y).get_terms(), vec![(x, n(1)), (y, n(1))]);
    assert_eq!((x + 2u64).get_terms(), vec![(x, n(1)), (Variable::One(), n(2))]);
    let b = LinearCombination::from_terms(vec![(y, n(6)), (x, n(7))]);
    assert_eq!((x + b).get_terms(), vec![(x, n(1)), (y, n(6)), (x, n(7))]);
}

#[test]
fn a_variable_minus_something() {
    let x = Variable::Committed(0);
    let y = Variable::Committed(1);
    assert_eq!((x - y).get_terms(), vec![(x, n(1)), (y, -n(1))]);
    assert_eq!((x - x).get_terms(), vec![(x, n(1)), (x, -n(1))]);
    assert_eq!((x - 2u64).get_terms(), vec![(x, n(1)), (Variable::One(), -n(2))]);
}

#[test]
fn a_variable_times_a_scalar() {
    let x = Variable::MultiplierRight(8);
    let s = Scalar::from_bytes_mod_order([0x23; 32]);
    assert_eq!((x * 5u64).get_terms(), vec![(x, n(5))]);
    assert_eq!((x * s).get_terms(), vec![(x, s)]);
    assert_eq!((s * x).get_terms(), vec![(x, s)]);
}

#[test]
fn a_scalar_plus_a_variable_puts_the_constant_first() {
    let x = Variable::Committed(0);
    assert_eq!((n(2) + x).get_terms(), vec![(Variable::One(), n(2)), (x, n(1))]);
}

#[test]
fn a_scalar_minus_a_variable_puts_the_constant_first() {
    let x = Variable::Committed(0);
    assert_eq!((n(2) - x).get_terms(), vec![(Variable::One(), n(2)), (x, -n(1))]);
}

#[test]
fn negation_distributes_over_a_sum() {
    let x = Variable::Committed(0);
    let y = Variable::MultiplierOutput(0);
    let a = LinearCombination::from_terms(vec![(x, n(3)), (y, n(4))]);
    let b = LinearCombination::from_terms(vec![(y, n(5))]);
    assert_eq!(-(a.clone() + b.clone()), (-a) + (-b));
}

#[test]
fn scaling_distributes_over_a_sum() {
    let x = Variable::Committed(0);
    let y = Variable::MultiplierOutput(0);
    let s = Scalar::from_bytes_mod_order([0x64; 32]);
    let a = LinearCombination::from_terms(vec![(x, n(3)), (y, -n(4))]);
    let b = LinearCombination::from_terms(vec![(y, n(5))]);
    assert_eq!((a.clone() + b.clone()) * s, a * s + b * s);
}

#[test]
fn combinations_are_compared_term_by_term() {
    let x = Variable::Committed(0);
    let y = Variable::Committed(1);
    assert_eq!(x + y, x + y);
    assert_ne!(x + y, y + x);
    let a = x + y;
    assert_eq!(a.clone(), a);
}

#[test]
fn two_outputs_minus_a_committed_value() {
    let o0 = Variable::MultiplierOutput(0);
    let o1 = Variable::MultiplierOutput(1);
    let v = Variable::Committed(0);
    let lc = o0 + o1 - v;
    assert_eq!(lc.get_terms(), vec![(o0, n(1)), (o1, n(1)), (v, -n(1))]);
    let value = n(1) * n(6) + n(1) * n(20) + (-n(1)) * n(26);
    assert_eq!(value, Scalar::zero());
}

#[test]
fn an_output_minus_a_committed_value() {
    let o = Variable::MultiplierOutput(0);
    let v = Variable::Committed(0);
    assert_eq!((o - v).get_terms(), vec![(o, n(1)), (v, -n(1))]);
    assert_eq!((LinearCombination::from(o) - v).get_terms(), vec![(o, n(1)), (v, -n(1))]);
    assert_eq!(n(1) * n(15) + (-n(1)) * n(15), Scalar::zero());
    assert_eq!(n(1) * n(15) + (-n(1)) * n(16), -n(1));
}

#[test]
fn a_variable_minus_itself_keeps_both_terms() {
    let v = Variable::Committed(0);
    assert_eq!((v - v).get_terms(), vec![(v, n(1)), (v, -n(1))]);
}

#[test]
fn the_empty_combination_is_neutral_on_both_sides() {
    let x = Variable::Committed(0);
    let lc = LinearCombination::from_terms(vec![(x, n(3)), (Variable::One(), n(4)), (x, n(5))]);
    assert_eq!(lc.clone() + LinearCombination::default(), lc);
    assert_eq!(LinearCombination::default() + lc.clone(), lc);
}

#[test]
fn addition_is_associative_on_the_terms() {
    let x = Variable::Committed(0);
    let y = Variable::MultiplierLeft(1);
    let a = LinearCombination::from_terms(vec![(x, n(1)), (y, n(2))]);
    let b = LinearCombination::from_terms(vec![(y, n(3))]);
    let c = LinearCombination::from_terms(vec![(x, n(4)), (Variable::One(), n(5))]);
    assert_eq!((a.clone() + b.clone()) + c.clone(), a + (b + c));
}

#[test]
fn scaling_by_one_and_negating_twice_change_nothing() {
    let x = Variable::Committed(0);
    let s = Scalar::from_bytes_mod_order([0x77; 32]);
    let lc = LinearCombination::from_terms(vec![(x, s), (Variable::One(), n(0))]);
    assert_eq!(lc.clone() * Scalar::one(), lc);
    assert_eq!(Scalar::one() * lc.clone(), lc);
    assert_eq!(-(-lc.clone()), lc);
}

#[test]
fn scaling_by_different_factors_gives_different_terms() {
    let x = Variable::Committed(0);
    let lc = LinearCombination::from_terms(vec![(x, n(3)), (Variable::One(), n(0))]);
    let z1 = Scalar::from_bytes_mod_order([0x21; 32]);
    let z2 = Scalar::from_bytes_mod_order([0x22; 32]);
    assert_ne!(lc.clone() * z1, lc * z2);
}
