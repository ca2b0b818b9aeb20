use r1cs::Variable;
use std::cmp::Ordering;

fn in_order() -> Vec<Variable> {
    vec![
        Variable::Committed(0),
        Variable::Committed(1),
        Variable::Committed(usize::MAX),
        Variable::MultiplierLeft(0),
        Variable::MultiplierLeft(7),
        Variable::MultiplierLeft(usize::MAX),
        Variable::MultiplierRight(0),
        Variable::MultiplierRight(7),
        Variable::MultiplierRight(usize::MAX),
        Variable::MultiplierOutput(0),
        Variable::MultiplierOutput(7),
        Variable::MultiplierOutput(usize::MAX),
        Variable::One(),
    ]
}

#[test]
fn the_kinds_come_in_their_order() {
    assert!(Variable::Committed(3) < Variable::MultiplierLeft(3));
    assert!(Variable::MultiplierLeft(3) < Variable::MultiplierRight(3));
    assert!(Variable::MultiplierRight(3) < Variable::MultiplierOutput(3));
    assert!(Variable::MultiplierOutput(3) < Variable::One());
}

#[test]
fn the_index_orders_variables_of_one_kind() {
    assert!(Variable::Committed(0) < Variable::Committed(1));
    assert!(Variable::MultiplierLeft(4) < Variable::MultiplierLeft(5));
    assert!(Variable::MultiplierRight(9) > Variable::MultiplierRight(2));
    assert!(Variable::MultiplierOutput(10) >= Variable::MultiplierOutput(10));
}

#[test]
fn the_kind_counts_before_the_index() {
    assert!(Variable::Committed(usize::MAX) < Variable::MultiplierLeft(0));
    assert!(Variable::MultiplierLeft(usize::MAX) < Variable::MultiplierRight(0));
    assert!(Variable::MultiplierRight(usize::MAX) < Variable::MultiplierOutput(0));
    assert!(Variable::MultiplierOutput(usize::MAX) < Variable::One());
}

#[test]
fn the_comparisons_agree_on_every_pair() {
    let all = in_order();
    for i in 0..all.len() {
        for j in 0..all.len() {
            let expected = i.cmp(&j);
            assert_eq!(all[i].partial_cmp(&all[j]), Some(expected));
            assert_eq!(all[i].cmp(&all[j]), expected);
            assert_eq!(all[i].sort_key().cmp(&all[j].sort_key()), expected);
            assert_eq!(all[i] == all[j], expected == Ordering::Equal);
        }
    }
}

#[test]
fn the_key_is_the_kind_above_the_index() {
    assert_eq!(Variable::Committed(5).sort_key(), 5);
    assert_eq!(Variable::MultiplierLeft(5).sort_key(), (1u128 << 64) + 5);
    assert_eq!(Variable::MultiplierRight(5).sort_key(), (2u128 << 64) + 5);
    assert_eq!(Variable::MultiplierOutput(5).sort_key(), (3u128 << 64) + 5);
    assert_eq!(Variable::One().sort_key(), 4u128 << 64);
}

#[test]
fn sorting_brings_variables_into_their_order() {
    let mut shuffled = in_order();
    shuffled.reverse();
    shuffled.swap(2, 9);
    shuffled.swap(0, 5);
    shuffled.sort();
    assert_eq!(shuffled, in_order());
}

#[test]
fn the_constant_is_one_variable() {
    assert_eq!(Variable::One(), Variable::One());
    assert_eq!(Variable::One().partial_cmp(&Variable::One()), Some(Ordering::Equal));
    assert_ne!(Variable::Committed(0), Variable::MultiplierLeft(0));
}
