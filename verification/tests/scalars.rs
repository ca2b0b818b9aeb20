use r1cs::Scalar;

const ORDER_MINUS_ONE: [u8; 32] = [
    236, 211, 245, 92, 26, 99, 18, 88, 214, 156, 247, 162, 222, 249, 222, 20, 0, 0, 0, 0, 0, 0, 0,
    0, 0, 0, 0, 0, 0, 0, 0, 16,
];

const ORDER_MINUS_TWO: [u8; 32] = [
    235, 211, 245, 92, 26, 99, 18, 88, 214, 156, 247, 162, 222, 249, 222, 20, 0, 0, 0, 0, 0, 0, 0,
    0, 0, 0, 0, 0, 0, 0, 0, 16,
];

fn low(byte: u8) -> [u8; 32] {
    let mut bytes = [0u8; 32];
    bytes[0] = byte;
    bytes
}

fn to_dalek(s: Scalar) -> curve25519_dalek::scalar::Scalar {
    curve25519_dalek::scalar::Scalar::from_bytes_mod_order(s.to_bytes())
}

#[test]
fn zero_has_zero_bytes() {
    assert_eq!(Scalar::zero().to_bytes(), [0u8; 32]);
}

#[test]
fn one_has_a_single_low_bit() {
    assert_eq!(Scalar::one().to_bytes(), low(1));
}

#[test]
fn zero_and_one_are_those_of_dalek() {
    assert_eq!(Scalar::zero().to_bytes(), curve25519_dalek::scalar::Scalar::zero().to_bytes());
    assert_eq!(Scalar::one().to_bytes(), curve25519_dalek::scalar::Scalar::one().to_bytes());
}

#[test]
fn from_u8_encodes_the_number() {
    assert_eq!(Scalar::from(0u8).to_bytes(), [0u8; 32]);
    assert_eq!(Scalar::from(200u8).to_bytes(), low(200));
    assert_eq!(
        Scalar::from(200u8).to_bytes(),
        curve25519_dalek::scalar::Scalar::from(200u8).to_bytes()
    );
}

#[test]
fn from_u16_encodes_the_number() {
    let mut expected = [0u8; 32];
    expected[0] = 0x34;
    expected[1] = 0x12;
    assert_eq!(Scalar::from(0x1234u16).to_bytes(), expected);
    assert_eq!(
        Scalar::from(0x1234u16).to_bytes(),
        curve25519_dalek::scalar::Scalar::from(0x1234u16).to_bytes()
    );
}

#[test]
fn from_u32_encodes_the_number() {
    let mut expected = [0u8; 32];
    expected[0] = 0x78;
    expected[1] = 0x56;
    expected[2] = 0x34;
    expected[3] = 0x12;
    assert_eq!(Scalar::from(0x12345678u32).to_bytes(), expected);
    assert_eq!(
        Scalar::from(0x12345678u32).to_bytes(),
        curve25519_dalek::scalar::Scalar::from(0x12345678u32).to_bytes()
    );
}

#[test]
fn from_u64_encodes_the_number() {
    let mut expected = [0u8; 32];
    for i in 0..8 {
        expected[i] = 0xff;
    }
    assert_eq!(Scalar::from(u64::MAX).to_bytes(), expected);
    assert_eq!(Scalar::from(5u64).to_bytes(), low(5));
    assert_eq!(
        Scalar::from(u64::MAX).to_bytes(),
        curve25519_dalek::scalar::Scalar::from(u64::MAX).to_bytes()
    );
}

#[test]
fn from_u128_encodes_the_number() {
    let mut expected = [0u8; 32];
    for i in 0..16 {
        expected[i] = 0xff;
    }
    assert_eq!(Scalar::from(u128::MAX).to_bytes(), expected);
    assert_eq!(Scalar::from(1u128 << 64).to_bytes()[8], 1);
    assert_eq!(
        Scalar::from(u128::MAX).to_bytes(),
        curve25519_dalek::scalar::Scalar::from(u128::MAX).to_bytes()
    );
}

#[test]
fn the_widths_agree_on_small_numbers() {
    assert_eq!(Scalar::from(77u8), Scalar::from(77u16));
    assert_eq!(Scalar::from(77u8), Scalar::from(77u32));
    assert_eq!(Scalar::from(77u8), Scalar::from(77u64));
    assert_eq!(Scalar::from(77u8), Scalar::from(77u128));
}

#[test]
fn from_bytes_mod_order_keeps_a_canonical_encoding() {
    assert_eq!(Scalar::from_bytes_mod_order(low(9)), Scalar::from(9u64));
    assert_eq!(Scalar::from_bytes_mod_order(ORDER_MINUS_ONE).to_bytes(), ORDER_MINUS_ONE);
}

#[test]
fn from_bytes_mod_order_reduces_the_order_to_zero() {
    let mut order = ORDER_MINUS_ONE;
    order[0] = 237;
    assert_eq!(Scalar::from_bytes_mod_order(order), Scalar::zero());
}

#[test]
fn from_bytes_mod_order_reduces_the_order_plus_two_to_two() {
    let mut order_plus_two = ORDER_MINUS_ONE;
    order_plus_two[0] = 239;
    assert_eq!(Scalar::from_bytes_mod_order(order_plus_two), Scalar::from(2u64));
}

#[test]
fn from_bytes_mod_order_reduces_the_largest_number() {
    let expected: [u8; 32] = [
        28, 149, 152, 141, 116, 49, 236, 214, 112, 207, 125, 115, 244, 91, 239, 198, 254, 255,
        255, 255, 255, 255, 255, 255, 255, 255, 255, 255, 255, 255, 255, 15,
    ];
    assert_eq!(Scalar::from_bytes_mod_order([0xff; 32]).to_bytes(), expected);
}

#[test]
fn addition_of_small_numbers() {
    assert_eq!(Scalar::from(3u64) + Scalar::from(5u64), Scalar::from(8u64));
    assert_eq!(Scalar::from(3u64) + Scalar::zero(), Scalar::from(3u64));
}

#[test]
fn addition_wraps_at_the_order() {
    let top = Scalar::from_bytes_mod_order(ORDER_MINUS_ONE);
    assert_eq!(top + Scalar::one(), Scalar::zero());
    assert_eq!((top + top).to_bytes(), ORDER_MINUS_TWO);
}

#[test]
fn negation_of_zero_is_zero() {
    assert_eq!(-Scalar::zero(), Scalar::zero());
}

#[test]
fn negation_of_one_is_the_order_minus_one() {
    assert_eq!((-Scalar::one()).to_bytes(), ORDER_MINUS_ONE);
    assert_eq!(-Scalar::from_bytes_mod_order(ORDER_MINUS_ONE), Scalar::one());
}

#[test]
fn a_scalar_and_its_negation_add_up_to_zero() {
    let s = Scalar::from(123456789u64);
    assert_ne!(-s, s);
    assert_eq!(s + (-s), Scalar::zero());
}

#[test]
fn multiplication_of_small_numbers() {
    assert_eq!(Scalar::from(6u64) * Scalar::from(7u64), Scalar::from(42u64));
    assert_eq!(Scalar::from(6u64) * Scalar::zero(), Scalar::zero());
    assert_eq!(Scalar::from(6u64) * Scalar::one(), Scalar::from(6u64));
}

#[test]
fn multiplication_wraps_at_the_order() {
    let top = Scalar::from_bytes_mod_order(ORDER_MINUS_ONE);
    assert_eq!(top * top, Scalar::one());
    let expected: [u8; 32] = [
        30, 149, 152, 141, 116, 49, 236, 214, 112, 207, 125, 115, 244, 91, 239, 198, 252, 255,
        255, 255, 255, 255, 255, 255, 255, 255, 255, 255, 255, 255, 255, 15,
    ];
    assert_eq!((Scalar::from(u128::MAX) * Scalar::from(u128::MAX)).to_bytes(), expected);
}

#[test]
fn arithmetic_is_that_of_dalek() {
    let a = Scalar::from(0xdead_beef_0123_4567_89ab_cdef_0011_2233u128);
    let b = Scalar::from_bytes_mod_order([0x5a; 32]);
    assert_eq!((a + b).to_bytes(), (to_dalek(a) + to_dalek(b)).to_bytes());
    assert_eq!((a * b).to_bytes(), (to_dalek(a) * to_dalek(b)).to_bytes());
    assert_eq!((-b).to_bytes(), (-to_dalek(b)).to_bytes());
    assert_eq!(b.to_bytes(), to_dalek(b).to_bytes());
}

#[test]
fn multiplication_distributes_over_addition() {
    let a = Scalar::from_bytes_mod_order([0x11; 32]);
    let b = Scalar::from_bytes_mod_order([0xc3; 32]);
    let s = Scalar::from_bytes_mod_order([0x7e; 32]);
    assert_eq!((a + b) * s, a * s + b * s);
}

#[test]
fn scalars_are_compared_by_their_bytes() {
    assert_eq!(Scalar::from(4u64), Scalar::from(4u8));
    assert_ne!(Scalar::from(4u64), Scalar::from(5u64));
    let copy = Scalar::from(4u64);
    let same = copy;
    assert_eq!(copy, same);
}
