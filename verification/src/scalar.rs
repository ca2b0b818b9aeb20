//! Scalars: integers modulo the order of the Ristretto group.
//!
//! A [`Scalar`] keeps the 32-byte little-endian encoding of a number. The
//! arithmetic itself is done by `curve25519_dalek`; this module states what
//! each operation computes, over the field element that a scalar stands for
//! (its view) and over the number that its bytes encode.

use vstd::prelude::*;
use core::ops::{Add, Mul, Neg};
use vstd::arithmetic::div_mod::{
    lemma_add_mod_noop, lemma_add_mod_noop_right, lemma_fundamental_div_mod,
    lemma_mod_add_multiples_vanish, lemma_mod_bound, lemma_mod_multiples_basic,
    lemma_mod_multiples_vanish, lemma_mod_twice, lemma_mul_mod_noop_left,
    lemma_mul_mod_noop_right, lemma_small_mod, lemma_sub_mod_noop_right,
};
use vstd::std_specs::cmp::PartialEqSpecImpl;
use vstd::std_specs::convert::FromSpecImpl;
use vstd::std_specs::ops::{AddSpecImpl, MulSpecImpl, NegSpecImpl};

verus! {

/// The order of the group: `2^252 + 27742317777372353535851937790883648493`.
pub open spec fn group_order() -> nat {
    7237005577332262213973186563042994240857116359379907606001950938285454250989nat
}

/// Addition in the field of integers modulo [`group_order`].
pub open spec fn field_add(a: nat, b: nat) -> nat {
    (a + b) % group_order()
}

/// The additive inverse in the field of integers modulo [`group_order`].
pub open spec fn field_neg(a: nat) -> nat {
    ((group_order() - a % group_order()) as nat) % group_order()
}

/// Multiplication in the field of integers modulo [`group_order`].
pub open spec fn field_mul(a: nat, b: nat) -> nat {
    (a * b) % group_order()
}

/// The number that a little-endian byte string encodes.
pub open spec fn le_value(bytes: Seq<u8>) -> nat
    decreases bytes.len(),
{
    if bytes.len() == 0 {
        0
    } else {
        bytes[0] as nat + 256 * le_value(bytes.drop_first())
    }
}

/// The results of the field operations are field elements.
pub proof fn lemma_field_bounds(a: nat, b: nat)
    ensures
        field_add(a, b) < group_order(),
        field_neg(a) < group_order(),
        field_mul(a, b) < group_order(),
{
    let m = group_order() as int;
    lemma_mod_bound((a + b) as int, m);
    lemma_mod_bound(m - a % group_order(), m);
    lemma_mod_bound((a * b) as int, m);
}

/// 0 is the neutral element of addition.
pub proof fn lemma_field_add_zero(a: nat)
    requires
        a < group_order(),
    ensures
        field_add(a, 0) == a,
        field_add(0, a) == a,
        field_neg(0) == 0,
{
    lemma_small_mod(a, group_order());
}

/// Addition is commutative.
pub proof fn lemma_field_add_commutes(a: nat, b: nat)
    ensures
        field_add(a, b) == field_add(b, a),
{
}

/// Addition is associative.
pub proof fn lemma_field_add_associates(a: nat, b: nat, c: nat)
    ensures
        field_add(field_add(a, b), c) == field_add(a, field_add(b, c)),
{
    let m = group_order() as int;
    lemma_add_mod_noop_right(c as int, (a + b) as int, m);
    lemma_add_mod_noop_right(a as int, (b + c) as int, m);
}

/// A field element and its additive inverse add up to 0.
pub proof fn lemma_field_neg_cancels(a: nat)
    ensures
        field_add(a, field_neg(a)) == 0,
{
    let m = group_order() as int;
    let r = (a as int) % m;
    lemma_add_mod_noop_right(a as int, m - r, m);
    lemma_fundamental_div_mod(a as int, m);
    assert(a + (m - r) == (a as int / m + 1) * m) by (nonlinear_arith)
        requires
            a as int == m * (a as int / m) + r,
    ;
    lemma_mod_multiples_basic(a as int / m + 1, m);
}

/// The inverse of a sum is the sum of the inverses.
pub proof fn lemma_field_neg_add(a: nat, b: nat)
    ensures
        field_neg(field_add(a, b)) == field_add(field_neg(a), field_neg(b)),
{
    let m = group_order() as int;
    let x = a as int;
    let y = b as int;
    lemma_mod_twice(x + y, m);
    lemma_sub_mod_noop_right(m, x + y, m);
    assert(field_neg(field_add(a, b)) == (m - (x + y)) % m);
    lemma_add_mod_noop(m - x % m, m - y % m, m);
    lemma_sub_mod_noop_right(2 * m - x % m, y, m);
    lemma_sub_mod_noop_right(2 * m - y, x, m);
    assert((2 * m - x % m) - y == (2 * m - y) - x % m);
    lemma_mod_add_multiples_vanish(m - (x + y), m);
    assert(m + (m - (x + y)) == (2 * m - y) - x);
}

/// The inverse of the inverse of a field element is the element.
pub proof fn lemma_field_neg_twice(a: nat)
    requires
        a < group_order(),
    ensures
        field_neg(field_neg(a)) == a,
{
    let m = group_order();
    lemma_small_mod(a, m);
    if a == 0 {
        assert(field_neg(0) == 0);
    } else {
        lemma_small_mod((m - a) as nat, m);
    }
}

/// 1 is the neutral element of multiplication.
pub proof fn lemma_field_mul_one(a: nat)
    requires
        a < group_order(),
    ensures
        field_mul(a, 1) == a,
        field_mul(1, a) == a,
{
    lemma_small_mod(a, group_order());
}

/// Multiplication is commutative.
pub proof fn lemma_field_mul_commutes(a: nat, b: nat)
    ensures
        field_mul(a, b) == field_mul(b, a),
{
    assert(a * b == b * a) by (nonlinear_arith);
}

/// Multiplication is associative.
pub proof fn lemma_field_mul_associates(a: nat, b: nat, c: nat)
    ensures
        field_mul(field_mul(a, b), c) == field_mul(a, field_mul(b, c)),
{
    let m = group_order() as int;
    lemma_mul_mod_noop_left((a * b) as int, c as int, m);
    lemma_mul_mod_noop_right(a as int, (b * c) as int, m);
    assert((a * b) * c == a * (b * c)) by (nonlinear_arith);
}

/// The product with an inverse is the inverse of the product.
pub proof fn lemma_field_mul_neg(a: nat, b: nat)
    ensures
        field_mul(field_neg(a), b) == field_neg(field_mul(a, b)),
{
    let m = group_order() as int;
    let r = (a as int) % m;
    let x = a as int;
    let y = b as int;
    lemma_mod_bound(x, m);
    lemma_mul_mod_noop_left(m - r, y, m);
    assert((m - r) * y == m * y + (-(r * y))) by (nonlinear_arith);
    lemma_mod_multiples_vanish(y, -(r * y), m);
    assert(field_mul(field_neg(a), b) == (-(r * y)) % m);
    lemma_sub_mod_noop_right(0, r * y, m);
    lemma_mul_mod_noop_left(x, y, m);
    lemma_sub_mod_noop_right(0, x * y, m);
    assert((-(r * y)) % m == (-(x * y)) % m);
    lemma_mod_twice(x * y, m);
    lemma_sub_mod_noop_right(m, x * y, m);
    lemma_mod_add_multiples_vanish(-(x * y), m);
    assert(field_neg(field_mul(a, b)) == (m - x * y) % m);
}

/// Multiplication distributes over addition.
pub proof fn lemma_field_mul_distributes(a: nat, b: nat, s: nat)
    ensures
        field_mul(field_add(a, b), s) == field_add(field_mul(a, s), field_mul(b, s)),
        field_mul(0, s) == 0,
{
    let m = group_order() as int;
    lemma_mul_mod_noop_left((a + b) as int, s as int, m);
    lemma_add_mod_noop((a * s) as int, (b * s) as int, m);
    assert((a + b) * s == a * s + b * s) by (nonlinear_arith);
    assert(0 * s == 0) by (nonlinear_arith);
}

/// Byte strings of one length that encode the same number are equal.
pub proof fn lemma_le_value_injective(a: Seq<u8>, b: Seq<u8>)
    requires
        a.len() == b.len(),
        le_value(a) == le_value(b),
    ensures
        a == b,
    decreases a.len(),
{
    if a.len() > 0 {
        let x = le_value(a.drop_first());
        let y = le_value(b.drop_first());
        assert(a[0] as nat + 256 * x == b[0] as nat + 256 * y);
        assert(x == y && a[0] == b[0]) by (nonlinear_arith)
            requires
                a[0] as nat + 256 * x == b[0] as nat + 256 * y,
                a[0] < 256,
                b[0] < 256,
        ;
        lemma_le_value_injective(a.drop_first(), b.drop_first());
        assert(a =~= seq![a[0]] + a.drop_first());
        assert(b =~= seq![b[0]] + b.drop_first());
    } else {
        assert(a =~= b);
    }
}

/// An element of the field of integers modulo [`group_order`].
///
/// Every scalar that this module hands out is canonical, and two canonical
/// scalars are equal exactly if they stand for the same field element.
#[derive(Clone, Copy, Debug, Eq, Hash)]
pub struct Scalar {
    bytes: [u8; 32],
}

impl PartialEq for Scalar {
    /// Whether the two scalars stand for the same field element. The
    /// comparison takes the same time whatever the scalars are.
    fn eq(&self, other: &Scalar) -> (r: bool) {
        dalek_eq(self, other)
    }
}

impl PartialEqSpecImpl for Scalar {
    open spec fn obeys_eq_spec() -> bool {
        true
    }

    open spec fn eq_spec(&self, other: &Scalar) -> bool {
        self@ == other@
    }
}

impl View for Scalar {
    type V = nat;

    /// The field element that the scalar stands for.
    open spec fn view(&self) -> nat {
        self.encoded() % group_order()
    }
}

impl Scalar {
    /// The 32 bytes of the scalar.
    pub closed spec fn encoding(&self) -> Seq<u8> {
        self.bytes@
    }

    /// The number that the bytes encode, in little-endian order.
    pub open spec fn encoded(&self) -> nat {
        le_value(self.encoding())
    }

    /// The bytes encode the field element itself, not a larger number that
    /// reduces to it.
    pub open spec fn is_canonical(&self) -> bool {
        self.encoded() < group_order()
    }

    /// Scalars whose bytes encode the same number are the same scalar.
    pub proof fn lemma_encoded_injective(self, other: Scalar)
        requires
            self.encoded() == other.encoded(),
        ensures
            self == other,
    {
        lemma_le_value_injective(self.bytes@, other.bytes@);
        assert(self.bytes =~= other.bytes);
    }

    /// Canonical scalars that stand for the same field element are the same
    /// scalar.
    pub proof fn lemma_canonical_unique(self, other: Scalar)
        requires
            self.is_canonical(),
            other.is_canonical(),
            self@ == other@,
        ensures
            self == other,
    {
        self.lemma_encoded_injective(other);
    }

    /// A canonical scalar stands for the number that its bytes encode, and
    /// every scalar stands for a field element.
    pub proof fn lemma_view(self)
        ensures
            self@ < group_order(),
            self.is_canonical() ==> self@ == self.encoded(),
    {
        lemma_mod_bound(self.encoded() as int, group_order() as int);
        if self.is_canonical() {
            lemma_small_mod(self.encoded(), group_order());
        }
    }

    /// The scalar `0`.
    pub fn zero() -> (r: Scalar)
        ensures
            r.encoded() == 0,
    {
        dalek_zero()
    }

    /// The scalar `1`.
    pub fn one() -> (r: Scalar)
        ensures
            r.encoded() == 1,
    {
        dalek_one()
    }

    /// The scalar that a 256-bit little-endian number reduces to.
    pub fn from_bytes_mod_order(bytes: [u8; 32]) -> (r: Scalar)
        ensures
            r.encoded() == le_value(bytes@) % group_order(),
    {
        dalek_reduce(bytes)
    }

    /// The bytes of the scalar.
    pub fn to_bytes(&self) -> (r: [u8; 32])
        ensures
            r@ == self.encoding(),
    {
        self.bytes
    }
}

impl From<u8> for Scalar {
    /// The scalar of a number below the group order.
    fn from(x: u8) -> (r: Scalar)
        ensures
            r.encoded() == x,
    {
        dalek_from_u64(x as u64)
    }
}

/// The contract stands on the method itself, as its `ensures`.
impl FromSpecImpl<u8> for Scalar {
    open spec fn obeys_from_spec() -> bool {
        false
    }

    open spec fn from_spec(x: u8) -> Scalar {
        arbitrary()
    }
}

impl From<u16> for Scalar {
    /// The scalar of a number below the group order.
    fn from(x: u16) -> (r: Scalar)
        ensures
            r.encoded() == x,
    {
        dalek_from_u64(x as u64)
    }
}

/// The contract stands on the method itself, as its `ensures`.
impl FromSpecImpl<u16> for Scalar {
    open spec fn obeys_from_spec() -> bool {
        false
    }

    open spec fn from_spec(x: u16) -> Scalar {
        arbitrary()
    }
}

impl From<u32> for Scalar {
    /// The scalar of a number below the group order.
    fn from(x: u32) -> (r: Scalar)
        ensures
            r.encoded() == x,
    {
        dalek_from_u64(x as u64)
    }
}

/// The contract stands on the method itself, as its `ensures`.
impl FromSpecImpl<u32> for Scalar {
    open spec fn obeys_from_spec() -> bool {
        false
    }

    open spec fn from_spec(x: u32) -> Scalar {
        arbitrary()
    }
}

impl From<u64> for Scalar {
    /// The scalar of a number below the group order.
    fn from(x: u64) -> (r: Scalar)
        ensures
            r.encoded() == x,
    {
        dalek_from_u64(x)
    }
}

/// The contract stands on the method itself, as its `ensures`.
impl FromSpecImpl<u64> for Scalar {
    open spec fn obeys_from_spec() -> bool {
        false
    }

    open spec fn from_spec(x: u64) -> Scalar {
        arbitrary()
    }
}

impl From<u128> for Scalar {
    /// The scalar of a number below the group order.
    fn from(x: u128) -> (r: Scalar)
        ensures
            r.encoded() == x,
    {
        dalek_from_u128(x)
    }
}

/// The contract stands on the method itself, as its `ensures`.
impl FromSpecImpl<u128> for Scalar {
    open spec fn obeys_from_spec() -> bool {
        false
    }

    open spec fn from_spec(x: u128) -> Scalar {
        arbitrary()
    }
}

impl Neg for Scalar {
    type Output = Scalar;

    /// The canonical scalar of the additive inverse.
    fn neg(self) -> (r: Scalar)
        ensures
            r.encoded() == field_neg(self@),
    {
        dalek_neg(self)
    }
}

/// The contract stands on the method itself, as its `ensures`.
impl NegSpecImpl for Scalar {
    open spec fn obeys_neg_spec() -> bool {
        false
    }

    open spec fn neg_req(self) -> bool {
        true
    }

    open spec fn neg_spec(self) -> Scalar {
        arbitrary()
    }
}

impl Add<Scalar> for Scalar {
    type Output = Scalar;

    /// The canonical scalar of the sum.
    fn add(self, rhs: Scalar) -> (r: Scalar)
        ensures
            r.encoded() == field_add(self@, rhs@),
    {
        dalek_add(self, rhs)
    }
}

/// The contract stands on the method itself, as its `ensures`.
impl AddSpecImpl<Scalar> for Scalar {
    open spec fn obeys_add_spec() -> bool {
        false
    }

    open spec fn add_req(self, rhs: Scalar) -> bool {
        true
    }

    open spec fn add_spec(self, rhs: Scalar) -> Scalar {
        arbitrary()
    }
}

impl Mul<Scalar> for Scalar {
    type Output = Scalar;

    /// The canonical scalar of the product.
    fn mul(self, rhs: Scalar) -> (r: Scalar)
        ensures
            r.encoded() == field_mul(self@, rhs@),
    {
        dalek_mul(self, rhs)
    }
}

/// The contract stands on the method itself, as its `ensures`.
impl MulSpecImpl<Scalar> for Scalar {
    open spec fn obeys_mul_spec() -> bool {
        false
    }

    open spec fn mul_req(self, rhs: Scalar) -> bool {
        true
    }

    open spec fn mul_spec(self, rhs: Scalar) -> Scalar {
        arbitrary()
    }
}

/// `From<T> for T` of the standard library hands its argument back.
pub assume_specification<T>[ <T as core::convert::From<T>>::from ](t: T) -> (r: T)
    ensures
        r == t,
;

/// `curve25519_dalek::scalar::Scalar::zero`: the scalar whose bytes encode 0.
#[verifier::external_body]
fn dalek_zero() -> (r: Scalar)
    ensures
        r.encoded() == 0,
{
    Scalar { bytes: curve25519_dalek::scalar::Scalar::zero().to_bytes() }
}

/// `curve25519_dalek::scalar::Scalar::one`: the scalar whose bytes encode 1.
#[verifier::external_body]
fn dalek_one() -> (r: Scalar)
    ensures
        r.encoded() == 1,
{
    Scalar { bytes: curve25519_dalek::scalar::Scalar::one().to_bytes() }
}

/// `curve25519_dalek::scalar::Scalar::from_bytes_mod_order`: reads the bytes
/// as a 256-bit little-endian number and returns the canonical scalar of its
/// residue modulo the group order.
#[verifier::external_body]
fn dalek_reduce(bytes: [u8; 32]) -> (r: Scalar)
    ensures
        r.encoded() == le_value(bytes@) % group_order(),
{
    Scalar { bytes: curve25519_dalek::scalar::Scalar::from_bytes_mod_order(bytes).to_bytes() }
}

/// `PartialEq` of `curve25519_dalek::scalar::Scalar`, on the reduced
/// arguments: compares the bytes of the two canonical scalars in constant
/// time, and they are equal exactly if the field elements are.
#[verifier::external_body]
fn dalek_eq(a: &Scalar, b: &Scalar) -> (r: bool)
    ensures
        r == (a@ == b@),
{
    let x = curve25519_dalek::scalar::Scalar::from_bytes_mod_order(a.bytes);
    let y = curve25519_dalek::scalar::Scalar::from_bytes_mod_order(b.bytes);
    x == y
}

/// `From<u64>` of `curve25519_dalek::scalar::Scalar`: writes the number in
/// little-endian order into the first eight of 32 zero bytes, so the bytes
/// encode the number itself.
#[verifier::external_body]
fn dalek_from_u64(x: u64) -> (r: Scalar)
    ensures
        r.encoded() == x,
{
    Scalar { bytes: curve25519_dalek::scalar::Scalar::from(x).to_bytes() }
}

/// `From<u128>` of `curve25519_dalek::scalar::Scalar`: writes the number in
/// little-endian order into the first sixteen of 32 zero bytes, so the bytes
/// encode the number itself.
#[verifier::external_body]
fn dalek_from_u128(x: u128) -> (r: Scalar)
    ensures
        r.encoded() == x,
{
    Scalar { bytes: curve25519_dalek::scalar::Scalar::from(x).to_bytes() }
}

/// `Neg` of `curve25519_dalek::scalar::Scalar`, on the reduced argument: the
/// canonical scalar of the additive inverse modulo the group order.
#[verifier::external_body]
fn dalek_neg(a: Scalar) -> (r: Scalar)
    ensures
        r.encoded() == field_neg(a@),
{
    let x = curve25519_dalek::scalar::Scalar::from_bytes_mod_order(a.bytes);
    Scalar { bytes: (-x).to_bytes() }
}

/// `Add` of `curve25519_dalek::scalar::Scalar`, on the reduced arguments: the
/// canonical scalar of the sum modulo the group order.
#[verifier::external_body]
fn dalek_add(a: Scalar, b: Scalar) -> (r: Scalar)
    ensures
        r.encoded() == field_add(a@, b@),
{
    let x = curve25519_dalek::scalar::Scalar::from_bytes_mod_order(a.bytes);
    let y = curve25519_dalek::scalar::Scalar::from_bytes_mod_order(b.bytes);
    Scalar { bytes: (x + y).to_bytes() }
}

/// `Mul` of `curve25519_dalek::scalar::Scalar`, on the reduced arguments: the
/// canonical scalar of the product modulo the group order.
#[verifier::external_body]
fn dalek_mul(a: Scalar, b: Scalar) -> (r: Scalar)
    ensures
        r.encoded() == field_mul(a@, b@),
{
    let x = curve25519_dalek::scalar::Scalar::from_bytes_mod_order(a.bytes);
    let y = curve25519_dalek::scalar::Scalar::from_bytes_mod_order(b.bytes);
    Scalar { bytes: (x * y).to_bytes() }
}

} // verus!
