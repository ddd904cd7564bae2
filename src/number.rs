//! Arbitrary-precision integers, held as a sign and base 2^32 digits. The
//! arithmetic itself is done by `num_bigint`.

use core::cmp::Ordering;
use num_bigint::{BigInt, Sign};
use vstd::math::abs;
use vstd::prelude::*;

verus! {

/// The value of little-endian base 2^32 digits.
pub open spec fn magnitude_value(m: Seq<u32>) -> nat
    decreases m.len(),
{
    if m.len() == 0 {
        0
    } else {
        m[0] as nat + 0x1_0000_0000 * magnitude_value(m.drop_first())
    }
}

pub open spec fn is_digit(c: char) -> bool {
    '0' <= c && c <= '9'
}

/// The value of a run of decimal digits, most significant first.
pub open spec fn decimal_value(ds: Seq<char>) -> nat
    decreases ds.len(),
{
    if ds.len() == 0 {
        0
    } else {
        decimal_value(ds.drop_last()) * 10 + (ds.last() as u32 - '0' as u32) as nat
    }
}

/// Division that rounds toward zero, as integer division does in Rust.
pub open spec fn trunc_div(a: int, b: int) -> int
    recommends
        b != 0,
{
    let q: int = (abs(a) / abs(b)) as int;
    if (a < 0) != (b < 0) {
        -q
    } else {
        q
    }
}

/// A signed integer of any size: `negative` is the sign, `magnitude` the
/// absolute value in little-endian base 2^32 digits. `==` compares values,
/// so a negative zero or trailing zero digits make no difference.
#[derive(Clone, Debug)]
pub struct Int {
    pub negative: bool,
    pub magnitude: Vec<u32>,
}

impl Int {
    pub open spec fn value(&self) -> int {
        if self.negative {
            -magnitude_value(self.magnitude@)
        } else {
            magnitude_value(self.magnitude@) as int
        }
    }

    /// A copy with the same value.
    pub fn clone_int(&self) -> (r: Int)
        ensures
            r.value() == self.value(),
    {
        Int { negative: self.negative, magnitude: self.magnitude.clone() }
    }

    pub fn from_i64(v: i64) -> (r: Int)
        ensures
            r.value() == v,
    {
        big_from_i64(v)
    }

    /// The integer written by a non-empty run of decimal digits.
    pub fn from_digits(ds: &[char]) -> (r: Int)
        requires
            ds@.len() > 0,
            forall|i: int| 0 <= i < ds@.len() ==> is_digit(#[trigger] ds@[i]),
        ensures
            r.value() == decimal_value(ds@),
    {
        big_parse_decimal(ds)
    }

    pub fn add(&self, o: &Int) -> (r: Int)
        ensures
            r.value() == self.value() + o.value(),
    {
        big_add(self, o)
    }

    pub fn sub(&self, o: &Int) -> (r: Int)
        ensures
            r.value() == self.value() - o.value(),
    {
        big_sub(self, o)
    }

    pub fn mul(&self, o: &Int) -> (r: Int)
        ensures
            r.value() == self.value() * o.value(),
    {
        big_mul(self, o)
    }

    /// Division rounding toward zero; `None` when `o` is zero.
    pub fn div(&self, o: &Int) -> (r: Option<Int>)
        ensures
            r is None <==> o.value() == 0,
            r is Some ==> r->0.value() == trunc_div(self.value(), o.value()),
    {
        if is_zero(o) {
            None
        } else {
            Some(big_div(self, o))
        }
    }

    pub fn neg(&self) -> (r: Int)
        ensures
            r.value() == -self.value(),
    {
        let minus_one = Int { negative: true, magnitude: vec![1u32] };
        proof {
            assert(minus_one.magnitude@.len() == 1);
            assert(minus_one.magnitude@[0] == 1);
            assert(magnitude_value(minus_one.magnitude@.drop_first()) == 0);
            assert(magnitude_value(minus_one.magnitude@) == 1);
        }
        self.mul(&minus_one)
    }

    pub fn compare(&self, o: &Int) -> (r: Ordering)
        ensures
            (r == Ordering::Less) == (self.value() < o.value()),
            (r == Ordering::Equal) == (self.value() == o.value()),
            (r == Ordering::Greater) == (self.value() > o.value()),
    {
        big_cmp(self, o)
    }
}

impl PartialEq for Int {
    fn eq(&self, o: &Int) -> (r: bool) {
        matches!(self.compare(o), Ordering::Equal)
    }
}

impl vstd::std_specs::cmp::PartialEqSpecImpl for Int {
    open spec fn obeys_eq_spec() -> bool {
        true
    }

    open spec fn eq_spec(&self, o: &Int) -> bool {
        self.value() == o.value()
    }
}

impl Eq for Int {

}

proof fn lemma_magnitude_zero(m: Seq<u32>)
    ensures
        (magnitude_value(m) == 0) <==> (forall|i: int| 0 <= i < m.len() ==> m[i] == 0),
    decreases m.len(),
{
    if m.len() > 0 {
        lemma_magnitude_zero(m.drop_first());
        if magnitude_value(m) == 0 {
            assert forall|i: int| 0 <= i < m.len() implies m[i] == 0 by {
                if i > 0 {
                    assert(m[i] == m.drop_first()[i - 1]);
                }
            }
        }
        if forall|i: int| 0 <= i < m.len() ==> m[i] == 0 {
            assert forall|i: int| 0 <= i < m.drop_first().len() implies m.drop_first()[i] == 0 by {
                assert(m.drop_first()[i] == m[i + 1]);
            }
            assert(m[0] == 0);
        }
    }
}

fn is_zero(a: &Int) -> (r: bool)
    ensures
        r == (a.value() == 0),
{
    let mut i: usize = 0;
    while i < a.magnitude.len()
        invariant
            i <= a.magnitude@.len(),
            forall|j: int| 0 <= j < i ==> a.magnitude@[j] == 0,
        decreases a.magnitude@.len() - i,
    {
        if a.magnitude[i] != 0 {
            proof {
                lemma_magnitude_zero(a.magnitude@);
                assert(a.magnitude@[i as int] != 0);
            }
            return false;
        }
        i = i + 1;
    }
    proof {
        lemma_magnitude_zero(a.magnitude@);
    }
    true
}

/// Relies on `BigInt: From<i64>` and `BigInt::to_u32_digits`: the same value.
#[verifier::external_body]
fn big_from_i64(v: i64) -> (r: Int)
    ensures
        r.value() == v,
{
    let (sign, magnitude) = BigInt::from(v).to_u32_digits();
    Int { negative: sign == Sign::Minus, magnitude }
}

/// Relies on `BigInt`'s `FromStr`, which reads decimal digits exactly.
#[verifier::external_body]
fn big_parse_decimal(ds: &[char]) -> (r: Int)
    requires
        ds@.len() > 0,
        forall|i: int| 0 <= i < ds@.len() ==> is_digit(#[trigger] ds@[i]),
    ensures
        r.value() == decimal_value(ds@),
{
    let text: String = ds.iter().collect();
    let (sign, magnitude) = text.parse::<BigInt>().unwrap().to_u32_digits();
    Int { negative: sign == Sign::Minus, magnitude }
}

/// Relies on `BigInt`'s `Add`: exact sum.
#[verifier::external_body]
fn big_add(a: &Int, b: &Int) -> (r: Int)
    ensures
        r.value() == a.value() + b.value(),
{
    let x = BigInt::from_slice(if a.negative { Sign::Minus } else { Sign::Plus }, &a.magnitude);
    let y = BigInt::from_slice(if b.negative { Sign::Minus } else { Sign::Plus }, &b.magnitude);
    let (sign, magnitude) = (x + y).to_u32_digits();
    Int { negative: sign == Sign::Minus, magnitude }
}

/// Relies on `BigInt`'s `Sub`: exact difference.
#[verifier::external_body]
fn big_sub(a: &Int, b: &Int) -> (r: Int)
    ensures
        r.value() == a.value() - b.value(),
{
    let x = BigInt::from_slice(if a.negative { Sign::Minus } else { Sign::Plus }, &a.magnitude);
    let y = BigInt::from_slice(if b.negative { Sign::Minus } else { Sign::Plus }, &b.magnitude);
    let (sign, magnitude) = (x - y).to_u32_digits();
    Int { negative: sign == Sign::Minus, magnitude }
}

/// Relies on `BigInt`'s `Mul`: exact product.
#[verifier::external_body]
fn big_mul(a: &Int, b: &Int) -> (r: Int)
    ensures
        r.value() == a.value() * b.value(),
{
    let x = BigInt::from_slice(if a.negative { Sign::Minus } else { Sign::Plus }, &a.magnitude);
    let y = BigInt::from_slice(if b.negative { Sign::Minus } else { Sign::Plus }, &b.magnitude);
    let (sign, magnitude) = (x * y).to_u32_digits();
    Int { negative: sign == Sign::Minus, magnitude }
}

/// Relies on `BigInt`'s `Div`, which rounds toward zero and panics on a zero
/// divisor.
#[verifier::external_body]
fn big_div(a: &Int, b: &Int) -> (r: Int)
    requires
        b.value() != 0,
    ensures
        r.value() == trunc_div(a.value(), b.value()),
{
    let x = BigInt::from_slice(if a.negative { Sign::Minus } else { Sign::Plus }, &a.magnitude);
    let y = BigInt::from_slice(if b.negative { Sign::Minus } else { Sign::Plus }, &b.magnitude);
    let (sign, magnitude) = (x / y).to_u32_digits();
    Int { negative: sign == Sign::Minus, magnitude }
}

/// Relies on `BigInt`'s `Ord`: the order of the values.
#[verifier::external_body]
fn big_cmp(a: &Int, b: &Int) -> (r: Ordering)
    ensures
        (r == Ordering::Less) == (a.value() < b.value()),
        (r == Ordering::Equal) == (a.value() == b.value()),
        (r == Ordering::Greater) == (a.value() > b.value()),
{
    let x = BigInt::from_slice(if a.negative { Sign::Minus } else { Sign::Plus }, &a.magnitude);
    let y = BigInt::from_slice(if b.negative { Sign::Minus } else { Sign::Plus }, &b.magnitude);
    x.cmp(&y)
}

} // verus!
