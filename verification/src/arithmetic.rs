//! The rounding arithmetic that damage figures are computed in.
//!
//! The figures come from a game that computes in single precision, and totals
//! are kept in double precision. [`Arithmetic`] names the operations and
//! promises nothing of them: a contract that says how a figure comes about
//! names the operations that led to it, and holds however they round.

use vstd::prelude::*;
use crate::outcome;

verus! {

/// The operations on single and double precision numbers.
///
/// No operation carries a promise, so nothing is assumed of an implementation.
pub trait Arithmetic: Sized {
    /// Single precision numbers.
    type Single: Copy;

    /// Double precision numbers.
    type Double: Copy;

    /// The number with this bit pattern.
    fn from_bits(bits: u32) -> Self::Single;

    /// The number nearest to `value`.
    fn from_u64(value: u64) -> Self::Single;

    /// The number nearest to `value`.
    fn from_u32(value: u32) -> Self::Single;

    /// The number nearest to `value`.
    fn from_i32(value: i32) -> Self::Single;

    /// `0`.
    fn zero() -> Self::Single;

    /// `1/2`.
    fn half() -> Self::Single;

    /// `1`.
    fn one() -> Self::Single;

    /// `100`.
    fn hundred() -> Self::Single;

    /// The distance from `1` to the next larger number.
    fn epsilon() -> Self::Single;

    /// `a + b`.
    fn plus(a: Self::Single, b: Self::Single) -> Self::Single;

    /// `a - b`.
    fn minus(a: Self::Single, b: Self::Single) -> Self::Single;

    /// `a * b`.
    fn times(a: Self::Single, b: Self::Single) -> Self::Single;

    /// `a / b`.
    fn divided(a: Self::Single, b: Self::Single) -> Self::Single;

    /// `-a`.
    fn negated(a: Self::Single) -> Self::Single;

    /// `|a|`.
    fn magnitude(a: Self::Single) -> Self::Single;

    /// The larger of two numbers.
    fn larger(a: Self::Single, b: Self::Single) -> Self::Single;

    /// The smaller of two numbers.
    fn smaller(a: Self::Single, b: Self::Single) -> Self::Single;

    /// Whether `a` is neither infinite nor a NaN.
    fn is_finite(a: Self::Single) -> bool;

    /// `a > b`.
    fn above(a: Self::Single, b: Self::Single) -> bool;

    /// `a < b`.
    fn below(a: Self::Single, b: Self::Single) -> bool;

    /// `a <= b`.
    fn at_most(a: Self::Single, b: Self::Single) -> bool;

    /// `a` in double precision.
    fn widened(a: Self::Single) -> Self::Double;

    /// The single precision number nearest to `a`.
    fn narrowed(a: Self::Double) -> Self::Single;

    /// The double precision number nearest to `value`.
    fn wide_from_u64(value: u64) -> Self::Double;

    /// `0`.
    fn wide_zero() -> Self::Double;

    /// `a + b`.
    fn wide_plus(a: Self::Double, b: Self::Double) -> Self::Double;

    /// `a * b`.
    fn wide_times(a: Self::Double, b: Self::Double) -> Self::Double;

    /// `a / b`.
    fn wide_divided(a: Self::Double, b: Self::Double) -> Self::Double;

    /// The larger of two numbers.
    fn wide_larger(a: Self::Double, b: Self::Double) -> Self::Double;

    /// `a > b`.
    fn wide_above(a: Self::Double, b: Self::Double) -> bool;

    /// `a <= b`.
    fn wide_at_most(a: Self::Double, b: Self::Double) -> bool;
}

/// The outcomes of naming `0`.
pub open spec fn zero<A: Arithmetic>() -> Set<A::Single> {
    Set::new(|r: A::Single| call_ensures(A::zero, (), r))
}

/// The outcomes of naming `1/2`.
pub open spec fn half<A: Arithmetic>() -> Set<A::Single> {
    Set::new(|r: A::Single| call_ensures(A::half, (), r))
}

/// The outcomes of naming `1`.
pub open spec fn one<A: Arithmetic>() -> Set<A::Single> {
    Set::new(|r: A::Single| call_ensures(A::one, (), r))
}

/// The outcomes of naming `100`.
pub open spec fn hundred<A: Arithmetic>() -> Set<A::Single> {
    Set::new(|r: A::Single| call_ensures(A::hundred, (), r))
}

/// The outcomes of naming the rounding unit of `1`.
pub open spec fn epsilon<A: Arithmetic>() -> Set<A::Single> {
    Set::new(|r: A::Single| call_ensures(A::epsilon, (), r))
}

/// The outcomes of naming `0` in double precision.
pub open spec fn wide_zero<A: Arithmetic>() -> Set<A::Double> {
    Set::new(|r: A::Double| call_ensures(A::wide_zero, (), r))
}

/// The outcomes of reading a bit pattern as a number.
pub open spec fn bits<A: Arithmetic>(value: u32) -> Set<A::Single> {
    Set::new(|r: A::Single| call_ensures(A::from_bits, (value,), r))
}

/// The outcomes of rounding a count to a number.
pub open spec fn of_u64<A: Arithmetic>(value: u64) -> Set<A::Single> {
    Set::new(|r: A::Single| call_ensures(A::from_u64, (value,), r))
}

/// The outcomes of rounding a count to a number.
pub open spec fn of_u32<A: Arithmetic>(value: u32) -> Set<A::Single> {
    Set::new(|r: A::Single| call_ensures(A::from_u32, (value,), r))
}

/// The outcomes of rounding an integer to a number.
pub open spec fn of_i32<A: Arithmetic>(value: i32) -> Set<A::Single> {
    Set::new(|r: A::Single| call_ensures(A::from_i32, (value,), r))
}

/// The outcomes of rounding a count to double precision.
pub open spec fn wide_of_u64<A: Arithmetic>(value: u64) -> Set<A::Double> {
    Set::new(|r: A::Double| call_ensures(A::wide_from_u64, (value,), r))
}

/// The outcomes of adding two numbers.
pub open spec fn sum<A: Arithmetic>(a: Set<A::Single>, b: Set<A::Single>) -> Set<A::Single> {
    Set::new(
        |r: A::Single|
            exists|x: A::Single, y: A::Single|
                a.contains(x) && b.contains(y) && #[trigger] call_ensures(A::plus, (x, y), r),
    )
}

/// The outcomes of subtracting two numbers.
pub open spec fn difference<A: Arithmetic>(a: Set<A::Single>, b: Set<A::Single>) -> Set<A::Single> {
    Set::new(
        |r: A::Single|
            exists|x: A::Single, y: A::Single|
                a.contains(x) && b.contains(y) && #[trigger] call_ensures(A::minus, (x, y), r),
    )
}

/// The outcomes of multiplying two numbers.
pub open spec fn product<A: Arithmetic>(a: Set<A::Single>, b: Set<A::Single>) -> Set<A::Single> {
    Set::new(
        |r: A::Single|
            exists|x: A::Single, y: A::Single|
                a.contains(x) && b.contains(y) && #[trigger] call_ensures(A::times, (x, y), r),
    )
}

/// The outcomes of dividing two numbers.
pub open spec fn quotient<A: Arithmetic>(a: Set<A::Single>, b: Set<A::Single>) -> Set<A::Single> {
    Set::new(
        |r: A::Single|
            exists|x: A::Single, y: A::Single|
                a.contains(x) && b.contains(y) && #[trigger] call_ensures(A::divided, (x, y), r),
    )
}

/// The outcomes of taking the larger of two numbers.
pub open spec fn maximum<A: Arithmetic>(a: Set<A::Single>, b: Set<A::Single>) -> Set<A::Single> {
    Set::new(
        |r: A::Single|
            exists|x: A::Single, y: A::Single|
                a.contains(x) && b.contains(y) && #[trigger] call_ensures(A::larger, (x, y), r),
    )
}

/// The outcomes of taking the smaller of two numbers.
pub open spec fn minimum<A: Arithmetic>(a: Set<A::Single>, b: Set<A::Single>) -> Set<A::Single> {
    Set::new(
        |r: A::Single|
            exists|x: A::Single, y: A::Single|
                a.contains(x) && b.contains(y) && #[trigger] call_ensures(A::smaller, (x, y), r),
    )
}

/// The outcomes of turning a sign.
pub open spec fn opposite<A: Arithmetic>(a: Set<A::Single>) -> Set<A::Single> {
    Set::new(
        |r: A::Single|
            exists|x: A::Single| a.contains(x) && #[trigger] call_ensures(A::negated, (x,), r),
    )
}

/// The outcomes of taking an absolute value.
pub open spec fn magnitude<A: Arithmetic>(a: Set<A::Single>) -> Set<A::Single> {
    Set::new(
        |r: A::Single|
            exists|x: A::Single| a.contains(x) && #[trigger] call_ensures(A::magnitude, (x,), r),
    )
}

/// The outcomes of testing that a number is finite.
pub open spec fn finite<A: Arithmetic>(a: Set<A::Single>) -> Set<bool> {
    Set::new(
        |r: bool|
            exists|x: A::Single| a.contains(x) && #[trigger] call_ensures(A::is_finite, (x,), r),
    )
}

/// The outcomes of testing `a > b`.
pub open spec fn exceeds<A: Arithmetic>(a: Set<A::Single>, b: Set<A::Single>) -> Set<bool> {
    Set::new(
        |r: bool|
            exists|x: A::Single, y: A::Single|
                a.contains(x) && b.contains(y) && #[trigger] call_ensures(A::above, (x, y), r),
    )
}

/// The outcomes of testing `a < b`.
pub open spec fn falls_below<A: Arithmetic>(a: Set<A::Single>, b: Set<A::Single>) -> Set<bool> {
    Set::new(
        |r: bool|
            exists|x: A::Single, y: A::Single|
                a.contains(x) && b.contains(y) && #[trigger] call_ensures(A::below, (x, y), r),
    )
}

/// The outcomes of testing `a <= b`.
pub open spec fn at_most<A: Arithmetic>(a: Set<A::Single>, b: Set<A::Single>) -> Set<bool> {
    Set::new(
        |r: bool|
            exists|x: A::Single, y: A::Single|
                a.contains(x) && b.contains(y) && #[trigger] call_ensures(A::at_most, (x, y), r),
    )
}

/// The outcomes of widening a number.
pub open spec fn widened<A: Arithmetic>(a: Set<A::Single>) -> Set<A::Double> {
    Set::new(
        |r: A::Double|
            exists|x: A::Single| a.contains(x) && #[trigger] call_ensures(A::widened, (x,), r),
    )
}

/// The outcomes of narrowing a number.
pub open spec fn narrowed<A: Arithmetic>(a: Set<A::Double>) -> Set<A::Single> {
    Set::new(
        |r: A::Single|
            exists|x: A::Double| a.contains(x) && #[trigger] call_ensures(A::narrowed, (x,), r),
    )
}

/// The outcomes of adding two double precision numbers.
pub open spec fn wide_sum<A: Arithmetic>(a: Set<A::Double>, b: Set<A::Double>) -> Set<A::Double> {
    Set::new(
        |r: A::Double|
            exists|x: A::Double, y: A::Double|
                a.contains(x) && b.contains(y) && #[trigger] call_ensures(A::wide_plus, (x, y), r),
    )
}

/// The outcomes of multiplying two double precision numbers.
pub open spec fn wide_product<A: Arithmetic>(a: Set<A::Double>, b: Set<A::Double>) -> Set<A::Double> {
    Set::new(
        |r: A::Double|
            exists|x: A::Double, y: A::Double|
                a.contains(x) && b.contains(y) && #[trigger] call_ensures(A::wide_times, (x, y), r),
    )
}

/// The outcomes of dividing two double precision numbers.
pub open spec fn wide_quotient<A: Arithmetic>(a: Set<A::Double>, b: Set<A::Double>) -> Set<A::Double> {
    Set::new(
        |r: A::Double|
            exists|x: A::Double, y: A::Double|
                a.contains(x) && b.contains(y) && #[trigger] call_ensures(A::wide_divided, (x, y), r),
    )
}

/// The outcomes of taking the larger of two double precision numbers.
pub open spec fn wide_maximum<A: Arithmetic>(a: Set<A::Double>, b: Set<A::Double>) -> Set<A::Double> {
    Set::new(
        |r: A::Double|
            exists|x: A::Double, y: A::Double|
                a.contains(x) && b.contains(y) && #[trigger] call_ensures(A::wide_larger, (x, y), r),
    )
}

/// The outcomes of testing `a > b` in double precision.
pub open spec fn wide_exceeds<A: Arithmetic>(a: Set<A::Double>, b: Set<A::Double>) -> Set<bool> {
    Set::new(
        |r: bool|
            exists|x: A::Double, y: A::Double|
                a.contains(x) && b.contains(y) && #[trigger] call_ensures(A::wide_above, (x, y), r),
    )
}

/// The outcomes of testing `a <= b` in double precision.
pub open spec fn wide_at_most<A: Arithmetic>(a: Set<A::Double>, b: Set<A::Double>) -> Set<bool> {
    Set::new(
        |r: bool|
            exists|x: A::Double, y: A::Double|
                a.contains(x) && b.contains(y) && #[trigger] call_ensures(A::wide_at_most, (x, y), r),
    )
}

/// Whether every operation gives the same answer each time.
pub open spec fn is_repeatable<A: Arithmetic>() -> bool {
    &&& forall|x: u32, r: A::Single, s: A::Single| #[trigger]
        call_ensures(A::from_bits, (x,), r) && #[trigger] call_ensures(A::from_bits, (x,), s) ==> r
            == s
    &&& forall|x: u64, r: A::Single, s: A::Single| #[trigger]
        call_ensures(A::from_u64, (x,), r) && #[trigger] call_ensures(A::from_u64, (x,), s) ==> r
            == s
    &&& forall|x: u32, r: A::Single, s: A::Single| #[trigger]
        call_ensures(A::from_u32, (x,), r) && #[trigger] call_ensures(A::from_u32, (x,), s) ==> r
            == s
    &&& forall|x: i32, r: A::Single, s: A::Single| #[trigger]
        call_ensures(A::from_i32, (x,), r) && #[trigger] call_ensures(A::from_i32, (x,), s) ==> r
            == s
    &&& forall|r: A::Single, s: A::Single| #[trigger]
        call_ensures(A::zero, (), r) && #[trigger] call_ensures(A::zero, (), s) ==> r
            == s
    &&& forall|r: A::Single, s: A::Single| #[trigger]
        call_ensures(A::half, (), r) && #[trigger] call_ensures(A::half, (), s) ==> r
            == s
    &&& forall|r: A::Single, s: A::Single| #[trigger]
        call_ensures(A::one, (), r) && #[trigger] call_ensures(A::one, (), s) ==> r
            == s
    &&& forall|r: A::Single, s: A::Single| #[trigger]
        call_ensures(A::hundred, (), r) && #[trigger] call_ensures(A::hundred, (), s) ==> r
            == s
    &&& forall|r: A::Single, s: A::Single| #[trigger]
        call_ensures(A::epsilon, (), r) && #[trigger] call_ensures(A::epsilon, (), s) ==> r
            == s
    &&& forall|x: A::Single, y: A::Single, r: A::Single, s: A::Single| #[trigger]
        call_ensures(A::plus, (x, y), r) && #[trigger] call_ensures(A::plus, (x, y), s) ==> r
            == s
    &&& forall|x: A::Single, y: A::Single, r: A::Single, s: A::Single| #[trigger]
        call_ensures(A::minus, (x, y), r) && #[trigger] call_ensures(A::minus, (x, y), s) ==> r
            == s
    &&& forall|x: A::Single, y: A::Single, r: A::Single, s: A::Single| #[trigger]
        call_ensures(A::times, (x, y), r) && #[trigger] call_ensures(A::times, (x, y), s) ==> r
            == s
    &&& forall|x: A::Single, y: A::Single, r: A::Single, s: A::Single| #[trigger]
        call_ensures(A::divided, (x, y), r) && #[trigger] call_ensures(A::divided, (x, y), s) ==> r
            == s
    &&& forall|x: A::Single, r: A::Single, s: A::Single| #[trigger]
        call_ensures(A::negated, (x,), r) && #[trigger] call_ensures(A::negated, (x,), s) ==> r
            == s
    &&& forall|x: A::Single, r: A::Single, s: A::Single| #[trigger]
        call_ensures(A::magnitude, (x,), r) && #[trigger] call_ensures(A::magnitude, (x,), s) ==> r
            == s
    &&& forall|x: A::Single, y: A::Single, r: A::Single, s: A::Single| #[trigger]
        call_ensures(A::larger, (x, y), r) && #[trigger] call_ensures(A::larger, (x, y), s) ==> r
            == s
    &&& forall|x: A::Single, y: A::Single, r: A::Single, s: A::Single| #[trigger]
        call_ensures(A::smaller, (x, y), r) && #[trigger] call_ensures(A::smaller, (x, y), s) ==> r
            == s
    &&& forall|x: A::Single, r: bool, s: bool| #[trigger]
        call_ensures(A::is_finite, (x,), r) && #[trigger] call_ensures(A::is_finite, (x,), s) ==> r
            == s
    &&& forall|x: A::Single, y: A::Single, r: bool, s: bool| #[trigger]
        call_ensures(A::above, (x, y), r) && #[trigger] call_ensures(A::above, (x, y), s) ==> r
            == s
    &&& forall|x: A::Single, y: A::Single, r: bool, s: bool| #[trigger]
        call_ensures(A::below, (x, y), r) && #[trigger] call_ensures(A::below, (x, y), s) ==> r
            == s
    &&& forall|x: A::Single, y: A::Single, r: bool, s: bool| #[trigger]
        call_ensures(A::at_most, (x, y), r) && #[trigger] call_ensures(A::at_most, (x, y), s) ==> r
            == s
    &&& forall|x: A::Single, r: A::Double, s: A::Double| #[trigger]
        call_ensures(A::widened, (x,), r) && #[trigger] call_ensures(A::widened, (x,), s) ==> r
            == s
    &&& forall|x: A::Double, r: A::Single, s: A::Single| #[trigger]
        call_ensures(A::narrowed, (x,), r) && #[trigger] call_ensures(A::narrowed, (x,), s) ==> r
            == s
    &&& forall|x: u64, r: A::Double, s: A::Double| #[trigger]
        call_ensures(A::wide_from_u64, (x,), r) && #[trigger] call_ensures(A::wide_from_u64, (x,), s) ==> r
            == s
    &&& forall|r: A::Double, s: A::Double| #[trigger]
        call_ensures(A::wide_zero, (), r) && #[trigger] call_ensures(A::wide_zero, (), s) ==> r
            == s
    &&& forall|x: A::Double, y: A::Double, r: A::Double, s: A::Double| #[trigger]
        call_ensures(A::wide_plus, (x, y), r) && #[trigger] call_ensures(A::wide_plus, (x, y), s) ==> r
            == s
    &&& forall|x: A::Double, y: A::Double, r: A::Double, s: A::Double| #[trigger]
        call_ensures(A::wide_times, (x, y), r) && #[trigger] call_ensures(A::wide_times, (x, y), s) ==> r
            == s
    &&& forall|x: A::Double, y: A::Double, r: A::Double, s: A::Double| #[trigger]
        call_ensures(A::wide_divided, (x, y), r) && #[trigger] call_ensures(A::wide_divided, (x, y), s) ==> r
            == s
    &&& forall|x: A::Double, y: A::Double, r: A::Double, s: A::Double| #[trigger]
        call_ensures(A::wide_larger, (x, y), r) && #[trigger] call_ensures(A::wide_larger, (x, y), s) ==> r
            == s
    &&& forall|x: A::Double, y: A::Double, r: bool, s: bool| #[trigger]
        call_ensures(A::wide_above, (x, y), r) && #[trigger] call_ensures(A::wide_above, (x, y), s) ==> r
            == s
    &&& forall|x: A::Double, y: A::Double, r: bool, s: bool| #[trigger]
        call_ensures(A::wide_at_most, (x, y), r) && #[trigger] call_ensures(A::wide_at_most, (x, y), s) ==> r
            == s
}

/// In an arithmetic that gives the same answer each time, operations on
/// settled numbers settle their result.
pub proof fn lemma_operations_settle<A: Arithmetic>()
    requires
        is_repeatable::<A>(),
    ensures
        outcome::is_settled(zero::<A>()),
        outcome::is_settled(half::<A>()),
        outcome::is_settled(one::<A>()),
        forall|n: i32| outcome::is_settled(#[trigger] of_i32::<A>(n)),
        forall|a: Set<A::Single>, b: Set<A::Single>|
            outcome::is_settled(a) && outcome::is_settled(b) ==> outcome::is_settled(
                #[trigger] sum::<A>(a, b),
            ),
        forall|a: Set<A::Single>, b: Set<A::Single>|
            outcome::is_settled(a) && outcome::is_settled(b) ==> outcome::is_settled(
                #[trigger] difference::<A>(a, b),
            ),
        forall|a: Set<A::Single>, b: Set<A::Single>|
            outcome::is_settled(a) && outcome::is_settled(b) ==> outcome::is_settled(
                #[trigger] product::<A>(a, b),
            ),
        forall|a: Set<A::Single>, b: Set<A::Single>|
            outcome::is_settled(a) && outcome::is_settled(b) ==> outcome::is_settled(
                #[trigger] maximum::<A>(a, b),
            ),
        forall|a: Set<A::Single>, b: Set<A::Single>|
            outcome::is_settled(a) && outcome::is_settled(b) ==> outcome::is_settled(
                #[trigger] minimum::<A>(a, b),
            ),
        forall|a: Set<A::Single>, b: Set<A::Single>|
            outcome::is_settled(a) && outcome::is_settled(b) ==> outcome::is_settled(
                #[trigger] finite_or::<A>(a, b),
            ),
{
}

/// Whether a number is told to be finite, and nothing else.
pub open spec fn is_number<A: Arithmetic>(a: A::Single) -> bool {
    finite::<A>(outcome::exactly(a)) == outcome::exactly(true)
}

/// Whether `a` is told to be at most `b`, and nothing else.
pub open spec fn precedes<A: Arithmetic>(a: A::Single, b: A::Single) -> bool {
    at_most::<A>(outcome::exactly(a), outcome::exactly(b)) == outcome::exactly(true)
}

/// Whether `a` is told to be above `b`, and nothing else.
pub open spec fn surpasses<A: Arithmetic>(a: A::Single, b: A::Single) -> bool {
    exceeds::<A>(outcome::exactly(a), outcome::exactly(b)) == outcome::exactly(true)
}

/// Whether the comparisons agree with each other and with the integers: zero
/// and integers are numbers, a positive integer is above zero, a number is at
/// most itself, a number above another is not at most that other, which is at
/// most it, and the smaller of two numbers is one of them and at most both.
pub open spec fn keeps_order<A: Arithmetic>() -> bool {
    &&& forall|z: A::Single| #[trigger] zero::<A>().contains(z) ==> is_number::<A>(z)
    &&& forall|n: i32, c: A::Single| #[trigger]
        of_i32::<A>(n).contains(c) ==> is_number::<A>(c)
    &&& forall|n: i32, c: A::Single, z: A::Single|
        n > 0 && #[trigger] of_i32::<A>(n).contains(c) && #[trigger] zero::<A>().contains(z)
            ==> surpasses::<A>(c, z)
    &&& forall|a: A::Single| #[trigger] is_number::<A>(a) ==> precedes::<A>(a, a)
    &&& forall|a: A::Single, b: A::Single| #[trigger]
        surpasses::<A>(a, b) ==> precedes::<A>(b, a) && !precedes::<A>(a, b)
    &&& forall|a: A::Single, b: A::Single, r: A::Single|
        is_number::<A>(a) && is_number::<A>(b) && #[trigger] call_ensures(A::smaller, (a, b), r)
            ==> (r == a || r == b) && precedes::<A>(r, a) && precedes::<A>(r, b)
}

/// Whether the operations are exact under a reading of the numbers: `num` and
/// `wide` say which real number a single or double precision number stands for.
/// A quotient is exact where the divisor is not zero. Exact numbers lie without
/// gaps, so nothing separates one from the next number.
pub open spec fn is_exact<A: Arithmetic>(
    num: spec_fn(A::Single) -> real,
    wide: spec_fn(A::Double) -> real,
) -> bool {
    &&& forall|n: u64, r: A::Single| #[trigger]
        call_ensures(A::from_u64, (n,), r) ==> num(r) == n as int as real
    &&& forall|n: u32, r: A::Single| #[trigger]
        call_ensures(A::from_u32, (n,), r) ==> num(r) == n as int as real
    &&& forall|n: i32, r: A::Single| #[trigger]
        call_ensures(A::from_i32, (n,), r) ==> num(r) == n as int as real
    &&& forall|r: A::Single| #[trigger] call_ensures(A::zero, (), r) ==> num(r) == 0int as real
    &&& forall|r: A::Single| #[trigger]
        call_ensures(A::half, (), r) ==> num(r) + num(r) == 1int as real
    &&& forall|r: A::Single| #[trigger] call_ensures(A::one, (), r) ==> num(r) == 1int as real
    &&& forall|r: A::Single| #[trigger]
        call_ensures(A::hundred, (), r) ==> num(r) == 100int as real
    &&& forall|r: A::Single| #[trigger]
        call_ensures(A::epsilon, (), r) ==> num(r) == 0int as real
    &&& forall|x: A::Single, y: A::Single, r: A::Single| #[trigger]
        call_ensures(A::plus, (x, y), r) ==> num(r) == num(x) + num(y)
    &&& forall|x: A::Single, y: A::Single, r: A::Single| #[trigger]
        call_ensures(A::minus, (x, y), r) ==> num(r) == num(x) - num(y)
    &&& forall|x: A::Single, y: A::Single, r: A::Single| #[trigger]
        call_ensures(A::times, (x, y), r) ==> num(r) == num(x) * num(y)
    &&& forall|x: A::Single, y: A::Single, r: A::Single| #[trigger]
        call_ensures(A::divided, (x, y), r) && num(y) != 0int as real ==> num(r) * num(y) == num(x)
    &&& forall|x: A::Single, r: A::Single| #[trigger]
        call_ensures(A::negated, (x,), r) ==> num(r) == -num(x)
    &&& forall|x: A::Single, r: A::Single| #[trigger]
        call_ensures(A::magnitude, (x,), r) ==> num(r) == size(num(x))
    &&& forall|x: A::Single, y: A::Single, r: A::Single| #[trigger]
        call_ensures(A::larger, (x, y), r) ==> num(r) == greater(num(x), num(y))
    &&& forall|x: A::Single, y: A::Single, r: A::Single| #[trigger]
        call_ensures(A::smaller, (x, y), r) ==> num(r) == lesser(num(x), num(y))
    &&& forall|x: A::Single, r: bool| #[trigger] call_ensures(A::is_finite, (x,), r) ==> r
    &&& forall|x: A::Single, y: A::Single, r: bool| #[trigger]
        call_ensures(A::above, (x, y), r) ==> r == (num(x) > num(y))
    &&& forall|x: A::Single, y: A::Single, r: bool| #[trigger]
        call_ensures(A::below, (x, y), r) ==> r == (num(x) < num(y))
    &&& forall|x: A::Single, y: A::Single, r: bool| #[trigger]
        call_ensures(A::at_most, (x, y), r) ==> r == (num(x) <= num(y))
    &&& forall|x: A::Single, r: A::Double| #[trigger]
        call_ensures(A::widened, (x,), r) ==> wide(r) == num(x)
    &&& forall|x: A::Double, r: A::Single| #[trigger]
        call_ensures(A::narrowed, (x,), r) ==> num(r) == wide(x)
    &&& forall|n: u64, r: A::Double| #[trigger]
        call_ensures(A::wide_from_u64, (n,), r) ==> wide(r) == n as int as real
    &&& forall|r: A::Double| #[trigger]
        call_ensures(A::wide_zero, (), r) ==> wide(r) == 0int as real
    &&& forall|x: A::Double, y: A::Double, r: A::Double| #[trigger]
        call_ensures(A::wide_plus, (x, y), r) ==> wide(r) == wide(x) + wide(y)
    &&& forall|x: A::Double, y: A::Double, r: A::Double| #[trigger]
        call_ensures(A::wide_times, (x, y), r) ==> wide(r) == wide(x) * wide(y)
    &&& forall|x: A::Double, y: A::Double, r: A::Double| #[trigger]
        call_ensures(A::wide_divided, (x, y), r) && wide(y) != 0int as real ==> wide(r) * wide(y)
            == wide(x)
    &&& forall|x: A::Double, y: A::Double, r: A::Double| #[trigger]
        call_ensures(A::wide_larger, (x, y), r) ==> wide(r) == greater(wide(x), wide(y))
    &&& forall|x: A::Double, y: A::Double, r: bool| #[trigger]
        call_ensures(A::wide_above, (x, y), r) ==> r == (wide(x) > wide(y))
    &&& forall|x: A::Double, y: A::Double, r: bool| #[trigger]
        call_ensures(A::wide_at_most, (x, y), r) ==> r == (wide(x) <= wide(y))
}

/// The absolute value of a real number.
pub open spec fn size(a: real) -> real {
    if a < 0int as real {
        -a
    } else {
        a
    }
}

/// The greater of two real numbers.
pub open spec fn greater(a: real, b: real) -> real {
    if a >= b {
        a
    } else {
        b
    }
}

/// The lesser of two real numbers.
pub open spec fn lesser(a: real, b: real) -> real {
    if a <= b {
        a
    } else {
        b
    }
}

/// The outcomes of replacing a number that is not finite.
pub open spec fn finite_or<A: Arithmetic>(value: Set<A::Single>, default: Set<A::Single>) -> Set<
    A::Single,
> {
    outcome::and_then(
        value,
        |v: A::Single|
            outcome::branch(
                finite::<A>(outcome::exactly(v)),
                outcome::exactly(v),
                default,
            ),
    )
}

/// Replaces a number that is not finite.
pub fn finite_or_default<A: Arithmetic>(value: A::Single, default: A::Single) -> (result: A::Single)
    ensures
        forall|values: Set<A::Single>, defaults: Set<A::Single>|
            values.contains(value) && defaults.contains(default) ==> #[trigger] finite_or::<A>(
                values,
                defaults,
            ).contains(result),
{
    let keep = A::is_finite(value);
    assert(finite::<A>(outcome::exactly(value)).contains(keep));
    if keep {
        value
    } else {
        default
    }
}

/// Whether a number is told not to be finite, and nothing else.
pub open spec fn is_told_infinite<A: Arithmetic>(a: A::Single) -> bool {
    finite::<A>(outcome::exactly(a)) == outcome::exactly(false)
}

/// Whether `unit` is the one number one, and finite.
pub open spec fn is_unit<A: Arithmetic>(unit: A::Single) -> bool {
    &&& one::<A>() == outcome::exactly(unit)
    &&& is_number::<A>(unit)
}

/// A number that is not finite is replaced by the default, and one that is stays
/// as it is.
pub proof fn law_only_finite_numbers_are_kept<A: Arithmetic>(
    value: A::Single,
    default: Set<A::Single>,
)
    ensures
        is_told_infinite::<A>(value) ==> finite_or::<A>(outcome::exactly(value), default)
            == default,
        is_number::<A>(value) ==> finite_or::<A>(outcome::exactly(value), default)
            == outcome::exactly(value),
{
    let kept = finite_or::<A>(outcome::exactly(value), default);
    assert(outcome::exactly(value).contains(value));
    if is_told_infinite::<A>(value) {
        assert(!outcome::exactly(false).contains(true));
        assert(outcome::exactly(false).contains(false));
        assert(kept =~= default);
    }
    if is_number::<A>(value) {
        assert(outcome::exactly(true).contains(true));
        assert(!outcome::exactly(true).contains(false));
        assert(kept =~= outcome::exactly(value));
    }
}

/// The bits of a number are taken as they are.
pub proof fn law_bits_are_taken_as_they_are<A: Arithmetic>(
    word: u32,
    number: A::Single,
    result: A::Single,
)
    requires
        forall|r: A::Single| #[trigger] call_ensures(A::from_bits, (word,), r) ==> r == number,
        bits::<A>(word).contains(result),
    ensures
        result == number,
{
}

} // verus!
