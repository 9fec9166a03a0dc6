//! The number type the solver computes with.

use vstd::prelude::*;

verus! {

/// The characters of a text, as the specifications see them.
pub type Text = Seq<char>;

/// The arithmetic the risk parity solver needs of its numbers: an ordered
/// field with square root, natural logarithm and decimal parsing.
///
/// Each operation is a function of its arguments: it returns what its spec
/// function (`spec_plus` for `plus`, and so on) gives for them. This is the
/// whole of what is assumed of an implementation; which values the spec
/// functions give is the implementation's own (IEEE double precision in the
/// program, with every result that is not a number replaced by one fixed
/// value, so that results are determined by the arguments).
pub trait Scalar: Copy + Sized {
    /// The value of `zero()`.
    spec fn spec_zero() -> Self;

    /// The value of `one()`.
    spec fn spec_one() -> Self;

    /// The value of `from_u64(n)`.
    spec fn spec_from_u64(n: u64) -> Self;

    /// The value of `infinity()`.
    spec fn spec_infinity() -> Self;

    /// The value of `self.plus(other)`.
    spec fn spec_plus(self, other: Self) -> Self;

    /// The value of `self.minus(other)`.
    spec fn spec_minus(self, other: Self) -> Self;

    /// The value of `self.times(other)`.
    spec fn spec_times(self, other: Self) -> Self;

    /// The value of `self.divided_by(other)`.
    spec fn spec_divided_by(self, other: Self) -> Self;

    /// The value of `self.negated()`.
    spec fn spec_negated(self) -> Self;

    /// The value of `self.square()`.
    spec fn spec_square(self) -> Self;

    /// The value of `self.sqrt()`.
    spec fn spec_sqrt(self) -> Self;

    /// The value of `self.ln()`.
    spec fn spec_ln(self) -> Self;

    /// The value of `self.abs()`.
    spec fn spec_abs(self) -> Self;

    /// The value of `self.maximum(other)`.
    spec fn spec_maximum(self, other: Self) -> Self;

    /// The value of `self.less_than(other)`.
    spec fn spec_less_than(self, other: Self) -> bool;

    /// The value of `self.greater_than(other)`.
    spec fn spec_greater_than(self, other: Self) -> bool;

    /// The value of `self.at_most(other)`.
    spec fn spec_at_most(self, other: Self) -> bool;

    /// The value of `self.total_order_at_most(other)`.
    spec fn spec_total_order_at_most(self, other: Self) -> bool;

    /// The value of `parse(text)` for a text with these characters.
    spec fn spec_parse(text: Text) -> Option<Self>;

    /// The additive identity.
    fn zero() -> (r: Self)
        ensures
            r == Self::spec_zero(),
    ;

    /// The multiplicative identity.
    fn one() -> (r: Self)
        ensures
            r == Self::spec_one(),
    ;

    /// The number `n`.
    fn from_u64(n: u64) -> (r: Self)
        ensures
            r == Self::spec_from_u64(n),
    ;

    /// A value that every finite value is less than.
    fn infinity() -> (r: Self)
        ensures
            r == Self::spec_infinity(),
    ;

    /// `self + other`.
    fn plus(self, other: Self) -> (r: Self)
        ensures
            r == self.spec_plus(other),
    ;

    /// `self - other`.
    fn minus(self, other: Self) -> (r: Self)
        ensures
            r == self.spec_minus(other),
    ;

    /// `self * other`.
    fn times(self, other: Self) -> (r: Self)
        ensures
            r == self.spec_times(other),
    ;

    /// `self / other`.
    fn divided_by(self, other: Self) -> (r: Self)
        ensures
            r == self.spec_divided_by(other),
    ;

    /// `-self`.
    fn negated(self) -> (r: Self)
        ensures
            r == self.spec_negated(),
    ;

    /// `self` to the power 2.
    fn square(self) -> (r: Self)
        ensures
            r == self.spec_square(),
    ;

    /// The square root.
    fn sqrt(self) -> (r: Self)
        ensures
            r == self.spec_sqrt(),
    ;

    /// The natural logarithm.
    fn ln(self) -> (r: Self)
        ensures
            r == self.spec_ln(),
    ;

    /// The absolute value.
    fn abs(self) -> (r: Self)
        ensures
            r == self.spec_abs(),
    ;

    /// The larger of the two (a value that is not a number is ignored).
    fn maximum(self, other: Self) -> (r: Self)
        ensures
            r == self.spec_maximum(other),
    ;

    /// `self < other`.
    fn less_than(self, other: Self) -> (r: bool)
        ensures
            r == self.spec_less_than(other),
    ;

    /// `self > other`.
    fn greater_than(self, other: Self) -> (r: bool)
        ensures
            r == self.spec_greater_than(other),
    ;

    /// `self <= other`.
    fn at_most(self, other: Self) -> (r: bool)
        ensures
            r == self.spec_at_most(other),
    ;

    /// `self <= other` in a total order of all values, values that are not
    /// numbers included.
    fn total_order_at_most(self, other: Self) -> (r: bool)
        ensures
            r == self.spec_total_order_at_most(other),
    ;

    /// The number written in `text`, surrounding whitespace ignored; `None`
    /// where `text` is not a number.
    fn parse(text: &str) -> (r: Option<Self>)
        ensures
            r == Self::spec_parse(text@),
    ;
}

/// `val` reads the scalars as integers under which zero, `from_u64`,
/// addition, subtraction, multiplication, negation and squaring are the
/// integers' own: arithmetic without rounding.
pub open spec fn exact_ring<S: Scalar>(val: spec_fn(S) -> int) -> bool {
    &&& val(S::spec_zero()) == 0
    &&& forall|n: u64| #[trigger] val(S::spec_from_u64(n)) == n
    &&& forall|a: S, b: S| #[trigger] val(a.spec_plus(b)) == val(a) + val(b)
    &&& forall|a: S, b: S| #[trigger] val(a.spec_minus(b)) == val(a) - val(b)
    &&& forall|a: S, b: S| #[trigger] val(a.spec_times(b)) == val(a) * val(b)
    &&& forall|a: S| #[trigger] val(a.spec_negated()) == -val(a)
    &&& forall|a: S| #[trigger] val(a.spec_square()) == val(a) * val(a)
}

/// Under `val`, division is exact wherever the quotient is an integer, and
/// the square root of a non-negative value is its integer square root
/// (exact on perfect squares).
pub open spec fn exact_where_integral<S: Scalar>(val: spec_fn(S) -> int) -> bool {
    &&& forall|a: S, b: S|
        val(b) != 0 && val(a) % val(b) == 0 ==> #[trigger] val(a.spec_divided_by(b)) * val(b)
            == val(a)
    &&& forall|a: S|
        val(a) >= 0 ==> 0 <= #[trigger] val(a.spec_sqrt()) && val(a.spec_sqrt()) * val(
            a.spec_sqrt(),
        ) <= val(a) && val(a) < (val(a.spec_sqrt()) + 1) * (val(a.spec_sqrt()) + 1)
}

/// The value of `reciprocal(n)`.
pub open spec fn spec_reciprocal<S: Scalar>(n: u64) -> S {
    S::spec_one().spec_divided_by(S::spec_from_u64(n))
}

/// The number `1 / n`, computed as one division.
pub fn reciprocal<S: Scalar>(n: u64) -> (r: S)
    ensures
        r == spec_reciprocal::<S>(n),
{
    S::one().divided_by(S::from_u64(n))
}

/// A copy of the vector, entry for entry.
pub fn copy_vec<S: Copy>(v: &Vec<S>) -> (r: Vec<S>)
    ensures
        r@ == v@,
{
    let mut r: Vec<S> = Vec::new();
    let mut k: usize = 0;
    while k < v.len()
        invariant
            k <= v.len(),
            r@ == v@.take(k as int),
        decreases v.len() - k,
    {
        r.push(v[k]);
        k = k + 1;
        assert(r@ == v@.take(k as int));
    }
    assert(v@.take(v.len() as int) == v@);
    r
}

} // verus!
