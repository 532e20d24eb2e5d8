//! The number type that coordinates, transforms and widths are computed in.
use vstd::prelude::*;

verus! {

/// Bytes as the contracts see them.
pub type ByteSeq = Seq<u8>;

/// A real-number type for geometry, such as `f32`. Each operation is given by
/// a spec function that the implementing type defines by its own arithmetic
/// (rounding, NaN, infinities), and the operation returns exactly that
/// function's value: the renderer's contracts are stated over these spec
/// functions.
pub trait Scalar: Copy + Sized {
    spec fn spec_zero() -> Self;

    spec fn spec_one() -> Self;

    spec fn spec_epsilon() -> Self;

    spec fn spec_from_i64(v: i64) -> Self;

    spec fn spec_from_usize(v: usize) -> Self;

    spec fn spec_plus(self, other: Self) -> Self;

    spec fn spec_minus(self, other: Self) -> Self;

    spec fn spec_times(self, other: Self) -> Self;

    spec fn spec_over(self, other: Self) -> Self;

    spec fn spec_negate(self) -> Self;

    spec fn spec_sqrt(self) -> Self;

    spec fn spec_sin(self) -> Self;

    spec fn spec_cos(self) -> Self;

    spec fn spec_tan(self) -> Self;

    spec fn spec_to_radians(self) -> Self;

    spec fn spec_round_to_i32(self) -> i32;

    spec fn spec_trunc_to_i32(self) -> i32;

    spec fn spec_less_than(self, other: Self) -> bool;

    spec fn spec_less_or_equal(self, other: Self) -> bool;

    spec fn spec_is_nan(self) -> bool;

    spec fn spec_parse(bytes: ByteSeq) -> Option<Self>;

    /// 0.
    fn zero() -> (r: Self)
        ensures
            r == Self::spec_zero(),
    ;

    /// 1.
    fn one() -> (r: Self)
        ensures
            r == Self::spec_one(),
    ;

    /// The difference between 1 and the next larger value of the type.
    fn epsilon() -> (r: Self)
        ensures
            r == Self::spec_epsilon(),
    ;

    /// The value of an integer.
    fn from_i64(v: i64) -> (r: Self)
        ensures
            r == Self::spec_from_i64(v),
    ;

    /// The value of an index or size.
    fn from_usize(v: usize) -> (r: Self)
        ensures
            r == Self::spec_from_usize(v),
    ;

    fn plus(self, other: Self) -> (r: Self)
        ensures
            r == self.spec_plus(other),
    ;

    fn minus(self, other: Self) -> (r: Self)
        ensures
            r == self.spec_minus(other),
    ;

    fn times(self, other: Self) -> (r: Self)
        ensures
            r == self.spec_times(other),
    ;

    fn over(self, other: Self) -> (r: Self)
        ensures
            r == self.spec_over(other),
    ;

    fn negate(self) -> (r: Self)
        ensures
            r == self.spec_negate(),
    ;

    fn sqrt(self) -> (r: Self)
        ensures
            r == self.spec_sqrt(),
    ;

    fn sin(self) -> (r: Self)
        ensures
            r == self.spec_sin(),
    ;

    fn cos(self) -> (r: Self)
        ensures
            r == self.spec_cos(),
    ;

    fn tan(self) -> (r: Self)
        ensures
            r == self.spec_tan(),
    ;

    /// Degrees to radians.
    fn to_radians(self) -> (r: Self)
        ensures
            r == self.spec_to_radians(),
    ;

    /// Rounded to the nearest integer (halves away from zero), then saturated
    /// to the `i32` range (NaN gives 0).
    fn round_to_i32(self) -> (r: i32)
        ensures
            r == self.spec_round_to_i32(),
    ;

    /// Truncated toward zero, then saturated to the `i32` range (NaN gives 0).
    fn trunc_to_i32(self) -> (r: i32)
        ensures
            r == self.spec_trunc_to_i32(),
    ;

    fn less_than(self, other: Self) -> (r: bool)
        ensures
            r == self.spec_less_than(other),
    ;

    fn less_or_equal(self, other: Self) -> (r: bool)
        ensures
            r == self.spec_less_or_equal(other),
    ;

    /// Whether the value is unordered (not a number).
    fn is_nan(self) -> (r: bool)
        ensures
            r == self.spec_is_nan(),
    ;

    /// The value of a decimal number written in ASCII, or `None` when the
    /// bytes are not one.
    fn parse(bytes: &[u8]) -> (r: Option<Self>)
        ensures
            r == Self::spec_parse(bytes@),
    ;
}

/// The number a token reads as: `None` where there is no token or it does not
/// parse.
pub open spec fn parsed_number<S: Scalar>(token: Option<Seq<u8>>) -> Option<S> {
    match token {
        Some(b) => S::spec_parse(b),
        None => None,
    }
}

/// The number a token reads as, or `default` where it reads as none.
pub open spec fn number_or_default<S: Scalar>(token: Option<Seq<u8>>, default: S) -> S {
    match parsed_number::<S>(token) {
        Some(v) => v,
        None => default,
    }
}

/// A number read, or 0 where there was none.
pub fn number_or_zero<S: Scalar>(n: Option<S>) -> (r: S)
    ensures
        r == match n {
            Some(v) => v,
            None => S::spec_zero(),
        },
{
    match n {
        Some(v) => v,
        None => S::zero(),
    }
}

} // verus!
