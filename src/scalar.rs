//! The element type of every vector the library handles.
use vstd::prelude::*;

verus! {

/// Arithmetic on the numbers that flow through a network.
///
/// The library is generic in its element type: it supplies the layouts, the
/// loops and the wiring, and this trait supplies the primitive operations of
/// the chosen precision. Each operation has a spec function that names its
/// result, so contracts can say exactly which operations, on which operands
/// and in which order, produce each value. An implementation must be
/// deterministic: the same operands always give the same result.
pub trait Scalar: Copy + Sized {
    spec fn spec_zero() -> Self;

    spec fn spec_one() -> Self;

    spec fn spec_from_ratio(n: u64, d: u64) -> Self;

    spec fn spec_add(self, o: Self) -> Self;

    spec fn spec_sub(self, o: Self) -> Self;

    spec fn spec_mul(self, o: Self) -> Self;

    spec fn spec_div(self, o: Self) -> Self;

    spec fn spec_neg(self) -> Self;

    spec fn spec_exp(self) -> Self;

    spec fn spec_tanh(self) -> Self;

    spec fn spec_is_positive(self) -> bool;

    /// The additive identity.
    fn zero() -> (r: Self)
        ensures
            r == Self::spec_zero(),
    ;

    /// The multiplicative identity.
    fn one() -> (r: Self)
        ensures
            r == Self::spec_one(),
    ;

    /// The number `n / d`.
    fn from_ratio(n: u64, d: u64) -> (r: Self)
        requires
            d > 0,
        ensures
            r == Self::spec_from_ratio(n, d),
    ;

    fn add(self, o: Self) -> (r: Self)
        ensures
            r == self.spec_add(o),
    ;

    fn sub(self, o: Self) -> (r: Self)
        ensures
            r == self.spec_sub(o),
    ;

    fn mul(self, o: Self) -> (r: Self)
        ensures
            r == self.spec_mul(o),
    ;

    fn div(self, o: Self) -> (r: Self)
        ensures
            r == self.spec_div(o),
    ;

    fn neg(self) -> (r: Self)
        ensures
            r == self.spec_neg(),
    ;

    /// The exponential function.
    fn exp(self) -> (r: Self)
        ensures
            r == self.spec_exp(),
    ;

    /// The hyperbolic tangent.
    fn tanh(self) -> (r: Self)
        ensures
            r == self.spec_tanh(),
    ;

    /// Whether the number is strictly greater than zero.
    fn is_positive(self) -> (r: bool)
        ensures
            r == self.spec_is_positive(),
    ;
}

} // verus!
