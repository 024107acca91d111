use vstd::prelude::*;

verus! {

/// The arithmetic the engine is generic over.
///
/// Each operation has a spec counterpart, and each executable method returns
/// exactly its counterpart: an operation is a function of its arguments. No
/// algebraic law is assumed (floating point obeys none), so what the engine
/// proves holds for every implementation.
pub trait Scalar: Copy + Sized {
    spec fn spec_zero() -> Self;

    spec fn spec_one() -> Self;

    spec fn spec_plus(self, o: Self) -> Self;

    spec fn spec_minus(self, o: Self) -> Self;

    spec fn spec_times(self, o: Self) -> Self;

    spec fn spec_over(self, o: Self) -> Self;

    spec fn spec_negated(self) -> Self;

    spec fn spec_absolute(self) -> Self;

    spec fn spec_square_root(self) -> Self;

    spec fn spec_is_zero(self) -> bool;

    spec fn spec_is_negative(self) -> bool;

    spec fn spec_exceeds(self, o: Self) -> bool;

    spec fn spec_same(self, o: Self) -> bool;

    fn zero() -> (r: Self)
        ensures
            r == Self::spec_zero(),
    ;

    fn one() -> (r: Self)
        ensures
            r == Self::spec_one(),
    ;

    fn plus(self, o: Self) -> (r: Self)
        ensures
            r == self.spec_plus(o),
    ;

    fn minus(self, o: Self) -> (r: Self)
        ensures
            r == self.spec_minus(o),
    ;

    fn times(self, o: Self) -> (r: Self)
        ensures
            r == self.spec_times(o),
    ;

    fn over(self, o: Self) -> (r: Self)
        ensures
            r == self.spec_over(o),
    ;

    fn negated(self) -> (r: Self)
        ensures
            r == self.spec_negated(),
    ;

    fn absolute(self) -> (r: Self)
        ensures
            r == self.spec_absolute(),
    ;

    fn square_root(self) -> (r: Self)
        ensures
            r == self.spec_square_root(),
    ;

    fn is_zero(self) -> (r: bool)
        ensures
            r == self.spec_is_zero(),
    ;

    fn is_negative(self) -> (r: bool)
        ensures
            r == self.spec_is_negative(),
    ;

    /// Whether `self` is strictly greater than `o`.
    fn exceeds(self, o: Self) -> (r: bool)
        ensures
            r == self.spec_exceeds(o),
    ;

    /// Equality of two values, as the scalar defines it.
    fn same_as(self, o: Self) -> (r: bool)
        ensures
            r == self.spec_same(o),
    ;
}

} // verus!
