use vstd::prelude::*;

pub mod scalar;
pub mod vector;
pub mod matrix;
pub mod elimination;
pub mod spaces;
pub mod solver;
pub mod decompose;
pub mod least_squares;

verus! {

/// Reasons an operation of the engine refuses its input.
#[derive(Debug, Clone, Copy, PartialEq, Eq, Structural)]
pub enum LinalgError {
    /// No rows, or a row without components.
    Empty,
    /// Rows of different lengths.
    Ragged,
    /// Operand shapes do not fit the operation.
    ShapeMismatch,
    /// A 1-based position outside the valid range.
    IndexOutOfRange,
    /// The matrix is not square.
    NotSquare,
    /// The matrix has a nontrivial null space.
    Singular,
    /// The matrix differs from its transpose.
    NotSymmetric,
    /// A triangular system has a zero on its diagonal.
    ZeroDiagonal,
    /// The system has no exact solution.
    NoSolution,
}

} // verus!
