//! Failure values.

use crate::mat::dims::{shows, Dimensions};
use vstd::prelude::*;
use vstd::string::StringExecFns;

verus! {

/// Failures of element access.
#[derive(Debug, PartialEq)]
pub enum MatrixError {
    /// A row index at or beyond the number of rows.
    IndexOutOfBounds(usize),
}

/// Failures that come from the shape of an operand.
#[derive(Debug, PartialEq)]
pub enum DimensionError {
    /// A row or column count of zero.
    InvalidDimensions,
    /// The length of the data handed in, and the length that the requested
    /// shape calls for.
    InvalidInputDimensions(usize, usize),
    /// The shapes of the two operands and the name of the operation that
    /// could not combine them.
    NoMatch(Dimensions, Dimensions, String),
    /// A matrix that had to be square and is not.
    NoSquare,
}

/// The three pieces of text in order.
pub open spec fn framed(before: Seq<char>, inner: Seq<char>, after: Seq<char>) -> Seq<char> {
    before + inner + after
}

impl MatrixError {
    /// A sentence that tells the failure.
    pub fn message(&self) -> (r: String)
        ensures
            match self {
                MatrixError::IndexOutOfBounds(idx) => exists|index: String|
                    shows(*idx, index) && r@ == framed(
                        "Tried to access a matrix at index `"@,
                        index@,
                        "`, which is out of bounds."@,
                    ),
            },
    {
        match self {
            MatrixError::IndexOutOfBounds(idx) => {
                let index = idx.to_string();
                let mut out = "Tried to access a matrix at index `".to_owned();
                out.append(index.as_str());
                out.append("`, which is out of bounds.");
                proof {
                    assert(shows(*idx, index) && out@ == framed(
                        "Tried to access a matrix at index `"@,
                        index@,
                        "`, which is out of bounds."@,
                    ));
                }
                out
            },
        }
    }
}

impl DimensionError {
    /// A sentence that tells the failure.
    pub fn message(&self) -> (r: String)
        ensures
            match self {
                DimensionError::InvalidDimensions => r@
                    == "Dimensions with a size of less than 1 are invalid."@,
                DimensionError::InvalidInputDimensions(input_len, correct_len) => exists|
                    actual: String,
                    expected: String,
                |
                    shows(*input_len, actual) && shows(*correct_len, expected) && r@ == framed(
                        "Invalid input dimensions. Input has length "@,
                        actual@,
                        ", but should have length "@,
                    ) + expected@ + "."@,
                DimensionError::NoMatch(dims, bad_dims, op) => exists|
                    left: Seq<char>,
                    right: Seq<char>,
                |
                    dims.shown_as(left) && bad_dims.shown_as(right) && r@ == framed(
                        "Dimensions of two matrices do not match in the correct way. Cannot "@,
                        op@,
                        " "@,
                    ) + framed(left, " matrix with "@, right) + " matrix."@,
                DimensionError::NoSquare => r@
                    == "Not a square matrix. Rows and cols need to be the same."@,
            },
    {
        match self {
            DimensionError::InvalidDimensions => {
                "Dimensions with a size of less than 1 are invalid.".to_owned()
            },
            DimensionError::InvalidInputDimensions(input_len, correct_len) => {
                let actual = input_len.to_string();
                let expected = correct_len.to_string();
                let mut out = "Invalid input dimensions. Input has length ".to_owned();
                out.append(actual.as_str());
                out.append(", but should have length ");
                out.append(expected.as_str());
                out.append(".");
                proof {
                    assert(shows(*input_len, actual) && shows(*correct_len, expected) && out@
                        == framed(
                        "Invalid input dimensions. Input has length "@,
                        actual@,
                        ", but should have length "@,
                    ) + expected@ + "."@);
                }
                out
            },
            DimensionError::NoMatch(dims, bad_dims, op) => {
                let left = dims.to_text();
                let right = bad_dims.to_text();
                let mut out =
                    "Dimensions of two matrices do not match in the correct way. Cannot ".to_owned();
                out.append(op.as_str());
                out.append(" ");
                out.append(left.as_str());
                out.append(" matrix with ");
                out.append(right.as_str());
                out.append(" matrix.");
                proof {
                    assert(out@ =~= framed(
                        "Dimensions of two matrices do not match in the correct way. Cannot "@,
                        op@,
                        " "@,
                    ) + framed(left@, " matrix with "@, right@) + " matrix."@);
                    assert(dims.shown_as(left@) && bad_dims.shown_as(right@));
                }
                out
            },
            DimensionError::NoSquare => {
                "Not a square matrix. Rows and cols need to be the same.".to_owned()
            },
        }
    }
}

} // verus!
