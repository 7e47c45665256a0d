//! The shape of a matrix.

use crate::err::DimensionError;
use vstd::prelude::*;
use vstd::string::{to_string_from_display_ensures, StringExecFns};

verus! {

/// A row count and a column count, both at least one.
#[derive(Debug, PartialEq, Clone, Copy)]
pub struct Dimensions {
    rows: usize,
    cols: usize,
}

impl View for Dimensions {
    type V = (nat, nat);

    /// The row count and the column count.
    closed spec fn view(&self) -> (nat, nat) {
        (self.rows as nat, self.cols as nat)
    }
}

/// Whether `text` is a rendering of the number `n`.
pub open spec fn shows(n: usize, text: String) -> bool {
    to_string_from_display_ensures::<usize>(&n, text)
}

impl Dimensions {
    /// Whether `text` renders this shape: the row count, an `x`, the column
    /// count.
    pub open spec fn shown_as(self, text: Seq<char>) -> bool {
        exists|rows: String, cols: String|
            shows(self@.0 as usize, rows) && shows(self@.1 as usize, cols) && text == rows@
                + "x"@ + cols@
    }

    /// The shape as text, such as `3x4`.
    pub fn to_text(&self) -> (r: String)
        ensures
            self.shown_as(r@),
    {
        let rows = self.rows.to_string();
        let cols = self.cols.to_string();
        let ghost first = rows;
        let mut out = rows;
        out.append("x");
        out.append(cols.as_str());
        proof {
            assert(shows(self@.0 as usize, first) && shows(self@.1 as usize, cols) && out@
                == first@ + "x"@ + cols@);
        }
        out
    }

    #[verifier::type_invariant]
    pub closed spec fn well_formed(self) -> bool {
        self.rows >= 1 && self.cols >= 1
    }

    /// The shape `rows` by `cols`, unless one of the two is zero.
    pub fn new(rows: usize, cols: usize) -> (r: Result<Dimensions, DimensionError>)
        ensures
            match r {
                Ok(d) => rows >= 1 && cols >= 1 && d@ == (rows as nat, cols as nat),
                Err(e) => (rows == 0 || cols == 0) && e == DimensionError::InvalidDimensions,
            },
    {
        if rows < 1 || cols < 1 {
            Err(DimensionError::InvalidDimensions)
        } else {
            Ok(Dimensions { rows, cols })
        }
    }

    /// The shape `rows` by `cols` where both are known to be positive.
    pub(crate) fn of(rows: usize, cols: usize) -> (d: Dimensions)
        requires
            rows >= 1,
            cols >= 1,
        ensures
            d@ == (rows as nat, cols as nat),
    {
        Dimensions { rows, cols }
    }

    /// Whether there are as many rows as columns.
    pub fn is_square(&self) -> (b: bool)
        ensures
            b == (self@.0 == self@.1),
    {
        self.rows == self.cols
    }

    /// The number of rows.
    pub fn rows(&self) -> (r: usize)
        ensures
            r == self@.0,
            r >= 1,
    {
        proof {
            use_type_invariant(self);
        }
        self.rows
    }

    /// The number of columns.
    pub fn cols(&self) -> (r: usize)
        ensures
            r == self@.1,
            r >= 1,
    {
        proof {
            use_type_invariant(self);
        }
        self.cols
    }
}

} // verus!
