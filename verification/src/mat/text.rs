//! The rendering of a matrix as text: the cells of a row separated by tabs,
//! the rows separated by line feeds, nothing after the last cell.

use crate::mat::matrix::Matrix;
use crate::mat::smatrix::SMatrix;
use vstd::prelude::*;
use vstd::string::{to_string_from_display_ensures, StringExecFns};

verus! {

/// What follows the cell with the flat index `k` among `n` cells set in
/// rows of `cols`: nothing after the last cell, a line feed after any other
/// cell that ends a row, a tab elsewhere.
pub open spec fn separator(k: int, n: nat, cols: nat) -> Seq<char> {
    if k == n - 1 {
        Seq::empty()
    } else if k % (cols as int) == cols - 1 {
        seq!['\n']
    } else {
        seq!['\t']
    }
}

/// The text of the first `upto` of the given cell texts, each followed by
/// its separator.
pub open spec fn rendered(texts: Seq<String>, cols: nat, upto: nat) -> Seq<char>
    decreases upto,
{
    if upto == 0 {
        Seq::empty()
    } else {
        rendered(texts, cols, (upto - 1) as nat) + texts[upto - 1]@ + separator(
            upto - 1,
            texts.len(),
            cols,
        )
    }
}

/// Whether `texts` holds, in order, a rendering of each of `cells`.
pub open spec fn renders<T: core::fmt::Display>(cells: Seq<T>, texts: Seq<String>) -> bool {
    &&& texts.len() == cells.len()
    &&& forall|k: int|
        0 <= k < cells.len() ==> to_string_from_display_ensures::<T>(&cells[k], #[trigger] texts[k])
}

/// Sets the given cell texts in rows of `cols`.
pub fn layout(cols: usize, texts: &Vec<String>) -> (r: String)
    requires
        cols >= 1,
    ensures
        r@ == rendered(texts@, cols as nat, texts@.len()),
{
    let n = texts.len();
    let mut out = String::new();
    let mut k: usize = 0;
    while k < n
        invariant
            k <= n,
            n == texts@.len(),
            cols >= 1,
            out@ == rendered(texts@, cols as nat, k as nat),
        decreases n - k,
    {
        out.append(texts[k].as_str());
        if k == n - 1 {
            proof {
                assert(out@ + Seq::<char>::empty() == out@);
            }
        } else if k % cols == cols - 1 {
            proof {
                reveal_strlit("\n");
                assert("\n"@ =~= seq!['\n']);
            }
            out.append("\n");
        } else {
            proof {
                reveal_strlit("\t");
                assert("\t"@ =~= seq!['\t']);
            }
            out.append("\t");
        }
        k = k + 1;
    }
    out
}

impl<T: Copy + core::fmt::Display> Matrix<T> {
    /// The matrix as text, each cell rendered as its type displays it.
    pub fn to_text(&self) -> (r: String)
        ensures
            exists|texts: Seq<String>|
                renders(self@.cells, texts) && r@ == rendered(texts, self@.cols, texts.len()),
    {
        let n = self.cell_count();
        let cols = self.cols();
        let mut texts: Vec<String> = Vec::new();
        let mut k: usize = 0;
        while k < n
            invariant
                k <= n,
                n == self@.cells.len(),
                renders(self@.cells.subrange(0, k as int), texts@),
            decreases n - k,
        {
            let cell = self.flat(k);
            let text = cell.to_string();
            let ghost before = texts@;
            texts.push(text);
            proof {
                assert forall|x: int| 0 <= x < k + 1 implies to_string_from_display_ensures::<T>(
                    &self@.cells.subrange(0, k + 1)[x],
                    #[trigger] texts@[x],
                ) by {
                    if x < k {
                        assert(texts@[x] == before[x]);
                        assert(self@.cells.subrange(0, k as int)[x] == self@.cells[x]);
                    }
                }
            }
            k = k + 1;
        }
        proof {
            assert(self@.cells.subrange(0, n as int) =~= self@.cells);
        }
        layout(cols, &texts)
    }
}

impl<T: Copy + core::fmt::Display, const M: usize, const N: usize> SMatrix<T, M, N> {
    /// The matrix as text, each cell rendered as its type displays it. The
    /// rows may not be empty.
    pub fn to_text(&self) -> (r: String)
        requires
            N > 0,
        ensures
            exists|texts: Seq<String>|
                renders(self@.cells, texts) && r@ == rendered(texts, N as nat, texts.len()),
    {
        let mut texts: Vec<String> = Vec::new();
        proof {
            self.lemma_view();
        }
        let mut i: usize = 0;
        while i < M
            invariant
                i <= M,
                N > 0,
                self@.rows == M,
                self@.cols == N,
                self@.cells.len() == M * N,
                texts@.len() == i * N,
                renders(self@.cells.subrange(0, i * N), texts@),
            decreases M - i,
        {
            let mut j: usize = 0;
            while j < N
                invariant
                    i < M,
                    j <= N,
                    N > 0,
                    self@.rows == M,
                    self@.cols == N,
                    self@.cells.len() == M * N,
                    texts@.len() == i * N + j,
                    renders(self@.cells.subrange(0, i * N + j), texts@),
                decreases N - j,
            {
                proof {
                    crate::mat::grid::lemma_flat_index_in_range(
                        i as int,
                        j as int,
                        M as nat,
                        N as nat,
                    );
                }
                let cell = self.get(i, j);
                let text = cell.to_string();
                let ghost before = texts@;
                let ghost k = i * N + j;
                texts.push(text);
                proof {
                    assert forall|x: int| 0 <= x < k + 1 implies to_string_from_display_ensures::<
                        T,
                    >(&self@.cells.subrange(0, k + 1)[x], #[trigger] texts@[x]) by {
                        if x < k {
                            assert(texts@[x] == before[x]);
                            assert(self@.cells.subrange(0, k)[x] == self@.cells[x]);
                        }
                    }
                }
                j = j + 1;
            }
            proof {
                assert(i * N + N == (i + 1) * N) by (nonlinear_arith);
            }
            i = i + 1;
        }
        proof {
            assert(self@.cells.subrange(0, M * N) =~= self@.cells);
        }
        layout(N, &texts)
    }
}

} // verus!
