//! Laws of the operations, stated over the model and proved for every
//! numeric type that keeps the laws of its capabilities.

use crate::mat::grid::Grid;
use crate::mat::lu::initial_record;
use crate::num::{AdditionLaws, IdentityLaws, Negation, PivotLaws};
use vstd::prelude::*;

verus! {

/// Transposing twice gives the grid back.
pub proof fn lemma_transpose_involution<T>(a: Grid<T>)
    requires
        a.wf(),
    ensures
        a.transposed().transposed() == a,
{
    let t = a.transposed();
    a.lemma_transposed();
    t.lemma_transposed();
    assert forall|i: int, j: int| a.has(i, j) implies t.transposed().at(i, j) == a.at(i, j) by {
        assert(t.at(j, i) == a.at(i, j));
    }
    assert(t.transposed().cells.len() == a.cells.len()) by (nonlinear_arith)
        requires
            t.transposed().cells.len() == a.rows * a.cols,
            a.cells.len() == a.rows * a.cols,
    ;
    t.transposed().lemma_equal(a);
}

/// The sum of two grids of one shape does not depend on their order.
pub proof fn lemma_sum_commutative<T: AdditionLaws>(a: Grid<T>, b: Grid<T>)
    requires
        a.wf(),
        b.wf(),
        a.same_shape(b),
    ensures
        a.sum(b) == b.sum(a),
{
    assert forall|k: int| 0 <= k < a.cells.len() implies a.sum(b).cells[k] == b.sum(a).cells[k] by {
        T::law_plus_commutative(a.cells[k], b.cells[k]);
    }
    assert(a.sum(b).cells =~= b.sum(a).cells);
}

/// The sum of three grids of one shape does not depend on how they are
/// grouped.
pub proof fn lemma_sum_associative<T: AdditionLaws>(a: Grid<T>, b: Grid<T>, c: Grid<T>)
    requires
        a.wf(),
        b.wf(),
        c.wf(),
        a.same_shape(b),
        b.same_shape(c),
    ensures
        a.sum(b).sum(c) == a.sum(b.sum(c)),
{
    assert forall|k: int| 0 <= k < a.cells.len() implies a.sum(b).sum(c).cells[k] == a.sum(
        b.sum(c),
    ).cells[k] by {
        T::law_plus_associative(a.cells[k], b.cells[k], c.cells[k]);
    }
    assert(a.sum(b).sum(c).cells =~= a.sum(b.sum(c)).cells);
}

/// The product of a grid with the identity of its width is the grid.
pub proof fn lemma_product_identity<T: IdentityLaws>(a: Grid<T>)
    requires
        a.wf(),
    ensures
        a.product(Grid::identity(a.cols)) == a,
{
    let id = Grid::<T>::identity(a.cols);
    let prod = a.product(id);
    Grid::lemma_diagonal(a.cols, T::zero_spec(), |i: int| T::one_spec());
    Grid::lemma_build(a.rows, a.cols, |i: int, j: int| a.dot(id, i, j, a.cols));
    assert forall|r: int, c: int| a.has(r, c) implies prod.at(r, c) == a.at(r, c) by {
        assert forall|k: int| 0 <= k < a.cols implies #[trigger] id.at(k, c) == (if k == c {
            T::one_spec()
        } else {
            T::zero_spec()
        }) by {}
        a.lemma_dot_unit(id, r, c, a.cols, c);
    }
    prod.lemma_equal(a);
}

/// The identity times itself is the identity.
pub proof fn lemma_identity_idempotent<T: IdentityLaws>(n: nat)
    requires
        n >= 1,
    ensures
        Grid::<T>::identity(n).product(Grid::identity(n)) == Grid::<T>::identity(n),
{
    Grid::lemma_diagonal(n, T::zero_spec(), |i: int| T::one_spec());
    lemma_product_identity(Grid::<T>::identity(n));
}

/// In the identity the pivot scan of row `i` finds one on the diagonal.
proof fn lemma_identity_scan<T: PivotLaws>(n: nat, i: int, k: int)
    requires
        0 <= i < k <= n,
    ensures
        Grid::<T>::identity(n).pivot_scan(i, k) == (T::one_spec(), i),
    decreases k - i,
{
    let id = Grid::<T>::identity(n);
    Grid::lemma_diagonal(n, T::zero_spec(), |x: int| T::one_spec());
    T::law_one_dominates();
    T::law_magnitude_zero();
    T::law_exceeds_asymmetric(T::one_spec(), T::zero_spec());
    if k == i + 1 {
        assert(id.pivot_scan(i, i) == (T::zero_spec(), i));
        assert(id.at(i, k - 1) == T::one_spec());
    } else {
        lemma_identity_scan::<T>(n, i, k - 1);
        assert(id.at(i, k - 1) == T::zero_spec());
    }
}

/// Eliminating below a row of the identity changes nothing.
proof fn lemma_identity_eliminated<T: PivotLaws>(n: nat, i: int)
    requires
        0 <= i < n,
    ensures
        Grid::<T>::identity(n).eliminated(i) == Grid::<T>::identity(n),
{
    let id = Grid::<T>::identity(n);
    Grid::lemma_diagonal(n, T::zero_spec(), |x: int| T::one_spec());
    id.lemma_eliminated(i);
    assert forall|r: int, c: int| id.has(r, c) implies id.eliminated(i).at(r, c) == id.at(
        r,
        c,
    ) by {
        assert(id.at(i, i) == T::one_spec());
        if r > i {
            assert(id.at(r, i) == T::zero_spec());
            T::law_neutral(T::zero_spec());
            T::law_times_zero(id.at(i, c));
            T::law_neutral(id.at(r, c));
        }
    }
    id.eliminated(i).lemma_equal(id);
}

/// The decomposition of the identity, carried on from any step, is the
/// identity with the record untouched.
proof fn lemma_identity_lu<T: PivotLaws>(n: nat, p: Seq<usize>, i: nat)
    requires
        i <= n,
    ensures
        Grid::<T>::identity(n).lu_from(p, i, n) == Some((Grid::<T>::identity(n), p)),
    decreases n - i,
{
    if i < n {
        lemma_identity_scan::<T>(n, i as int, n as int);
        T::law_one_dominates();
        lemma_identity_eliminated::<T>(n, i as int);
        lemma_identity_lu::<T>(n, p, i + 1);
    }
}

/// The diagonal of the identity multiplies up to one.
proof fn lemma_identity_diagonal_product<T: PivotLaws + Negation>(n: nat, k: nat)
    requires
        1 <= k <= n,
    ensures
        Grid::<T>::identity(n).diagonal_product(k) == T::one_spec(),
    decreases k,
{
    let id = Grid::<T>::identity(n);
    Grid::lemma_diagonal(n, T::zero_spec(), |x: int| T::one_spec());
    if k <= 1 {
        assert(id.at(0, 0) == T::one_spec());
    } else {
        lemma_identity_diagonal_product::<T>(n, (k - 1) as nat);
        assert(id.at(k - 1, k - 1) == T::one_spec());
        T::law_times_one(T::one_spec());
    }
}

/// The determinant of the identity is one.
pub proof fn lemma_determinant_identity<T: PivotLaws + Negation>(n: nat)
    requires
        1 <= n <= usize::MAX,
    ensures
        Grid::<T>::identity(n).determinant() == T::one_spec(),
{
    let id = Grid::<T>::identity(n);
    Grid::lemma_diagonal(n, T::zero_spec(), |x: int| T::one_spec());
    lemma_identity_lu::<T>(n, initial_record(n), 0);
    lemma_identity_diagonal_product::<T>(n, n);
    assert(initial_record(n)[n as int] == n);
}

/// In a grid of zeros the pivot scan finds nothing above zero.
proof fn lemma_zero_scan<T: PivotLaws>(n: nat, k: int)
    requires
        0 <= k <= n,
        n >= 1,
    ensures
        Grid::<T>::filled(n, n, T::zero_spec()).pivot_scan(0, k) == (T::zero_spec(), 0int),
    decreases k,
{
    let z = Grid::<T>::filled(n, n, T::zero_spec());
    Grid::lemma_filled(n, n, T::zero_spec());
    if k > 0 {
        lemma_zero_scan::<T>(n, k - 1);
        assert(z.at(0, k - 1) == T::zero_spec());
        T::law_magnitude_zero();
        T::law_exceeds_asymmetric(T::zero_spec(), T::zero_spec());
    }
}

/// The determinant of a square grid of zeros is zero.
pub proof fn lemma_determinant_zero<T: PivotLaws + Negation>(n: nat)
    requires
        n >= 1,
    ensures
        Grid::<T>::filled(n, n, T::zero_spec()).determinant() == T::zero_spec(),
{
    let z = Grid::<T>::filled(n, n, T::zero_spec());
    Grid::lemma_filled(n, n, T::zero_spec());
    lemma_zero_scan::<T>(n, n as int);
    T::law_zero_negligible();
    assert(z.lu() is None);
}

} // verus!
