//! Square distance matrices, stored in an `ndarray` array.

use vstd::prelude::*;

verus! {

/// A square table of pairwise distances between files, addressed by file
/// index. The cells live in an `ndarray::Array2<i32>`.
#[verifier::external_body]
pub struct DistanceMatrix {
    cells: ndarray::Array2<i32>,
}

/// The rows of a matrix, top to bottom, each the cells of that row from left
/// to right.
pub uninterp spec fn matrix_rows(m: DistanceMatrix) -> Seq<Seq<i32>>;

/// `rows` has `n` rows of `n` cells each.
pub open spec fn is_square(rows: Seq<Seq<i32>>, n: nat) -> bool {
    &&& rows.len() == n
    &&& forall|i: int| 0 <= i < n ==> (#[trigger] rows[i]).len() == n
}

/// A square array of dimension `n` can exist: its number of cells fits in
/// `isize`.
pub open spec fn dimension_fits(n: nat) -> bool {
    n * n <= isize::MAX
}

/// `ndarray::Array2::zeros` for the shape `(n, n)`: a new array of `n` rows
/// and `n` columns in which every cell is zero. The call panics when the
/// number of cells overflows `isize`, which the precondition excludes.
#[verifier::external_body]
fn array_zeros(n: usize) -> (m: DistanceMatrix)
    requires
        dimension_fits(n as nat),
    ensures
        is_square(matrix_rows(m), n as nat),
        forall|i: int, j: int|
            0 <= i < n && 0 <= j < n ==> #[trigger] matrix_rows(m)[i][j] == 0,
{
    DistanceMatrix { cells: ndarray::Array2::zeros((n, n)) }
}

/// `ndarray::ArrayBase::nrows`: the number of rows of the array.
#[verifier::external_body]
fn array_nrows(m: &DistanceMatrix) -> (n: usize)
    ensures
        n == matrix_rows(*m).len(),
{
    m.cells.nrows()
}

/// Indexing an `ndarray` array with `[[i, j]]`: the cell in row `i`, column
/// `j`. It panics outside the array's bounds, which the precondition excludes.
#[verifier::external_body]
fn array_get(m: &DistanceMatrix, i: usize, j: usize) -> (cell: i32)
    requires
        i < matrix_rows(*m).len(),
        j < matrix_rows(*m)[i as int].len(),
    ensures
        cell == matrix_rows(*m)[i as int][j as int],
{
    m.cells[[i, j]]
}

/// Assigning through `[[i, j]]` on an `ndarray` array: the cell in row `i`,
/// column `j` becomes `value` and every other cell keeps its value. It panics
/// outside the array's bounds, which the precondition excludes.
#[verifier::external_body]
fn array_set(m: &mut DistanceMatrix, i: usize, j: usize, value: i32)
    requires
        i < matrix_rows(*old(m)).len(),
        j < matrix_rows(*old(m))[i as int].len(),
    ensures
        matrix_rows(*final(m)) == matrix_rows(*old(m)).update(
            i as int,
            matrix_rows(*old(m))[i as int].update(j as int, value),
        ),
{
    m.cells[[i, j]] = value;
}

impl View for DistanceMatrix {
    type V = Seq<Seq<i32>>;

    open spec fn view(&self) -> Seq<Seq<i32>> {
        matrix_rows(*self)
    }
}

impl DistanceMatrix {
    /// The number of files the matrix relates.
    pub open spec fn spec_dim(&self) -> nat {
        self@.len()
    }

    /// Every row is as long as the matrix is high, and the number of cells
    /// is one that an array can have.
    pub open spec fn wf(&self) -> bool {
        &&& is_square(self@, self@.len())
        &&& dimension_fits(self@.len())
    }

    /// The distance recorded between files `i` and `j`.
    pub open spec fn at(&self, i: int, j: int) -> int {
        self@[i][j] as int
    }

    /// `distance[i][j] == distance[j][i]` for every pair of files.
    pub open spec fn is_symmetric(&self) -> bool {
        forall|i: int, j: int|
            0 <= i < self@.len() && 0 <= j < self@.len() ==> #[trigger] self.at(i, j) == self.at(
                j,
                i,
            )
    }

    /// `distance[i][i] == 0` for every file.
    pub open spec fn has_zero_diagonal(&self) -> bool {
        forall|i: int| 0 <= i < self@.len() ==> #[trigger] self.at(i, i) == 0
    }

    /// A matrix over `n` files in which every distance is zero.
    pub fn zeros(n: usize) -> (m: DistanceMatrix)
        requires
            dimension_fits(n as nat),
        ensures
            m.wf(),
            m.spec_dim() == n,
            forall|i: int, j: int| 0 <= i < n && 0 <= j < n ==> #[trigger] m.at(i, j) == 0,
    {
        array_zeros(n)
    }

    /// The number of files the matrix relates.
    pub fn dim(&self) -> (n: usize)
        ensures
            n == self.spec_dim(),
    {
        array_nrows(self)
    }

    /// The distance recorded between files `i` and `j`.
    pub fn get(&self, i: usize, j: usize) -> (distance: i32)
        requires
            self.wf(),
            i < self.spec_dim(),
            j < self.spec_dim(),
        ensures
            distance == self.at(i as int, j as int),
    {
        array_get(self, i, j)
    }

    /// Records `distance` as the distance from file `i` to file `j`, leaving
    /// every other cell as it was.
    pub fn set(&mut self, i: usize, j: usize, distance: i32)
        requires
            old(self).wf(),
            i < old(self).spec_dim(),
            j < old(self).spec_dim(),
        ensures
            final(self).wf(),
            final(self).spec_dim() == old(self).spec_dim(),
            final(self).at(i as int, j as int) == distance,
            forall|a: int, b: int|
                0 <= a < old(self).spec_dim() && 0 <= b < old(self).spec_dim() && !(a == i && b
                    == j) ==> #[trigger] final(self).at(a, b) == old(self).at(a, b),
    {
        array_set(self, i, j, distance);
    }
}

} // verus!
