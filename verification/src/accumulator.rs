//! The Hough accumulator: a dense grid of vote counts, one row for each step
//! of the theta axis and one column for each bin of the rho axis.
//!
//! The grid is a `nalgebra::DMatrix<u32>`. The verifier does not look inside
//! it: what the grid holds is named by `accumulator_rows` and
//! `accumulator_width`, and the few functions that touch the matrix state what
//! they do to it in those terms.

use vstd::prelude::*;
use nalgebra::DMatrix;

verus! {

/// A grid of vote counts over `(theta, rho)`, held in a
/// `nalgebra::DMatrix<u32>`. The verifier takes the struct as opaque: it
/// knows of the matrix only what the functions below state.
#[verifier::external_body]
pub struct Accumulator {
    cells: DMatrix<u32>,
}

/// What the grid holds: `accumulator_rows(acc)[theta][rho_scaled]` is the
/// count in row `theta`, column `rho_scaled` of the matrix.
pub uninterp spec fn accumulator_rows(acc: Accumulator) -> Seq<Seq<u32>>;

/// The number of columns of the matrix, which a grid without rows still has.
pub uninterp spec fn accumulator_width(acc: Accumulator) -> nat;

impl View for Accumulator {
    type V = Seq<Seq<u32>>;

    open spec fn view(&self) -> Seq<Seq<u32>> {
        accumulator_rows(*self)
    }
}

/// Every row of the grid has `width` cells.
pub open spec fn rectangular(rows: Seq<Seq<u32>>, width: int) -> bool {
    forall|i: int| 0 <= i < rows.len() ==> (#[trigger] rows[i]).len() == width
}

/// A grid of `height` rows and `width` columns that holds `count` in every
/// cell.
pub open spec fn uniform_rows(height: int, width: int, count: u32) -> Seq<Seq<u32>> {
    Seq::new(height as nat, |i: int| Seq::new(width as nat, |j: int| count))
}

/// The grid with the cell in row `i`, column `j` set to `count`.
pub open spec fn with_cell(rows: Seq<Seq<u32>>, i: int, j: int, count: u32) -> Seq<Seq<u32>> {
    rows.update(i, rows[i].update(j, count))
}

/// `nalgebra::DMatrix::from_element(nrows, ncols, 0)`: a matrix of the given
/// shape with every cell zero. The call multiplies the two sizes and
/// allocates that many cells of four bytes; the precondition keeps both
/// within the machine's limits.
#[verifier::external_body]
fn zero_matrix(nrows: usize, ncols: usize) -> (acc: Accumulator)
    requires
        nrows * ncols * 4 <= isize::MAX,
    ensures
        accumulator_rows(acc) == uniform_rows(nrows as int, ncols as int, 0),
        accumulator_width(acc) == ncols,
{
    Accumulator { cells: DMatrix::from_element(nrows, ncols, 0) }
}

/// `nalgebra::Matrix::nrows`: the number of rows.
#[verifier::external_body]
fn matrix_nrows(acc: &Accumulator) -> (n: usize)
    ensures
        n == accumulator_rows(*acc).len(),
{
    acc.cells.nrows()
}

/// `nalgebra::Matrix::ncols`: the number of columns, which is the length of
/// every row.
#[verifier::external_body]
fn matrix_ncols(acc: &Accumulator) -> (n: usize)
    ensures
        n == accumulator_width(*acc),
        rectangular(accumulator_rows(*acc), n as int),
{
    acc.cells.ncols()
}

/// `Index::index` of `nalgebra::Matrix` with `(i, j)`: the cell in row `i`,
/// column `j`. The index must lie inside the matrix.
#[verifier::external_body]
fn matrix_get(acc: &Accumulator, i: usize, j: usize) -> (count: u32)
    requires
        i < accumulator_rows(*acc).len(),
        j < accumulator_rows(*acc)[i as int].len(),
    ensures
        count == accumulator_rows(*acc)[i as int][j as int],
{
    acc.cells[(i, j)]
}

/// Assigning through `IndexMut::index_mut` of `nalgebra::Matrix` with
/// `(i, j)`: the cell in row `i`, column `j` becomes `count` and no other
/// cell changes, nor the shape. The index must lie inside the matrix.
#[verifier::external_body]
fn matrix_put(acc: &mut Accumulator, i: usize, j: usize, count: u32)
    requires
        i < accumulator_rows(*old(acc)).len(),
        j < accumulator_rows(*old(acc))[i as int].len(),
    ensures
        accumulator_rows(*final(acc)) == with_cell(
            accumulator_rows(*old(acc)),
            i as int,
            j as int,
            count,
        ),
        accumulator_width(*final(acc)) == accumulator_width(*old(acc)),
{
    acc.cells[(i, j)] = count;
}

impl Accumulator {
    /// The number of bins of the rho axis, as contracts speak of it.
    pub open spec fn width(&self) -> nat {
        accumulator_width(*self)
    }

    /// An accumulator of `theta_axis_size` rows and `rho_axis_size` columns
    /// with no votes in it, or `None` where a grid of that size cannot be
    /// addressed on this machine.
    pub fn new(theta_axis_size: usize, rho_axis_size: usize) -> (acc: Option<Accumulator>)
        ensures
            acc is Some <==> theta_axis_size * rho_axis_size * 4 <= isize::MAX,
            acc matches Some(a) ==> a.width() == rho_axis_size && a@ == uniform_rows(
                theta_axis_size as int,
                rho_axis_size as int,
                0,
            ),
    {
        assert(theta_axis_size * rho_axis_size <= usize::MAX * usize::MAX) by (nonlinear_arith)
            requires
                0 <= theta_axis_size <= usize::MAX,
                0 <= rho_axis_size <= usize::MAX,
        ;
        let cells: u128 = (theta_axis_size as u128) * (rho_axis_size as u128);
        if cells <= (isize::MAX as u128) / 4 {
            Some(zero_matrix(theta_axis_size, rho_axis_size))
        } else {
            None
        }
    }

    /// The number of steps of the theta axis: the rows of the grid.
    pub fn theta_axis_size(&self) -> (n: usize)
        ensures
            n == self@.len(),
    {
        matrix_nrows(self)
    }

    /// The number of bins of the rho axis: the length of every row of the
    /// grid.
    pub fn rho_axis_size(&self) -> (n: usize)
        ensures
            n == self.width(),
            rectangular(self@, n as int),
    {
        matrix_ncols(self)
    }

    /// The votes in the cell `(theta, rho_scaled)`, or `None` where the grid
    /// has no such cell.
    pub fn votes(&self, theta: usize, rho_scaled: usize) -> (count: Option<u32>)
        ensures
            count is Some <==> theta < self@.len() && rho_scaled < self.width(),
            count matches Some(c) ==> c == self@[theta as int][rho_scaled as int],
    {
        if theta < matrix_nrows(self) && rho_scaled < matrix_ncols(self) {
            Some(matrix_get(self, theta, rho_scaled))
        } else {
            None
        }
    }

    /// Adds one vote to the cell `(theta, rho_scaled)`.
    ///
    /// Returns `false`, and leaves the grid as it is, where the grid has no
    /// such cell or the cell's count is already the largest a cell can hold.
    pub fn cast_vote(&mut self, theta: usize, rho_scaled: usize) -> (cast: bool)
        ensures
            cast <==> theta < old(self)@.len() && rho_scaled < old(self).width() && old(
                self,
            )@[theta as int][rho_scaled as int] < u32::MAX,
            cast ==> final(self)@ == with_cell(
                old(self)@,
                theta as int,
                rho_scaled as int,
                (old(self)@[theta as int][rho_scaled as int] + 1) as u32,
            ),
            !cast ==> final(self)@ == old(self)@,
            final(self).width() == old(self).width(),
    {
        if theta < matrix_nrows(self) && rho_scaled < matrix_ncols(self) {
            let count: u32 = matrix_get(self, theta, rho_scaled);
            if count < u32::MAX {
                matrix_put(self, theta, rho_scaled, count + 1);
                return true;
            }
        }
        false
    }
}

/// `max` is the largest count in the grid: some cell holds it and no cell
/// holds more.
pub open spec fn is_largest_count(rows: Seq<Seq<u32>>, max: u32) -> bool {
    &&& exists|i: int, j: int|
        0 <= i < rows.len() && 0 <= j < rows[i].len() && #[trigger] rows[i][j] == max
    &&& forall|i: int, j: int|
        0 <= i < rows.len() && 0 <= j < rows[i].len() ==> #[trigger] rows[i][j] <= max
}

/// The grid has no cell at all.
pub open spec fn has_no_cell(rows: Seq<Seq<u32>>) -> bool {
    forall|i: int| 0 <= i < rows.len() ==> (#[trigger] rows[i]).len() == 0
}

/// The largest count in the grid, or `None` where the grid has no cell.
pub fn matrix_max(matrix: &Accumulator) -> (max: Option<u32>)
    ensures
        max is None <==> has_no_cell(matrix@),
        max matches Some(m) ==> is_largest_count(matrix@, m),
{
    let nrows: usize = matrix_nrows(matrix);
    let ncols: usize = matrix_ncols(matrix);
    if nrows == 0 || ncols == 0 {
        return None;
    }
    let mut best: u32 = matrix_get(matrix, 0, 0);
    let ghost mut best_at: (int, int) = (0, 0);
    let mut i: usize = 0;
    while i < nrows
        invariant
            i <= nrows,
            nrows == matrix@.len(),
            ncols > 0,
            rectangular(matrix@, ncols as int),
            0 <= best_at.0 < nrows && 0 <= best_at.1 < ncols,
            matrix@[best_at.0][best_at.1] == best,
            forall|a: int, b: int|
                0 <= a < i && 0 <= b < ncols ==> #[trigger] matrix@[a][b] <= best,
        decreases nrows - i,
    {
        let mut j: usize = 0;
        while j < ncols
            invariant
                i < nrows,
                j <= ncols,
                nrows == matrix@.len(),
                rectangular(matrix@, ncols as int),
                0 <= best_at.0 < nrows && 0 <= best_at.1 < ncols,
                matrix@[best_at.0][best_at.1] == best,
                forall|a: int, b: int|
                    0 <= a < i && 0 <= b < ncols ==> #[trigger] matrix@[a][b] <= best,
                forall|b: int| 0 <= b < j ==> #[trigger] matrix@[i as int][b] <= best,
            decreases ncols - j,
        {
            let count: u32 = matrix_get(matrix, i, j);
            if count > best {
                best = count;
                proof {
                    best_at = (i as int, j as int);
                }
            }
            j += 1;
        }
        i += 1;
    }
    Some(best)
}

} // verus!
