//! The cell grid: a two-dimensional array of cells, stored by `ndarray`.
//!
//! Verus does not look inside an `ndarray` array. What a grid holds is named
//! by [`grid_cells`] and [`grid_width`]; the few array operations the tables
//! need are the trusted functions of this module, and everything else is
//! proved from their contracts.

use vstd::prelude::*;
use crate::cell::CellValue;
use crate::error::FrameError;

verus! {

/// A grid of cells with a fixed number of columns, stored in an
/// `ndarray::Array2`.
///
/// Trusted: `ndarray`'s array type is bounded by a trait that Verus does not
/// know, so the array sits in a field that Verus does not read, and nothing
/// is known of a grid but what the functions of this module state.
#[verifier::external_body]
pub struct Grid {
    inner: ndarray::Array2<CellValue>,
}

/// `ndarray::ShapeError`, the error of `ndarray`'s shape checks. Trusted as an
/// opaque value; it is turned into [`FrameError::Shape`] at once.
#[verifier::external_type_specification]
#[verifier::external_body]
pub struct ExShapeError(ndarray::ShapeError);

/// The rows of a grid, first to last, each row left to right.
pub uninterp spec fn grid_cells(g: Grid) -> Seq<Seq<CellValue>>;

/// The number of columns of a grid, which it has even without any row.
pub uninterp spec fn grid_width(g: Grid) -> nat;

/// An axis length as `ndarray` counts it when it bounds a shape: a zero
/// counts as one.
pub open spec fn axis_weight(len: nat) -> nat {
    if len == 0 {
        1
    } else {
        len
    }
}

/// Whether `ndarray` can hold a grid of `nrows` by `ncols`: the product of
/// the axis lengths that are not zero must not exceed `isize::MAX`.
pub open spec fn shape_fits(nrows: nat, ncols: nat) -> bool {
    axis_weight(nrows) * axis_weight(ncols) <= isize::MAX
}

/// The cells of `cells` cut into `nrows` rows of `ncols` cells each.
pub open spec fn chunked(cells: Seq<CellValue>, nrows: nat, ncols: nat) -> Seq<Seq<CellValue>> {
    Seq::new(nrows, |i: int| cells.subrange(i * ncols, i * ncols + ncols))
}

/// Trusted: `ndarray::Array2::from_shape_vec` with the shape `(nrows, ncols)`.
/// It succeeds exactly when the shape fits and has as many places as `cells`
/// has items, and then lays the items out row by row.
#[verifier::external_body]
fn array_from_shape_vec(
    nrows: usize,
    ncols: usize,
    cells: Vec<CellValue>,
) -> (r: Result<Grid, ndarray::ShapeError>)
    ensures
        r is Ok <==> (shape_fits(nrows as nat, ncols as nat) && nrows * ncols == cells@.len()),
        r matches Ok(g) ==> grid_width(g) == ncols,
        r matches Ok(g) ==> grid_cells(g) == chunked(cells@, nrows as nat, ncols as nat),
{
    match ndarray::Array2::from_shape_vec((nrows, ncols), cells) {
        Ok(inner) => Ok(Grid { inner }),
        Err(e) => Err(e),
    }
}

/// Trusted: `ndarray::ArrayBase::nrows`, the number of rows.
#[verifier::external_body]
fn array_nrows(g: &Grid) -> (n: usize)
    ensures
        n == grid_cells(*g).len(),
{
    g.inner.nrows()
}

/// Trusted: `ndarray::ArrayBase::ncols`, the number of columns.
#[verifier::external_body]
fn array_ncols(g: &Grid) -> (n: usize)
    ensures
        n == grid_width(*g),
{
    g.inner.ncols()
}

/// Trusted: `ndarray`'s `Index<[usize; 2]>` for an array, the cell at row `i`
/// and column `j`. It panics out of bounds, which `requires` rules out.
#[verifier::external_body]
fn array_get(g: &Grid, i: usize, j: usize) -> (cell: &CellValue)
    requires
        i < grid_cells(*g).len(),
        j < grid_width(*g),
    ensures
        *cell == grid_cells(*g)[i as int][j as int],
{
    &g.inner[[i, j]]
}

/// Trusted: `ndarray`'s `IndexMut<[usize; 2]>` for an array: the cell at row
/// `i` and column `j` becomes `value`, and no other cell changes. It panics
/// out of bounds, which `requires` rules out.
#[verifier::external_body]
fn array_set(g: &mut Grid, i: usize, j: usize, value: CellValue)
    requires
        i < grid_cells(*old(g)).len(),
        j < grid_width(*old(g)),
    ensures
        grid_width(*final(g)) == grid_width(*old(g)),
        grid_cells(*final(g)) == grid_cells(*old(g)).update(
            i as int,
            grid_cells(*old(g))[i as int].update(j as int, value),
        ),
{
    g.inner[[i, j]] = value;
}

/// Trusted: `ndarray::ArrayBase::append` along the row axis, with a view of
/// `other`. It succeeds exactly when both grids have the same number of
/// columns and the longer grid still fits; the rows of `other` are then
/// cloned onto the end. On an error the grid is as it was.
#[verifier::external_body]
fn array_append_rows(g: &mut Grid, other: &Grid) -> (r: Result<(), ndarray::ShapeError>)
    requires
        grid_cells(*old(g)).len() + grid_cells(*other).len() <= usize::MAX,
    ensures
        r is Ok <==> (grid_width(*old(g)) == grid_width(*other) && shape_fits(
            grid_cells(*old(g)).len() + grid_cells(*other).len(),
            grid_width(*old(g)),
        )),
        r is Ok ==> grid_width(*final(g)) == grid_width(*old(g)),
        r is Ok ==> grid_cells(*final(g)) == grid_cells(*old(g)) + grid_cells(*other),
        r is Err ==> *final(g) == *old(g),
{
    g.inner.append(ndarray::Axis(0), other.inner.view())
}

/// Trusted: `Clone::clone` of an `ndarray` array: the same shape, and every
/// cell cloned in its place.
#[verifier::external_body]
fn array_clone(g: &Grid) -> (r: Grid)
    ensures
        grid_width(r) == grid_width(*g),
        grid_cells(r) == grid_cells(*g),
{
    Grid { inner: g.inner.clone() }
}

impl View for Grid {
    type V = Seq<Seq<CellValue>>;

    open spec fn view(&self) -> Seq<Seq<CellValue>> {
        grid_cells(*self)
    }
}

/// Whether every row of `rows` has `width` cells.
pub open spec fn rectangular<T>(rows: Seq<Seq<T>>, width: nat) -> bool {
    forall|i: int| 0 <= i < rows.len() ==> (#[trigger] rows[i]).len() == width
}

/// The rows of a vector of rows, each as a sequence.
pub open spec fn rows_of(rows: Seq<Vec<CellValue>>) -> Seq<Seq<CellValue>> {
    Seq::new(rows.len(), |i: int| rows[i]@)
}

/// A shape with fewer rows or columns than one that fits also fits.
pub proof fn lemma_shape_fits_smaller(nrows: nat, ncols: nat, big_rows: nat, big_cols: nat)
    requires
        shape_fits(big_rows, big_cols),
        nrows <= big_rows,
        ncols <= big_cols,
    ensures
        shape_fits(nrows, ncols),
{
    let a = axis_weight(nrows);
    let b = axis_weight(ncols);
    let c = axis_weight(big_rows);
    let d = axis_weight(big_cols);
    assert(a * b <= c * d) by (nonlinear_arith)
        requires
            0 <= a <= c,
            0 <= b <= d,
    ;
}

/// A shape of at most 32767 rows and 32767 columns fits on every machine.
pub proof fn lemma_small_shape_fits(nrows: nat, ncols: nat)
    requires
        nrows <= 0x7fff,
        ncols <= 0x7fff,
    ensures
        shape_fits(nrows, ncols),
{
    let a = axis_weight(nrows);
    let b = axis_weight(ncols);
    assert(a * b <= 0x7fff * 0x7fff) by (nonlinear_arith)
        requires
            0 <= a <= 0x7fff,
            0 <= b <= 0x7fff,
    ;
}

impl Grid {
    /// The number of columns.
    pub open spec fn width(&self) -> nat {
        grid_width(*self)
    }

    /// What holds of every grid that this module makes: each row has
    /// `width()` cells, and the shape is one that `ndarray` can hold.
    pub open spec fn wf(&self) -> bool {
        &&& rectangular(self@, self.width())
        &&& shape_fits(self@.len(), self.width())
    }

    /// Makes a grid of `nrows` by `ncols` from `cells`, taken row by row.
    ///
    /// Fails with [`FrameError::Shape`] when `cells` has not `nrows * ncols`
    /// items or the shape does not fit.
    pub fn from_shape_vec(
        nrows: usize,
        ncols: usize,
        cells: Vec<CellValue>,
    ) -> (r: Result<Grid, FrameError>)
        ensures
            r is Ok <==> shape_fits(nrows as nat, ncols as nat) && nrows * ncols == cells@.len(),
            r matches Ok(g) ==> g.wf() && g.width() == ncols && g@ == chunked(
                cells@,
                nrows as nat,
                ncols as nat,
            ),
            r matches Err(e) ==> e == FrameError::Shape,
    {
        match array_from_shape_vec(nrows, ncols, cells) {
            Ok(g) => {
                proof {
                    assert forall|i: int| 0 <= i < g@.len() implies (#[trigger] g@[i]).len()
                        == ncols by {
                        lemma_chunk_in_bounds(i, nrows as int, ncols as int);
                    }
                }
                Ok(g)
            },
            Err(_) => Err(FrameError::Shape),
        }
    }

    /// Makes a grid from whole rows, each of which must have `ncols` cells.
    ///
    /// Fails with [`FrameError::Shape`] when a row has another length or the
    /// shape does not fit.
    pub fn from_rows(rows: Vec<Vec<CellValue>>, ncols: usize) -> (r: Result<Grid, FrameError>)
        ensures
            r is Ok <==> rectangular(rows_of(rows@), ncols as nat) && shape_fits(
                rows@.len(),
                ncols as nat,
            ),
            r matches Ok(g) ==> g.wf() && g.width() == ncols && g@ == rows_of(rows@),
            r matches Err(e) ==> e == FrameError::Shape,
    {
        let nrows: usize = rows.len();
        let mut flat: Vec<CellValue> = Vec::new();
        let mut i: usize = 0;
        while i < nrows
            invariant
                nrows == rows@.len(),
                0 <= i <= nrows,
                flat@.len() == i * ncols,
                forall|a: int| 0 <= a < i ==> (#[trigger] rows@[a])@.len() == ncols,
                forall|a: int, b: int|
                    0 <= a < i && 0 <= b < ncols ==> flat@[a * ncols + b]
                        == #[trigger] rows@[a]@[b],
            decreases nrows - i,
        {
            let row = &rows[i];
            if row.len() != ncols {
                proof {
                    assert(rows_of(rows@)[i as int].len() != ncols);
                }
                return Err(FrameError::Shape);
            }
            let mut j: usize = 0;
            while j < ncols
                invariant
                    nrows == rows@.len(),
                    0 <= i < nrows,
                    0 <= j <= ncols,
                    row == &rows@[i as int],
                    row@.len() == ncols,
                    flat@.len() == i * ncols + j,
                    forall|a: int, b: int|
                        0 <= a < i && 0 <= b < ncols ==> flat@[a * ncols + b]
                            == #[trigger] rows@[a]@[b],
                    forall|b: int| 0 <= b < j ==> flat@[i * ncols + b] == #[trigger] row@[b],
                decreases ncols - j,
            {
                let ghost before = flat@;
                flat.push(row[j].clone());
                proof {
                    assert forall|a: int, b: int| 0 <= a < i && 0 <= b < ncols implies flat@[a
                        * ncols + b] == #[trigger] rows@[a]@[b] by {
                        lemma_chunk_in_bounds(a, i as int, ncols as int);
                        assert(flat@[a * ncols + b] == before[a * ncols + b]);
                    }
                }
                j += 1;
            }
            proof {
                assert((i + 1) * ncols == i * ncols + ncols) by (nonlinear_arith);
            }
            i += 1;
        }
        proof {
            assert(rectangular(rows_of(rows@), ncols as nat));
            assert(chunked(flat@, nrows as nat, ncols as nat) =~= rows_of(rows@)) by {
                assert forall|a: int| 0 <= a < nrows implies #[trigger] chunked(
                    flat@,
                    nrows as nat,
                    ncols as nat,
                )[a] == rows_of(rows@)[a] by {
                    lemma_chunk_in_bounds(a, nrows as int, ncols as int);
                    assert(flat@.subrange(a * ncols, a * ncols + ncols) =~= rows@[a]@);
                }
            }
        }
        Grid::from_shape_vec(nrows, ncols, flat)
    }

    /// The number of rows.
    pub fn nrows(&self) -> (n: usize)
        ensures
            n == self@.len(),
    {
        array_nrows(self)
    }

    /// The number of columns.
    pub fn ncols(&self) -> (n: usize)
        ensures
            n == self.width(),
    {
        array_ncols(self)
    }

    /// The cell at row `i` and column `j`.
    pub fn get(&self, i: usize, j: usize) -> (cell: &CellValue)
        requires
            i < self@.len(),
            j < self.width(),
        ensures
            *cell == self@[i as int][j as int],
    {
        array_get(self, i, j)
    }

    /// Puts `value` at row `i` and column `j`.
    pub(crate) fn set(&mut self, i: usize, j: usize, value: CellValue)
        requires
            old(self).wf(),
            i < old(self)@.len(),
            j < old(self).width(),
        ensures
            final(self).wf(),
            final(self).width() == old(self).width(),
            final(self)@ == old(self)@.update(
                i as int,
                old(self)@[i as int].update(j as int, value),
            ),
    {
        array_set(self, i, j, value);
    }

    /// Appends clones of the rows of `other`.
    ///
    /// Fails with [`FrameError::Shape`], leaving the grid as it was, when the
    /// widths differ or the longer grid does not fit.
    pub(crate) fn append_rows(&mut self, other: &Grid) -> (r: Result<(), FrameError>)
        requires
            old(self).wf(),
            other.wf(),
        ensures
            r is Ok <==> old(self).width() == other.width() && shape_fits(
                old(self)@.len() + other@.len(),
                old(self).width(),
            ),
            r is Ok ==> final(self).wf() && final(self).width() == old(self).width(),
            r is Ok ==> final(self)@ == old(self)@ + other@,
            r matches Err(e) ==> e == FrameError::Shape && *final(self) == *old(self),
    {
        proof {
            lemma_rows_bounded(self@.len(), self.width());
            lemma_rows_bounded(other@.len(), other.width());
        }
        match array_append_rows(self, other) {
            Ok(()) => Ok(()),
            Err(_) => Err(FrameError::Shape),
        }
    }

    /// A copy of the grid, cell for cell.
    pub(crate) fn duplicate(&self) -> (r: Grid)
        ensures
            r.width() == self.width(),
            r@ == self@,
    {
        array_clone(self)
    }

    /// A copy of row `i`.
    pub fn row(&self, i: usize) -> (cells: Vec<CellValue>)
        requires
            self.wf(),
            i < self@.len(),
        ensures
            cells@ == self@[i as int],
    {
        let ncols: usize = self.ncols();
        let mut cells: Vec<CellValue> = Vec::new();
        let mut j: usize = 0;
        while j < ncols
            invariant
                self.wf(),
                i < self@.len(),
                ncols == self.width(),
                0 <= j <= ncols,
                cells@ == self@[i as int].take(j as int),
            decreases ncols - j,
        {
            cells.push(self.get(i, j).clone());
            proof {
                assert(cells@ =~= self@[i as int].take(j + 1));
            }
            j += 1;
        }
        proof {
            assert(cells@ =~= self@[i as int]);
        }
        cells
    }
}

/// Row `i` of `nrows` rows of `ncols` cells lies within the first
/// `nrows * ncols` places.
proof fn lemma_chunk_in_bounds(i: int, nrows: int, ncols: int)
    requires
        0 <= i < nrows,
        0 <= ncols,
    ensures
        0 <= i * ncols,
        i * ncols + ncols <= nrows * ncols,
{
    assert(0 <= i * ncols) by (nonlinear_arith)
        requires
            0 <= i,
            0 <= ncols,
    ;
    assert(i * ncols + ncols <= nrows * ncols) by (nonlinear_arith)
        requires
            i + 1 <= nrows,
            0 <= ncols,
    ;
}

/// A shape that fits has at most `isize::MAX` rows.
proof fn lemma_rows_bounded(nrows: nat, ncols: nat)
    requires
        shape_fits(nrows, ncols),
    ensures
        nrows <= isize::MAX,
{
    let a = axis_weight(nrows);
    let b = axis_weight(ncols);
    assert(a <= a * b) by (nonlinear_arith)
        requires
            0 <= a,
            1 <= b,
    ;
}

} // verus!
