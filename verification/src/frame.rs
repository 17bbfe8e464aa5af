//! The table: a header of cells that name the columns, over a grid of cells.

use vstd::prelude::*;
use vstd::pervasive::unreached;
use crate::cell::CellValue;
use crate::cell::CellView;
use crate::error::FrameError;
use crate::error::FrameErrorView;
use crate::grid::rectangular;
use crate::grid::rows_of;
use crate::grid::shape_fits;
use crate::grid::lemma_shape_fits_smaller;
use crate::grid::Grid;
use crate::row::find_column;
use crate::row::Row;
use crate::table::cell_views;
use crate::table::lemma_column_position;
use crate::table::lemma_retained_from;
use crate::table::lemma_retained_len;
use crate::table::lemma_retained_push;
use crate::table::names_of;
use crate::table::retained;
use crate::table::row_views;
use crate::table::text_cells;
use crate::table::TableView;

verus! {

/// A table of cells with named columns.
pub struct DataFrame {
    arr: Grid,
    cols: usize,
    header: Vec<CellValue>,
}

impl View for DataFrame {
    type V = TableView;

    open spec fn view(&self) -> TableView {
        TableView { header: cell_views(self.header_cells()), rows: row_views(self.cells()) }
    }
}

/// Whether `keep` holds, for each row of `rows`, an answer that `predicate`
/// gave for the cell of that row in column `col`.
pub open spec fn is_mask<F: Fn(&CellValue) -> bool>(
    rows: Seq<Seq<CellValue>>,
    col: int,
    predicate: F,
    keep: Seq<bool>,
) -> bool {
    &&& keep.len() == rows.len()
    &&& forall|i: int|
        0 <= i < rows.len() ==> call_ensures(predicate, (&rows[i][col],), #[trigger] keep[i])
}

/// Whether `after` is the row `before` with the cell in column `col`
/// replaced by a value that `f` gave for the row `before` under `header`.
pub open spec fn is_mapped_row<F: Fn(Row<'_>) -> CellValue>(
    f: F,
    header: Seq<CellValue>,
    before: Seq<CellValue>,
    col: int,
    after: Seq<CellValue>,
) -> bool {
    &&& after == before.update(col, after[col])
    &&& exists|r: Row|
        #![trigger call_ensures(f, (r,), after[col])]
        r.header_cells() == header && r.cells() == before && call_ensures(f, (r,), after[col])
}

impl DataFrame {
    /// The header cells as they are stored.
    pub closed spec fn header_cells(&self) -> Seq<CellValue> {
        self.header@
    }

    /// The rows of cells as they are stored.
    pub closed spec fn cells(&self) -> Seq<Seq<CellValue>> {
        self.arr@
    }

    /// The table is whole: every row has one cell for each header cell, and
    /// the grid is one that the storage can hold.
    pub closed spec fn wf(&self) -> bool {
        &&& self.arr.wf()
        &&& self.arr.width() == self.header@.len()
        &&& self.cols == self.header@.len()
    }

    /// What `wf` says of the stored cells and of the view.
    pub proof fn lemma_wf(&self)
        requires
            self.wf(),
        ensures
            self@.wf(),
            rectangular(self.cells(), self.header_cells().len()),
            shape_fits(self.cells().len(), self.header_cells().len()),
    {
    }

    /// Makes a table from an explicit header and a grid.
    ///
    /// Fails with [`FrameError::Shape`] when the grid has not one column for
    /// each header cell.
    pub fn with_header(header: Vec<CellValue>, arr: Grid) -> (r: Result<DataFrame, FrameError>)
        requires
            arr.wf(),
        ensures
            r is Ok <==> arr.width() == header@.len(),
            r matches Ok(t) ==> t.wf() && t.header_cells() == header@ && t.cells() == arr@,
            r matches Err(e) ==> e == FrameError::Shape,
    {
        let cols: usize = arr.ncols();
        if cols != header.len() {
            return Err(FrameError::Shape);
        }
        Ok(DataFrame { cols, header, arr })
    }

    /// Makes a table from a grid whose first row is the header; the rows
    /// after it are the data.
    ///
    /// Fails with [`FrameError::Shape`] when the grid has no row.
    pub fn new(arr: Grid) -> (r: Result<DataFrame, FrameError>)
        requires
            arr.wf(),
        ensures
            r is Ok <==> arr@.len() > 0,
            r matches Ok(t) ==> t.wf() && t.header_cells() == arr@[0] && t.cells() == arr@.skip(1),
            r matches Err(e) ==> e == FrameError::Shape,
    {
        let nrows: usize = arr.nrows();
        if nrows == 0 {
            return Err(FrameError::Shape);
        }
        let ncols: usize = arr.ncols();
        let header = arr.row(0);
        let mut rows: Vec<Vec<CellValue>> = Vec::new();
        let mut i: usize = 1;
        while i < nrows
            invariant
                arr.wf(),
                nrows == arr@.len(),
                ncols == arr.width(),
                1 <= i <= nrows,
                rows_of(rows@) == arr@.subrange(1, i as int),
            decreases nrows - i,
        {
            let row = arr.row(i);
            let ghost before = rows@;
            rows.push(row);
            proof {
                assert(rows_of(before).len() == i - 1);
                assert(rows@.len() == i);
                assert forall|k: int| 0 <= k < i implies #[trigger] rows_of(rows@)[k]
                    == arr@[k + 1] by {
                    if k < i - 1 {
                        assert(rows@[k] == before[k]);
                        assert(rows_of(before)[k] == arr@.subrange(1, i as int)[k]);
                    }
                }
                assert(rows_of(rows@) =~= arr@.subrange(1, i + 1));
            }
            i += 1;
        }
        proof {
            assert(arr@.subrange(1, nrows as int) =~= arr@.skip(1));
            assert(rectangular(rows_of(rows@), ncols as nat));
            lemma_shape_fits_smaller(
                (nrows - 1) as nat,
                ncols as nat,
                nrows as nat,
                ncols as nat,
            );
        }
        match Grid::from_rows(rows, ncols) {
            Ok(data) => DataFrame::with_header(header, data),
            Err(e) => Err(e),
        }
    }

    /// Makes a table from rows of cells: the first row is the header, the
    /// rows after it are the data.
    ///
    /// Fails with [`FrameError::Shape`] when there is no row, when the rows
    /// are not all of one length, or when the grid does not fit.
    pub fn from_rows(rows: Vec<Vec<CellValue>>) -> (r: Result<DataFrame, FrameError>)
        ensures
            r is Ok <==> rows@.len() > 0 && rectangular(rows_of(rows@), rows@[0]@.len())
                && shape_fits((rows@.len() - 1) as nat, rows@[0]@.len()),
            r matches Ok(t) ==> t.wf() && t.header_cells() == rows@[0]@ && t.cells() == rows_of(
                rows@,
            ).skip(1),
            r matches Err(e) ==> e == FrameError::Shape,
    {
        let mut rows = rows;
        if rows.len() == 0 {
            return Err(FrameError::Shape);
        }
        let ghost all = rows@;
        let header = rows.remove(0);
        let ncols: usize = header.len();
        proof {
            assert(rows_of(rows@) =~= rows_of(all).skip(1));
            assert(rectangular(rows_of(all), ncols as nat) <==> rectangular(
                rows_of(rows@),
                ncols as nat,
            )) by {
                if rectangular(rows_of(all), ncols as nat) {
                    assert forall|i: int| 0 <= i < rows_of(rows@).len() implies (
                    #[trigger] rows_of(rows@)[i]).len() == ncols by {
                        assert(rows_of(rows@)[i] == rows_of(all)[i + 1]);
                    }
                }
                if rectangular(rows_of(rows@), ncols as nat) {
                    assert forall|i: int| 0 <= i < rows_of(all).len() implies (#[trigger] rows_of(
                        all,
                    )[i]).len() == ncols by {
                        if i > 0 {
                            assert(rows_of(all)[i] == rows_of(rows@)[i - 1]);
                        }
                    }
                }
            }
        }
        match Grid::from_rows(rows, ncols) {
            Ok(data) => DataFrame::with_header(header, data),
            Err(e) => Err(e),
        }
    }

    /// The header cells.
    pub fn header(&self) -> (h: &Vec<CellValue>)
        ensures
            h@ == self.header_cells(),
    {
        &self.header
    }

    /// The grid of cells under the header.
    pub fn grid(&self) -> (g: &Grid)
        ensures
            g@ == self.cells(),
            self.wf() ==> g.wf() && g.width() == self.header_cells().len(),
    {
        &self.arr
    }

    /// The number of rows.
    pub fn nrows(&self) -> (n: usize)
        ensures
            n == self.cells().len(),
    {
        self.arr.nrows()
    }

    /// The number of columns.
    pub fn ncols(&self) -> (n: usize)
        requires
            self.wf(),
        ensures
            n == self.header_cells().len(),
    {
        self.cols
    }

    /// The index of the column `col`: that of the first header cell that is
    /// the text `col`.
    ///
    /// Fails with [`FrameError::UnknownColumn`], which carries `col`, when
    /// no header cell is that text.
    pub fn idx_for_column(&self, col: &str) -> (r: Result<usize, FrameError>)
        ensures
            match r {
                Ok(i) => self@.column_index(col@) == Some(i as int),
                Err(e) => self@.column_index(col@) is None && e@ == FrameErrorView::UnknownColumn(
                    col@,
                ),
            },
    {
        match find_column(self.header.as_slice(), col) {
            Some(i) => Ok(i),
            None => Err(FrameError::UnknownColumn(col.to_owned())),
        }
    }

    /// A copy of the rows, each as a vector of cells.
    pub fn rows(&self) -> (rows: Vec<Vec<CellValue>>)
        requires
            self.wf(),
        ensures
            rows_of(rows@) == self.cells(),
    {
        let nrows: usize = self.arr.nrows();
        let mut rows: Vec<Vec<CellValue>> = Vec::new();
        let mut i: usize = 0;
        while i < nrows
            invariant
                self.wf(),
                nrows == self.cells().len(),
                0 <= i <= nrows,
                rows@.len() == i,
                forall|k: int| 0 <= k < i ==> (#[trigger] rows@[k])@ == self.cells()[k],
            decreases nrows - i,
        {
            let row = self.arr.row(i);
            rows.push(row);
            i += 1;
        }
        proof {
            assert(rows_of(rows@) =~= self.cells());
        }
        rows
    }

    /// The header cells that are the text of `cols`.
    fn text_header(cols: &[&str]) -> (header: Vec<CellValue>)
        ensures
            cell_views(header@) == text_cells(names_of(cols@)),
    {
        let n: usize = cols.len();
        let mut header: Vec<CellValue> = Vec::new();
        let mut k: usize = 0;
        while k < n
            invariant
                n == cols@.len(),
                0 <= k <= n,
                header@.len() == k,
                forall|j: int| 0 <= j < k ==> (#[trigger] header@[j])@ == CellView::Text(cols@[j]@),
            decreases n - k,
        {
            header.push(CellValue::Text(cols[k].to_owned()));
            k += 1;
        }
        proof {
            assert(cell_views(header@) =~= text_cells(names_of(cols@)));
        }
        header
    }

    /// The index of each column of `cols`, or the error for the first that
    /// is no column.
    fn resolve_all(&self, cols: &[&str]) -> (r: Result<Vec<usize>, FrameError>)
        ensures
            match r {
                Ok(idxs) => {
                    &&& idxs@.len() == cols@.len()
                    &&& forall|k: int|
                        0 <= k < cols@.len() ==> self@.column_index(#[trigger] names_of(cols@)[k])
                            == Some(idxs@[k] as int)
                },
                Err(e) => exists|k: int|
                    #![auto]
                    self@.is_first_missing(names_of(cols@), k) && e@
                        == FrameErrorView::UnknownColumn(names_of(cols@)[k]),
            },
    {
        let n: usize = cols.len();
        let mut idxs: Vec<usize> = Vec::new();
        let mut k: usize = 0;
        while k < n
            invariant
                n == cols@.len(),
                0 <= k <= n,
                idxs@.len() == k,
                forall|j: int|
                    0 <= j < k ==> self@.column_index(#[trigger] names_of(cols@)[j]) == Some(
                        idxs@[j] as int,
                    ),
            decreases n - k,
        {
            match self.idx_for_column(cols[k]) {
                Ok(i) => {
                    idxs.push(i);
                },
                Err(e) => {
                    proof {
                        assert(names_of(cols@)[k as int] == cols@[k as int]@);
                        assert(self@.is_first_missing(names_of(cols@), k as int));
                    }
                    return Err(e);
                },
            }
            k += 1;
        }
        Ok(idxs)
    }

    /// The table with the columns `cols`, in that order. A column may be
    /// named more than once, and is then there more than once.
    ///
    /// Fails with [`FrameError::UnknownColumn`] for the first name that is
    /// no column, and with [`FrameError::Shape`] when all are columns but
    /// the new grid does not fit.
    pub fn subselect_cols(&self, cols: &[&str]) -> (r: Result<DataFrame, FrameError>)
        requires
            self.wf(),
        ensures
            match r {
                Ok(t) => {
                    &&& self@.has_columns(names_of(cols@))
                    &&& shape_fits(self@.rows.len(), cols@.len() as nat)
                    &&& t.wf()
                    &&& t@ == self@.select(names_of(cols@))
                },
                Err(e) => match e@ {
                    FrameErrorView::UnknownColumn(name) => exists|k: int|
                        #![auto]
                        self@.is_first_missing(names_of(cols@), k) && name == names_of(cols@)[k],
                    FrameErrorView::Shape => self@.has_columns(names_of(cols@)) && !shape_fits(
                        self@.rows.len(),
                        cols@.len() as nat,
                    ),
                    FrameErrorView::SchemaMismatch => false,
                },
            },
    {
        let idxs = match self.resolve_all(cols) {
            Ok(idxs) => idxs,
            Err(e) => {
                return Err(e);
            },
        };
        let ghost names = names_of(cols@);
        proof {
            assert forall|k: int| 0 <= k < names.len() implies 0 <= #[trigger] idxs@[k]
                < self.header_cells().len() by {
                assert(self@.column_index(names[k]) == Some(idxs@[k] as int));
                lemma_column_position(self@.header, names[k]);
            }
        }
        let nrows: usize = self.arr.nrows();
        let width: usize = idxs.len();
        let mut rows: Vec<Vec<CellValue>> = Vec::new();
        let mut i: usize = 0;
        while i < nrows
            invariant
                self.wf(),
                nrows == self.cells().len(),
                width == idxs@.len(),
                0 <= i <= nrows,
                rows@.len() == i,
                forall|k: int|
                    0 <= k < width ==> 0 <= #[trigger] idxs@[k] < self.header_cells().len(),
                forall|a: int| 0 <= a < i ==> (#[trigger] rows@[a])@.len() == width,
                forall|a: int, k: int|
                    0 <= a < i && 0 <= k < width ==> (#[trigger] rows@[a]@[k])
                        == self.cells()[a][idxs@[k] as int],
            decreases nrows - i,
        {
            let mut row: Vec<CellValue> = Vec::new();
            let mut k: usize = 0;
            while k < width
                invariant
                    self.wf(),
                    nrows == self.cells().len(),
                    width == idxs@.len(),
                    0 <= i < nrows,
                    0 <= k <= width,
                    row@.len() == k,
                    forall|j: int|
                        0 <= j < width ==> 0 <= #[trigger] idxs@[j] < self.header_cells().len(),
                    forall|j: int|
                        0 <= j < k ==> (#[trigger] row@[j])
                            == self.cells()[i as int][idxs@[j] as int],
                decreases width - k,
            {
                row.push(self.arr.get(i, idxs[k]).clone());
                k += 1;
            }
            rows.push(row);
            i += 1;
        }
        let header = DataFrame::text_header(cols);
        proof {
            assert(rectangular(rows_of(rows@), width as nat));
            assert forall|k: int| 0 <= k < names.len() implies (#[trigger] self@.column_index(
                names[k],
            )) is Some by {}
        }
        match Grid::from_rows(rows, width) {
            Ok(data) => {
                proof {
                    assert(cell_views(header@).len() == width);
                }
                let made = DataFrame::with_header(header, data);
                proof {
                    let t = made->Ok_0;
                    let want = self@.select(names);
                    assert(t@.header == want.header);
                    assert(t@.rows =~~= want.rows) by {
                        assert forall|a: int, k: int|
                            0 <= a < nrows && 0 <= k < width implies t@.rows[a][k]
                            == want.rows[a][k] by {
                            assert(t.cells()[a] == rows@[a]@);
                            assert(rows@[a]@[k] == self.cells()[a][idxs@[k] as int]);
                            assert(self@.column_index(names[k]) == Some(idxs@[k] as int));
                        }
                    }
                }
                made
            },
            Err(e) => Err(e),
        }
    }

    /// The table with the rows for which `predicate` answers true on the
    /// cell in column `col`, in their order, under the same header.
    ///
    /// Fails with [`FrameError::UnknownColumn`] when `col` is no column.
    pub fn filter_by_col<F: Fn(&CellValue) -> bool>(
        &self,
        col: &str,
        predicate: F,
    ) -> (r: Result<DataFrame, FrameError>)
        requires
            self.wf(),
            forall|i: int, j: int|
                0 <= i < self.cells().len() && self@.column_index(col@) == Some(j)
                    ==> call_requires(predicate, (&#[trigger] self.cells()[i][j],)),
        ensures
            match r {
                Ok(t) => {
                    &&& self@.column_index(col@) matches Some(j)
                    &&& t.wf()
                    &&& t.header_cells() == self.header_cells()
                    &&& exists|keep: Seq<bool>|
                        #![trigger is_mask(self.cells(), j, predicate, keep)]
                        is_mask(self.cells(), j, predicate, keep) && t.cells() == retained(
                            self.cells(),
                            keep,
                        )
                    &&& t.cells().len() <= self.cells().len()
                    &&& forall|k: int|
                        0 <= k < t.cells().len() ==> call_ensures(
                            predicate,
                            (&#[trigger] t.cells()[k][j],),
                            true,
                        )
                },
                Err(e) => self@.column_index(col@) is None && e@ == FrameErrorView::UnknownColumn(
                    col@,
                ),
            },
    {
        let col_idx: usize = match self.idx_for_column(col) {
            Ok(i) => i,
            Err(e) => {
                return Err(e);
            },
        };
        proof {
            lemma_column_position(self@.header, col@);
        }
        let nrows: usize = self.arr.nrows();
        let mut rows: Vec<Vec<CellValue>> = Vec::new();
        let ghost mut keep: Seq<bool> = Seq::empty();
        let mut i: usize = 0;
        while i < nrows
            invariant
                self.wf(),
                nrows == self.cells().len(),
                col_idx < self.header_cells().len(),
                0 <= i <= nrows,
                keep.len() == i,
                forall|k: int|
                    0 <= k < nrows ==> call_requires(
                        predicate,
                        (&#[trigger] self.cells()[k][col_idx as int],),
                    ),
                forall|k: int|
                    0 <= k < i ==> call_ensures(
                        predicate,
                        (&self.cells()[k][col_idx as int],),
                        #[trigger] keep[k],
                    ),
                rows_of(rows@) == retained(self.cells().take(i as int), keep),
            decreases nrows - i,
        {
            let ghost before = rows@;
            let ghost seen = self.cells().take(i as int);
            let cell = self.arr.get(i, col_idx);
            proof {
                assert(*cell == self.cells()[i as int][col_idx as int]);
            }
            let flag = predicate(cell);
            if flag {
                let row = self.arr.row(i);
                rows.push(row);
            }
            proof {
                lemma_retained_push(seen, keep, self.cells()[i as int], flag);
                assert(self.cells().take(i + 1) =~= seen.push(self.cells()[i as int]));
                if flag {
                    assert(rows_of(rows@) =~= rows_of(before).push(self.cells()[i as int]));
                } else {
                    assert(rows_of(rows@) =~= rows_of(before));
                }
                keep = keep.push(flag);
            }
            i += 1;
        }
        proof {
            assert(self.cells().take(nrows as int) =~= self.cells());
            let kept = retained(self.cells(), keep);
            lemma_retained_len(self.cells(), keep);
            assert forall|k: int| 0 <= k < kept.len() implies (#[trigger] kept[k]).len()
                == self.cols by {
                let from = lemma_retained_from(self.cells(), keep, k);
            }
            lemma_shape_fits_smaller(
                kept.len(),
                self.cols as nat,
                nrows as nat,
                self.cols as nat,
            );
            assert(is_mask(self.cells(), col_idx as int, predicate, keep));
            assert forall|k: int| 0 <= k < kept.len() implies call_ensures(
                predicate,
                (&#[trigger] kept[k][col_idx as int],),
                true,
            ) by {
                let from = lemma_retained_from(self.cells(), keep, k);
            }
        }
        let header = clone_cells(&self.header);
        match Grid::from_rows(rows, self.cols) {
            Ok(data) => DataFrame::with_header(header, data),
            Err(e) => Err(e),
        }
    }

    /// The table without the columns `cols`: the columns whose name is not
    /// among `cols`, in header order. A name of `cols` that is no column
    /// is passed over.
    ///
    /// Every header cell must be text.
    pub fn drop_columns(&self, cols: &[&str]) -> (t: DataFrame)
        requires
            self.wf(),
            self@.header_is_text(),
        ensures
            t.wf(),
            t@ == self@.drop_columns(names_of(cols@)),
    {
        let dropped = owned_names(cols);
        let ghost names = names_of(cols@);
        let ghost unnamed = |n: Seq<char>| !names.contains(n);
        let ghost all = self@.header_names();
        let n: usize = self.header.len();
        let mut kept: Vec<&str> = Vec::new();
        let mut i: usize = 0;
        while i < n
            invariant
                self@.header_is_text(),
                n == self.header@.len(),
                0 <= i <= n,
                names == names_of(cols@),
                unnamed == (|n: Seq<char>| !names.contains(n)),
                all == self@.header_names(),
                dropped@.len() == cols@.len(),
                forall|k: int| 0 <= k < dropped@.len() ==> (#[trigger] dropped@[k])@ == cols@[k]@,
                names_of(kept@) == all.take(i as int).filter(unnamed),
            decreases n - i,
        {
            let ghost before = kept@;
            proof {
                assert(self@.header[i as int] is Text);
                assert(self@.header[i as int] == self.header@[i as int]@);
                all.take(i as int).lemma_filter_push(all[i as int], unnamed);
                assert(all.take(i + 1) =~= all.take(i as int).push(all[i as int]));
            }
            match &self.header[i] {
                CellValue::Text(name) => {
                    let named = has_name(&dropped, name);
                    proof {
                        assert(all[i as int] == name@);
                        if named {
                            let k = choose|k: int| 0 <= k < dropped@.len() && dropped@[k]@ == name@;
                            assert(names[k] == name@);
                        } else {
                            assert forall|k: int| 0 <= k < names.len() implies names[k]
                                != name@ by {
                                assert(dropped@[k]@ == cols@[k]@);
                            }
                        }
                        assert(named == names.contains(name@));
                    }
                    if !named {
                        kept.push(name.as_str());
                        proof {
                            assert(names_of(kept@) =~= names_of(before).push(name@));
                        }
                    }
                },
                _ => {
                    proof {
                        assert(false);
                    }
                },
            }
            i += 1;
        }
        proof {
            assert(all.take(n as int) =~= all);
            let want = self@.kept_names(names);
            assert(names_of(kept@) == want);
            all.lemma_filter_len(unnamed);
            lemma_shape_fits_smaller(
                self@.rows.len(),
                want.len(),
                self@.rows.len(),
                self@.header.len(),
            );
            assert forall|k: int| 0 <= k < want.len() implies (#[trigger] self@.column_index(
                want[k],
            )) is Some by {
                assert(all.filter(unnamed).contains(want[k]));
                all.lemma_filter_contains_rev(unnamed, want[k]);
                let m = choose|m: int| 0 <= m < all.len() && all[m] == want[k];
                assert(self@.header[m] is Text);
                assert(self@.header[m] == CellView::Text(want[k]));
                lemma_column_position(self@.header, want[k]);
            }
        }
        match self.subselect_cols(kept.as_slice()) {
            Ok(t) => t,
            Err(_) => {
                proof {
                    assert(false);
                }
                unreached()
            },
        }
    }

    /// Gives the column `original` the name `new`, in place, and hands the
    /// table back. No other header cell is looked at: the new name may be
    /// that of another column, and is then found at the first of the two.
    ///
    /// Fails with [`FrameError::UnknownColumn`], leaving the table as it
    /// was, when `original` is no column.
    pub fn rename_column(
        &mut self,
        original: &str,
        new: &str,
    ) -> (r: Result<&mut DataFrame, FrameError>)
        requires
            old(self).wf(),
        ensures
            match r {
                Ok(t) => {
                    &&& old(self)@.column_index(original@) matches Some(j)
                    &&& t.wf()
                    &&& t@ == old(self)@.rename_at(j, new@)
                    &&& t.cells() == old(self).cells()
                    &&& *final(t) == *final(self)
                },
                Err(e) => {
                    &&& old(self)@.column_index(original@) is None
                    &&& e@ == FrameErrorView::UnknownColumn(original@)
                    &&& *final(self) == *old(self)
                },
            },
    {
        let col_idx: usize = match self.idx_for_column(original) {
            Ok(i) => i,
            Err(e) => {
                return Err(e);
            },
        };
        proof {
            lemma_column_position(self@.header, original@);
        }
        let ghost before = self@;
        self.header.set(col_idx, CellValue::Text(new.to_owned()));
        proof {
            assert(self@.header =~= before.header.update(col_idx as int, CellView::Text(new@)));
        }
        Ok(self)
    }

    /// Puts the rows of `other` after the rows of this table, in place, and
    /// hands the table back.
    ///
    /// Fails with [`FrameError::SchemaMismatch`] when the two headers are
    /// not the same cells in the same order, and with
    /// [`FrameError::Shape`] when they are but the longer grid does not
    /// fit. Either way the table is left as it was.
    pub fn concat(&mut self, other: DataFrame) -> (r: Result<&mut DataFrame, FrameError>)
        requires
            old(self).wf(),
            other.wf(),
        ensures
            match r {
                Ok(t) => {
                    &&& old(self)@.header == other@.header
                    &&& t.wf()
                    &&& t.header_cells() == old(self).header_cells()
                    &&& t.cells() == old(self).cells() + other.cells()
                    &&& t@ == old(self)@.concat(other@)
                    &&& *final(t) == *final(self)
                },
                Err(e) => *final(self) == *old(self) && match e@ {
                    FrameErrorView::SchemaMismatch => old(self)@.header != other@.header,
                    FrameErrorView::Shape => old(self)@.header == other@.header && !shape_fits(
                        old(self)@.rows.len() + other@.rows.len(),
                        old(self)@.header.len(),
                    ),
                    FrameErrorView::UnknownColumn(_) => false,
                },
            },
    {
        if !same_cells(&self.header, &other.header) {
            return Err(FrameError::SchemaMismatch);
        }
        let ghost before = *self;
        match self.arr.append_rows(&other.arr) {
            Ok(()) => {
                proof {
                    assert(self@.rows =~= before@.rows + other@.rows);
                }
                Ok(self)
            },
            Err(e) => Err(e),
        }
    }

    /// The table with the cell in column `col` of each row replaced by what
    /// `f` gives for that row. `f` is handed the whole row and the header,
    /// and may read any column.
    ///
    /// Fails with [`FrameError::UnknownColumn`] when `col` is no column.
    pub fn map_col<F: Fn(Row<'_>) -> CellValue>(
        &self,
        col: &str,
        f: F,
    ) -> (r: Result<DataFrame, FrameError>)
        requires
            self.wf(),
            forall|i: int, row: Row|
                #![trigger self.cells()[i], call_requires(f, (row,))]
                0 <= i < self.cells().len() && row.header_cells() == self.header_cells()
                    && row.cells() == self.cells()[i] ==> call_requires(f, (row,)),
        ensures
            match r {
                Ok(t) => {
                    &&& self@.column_index(col@) matches Some(j)
                    &&& t.wf()
                    &&& t.header_cells() == self.header_cells()
                    &&& t.cells().len() == self.cells().len()
                    &&& forall|i: int|
                        0 <= i < self.cells().len() ==> is_mapped_row(
                            f,
                            self.header_cells(),
                            self.cells()[i],
                            j,
                            #[trigger] t.cells()[i],
                        )
                },
                Err(e) => self@.column_index(col@) is None && e@ == FrameErrorView::UnknownColumn(
                    col@,
                ),
            },
    {
        let col_idx: usize = match self.idx_for_column(col) {
            Ok(i) => i,
            Err(e) => {
                return Err(e);
            },
        };
        proof {
            lemma_column_position(self@.header, col@);
        }
        let mut df = self.clone();
        let nrows: usize = df.arr.nrows();
        let mut i: usize = 0;
        while i < nrows
            invariant
                self.wf(),
                df.wf(),
                df.header_cells() == self.header_cells(),
                nrows == self.cells().len(),
                nrows == df.cells().len(),
                col_idx < self.header_cells().len(),
                0 <= i <= nrows,
                forall|a: int, row: Row|
                    #![trigger self.cells()[a], call_requires(f, (row,))]
                    0 <= a < self.cells().len() && row.header_cells() == self.header_cells()
                        && row.cells() == self.cells()[a] ==> call_requires(f, (row,)),
                forall|a: int|
                    0 <= a < i ==> is_mapped_row(
                        f,
                        self.header_cells(),
                        self.cells()[a],
                        col_idx as int,
                        #[trigger] df.cells()[a],
                    ),
                forall|a: int| i <= a < nrows ==> #[trigger] df.cells()[a] == self.cells()[a],
            decreases nrows - i,
        {
            let ghost before = df.cells();
            let row = Row::new(self.header.as_slice(), df.arr.row(i));
            let ghost seen = row;
            proof {
                assert(seen.cells() == self.cells()[i as int]);
            }
            let value = f(row);
            df.arr.set(i, col_idx, value);
            proof {
                let after = df.cells()[i as int];
                assert(after == self.cells()[i as int].update(col_idx as int, value));
                assert(after[col_idx as int] == value);
                assert(call_ensures(f, (seen,), after[col_idx as int]));
                assert(is_mapped_row(
                    f,
                    self.header_cells(),
                    self.cells()[i as int],
                    col_idx as int,
                    after,
                ));
                assert forall|a: int| 0 <= a < i implies is_mapped_row(
                    f,
                    self.header_cells(),
                    self.cells()[a],
                    col_idx as int,
                    #[trigger] df.cells()[a],
                ) by {
                    assert(df.cells()[a] == before[a]);
                }
            }
            i += 1;
        }
        Ok(df)
    }
}

/// Owned copies of the names `cols`.
fn owned_names(cols: &[&str]) -> (names: Vec<String>)
    ensures
        names@.len() == cols@.len(),
        forall|k: int| 0 <= k < names@.len() ==> (#[trigger] names@[k])@ == cols@[k]@,
{
    let n: usize = cols.len();
    let mut names: Vec<String> = Vec::new();
    let mut k: usize = 0;
    while k < n
        invariant
            n == cols@.len(),
            0 <= k <= n,
            names@.len() == k,
            forall|j: int| 0 <= j < k ==> (#[trigger] names@[j])@ == cols@[j]@,
        decreases n - k,
    {
        names.push(cols[k].to_owned());
        k += 1;
    }
    names
}

/// Whether `name` is among `names`.
fn has_name(names: &Vec<String>, name: &String) -> (found: bool)
    ensures
        found == exists|k: int| 0 <= k < names@.len() && (#[trigger] names@[k])@ == name@,
{
    let n: usize = names.len();
    let mut k: usize = 0;
    while k < n
        invariant
            n == names@.len(),
            0 <= k <= n,
            forall|j: int| 0 <= j < k ==> (#[trigger] names@[j])@ != name@,
        decreases n - k,
    {
        if names[k] == *name {
            return true;
        }
        k += 1;
    }
    false
}

/// Whether two vectors hold the same cells in the same order.
fn same_cells(a: &Vec<CellValue>, b: &Vec<CellValue>) -> (same: bool)
    ensures
        same == (cell_views(a@) == cell_views(b@)),
{
    let n: usize = a.len();
    if n != b.len() {
        proof {
            assert(cell_views(a@).len() != cell_views(b@).len());
        }
        return false;
    }
    let mut k: usize = 0;
    while k < n
        invariant
            n == a@.len(),
            n == b@.len(),
            0 <= k <= n,
            forall|j: int| 0 <= j < k ==> (#[trigger] a@[j])@ == b@[j]@,
        decreases n - k,
    {
        if a[k] != b[k] {
            proof {
                assert(cell_views(a@)[k as int] != cell_views(b@)[k as int]);
            }
            return false;
        }
        k += 1;
    }
    proof {
        assert(cell_views(a@) =~= cell_views(b@));
    }
    true
}

impl Clone for DataFrame {
    fn clone(&self) -> (r: Self)
        ensures
            r.header_cells() == self.header_cells(),
            r.cells() == self.cells(),
            r.wf() == self.wf(),
    {
        let header = clone_cells(&self.header);
        DataFrame { arr: self.arr.duplicate(), cols: self.cols, header }
    }
}

/// A copy of a vector of cells.
fn clone_cells(cells: &Vec<CellValue>) -> (r: Vec<CellValue>)
    ensures
        r@ == cells@,
{
    let n: usize = cells.len();
    let mut r: Vec<CellValue> = Vec::new();
    let mut i: usize = 0;
    while i < n
        invariant
            n == cells@.len(),
            0 <= i <= n,
            r@ == cells@.take(i as int),
        decreases n - i,
    {
        r.push(cells[i].clone());
        proof {
            assert(r@ =~= cells@.take(i + 1));
        }
        i += 1;
    }
    proof {
        assert(r@ =~= cells@);
    }
    r
}

} // verus!
