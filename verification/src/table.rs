//! The mathematical model of a table: a header and rows of cell views, and
//! what each operator makes of them.

use vstd::prelude::*;
use crate::cell::CellValue;
use crate::cell::CellView;
use crate::grid::rectangular;
use crate::grid::shape_fits;

verus! {

/// The views of a sequence of cells.
pub open spec fn cell_views(cells: Seq<CellValue>) -> Seq<CellView> {
    Seq::new(cells.len(), |i: int| cells[i]@)
}

/// The views of the rows of a grid.
pub open spec fn row_views(rows: Seq<Seq<CellValue>>) -> Seq<Seq<CellView>> {
    Seq::new(rows.len(), |i: int| cell_views(rows[i]))
}

/// The column names that a slice of string slices spells.
pub open spec fn names_of(cols: Seq<&str>) -> Seq<Seq<char>> {
    Seq::new(cols.len(), |i: int| cols[i]@)
}

/// The header cells that name the columns `names`.
pub open spec fn text_cells(names: Seq<Seq<char>>) -> Seq<CellView> {
    Seq::new(names.len(), |i: int| CellView::Text(names[i]))
}

/// The name in a header cell; only a text cell has one.
pub open spec fn cell_name(cell: CellView) -> Seq<char> {
    match cell {
        CellView::Text(name) => name,
        _ => Seq::empty(),
    }
}

/// Where the column `name` is in `header`: the index of the first cell that
/// is the text `name`, if there is one.
pub open spec fn column_position(header: Seq<CellView>, name: Seq<char>) -> Option<int> {
    header.index_of_first(CellView::Text(name))
}

/// `column_position` gives the first index at which the name stands, and
/// `None` exactly when it stands nowhere.
pub proof fn lemma_column_position(header: Seq<CellView>, name: Seq<char>)
    ensures
        match column_position(header, name) {
            Some(i) => {
                &&& 0 <= i < header.len()
                &&& header[i] == CellView::Text(name)
                &&& forall|k: int| 0 <= k < i ==> header[k] != CellView::Text(name)
            },
            None => forall|k: int| 0 <= k < header.len() ==> header[k] != CellView::Text(name),
        },
{
    header.index_of_first_ensures(CellView::Text(name));
}

/// The first index at which a name stands is its `column_position`.
pub proof fn lemma_column_position_is(header: Seq<CellView>, name: Seq<char>, i: int)
    requires
        0 <= i < header.len(),
        header[i] == CellView::Text(name),
        forall|k: int| 0 <= k < i ==> header[k] != CellView::Text(name),
    ensures
        column_position(header, name) == Some(i),
{
    lemma_column_position(header, name);
}

/// A table as a value: the header cells and the rows of cells.
pub struct TableView {
    pub header: Seq<CellView>,
    pub rows: Seq<Seq<CellView>>,
}

impl TableView {
    /// Every row has one cell for each header cell, and the shape is one
    /// that the storage can hold.
    pub open spec fn wf(self) -> bool {
        &&& rectangular(self.rows, self.header.len())
        &&& shape_fits(self.rows.len(), self.header.len())
    }

    /// The index of the column `name`.
    pub open spec fn column_index(self, name: Seq<char>) -> Option<int> {
        column_position(self.header, name)
    }

    /// Whether every name of `names` is a column.
    pub open spec fn has_columns(self, names: Seq<Seq<char>>) -> bool {
        forall|k: int| 0 <= k < names.len() ==> (#[trigger] self.column_index(names[k])) is Some
    }

    /// Whether `names[k]` is the first name of `names` that is no column.
    pub open spec fn is_first_missing(self, names: Seq<Seq<char>>, k: int) -> bool {
        &&& 0 <= k < names.len()
        &&& self.column_index(names[k]) is None
        &&& forall|j: int| 0 <= j < k ==> (#[trigger] self.column_index(names[j])) is Some
    }

    /// The names of the columns, in header order.
    pub open spec fn header_names(self) -> Seq<Seq<char>> {
        Seq::new(self.header.len(), |i: int| cell_name(self.header[i]))
    }

    /// Whether every header cell is text.
    pub open spec fn header_is_text(self) -> bool {
        forall|k: int| 0 <= k < self.header.len() ==> (#[trigger] self.header[k]) is Text
    }

    /// The table with the columns `names`, in that order: its header is
    /// the names as text, and each row holds the cells of the named columns.
    pub open spec fn select(self, names: Seq<Seq<char>>) -> TableView {
        TableView {
            header: text_cells(names),
            rows: Seq::new(
                self.rows.len(),
                |i: int|
                    Seq::new(
                        names.len(),
                        |k: int| self.rows[i][self.column_index(names[k]).unwrap()],
                    ),
            ),
        }
    }

    /// The header names that are not among `names`, in header order.
    pub open spec fn kept_names(self, names: Seq<Seq<char>>) -> Seq<Seq<char>> {
        self.header_names().filter(|n: Seq<char>| !names.contains(n))
    }

    /// The table without the columns `names`.
    pub open spec fn drop_columns(self, names: Seq<Seq<char>>) -> TableView {
        self.select(self.kept_names(names))
    }

    /// The table with the header cell at `index` replaced by the text `name`.
    pub open spec fn rename_at(self, index: int, name: Seq<char>) -> TableView {
        TableView { header: self.header.update(index, CellView::Text(name)), rows: self.rows }
    }

    /// The table with the rows of `other` after its own.
    pub open spec fn concat(self, other: TableView) -> TableView {
        TableView { header: self.header, rows: self.rows + other.rows }
    }
}

/// The rows of `rows` at which `keep` is true, in order.
pub open spec fn retained<T>(rows: Seq<T>, keep: Seq<bool>) -> Seq<T>
    decreases rows.len(),
{
    if rows.len() == 0 {
        rows
    } else {
        let rest = retained(rows.drop_last(), keep.drop_last());
        if keep.last() {
            rest.push(rows.last())
        } else {
            rest
        }
    }
}

/// Keeping one more row: what `retained` gives for a sequence with one row
/// pushed onto it.
pub proof fn lemma_retained_push<T>(rows: Seq<T>, keep: Seq<bool>, row: T, flag: bool)
    requires
        rows.len() == keep.len(),
    ensures
        retained(rows.push(row), keep.push(flag)) == if flag {
            retained(rows, keep).push(row)
        } else {
            retained(rows, keep)
        },
{
    assert(rows.push(row).drop_last() =~= rows);
    assert(keep.push(flag).drop_last() =~= keep);
}

/// `retained` never gives more rows than it was given.
pub proof fn lemma_retained_len<T>(rows: Seq<T>, keep: Seq<bool>)
    requires
        rows.len() == keep.len(),
    ensures
        retained(rows, keep).len() <= rows.len(),
    decreases rows.len(),
{
    if rows.len() > 0 {
        lemma_retained_len(rows.drop_last(), keep.drop_last());
    }
}

/// Every row that `retained` gives is a row at which `keep` is true.
pub proof fn lemma_retained_from<T>(rows: Seq<T>, keep: Seq<bool>, k: int) -> (i: int)
    requires
        rows.len() == keep.len(),
        0 <= k < retained(rows, keep).len(),
    ensures
        0 <= i < rows.len(),
        keep[i],
        retained(rows, keep)[k] == rows[i],
    decreases rows.len(),
{
    let rest = retained(rows.drop_last(), keep.drop_last());
    if keep.last() && k == rest.len() {
        rows.len() - 1
    } else {
        lemma_retained_from(rows.drop_last(), keep.drop_last(), k)
    }
}

/// With a mask that says of each row what `pred` says of it, `retained` is
/// `filter`.
pub proof fn lemma_retained_is_filter<T>(rows: Seq<T>, keep: Seq<bool>, pred: spec_fn(T) -> bool)
    requires
        rows.len() == keep.len(),
        forall|i: int| 0 <= i < rows.len() ==> keep[i] == pred(rows[i]),
    ensures
        retained(rows, keep) == rows.filter(pred),
    decreases rows.len(),
{
    reveal(Seq::filter);
    if rows.len() > 0 {
        lemma_retained_is_filter(rows.drop_last(), keep.drop_last(), pred);
    }
}

} // verus!
