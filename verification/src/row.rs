//! A row seen from inside a transform: its cells, and the header to find
//! them by column name.

use vstd::prelude::*;
use crate::cell::CellValue;
use crate::cell::CellView;
use crate::table::cell_views;
use crate::table::column_position;
use crate::table::lemma_column_position;
use crate::table::lemma_column_position_is;

verus! {

/// Finds the column `name` in `header`: the index of the first cell that is
/// the text `name`.
pub fn find_column(header: &[CellValue], name: &str) -> (r: Option<usize>)
    ensures
        match r {
            Some(i) => column_position(cell_views(header@), name@) == Some(i as int),
            None => column_position(cell_views(header@), name@) is None,
        },
{
    let target = CellValue::Text(name.to_owned());
    let n: usize = header.len();
    let mut i: usize = 0;
    while i < n
        invariant
            n == header@.len(),
            0 <= i <= n,
            target@ == CellView::Text(name@),
            forall|k: int| 0 <= k < i ==> cell_views(header@)[k] != CellView::Text(name@),
        decreases n - i,
    {
        if header[i] == target {
            proof {
                lemma_column_position_is(cell_views(header@), name@, i as int);
            }
            return Some(i);
        }
        i += 1;
    }
    proof {
        lemma_column_position(cell_views(header@), name@);
    }
    None
}

/// One row of a table together with the header of that table.
///
/// It holds a copy of the row, and borrows the header for as long as the
/// transform that was handed the row runs.
pub struct Row<'a> {
    header: &'a [CellValue],
    row: Vec<CellValue>,
}

impl<'a> Row<'a> {
    /// The header cells of the table that the row is from.
    pub closed spec fn header_cells(&self) -> Seq<CellValue> {
        self.header@
    }

    /// The cells of the row.
    pub closed spec fn cells(&self) -> Seq<CellValue> {
        self.row@
    }

    /// The row has one cell for each header cell.
    pub open spec fn wf(&self) -> bool {
        self.cells().len() == self.header_cells().len()
    }

    /// The index of the column `name` in the header of the row.
    pub open spec fn column_index(&self, name: Seq<char>) -> Option<int> {
        column_position(cell_views(self.header_cells()), name)
    }

    /// A row of the cells `row` under `header`.
    pub fn new(header: &'a [CellValue], row: Vec<CellValue>) -> (r: Row<'a>)
        ensures
            r.header_cells() == header@,
            r.cells() == row@,
    {
        Row { header, row }
    }

    /// The cell in the column `name`, or `None` when the header has no such
    /// column.
    pub fn get(&self, name: &str) -> (r: Option<&CellValue>)
        requires
            self.wf(),
        ensures
            match r {
                Some(cell) => self.column_index(name@) matches Some(i) && *cell == self.cells()[i],
                None => self.column_index(name@) is None,
            },
    {
        proof {
            lemma_column_position(cell_views(self.header_cells()), name@);
        }
        match find_column(self.header, name) {
            Some(i) => Some(&self.row[i]),
            None => None,
        }
    }

    /// The cell in the column `name`, which the header must have.
    pub fn index(&self, name: &str) -> (cell: &CellValue)
        requires
            self.wf(),
            self.column_index(name@) is Some,
        ensures
            *cell == self.cells()[self.column_index(name@).unwrap()],
    {
        proof {
            lemma_column_position(cell_views(self.header_cells()), name@);
        }
        let found = find_column(self.header, name);
        &self.row[found.unwrap()]
    }
}

} // verus!
