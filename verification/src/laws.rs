//! Laws of the table operators, stated over table views and proved from the
//! definitions that the operators' contracts use.

use vstd::prelude::*;
use crate::cell::CellValue;
use crate::cell::CellView;
use crate::frame::is_mask;
use crate::table::cell_name;
use crate::table::lemma_column_position;
use crate::table::lemma_column_position_is;
use crate::table::lemma_retained_is_filter;
use crate::table::retained;
use crate::table::text_cells;
use crate::table::TableView;

verus! {

/// Two predicates that agree on every item of a sequence filter it alike.
pub proof fn lemma_filter_agree<A>(s: Seq<A>, p: spec_fn(A) -> bool, q: spec_fn(A) -> bool)
    requires
        forall|i: int| 0 <= i < s.len() ==> p(#[trigger] s[i]) == q(s[i]),
    ensures
        s.filter(p) == s.filter(q),
    decreases s.len(),
{
    reveal(Seq::filter);
    if s.len() > 0 {
        assert forall|i: int| 0 <= i < s.drop_last().len() implies p(#[trigger] s.drop_last()[i])
            == q(s.drop_last()[i]) by {
            assert(s.drop_last()[i] == s[i]);
        }
        lemma_filter_agree(s.drop_last(), p, q);
        assert(s.last() == s[s.len() - 1]);
    }
}

/// A predicate that holds of every item of a sequence filters nothing out.
pub proof fn lemma_filter_keeps_all<A>(s: Seq<A>, p: spec_fn(A) -> bool)
    requires
        forall|i: int| 0 <= i < s.len() ==> p(#[trigger] s[i]),
    ensures
        s.filter(p) == s,
    decreases s.len(),
{
    reveal(Seq::filter);
    if s.len() > 0 {
        assert forall|i: int| 0 <= i < s.drop_last().len() implies p(
            #[trigger] s.drop_last()[i],
        ) by {
            assert(s.drop_last()[i] == s[i]);
        }
        lemma_filter_keeps_all(s.drop_last(), p);
        assert(s.last() == s[s.len() - 1]);
        assert(s.drop_last().push(s.last()) =~= s);
    }
}

/// In a header of distinct text names, each name is the column at its own
/// place.
pub proof fn lemma_distinct_names_resolve(t: TableView, names: Seq<Seq<char>>)
    requires
        t.header == text_cells(names),
        names.no_duplicates(),
    ensures
        forall|k: int| 0 <= k < names.len() ==> #[trigger] t.column_index(names[k]) == Some(k),
{
    assert forall|k: int| 0 <= k < names.len() implies #[trigger] t.column_index(names[k])
        == Some(k) by {
        assert forall|j: int| 0 <= j < k implies t.header[j] != CellView::Text(names[k]) by {
            assert(t.header[j] == CellView::Text(names[j]));
        }
        assert(t.header[k] == CellView::Text(names[k]));
        lemma_column_position_is(t.header, names[k], k);
    }
}

/// Selecting every column by its name, in header order, gives the table
/// back: the same header and the same cells, column for column.
///
/// This holds of a table whose header cells are text and whose names are
/// all different; a name that stands twice is found at the first of its
/// places both times.
pub proof fn law_select_all_is_identity(t: TableView, names: Seq<Seq<char>>)
    requires
        t.wf(),
        t.header == text_cells(names),
        names.no_duplicates(),
    ensures
        t.has_columns(names),
        t.select(names) == t,
{
    lemma_distinct_names_resolve(t, names);
    let s = t.select(names);
    assert(s.rows =~~= t.rows) by {
        assert forall|i: int| 0 <= i < t.rows.len() implies #[trigger] s.rows[i] =~= t.rows[i] by {
            assert(t.rows[i].len() == names.len());
            assert forall|k: int| 0 <= k < names.len() implies s.rows[i][k] == t.rows[i][k] by {
                assert(t.column_index(names[k]) == Some(k));
            }
        }
    }
}

/// After columns were dropped, no header cell carries one of the dropped
/// names: every header cell is the text of a name that is not among `names`.
pub proof fn law_drop_removes_named(t: TableView, names: Seq<Seq<char>>)
    ensures
        forall|k: int|
            0 <= k < t.drop_columns(names).header.len() ==> {
                &&& (#[trigger] t.drop_columns(names).header[k]) is Text
                &&& !names.contains(cell_name(t.drop_columns(names).header[k]))
            },
{
    let unnamed = |n: Seq<char>| !names.contains(n);
    let kept = t.kept_names(names);
    assert forall|k: int| 0 <= k < t.drop_columns(names).header.len() implies {
        &&& (#[trigger] t.drop_columns(names).header[k]) is Text
        &&& !names.contains(cell_name(t.drop_columns(names).header[k]))
    } by {
        t.header_names().lemma_filter_pred(unnamed, k);
        assert(t.drop_columns(names).header[k] == CellView::Text(kept[k]));
    }
}

/// Names that are no column do not matter to a drop: dropping `names` and
/// dropping only those of `names` that are columns give the same table.
pub proof fn law_drop_ignores_absent(t: TableView, names: Seq<Seq<char>>)
    requires
        t.header_is_text(),
    ensures
        t.drop_columns(names) == t.drop_columns(
            names.filter(|n: Seq<char>| t.column_index(n) is Some),
        ),
{
    let present = |n: Seq<char>| t.column_index(n) is Some;
    let found = names.filter(present);
    let all = t.header_names();
    let p = |n: Seq<char>| !names.contains(n);
    let q = |n: Seq<char>| !found.contains(n);
    assert forall|i: int| 0 <= i < all.len() implies p(#[trigger] all[i]) == q(all[i]) by {
        let h = all[i];
        assert(t.header[i] is Text);
        assert(t.header[i] == CellView::Text(h));
        lemma_column_position(t.header, h);
        assert(present(h));
        if names.contains(h) {
            let m = choose|m: int| 0 <= m < names.len() && names[m] == h;
            names.lemma_filter_contains(present, m);
        }
        if found.contains(h) {
            names.lemma_filter_contains_rev(present, h);
        }
    }
    lemma_filter_agree(all, p, q);
}

/// Dropping only names that are no column changes nothing.
///
/// This holds of a table whose header cells are text and whose names are
/// all different.
pub proof fn law_drop_absent_is_identity(t: TableView, names: Seq<Seq<char>>)
    requires
        t.wf(),
        t.header_is_text(),
        t.header_names().no_duplicates(),
        forall|k: int| 0 <= k < names.len() ==> (#[trigger] t.column_index(names[k])) is None,
    ensures
        t.drop_columns(names) == t,
{
    let all = t.header_names();
    let p = |n: Seq<char>| !names.contains(n);
    assert forall|i: int| 0 <= i < all.len() implies p(#[trigger] all[i]) by {
        let h = all[i];
        assert(t.header[i] is Text);
        assert(t.header[i] == CellView::Text(h));
        lemma_column_position(t.header, h);
        if names.contains(h) {
            let m = choose|m: int| 0 <= m < names.len() && names[m] == h;
            assert(t.column_index(names[m]) is None);
        }
    }
    lemma_filter_keeps_all(all, p);
    assert(t.header =~= text_cells(all)) by {
        assert forall|i: int| 0 <= i < t.header.len() implies t.header[i] == text_cells(
            all,
        )[i] by {
            assert(t.header[i] is Text);
        }
    }
    law_select_all_is_identity(t, all);
}

/// A renamed column is found under its new name where it was found under
/// the old one.
///
/// This holds when no column before it already has the new name; one that
/// has is found first.
pub proof fn law_rename_keeps_index(t: TableView, old_name: Seq<char>, new_name: Seq<char>)
    requires
        t.column_index(old_name) is Some,
        forall|k: int|
            0 <= k < t.column_index(old_name).unwrap() ==> t.header[k] != CellView::Text(new_name),
    ensures
        t.rename_at(t.column_index(old_name).unwrap(), new_name).column_index(new_name)
            == t.column_index(old_name),
{
    let i = t.column_index(old_name).unwrap();
    lemma_column_position(t.header, old_name);
    let renamed = t.rename_at(i, new_name);
    lemma_column_position_is(renamed.header, new_name, i);
}

/// A filter whose predicate is a function of the cell keeps exactly the
/// rows whose cell in the column satisfies it: when every answer of
/// `predicate` is what `holds` says of the cell, the rows that a mask of its
/// answers retains are the rows that `holds` filters.
pub proof fn law_filter_keeps_what_holds<F: Fn(&CellValue) -> bool>(
    rows: Seq<Seq<CellValue>>,
    col: int,
    predicate: F,
    keep: Seq<bool>,
    holds: spec_fn(CellValue) -> bool,
)
    requires
        is_mask(rows, col, predicate, keep),
        forall|cell: CellValue, answer: bool|
            call_ensures(predicate, (&cell,), answer) ==> answer == holds(cell),
    ensures
        retained(rows, keep) == rows.filter(|row: Seq<CellValue>| holds(row[col])),
{
    let by_cell = |row: Seq<CellValue>| holds(row[col]);
    assert forall|i: int| 0 <= i < rows.len() implies keep[i] == by_cell(rows[i]) by {
        assert(call_ensures(predicate, (&rows[i][col],), keep[i]));
    }
    lemma_retained_is_filter(rows, keep, by_cell);
}

/// Joining two tables gives as many rows as both have together; the first
/// are the rows of the first table, unchanged, and the rest are the rows of
/// the second.
pub proof fn law_concat_keeps_rows(a: TableView, b: TableView)
    ensures
        a.concat(b).header == a.header,
        a.concat(b).rows.len() == a.rows.len() + b.rows.len(),
        a.concat(b).rows.take(a.rows.len() as int) == a.rows,
        a.concat(b).rows.skip(a.rows.len() as int) == b.rows,
{
    assert(a.concat(b).rows.take(a.rows.len() as int) =~= a.rows);
    assert(a.concat(b).rows.skip(a.rows.len() as int) =~= b.rows);
}

} // verus!
