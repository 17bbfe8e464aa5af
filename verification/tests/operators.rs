use goddard_diets::CellValue;
use goddard_diets::DataFrame;
use goddard_diets::FrameError;
use goddard_diets::Grid;
use goddard_diets::Row;
use goddard_diets::Shown;

fn text(s: &str) -> CellValue {
    CellValue::Text(s.to_string())
}

fn num(x: f64) -> CellValue {
    CellValue::Number(x.to_bits())
}

fn scores() -> DataFrame {
    DataFrame::from_rows(vec![
        vec![text("name"), text("score")],
        vec![text("a"), num(1.0)],
        vec![text("b"), CellValue::Empty],
        vec![text("c"), num(3.0)],
    ])
    .unwrap()
}

fn guests() -> DataFrame {
    DataFrame::from_rows(vec![
        vec![text("table"), text("first"), text("last"), text("dietary")],
        vec![num(1.0), text("Ada"), text("Lovelace"), text("vegan")],
        vec![num(2.0), text("Alan"), text("Turing"), CellValue::Empty],
        vec![num(2.0), text("Grace"), text("Hopper"), text("no nuts")],
    ])
    .unwrap()
}

fn shown(cell: &CellValue) -> String {
    match cell.show() {
        Shown::Text(s) => s,
        Shown::Number(bits) => format!("{}", f64::from_bits(bits)),
    }
}

#[test]
fn filter_keeps_rows_with_a_score_in_order() {
    let t = scores();
    let kept = t.filter_by_col("score", |cell| *cell != CellValue::Empty).unwrap();
    assert_eq!(kept.header(), &vec![text("name"), text("score")]);
    assert_eq!(kept.rows(), vec![vec![text("a"), num(1.0)], vec![text("c"), num(3.0)]]);
    assert_eq!(t.nrows(), 3);
}

#[test]
fn filter_never_gives_more_rows_and_every_row_passes() {
    let t = guests();
    let wanted = |cell: &CellValue| *cell == num(2.0);
    let kept = t.filter_by_col("table", wanted).unwrap();
    assert!(kept.nrows() <= t.nrows());
    assert_eq!(kept.nrows(), 2);
    for row in kept.rows().iter() {
        assert!(wanted(&row[0]));
    }
    assert_eq!(kept.rows()[0][1], text("Alan"));
    assert_eq!(kept.rows()[1][1], text("Grace"));
}

#[test]
fn filter_may_keep_no_row() {
    let t = scores();
    let kept = t.filter_by_col("name", |_| false).unwrap();
    assert_eq!(kept.nrows(), 0);
    assert_eq!(kept.ncols(), 2);
    assert_eq!(kept.header(), &vec![text("name"), text("score")]);
}

#[test]
fn filter_may_keep_every_row() {
    let t = scores();
    let kept = t.filter_by_col("name", |_| true).unwrap();
    assert_eq!(kept.rows(), t.rows());
}

#[test]
fn filter_on_a_missing_column_fails() {
    let t = scores();
    assert_eq!(
        t.filter_by_col("haveguest", |_| true).err(),
        Some(FrameError::UnknownColumn("haveguest".to_string()))
    );
}

#[test]
fn select_of_a_missing_column_fails_and_leaves_the_table() {
    let t = scores();
    let r = t.subselect_cols(&["missing"]);
    assert_eq!(r.err(), Some(FrameError::UnknownColumn("missing".to_string())));
    assert_eq!(t.header(), &vec![text("name"), text("score")]);
    assert_eq!(t.nrows(), 3);
    assert_eq!(t.rows()[2], vec![text("c"), num(3.0)]);
}

#[test]
fn select_reports_the_first_missing_column() {
    let t = scores();
    assert_eq!(
        t.subselect_cols(&["name", "x", "score", "y"]).err(),
        Some(FrameError::UnknownColumn("x".to_string()))
    );
}

#[test]
fn select_of_all_columns_gives_the_table_back() {
    let t = guests();
    let again = t.subselect_cols(&["table", "first", "last", "dietary"]).unwrap();
    assert_eq!(again.header(), t.header());
    assert_eq!(again.rows(), t.rows());
}

#[test]
fn select_reorders_and_narrows() {
    let t = guests();
    let picked = t.subselect_cols(&["last", "table"]).unwrap();
    assert_eq!(picked.header(), &vec![text("last"), text("table")]);
    assert_eq!(
        picked.rows(),
        vec![
            vec![text("Lovelace"), num(1.0)],
            vec![text("Turing"), num(2.0)],
            vec![text("Hopper"), num(2.0)],
        ]
    );
}

#[test]
fn select_may_take_a_column_twice() {
    let t = scores();
    let twice = t.subselect_cols(&["score", "name", "score"]).unwrap();
    assert_eq!(twice.header(), &vec![text("score"), text("name"), text("score")]);
    assert_eq!(twice.rows()[0], vec![num(1.0), text("a"), num(1.0)]);
    assert_eq!(twice.rows()[1], vec![CellValue::Empty, text("b"), CellValue::Empty]);
}

#[test]
fn select_of_no_column_keeps_the_row_count() {
    let t = scores();
    let none = t.subselect_cols(&[]).unwrap();
    assert_eq!(none.ncols(), 0);
    assert_eq!(none.nrows(), 3);
    assert_eq!(none.header(), &Vec::<CellValue>::new());
}

#[test]
fn select_on_a_table_without_rows_keeps_the_new_width() {
    let empty = Grid::from_shape_vec(0, 1, Vec::new()).unwrap();
    let t = DataFrame::with_header(vec![text("a")], empty).unwrap();
    let twice = t.subselect_cols(&["a", "a"]).unwrap();
    assert_eq!(twice.ncols(), 2);
    assert_eq!(twice.nrows(), 0);
    assert_eq!(twice.header(), &vec![text("a"), text("a")]);
}

#[test]
fn drop_removes_the_named_columns() {
    let t = guests();
    let dropped = t.drop_columns(&["first", "last"]);
    assert_eq!(dropped.header(), &vec![text("table"), text("dietary")]);
    assert_eq!(
        dropped.rows(),
        vec![
            vec![num(1.0), text("vegan")],
            vec![num(2.0), CellValue::Empty],
            vec![num(2.0), text("no nuts")],
        ]
    );
    for name in ["first", "last"] {
        assert!(dropped.idx_for_column(name).is_err());
    }
}

#[test]
fn drop_passes_over_names_that_are_no_column() {
    let t = guests();
    let same = t.drop_columns(&["host", "guestfirst"]);
    assert_eq!(same.header(), t.header());
    assert_eq!(same.rows(), t.rows());
    let mixed = t.drop_columns(&["host", "table", "guestfirst"]);
    assert_eq!(mixed.header(), &vec![text("first"), text("last"), text("dietary")]);
    assert_eq!(mixed.rows(), t.drop_columns(&["table"]).rows());
}

#[test]
fn drop_of_nothing_gives_the_table_back() {
    let t = guests();
    let same = t.drop_columns(&[]);
    assert_eq!(same.header(), t.header());
    assert_eq!(same.rows(), t.rows());
}

#[test]
fn drop_of_every_column_keeps_the_row_count() {
    let t = scores();
    let none = t.drop_columns(&["score", "name"]);
    assert_eq!(none.ncols(), 0);
    assert_eq!(none.nrows(), 3);
}

#[test]
fn drop_of_dropped_names_that_are_left_changes_nothing() {
    let t = guests();
    let names = ["first", "host"];
    let dropped = t.drop_columns(&names);
    let left: Vec<&str> = names
        .iter()
        .copied()
        .filter(|name| dropped.idx_for_column(name).is_ok())
        .collect();
    assert_eq!(left, Vec::<&str>::new());
    let again = t.drop_columns(&left);
    assert_eq!(again.header(), t.header());
    assert_eq!(again.rows(), t.rows());
}

#[test]
fn rename_keeps_the_index_of_the_column() {
    let mut t = guests();
    let before = t.idx_for_column("dietary").unwrap();
    t.rename_column("dietary", "allergies").unwrap();
    assert_eq!(t.idx_for_column("allergies").unwrap(), before);
    assert_eq!(before, 3);
    assert_eq!(
        t.idx_for_column("dietary").err(),
        Some(FrameError::UnknownColumn("dietary".to_string()))
    );
    assert_eq!(
        t.header(),
        &vec![text("table"), text("first"), text("last"), text("allergies")]
    );
}

#[test]
fn rename_leaves_the_rows_alone() {
    let mut t = scores();
    let rows = t.rows();
    t.rename_column("name", "guest").unwrap();
    assert_eq!(t.rows(), rows);
}

#[test]
fn rename_can_be_chained() {
    let mut t = guests();
    t.rename_column("first", "guestfirst")
        .unwrap()
        .rename_column("last", "guestlast")
        .unwrap()
        .rename_column("guestfirst", "given")
        .unwrap();
    assert_eq!(
        t.header(),
        &vec![text("table"), text("given"), text("guestlast"), text("dietary")]
    );
}

#[test]
fn rename_of_a_missing_column_fails_and_changes_nothing() {
    let mut t = scores();
    assert_eq!(
        t.rename_column("points", "score").err(),
        Some(FrameError::UnknownColumn("points".to_string()))
    );
    assert_eq!(t.header(), &vec![text("name"), text("score")]);
}

#[test]
fn rename_to_a_name_already_there_is_found_at_the_first() {
    let mut t = scores();
    t.rename_column("score", "name").unwrap();
    assert_eq!(t.header(), &vec![text("name"), text("name")]);
    assert_eq!(t.idx_for_column("name").unwrap(), 0);
    let both = t.subselect_cols(&["name", "name"]).unwrap();
    assert_eq!(both.rows()[0], vec![text("a"), text("a")]);
}

#[test]
fn concat_puts_the_other_rows_after_its_own() {
    let mut a = scores();
    let first = a.rows();
    let b = DataFrame::from_rows(vec![
        vec![text("name"), text("score")],
        vec![text("d"), num(4.0)],
        vec![text("e"), num(5.0)],
    ])
    .unwrap();
    let second = b.rows();
    a.concat(b).unwrap();
    assert_eq!(a.nrows(), 3 + 2);
    assert_eq!(a.rows()[..3].to_vec(), first);
    assert_eq!(a.rows()[3..].to_vec(), second);
    assert_eq!(a.header(), &vec![text("name"), text("score")]);
}

#[test]
fn concat_of_a_table_without_rows_changes_nothing() {
    let mut a = scores();
    let rows = a.rows();
    a.concat(DataFrame::from_rows(vec![vec![text("name"), text("score")]]).unwrap())
        .unwrap();
    assert_eq!(a.rows(), rows);
}

#[test]
fn concat_onto_a_table_without_rows_takes_the_other_rows() {
    let mut a = DataFrame::from_rows(vec![vec![text("name"), text("score")]]).unwrap();
    a.concat(scores()).unwrap();
    assert_eq!(a.rows(), scores().rows());
}

#[test]
fn concat_can_be_chained() {
    let mut a = scores();
    a.concat(scores()).unwrap().concat(scores()).unwrap();
    assert_eq!(a.nrows(), 9);
    assert_eq!(a.rows()[8], vec![text("c"), num(3.0)]);
}

#[test]
fn concat_of_another_header_fails_and_changes_nothing() {
    let mut a = scores();
    let rows = a.rows();
    let swapped = DataFrame::from_rows(vec![
        vec![text("score"), text("name")],
        vec![num(4.0), text("d")],
    ])
    .unwrap();
    assert_eq!(a.concat(swapped).err(), Some(FrameError::SchemaMismatch));
    let narrower = DataFrame::from_rows(vec![vec![text("name")], vec![text("d")]]).unwrap();
    assert_eq!(a.concat(narrower).err(), Some(FrameError::SchemaMismatch));
    let renamed = DataFrame::from_rows(vec![
        vec![text("name"), text("points")],
        vec![text("d"), num(4.0)],
    ])
    .unwrap();
    assert_eq!(a.concat(renamed).err(), Some(FrameError::SchemaMismatch));
    assert_eq!(a.rows(), rows);
    assert_eq!(a.header(), &vec![text("name"), text("score")]);
}

#[test]
fn concat_of_too_many_rows_for_the_storage_fails_and_changes_nothing() {
    let half = usize::MAX / 2;
    let tall = || Grid::from_shape_vec(half, 0, Vec::new()).unwrap();
    let mut a = DataFrame::with_header(Vec::new(), tall()).unwrap();
    let b = DataFrame::with_header(Vec::new(), tall()).unwrap();
    assert_eq!(a.concat(b).err(), Some(FrameError::Shape));
    assert_eq!(a.nrows(), half);
}

#[test]
fn map_col_replaces_the_score_by_text_from_the_name() {
    let t = scores();
    let mapped = t
        .map_col("score", |row: Row<'_>| {
            text(&format!("Guest of {}", shown(row.index("name"))))
        })
        .unwrap();
    assert_eq!(mapped.header(), &vec![text("name"), text("score")]);
    assert_eq!(
        mapped.rows(),
        vec![
            vec![text("a"), text("Guest of a")],
            vec![text("b"), text("Guest of b")],
            vec![text("c"), text("Guest of c")],
        ]
    );
    assert_eq!(t.rows()[0], vec![text("a"), num(1.0)]);
}

#[test]
fn map_col_may_read_any_column_of_the_row() {
    let t = guests();
    let mapped = t
        .map_col("dietary", |row: Row<'_>| {
            text(&format!(
                "Guest of {} {} at {}",
                shown(row.index("first")),
                shown(row.index("last")),
                shown(row.index("table"))
            ))
        })
        .unwrap();
    assert_eq!(mapped.rows()[0][3], text("Guest of Ada Lovelace at 1"));
    assert_eq!(mapped.rows()[2][3], text("Guest of Grace Hopper at 2"));
    assert_eq!(mapped.rows()[1][..3].to_vec(), t.rows()[1][..3].to_vec());
}

#[test]
fn map_col_sees_the_old_value_of_the_column() {
    let t = scores();
    let mapped = t
        .map_col("score", |row: Row<'_>| match row.get("score") {
            Some(CellValue::Number(bits)) => num(f64::from_bits(*bits) * 2.0),
            _ => text("none"),
        })
        .unwrap();
    assert_eq!(
        mapped.rows(),
        vec![
            vec![text("a"), num(2.0)],
            vec![text("b"), text("none")],
            vec![text("c"), num(6.0)],
        ]
    );
}

#[test]
fn map_col_on_a_missing_column_fails() {
    let t = scores();
    assert_eq!(
        t.map_col("descrip", |_row: Row<'_>| CellValue::Empty).err(),
        Some(FrameError::UnknownColumn("descrip".to_string()))
    );
}

#[test]
fn a_row_finds_cells_by_column_name() {
    let header = vec![text("name"), text("score")];
    let row = Row::new(&header, vec![text("a"), num(1.0)]);
    assert_eq!(row.index("name"), &text("a"));
    assert_eq!(row.index("score"), &num(1.0));
    assert_eq!(row.get("score"), Some(&num(1.0)));
    assert_eq!(row.get("missing"), None);
}

#[test]
fn a_row_finds_the_first_of_two_equal_names() {
    let header = vec![text("x"), text("x")];
    let row = Row::new(&header, vec![num(1.0), num(2.0)]);
    assert_eq!(row.index("x"), &num(1.0));
}

#[test]
fn the_operators_compose_into_a_pipeline() {
    let t = DataFrame::from_rows(vec![
        vec![
            text("first"),
            text("haveguest"),
            text("guestfirst"),
            text("dietary"),
            text("guestdietary"),
        ],
        vec![text("Ada"), text("X"), text("Bea"), text("vegan"), CellValue::Empty],
        vec![text("Alan"), CellValue::Empty, CellValue::Empty, CellValue::Empty, CellValue::Empty],
        vec![text("Grace"), text("X"), text("Hal"), CellValue::Empty, text("no nuts")],
    ])
    .unwrap();
    let with_guest = t
        .filter_by_col("haveguest", |cell| *cell == text("X"))
        .unwrap();
    let mut guests = with_guest
        .subselect_cols(&["first", "guestfirst", "guestdietary"])
        .unwrap()
        .drop_columns(&["first"]);
    let guests = guests
        .rename_column("guestfirst", "first")
        .unwrap()
        .rename_column("guestdietary", "dietary")
        .unwrap()
        .filter_by_col("dietary", |cell| *cell != CellValue::Empty)
        .unwrap();
    let mut all = t
        .subselect_cols(&["first", "dietary"])
        .unwrap()
        .filter_by_col("dietary", |cell| *cell != CellValue::Empty)
        .unwrap();
    all.concat(guests).unwrap();
    assert_eq!(all.header(), &vec![text("first"), text("dietary")]);
    assert_eq!(
        all.rows(),
        vec![vec![text("Ada"), text("vegan")], vec![text("Hal"), text("no nuts")]]
    );
}
