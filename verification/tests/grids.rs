use goddard_diets::CellValue;
use goddard_diets::FrameError;
use goddard_diets::Grid;

fn num(x: f64) -> CellValue {
    CellValue::Number(x.to_bits())
}

#[test]
fn from_shape_vec_lays_cells_out_row_by_row() {
    let cells = vec![num(0.0), num(1.0), num(2.0), num(3.0), num(4.0), num(5.0)];
    let g = Grid::from_shape_vec(2, 3, cells).unwrap();
    assert_eq!(g.nrows(), 2);
    assert_eq!(g.ncols(), 3);
    assert_eq!(g.get(0, 0), &num(0.0));
    assert_eq!(g.get(0, 2), &num(2.0));
    assert_eq!(g.get(1, 0), &num(3.0));
    assert_eq!(g.get(1, 2), &num(5.0));
    assert_eq!(g.row(1), vec![num(3.0), num(4.0), num(5.0)]);
}

#[test]
fn from_shape_vec_refuses_a_wrong_number_of_cells() {
    assert_eq!(
        Grid::from_shape_vec(2, 2, vec![num(0.0), num(1.0), num(2.0)]).err(),
        Some(FrameError::Shape)
    );
    assert_eq!(
        Grid::from_shape_vec(1, 1, vec![num(0.0), num(1.0)]).err(),
        Some(FrameError::Shape)
    );
    assert_eq!(Grid::from_shape_vec(0, 3, vec![num(0.0)]).err(), Some(FrameError::Shape));
}

#[test]
fn from_shape_vec_refuses_a_shape_that_does_not_fit() {
    assert_eq!(
        Grid::from_shape_vec(usize::MAX, 0, Vec::new()).err(),
        Some(FrameError::Shape)
    );
    assert_eq!(
        Grid::from_shape_vec(0, usize::MAX, Vec::new()).err(),
        Some(FrameError::Shape)
    );
}

#[test]
fn a_grid_without_rows_keeps_its_width() {
    let g = Grid::from_shape_vec(0, 4, Vec::new()).unwrap();
    assert_eq!(g.nrows(), 0);
    assert_eq!(g.ncols(), 4);
}

#[test]
fn a_grid_without_columns_keeps_its_rows() {
    let g = Grid::from_shape_vec(3, 0, Vec::new()).unwrap();
    assert_eq!(g.nrows(), 3);
    assert_eq!(g.ncols(), 0);
    assert_eq!(g.row(2), Vec::<CellValue>::new());
}

#[test]
fn from_rows_takes_whole_rows() {
    let g = Grid::from_rows(vec![vec![num(1.0), num(2.0)], vec![num(3.0), num(4.0)]], 2).unwrap();
    assert_eq!(g.nrows(), 2);
    assert_eq!(g.ncols(), 2);
    assert_eq!(g.get(0, 1), &num(2.0));
    assert_eq!(g.get(1, 0), &num(3.0));
}

#[test]
fn from_rows_refuses_a_row_of_another_length() {
    assert_eq!(
        Grid::from_rows(vec![vec![num(1.0), num(2.0)], vec![num(3.0)]], 2).err(),
        Some(FrameError::Shape)
    );
    assert_eq!(
        Grid::from_rows(vec![vec![num(1.0)]], 2).err(),
        Some(FrameError::Shape)
    );
}
