use std::cmp::Ordering;

use goddard_diets::CellError;
use goddard_diets::CellValue;
use goddard_diets::FrameError;
use goddard_diets::Shown;

fn shown_text(cell: &CellValue) -> String {
    match cell.show() {
        Shown::Text(s) => s,
        Shown::Number(bits) => panic!("shown as the number {}", f64::from_bits(bits)),
    }
}

#[test]
fn cells_are_equal_by_variant_and_payload() {
    assert_eq!(CellValue::Text("a".to_string()), CellValue::Text("a".to_string()));
    assert_ne!(CellValue::Text("a".to_string()), CellValue::Text("b".to_string()));
    assert_eq!(CellValue::Number(1.5f64.to_bits()), CellValue::Number(1.5f64.to_bits()));
    assert_ne!(CellValue::Number(1.5f64.to_bits()), CellValue::Number(2.5f64.to_bits()));
    assert_eq!(CellValue::Boolean(true), CellValue::Boolean(true));
    assert_ne!(CellValue::Boolean(true), CellValue::Boolean(false));
    assert_eq!(CellValue::Empty, CellValue::Empty);
    assert_eq!(CellValue::Error(CellError::Div0), CellValue::Error(CellError::Div0));
    assert_ne!(CellValue::Error(CellError::Div0), CellValue::Error(CellError::NA));
}

#[test]
fn cells_of_different_variants_are_never_equal() {
    let bits = 7.0f64.to_bits();
    assert_ne!(CellValue::Number(bits), CellValue::DateTime(bits));
    assert_ne!(CellValue::Text(String::new()), CellValue::Empty);
    assert_ne!(CellValue::Boolean(false), CellValue::Empty);
    assert_ne!(CellValue::Text("1".to_string()), CellValue::Number(1.0f64.to_bits()));
}

#[test]
fn a_cloned_cell_equals_its_source() {
    let cells = vec![
        CellValue::Text("guest".to_string()),
        CellValue::Number(2.25f64.to_bits()),
        CellValue::Boolean(false),
        CellValue::DateTime(44197.0f64.to_bits()),
        CellValue::Empty,
        CellValue::Error(CellError::Ref),
    ];
    for cell in cells.iter() {
        assert_eq!(&cell.clone(), cell);
    }
}

#[test]
fn partial_cmp_and_cmp_give_the_same_order() {
    let cells = vec![
        CellValue::Text(String::new()),
        CellValue::Text("a".to_string()),
        CellValue::Text("ab".to_string()),
        CellValue::Text("b".to_string()),
        CellValue::Text("\u{e9}".to_string()),
        CellValue::Text("\u{1F600}".to_string()),
        CellValue::Number(0),
        CellValue::Number(u64::MAX),
        CellValue::Boolean(false),
        CellValue::Boolean(true),
        CellValue::DateTime(5),
        CellValue::DateTime(6),
        CellValue::Empty,
        CellValue::Error(CellError::Div0),
        CellValue::Error(CellError::NA),
        CellValue::Error(CellError::GettingData),
    ];
    for (i, a) in cells.iter().enumerate() {
        for (j, b) in cells.iter().enumerate() {
            assert_eq!(a.partial_cmp(b), Some(a.cmp(b)));
            assert_eq!(a.partial_cmp(b), Some(i.cmp(&j)));
            assert_eq!(a == b, i == j);
        }
    }
}

#[test]
fn text_orders_by_code_point_and_a_prefix_comes_first() {
    let order = |a: &str, b: &str| {
        CellValue::Text(a.to_string()).partial_cmp(&CellValue::Text(b.to_string()))
    };
    assert_eq!(order("", ""), Some(Ordering::Equal));
    assert_eq!(order("", "a"), Some(Ordering::Less));
    assert_eq!(order("a", ""), Some(Ordering::Greater));
    assert_eq!(order("abc", "abd"), Some(Ordering::Less));
    assert_eq!(order("abc", "ab"), Some(Ordering::Greater));
    assert_eq!(order("Z", "a"), Some(Ordering::Less));
    assert_eq!(order("z", "\u{e9}"), Some(Ordering::Less));
    assert_eq!(order("\u{ffff}", "\u{10000}"), Some(Ordering::Less));
}

#[test]
fn cells_order_by_variant_then_payload() {
    assert!(CellValue::Text("a".to_string()) < CellValue::Text("b".to_string()));
    assert!(CellValue::Text("z".to_string()) < CellValue::Number(0));
    assert!(CellValue::Number(1) < CellValue::Number(2));
    assert!(CellValue::Boolean(false) < CellValue::Boolean(true));
    assert!(CellValue::DateTime(9) < CellValue::Empty);
    assert!(CellValue::Empty < CellValue::Error(CellError::Div0));
}

#[test]
fn text_and_numbers_are_shown_as_they_are() {
    assert_eq!(shown_text(&CellValue::Text("Ada".to_string())), "Ada");
    assert!(matches!(
        CellValue::Number(3.5f64.to_bits()).show(),
        Shown::Number(bits) if f64::from_bits(bits) == 3.5
    ));
    assert!(matches!(
        CellValue::DateTime(44197.25f64.to_bits()).show(),
        Shown::Number(bits) if f64::from_bits(bits) == 44197.25
    ));
}

#[test]
fn booleans_and_empty_cells_are_shown_as_text() {
    assert_eq!(shown_text(&CellValue::Boolean(true)), "true");
    assert_eq!(shown_text(&CellValue::Boolean(false)), "false");
    assert_eq!(shown_text(&CellValue::Empty), "");
}

#[test]
fn each_cell_error_has_its_spreadsheet_text() {
    assert_eq!(CellError::Div0.text(), "#DIV/0!");
    assert_eq!(CellError::NA.text(), "#N/A");
    assert_eq!(CellError::Name.text(), "#NAME?");
    assert_eq!(CellError::Null.text(), "#NULL!");
    assert_eq!(CellError::Num.text(), "#NUM!");
    assert_eq!(CellError::Ref.text(), "#REF!");
    assert_eq!(CellError::Value.text(), "#VALUE!");
    assert_eq!(CellError::GettingData.text(), "#DATA!");
    assert_eq!(shown_text(&CellValue::Error(CellError::Value)), "#VALUE!");
}

#[test]
fn is_empty_holds_of_the_empty_cell_only() {
    assert!(CellValue::Empty.is_empty());
    assert!(!CellValue::Text(String::new()).is_empty());
    assert!(!CellValue::Number(0).is_empty());
    assert!(!CellValue::Boolean(false).is_empty());
}

#[test]
fn as_text_gives_the_text_of_a_text_cell_only() {
    assert_eq!(CellValue::Text("host".to_string()).as_text(), Some("host"));
    assert_eq!(CellValue::Empty.as_text(), None);
    assert_eq!(CellValue::Number(1).as_text(), None);
    assert_eq!(CellValue::Error(CellError::NA).as_text(), None);
}

#[test]
fn error_messages_name_what_went_wrong() {
    assert_eq!(
        FrameError::UnknownColumn("dietary".to_string()).message(),
        "unknown column: dietary"
    );
    assert_eq!(
        FrameError::Shape.message(),
        "shape mismatch: rows and columns do not line up"
    );
    assert_eq!(
        FrameError::SchemaMismatch.message(),
        "schema mismatch: the headers differ"
    );
}

#[test]
fn errors_are_equal_by_kind_and_name() {
    assert_eq!(FrameError::Shape, FrameError::Shape);
    assert_ne!(FrameError::Shape, FrameError::SchemaMismatch);
    assert_eq!(
        FrameError::UnknownColumn("a".to_string()),
        FrameError::UnknownColumn("a".to_string())
    );
    assert_ne!(
        FrameError::UnknownColumn("a".to_string()),
        FrameError::UnknownColumn("b".to_string())
    );
    let unknown = FrameError::UnknownColumn("a".to_string());
    assert_eq!(unknown.clone(), unknown);
}
