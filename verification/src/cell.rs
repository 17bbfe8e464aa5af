//! Cell values: the closed set of things one table cell can hold.

use vstd::prelude::*;

verus! {

/// The error a spreadsheet formula can leave in a cell.
#[derive(Clone, Copy, Debug, PartialEq, Eq, Structural, PartialOrd, Ord, Hash)]
pub enum CellError {
    Div0,
    NA,
    Name,
    Null,
    Num,
    Ref,
    Value,
    GettingData,
}

/// One table cell.
///
/// `Number` and `DateTime` carry the IEEE-754 bit pattern of a 64-bit float
/// (what `f64::to_bits` gives), so that two cells are equal exactly when they
/// are the same variant with the same payload.
#[derive(Debug, Ord, Hash)]
pub enum CellValue {
    Text(String),
    Number(u64),
    Boolean(bool),
    DateTime(u64),
    Empty,
    Error(CellError),
}

/// The mathematical value of a cell: text is a sequence of characters.
pub enum CellView {
    Text(Seq<char>),
    Number(u64),
    Boolean(bool),
    DateTime(u64),
    Empty,
    Error(CellError),
}

impl View for CellValue {
    type V = CellView;

    open spec fn view(&self) -> CellView {
        match self {
            CellValue::Text(s) => CellView::Text(s@),
            CellValue::Number(bits) => CellView::Number(*bits),
            CellValue::Boolean(b) => CellView::Boolean(*b),
            CellValue::DateTime(bits) => CellView::DateTime(*bits),
            CellValue::Empty => CellView::Empty,
            CellValue::Error(e) => CellView::Error(*e),
        }
    }
}

impl PartialEq for CellValue {
    fn eq(&self, other: &Self) -> (r: bool) {
        match (self, other) {
            (CellValue::Text(a), CellValue::Text(b)) => *a == *b,
            (CellValue::Number(a), CellValue::Number(b)) => *a == *b,
            (CellValue::Boolean(a), CellValue::Boolean(b)) => *a == *b,
            (CellValue::DateTime(a), CellValue::DateTime(b)) => *a == *b,
            (CellValue::Empty, CellValue::Empty) => true,
            (CellValue::Error(a), CellValue::Error(b)) => *a == *b,
            _ => false,
        }
    }
}

impl vstd::std_specs::cmp::PartialEqSpecImpl for CellValue {
    open spec fn obeys_eq_spec() -> bool {
        true
    }

    open spec fn eq_spec(&self, other: &Self) -> bool {
        self@ == other@
    }
}

impl Eq for CellValue {

}

impl Clone for CellValue {
    fn clone(&self) -> (r: Self)
        ensures
            r == *self,
    {
        match self {
            CellValue::Text(s) => CellValue::Text(s.clone()),
            CellValue::Number(bits) => CellValue::Number(*bits),
            CellValue::Boolean(b) => CellValue::Boolean(*b),
            CellValue::DateTime(bits) => CellValue::DateTime(*bits),
            CellValue::Empty => CellValue::Empty,
            CellValue::Error(e) => CellValue::Error(*e),
        }
    }
}

/// The text that a spreadsheet shows for a cell error.
pub open spec fn error_text(e: CellError) -> Seq<char> {
    match e {
        CellError::Div0 => "#DIV/0!"@,
        CellError::NA => "#N/A"@,
        CellError::Name => "#NAME?"@,
        CellError::Null => "#NULL!"@,
        CellError::Num => "#NUM!"@,
        CellError::Ref => "#REF!"@,
        CellError::Value => "#VALUE!"@,
        CellError::GettingData => "#DATA!"@,
    }
}

impl CellError {
    /// The text that a spreadsheet shows for the error.
    pub fn text(&self) -> (s: &'static str)
        ensures
            s@ == error_text(*self),
    {
        match self {
            CellError::Div0 => "#DIV/0!",
            CellError::NA => "#N/A",
            CellError::Name => "#NAME?",
            CellError::Null => "#NULL!",
            CellError::Num => "#NUM!",
            CellError::Ref => "#REF!",
            CellError::Value => "#VALUE!",
            CellError::GettingData => "#DATA!",
        }
    }
}

/// A cell as it is shown to a reader: as text, or as a number, which is
/// again the bit pattern of a 64-bit float.
#[derive(Debug)]
pub enum Shown {
    Text(String),
    Number(u64),
}

/// The mathematical value of a [`Shown`].
pub enum ShownView {
    Text(Seq<char>),
    Number(u64),
}

impl View for Shown {
    type V = ShownView;

    open spec fn view(&self) -> ShownView {
        match self {
            Shown::Text(s) => ShownView::Text(s@),
            Shown::Number(bits) => ShownView::Number(*bits),
        }
    }
}

/// How each cell is shown: text as it is, a number or a date as a number,
/// a boolean as `true` or `false`, an error by its text, and an empty cell
/// as the empty text.
pub open spec fn shown(cell: CellView) -> ShownView {
    match cell {
        CellView::Text(s) => ShownView::Text(s),
        CellView::Number(bits) => ShownView::Number(bits),
        CellView::Boolean(b) => ShownView::Text(
            if b {
                "true"@
            } else {
                "false"@
            },
        ),
        CellView::DateTime(bits) => ShownView::Number(bits),
        CellView::Empty => ShownView::Text(Seq::empty()),
        CellView::Error(e) => ShownView::Text(error_text(e)),
    }
}

impl CellValue {
    /// The cell as it is shown to a reader.
    pub fn show(&self) -> (r: Shown)
        ensures
            r@ == shown(self@),
    {
        match self {
            CellValue::Text(s) => Shown::Text(s.clone()),
            CellValue::Number(bits) => Shown::Number(*bits),
            CellValue::Boolean(b) => {
                if *b {
                    Shown::Text("true".to_owned())
                } else {
                    Shown::Text("false".to_owned())
                }
            },
            CellValue::DateTime(bits) => Shown::Number(*bits),
            CellValue::Empty => Shown::Text(String::new()),
            CellValue::Error(e) => Shown::Text(e.text().to_owned()),
        }
    }

    /// Whether the cell is empty.
    pub fn is_empty(&self) -> (b: bool)
        ensures
            b == (self@ == CellView::Empty),
    {
        match self {
            CellValue::Empty => true,
            _ => false,
        }
    }

    /// The text of a text cell.
    pub fn as_text(&self) -> (r: Option<&str>)
        ensures
            match r {
                Some(s) => self@ == CellView::Text(s@),
                None => !(self@ is Text),
            },
    {
        match self {
            CellValue::Text(s) => Some(s.as_str()),
            _ => None,
        }
    }
}

} // verus!
