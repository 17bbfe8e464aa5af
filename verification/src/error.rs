//! The ways a table operation can fail.

use vstd::prelude::*;
use vstd::string::StringExecFns;

verus! {

/// Why a table could not be built or an operator could not run.
#[derive(Debug)]
pub enum FrameError {
    /// Rows and columns do not line up, or the grid is larger than the
    /// storage can index.
    Shape,
    /// No header cell is the text of this column name.
    UnknownColumn(String),
    /// Two tables that were to be joined have different headers.
    SchemaMismatch,
}

/// The mathematical value of a [`FrameError`].
pub enum FrameErrorView {
    Shape,
    UnknownColumn(Seq<char>),
    SchemaMismatch,
}

impl View for FrameError {
    type V = FrameErrorView;

    open spec fn view(&self) -> FrameErrorView {
        match self {
            FrameError::Shape => FrameErrorView::Shape,
            FrameError::UnknownColumn(name) => FrameErrorView::UnknownColumn(name@),
            FrameError::SchemaMismatch => FrameErrorView::SchemaMismatch,
        }
    }
}

impl PartialEq for FrameError {
    fn eq(&self, other: &Self) -> (r: bool) {
        match (self, other) {
            (FrameError::Shape, FrameError::Shape) => true,
            (FrameError::UnknownColumn(a), FrameError::UnknownColumn(b)) => *a == *b,
            (FrameError::SchemaMismatch, FrameError::SchemaMismatch) => true,
            _ => false,
        }
    }
}

impl vstd::std_specs::cmp::PartialEqSpecImpl for FrameError {
    open spec fn obeys_eq_spec() -> bool {
        true
    }

    open spec fn eq_spec(&self, other: &Self) -> bool {
        self@ == other@
    }
}

impl Eq for FrameError {

}

impl Clone for FrameError {
    fn clone(&self) -> (r: Self)
        ensures
            r == *self,
    {
        match self {
            FrameError::Shape => FrameError::Shape,
            FrameError::UnknownColumn(name) => FrameError::UnknownColumn(name.clone()),
            FrameError::SchemaMismatch => FrameError::SchemaMismatch,
        }
    }
}

/// The text that [`FrameError::message`] gives for an error.
pub open spec fn message_text(e: FrameErrorView) -> Seq<char> {
    match e {
        FrameErrorView::Shape => "shape mismatch: rows and columns do not line up"@,
        FrameErrorView::UnknownColumn(name) => "unknown column: "@ + name,
        FrameErrorView::SchemaMismatch => "schema mismatch: the headers differ"@,
    }
}

impl FrameError {
    /// A diagnostic for the person who wrote the pipeline; for an unknown
    /// column it ends with the name that was asked for.
    pub fn message(&self) -> (text: String)
        ensures
            text@ == message_text(self@),
    {
        match self {
            FrameError::Shape => String::from_str(
                "shape mismatch: rows and columns do not line up",
            ),
            FrameError::UnknownColumn(name) => {
                let mut text = String::from_str("unknown column: ");
                text.append(name.as_str());
                text
            },
            FrameError::SchemaMismatch => String::from_str("schema mismatch: the headers differ"),
        }
    }
}

} // verus!
