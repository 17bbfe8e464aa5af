//! The order of cells: by variant first, then by payload.

use core::cmp::Ordering;
use vstd::prelude::*;
use crate::cell::CellError;
use crate::cell::CellValue;
use crate::cell::CellView;

verus! {

/// The code point of a character.
pub open spec fn char_code(c: char) -> u32 {
    c as u32
}

/// Characters with the same code point are the same character.
pub proof fn lemma_char_code_injective(c: char, d: char)
    requires
        char_code(c) == char_code(d),
    ensures
        c == d,
{
    assert(c == char_code(c) as char);
    assert(d == char_code(d) as char);
}

/// The order of two numbers.
pub open spec fn number_order(a: u64, b: u64) -> Ordering {
    if a < b {
        Ordering::Less
    } else if a > b {
        Ordering::Greater
    } else {
        Ordering::Equal
    }
}

/// The order of two texts: that of their first differing characters by
/// code point, and a text before every text that it begins.
pub open spec fn text_order(a: Seq<char>, b: Seq<char>) -> Ordering
    decreases a.len(),
{
    if a.len() == 0 {
        if b.len() == 0 {
            Ordering::Equal
        } else {
            Ordering::Less
        }
    } else if b.len() == 0 {
        Ordering::Greater
    } else if char_code(a[0]) < char_code(b[0]) {
        Ordering::Less
    } else if char_code(a[0]) > char_code(b[0]) {
        Ordering::Greater
    } else {
        text_order(a.drop_first(), b.drop_first())
    }
}

/// Trusted: `Ord::cmp` of `str`, which std documents to order strings
/// lexicographically by their bytes, and so by code points.
#[verifier::external_body]
fn compare_text(a: &str, b: &str) -> (o: Ordering)
    ensures
        o == text_order(a@, b@),
{
    a.cmp(b)
}

/// The place of a cell error among the cell errors.
pub open spec fn error_rank(e: CellError) -> u64 {
    match e {
        CellError::Div0 => 0,
        CellError::NA => 1,
        CellError::Name => 2,
        CellError::Null => 3,
        CellError::Num => 4,
        CellError::Ref => 5,
        CellError::Value => 6,
        CellError::GettingData => 7,
    }
}

/// The place of a cell's variant among the variants.
pub open spec fn variant_rank(cell: CellView) -> u64 {
    match cell {
        CellView::Text(_) => 0,
        CellView::Number(_) => 1,
        CellView::Boolean(_) => 2,
        CellView::DateTime(_) => 3,
        CellView::Empty => 4,
        CellView::Error(_) => 5,
    }
}

/// The order of two cells: by variant first, and within a variant by
/// payload. Numbers and dates are ordered by their bit patterns.
pub open spec fn cell_order(a: CellView, b: CellView) -> Ordering {
    match (a, b) {
        (CellView::Text(x), CellView::Text(y)) => text_order(x, y),
        (CellView::Number(x), CellView::Number(y)) => number_order(x, y),
        (CellView::Boolean(x), CellView::Boolean(y)) => number_order(
            if x {
                1
            } else {
                0
            },
            if y {
                1
            } else {
                0
            },
        ),
        (CellView::DateTime(x), CellView::DateTime(y)) => number_order(x, y),
        (CellView::Empty, CellView::Empty) => Ordering::Equal,
        (CellView::Error(x), CellView::Error(y)) => number_order(error_rank(x), error_rank(y)),
        _ => number_order(variant_rank(a), variant_rank(b)),
    }
}

fn compare_numbers(a: u64, b: u64) -> (o: Ordering)
    ensures
        o == number_order(a, b),
{
    if a < b {
        Ordering::Less
    } else if a > b {
        Ordering::Greater
    } else {
        Ordering::Equal
    }
}

impl CellError {
    fn rank(&self) -> (r: u64)
        ensures
            r == error_rank(*self),
    {
        match self {
            CellError::Div0 => 0,
            CellError::NA => 1,
            CellError::Name => 2,
            CellError::Null => 3,
            CellError::Num => 4,
            CellError::Ref => 5,
            CellError::Value => 6,
            CellError::GettingData => 7,
        }
    }
}

impl CellValue {
    fn rank(&self) -> (r: u64)
        ensures
            r == variant_rank(self@),
    {
        match self {
            CellValue::Text(_) => 0,
            CellValue::Number(_) => 1,
            CellValue::Boolean(_) => 2,
            CellValue::DateTime(_) => 3,
            CellValue::Empty => 4,
            CellValue::Error(_) => 5,
        }
    }
}

impl PartialOrd for CellValue {
    fn partial_cmp(&self, other: &Self) -> (r: Option<Ordering>) {
        match (self, other) {
            (CellValue::Text(a), CellValue::Text(b)) => Some(
                compare_text(a.as_str(), b.as_str()),
            ),
            (CellValue::Number(a), CellValue::Number(b)) => Some(compare_numbers(*a, *b)),
            (CellValue::Boolean(a), CellValue::Boolean(b)) => {
                let x: u64 = if *a {
                    1
                } else {
                    0
                };
                let y: u64 = if *b {
                    1
                } else {
                    0
                };
                Some(compare_numbers(x, y))
            },
            (CellValue::DateTime(a), CellValue::DateTime(b)) => Some(compare_numbers(*a, *b)),
            (CellValue::Empty, CellValue::Empty) => Some(Ordering::Equal),
            (CellValue::Error(a), CellValue::Error(b)) => Some(
                compare_numbers(a.rank(), b.rank()),
            ),
            _ => Some(compare_numbers(self.rank(), other.rank())),
        }
    }
}

impl vstd::std_specs::cmp::PartialOrdSpecImpl for CellValue {
    open spec fn obeys_partial_cmp_spec() -> bool {
        true
    }

    open spec fn partial_cmp_spec(&self, other: &Self) -> Option<Ordering> {
        Some(cell_order(self@, other@))
    }
}

/// Two texts are in the order `Equal` exactly when they are the same text.
pub proof fn lemma_text_order_equal(a: Seq<char>, b: Seq<char>)
    ensures
        text_order(a, b) == Ordering::Equal <==> a == b,
    decreases a.len(),
{
    if a.len() > 0 && b.len() > 0 {
        lemma_text_order_equal(a.drop_first(), b.drop_first());
        if a.drop_first() == b.drop_first() && char_code(a[0]) == char_code(b[0]) {
            lemma_char_code_injective(a[0], b[0]);
            assert(a.len() == b.len()) by {
                assert(a.drop_first().len() == b.drop_first().len());
            }
            assert forall|i: int| 0 <= i < a.len() implies a[i] == b[i] by {
                if i > 0 {
                    assert(a[i] == a.drop_first()[i - 1]);
                    assert(b[i] == b.drop_first()[i - 1]);
                }
            }
            assert(a =~= b);
        }
    } else if a.len() == 0 && b.len() == 0 {
        assert(a =~= b);
    }
}

/// Swapping two texts turns their order around.
pub proof fn lemma_text_order_reverse(a: Seq<char>, b: Seq<char>)
    ensures
        text_order(a, b) == Ordering::Less <==> text_order(b, a) == Ordering::Greater,
    decreases a.len(),
{
    if a.len() > 0 && b.len() > 0 {
        lemma_text_order_reverse(a.drop_first(), b.drop_first());
    }
}

/// The order of cells agrees with their equality: two cells are in the
/// order `Equal` exactly when they are the same variant with the same
/// payload.
pub proof fn law_order_equal_is_same(a: CellView, b: CellView)
    ensures
        cell_order(a, b) == Ordering::Equal <==> a == b,
{
    match (a, b) {
        (CellView::Text(x), CellView::Text(y)) => {
            lemma_text_order_equal(x, y);
        },
        _ => {},
    }
}

/// Swapping two cells turns their order around.
pub proof fn law_order_reverse(a: CellView, b: CellView)
    ensures
        cell_order(a, b) == Ordering::Less <==> cell_order(b, a) == Ordering::Greater,
{
    match (a, b) {
        (CellView::Text(x), CellView::Text(y)) => {
            lemma_text_order_reverse(x, y);
        },
        _ => {},
    }
}

} // verus!
