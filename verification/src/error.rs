//! What can go wrong, and how it is reported.

use vstd::prelude::*;
use vstd::string::StringExecFns;
use crate::number::{decimal, push_decimal, push_signed_decimal, signed_decimal};

verus! {

/// Why a column selector could not be resolved.
#[derive(Debug, Clone, PartialEq, Eq)]
pub enum ColumnError {
    /// `0` was used as a column number, or as the start of a range.
    ColumnZeroInvalid,
    /// The column number, and the number of columns it does not fit.
    ColumnOutOfRange(i32, usize),
    /// The start and end of a range whose start is not below its end.
    RangeNotIncreasing(usize, usize),
    /// The start and end of a range, and the number of columns its end exceeds.
    RangeOutOfBounds(usize, usize, usize),
    /// The name that no column has.
    ColumnNotFound(String),
}

/// A `ColumnError` as plain mathematical values.
pub enum ColumnErrorView {
    /// `0` was used as a column number, or as the start of a range.
    ColumnZeroInvalid,
    /// The column number, and the number of columns it does not fit.
    ColumnOutOfRange(int, nat),
    /// The start and end of a range whose start is not below its end.
    RangeNotIncreasing(nat, nat),
    /// The start and end of a range, and the number of columns its end exceeds.
    RangeOutOfBounds(nat, nat, nat),
    /// The name that no column has.
    ColumnNotFound(Seq<char>),
}

impl View for ColumnError {
    type V = ColumnErrorView;

    open spec fn view(&self) -> ColumnErrorView {
        match self {
            ColumnError::ColumnZeroInvalid => ColumnErrorView::ColumnZeroInvalid,
            ColumnError::ColumnOutOfRange(k, n) => ColumnErrorView::ColumnOutOfRange(
                *k as int,
                *n as nat,
            ),
            ColumnError::RangeNotIncreasing(a, b) => ColumnErrorView::RangeNotIncreasing(
                *a as nat,
                *b as nat,
            ),
            ColumnError::RangeOutOfBounds(a, b, n) => ColumnErrorView::RangeOutOfBounds(
                *a as nat,
                *b as nat,
                *n as nat,
            ),
            ColumnError::ColumnNotFound(name) => ColumnErrorView::ColumnNotFound(name@),
        }
    }
}

impl ColumnErrorView {
    /// The line shown to the user.
    pub open spec fn message(self) -> Seq<char> {
        match self {
            ColumnErrorView::ColumnZeroInvalid => "Column 0 is invalid. Columns are 1-based."@,
            ColumnErrorView::ColumnOutOfRange(k, n) => "Column "@ + signed_decimal(k)
                + " is invalid. There are "@ + decimal(n) + " columns."@,
            ColumnErrorView::RangeNotIncreasing(a, b) => "Invalid range. Must be increasing: "@
                + decimal(a) + "-"@ + decimal(b),
            ColumnErrorView::RangeOutOfBounds(a, b, n) => "Invalid range. There are only "@
                + decimal(n) + " columns: "@ + decimal(a) + "-"@ + decimal(b),
            ColumnErrorView::ColumnNotFound(name) => "Column '"@ + name
                + "' not found in input file"@,
        }
    }
}

impl ColumnError {
    /// The line shown to the user.
    pub fn message(&self) -> (text: String)
        ensures
            text@ == self@.message(),
    {
        match self {
            ColumnError::ColumnZeroInvalid => "Column 0 is invalid. Columns are 1-based.".to_owned(),
            ColumnError::ColumnOutOfRange(k, n) => {
                let mut text = "Column ".to_owned();
                push_signed_decimal(&mut text, *k as i64);
                text.append(" is invalid. There are ");
                push_decimal(&mut text, *n as u64);
                text.append(" columns.");
                text
            },
            ColumnError::RangeNotIncreasing(a, b) => {
                let mut text = "Invalid range. Must be increasing: ".to_owned();
                push_decimal(&mut text, *a as u64);
                text.append("-");
                push_decimal(&mut text, *b as u64);
                text
            },
            ColumnError::RangeOutOfBounds(a, b, n) => {
                let mut text = "Invalid range. There are only ".to_owned();
                push_decimal(&mut text, *n as u64);
                text.append(" columns: ");
                push_decimal(&mut text, *a as u64);
                text.append("-");
                push_decimal(&mut text, *b as u64);
                text
            },
            ColumnError::ColumnNotFound(name) => {
                let mut text = "Column '".to_owned();
                text.append(name.as_str());
                text.append("' not found in input file");
                text
            },
        }
    }
}

/// Why a run failed. Every failure ends the run.
#[derive(Debug, Clone, PartialEq, Eq)]
pub enum CsvError {
    /// A column selector could not be resolved.
    Column(ColumnError),
    /// The input failed before its first row was read; what the source of
    /// the rows said of it.
    HeaderReadFailure(String),
    /// A record could not be read; what the source of the rows said of it.
    RecordReadFailure(String),
}

/// A `CsvError` as plain mathematical values.
pub enum CsvErrorView {
    /// A column selector could not be resolved.
    Column(ColumnErrorView),
    /// The input failed before its first row was read.
    HeaderReadFailure(Seq<char>),
    /// A record could not be read.
    RecordReadFailure(Seq<char>),
}

impl View for CsvError {
    type V = CsvErrorView;

    open spec fn view(&self) -> CsvErrorView {
        match self {
            CsvError::Column(e) => CsvErrorView::Column(e@),
            CsvError::HeaderReadFailure(detail) => CsvErrorView::HeaderReadFailure(detail@),
            CsvError::RecordReadFailure(detail) => CsvErrorView::RecordReadFailure(detail@),
        }
    }
}

impl CsvErrorView {
    /// The line shown to the user.
    pub open spec fn message(self) -> Seq<char> {
        match self {
            CsvErrorView::Column(e) => e.message(),
            CsvErrorView::HeaderReadFailure(detail) => detail,
            CsvErrorView::RecordReadFailure(detail) => detail,
        }
    }
}

impl CsvError {
    /// The line shown to the user.
    pub fn message(&self) -> (text: String)
        ensures
            text@ == self@.message(),
    {
        match self {
            CsvError::Column(e) => e.message(),
            CsvError::HeaderReadFailure(detail) => detail.clone(),
            CsvError::RecordReadFailure(detail) => detail.clone(),
        }
    }
}

} // verus!
