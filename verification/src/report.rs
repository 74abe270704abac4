//! The report of the statistics tool: one row for each selected column.

use vstd::prelude::*;
use crate::csvstat::{frequency_texts, is_top_frequent, CsvColumnStat, StatView};
use crate::number::{decimal, decimal_string};
use crate::options::CsvOptions;
use crate::text::{join, joined, texts};

verus! {

/// The figures of a column of numbers, each as the caller renders it.
#[derive(Debug, Clone, PartialEq, Eq)]
pub struct NumericSummary {
    /// The least number.
    pub min: String,
    /// The greatest number.
    pub max: String,
    /// The sum of the numbers.
    pub sum: String,
    /// The mean of the numbers.
    pub mean: String,
    /// The median of the numbers.
    pub median: String,
    /// The standard deviation of the numbers.
    pub stdev: String,
}

/// The names of the fields of a report row.
pub open spec fn report_names() -> Seq<Seq<char>> {
    seq![
        "column_id"@,
        "column_name"@,
        "type"@,
        "nulls"@,
        "unique"@,
        "min"@,
        "max"@,
        "sum"@,
        "mean"@,
        "median"@,
        "stdev"@,
        "len"@,
        "freq"@,
    ]
}

/// The fields of the report row of a column. A column of numbers shows the
/// figures of its numbers and no text length; a column of text shows its
/// least and greatest text and its greatest length, and no figures.
pub open spec fn report_fields(stat: StatView, numbers: NumericSummary, freq: Seq<Seq<char>>) -> Seq<
    Seq<char>,
> {
    let numeric = stat.is_numeric();
    let blank = Seq::<char>::empty();
    seq![
        decimal(stat.idx),
        stat.name,
        if numeric {
            "Number"@
        } else {
            "Text"@
        },
        if stat.n_missing > 0 {
            "true"@
        } else {
            "false"@
        },
        decimal(stat.distinct.dom().len()),
        if numeric {
            numbers.min@
        } else {
            stat.min_str
        },
        if numeric {
            numbers.max@
        } else {
            stat.max_str
        },
        if numeric {
            numbers.sum@
        } else {
            blank
        },
        if numeric {
            numbers.mean@
        } else {
            blank
        },
        if numeric {
            numbers.median@
        } else {
            blank
        },
        if numeric {
            numbers.stdev@
        } else {
            blank
        },
        if numeric {
            blank
        } else {
            decimal(stat.max_len)
        },
        joined(freq, ","@),
    ]
}

/// The header row of the report.
pub fn report_header() -> (names: Vec<String>)
    ensures
        texts(names@) == report_names(),
{
    let mut names: Vec<String> = Vec::new();
    names.push("column_id".to_owned());
    names.push("column_name".to_owned());
    names.push("type".to_owned());
    names.push("nulls".to_owned());
    names.push("unique".to_owned());
    names.push("min".to_owned());
    names.push("max".to_owned());
    names.push("sum".to_owned());
    names.push("mean".to_owned());
    names.push("median".to_owned());
    names.push("stdev".to_owned());
    names.push("len".to_owned());
    names.push("freq".to_owned());
    assert(texts(names@) == report_names());
    names
}

/// The report row of a column, given the figures of its numbers and the
/// list of its most frequent values.
pub fn report_row(stat: &CsvColumnStat, numbers: &NumericSummary, freq: &Vec<String>) -> (row: Vec<
    String,
>)
    requires
        stat.wf(),
    ensures
        texts(row@) == report_fields(stat@, *numbers, texts(freq@)),
{
    let numeric = stat.is_numeric();
    let mut row: Vec<String> = Vec::new();
    row.push(decimal_string(stat.idx() as u64));
    row.push(stat.name().clone());
    row.push(
        if numeric {
            "Number".to_owned()
        } else {
            "Text".to_owned()
        },
    );
    row.push(
        if stat.nulls() {
            "true".to_owned()
        } else {
            "false".to_owned()
        },
    );
    row.push(decimal_string(stat.unique() as u64));
    row.push(stat.min(numbers.min.as_str()));
    row.push(stat.max(numbers.max.as_str()));
    if numeric {
        row.push(numbers.sum.clone());
        row.push(numbers.mean.clone());
        row.push(numbers.median.clone());
        row.push(numbers.stdev.clone());
        row.push(String::new());
    } else {
        row.push(String::new());
        row.push(String::new());
        row.push(String::new());
        row.push(String::new());
        row.push(decimal_string(stat.max_len() as u64));
    }
    row.push(join(freq, ","));
    assert(texts(row@) == report_fields(stat@, *numbers, texts(freq@)));
    row
}

/// Whether the report starts with its header row: it does unless the
/// options say otherwise.
pub open spec fn wants_report_header(options: CsvOptions) -> bool {
    options.output_headers != Some(false)
}

/// The number of rows that come before the rows of the columns.
pub open spec fn report_offset(options: CsvOptions) -> int {
    if wants_report_header(options) {
        1
    } else {
        0
    }
}

/// `row` is the report row of `stat` with some list of its 100 most frequent
/// values.
pub open spec fn is_report_row(row: Seq<Seq<char>>, stat: StatView, numbers: NumericSummary) -> bool {
    exists|top: Seq<(Seq<char>, nat)>|
        is_top_frequent(stat.distinct, 100, top) && row == report_fields(
            stat,
            numbers,
            #[trigger] frequency_texts(top),
        )
}

/// The report: the header row, if wanted, then the row of each column in
/// order, each with the figures of its numbers at the same position in
/// `numbers`.
pub fn report_table(
    options: &CsvOptions,
    statistics: &Vec<CsvColumnStat>,
    numbers: &Vec<NumericSummary>,
) -> (rows: Vec<Vec<String>>)
    requires
        numbers.len() == statistics.len(),
        forall|j: int| 0 <= j < statistics.len() ==> (#[trigger] statistics[j]).wf(),
    ensures
        rows.len() == report_offset(*options) + statistics.len(),
        wants_report_header(*options) ==> texts(rows[0]@) == report_names(),
        forall|j: int|
            0 <= j < statistics.len() ==> is_report_row(
                texts((#[trigger] rows[report_offset(*options) + j])@),
                statistics[j]@,
                numbers[j],
            ),
{
    let mut rows: Vec<Vec<String>> = Vec::new();
    let with_header = match options.output_headers {
        Some(b) => b,
        None => true,
    };
    if with_header {
        rows.push(report_header());
    }
    let ghost top = report_offset(*options);
    let mut j: usize = 0;
    while j < statistics.len()
        invariant
            j <= statistics.len(),
            numbers.len() == statistics.len(),
            top == report_offset(*options),
            rows.len() == top + j,
            top == 1 ==> texts(rows[0]@) == report_names(),
            forall|k: int| 0 <= k < statistics.len() ==> (#[trigger] statistics[k]).wf(),
            forall|k: int|
                0 <= k < j ==> is_report_row(
                    texts((#[trigger] rows[top + k])@),
                    statistics[k]@,
                    numbers[k],
                ),
        decreases statistics.len() - j,
    {
        let ghost before = rows@;
        let freq = statistics[j].freq();
        rows.push(report_row(&statistics[j], &numbers[j], &freq));
        assert forall|k: int| 0 <= k < j + 1 implies is_report_row(
            texts((#[trigger] rows[top + k])@),
            statistics[k]@,
            numbers[k],
        ) by {
            if k < j {
                assert(rows[top + k] == before[top + k]);
            }
        }
        j = j + 1;
    }
    rows
}

} // verus!
