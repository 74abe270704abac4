//! Cutting columns out of a table.

use vstd::prelude::*;
use crate::csvutil::{
    csv_reader,
    enumerate_output_headers,
    ints,
    output_headers,
    project_record,
    projection,
    resolve,
    select_column_indices,
    selector_texts,
};
use crate::error::{ColumnError, ColumnErrorView};
use crate::options::CsvOptions;
use crate::table::{header_of, input_has_headers, records_of, table, table_header};
use crate::text::texts;

verus! {

/// What to cut.
#[derive(Debug, Clone, PartialEq, Eq)]
pub struct CsvCutOptions {
    /// The selectors of the columns to keep; every column when absent.
    pub input_columns: Option<Vec<String>>,
}

/// Whether a header row is written: as the options say for the output, else
/// as they say for the input, else yes.
pub open spec fn wants_output_headers(options: CsvOptions) -> bool {
    match options.output_headers {
        Some(b) => b,
        None => input_has_headers(options),
    }
}

/// Whether a header row is written.
pub fn output_has_headers(options: &CsvOptions) -> (b: bool)
    ensures
        b == wants_output_headers(*options),
{
    match options.output_headers {
        Some(b) => b,
        None => match options.input_has_headers {
            Some(b) => b,
            None => true,
        },
    }
}

/// Each record narrowed to the selected columns.
pub open spec fn projections(selected: Seq<int>, records: Seq<Seq<Seq<char>>>) -> Seq<
    Seq<Seq<char>>,
> {
    Seq::new(records.len(), |i: int| projection(selected, records[i]))
}

/// The table that cutting `rows` gives: the names of the selected columns,
/// if a header row is wanted, then each record narrowed to the selected
/// columns. A selector that cannot be resolved fails the whole cut.
pub open spec fn cut(
    options: CsvOptions,
    columns: Option<Seq<Seq<char>>>,
    rows: Seq<Seq<Seq<char>>>,
) -> Result<Seq<Seq<Seq<char>>>, ColumnErrorView> {
    let has_headers = input_has_headers(options);
    let header = header_of(has_headers, rows);
    match resolve(header, columns) {
        Err(e) => Err(e),
        Ok(selected) => {
            let body = projections(selected, records_of(has_headers, rows));
            if wants_output_headers(options) {
                Ok(seq![output_headers(has_headers, header, selected)] + body)
            } else {
                Ok(body)
            }
        },
    }
}

/// Cuts the selected columns out of a table held in memory.
///
/// `rows` holds every row of the input, the header row included if there is
/// one. The result holds every row of the output, in order.
pub fn cut_table(options: &CsvOptions, cut_options: &CsvCutOptions, rows: &Vec<Vec<String>>) -> (r:
    Result<Vec<Vec<String>>, ColumnError>)
    ensures
        match r {
            Ok(out) => cut(*options, selector_texts(cut_options.input_columns), table(rows@))
                matches Ok(expected) && expected == table(out@),
            Err(e) => cut(*options, selector_texts(cut_options.input_columns), table(rows@))
                == Err::<Seq<Seq<Seq<char>>>, ColumnErrorView>(e@),
        },
{
    let settings = csv_reader(options);
    let has_headers = settings.has_headers;
    let header = table_header(options, rows);
    let selected = match select_column_indices(&header, &cut_options.input_columns) {
        Ok(selected) => selected,
        Err(e) => { return Err(e); },
    };
    let ghost records = records_of(has_headers, table(rows@));
    let ghost body = projections(ints(selected@), records);
    let mut out: Vec<Vec<String>> = Vec::new();
    let with_header = output_has_headers(options);
    if with_header {
        out.push(enumerate_output_headers(has_headers, header, &selected));
    }
    let ghost top = table(out@);
    let first: usize = if has_headers && rows.len() > 0 {
        1
    } else {
        0
    };
    let mut i: usize = first;
    while i < rows.len()
        invariant
            first <= i <= rows.len(),
            first == if has_headers && rows.len() > 0 { 1int } else { 0int },
            records == records_of(has_headers, table(rows@)),
            body == projections(ints(selected@), records),
            table(out@) == top + body.take(i - first),
        decreases rows.len() - i,
    {
        let ghost before = out@;
        out.push(project_record(&selected, &rows[i]));
        assert(records[i - first] == texts(rows[i as int]@));
        assert(table(out@) == table(before).push(body[i - first]));
        assert(body.take(i - first + 1) == body.take(i - first).push(body[i - first]));
        i = i + 1;
    }
    assert(body.take(i - first) == body);
    Ok(out)
}

/// Cutting every column out of a table changes nothing, when the header row
/// is read and written and every row has as many fields as the header.
pub proof fn lemma_cut_all_columns(options: CsvOptions, rows: Seq<Seq<Seq<char>>>)
    requires
        input_has_headers(options),
        wants_output_headers(options),
        rows.len() > 0,
        forall|r: int| 0 <= r < rows.len() ==> (#[trigger] rows[r]).len() == rows[0].len(),
    ensures
        cut(options, None, rows) == Ok::<Seq<Seq<Seq<char>>>, ColumnErrorView>(rows),
{
    let header = rows[0];
    let selected = Seq::new(header.len(), |i: int| i);
    let body = projections(selected, rows.skip(1));
    assert(output_headers(true, header, selected) =~= header);
    assert forall|r: int| 0 <= r < body.len() implies body[r] == rows[r + 1] by {
        assert(rows.skip(1)[r] == rows[r + 1]);
        assert(projection(selected, rows[r + 1]) =~= rows[r + 1]);
    }
    assert(seq![header] + body =~= rows);
}

/// The output has as many columns as were selected: its header row, if
/// there is one, and each of its records.
pub proof fn lemma_cut_width(
    options: CsvOptions,
    columns: Option<Seq<Seq<char>>>,
    rows: Seq<Seq<Seq<char>>>,
)
    ensures
        match (cut(options, columns, rows), resolve(
            header_of(input_has_headers(options), rows),
            columns,
        )) {
            (Ok(out), Ok(selected)) => forall|r: int|
                0 <= r < out.len() ==> (#[trigger] out[r]).len() == selected.len(),
            (Err(e), Err(e2)) => e == e2,
            _ => false,
        },
{
}

} // verus!
