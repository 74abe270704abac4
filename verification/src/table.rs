//! A table held in memory: its rows, its header and its records.

use vstd::prelude::*;
use crate::csvutil::{csv_reader, synthesized_names, HeaderRow};
use crate::options::CsvOptions;
use crate::text::texts;

verus! {

/// Whether the input has a header row: it has one unless the options say
/// otherwise.
pub open spec fn input_has_headers(options: CsvOptions) -> bool {
    options.input_has_headers != Some(false)
}

/// The texts of the rows of a table.
pub open spec fn table(rows: Seq<Vec<String>>) -> Seq<Seq<Seq<char>>> {
    Seq::new(rows.len(), |i: int| texts(rows[i]@))
}

/// The header of a table: its first row when it has a header row, else
/// letters for as many columns as its first row has. An empty table has an
/// empty header.
pub open spec fn header_of(has_headers: bool, rows: Seq<Seq<Seq<char>>>) -> Seq<Seq<char>> {
    if rows.len() == 0 {
        Seq::empty()
    } else if has_headers {
        rows[0]
    } else {
        synthesized_names(rows[0].len())
    }
}

/// The records of a table: every row but the header row.
pub open spec fn records_of(has_headers: bool, rows: Seq<Seq<Seq<char>>>) -> Seq<Seq<Seq<char>>> {
    if has_headers && rows.len() > 0 {
        rows.skip(1)
    } else {
        rows
    }
}

/// The header against which the selectors of a table are resolved.
pub fn table_header(options: &CsvOptions, rows: &Vec<Vec<String>>) -> (header: HeaderRow)
    ensures
        header@ == header_of(input_has_headers(*options), table(rows@)),
{
    let settings = csv_reader(options);
    if rows.len() == 0 {
        let header = HeaderRow::new(Vec::new());
        assert(header@ == Seq::<Seq<char>>::empty());
        header
    } else if settings.has_headers {
        let mut names: Vec<String> = Vec::new();
        let first = &rows[0];
        let mut i: usize = 0;
        while i < first.len()
            invariant
                i <= first.len(),
                names.len() == i,
                forall|k: int| 0 <= k < i ==> names[k]@ == first[k]@,
            decreases first.len() - i,
        {
            names.push(first[i].clone());
            i = i + 1;
        }
        assert(texts(names@) == texts(first@));
        HeaderRow::new(names)
    } else {
        HeaderRow::synthesized(rows[0].len())
    }
}

/// The index of the first record among the rows of a table.
pub fn first_record(options: &CsvOptions, rows: &Vec<Vec<String>>) -> (first: usize)
    ensures
        first <= rows.len(),
        first == if input_has_headers(*options) && rows.len() > 0 {
            1int
        } else {
            0int
        },
        records_of(input_has_headers(*options), table(rows@)) == table(rows@).skip(first as int),
{
    let settings = csv_reader(options);
    if settings.has_headers && rows.len() > 0 {
        1
    } else {
        assert(table(rows@).skip(0) == table(rows@));
        0
    }
}

} // verus!
