//! The header row and the resolution of column selectors against it.
//!
//! A selector is a column number counted from 1 (`3`), a column number
//! counted from the end (`-1`), an inclusive range of column numbers (`2-4`),
//! or a column name. A selector is read as a number if it is one, else as a
//! range if it is one, else as a name: a column whose name looks like a
//! number or a range cannot be selected by that name.

use vstd::prelude::*;
use std::ops::RangeInclusive;
use crate::error::{ColumnError, ColumnErrorView};
use crate::number::{parse_i32, parse_signed, parse_unsigned, read_unsigned};
use crate::options::CsvOptions;
use crate::text::{
    chars_of,
    find_char,
    index_of,
    lemma_index_of,
    lemma_index_of_unique,
    push_char,
    str_equal,
    texts,
};

verus! {

/// The letter of the alphabet at position `k`, counted from 0.
pub open spec fn letter(k: nat) -> char
    recommends
        k < 26,
{
    (k + 97) as char
}

/// The name given to column `i` (counted from 0) of an input without a
/// header row: `a` to `z`, then `aa` to `zz`, then `aaa`, and so on.
pub open spec fn column_letters(i: nat) -> Seq<char> {
    Seq::new(1 + i / 26, |j: int| letter(i % 26))
}

/// The names `column_letters` gives to the first `width` columns.
pub open spec fn synthesized_names(width: nat) -> Seq<Seq<char>> {
    Seq::new(width, |i: int| column_letters(i as nat))
}

/// The name given to column `i` of an input without a header row.
pub fn column_name(i: usize) -> (name: String)
    ensures
        name@ == column_letters(i as nat),
{
    let c: char = ((i % 26) as u8 + 97u8) as char;
    let count: usize = 1 + i / 26;
    let mut name = String::new();
    let mut j: usize = 0;
    while j < count
        invariant
            j <= count,
            c == letter((i % 26) as nat),
            name@ == Seq::new(j as nat, |k: int| c),
        decreases count - j,
    {
        push_char(&mut name, c);
        j = j + 1;
        assert(name@ == Seq::new(j as nat, |k: int| c));
    }
    name
}

/// The names of the columns, in order. Names may repeat.
#[derive(Debug, Clone, PartialEq, Eq)]
pub struct HeaderRow {
    pub names: Vec<String>,
}

impl View for HeaderRow {
    type V = Seq<Seq<char>>;

    open spec fn view(&self) -> Seq<Seq<char>> {
        texts(self.names@)
    }
}

impl HeaderRow {
    /// The header row with the given names.
    pub fn new(names: Vec<String>) -> (header: Self)
        ensures
            header@ == texts(names@),
    {
        HeaderRow { names }
    }

    /// The header row of an input that has none: `width` columns named
    /// `a`, `b`, and so on.
    pub fn synthesized(width: usize) -> (header: Self)
        ensures
            header@ == synthesized_names(width as nat),
    {
        let mut names: Vec<String> = Vec::new();
        let mut i: usize = 0;
        while i < width
            invariant
                i <= width,
                names.len() == i,
                texts(names@) == synthesized_names(i as nat),
            decreases width - i,
        {
            let ghost before = names@;
            let name = column_name(i);
            names.push(name);
            i = i + 1;
            assert(texts(names@) == synthesized_names(i as nat)) by {
                assert forall|k: int| 0 <= k < i implies texts(names@)[k] == synthesized_names(
                    i as nat,
                )[k] by {
                    if k < i - 1 {
                        assert(texts(before)[k] == synthesized_names((i - 1) as nat)[k]);
                        assert(names@[k] == before[k]);
                    }
                }
            }
        }
        HeaderRow { names }
    }

    /// The number of columns.
    pub fn len(&self) -> (n: usize)
        ensures
            n == self@.len(),
    {
        self.names.len()
    }

    /// The name of column `i`, counted from 0.
    pub fn get(&self, i: usize) -> (name: Option<&str>)
        ensures
            match name {
                Some(s) => i < self@.len() && s@ == self@[i as int],
                None => i >= self@.len(),
            },
    {
        if i < self.names.len() {
            Some(self.names[i].as_str())
        } else {
            None
        }
    }

    /// The first column called `name`, counted from 0.
    pub fn position(&self, name: &str) -> (found: Option<usize>)
        ensures
            match found {
                Some(i) => i < self@.len() && i == index_of(self@, name@),
                None => index_of(self@, name@) == self@.len(),
            },
    {
        let mut i: usize = 0;
        while i < self.names.len()
            invariant
                i <= self.names.len(),
                forall|j: int| 0 <= j < i ==> self@[j] != name@,
            decreases self.names.len() - i,
        {
            if str_equal(self.names[i].as_str(), name) {
                proof {
                    lemma_index_of_unique(self@, name@, i as int);
                }
                return Some(i);
            }
            i = i + 1;
        }
        proof {
            lemma_index_of_unique(self@, name@, i as int);
        }
        None
    }
}

/// The lower bound of an inclusive range.
///
/// Trusted: `RangeInclusive::start` is documented to return the lower bound
/// the range was built with.
pub assume_specification<Idx>[ RangeInclusive::<Idx>::start ](r: &RangeInclusive<Idx>) -> (start:
    &Idx)
    ensures
        *start == r@.start,
;

/// The upper bound of an inclusive range.
///
/// Trusted: `RangeInclusive::end` is documented to return the upper bound
/// the range was built with.
pub assume_specification<Idx>[ RangeInclusive::<Idx>::end ](r: &RangeInclusive<Idx>) -> (end: &Idx)
    ensures
        *end == r@.end,
;

/// The indices in `v` as mathematical integers.
pub open spec fn ints(v: Seq<usize>) -> Seq<int> {
    Seq::new(v.len(), |i: int| v[i] as int)
}

/// A selector, read.
#[derive(Debug, Clone, PartialEq, Eq)]
pub enum ColumnSpecToken {
    /// A column number counted from the start, the first column being 1.
    PositiveIndex(i32),
    /// A column number counted from the end, the last column being -1.
    NegativeIndex(i32),
    /// The first and the last column number of a range, both counted from 1.
    Range(usize, usize),
    /// A column name.
    Name(String),
}

/// A selector as plain mathematical values.
pub enum Selector {
    /// A column number counted from the start.
    PositiveIndex(int),
    /// A column number counted from the end.
    NegativeIndex(int),
    /// The first and the last column number of a range.
    Range(nat, nat),
    /// A column name.
    Name(Seq<char>),
}

impl View for ColumnSpecToken {
    type V = Selector;

    open spec fn view(&self) -> Selector {
        match self {
            ColumnSpecToken::PositiveIndex(k) => Selector::PositiveIndex(*k as int),
            ColumnSpecToken::NegativeIndex(k) => Selector::NegativeIndex(*k as int),
            ColumnSpecToken::Range(a, b) => Selector::Range(*a as nat, *b as nat),
            ColumnSpecToken::Name(name) => Selector::Name(name@),
        }
    }
}

/// The bounds `a` and `b` of a range written `a-b`: the text before the first
/// `-` and the text after it, each an unsigned number.
pub open spec fn range_bounds(s: Seq<char>) -> Option<(nat, nat)> {
    let i = index_of(s, '-');
    if 0 <= i < s.len() {
        match (
            parse_unsigned(s.take(i), usize::MAX as nat),
            parse_unsigned(s.skip(i + 1), usize::MAX as nat),
        ) {
            (Some(a), Some(b)) => Some((a, b)),
            _ => None,
        }
    } else {
        None
    }
}

/// Reads a selector: a number if it is one, else a range if it is one, else
/// a name.
pub open spec fn classify(token: Seq<char>) -> Selector {
    match parse_signed(token, i32::MIN as int, i32::MAX as int) {
        Some(k) => if k >= 0 {
            Selector::PositiveIndex(k)
        } else {
            Selector::NegativeIndex(k)
        },
        None => match range_bounds(token) {
            Some((a, b)) => Selector::Range(a, b),
            None => Selector::Name(token),
        },
    }
}

/// The index, counted from 0, that column number `k` stands for when
/// columns are counted up to `limit`; `n` is the number of columns reported
/// when `k` is beyond the limit.
pub open spec fn numeric_col(n: nat, limit: int, k: int) -> Result<int, ColumnErrorView> {
    if k == 0 {
        Err(ColumnErrorView::ColumnZeroInvalid)
    } else if k < -limit || k > limit {
        Err(ColumnErrorView::ColumnOutOfRange(k, n))
    } else if k > 0 {
        Ok(k - 1)
    } else {
        Ok(limit + k)
    }
}

/// The index, counted from 0, that column number `k` stands for among `n`
/// columns.
pub open spec fn resolve_index(k: int, n: nat) -> Result<int, ColumnErrorView> {
    numeric_col(n, n as int, k)
}

/// The indices, counted from 0, that the range from column `a` to column `b`
/// stands for among `n` columns.
pub open spec fn resolve_range(a: nat, b: nat, n: nat) -> Result<Seq<int>, ColumnErrorView> {
    if a >= b {
        Err(ColumnErrorView::RangeNotIncreasing(a, b))
    } else if b > n {
        Err(ColumnErrorView::RangeOutOfBounds(a, b, n))
    } else if a == 0 {
        Err(ColumnErrorView::ColumnZeroInvalid)
    } else {
        Ok(Seq::new((b - a + 1) as nat, |i: int| a - 1 + i))
    }
}

/// The index of the first column called `name`.
pub open spec fn resolve_name(header: Seq<Seq<char>>, name: Seq<char>) -> Result<
    int,
    ColumnErrorView,
> {
    let i = index_of(header, name);
    if 0 <= i < header.len() {
        Ok(i)
    } else {
        Err(ColumnErrorView::ColumnNotFound(name))
    }
}

/// The indices a selector that was read stands for.
pub open spec fn resolve_selector(header: Seq<Seq<char>>, selector: Selector) -> Result<
    Seq<int>,
    ColumnErrorView,
> {
    match selector {
        Selector::PositiveIndex(k) | Selector::NegativeIndex(k) => match resolve_index(
            k,
            header.len(),
        ) {
            Ok(i) => Ok(seq![i]),
            Err(e) => Err(e),
        },
        Selector::Range(a, b) => resolve_range(a, b, header.len()),
        Selector::Name(name) => match resolve_name(header, name) {
            Ok(i) => Ok(seq![i]),
            Err(e) => Err(e),
        },
    }
}

/// The indices one selector stands for.
pub open spec fn resolve_token(header: Seq<Seq<char>>, token: Seq<char>) -> Result<
    Seq<int>,
    ColumnErrorView,
> {
    resolve_selector(header, classify(token))
}

/// The indices a list of selectors stands for: those of each selector, in the
/// order given; or the error of the first selector that has one.
pub open spec fn resolve_tokens(header: Seq<Seq<char>>, tokens: Seq<Seq<char>>) -> Result<
    Seq<int>,
    ColumnErrorView,
>
    decreases tokens.len(),
{
    if tokens.len() == 0 {
        Ok(Seq::empty())
    } else {
        match resolve_tokens(header, tokens.drop_last()) {
            Err(e) => Err(e),
            Ok(before) => match resolve_token(header, tokens.last()) {
                Err(e) => Err(e),
                Ok(indices) => Ok(before + indices),
            },
        }
    }
}

/// The indices selected: every column in order when no selector is given.
pub open spec fn resolve(header: Seq<Seq<char>>, columns: Option<Seq<Seq<char>>>) -> Result<
    Seq<int>,
    ColumnErrorView,
> {
    match columns {
        None => Ok(Seq::new(header.len(), |i: int| i)),
        Some(tokens) => resolve_tokens(header, tokens),
    }
}

/// The outcome `r` is the outcome `expected`.
pub open spec fn same_indices(
    r: Result<Vec<usize>, ColumnError>,
    expected: Result<Seq<int>, ColumnErrorView>,
) -> bool {
    match r {
        Ok(v) => expected matches Ok(indices) && indices == ints(v@),
        Err(e) => expected == Err::<Seq<int>, ColumnErrorView>(e@),
    }
}

/// Reads a range written `a-b`.
pub fn parse_range(s: &str) -> (r: Result<RangeInclusive<usize>, ()>)
    ensures
        match r {
            Ok(range) => range_bounds(s@) == Some((range@.start as nat, range@.end as nat))
                && !range@.exhausted,
            Err(_) => range_bounds(s@) is None,
        },
{
    let chars = chars_of(s);
    let n = chars.len();
    let i = find_char(&chars, 0, '-');
    assert(chars@.skip(0) == s@);
    if i == n {
        return Err(());
    }
    assert(chars@.subrange(0, i as int) == s@.take(i as int));
    assert(chars@.subrange(i + 1, n as int) == s@.skip(i + 1));
    let start = match read_unsigned(&chars, 0, i, usize::MAX as u64) {
        Some(v) => v as usize,
        None => { return Err(()); },
    };
    let end = match read_unsigned(&chars, i + 1, n, usize::MAX as u64) {
        Some(v) => v as usize,
        None => { return Err(()); },
    };
    Ok(RangeInclusive::new(start, end))
}

/// Expands a range of column numbers, counted from 1, into indices counted
/// from 0.
///
/// The range must rise and end within the header. A range that starts at 0
/// names no column and is refused as column 0 is.
pub fn validate_range(range: RangeInclusive<usize>, first_row: &HeaderRow) -> (r: Result<
    Vec<usize>,
    ColumnError,
>)
    ensures
        same_indices(
            r,
            resolve_range(range@.start as nat, range@.end as nat, first_row@.len()),
        ),
{
    let start: usize = *range.start();
    let end: usize = *range.end();
    let n = first_row.len();
    if start >= end {
        return Err(ColumnError::RangeNotIncreasing(start, end));
    }
    if end > n {
        return Err(ColumnError::RangeOutOfBounds(start, end, n));
    }
    if start == 0 {
        return Err(ColumnError::ColumnZeroInvalid);
    }
    let mut indices: Vec<usize> = Vec::new();
    let mut i: usize = start - 1;
    while i < end
        invariant
            1 <= start <= i + 1 <= end + 1,
            indices.len() == i + 1 - start,
            forall|j: int| 0 <= j < indices.len() ==> indices[j] == start - 1 + j,
        decreases end - i,
    {
        indices.push(i);
        i = i + 1;
    }
    assert(ints(indices@) == Seq::new((end - start + 1) as nat, |j: int| start - 1 + j));
    Ok(indices)
}

/// Turns a column number into an index counted from 0: `1` is the first
/// column and `-1` the last of `n_headers` columns.
///
/// `n_headers` is the number of columns of `first_row`, which is also what
/// the error reports; a header too wide for `n_headers` to hold its width
/// is resolved by `select_token`.
pub fn add_numeric_col(first_row: &HeaderRow, n_headers: i32, numeric: i32) -> (r: Result<
    usize,
    ColumnError,
>)
    requires
        n_headers > i32::MIN,
    ensures
        match r {
            Ok(i) => numeric_col(first_row@.len(), n_headers as int, numeric as int) == Ok::<
                int,
                ColumnErrorView,
            >(i as int),
            Err(e) => numeric_col(first_row@.len(), n_headers as int, numeric as int) == Err::<
                int,
                ColumnErrorView,
            >(e@),
        },
{
    if numeric == 0 {
        Err(ColumnError::ColumnZeroInvalid)
    } else if (numeric < -n_headers) || (numeric > n_headers) {
        Err(ColumnError::ColumnOutOfRange(numeric, first_row.len()))
    } else if numeric > 0 {
        Ok((numeric - 1) as usize)
    } else {
        Ok((n_headers + numeric) as usize)
    }
}

/// Turns a column number into an index counted from 0, whatever the width
/// of the header.
fn numeric_index(first_row: &HeaderRow, numeric: i32) -> (r: Result<usize, ColumnError>)
    ensures
        match r {
            Ok(i) => resolve_index(numeric as int, first_row@.len()) == Ok::<int, ColumnErrorView>(
                i as int,
            ),
            Err(e) => resolve_index(numeric as int, first_row@.len()) == Err::<
                int,
                ColumnErrorView,
            >(e@),
        },
{
    let n = first_row.len();
    if n <= i32::MAX as usize {
        add_numeric_col(first_row, n as i32, numeric)
    } else if numeric == 0 {
        Err(ColumnError::ColumnZeroInvalid)
    } else if numeric > 0 {
        Ok((numeric - 1) as usize)
    } else {
        let back: u64 = (-(numeric as i64)) as u64;
        Ok(n - back as usize)
    }
}

/// The texts of the selectors, when there are any.
pub open spec fn selector_texts(columns: Option<Vec<String>>) -> Option<Seq<Seq<char>>> {
    match columns {
        None => None,
        Some(tokens) => Some(texts(tokens@)),
    }
}

/// Reads a selector: a number if it is one, else a range if it is one, else
/// a name.
pub fn classify_token(token: &str) -> (selector: ColumnSpecToken)
    ensures
        selector@ == classify(token@),
{
    match parse_i32(token) {
        Some(numeric) => if numeric >= 0 {
            ColumnSpecToken::PositiveIndex(numeric)
        } else {
            ColumnSpecToken::NegativeIndex(numeric)
        },
        None => match parse_range(token) {
            Ok(range) => ColumnSpecToken::Range(*range.start(), *range.end()),
            Err(_) => ColumnSpecToken::Name(token.to_owned()),
        },
    }
}

fn single(i: usize) -> (indices: Vec<usize>)
    ensures
        ints(indices@) == seq![i as int],
{
    let mut indices: Vec<usize> = Vec::new();
    indices.push(i);
    assert(ints(indices@) == seq![i as int]);
    indices
}

/// Resolves a selector that was read against the header.
pub fn select_token(first_row: &HeaderRow, token: &ColumnSpecToken) -> (r: Result<
    Vec<usize>,
    ColumnError,
>)
    ensures
        same_indices(r, resolve_selector(first_row@, token@)),
{
    match token {
        ColumnSpecToken::PositiveIndex(numeric) | ColumnSpecToken::NegativeIndex(numeric) => {
            match numeric_index(first_row, *numeric) {
                Ok(i) => Ok(single(i)),
                Err(e) => Err(e),
            }
        },
        ColumnSpecToken::Range(start, end) => validate_range(
            RangeInclusive::new(*start, *end),
            first_row,
        ),
        ColumnSpecToken::Name(name) => match first_row.position(name.as_str()) {
            Some(i) => Ok(single(i)),
            None => Err(ColumnError::ColumnNotFound(name.clone())),
        },
    }
}

/// Resolves one selector against the header.
pub fn select_column(first_row: &HeaderRow, column: &str) -> (r: Result<Vec<usize>, ColumnError>)
    ensures
        same_indices(r, resolve_token(first_row@, column@)),
{
    let token = classify_token(column);
    select_token(first_row, &token)
}

/// Resolves the selectors against the header, in the order given; with no
/// selectors, selects every column in order.
///
/// An index may occur more than once. The first selector that cannot be
/// resolved decides the error, and nothing is selected.
pub fn select_column_indices(first_row: &HeaderRow, columns: &Option<Vec<String>>) -> (r: Result<
    Vec<usize>,
    ColumnError,
>)
    ensures
        same_indices(r, resolve(first_row@, selector_texts(*columns))),
        r matches Ok(indices) ==> forall|j: int|
            0 <= j < indices.len() ==> indices[j] < first_row@.len(),
{
    let mut selected: Vec<usize> = Vec::new();
    match columns {
        Some(tokens) => {
            let mut t: usize = 0;
            while t < tokens.len()
                invariant
                    t <= tokens.len(),
                    *columns == Some(*tokens),
                    resolve_tokens(first_row@, texts(tokens@).take(t as int)) matches Ok(indices)
                        && indices == ints(selected@),
                decreases tokens.len() - t,
            {
                let ghost done = texts(tokens@).take(t as int);
                let ghost next = texts(tokens@).take(t + 1);
                assert(next.drop_last() == done);
                assert(next.last() == tokens[t as int]@);
                match select_column(first_row, tokens[t].as_str()) {
                    Ok(mut indices) => {
                        let ghost before = selected@;
                        let ghost added = indices@;
                        selected.append(&mut indices);
                        assert(ints(selected@) == ints(before) + ints(added));
                    },
                    Err(e) => {
                        proof {
                            lemma_resolve_tokens_prefix(
                                first_row@,
                                texts(tokens@),
                                t + 1,
                            );
                        }
                        return Err(e);
                    },
                }
                t = t + 1;
            }
            assert(texts(tokens@).take(t as int) == texts(tokens@));
        },
        None => {
            let n = first_row.len();
            let mut i: usize = 0;
            while i < n
                invariant
                    i <= n,
                    selected.len() == i,
                    forall|j: int| 0 <= j < i ==> selected[j] == j,
                decreases n - i,
            {
                selected.push(i);
                i = i + 1;
            }
            assert(ints(selected@) == Seq::new(first_row@.len(), |j: int| j));
        },
    }
    proof {
        lemma_resolve_in_bounds(first_row@, selector_texts(*columns));
        assert forall|j: int| 0 <= j < selected.len() implies selected[j] < first_row@.len() by {
            assert(ints(selected@)[j] == selected[j]);
        }
    }
    Ok(selected)
}

/// An error among the first selectors is the error of the whole list.
pub proof fn lemma_resolve_tokens_prefix(header: Seq<Seq<char>>, tokens: Seq<Seq<char>>, t: int)
    requires
        0 <= t <= tokens.len(),
        resolve_tokens(header, tokens.take(t)) is Err,
    ensures
        resolve_tokens(header, tokens) == resolve_tokens(header, tokens.take(t)),
    decreases tokens.len() - t,
{
    if t == tokens.len() {
        assert(tokens.take(t) == tokens);
    } else {
        assert(tokens.take(t + 1).drop_last() == tokens.take(t));
        lemma_resolve_tokens_prefix(header, tokens, t + 1);
    }
}

/// Every index that one selector resolves to names a column of the header.
pub proof fn lemma_resolve_token_in_bounds(header: Seq<Seq<char>>, token: Seq<char>)
    ensures
        resolve_token(header, token) matches Ok(indices) ==> forall|j: int|
            0 <= j < indices.len() ==> 0 <= #[trigger] indices[j] < header.len(),
{
    lemma_index_of(header, token);
}

/// Every index that a list of selectors resolves to names a column of the
/// header.
pub proof fn lemma_resolve_tokens_in_bounds(header: Seq<Seq<char>>, tokens: Seq<Seq<char>>)
    ensures
        resolve_tokens(header, tokens) matches Ok(indices) ==> forall|j: int|
            0 <= j < indices.len() ==> 0 <= #[trigger] indices[j] < header.len(),
    decreases tokens.len(),
{
    if tokens.len() > 0 {
        lemma_resolve_tokens_in_bounds(header, tokens.drop_last());
        lemma_resolve_token_in_bounds(header, tokens.last());
    }
}

/// Every selected index names a column of the header.
pub proof fn lemma_resolve_in_bounds(header: Seq<Seq<char>>, columns: Option<Seq<Seq<char>>>)
    ensures
        resolve(header, columns) matches Ok(indices) ==> forall|j: int|
            0 <= j < indices.len() ==> 0 <= #[trigger] indices[j] < header.len(),
{
    match columns {
        Some(tokens) => lemma_resolve_tokens_in_bounds(header, tokens),
        None => {},
    }
}

/// The names written above the selected columns: those of the header when
/// the input has one, else the letters that stand for the column indices.
pub open spec fn output_headers(
    input_has_headers: bool,
    header: Seq<Seq<char>>,
    selected: Seq<int>,
) -> Seq<Seq<char>> {
    Seq::new(
        selected.len(),
        |j: int|
            if input_has_headers {
                header[selected[j]]
            } else {
                column_letters(selected[j] as nat)
            },
    )
}

/// The names of the selected columns, in the order selected.
///
/// With a header row, each index must name one of its columns.
pub fn enumerate_output_headers(
    input_has_headers: bool,
    first_row: HeaderRow,
    selected_indices: &Vec<usize>,
) -> (out_headers: Vec<String>)
    requires
        input_has_headers ==> forall|j: int|
            0 <= j < selected_indices.len() ==> selected_indices[j] < first_row@.len(),
    ensures
        texts(out_headers@) == output_headers(
            input_has_headers,
            first_row@,
            ints(selected_indices@),
        ),
{
    let mut out_headers: Vec<String> = Vec::new();
    let mut j: usize = 0;
    while j < selected_indices.len()
        invariant
            j <= selected_indices.len(),
            out_headers.len() == j,
            input_has_headers ==> forall|k: int|
                0 <= k < selected_indices.len() ==> selected_indices[k] < first_row@.len(),
            forall|k: int|
                0 <= k < j ==> out_headers[k]@ == output_headers(
                    input_has_headers,
                    first_row@,
                    ints(selected_indices@),
                )[k],
        decreases selected_indices.len() - j,
    {
        let i = selected_indices[j];
        let name = if input_has_headers {
            first_row.names[i].clone()
        } else {
            column_name(i)
        };
        out_headers.push(name);
        j = j + 1;
    }
    assert(texts(out_headers@) == output_headers(
        input_has_headers,
        first_row@,
        ints(selected_indices@),
    ));
    out_headers
}

/// The record narrowed to the selected columns: field `j` is the field of
/// `record` at index `selected[j]`, or empty where the record is too short.
pub open spec fn projection(selected: Seq<int>, record: Seq<Seq<char>>) -> Seq<Seq<char>> {
    Seq::new(
        selected.len(),
        |j: int|
            if 0 <= selected[j] < record.len() {
                record[selected[j]]
            } else {
                Seq::empty()
            },
    )
}

/// Narrows a record to the selected columns, in the order selected.
pub fn project_record(selected_indices: &Vec<usize>, record: &Vec<String>) -> (out: Vec<String>)
    ensures
        texts(out@) == projection(ints(selected_indices@), texts(record@)),
{
    let mut out: Vec<String> = Vec::new();
    let mut j: usize = 0;
    while j < selected_indices.len()
        invariant
            j <= selected_indices.len(),
            out.len() == j,
            forall|k: int|
                0 <= k < j ==> out[k]@ == projection(ints(selected_indices@), texts(record@))[k],
        decreases selected_indices.len() - j,
    {
        let i = selected_indices[j];
        let field = if i < record.len() {
            record[i].clone()
        } else {
            String::new()
        };
        out.push(field);
        j = j + 1;
    }
    assert(texts(out@) == projection(ints(selected_indices@), texts(record@)));
    out
}

/// A header made of letters names each column as the output does when the
/// input has no header row.
pub proof fn lemma_synthesized_headers(width: nat, selected: Seq<int>)
    requires
        forall|j: int| 0 <= j < selected.len() ==> 0 <= #[trigger] selected[j] < width,
    ensures
        output_headers(true, synthesized_names(width), selected) == output_headers(
            false,
            synthesized_names(width),
            selected,
        ),
{
    assert forall|j: int| 0 <= j < selected.len() implies output_headers(
        true,
        synthesized_names(width),
        selected,
    )[j] == output_headers(false, synthesized_names(width), selected)[j] by {}
}

/// How the input is read.
#[derive(Debug, Clone, PartialEq, Eq)]
pub struct ReaderSettings {
    /// Whether the first row names the columns.
    pub has_headers: bool,
    /// Whether records may differ in width.
    pub flexible: bool,
    /// Whether fields and headers are trimmed.
    pub trim: bool,
    /// The field delimiter, when it is not the usual one.
    pub delimiter: Option<u8>,
    /// The escape character, if any.
    pub escape: Option<u8>,
    /// The character that starts a comment line, if any.
    pub comment: Option<u8>,
}

/// The low byte of the code of `c`.
pub open spec fn low_byte(c: char) -> u8 {
    (c as u32 % 256) as u8
}

/// The low byte of the code of the character, if there is one.
pub open spec fn low_byte_of(c: Option<char>) -> Option<u8> {
    match c {
        Some(c) => Some(low_byte(c)),
        None => None,
    }
}

fn byte_of(c: Option<char>) -> (b: Option<u8>)
    ensures
        b == low_byte_of(c),
{
    match c {
        Some(c) => Some((c as u32 % 256) as u8),
        None => None,
    }
}

/// The settings of the reader that the options ask for: a header row and
/// records of any width unless said otherwise, no trimming unless asked for.
/// A quote character, when one is given, is what separates the fields; else
/// the delimiter is.
pub fn csv_reader(options: &CsvOptions) -> (settings: ReaderSettings)
    ensures
        settings.has_headers == (options.input_has_headers != Some(false)),
        settings.flexible == (options.flexible != Some(false)),
        settings.trim == (options.trim_fields == Some(true)),
        settings.delimiter == if options.quote_char is Some {
            low_byte_of(options.quote_char)
        } else {
            low_byte_of(options.delimiter)
        },
        settings.escape == low_byte_of(options.escape_char),
        settings.comment == low_byte_of(options.comment_char),
{
    ReaderSettings {
        has_headers: match options.input_has_headers {
            Some(b) => b,
            None => true,
        },
        flexible: match options.flexible {
            Some(b) => b,
            None => true,
        },
        trim: match options.trim_fields {
            Some(b) => b,
            None => false,
        },
        delimiter: match options.quote_char {
            Some(_) => byte_of(options.quote_char),
            None => byte_of(options.delimiter),
        },
        escape: byte_of(options.escape_char),
        comment: byte_of(options.comment_char),
    }
}

} // verus!
