//! From what the command line gave to the options of a run.

use vstd::prelude::*;
use vstd::string::StrSliceExecFns;
use crate::options::CsvOptions;
use crate::text::{
    chars_of,
    find_char,
    split,
    str_equal,
    string_of,
    texts,
    trim_bounds,
    trimmed,
};

verus! {

/// The values of the arguments that every tool takes, as the command line
/// gave them. `None` stands for an argument that was not given.
#[derive(Debug, Clone, PartialEq, Eq)]
pub struct ArgValues {
    /// The input path; `-` stands for standard input.
    pub input: Option<String>,
    /// The output path; `-` stands for standard output.
    pub output: Option<String>,
    /// Whether the header row is left out of the output.
    pub no_output_headers: Option<bool>,
    /// Whether the input lacks a header row.
    pub input_has_no_headers: Option<bool>,
    /// Whether records may differ in width.
    pub flexible: Option<bool>,
    /// Whether fields and headers are trimmed.
    pub trim_fields: Option<bool>,
    /// The delimiter: its first character counts.
    pub delimiter: Option<String>,
    /// The quote character: its first character counts.
    pub quote_char: Option<String>,
    /// The escape character: its first character counts.
    pub escape_char: Option<String>,
    /// The comment character: its first character counts.
    pub comment_char: Option<String>,
}

/// A path, unless it is `-`.
pub open spec fn path_of(arg: Option<String>) -> Option<Seq<char>> {
    match arg {
        Some(path) => if path@ == "-"@ {
            None
        } else {
            Some(path@)
        },
        None => None,
    }
}

/// The text of a string, if there is one.
pub open spec fn opt_text(arg: Option<String>) -> Option<Seq<char>> {
    match arg {
        Some(s) => Some(s@),
        None => None,
    }
}

/// The opposite of a switch, if it was given.
pub open spec fn negated(arg: Option<bool>) -> Option<bool> {
    match arg {
        Some(b) => Some(!b),
        None => None,
    }
}

/// The first character of an argument, if it was given.
pub open spec fn first_char(arg: Option<String>) -> Option<char> {
    match arg {
        Some(s) => Some(s@[0]),
        None => None,
    }
}

/// An argument that was given is not empty.
pub open spec fn has_char(arg: Option<String>) -> bool {
    arg matches Some(s) ==> s@.len() > 0
}

fn path(arg: Option<String>) -> (r: Option<String>)
    ensures
        opt_text(r) == path_of(arg),
{
    match arg {
        Some(path) => if str_equal(path.as_str(), "-") {
            None
        } else {
            Some(path)
        },
        None => None,
    }
}

fn not(arg: Option<bool>) -> (r: Option<bool>)
    ensures
        r == negated(arg),
{
    match arg {
        Some(b) => Some(!b),
        None => None,
    }
}

fn first(arg: &Option<String>) -> (r: Option<char>)
    requires
        has_char(*arg),
    ensures
        r == first_char(*arg),
{
    match arg {
        Some(s) => Some(s.as_str().get_char(0)),
        None => None,
    }
}

/// The options that the arguments ask for. A path of `-` is no path; the
/// two header switches are turned round; of each character argument the
/// first character is taken, so none of them may be empty.
pub fn build_options(args: ArgValues) -> (options: CsvOptions)
    requires
        has_char(args.delimiter),
        has_char(args.quote_char),
        has_char(args.escape_char),
        has_char(args.comment_char),
    ensures
        opt_text(options.input_file) == path_of(args.input),
        opt_text(options.output_file) == path_of(args.output),
        options.output_headers == negated(args.no_output_headers),
        options.input_has_headers == negated(args.input_has_no_headers),
        options.flexible == args.flexible,
        options.trim_fields == args.trim_fields,
        options.delimiter == first_char(args.delimiter),
        options.quote_char == first_char(args.quote_char),
        options.escape_char == first_char(args.escape_char),
        options.comment_char == first_char(args.comment_char),
{
    let mut options = CsvOptions::new();
    options.delimiter = first(&args.delimiter);
    options.quote_char = first(&args.quote_char);
    options.escape_char = first(&args.escape_char);
    options.comment_char = first(&args.comment_char);
    options.input_file = path(args.input);
    options.output_file = path(args.output);
    options.output_headers = not(args.no_output_headers);
    options.input_has_headers = not(args.input_has_no_headers);
    options.flexible = args.flexible;
    options.trim_fields = args.trim_fields;
    options
}

/// Each field without the white space at either end.
pub open spec fn trimmed_fields(fields: Seq<Seq<char>>) -> Seq<Seq<char>> {
    Seq::new(fields.len(), |i: int| trimmed(fields[i]))
}

/// The selectors written in one argument: its parts between commas, each
/// without the white space around it.
pub open spec fn selectors_of(arg: Seq<char>) -> Seq<Seq<char>> {
    trimmed_fields(split(arg, ','))
}

/// The selectors written in several arguments, in order.
pub open spec fn all_selectors(args: Seq<Seq<char>>) -> Seq<Seq<char>>
    decreases args.len(),
{
    if args.len() == 0 {
        Seq::empty()
    } else {
        all_selectors(args.drop_last()) + selectors_of(args.last())
    }
}

/// The selectors written in one argument.
pub fn split_selectors(arg: &str) -> (tokens: Vec<String>)
    ensures
        texts(tokens@) == selectors_of(arg@),
{
    let chars = chars_of(arg);
    let n = chars.len();
    let mut tokens: Vec<String> = Vec::new();
    let ghost mut fields: Seq<Seq<char>> = Seq::empty();
    let mut start: usize = 0;
    let mut done = false;
    assert(chars@.skip(0) == arg@);
    while !done
        invariant
            start <= n,
            n == chars.len(),
            chars@ == arg@,
            tokens.len() == fields.len(),
            texts(tokens@) == trimmed_fields(fields),
            !done ==> split(arg@, ',') == fields + split(chars@.skip(start as int), ','),
            done ==> split(arg@, ',') == fields,
        decreases n - start + if done { 0int } else { 1int },
    {
        let ghost rest = chars@.skip(start as int);
        let ghost before = tokens@;
        let i = find_char(&chars, start, ',');
        let (a, b) = trim_bounds(&chars, start, i);
        tokens.push(string_of(&chars, a, b));
        proof {
            let field = chars@.subrange(start as int, i as int);
            assert(rest.take(i - start) == field);
            assert(texts(tokens@) == trimmed_fields(fields.push(field))) by {
                assert forall|k: int| 0 <= k < tokens.len() implies texts(tokens@)[k]
                    == trimmed_fields(fields.push(field))[k] by {
                    if k < before.len() {
                        assert(texts(before)[k] == trimmed_fields(fields)[k]);
                        assert(tokens@[k] == before[k]);
                        assert(fields.push(field)[k] == fields[k]);
                    } else {
                        assert(fields.push(field)[k] == field);
                    }
                }
            }
            if i < n {
                assert(rest.skip(i - start + 1) == chars@.skip(i + 1));
                assert(fields + (seq![field] + split(chars@.skip(i + 1), ',')) == fields.push(field)
                    + split(chars@.skip(i + 1), ','));
            } else {
                assert(rest.take(i - start) == rest);
                assert(fields + seq![rest] == fields.push(field));
            }
            fields = fields.push(field);
        }
        if i == n {
            done = true;
        } else {
            start = i + 1;
        }
    }
    tokens
}

/// The selectors written in the arguments, in order: each argument may hold
/// several, separated by commas.
pub fn split_columns(values: &Vec<String>) -> (tokens: Vec<String>)
    ensures
        texts(tokens@) == all_selectors(texts(values@)),
{
    let mut tokens: Vec<String> = Vec::new();
    let mut i: usize = 0;
    while i < values.len()
        invariant
            i <= values.len(),
            texts(tokens@) == all_selectors(texts(values@).take(i as int)),
        decreases values.len() - i,
    {
        let ghost before = tokens@;
        let mut part = split_selectors(values[i].as_str());
        let ghost added = part@;
        tokens.append(&mut part);
        proof {
            let next = texts(values@).take(i + 1);
            assert(next.drop_last() == texts(values@).take(i as int));
            assert(next.last() == values[i as int]@);
            assert(texts(tokens@) == texts(before) + texts(added));
        }
        i = i + 1;
    }
    assert(texts(values@).take(i as int) == texts(values@));
    tokens
}

} // verus!
