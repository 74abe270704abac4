//! Options shared by every tool.

use vstd::prelude::*;

verus! {

/// What the user asked for on the command line, before any default is applied.
///
/// A field that is `None` was not given; each consumer applies its own default.
#[derive(Debug, Clone, PartialEq, Eq)]
pub struct CsvOptions {
    /// Path of the input, or `None` for standard input.
    pub input_file: Option<String>,
    /// Path of the output, or `None` for standard output.
    pub output_file: Option<String>,
    /// Field delimiter.
    pub delimiter: Option<char>,
    /// Whether the first row of the input names the columns.
    pub input_has_headers: Option<bool>,
    /// Whether a header row is written.
    pub output_headers: Option<bool>,
    /// Quote character.
    pub quote_char: Option<char>,
    /// Escape character.
    pub escape_char: Option<char>,
    /// Whether fields are trimmed while reading.
    pub trim_fields: Option<bool>,
    /// Whether records may differ in width.
    pub flexible: Option<bool>,
    /// Character that starts a comment line.
    pub comment_char: Option<char>,
}

impl CsvOptions {
    /// True when no option is set.
    pub open spec fn is_unset(&self) -> bool {
        &&& self.input_file is None
        &&& self.output_file is None
        &&& self.delimiter is None
        &&& self.input_has_headers is None
        &&& self.output_headers is None
        &&& self.quote_char is None
        &&& self.escape_char is None
        &&& self.trim_fields is None
        &&& self.flexible is None
        &&& self.comment_char is None
    }

    /// Options with nothing set.
    pub fn new() -> (options: Self)
        ensures
            options.is_unset(),
    {
        CsvOptions {
            input_file: None,
            output_file: None,
            delimiter: None,
            input_has_headers: None,
            output_headers: None,
            quote_char: None,
            escape_char: None,
            trim_fields: None,
            flexible: None,
            comment_char: None,
        }
    }
}

impl Default for CsvOptions {
    fn default() -> (options: Self)
        ensures
            options.is_unset(),
    {
        CsvOptions::new()
    }
}

} // verus!
