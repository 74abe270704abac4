//! Column selection and streaming column statistics for tabular text.
//!
//! The crate works on rows that are already split into fields. It turns
//! column selectors (`3`, `-1`, `2-4`, `name`) into field indices, projects
//! records onto the selected columns, and accumulates per-column statistics.
//!
//! - `csvutil`: the header row, selectors and their resolution, projection.
//! - `csvcut`, `table`: cutting columns out of a table held in memory.
//! - `csvstat`, `report`: the statistics of a column and their report.
//! - `args`, `options`: from command-line values to options.
//! - `error`: what can go wrong and the message of each failure.
//! - `number`, `text`: decimal numbers and texts.
//! - `counts`, `queue`: the two collections that the statistics rest on.
//! - `selector_laws`, `stat_laws`: what holds for every input.

pub mod args;
pub mod counts;
pub mod csvcut;
pub mod csvstat;
pub mod csvutil;
pub mod error;
pub mod number;
pub mod options;
pub mod queue;
pub mod report;
pub mod selector_laws;
pub mod stat_laws;
pub mod table;
pub mod text;
