//! Core logic of an NDJSON log viewer: log entries, filtering, expansion of
//! multi-line messages, selection and scrolling over rows of varying height,
//! key handling, and the text that the table and the filter bar show.

pub mod text;
pub mod level;
pub mod log_entry;
pub mod model;
pub mod scroll;
pub mod app;
pub mod input;
pub mod widgets;
