//! Counts log entries whose severity level equals `"ERROR"` in
//! comma-separated log exports.
//!
//! The input format is delimited text: a header line naming the columns
//! `timestamp,level,message,response_time_ms`, followed by data rows in the
//! same column order. Lines are separated by `\n` and fields by `,`.
//!
//! The crate decodes each data row into a [`record::LogRecord`], counts the
//! rows whose `level` field is exactly `"ERROR"` (case-sensitive), and
//! reports one outcome per input. Two decode-failure policies are offered:
//! strict mode (the default), where the first malformed row aborts that
//! file's count, and lenient mode, where malformed rows are skipped.
//!
//! Reading files and presenting results belong to the caller; the library
//! works on the bytes of a file's contents.

pub mod batch;
pub mod count;
pub mod laws;
pub mod parse;
pub mod record;
