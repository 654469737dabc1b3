//! Aggregation engine for ST requisition records.
//!
//! The crate takes the decoded lines of a comma-separated export, splits each
//! line into fields with a character-level tokenizer, resolves the column
//! schema from a configured header description, decodes typed records,
//! classifies stores into brands via configured inclusive-range tables, and
//! folds the record stream into three summary maps (per material, per store,
//! per brand) with temporal extrema computed in a second pass.
//!
//! Quantities and amounts are fixed-point decimals held in integers (see
//! [`num::SCALE`]); dates are day numbers in the proleptic Gregorian
//! calendar, with January 1 of year 1 as day 1.

pub mod convert;
pub mod error;
pub mod iter;
pub mod num;
pub mod reader;
pub mod st;

pub use crate::error::{Error, ErrorKind, Result};
pub use crate::reader::{CsvReader, CsvReaderOptions};
