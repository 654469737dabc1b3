//! Statistical aggregation of ST records: parsing, classification, and the
//! streaming aggregator with its two-stage finalizer.

pub mod aggregate;
pub mod parse;
