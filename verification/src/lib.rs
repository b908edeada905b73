//! Conversion of bank-issued creditcard transaction exports (CSV with
//! localized column names) into the column layout a personal-finance tool
//! imports: a subset of the source columns is selected, renamed, and an
//! optional derived memo field is composed from several source fields.
//!
//! The crate holds the verified core: the row mapper, the batch converter
//! with its bounded error accumulator, the CSV record codec, and the
//! output-path resolution rule.

pub mod strutil;
pub mod row;
pub mod mapping;
pub mod csvline;
pub mod batch;
pub mod outpath;
