//! Deduplication and exclusion filtering of CSV records keyed by an
//! email column.
pub mod key;
pub mod key_set;
pub mod error;
pub mod table;
pub mod filter;
pub mod run;
pub mod laws;
