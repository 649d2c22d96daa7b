//! Normalizes the rows of a worksheet extract: decodes loosely typed cells into
//! records, keys the batch by the date of its first valid row, keeps the rows
//! of that date, and encodes them as comma-separated text together with the
//! set of locations they cover.

pub mod cell;
pub mod date;
pub mod encode;
pub mod engine;
pub mod ingest;
pub mod laws;
pub mod read;
pub mod record;
pub mod sql;
