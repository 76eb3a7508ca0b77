//! Incremental ingestion of append-oriented CSV files into a deduplicated
//! ledger: change detection by fingerprint, resumable parsing from an anchor
//! row, and the rules that make repeated polling idempotent.
//!
//! A cycle for one path compares the file's fingerprint with the stored
//! watermark ([`cycle::is_unchanged`]), reads what is new from the resume
//! point ([`cycle::ingest`], [`reader::read_incremental`]), hands the records
//! to the store and then moves the watermark ([`cycle::next_file_state`]).
//! [`cycle::run_cycle`] does all of it against a [`state::Ledger`] in memory.

pub mod config;
pub mod cycle;
pub mod digest;
pub mod encoding;
pub mod laws;
pub mod meta;
pub mod reader;
pub mod state;
pub mod text;
pub mod tokens;
