//! Verified core of a small catalog downloader: selection-expression
//! parsing, filename sanitization, download bookkeeping and batch
//! reporting. All I/O lives outside this crate.

pub mod cli;
pub mod config;
pub mod download;
pub mod response;
pub mod selection;
pub mod text;
