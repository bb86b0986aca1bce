//! Benchmark orchestration for sweeping revisions of a target project.
//!
//! The crate holds the decisions of a benchmark sweep: which combination of
//! revision, input file and execution mode comes next, which command line a
//! revision accepts, when a process is killed, how the captured output is
//! read, and how the results are stored and laid out. Running processes and
//! touching the disk is left to the caller, who reports back what happened.
//!
//! - [`bencher`] drives a sweep, [`sweep`] says what holds of every sweep;
//! - [`command`] builds command lines and names cached artifacts;
//! - [`runner`] runs one process under a deadline;
//! - [`metrics`] reads the metrics that a run prints;
//! - [`csv`] stores results and reads them back;
//! - [`pretty`] lays results out as a table, [`reporter`] words progress;
//! - [`discover`] finds files and revisions where none are named;
//! - [`mode`], [`types`] and [`error`] hold the data;
//! - [`number`] and [`text`] read and write numbers and characters.

pub mod bencher;
pub mod command;
pub mod csv;
pub mod discover;
pub mod error;
pub mod metrics;
pub mod mode;
pub mod number;
pub mod pretty;
pub mod reporter;
pub mod runner;
pub mod sweep;
pub mod text;
pub mod types;
