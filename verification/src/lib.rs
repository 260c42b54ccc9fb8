//! Verified core of a source-history benchmarking harness.
//!
//! The library resolves target dates to revisions of a version-controlled
//! tree, plans instrumented job commands, decodes the resource-accounting
//! tool's text report into structured metrics, and stores runs and per-job
//! results with referential integrity.  All decisions are made here under
//! contract; process spawning, git, and file I/O live outside the library.

pub mod bench;
pub mod cli;
pub mod config;
pub mod database;
pub mod duration;
pub mod error;
pub mod graph;
pub mod numbers;
pub mod report;
pub mod resolver;
pub mod text;
pub mod util;
