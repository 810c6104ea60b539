//! Verified core of a benchmarking pipeline.
//!
//! The library covers the parts of the pipeline that carry data and
//! invariants: recording timed operations row by row, orchestrating a
//! catalogue of operations, naming and listing archived run artifacts,
//! aggregating historical runs into per-label means, and aligning two
//! aggregate summaries for comparison.  The operations themselves (file,
//! git, docker, download, build) are external collaborators; the library
//! holds their configuration and the computations around them, while the
//! surrounding application performs the actual processes and I/O.

pub mod aggregate;
pub mod archive;
pub mod build_run_operations;
pub mod compare;
pub mod config;
pub mod csv_writer;
pub mod docker_operations;
pub mod download_operations;
pub mod file_operations;
pub mod git_operations;
pub mod orchestrator;
pub mod record;
pub mod text;
pub mod vscode;
