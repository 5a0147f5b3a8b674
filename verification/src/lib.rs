//! A rule-driven directory cleaner.
//!
//! The library walks a snapshot of a directory tree, decides for every entry
//! whether an active ignore-rule scope marks it for removal, and produces a
//! plan of deletions, report lines and error notes.  Rule files are scoped per
//! directory: a nested rule file fully replaces the inherited scope for its
//! subtree.  Reading the filesystem and executing the plan are left to the
//! caller; the decisions themselves are verified.

use vstd::prelude::*;

pub mod clean;
pub mod filter;
pub mod walk;
pub mod fs_model;
pub mod fs_model_props;
pub mod laws;
pub mod human;
pub mod plan;
pub mod rules;

pub use clean::CleanError;
pub use clean::CleanResult;
pub use clean::Cleaner;
pub use fs_model::DirTree;
pub use fs_model::EntryKind;
pub use fs_model::FsEntry;
pub use fs_model::RuleSource;
pub use plan::DeleteCmd;
pub use plan::Note;
pub use plan::NoteKind;
pub use plan::Outcome;
pub use plan::Plan;
pub use plan::ReportLine;

verus! {

/// The command-line surface the program accepts, as plain values.
pub struct Args {
    /// Root path to clean from.
    pub path: String,
    /// Enable deletion (otherwise the run is a dry run).
    pub delete: bool,
    /// Suppress per-entry listing output.
    pub quiet: bool,
    /// Downgrade directory-listing failures from fatal to reported-and-skip.
    pub ignore_errors: bool,
    /// Do not descend into directories that carry their own rule file.
    pub skip_nested: bool,
    /// Absolute-path regular expressions that force-exclude matches.
    pub skip_patterns: Option<Vec<String>>,
    /// Measure each removed entry and report a running total.
    pub calculate_size: bool,
}

} // verus!
