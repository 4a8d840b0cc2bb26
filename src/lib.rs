//! Per-author contribution statistics over a commit history.
//!
//! The library takes a walk of commits, newest first, as plain values: each
//! commit's author, summary, and the classified lines of its diff against its
//! predecessor. It keeps the commits of one author, counts their added and
//! deleted lines outside a set of excluded path prefixes, and folds the
//! records into totals and the largest commit.
pub mod record;
pub mod stats;
pub mod walk;

pub use record::{Commit, DiffLine, LineKind};
pub use stats::{History, Stats};
pub use walk::{Opts, Revision};
