//! The persisted configuration: where merger runs are read from, where
//! synchronized runs are written, and the inclusive run-number range to
//! process.

use vstd::prelude::*;

verus! {

/// A synchronization job: input root, output root, and the inclusive
/// range of run numbers to process.  Runs missing inside the range are
/// skipped, not errors.
#[derive(Debug, Clone)]
pub struct Config {
    pub merger_path: String,
    pub sync_path: String,
    pub min_run: i32,
    pub max_run: i32,
}

impl Default for Config {
    /// An empty template configuration: both paths empty, a run range
    /// holding only run 0.
    fn default() -> (c: Config)
        ensures
            c.merger_path@ =~= Seq::<char>::empty(),
            c.sync_path@ =~= Seq::<char>::empty(),
            c.min_run == 0,
            c.max_run == 0,
    {
        Config { merger_path: String::new(), sync_path: String::new(), min_run: 0, max_run: 0 }
    }
}

} // verus!
