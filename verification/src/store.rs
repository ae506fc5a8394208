//! What is recorded of the builds that were watched.

use vstd::prelude::*;

verus! {

/// A project that was built, and when.
pub struct Project {
    pub path: String,
    pub target_dir: String,
    /// Seconds since the epoch.
    pub last_used: i64,
}

} // verus!
