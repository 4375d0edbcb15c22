//! What the module store reports for an installed module.

use vstd::prelude::*;

use crate::modules::spec::ModuleSpec;

verus! {

/// An installed module: its definition, how many titles it holds, and when
/// it was installed and last updated (seconds since the Unix epoch).
#[derive(Debug, PartialEq, Eq)]
pub struct InstalledModule {
    pub spec: ModuleSpec,
    pub member_count: u64,
    pub installed_at: i64,
    pub updated_at: i64,
}

} // verus!
