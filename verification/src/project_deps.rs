//! Listing the dependencies a project has.
use vstd::prelude::*;

verus! {

/// Arguments of the `deps` command (it takes none).
pub struct ProjectDepsArgs {}

} // verus!
