//! Upgrading the command-line tool itself.
use vstd::prelude::*;

verus! {

/// Arguments of the `upgrade` command (it takes none).
pub struct UpgradeArgs {}

} // verus!
