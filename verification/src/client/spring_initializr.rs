//! The client of the Spring Initializr service.
use vstd::prelude::*;

verus! {

/// Talks to Spring Initializr: its metadata and the build snippets it
/// generates (the addresses are built by `crate::deps::snippet_url`).
pub struct SpringInitializrClient;

impl SpringInitializrClient {
    pub fn new() -> (r: Self) {
        SpringInitializrClient
    }
}

} // verus!
