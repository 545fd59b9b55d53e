//! A problem as the browser extension describes it.
use vstd::prelude::*;

verus! {

/// One example test: what goes in and what should come out.
pub struct TestCase {
    pub input: String,
    pub output: String,
}

/// A problem received from the browser extension.
pub struct Problem {
    pub name: String,
    pub group: String,
    pub url: String,
    pub tests: Vec<TestCase>,
    /// In milliseconds.
    pub time_limit: u64,
    /// In megabytes.
    pub memory_limit: u64,
}

} // verus!
