//! Topic (testing-branch) metadata, as plain values. Fetching, JSON
//! handling and the sources-list rewrite happen outside the library.

use vstd::prelude::*;

verus! {

/// One topic of the distribution: an opt-in testing branch.
#[derive(Debug, Clone)]
pub struct Topic {
    pub name: String,
    pub description: Option<String>,
    pub date: u64,
    pub update_date: Option<u64>,
    pub arch: Option<Vec<String>>,
    pub packages: Vec<String>,
}

} // verus!
