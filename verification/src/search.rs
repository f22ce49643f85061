//! Package-search result types and their display ordering.

use vstd::prelude::*;

verus! {

/// The install state a search result is shown with.
#[derive(Debug, Clone, Copy, PartialEq, Eq, Structural)]
pub enum PackageStatus {
    Avail,
    Installed,
    Upgrade,
}

/// The display order of a status: installed packages sort first, then
/// merely available ones, then pending upgrades.
pub open spec fn status_rank(s: PackageStatus) -> int {
    match s {
        PackageStatus::Installed => 0,
        PackageStatus::Avail => 1,
        PackageStatus::Upgrade => 2,
    }
}

impl PackageStatus {
    /// The display order, as a number.
    pub fn rank(&self) -> (r: u8)
        ensures
            r == status_rank(*self),
    {
        match self {
            PackageStatus::Installed => 0,
            PackageStatus::Avail => 1,
            PackageStatus::Upgrade => 2,
        }
    }
}

impl PartialOrd for PackageStatus {
    fn partial_cmp(&self, other: &PackageStatus) -> (r: Option<core::cmp::Ordering>) {
        let a = self.rank();
        let b = other.rank();
        if a < b {
            Some(core::cmp::Ordering::Less)
        } else if a == b {
            Some(core::cmp::Ordering::Equal)
        } else {
            Some(core::cmp::Ordering::Greater)
        }
    }
}

impl vstd::std_specs::cmp::PartialOrdSpecImpl for PackageStatus {
    open spec fn obeys_partial_cmp_spec() -> bool {
        true
    }

    open spec fn partial_cmp_spec(&self, other: &PackageStatus) -> Option<core::cmp::Ordering> {
        if status_rank(*self) < status_rank(*other) {
            Some(core::cmp::Ordering::Less)
        } else if status_rank(*self) == status_rank(*other) {
            Some(core::cmp::Ordering::Equal)
        } else {
            Some(core::cmp::Ordering::Greater)
        }
    }
}

/// One search hit, ready for display.
#[derive(Debug, Clone)]
pub struct SearchResult {
    pub name: String,
    pub desc: String,
    pub old_version: Option<String>,
    pub new_version: String,
    pub full_match: bool,
    pub dbg_package: bool,
    pub status: PackageStatus,
    pub is_base: bool,
}

} // verus!
