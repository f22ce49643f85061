//! Decisions over the package manager's selection database. Running the
//! database tool and capturing its output happen outside the library;
//! the library decides over the parsed selection list.

use vstd::prelude::*;

verus! {

/// Why a selection-database query failed.
#[derive(Debug, Clone, Copy, PartialEq, Eq, Structural)]
pub enum DpkgError {
    /// The database tool could not be run.
    IOError,
    /// The database tool exited with this status.
    DpkgRunError(i32),
    /// The database tool's output was not valid text.
    Utf8Error,
    /// The selection list could not be parsed.
    FailedToQueryDpkgDatabase,
}

/// One selection record: package name and selection state.
#[derive(Debug, Clone)]
pub struct Selection {
    pub name: Vec<u8>,
    pub status: Vec<u8>,
}

/// Whether the selections hold `pkg` with state `hold`: the first record
/// with the package's name decides, and a missing package is not held.
pub open spec fn spec_is_hold(sels: Seq<Selection>, pkg: Seq<u8>) -> bool
    decreases sels.len(),
{
    if sels.len() == 0 {
        false
    } else if sels[0].name@ == pkg {
        sels[0].status@ == seq![104u8, 111u8, 108u8, 100u8]
    } else {
        spec_is_hold(sels.skip(1), pkg)
    }
}

/// Whether a package is held back from upgrades.
pub fn is_hold(pkg: &[u8], selections: &Vec<Selection>) -> (r: bool)
    ensures
        r == spec_is_hold(selections@, pkg@),
{
    let hold: [u8; 4] = [104, 111, 108, 100];
    proof {
        assert(hold@ == seq![104u8, 111u8, 108u8, 100u8]);
    }
    let mut i: usize = 0;
    proof {
        assert(selections@.skip(0) =~= selections@);
    }
    while i < selections.len()
        invariant
            hold@ == seq![104u8, 111u8, 108u8, 100u8],
            i <= selections@.len(),
            spec_is_hold(selections@, pkg@) == spec_is_hold(selections@.skip(i as int), pkg@),
        decreases selections@.len() - i,
    {
        let s = &selections[i];
        proof {
            assert(selections@.skip(i as int)[0] == selections@[i as int]);
            assert(selections@.skip(i as int).skip(1) =~= selections@.skip(i as int + 1));
        }
        if crate::bytes::bytes_eq(s.name.as_slice(), pkg) {
            return crate::bytes::bytes_eq(s.status.as_slice(), &hold);
        }
        i = i + 1;
    }
    proof {
        assert(selections@.skip(i as int) =~= Seq::<Selection>::empty());
    }
    false
}

} // verus!
