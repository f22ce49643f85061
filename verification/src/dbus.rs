//! The status the program publishes over the message bus, and the state
//! machine behind it. The bus connection itself lives outside the
//! library.

use vstd::prelude::*;

use crate::bytes::{seq_starts_with, starts_with, subvec};

verus! {

/// What the program is doing right now.
#[derive(Debug, Clone, PartialEq, Eq)]
pub enum Status {
    Pending,
    Downloading,
    Working(Vec<u8>),
}

/// The bus-facing status holder.
#[derive(Debug, Clone)]
pub struct OmaBus {
    pub status: Status,
}

/// The `i ` marker that announces a package being worked on.
pub open spec fn working_marker() -> Seq<u8> {
    seq![105u8, 32u8]
}

impl OmaBus {
    /// The published status line: `Pending`, `Downloading`, or
    /// `Processing package ` followed by the package name.
    pub fn get_status(&self) -> (r: Vec<u8>)
        ensures
            match self.status {
                Status::Pending => r@ == seq![80u8, 101u8, 110u8, 100u8, 105u8, 110u8, 103u8],
                Status::Downloading => r@ == seq![
                    68u8,
                    111u8,
                    119u8,
                    110u8,
                    108u8,
                    111u8,
                    97u8,
                    100u8,
                    105u8,
                    110u8,
                    103u8,
                ],
                Status::Working(ref pkg) => r@ == seq![
                    80u8,
                    114u8,
                    111u8,
                    99u8,
                    101u8,
                    115u8,
                    115u8,
                    105u8,
                    110u8,
                    103u8,
                    32u8,
                    112u8,
                    97u8,
                    99u8,
                    107u8,
                    97u8,
                    103u8,
                    101u8,
                    32u8,
                ] + pkg@,
            },
    {
        match &self.status {
            Status::Pending => {
                let v: Vec<u8> = vec![80, 101, 110, 100, 105, 110, 103];
                proof {
                    assert(v@ =~= seq![80u8, 101u8, 110u8, 100u8, 105u8, 110u8, 103u8]);
                }
                v
            },
            Status::Downloading => {
                let v: Vec<u8> = vec![68, 111, 119, 110, 108, 111, 97, 100, 105, 110, 103];
                proof {
                    assert(v@ =~= seq![
                        68u8,
                        111u8,
                        119u8,
                        110u8,
                        108u8,
                        111u8,
                        97u8,
                        100u8,
                        105u8,
                        110u8,
                        103u8,
                    ]);
                }
                v
            },
            Status::Working(pkg) => {
                let mut v: Vec<u8> = vec![
                    80, 114, 111, 99, 101, 115, 115, 105, 110, 103, 32, 112, 97, 99, 107, 97, 103,
                    101, 32,
                ];
                v.extend_from_slice(pkg.as_slice());
                proof {
                    assert(v@ =~= seq![
                        80u8,
                        114u8,
                        111u8,
                        99u8,
                        101u8,
                        115u8,
                        115u8,
                        105u8,
                        110u8,
                        103u8,
                        32u8,
                        112u8,
                        97u8,
                        99u8,
                        107u8,
                        97u8,
                        103u8,
                        101u8,
                        32u8,
                    ] + pkg@);
                }
                v
            },
        }
    }

    /// Apply a status message: `pending` and `Downloading` switch to the
    /// matching state, `i <package>` records the package being worked
    /// on, and anything else is ignored.
    pub fn change_status(&mut self, status: &[u8])
        ensures
            status@ == seq![112u8, 101u8, 110u8, 100u8, 105u8, 110u8, 103u8] ==> final(self).status
                == Status::Pending,
            status@ == seq![
                68u8,
                111u8,
                119u8,
                110u8,
                108u8,
                111u8,
                97u8,
                100u8,
                105u8,
                110u8,
                103u8,
            ] ==> final(self).status == Status::Downloading,
            status@ != seq![112u8, 101u8, 110u8, 100u8, 105u8, 110u8, 103u8] && status@ != seq![
                68u8,
                111u8,
                119u8,
                110u8,
                108u8,
                111u8,
                97u8,
                100u8,
                105u8,
                110u8,
                103u8,
            ] && seq_starts_with(status@, working_marker()) ==> (
            final(self).status matches Status::Working(p) && p@ == status@.skip(2)),
            status@ != seq![112u8, 101u8, 110u8, 100u8, 105u8, 110u8, 103u8] && status@ != seq![
                68u8,
                111u8,
                119u8,
                110u8,
                108u8,
                111u8,
                97u8,
                100u8,
                105u8,
                110u8,
                103u8,
            ] && !seq_starts_with(status@, working_marker()) ==> final(self).status == old(self).status,
    {
        let pending: [u8; 7] = [112, 101, 110, 100, 105, 110, 103];
        let downloading: [u8; 11] = [68, 111, 119, 110, 108, 111, 97, 100, 105, 110, 103];
        let marker: [u8; 2] = [105, 32];
        proof {
            assert(pending@ == seq![112u8, 101u8, 110u8, 100u8, 105u8, 110u8, 103u8]);
            assert(downloading@ == seq![
                68u8,
                111u8,
                119u8,
                110u8,
                108u8,
                111u8,
                97u8,
                100u8,
                105u8,
                110u8,
                103u8,
            ]);
            assert(marker@ == working_marker());
        }
        if crate::bytes::bytes_eq(status, &pending) {
            self.status = Status::Pending;
        } else if crate::bytes::bytes_eq(status, &downloading) {
            self.status = Status::Downloading;
        } else if starts_with(status, &marker) {
            let pkg = subvec(status, 2, status.len());
            proof {
                assert(pkg@ =~= status@.skip(2));
            }
            self.status = Status::Working(pkg);
        }
    }
}

} // verus!
