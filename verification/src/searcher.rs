//! Pure helpers of the package-content search: result-line shaping and
//! compressed-file magic checks. The search itself (directory walks,
//! decompression streams, external tools) lives outside the library.

use vstd::prelude::*;

use crate::bytes::seq_starts_with;

verus! {

/// What a content search asks for.
#[derive(Debug, Clone, Copy, PartialEq, Eq, Structural)]
pub enum Mode {
    /// Which package provides a file.
    Provides,
    /// Which files a package ships.
    Files,
    /// Which package provides a binary.
    BinProvides,
    /// Which binaries a package ships.
    BinFiles,
}

impl Mode {
    /// Whether the mode lists a package's own files.
    pub fn is_list(&self) -> (r: bool)
        ensures
            r == (self is Files || self is BinFiles),
    {
        match self {
            Mode::Files => true,
            Mode::BinFiles => true,
            _ => false,
        }
    }

    /// Whether the mode restricts results to binaries.
    pub fn bin_only(&self) -> (r: bool)
        ensures
            r == (self is BinProvides || self is BinFiles),
    {
        match self {
            Mode::BinProvides => true,
            Mode::BinFiles => true,
            _ => false,
        }
    }
}

/// Whether a file begins with the four magic bytes of its claimed
/// compression format.
pub fn check_file_magic_4bytes(buf: [u8; 4], magic: &[u8]) -> (r: bool)
    ensures
        r == (buf@ == magic@),
{
    crate::bytes::bytes_eq(&buf, magic)
}

/// A result path shown with a leading slash: one is added exactly when
/// it is missing.
pub fn prefix(s: &[u8]) -> (r: Vec<u8>)
    ensures
        s@.len() > 0 && s@[0] == 47 ==> r@ == s@,
        !(s@.len() > 0 && s@[0] == 47) ==> r@ == seq![47u8] + s@,
{
    if s.len() > 0 && s[0] == 47 {
        let r = crate::bytes::subvec(s, 0, s.len());
        proof {
            assert(r@ =~= s@);
        }
        r
    } else {
        let mut r: Vec<u8> = Vec::new();
        r.push(47);
        r.extend_from_slice(s);
        proof {
            assert(r@ =~= seq![47u8] + s@);
        }
        r
    }
}

/// The prefix under which binaries live.
pub fn bin_prefix() -> (r: Vec<u8>)
    ensures
        r@ == seq![117u8, 115u8, 114u8, 47u8, 98u8, 105u8, 110u8],
{
    let v: Vec<u8> = vec![117, 115, 114, 47, 98, 105, 110];
    proof {
        assert(v@ =~= seq![117u8, 115u8, 114u8, 47u8, 98u8, 105u8, 110u8]);
    }
    v
}

/// Whether one search hit passes the mode's filter: a listing mode wants
/// the package name to equal the query, a providing mode wants the file
/// to be relevant, and the binary modes additionally demand the binary
/// prefix on the file path.
pub fn hit_passes(mode: Mode, pkg: &[u8], file: &[u8], query: &[u8]) -> (r: bool)
    ensures
        r == ({
            let name_ok = if mode is Files || mode is BinFiles {
                pkg@ == query@
            } else {
                true
            };
            let bin_ok = if mode is BinProvides || mode is BinFiles {
                seq_starts_with(file@, seq![117u8, 115u8, 114u8, 47u8, 98u8, 105u8, 110u8])
            } else {
                true
            };
            name_ok && bin_ok
        }),
{
    let name_ok = if mode.is_list() {
        crate::bytes::bytes_eq(pkg, query)
    } else {
        true
    };
    let bp = bin_prefix();
    let bin_ok = if mode.bin_only() {
        crate::bytes::starts_with(file, bp.as_slice())
    } else {
        true
    };
    name_ok && bin_ok
}

} // verus!
