//! Digest handling: expected checksums parsed from hex, and an
//! incremental validator for streamed downloads.

use vstd::prelude::*;

use crate::bytes::is_digit;

#[allow(unused_imports)]
use sha2::Digest;

verus! {

/// The SHA-256 digest of a byte string. The digest itself is computed by
/// an outside library; contracts only ever compare digests through this
/// name.
pub uninterp spec fn sha256_of(data: Seq<u8>) -> Seq<u8>;

/// Relies on `sha2::Sha256` (RustCrypto): the digest depends on the input
/// bytes alone and is exactly 32 bytes long.
#[verifier::external_body]
fn sha256_digest(data: &[u8]) -> (r: Vec<u8>)
    ensures
        r@ == sha256_of(data@),
        r@.len() == 32,
{
    sha2::Sha256::digest(data).to_vec()
}

/// Whether a byte is an ASCII hexadecimal digit (either case).
pub open spec fn is_hex_digit(b: u8) -> bool {
    is_digit(b) || (97 <= b <= 102) || (65 <= b <= 70)
}

/// Numeric value of one hexadecimal digit.
pub open spec fn hex_val(b: u8) -> u8 {
    if is_digit(b) {
        (b - 48) as u8
    } else if 97 <= b <= 102 {
        (b - 87) as u8
    } else if 65 <= b <= 70 {
        (b - 55) as u8
    } else {
        0
    }
}

/// The bytes encoded by a hexadecimal string (two digits per byte).
pub open spec fn hex_decoded(s: Seq<u8>) -> Seq<u8> {
    Seq::new(s.len() / 2, |i: int| (hex_val(s[2 * i]) * 16 + hex_val(s[2 * i + 1])) as u8)
}

/// Why a checksum string was rejected.
#[derive(Debug, Clone, Copy, PartialEq, Eq, Structural)]
pub enum ChecksumError {
    /// The string does not have the length of a SHA-256 hex digest.
    BadLength,
    /// The string holds a byte that is not a hexadecimal digit.
    HexError,
}

/// An expected SHA-256 digest, as raw bytes.
#[derive(Debug, Clone, PartialEq, Eq)]
pub struct Checksum {
    digest: Vec<u8>,
}

/// Incremental digest check: buffers the streamed bytes and compares
/// their digest against the expected one when finished.
#[derive(Debug)]
pub struct ChecksumValidator {
    expected: Vec<u8>,
    buf: Vec<u8>,
}

impl Checksum {
    /// The expected digest as raw bytes.
    pub closed spec fn spec_digest(&self) -> Seq<u8> {
        self.digest@
    }

    /// A checksum is well formed when its digest has SHA-256 size.
    pub open spec fn wf(&self) -> bool {
        self.spec_digest().len() == 32
    }

    /// Parse a 64-digit hexadecimal SHA-256 digest.
    /// Returns `BadLength` when the length is not 64 and `HexError` when a
    /// byte is not a hexadecimal digit; succeeds exactly otherwise.
    pub fn from_sha256_str(s: &[u8]) -> (r: Result<Checksum, ChecksumError>)
        ensures
            match r {
                Ok(c) => s@.len() == 64 && (forall|j: int|
                    0 <= j < s@.len() ==> is_hex_digit(s@[j])) && c.spec_digest() == hex_decoded(
                    s@,
                ) && c.wf(),
                Err(ChecksumError::BadLength) => s@.len() != 64,
                Err(ChecksumError::HexError) => s@.len() == 64 && exists|j: int|
                    0 <= j < s@.len() && !is_hex_digit(s@[j]),
            },
    {
        if s.len() != 64 {
            return Err(ChecksumError::BadLength);
        }
        let mut out: Vec<u8> = Vec::new();
        let mut i: usize = 0;
        while i < 32
            invariant
                s@.len() == 64,
                i <= 32,
                forall|j: int| 0 <= j < 2 * i ==> is_hex_digit(s@[j]),
                out@ =~= hex_decoded(s@).take(i as int),
            decreases 32 - i,
        {
            let hi = s[2 * i];
            let lo = s[2 * i + 1];
            let hv = match hex_digit_value(hi) {
                Some(v) => v,
                None => {
                    return Err(ChecksumError::HexError);
                },
            };
            let lv = match hex_digit_value(lo) {
                Some(v) => v,
                None => {
                    return Err(ChecksumError::HexError);
                },
            };
            out.push(hv * 16 + lv);
            proof {
                assert(hex_decoded(s@).take(i + 1) =~= hex_decoded(s@).take(i as int).push(
                    hex_decoded(s@)[i as int],
                ));
            }
            i = i + 1;
        }
        proof {
            assert(hex_decoded(s@).take(32) =~= hex_decoded(s@));
        }
        Ok(Checksum { digest: out })
    }

    /// Whether `data` has this expected digest.
    pub fn matches_data(&self, data: &[u8]) -> (r: bool)
        ensures
            r == (sha256_of(data@) == self.spec_digest()),
    {
        let d = sha256_digest(data);
        crate::bytes::bytes_eq(d.as_slice(), self.digest.as_slice())
    }

    /// A fresh validator expecting this digest, with nothing fed yet.
    pub fn get_validator(&self) -> (v: ChecksumValidator)
        ensures
            v.seen() == Seq::<u8>::empty(),
            v.spec_expected() == self.spec_digest(),
    {
        ChecksumValidator { expected: self.digest.clone(), buf: Vec::new() }
    }
}

impl ChecksumValidator {
    /// The bytes fed so far.
    pub closed spec fn seen(&self) -> Seq<u8> {
        self.buf@
    }

    /// The digest this validator compares against.
    pub closed spec fn spec_expected(&self) -> Seq<u8> {
        self.expected@
    }

    /// Feed one chunk of the stream.
    pub fn update(&mut self, chunk: &[u8])
        ensures
            final(self).seen() == old(self).seen() + chunk@,
            final(self).spec_expected() == old(self).spec_expected(),
    {
        self.buf.extend_from_slice(chunk);
    }

    /// Whether the bytes fed so far have the expected digest.
    pub fn finish(&self) -> (r: bool)
        ensures
            r == (sha256_of(self.seen()) == self.spec_expected()),
    {
        let d = sha256_digest(self.buf.as_slice());
        crate::bytes::bytes_eq(d.as_slice(), self.expected.as_slice())
    }
}

/// Value of one hexadecimal digit byte, if it is one.
pub fn hex_digit_value(b: u8) -> (r: Option<u8>)
    ensures
        match r {
            Some(v) => is_hex_digit(b) && v == hex_val(b) && v < 16,
            None => !is_hex_digit(b),
        },
{
    if 48 <= b && b <= 57 {
        Some(b - 48)
    } else if 97 <= b && b <= 102 {
        Some(b - 87)
    } else if 65 <= b && b <= 70 {
        Some(b - 55)
    } else {
        None
    }
}

} // verus!
