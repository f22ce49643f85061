//! Streaming decompression of fetched index artifacts into their
//! canonical bytes.

use vstd::prelude::*;

use crate::inrelease::spec_ext_split;

verus! {

/// The bytes a well-formed gzip stream decodes to, or nothing when the
/// stream is malformed. Decoding depends on the input bytes alone.
pub uninterp spec fn gzip_decoded(data: Seq<u8>) -> Option<Seq<u8>>;

/// The bytes a well-formed xz stream decodes to, or nothing when the
/// stream is malformed. Decoding depends on the input bytes alone.
pub uninterp spec fn xz_decoded(data: Seq<u8>) -> Option<Seq<u8>>;

/// Relies on flate2's `read::GzDecoder`: gzip decoding is deterministic
/// in the input bytes, and a malformed stream fails.
#[verifier::external_body]
fn gzip_decompress(data: &[u8]) -> (r: Option<Vec<u8>>)
    ensures
        match r {
            Some(v) => gzip_decoded(data@) == Some(v@),
            None => gzip_decoded(data@) is None,
        },
{
    let mut out: Vec<u8> = Vec::new();
    match std::io::Read::read_to_end(&mut flate2::read::GzDecoder::new(data), &mut out) {
        Ok(_) => Some(out),
        Err(_) => None,
    }
}

/// Relies on xz2's `read::XzDecoder`: xz decoding is deterministic in
/// the input bytes, and a malformed stream fails.
#[verifier::external_body]
fn xz_decompress(data: &[u8]) -> (r: Option<Vec<u8>>)
    ensures
        match r {
            Some(v) => xz_decoded(data@) == Some(v@),
            None => xz_decoded(data@) is None,
        },
{
    let mut out: Vec<u8> = Vec::new();
    match std::io::Read::read_to_end(&mut xz2::read::XzDecoder::new(data), &mut out) {
        Ok(_) => Some(out),
        Err(_) => None,
    }
}

/// Why decompression failed.
#[derive(Debug, Clone, Copy, PartialEq, Eq, Structural)]
pub enum DecompressError {
    /// The compressed stream could not be read to its end.
    IOError,
    /// The artifact's extension names no supported compression.
    UnsupportedFileType,
}

/// A decompressor chosen from an artifact's file extension.
#[derive(Debug, Clone)]
pub enum OmaDecompresser {
    /// A gzip artifact, with its path.
    Gz(Vec<u8>),
    /// An xz artifact, with its path.
    Xz(Vec<u8>),
    /// The artifact is already in its canonical form.
    NoNeedtoDecompress,
}

/// The `gz` extension.
pub open spec fn ext_gz() -> Seq<u8> {
    seq![103u8, 122u8]
}

/// The `xz` extension.
pub open spec fn ext_xz() -> Seq<u8> {
    seq![120u8, 122u8]
}

impl OmaDecompresser {
    /// Choose a decompressor by the path's extension: `gz` and `xz` are
    /// handled here, anything else passes through.
    pub fn new(compress_file_path: Vec<u8>) -> (r: OmaDecompresser)
        ensures
            spec_ext_split(compress_file_path@).0 == ext_gz() ==> (r matches OmaDecompresser::Gz(
                p,
            ) && p@ == compress_file_path@),
            spec_ext_split(compress_file_path@).0 == ext_xz() ==> (r matches OmaDecompresser::Xz(
                p,
            ) && p@ == compress_file_path@),
            spec_ext_split(compress_file_path@).0 != ext_gz() && spec_ext_split(
                compress_file_path@,
            ).0 != ext_xz() ==> r is NoNeedtoDecompress,
    {
        let (ext, _name) = crate::inrelease::split_ext_and_filename(compress_file_path.as_slice());
        let gz: [u8; 2] = [103, 122];
        let xz: [u8; 2] = [120, 122];
        proof {
            assert(gz@ == ext_gz());
            assert(xz@ == ext_xz());
        }
        if crate::bytes::bytes_eq(ext.as_slice(), &gz) {
            OmaDecompresser::Gz(compress_file_path)
        } else if crate::bytes::bytes_eq(ext.as_slice(), &xz) {
            OmaDecompresser::Xz(compress_file_path)
        } else {
            OmaDecompresser::NoNeedtoDecompress
        }
    }

    /// Decompress a fetched artifact. A gzip or xz artifact yields its
    /// decoded bytes, or `IOError` when the stream is malformed; an
    /// artifact that needs no decompression passes through unchanged.
    pub fn decompress(&self, data: &[u8]) -> (r: Result<Vec<u8>, DecompressError>)
        ensures
            match self {
                OmaDecompresser::Gz(_) => match gzip_decoded(data@) {
                    Some(v) => r matches Ok(out) && out@ == v,
                    None => r == Err::<Vec<u8>, _>(DecompressError::IOError),
                },
                OmaDecompresser::Xz(_) => match xz_decoded(data@) {
                    Some(v) => r matches Ok(out) && out@ == v,
                    None => r == Err::<Vec<u8>, _>(DecompressError::IOError),
                },
                OmaDecompresser::NoNeedtoDecompress => r matches Ok(out) && out@ == data@,
            },
    {
        match self {
            OmaDecompresser::Gz(_) => match gzip_decompress(data) {
                Some(v) => Ok(v),
                None => Err(DecompressError::IOError),
            },
            OmaDecompresser::Xz(_) => match xz_decompress(data) {
                Some(v) => Ok(v),
                None => Err(DecompressError::IOError),
            },
            OmaDecompresser::NoNeedtoDecompress => {
                let out = crate::bytes::subvec(data, 0, data.len());
                proof {
                    assert(out@ =~= data@);
                }
                Ok(out)
            },
        }
    }
}

} // verus!
