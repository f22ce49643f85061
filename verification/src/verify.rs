//! The trust gate over signed repository metadata: classification of the
//! signature verifier's findings, and resolution of the certificate set
//! the verifier is to use.
//!
//! The cryptographic work itself is done by an OpenPGP library outside
//! this crate; what is verified here is every decision taken on its
//! findings.

use vstd::prelude::*;

use crate::bytes::{
    ends_with, replace_all, seq_ends_with, seq_starts_with, spec_replace, spec_trim, starts_with,
    subvec, trim_ascii,
};

verus! {

/// Why the signature verifier could not produce a verdict.
#[derive(Debug, Clone)]
pub enum VerifyError {
    /// A certificate file could not be parsed; carries its path.
    CertParseFileError(String),
    /// A certificate file holds a bad certificate; carries its path.
    BadCertFile(String),
    /// The trusted-keyring directory does not exist.
    TrustedDirNotExist,
    /// The verified plaintext could not be read back; carries the cause.
    FailedToReadInRelease(String),
    /// Any other failure reported by the OpenPGP library.
    Anyhow(String),
}

/// What the OpenPGP library reported for one layer of the message.
#[derive(Debug, Clone, Copy, PartialEq, Eq, Structural)]
pub enum SignatureCheck {
    /// A signature verified against a resolved certificate.
    Good,
    /// A signature whose key is not in the resolved certificate set.
    MissingKey,
    /// A signature that failed verification for any other reason.
    BadSignature,
    /// A message layer that is not a signature group at all.
    NotSignatureLayer,
}

/// The classified outcome of signature verification.
#[derive(Debug, Clone, Copy, PartialEq, Eq, Structural)]
pub enum SignatureVerdict {
    /// At least one signature verified and none failed: use the plaintext.
    Accept,
    /// Some signature-group failure other than a missing key.
    BadSignature,
    /// Every failure across all signatures was a missing key, and nothing
    /// verified.
    MissingKey,
    /// The message structure is not a cleartext-signed document.
    Malformed,
}

/// The classification the verdict must follow: a malformed layer is a
/// protocol error whatever else was seen; any other signature failure
/// rejects the document; otherwise one good signature accepts it; failing
/// that, only missing keys were seen. An empty report is malformed.
pub open spec fn spec_classify(results: Seq<SignatureCheck>) -> SignatureVerdict {
    if exists|i: int| 0 <= i < results.len() && results[i] == SignatureCheck::NotSignatureLayer {
        SignatureVerdict::Malformed
    } else if exists|i: int| 0 <= i < results.len() && results[i] == SignatureCheck::BadSignature {
        SignatureVerdict::BadSignature
    } else if exists|i: int| 0 <= i < results.len() && results[i] == SignatureCheck::Good {
        SignatureVerdict::Accept
    } else if exists|i: int| 0 <= i < results.len() && results[i] == SignatureCheck::MissingKey {
        SignatureVerdict::MissingKey
    } else {
        SignatureVerdict::Malformed
    }
}

/// Classify the per-signature findings of the OpenPGP library.
pub fn classify_signature_results(results: &Vec<SignatureCheck>) -> (r: SignatureVerdict)
    ensures
        r == spec_classify(results@),
{
    let mut has_nsl = false;
    let mut has_bad = false;
    let mut has_good = false;
    let mut has_missing = false;
    let mut i: usize = 0;
    while i < results.len()
        invariant
            i <= results.len(),
            has_nsl == exists|j: int|
                0 <= j < i && results@[j] == SignatureCheck::NotSignatureLayer,
            has_bad == exists|j: int| 0 <= j < i && results@[j] == SignatureCheck::BadSignature,
            has_good == exists|j: int| 0 <= j < i && results@[j] == SignatureCheck::Good,
            has_missing == exists|j: int| 0 <= j < i && results@[j] == SignatureCheck::MissingKey,
        decreases results.len() - i,
    {
        match results[i] {
            SignatureCheck::NotSignatureLayer => {
                has_nsl = true;
            },
            SignatureCheck::BadSignature => {
                has_bad = true;
            },
            SignatureCheck::Good => {
                has_good = true;
            },
            SignatureCheck::MissingKey => {
                has_missing = true;
            },
        }
        i = i + 1;
    }
    if has_nsl {
        SignatureVerdict::Malformed
    } else if has_bad {
        SignatureVerdict::BadSignature
    } else if has_good {
        SignatureVerdict::Accept
    } else if has_missing {
        SignatureVerdict::MissingKey
    } else {
        SignatureVerdict::Malformed
    }
}

/// Where the verifier's certificates come from.
#[derive(Debug, Clone)]
pub enum CertSource {
    /// An inline public-key block from configuration.
    Inline(Vec<u8>),
    /// Certificate files on disk, as full paths.
    Files(Vec<Vec<u8>>),
}

/// `a` and `b` joined by one path separator.
pub fn path_join(a: &[u8], b: &[u8]) -> (r: Vec<u8>)
    ensures
        r@ == a@ + seq![47u8] + b@,
{
    let mut out: Vec<u8> = Vec::new();
    out.extend_from_slice(a);
    out.push(47);
    out.extend_from_slice(b);
    proof {
        assert(out@ =~= a@ + seq![47u8] + b@);
    }
    out
}

/// A certificate file: its path ends in `.gpg` or `.asc`.
pub open spec fn is_cert_file(p: Seq<u8>) -> bool {
    seq_ends_with(p, seq![46u8, 103u8, 112u8, 103u8]) || seq_ends_with(
        p,
        seq![46u8, 97u8, 115u8, 99u8],
    )
}

proof fn lemma_filter_push(s: Seq<Seq<u8>>, x: Seq<u8>, pred: spec_fn(Seq<u8>) -> bool)
    ensures
        s.push(x).filter(pred) =~= if pred(x) {
            s.filter(pred).push(x)
        } else {
            s.filter(pred)
        },
{
    reveal_with_fuel(Seq::<Seq<u8>>::filter, 2);
    assert(s.push(x).drop_last() =~= s);
}

/// Keep only the certificate files of a directory listing.
fn filter_cert_files(entries: &Vec<Vec<u8>>) -> (out: Vec<Vec<u8>>)
    ensures
        out.deep_view() == entries.deep_view().filter(|p: Seq<u8>| is_cert_file(p)),
{
    let mut out: Vec<Vec<u8>> = Vec::new();
    let mut i: usize = 0;
    proof {
        assert(entries.deep_view().take(0) =~~= Seq::<Seq<u8>>::empty());
        reveal_with_fuel(Seq::<Seq<u8>>::filter, 1);
        assert(out.deep_view() =~~= entries.deep_view().take(0).filter(
            |p: Seq<u8>| is_cert_file(p),
        ));
    }
    while i < entries.len()
        invariant
            i <= entries.len(),
            out.deep_view() =~~= entries.deep_view().take(i as int).filter(
                |p: Seq<u8>| is_cert_file(p),
            ),
        decreases entries.len() - i,
    {
        let e = &entries[i];
        let gpg_ext: [u8; 4] = [46, 103, 112, 103];
        let asc_ext: [u8; 4] = [46, 97, 115, 99];
        let keep = ends_with(e.as_slice(), &gpg_ext) || ends_with(e.as_slice(), &asc_ext);
        proof {
            assert(gpg_ext@ == seq![46u8, 103u8, 112u8, 103u8]);
            assert(asc_ext@ == seq![46u8, 97u8, 115u8, 99u8]);
            assert(entries.deep_view()[i as int] == e@);
            assert(keep == is_cert_file(entries.deep_view()[i as int]));
            assert(entries.deep_view().take(i + 1) =~~= entries.deep_view().take(i as int).push(
                entries.deep_view()[i as int],
            ));
            lemma_filter_push(
                entries.deep_view().take(i as int),
                entries.deep_view()[i as int],
                |p: Seq<u8>| is_cert_file(p),
            );
        }
        if keep {
            let copied = subvec(e.as_slice(), 0, e.len());
            proof {
                assert(copied@ =~= e@);
            }
            let ghost prev = out.deep_view();
            let ghost ev = e@;
            out.push(copied);
            proof {
                assert(out.deep_view() =~~= prev.push(ev));
            }
        }
        i = i + 1;
    }
    proof {
        assert(entries.deep_view().take(entries.len() as int) =~~= entries.deep_view());
    }
    out
}

/// The inline public-key marker of deb822 `Signed-By` blocks.
pub open spec fn spec_inline_key_marker() -> Seq<u8> {
    seq![45u8, 45u8, 45u8, 45u8, 45u8]  // "-----"
        + seq![66u8, 69u8, 71u8, 73u8, 78u8]  // "BEGIN"
        + seq![32u8] + seq![80u8, 71u8, 80u8]  // " PGP"
        + seq![32u8] + seq![80u8, 85u8, 66u8, 76u8, 73u8, 67u8]  // " PUBLIC"
        + seq![32u8] + seq![75u8, 69u8, 89u8]  // " KEY"
        + seq![32u8] + seq![66u8, 76u8, 79u8, 67u8, 75u8]  // " BLOCK"
        + seq![45u8, 45u8, 45u8, 45u8, 45u8]  // "-----"
}

/// Resolve which certificates the verifier must use, in the configured
/// order of preference:
/// an inline `Signed-By` public-key block (with the deb822 continuation
/// dots removed); else the configured comma-separated certificate paths,
/// absolute ones kept and relative ones placed under the trusted-keyring
/// directory; else every `.gpg`/`.asc` file of the trusted-keyring and
/// keyring directories plus, when present, the legacy keyring file.
pub fn resolve_cert_source(
    signed_by: Option<&Vec<u8>>,
    trusted_dir_entries: &Vec<Vec<u8>>,
    keyring_dir_entries: &Vec<Vec<u8>>,
    has_legacy_keyring: bool,
    rootfs: &[u8],
) -> (r: CertSource)
    ensures
        match signed_by {
            Some(sb) => {
                let t = spec_trim(sb@);
                if seq_starts_with(t, spec_inline_key_marker()) {
                    r matches CertSource::Inline(k) && k@ == spec_replace(
                        t,
                        seq![46u8],
                        Seq::empty(),
                    )
                } else {
                    r matches CertSource::Files(fs) && fs.deep_view()
                        == crate::bytes::spec_split_byte(t, 44).map_values(
                        |p: Seq<u8>|
                            if p.len() > 0 && p[0] == 47 {
                                p
                            } else {
                                rootfs@ + spec_trusted_dir_rel() + seq![47u8] + p
                            },
                    )
                }
            },
            None => r matches CertSource::Files(fs) && fs.deep_view() == (trusted_dir_entries.deep_view()
                + keyring_dir_entries.deep_view()).filter(|p: Seq<u8>| is_cert_file(p)) + (
            if has_legacy_keyring {
                seq![rootfs@ + spec_legacy_keyring_rel()]
            } else {
                Seq::<Seq<u8>>::empty()
            }),
        },
{
    match signed_by {
        Some(sb) => {
            let t = trim_ascii(sb.as_slice());
            let marker: [u8; 36] = [
                45, 45, 45, 45, 45, 66, 69, 71, 73, 78, 32, 80, 71, 80, 32, 80, 85, 66, 76, 73,
                67, 32, 75, 69, 89, 32, 66, 76, 79, 67, 75, 45, 45, 45, 45, 45,
            ];
            proof {
                assert(marker@ =~= spec_inline_key_marker());
            }
            if starts_with(t.as_slice(), &marker) {
                let dot: [u8; 1] = [46];
                let nothing: [u8; 0] = [];
                let cleaned = replace_all(t.as_slice(), &dot, &nothing);
                proof {
                    assert(dot@ =~= seq![46u8]);
                    assert(nothing@ =~= Seq::<u8>::empty());
                    assert(cleaned@ == spec_replace(spec_trim(sb@), seq![46u8], Seq::empty()));
                }
                CertSource::Inline(cleaned)
            } else {
                let parts = crate::bytes::split_byte(t.as_slice(), 44);
                let mut files: Vec<Vec<u8>> = Vec::new();
                let reldir = trusted_dir_rel();
                let mut i: usize = 0;
                while i < parts.len()
                    invariant
                        i <= parts.len(),
                        reldir@ == spec_trusted_dir_rel(),
                        files.deep_view() =~~= parts.deep_view().take(i as int).map_values(
                            |p: Seq<u8>|
                                if p.len() > 0 && p[0] == 47 {
                                    p
                                } else {
                                    rootfs@ + spec_trusted_dir_rel() + seq![47u8] + p
                                },
                        ),
                    decreases parts.len() - i,
                {
                    let p = &parts[i];
                    let full = if p.len() > 0 && p[0] == 47 {
                        subvec(p.as_slice(), 0, p.len())
                    } else {
                        let mut base: Vec<u8> = Vec::new();
                        base.extend_from_slice(rootfs);
                        base.extend_from_slice(reldir.as_slice());
                        path_join(base.as_slice(), p.as_slice())
                    };
                    proof {
                        let f = |q: Seq<u8>|
                            if q.len() > 0 && q[0] == 47 {
                                q
                            } else {
                                rootfs@ + spec_trusted_dir_rel() + seq![47u8] + q
                            };
                        assert(parts.deep_view()[i as int] == p@);
                        assert(full@ =~= f(parts.deep_view()[i as int]));
                        assert(parts.deep_view().take(i + 1) =~~= parts.deep_view().take(
                            i as int,
                        ).push(parts.deep_view()[i as int]));
                    }
                    let ghost prev = files.deep_view();
                    let ghost fv = full@;
                    files.push(full);
                    proof {
                        assert(files.deep_view() =~~= prev.push(fv));
                    }
                    i = i + 1;
                }
                proof {
                    assert(parts.deep_view().take(parts.len() as int) =~~= parts.deep_view());
                    assert(files.deep_view() =~~= crate::bytes::spec_split_byte(
                        spec_trim(sb@),
                        44,
                    ).map_values(
                        |p: Seq<u8>|
                            if p.len() > 0 && p[0] == 47 {
                                p
                            } else {
                                rootfs@ + spec_trusted_dir_rel() + seq![47u8] + p
                            },
                    ));
                }
                CertSource::Files(files)
            }
        },
        None => {
            let mut all: Vec<Vec<u8>> = Vec::new();
            let mut i: usize = 0;
            while i < trusted_dir_entries.len()
                invariant
                    i <= trusted_dir_entries.len(),
                    all.deep_view() =~~= trusted_dir_entries.deep_view().take(i as int),
                decreases trusted_dir_entries.len() - i,
            {
                let e = &trusted_dir_entries[i];
                let copied = subvec(e.as_slice(), 0, e.len());
                let ghost prev = all.deep_view();
                let ghost ev = e@;
                all.push(copied);
                proof {
                    assert(all.deep_view() =~~= prev.push(ev));
                    assert(trusted_dir_entries.deep_view().take(i + 1) =~~= prev.push(ev));
                }
                i = i + 1;
            }
            let mut j: usize = 0;
            while j < keyring_dir_entries.len()
                invariant
                    j <= keyring_dir_entries.len(),
                    all.deep_view() =~~= trusted_dir_entries.deep_view()
                        + keyring_dir_entries.deep_view().take(j as int),
                decreases keyring_dir_entries.len() - j,
            {
                let e = &keyring_dir_entries[j];
                let copied = subvec(e.as_slice(), 0, e.len());
                let ghost prev = all.deep_view();
                let ghost ev = e@;
                all.push(copied);
                proof {
                    assert(all.deep_view() =~~= prev.push(ev));
                    assert(trusted_dir_entries.deep_view() + keyring_dir_entries.deep_view().take(
                        j + 1,
                    ) =~~= prev.push(ev));
                }
                j = j + 1;
            }
            proof {
                assert(trusted_dir_entries.deep_view().take(trusted_dir_entries.len() as int)
                    =~~= trusted_dir_entries.deep_view());
                assert(keyring_dir_entries.deep_view().take(keyring_dir_entries.len() as int)
                    =~~= keyring_dir_entries.deep_view());
            }
            let mut files = filter_cert_files(&all);
            if has_legacy_keyring {
                let mut legacy: Vec<u8> = Vec::new();
                legacy.extend_from_slice(rootfs);
                legacy.extend_from_slice(legacy_keyring_rel().as_slice());
                proof {
                    assert(legacy@ =~= rootfs@ + spec_legacy_keyring_rel());
                }
                let ghost prev = files.deep_view();
                let ghost lv = legacy@;
                files.push(legacy);
                proof {
                    assert(files.deep_view() =~~= prev.push(lv));
                }
            }
            proof {
                assert(files.deep_view() =~~= (trusted_dir_entries.deep_view()
                    + keyring_dir_entries.deep_view()).filter(|p: Seq<u8>| is_cert_file(p)) + (
                if has_legacy_keyring {
                    seq![rootfs@ + spec_legacy_keyring_rel()]
                } else {
                    Seq::<Seq<u8>>::empty()
                }));
            }
            CertSource::Files(files)
        },
    }
}

/// `/etc/apt/trusted.gpg.d`, relative to the root.
pub open spec fn spec_trusted_dir_rel() -> Seq<u8> {
    seq![47u8, 101u8, 116u8, 99u8]  // "/etc"
        + seq![47u8, 97u8, 112u8, 116u8]  // "/apt"
        + seq![47u8, 116u8, 114u8, 117u8, 115u8, 116u8, 101u8, 100u8]  // "/trusted"
        + seq![46u8, 103u8, 112u8, 103u8, 46u8, 100u8]  // ".gpg.d"
}

/// `/etc/apt/trusted.gpg`, relative to the root.
pub open spec fn spec_legacy_keyring_rel() -> Seq<u8> {
    seq![47u8, 101u8, 116u8, 99u8] + seq![47u8, 97u8, 112u8, 116u8] + seq![
        47u8,
        116u8,
        114u8,
        117u8,
        115u8,
        116u8,
        101u8,
        100u8,
    ] + seq![46u8, 103u8, 112u8, 103u8]
}

/// The trusted-keyring directory path, relative to the root.
pub fn trusted_dir_rel() -> (r: Vec<u8>)
    ensures
        r@ == spec_trusted_dir_rel(),
{
    let v: Vec<u8> = vec![
        47, 101, 116, 99, 47, 97, 112, 116, 47, 116, 114, 117, 115, 116, 101, 100, 46, 103, 112,
        103, 46, 100,
    ];
    proof {
        assert(v@ =~= spec_trusted_dir_rel());
    }
    v
}

/// The legacy keyring file path, relative to the root.
pub fn legacy_keyring_rel() -> (r: Vec<u8>)
    ensures
        r@ == spec_legacy_keyring_rel(),
{
    let v: Vec<u8> = vec![
        47, 101, 116, 99, 47, 97, 112, 116, 47, 116, 114, 117, 115, 116, 101, 100, 46, 103, 112,
        103,
    ];
    proof {
        assert(v@ =~= spec_legacy_keyring_rel());
    }
    v
}

} // verus!
