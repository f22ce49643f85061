use oma::config::Config;
use oma::dbus::{OmaBus, Status};
use oma::decompress::{DecompressError, OmaDecompresser};
use oma::dpkg::{is_hold, Selection};
use oma::print::{Action, OmaColorFormat, StyleFollow, TermStyle};
use oma::searcher::{check_file_magic_4bytes, hit_passes, prefix, Mode};
use oma::search::PackageStatus;
use oma::table::{version_diff, PagerPrinter};
use oma::verify::{
    classify_signature_results, resolve_cert_source, CertSource, SignatureCheck,
    SignatureVerdict,
};
use std::io::Write;

#[test]
fn test_version_diff() {
    let ver1 = b"1.2";
    let ver2 = b"1.2-1";

    let diff = version_diff(ver1, ver2);
    assert_eq!(diff, (None, Some(3)));
    assert_eq!(&ver2[diff.1.unwrap()..], b"-1");

    let diff = version_diff(ver2, ver1);
    assert_eq!(diff, (Some(3), None));

    let ver1 = b"1:1.2";
    let ver2 = b"1.2";

    let diff = version_diff(ver1, ver2);
    assert_eq!(diff, (Some(0), Some(0)));

    let ver1 = b"1.2";
    let ver2 = b"1:1.2";

    let diff = version_diff(ver1, ver2);
    assert_eq!(diff, (Some(0), Some(0)));

    let ver1 = b"1.2";
    let ver2 = b"1.2";

    let diff = version_diff(ver1, ver2);
    assert_eq!(diff, (None, None));

    let ver1 = b"1.21";
    let ver2 = b"1.22";

    let diff = version_diff(ver1, ver2);
    assert_eq!(diff, (Some(2), Some(2)));
}

#[test]
fn gzip_artifacts_decompress_to_their_plain_bytes() {
    let plain = b"Package: example\nVersion: 1.0\n";
    let mut enc = flate2::write::GzEncoder::new(Vec::new(), flate2::Compression::default());
    enc.write_all(plain).unwrap();
    let compressed = enc.finish().unwrap();

    let d = OmaDecompresser::new(b"lists/Packages.gz".to_vec());
    let out = d.decompress(&compressed).unwrap();
    assert_eq!(out, plain.to_vec());

    // a corrupted stream is an error, not silence
    assert!(matches!(d.decompress(b"not gzip"), Err(DecompressError::IOError)));
}

#[test]
fn xz_artifacts_decompress_to_their_plain_bytes() {
    let plain = b"Package: example\nVersion: 2.0\n";
    let mut enc = xz2::write::XzEncoder::new(Vec::new(), 6);
    enc.write_all(plain).unwrap();
    let compressed = enc.finish().unwrap();

    let d = OmaDecompresser::new(b"lists/Packages.xz".to_vec());
    let out = d.decompress(&compressed).unwrap();
    assert_eq!(out, plain.to_vec());
}

#[test]
fn unsupported_extensions_pass_through() {
    let d = OmaDecompresser::new(b"lists/Packages".to_vec());
    let bytes = b"already canonical";
    assert_eq!(d.decompress(bytes).unwrap(), bytes.to_vec());
}

#[test]
fn signature_findings_classify_by_severity() {
    let accept = vec![SignatureCheck::Good, SignatureCheck::MissingKey];
    assert_eq!(classify_signature_results(&accept), SignatureVerdict::Accept);

    let bad = vec![SignatureCheck::Good, SignatureCheck::BadSignature];
    assert_eq!(classify_signature_results(&bad), SignatureVerdict::BadSignature);

    let missing = vec![SignatureCheck::MissingKey, SignatureCheck::MissingKey];
    assert_eq!(classify_signature_results(&missing), SignatureVerdict::MissingKey);

    let malformed = vec![SignatureCheck::Good, SignatureCheck::NotSignatureLayer];
    assert_eq!(classify_signature_results(&malformed), SignatureVerdict::Malformed);

    let empty: Vec<SignatureCheck> = vec![];
    assert_eq!(classify_signature_results(&empty), SignatureVerdict::Malformed);
}

#[test]
fn cert_sources_resolve_in_policy_order() {
    let dir = vec![
        b"/etc/apt/trusted.gpg.d/distro.gpg".to_vec(),
        b"/etc/apt/trusted.gpg.d/README".to_vec(),
        b"/etc/apt/trusted.gpg.d/vendor.asc".to_vec(),
    ];
    let keyrings = vec![b"/etc/apt/keyrings/extra.gpg".to_vec()];

    // default scan: certificate files plus the legacy keyring
    let r = resolve_cert_source(None, &dir, &keyrings, true, b"");
    match r {
        CertSource::Files(files) => {
            assert_eq!(
                files,
                vec![
                    b"/etc/apt/trusted.gpg.d/distro.gpg".to_vec(),
                    b"/etc/apt/trusted.gpg.d/vendor.asc".to_vec(),
                    b"/etc/apt/keyrings/extra.gpg".to_vec(),
                    b"/etc/apt/trusted.gpg".to_vec(),
                ]
            );
        },
        _ => panic!("expected files"),
    }

    // an explicit list: absolute paths kept, relative placed in the keyring dir
    let signed_by = b"/usr/share/keyrings/a.gpg,b.gpg".to_vec();
    let r = resolve_cert_source(Some(&signed_by), &dir, &keyrings, true, b"");
    match r {
        CertSource::Files(files) => {
            assert_eq!(
                files,
                vec![
                    b"/usr/share/keyrings/a.gpg".to_vec(),
                    b"/etc/apt/trusted.gpg.d/b.gpg".to_vec(),
                ]
            );
        },
        _ => panic!("expected files"),
    }

    // an inline key block, with deb822 continuation dots removed
    let inline = b"-----BEGIN PGP PUBLIC KEY BLOCK-----\nxyz\n.\n-----END PGP PUBLIC KEY BLOCK-----"
        .to_vec();
    let r = resolve_cert_source(Some(&inline), &dir, &keyrings, false, b"");
    match r {
        CertSource::Inline(k) => {
            assert!(!k.contains(&b'.'));
        },
        _ => panic!("expected inline"),
    }
}

#[test]
fn selections_decide_hold_state() {
    let sels = vec![
        Selection { name: b"oma".to_vec(), status: b"install".to_vec() },
        Selection { name: b"kernel".to_vec(), status: b"hold".to_vec() },
    ];
    assert!(!is_hold(b"oma", &sels));
    assert!(is_hold(b"kernel", &sels));
    assert!(!is_hold(b"unknown", &sels));
}

#[test]
fn bus_status_round_trip() {
    let mut bus = OmaBus { status: Status::Pending };
    assert_eq!(bus.get_status(), b"Pending".to_vec());
    bus.change_status(b"Downloading");
    assert_eq!(bus.get_status(), b"Downloading".to_vec());
    bus.change_status(b"i oma");
    assert_eq!(bus.get_status(), b"Processing package oma".to_vec());
    bus.change_status(b"gibberish");
    assert_eq!(bus.get_status(), b"Processing package oma".to_vec());
    bus.change_status(b"pending");
    assert_eq!(bus.get_status(), b"Pending".to_vec());
}

#[test]
fn config_defaults_and_thread_floor() {
    let c = Config::default();
    assert!(c.general.protect_essentials);
    assert_eq!(c.network.network_threads, 4);
    assert_eq!(c.effective_threads(), 4);
    let mut z = c;
    z.network.network_threads = 0;
    assert_eq!(z.effective_threads(), 1);
}

#[test]
fn theme_styles_follow_the_palette() {
    let oma = OmaColorFormat::new(StyleFollow::OmaTheme);
    assert_eq!(oma.style_for(Action::WARN), TermStyle::Color256(214));
    assert_eq!(Action::Emphasis.color256(), 148);
    let term = OmaColorFormat::new(StyleFollow::TermTheme);
    assert_eq!(term.style_for(Action::WARN), TermStyle::YellowBold);
    assert_eq!(term.style_for(Action::Foreground), TermStyle::CyanBold);
}

#[test]
fn search_hits_follow_the_mode() {
    assert!(Mode::BinFiles.is_list());
    assert!(!Mode::Provides.is_list());
    assert!(Mode::BinProvides.bin_only());
    assert_eq!(prefix(b"usr/bin/oma"), b"/usr/bin/oma".to_vec());
    assert_eq!(prefix(b"/usr/bin/oma"), b"/usr/bin/oma".to_vec());
    assert!(check_file_magic_4bytes([0x28, 0xb5, 0x2f, 0xfd], &[0x28, 0xb5, 0x2f, 0xfd]));
    assert!(!check_file_magic_4bytes([0, 0, 0, 0], &[0x28, 0xb5, 0x2f, 0xfd]));
    assert!(hit_passes(Mode::Provides, b"bash", b"usr/bin/bash", b"bash"));
    assert!(!hit_passes(Mode::BinProvides, b"bash", b"etc/bash.bashrc", b"bash"));
    assert!(hit_passes(Mode::Files, b"bash", b"etc/bash.bashrc", b"bash"));
    assert!(!hit_passes(Mode::Files, b"dash", b"etc/bash.bashrc", b"bash"));
}

#[test]
fn pager_printer_buffers_lines_in_order() {
    let mut p = PagerPrinter::new();
    p.print(String::from("first"));
    p.print(String::from("second"));
    let lines = p.take_lines();
    assert_eq!(lines, vec![String::from("first"), String::from("second")]);
}

#[test]
fn search_status_ordering() {
    assert!(PackageStatus::Installed < PackageStatus::Avail);
    assert!(PackageStatus::Avail < PackageStatus::Upgrade);
    assert_eq!(PackageStatus::Upgrade.rank(), 2);
}
