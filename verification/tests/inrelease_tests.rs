use oma::inrelease::{
    checksum_item_from_bytes, date_hack, parse_date, split_ext_and_filename, verify_inrelease,
    InRelease, InReleaseChecksum, InReleaseError, TrustRequirement,
};

#[test]
fn test_date_hack() {
    let a = b"Thu, 02 May 2024  9:58:03 UTC";
    let hack = date_hack(a).unwrap();
    assert_eq!(hack, b"Thu, 02 May 2024 09:58:03 +0000".to_vec());
    let b = chrono::DateTime::parse_from_rfc2822(std::str::from_utf8(&hack).unwrap());
    assert!(b.is_ok());

    let a = b"Thu, 02 May 2024 09:58:03 +0000";
    let hack = date_hack(a).unwrap();
    assert_eq!(hack, b"Thu, 02 May 2024 09:58:03 +0000".to_vec());
    let b = chrono::DateTime::parse_from_rfc2822(std::str::from_utf8(&hack).unwrap());
    assert!(b.is_ok());

    let a = b"Thu, 02 May 2024  0:58:03 +0000";
    let hack = date_hack(a).unwrap();
    assert_eq!(hack, b"Thu, 02 May 2024 00:58:03 +0000".to_vec());
    let b = chrono::DateTime::parse_from_rfc2822(std::str::from_utf8(&hack).unwrap());
    assert!(b.is_ok());
}

#[test]
fn test_split_name_and_ext() {
    let example1 = b"main/dep11/icons-128x128.tar.gz";
    let res = split_ext_and_filename(example1);
    assert_eq!(res.0, b"gz".to_vec());
    assert_eq!(res.1, b"main/dep11/icons-128x128.tar".to_vec());

    let example2 = b"main/i18n/Translation-bg.xz";
    let res = split_ext_and_filename(example2);
    assert_eq!(res.0, b"xz".to_vec());
    assert_eq!(res.1, b"main/i18n/Translation-bg".to_vec());

    let example2 = b"main/i18n/Translation-bg";
    let res = split_ext_and_filename(example2);
    assert_eq!(res.0, b"".to_vec());
    assert_eq!(res.1, b"main/i18n/Translation-bg".to_vec());
}

#[test]
fn checksum_line_parses_to_item() {
    let item = checksum_item_from_bytes(b"deadbeefcafebabe 1234 main/binary-amd64/Packages")
        .unwrap();
    assert_eq!(item.checksum, b"deadbeefcafebabe".to_vec());
    assert_eq!(item.size, 1234);
    assert_eq!(item.name, b"main/binary-amd64/Packages".to_vec());
}

#[test]
fn checksum_line_errors() {
    assert!(matches!(
        checksum_item_from_bytes(b"deadbeef"),
        Err(InReleaseError::BrokenInRelease)
    ));
    assert!(matches!(
        checksum_item_from_bytes(b"deadbeef 1234"),
        Err(InReleaseError::BrokenInRelease)
    ));
    assert!(matches!(
        checksum_item_from_bytes(b"deadbeef x234 name"),
        Err(InReleaseError::ParseIntError)
    ));
}

#[test]
fn date_hack_rejects_bad_time_token() {
    assert!(matches!(
        date_hack(b"Thu, 02 May 2024 a:58:03 UTC"),
        Err(InReleaseError::ParseIntError)
    ));
}

#[test]
fn inrelease_paragraph_round_trip() {
    let doc = b"Origin: Example\nSuite: stable\nDate: Thu, 02 May 2024 09:58:03 +0000\nValid-Until: Sat, 02 May 2026 09:58:03 +0000\nAcquire-By-Hash: YES\nSHA256:\n 0123456789abcdef 42 main/binary-amd64/Packages.xz\n fedcba9876543210 40 main/binary-amd64/Packages.gz\n 00ff00ff00ff00ff 7 main/binary-amd64/Packages\n";
    let parsed = InRelease::new(doc).unwrap();
    let meta = parsed.try_init().unwrap();
    assert!(meta.acquire_by_hash());
    let (kind, items) = meta.checksum_type_and_list();
    assert!(matches!(kind, InReleaseChecksum::Sha256));
    assert_eq!(items.len(), 3);
    assert_eq!(items[0].name, b"main/binary-amd64/Packages.xz".to_vec());
    assert_eq!(items[0].size, 42);
    assert_eq!(items[2].checksum, b"00ff00ff00ff00ff".to_vec());
}

#[test]
fn inrelease_selects_manifest_by_priority() {
    let doc = b"MD5Sum:\n aa 1 x\nSHA512:\n bb 2 y\n";
    let meta = InRelease::new(doc).unwrap().try_init().unwrap();
    let (kind, items) = meta.checksum_type_and_list();
    assert!(matches!(kind, InReleaseChecksum::Sha512));
    assert_eq!(items[0].name, b"y".to_vec());
}

#[test]
fn inrelease_without_manifest_is_broken() {
    let doc = b"Origin: Example\n";
    let parsed = InRelease::new(doc).unwrap();
    assert!(matches!(parsed.try_init(), Err(InReleaseError::BrokenInRelease)));
}

#[test]
fn inrelease_syntax_error() {
    let doc = b"  leading continuation\n";
    assert!(matches!(
        InRelease::new(doc),
        Err(InReleaseError::InReleaseSyntaxError)
    ));
    assert!(matches!(InRelease::new(b""), Err(InReleaseError::BrokenInRelease)));
}

#[test]
fn date_window_is_enforced() {
    let doc = b"Date: Thu, 02 May 2024 09:58:03 +0000\n\
Valid-Until: Sat, 02 May 2026 09:58:03 +0000\n\
SHA256:\n aa 1 x\n";
    let meta = InRelease::new(doc).unwrap().try_init().unwrap();
    let date_epoch = chrono::DateTime::parse_from_rfc2822("Thu, 02 May 2024 09:58:03 +0000")
        .unwrap()
        .timestamp();
    let until_epoch = chrono::DateTime::parse_from_rfc2822("Sat, 02 May 2026 09:58:03 +0000")
        .unwrap()
        .timestamp();

    // now within [Date, Valid-Until]: accepted
    let now = date_epoch + 1000;
    assert!(meta.check_date(now).is_ok());
    assert!(meta.check_valid_until(now).is_ok());

    // Date in the future: EarlierSignature
    assert!(matches!(
        meta.check_date(date_epoch - 1),
        Err(InReleaseError::EarlierSignature)
    ));

    // Valid-Until in the past: ExpiredSignature
    assert!(matches!(
        meta.check_valid_until(until_epoch + 1),
        Err(InReleaseError::ExpiredSignature)
    ));

    // boundary values are accepted
    assert!(meta.check_date(date_epoch).is_ok());
    assert!(meta.check_valid_until(until_epoch).is_ok());
}

#[test]
fn missing_or_bad_date_is_rejected() {
    let meta = InRelease::new(b"SHA256:\n aa 1 x\n").unwrap().try_init().unwrap();
    assert!(matches!(meta.check_date(0), Err(InReleaseError::BadInReleaseData)));
    // no Valid-Until means no upper bound
    assert!(meta.check_valid_until(i64::MAX).is_ok());

    let meta2 = InRelease::new(b"Date: yesterday-ish\nSHA256:\n aa 1 x\n")
        .unwrap()
        .try_init()
        .unwrap();
    assert!(matches!(meta2.check_date(0), Err(InReleaseError::BadInReleaseData)));

    let meta3 = InRelease::new(b"Valid-Until: not a date\nSHA256:\n aa 1 x\n")
        .unwrap()
        .try_init()
        .unwrap();
    assert!(matches!(
        meta3.check_valid_until(0),
        Err(InReleaseError::BadInReleaseValidUntil)
    ));
}

#[test]
fn nonstandard_utc_date_parses_through_the_rewrite() {
    // the wrapper must really parse: the rewritten date equals the strict one
    let strict = parse_date(b"Thu, 02 May 2024 09:58:03 +0000").unwrap();
    let hacked = parse_date(b"Thu, 02 May 2024  9:58:03 UTC").unwrap();
    assert_eq!(strict, hacked);
    let expected = chrono::DateTime::parse_from_rfc2822("Thu, 02 May 2024 09:58:03 +0000")
        .unwrap()
        .timestamp();
    assert_eq!(strict, expected);
    assert!(parse_date(b"no date at all").is_none());
}

#[test]
fn trust_gate_decides_by_marker_and_policy() {
    let signed = b"-----BEGIN PGP SIGNED MESSAGE-----\nHash: SHA256\n\nOrigin: X\n";
    assert!(matches!(
        verify_inrelease(signed, false),
        Ok(TrustRequirement::MustVerify)
    ));
    assert!(matches!(
        verify_inrelease(signed, true),
        Ok(TrustRequirement::MustVerify)
    ));
    let plain = b"Origin: X\n";
    assert!(matches!(
        verify_inrelease(plain, true),
        Ok(TrustRequirement::AcceptAsIs)
    ));
    assert!(matches!(
        verify_inrelease(plain, false),
        Err(InReleaseError::NotTrusted)
    ));
}
