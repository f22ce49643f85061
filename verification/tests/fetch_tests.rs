use oma::checksum::{Checksum, ChecksumError};
use oma::fetch::{
    run_fetch, DownloadError, FetchEntry, GetStatus, GlobalProgress, MirrorResponse,
    ProgressEvent,
};
use sha2::Digest;

fn hex_of(bytes: &[u8]) -> Vec<u8> {
    let mut out = String::new();
    for b in bytes {
        out.push_str(&format!("{:02x}", b));
    }
    out.into_bytes()
}

fn sha256_hex(data: &[u8]) -> Vec<u8> {
    hex_of(&sha2::Sha256::digest(data))
}

fn entry_for(body: &[u8], urls: usize, allow_resume: bool) -> FetchEntry {
    FetchEntry {
        urls: (0..urls).map(|i| format!("http://mirror{i}/pkg.deb").into_bytes()).collect(),
        filename: b"pkg.deb".to_vec(),
        hash: Some(Checksum::from_sha256_str(&sha256_hex(body)).unwrap()),
        allow_resume,
        msg: b"pkg".to_vec(),
        index: 0,
    }
}

fn good_mirror(body: &[u8], ranges: bool) -> MirrorResponse {
    MirrorResponse {
        head_ok: true,
        range_support: ranges,
        content_length: Some(body.len() as u64),
        status: GetStatus::Success,
        full_body: body.to_vec(),
    }
}

#[test]
fn checksum_hex_parsing() {
    // the well-known digest of the empty input: the digest wrapper must
    // really hash, not echo its input
    let empty = b"e3b0c44298fc1c149afbf4c8996fb92427ae41e4649b934ca495991b7852b855";
    let c = Checksum::from_sha256_str(empty).unwrap();
    assert!(c.matches_data(b""));
    assert!(!c.matches_data(b"x"));

    let hello = b"2cf24dba5fb0a30e26e83b2ac5b9e29e1b161e5c1fa7425e73043362938b9824";
    let c2 = Checksum::from_sha256_str(hello).unwrap();
    assert!(c2.matches_data(b"hello"));

    assert!(matches!(Checksum::from_sha256_str(b"abcd"), Err(ChecksumError::BadLength)));
    let bad = b"zzb0c44298fc1c149afbf4c8996fb92427ae41e4649b934ca495991b7852b855";
    assert!(matches!(Checksum::from_sha256_str(bad), Err(ChecksumError::HexError)));
}

#[test]
fn incremental_validator_matches_streamed_chunks() {
    let body = b"streamed in several chunks";
    let c = Checksum::from_sha256_str(&sha256_hex(body)).unwrap();
    let mut v = c.get_validator();
    v.update(&body[..9]);
    v.update(&body[9..]);
    assert!(v.finish());
    let mut w = c.get_validator();
    w.update(b"other bytes");
    assert!(!w.finish());
}

#[test]
fn completed_fetch_has_expected_size_and_digest() {
    let body = b"the package payload";
    let entry = entry_for(body, 1, true);
    let responses = vec![good_mirror(body, true)];
    let mut global = GlobalProgress::new(0);
    let mut events: Vec<ProgressEvent> = Vec::new();
    let out = run_fetch(&entry, &responses, None, 3, &mut global, &mut events);
    assert!(out.success);
    let file = out.file.unwrap();
    assert_eq!(file.len() as u64, out.total.unwrap());
    assert_eq!(sha256_hex(&file), sha256_hex(body));
    assert_eq!(out.bytes_transferred, body.len() as u64);
    assert_eq!(global.value(), body.len() as u64);
}

#[test]
fn refetch_of_valid_file_transfers_nothing() {
    let body = b"already on disk and valid";
    let entry = entry_for(body, 1, true);
    let responses = vec![good_mirror(body, true)];
    let mut global = GlobalProgress::new(100);
    let mut events: Vec<ProgressEvent> = Vec::new();
    let out = run_fetch(&entry, &responses, Some(body.to_vec()), 3, &mut global, &mut events);
    assert!(out.success);
    assert_eq!(out.bytes_transferred, 0);
    assert_eq!(out.file.unwrap(), body.to_vec());
    // the existing size is credited as progress
    assert_eq!(global.value(), 100 + body.len() as u64);
}

#[test]
fn resume_transfers_exactly_the_missing_bytes() {
    let body = b"0123456789abcdefghij";
    let partial = &body[..8];
    let entry = entry_for(body, 1, true);
    let responses = vec![good_mirror(body, true)];
    let mut global = GlobalProgress::new(0);
    let mut events: Vec<ProgressEvent> = Vec::new();
    let out = run_fetch(&entry, &responses, Some(partial.to_vec()), 3, &mut global, &mut events);
    assert!(out.success);
    assert!(out.resumed_success);
    assert_eq!(out.attempts, 1);
    assert_eq!(out.bytes_transferred, (body.len() - partial.len()) as u64);
    assert_eq!(out.file.unwrap(), body.to_vec());
}

#[test]
fn no_resume_without_range_support() {
    let body = b"0123456789abcdefghij";
    let partial = &body[..8];
    let entry = entry_for(body, 1, true);
    let responses = vec![good_mirror(body, false)];
    let mut global = GlobalProgress::new(0);
    let mut events: Vec<ProgressEvent> = Vec::new();
    let out = run_fetch(&entry, &responses, Some(partial.to_vec()), 3, &mut global, &mut events);
    assert!(out.success);
    assert!(!out.resumed_success);
    assert_eq!(out.bytes_transferred, body.len() as u64);
}

#[test]
fn oversized_existing_file_is_truncated_and_refetched() {
    let body = b"short";
    let stale = b"this stale file is longer than the real payload";
    let entry = entry_for(body, 1, true);
    let responses = vec![good_mirror(body, true)];
    let mut global = GlobalProgress::new(0);
    let mut events: Vec<ProgressEvent> = Vec::new();
    let out = run_fetch(&entry, &responses, Some(stale.to_vec()), 3, &mut global, &mut events);
    assert!(out.success);
    assert!(!out.resumed_success);
    assert_eq!(out.file.unwrap(), body.to_vec());
}

#[test]
fn checksum_retry_rolls_the_counter_back_and_disables_resume() {
    // a mirror that serves a corrupted body: every attempt fails
    let body = b"intended payload";
    let corrupt = b"corrupted payload!!";
    let entry = entry_for(body, 1, true);
    let responses = vec![good_mirror(corrupt, true)];
    let mut global = GlobalProgress::new(500);
    let mut events: Vec<ProgressEvent> = Vec::new();
    let partial = b"inten".to_vec();
    let out = run_fetch(&entry, &responses, Some(partial), 2, &mut global, &mut events);
    assert!(!out.success);
    assert!(matches!(out.error, Some(DownloadError::ChecksumMisMatch)));
    // the counter ends exactly where it started
    assert_eq!(global.value(), 500);
    // the retry is observable, and the rollback is an explicit event
    assert!(events.iter().any(|e| matches!(e, ProgressEvent::ChecksumRetry)));
    assert!(events.iter().any(|e| matches!(e, ProgressEvent::GlobalProgressSet(_))));
    // first attempt resumed (credited 5 + 14 served bytes), later ones must not:
    // after the first mismatch the engine restarts without resume
    let resumes = events
        .iter()
        .filter(|e| matches!(e, ProgressEvent::GlobalProgressInc(5)))
        .count();
    assert_eq!(resumes, 1);
    // the attempt log shows the same discipline: one mirror, first
    // attempt resumed, every retry without resume, every attempt bad
    let flags: Vec<(usize, bool, bool)> =
        out.attempt_log.iter().map(|a| (a.url, a.resumed, a.mismatch)).collect();
    assert_eq!(flags, vec![(0, true, true), (0, false, true), (0, false, true)]);
}

#[test]
fn corrupt_first_mirror_falls_back_to_a_good_one() {
    let body = b"the genuine payload";
    let corrupt = b"not the genuine payload";
    let entry = entry_for(body, 2, true);
    let responses = vec![good_mirror(corrupt, true), good_mirror(body, true)];
    let mut global = GlobalProgress::new(0);
    let mut events: Vec<ProgressEvent> = Vec::new();
    let out = run_fetch(&entry, &responses, None, 1, &mut global, &mut events);
    assert!(out.success);
    assert_eq!(out.used_url, Some(1));
    // the scan is in order: mirror 0 attempted (and retried once), then mirror 1
    let urls: Vec<usize> = out.attempt_log.iter().map(|a| a.url).collect();
    assert_eq!(urls, vec![0, 0, 1]);
    assert!(out.attempts <= 2 * 2);
    assert_eq!(global.value(), body.len() as u64);
}

#[test]
fn not_found_moves_to_the_next_mirror() {
    let body = b"payload from the second mirror";
    let entry = entry_for(body, 2, false);
    let responses = vec![
        MirrorResponse {
            head_ok: true,
            range_support: false,
            content_length: Some(body.len() as u64),
            status: GetStatus::NotFound,
            full_body: Vec::new(),
        },
        good_mirror(body, false),
    ];
    let mut global = GlobalProgress::new(0);
    let mut events: Vec<ProgressEvent> = Vec::new();
    let out = run_fetch(&entry, &responses, None, 3, &mut global, &mut events);
    assert!(out.success);
    assert_eq!(out.used_url, Some(1));
    assert!(events.iter().any(|e| matches!(e, ProgressEvent::SourceExhausted)));
    let urls: Vec<usize> = out.attempt_log.iter().map(|a| a.url).collect();
    assert_eq!(urls, vec![0, 1]);
}

#[test]
fn missing_total_size_fails_the_mirror() {
    let entry = entry_for(b"x", 1, false);
    let responses = vec![MirrorResponse {
        head_ok: true,
        range_support: false,
        content_length: None,
        status: GetStatus::Success,
        full_body: b"x".to_vec(),
    }];
    let mut global = GlobalProgress::new(0);
    let mut events: Vec<ProgressEvent> = Vec::new();
    let out = run_fetch(&entry, &responses, None, 3, &mut global, &mut events);
    assert!(!out.success);
    assert!(matches!(out.error, Some(DownloadError::InvaildTotal)));
    assert_eq!(global.value(), 0);
}

#[test]
fn transport_error_fails_the_mirror() {
    let entry = entry_for(b"x", 1, false);
    let responses = vec![MirrorResponse {
        head_ok: false,
        range_support: false,
        content_length: Some(1),
        status: GetStatus::Success,
        full_body: b"x".to_vec(),
    }];
    let mut global = GlobalProgress::new(0);
    let mut events: Vec<ProgressEvent> = Vec::new();
    let out = run_fetch(&entry, &responses, None, 3, &mut global, &mut events);
    assert!(!out.success);
    assert!(matches!(out.error, Some(DownloadError::SendRequestError)));
}

#[test]
fn archive_filenames_are_canonicalized() {
    let r = oma::fetch::trans_filename(b"go_1.19.4%2btools0.4.0-0_amd64.deb", b"1.19.4+tools0.4.0-0")
        .unwrap();
    assert_eq!(r, b"go_1.19.4+tools0.4.0-0_amd64.deb".to_vec());
    let r = oma::fetch::trans_filename(b"data_1.0-1_noarch.deb", b"1:1.0-1").unwrap();
    assert_eq!(r, b"data_1%3a1.0-1_all.deb".to_vec());
    assert!(oma::fetch::trans_filename(b"malformed", b"1.0").is_none());
}

#[test]
fn all_mirrors_not_found_fails_the_entry() {
    let entry = entry_for(b"x", 1, false);
    let responses = vec![MirrorResponse {
        head_ok: true,
        range_support: false,
        content_length: Some(1),
        status: GetStatus::NotFound,
        full_body: Vec::new(),
    }];
    let mut global = GlobalProgress::new(7);
    let mut events: Vec<ProgressEvent> = Vec::new();
    let out = run_fetch(&entry, &responses, None, 3, &mut global, &mut events);
    assert!(!out.success);
    assert!(matches!(out.error, Some(DownloadError::NotFound)));
    assert_eq!(global.value(), 7);
}
