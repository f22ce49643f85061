use oma::checksum::Checksum;
use oma::fetch::{FetchEntry, GetStatus, GlobalProgress, MirrorResponse, ProgressEvent};
use oma::scheduler::{run_batch, summary, BatchEvent, BatchScheduler};
use sha2::Digest;

fn hex_of(bytes: &[u8]) -> Vec<u8> {
    let mut out = String::new();
    for b in bytes {
        out.push_str(&format!("{:02x}", b));
    }
    out.into_bytes()
}

fn entry_with_body(i: usize, body: &[u8]) -> (FetchEntry, MirrorResponse) {
    let entry = FetchEntry {
        urls: vec![format!("http://mirror/{i}").into_bytes()],
        filename: format!("file{i}").into_bytes(),
        hash: Some(Checksum::from_sha256_str(&hex_of(&sha2::Sha256::digest(body))).unwrap()),
        allow_resume: true,
        msg: b"m".to_vec(),
        index: i,
    };
    let resp = MirrorResponse {
        head_ok: true,
        range_support: true,
        content_length: Some(body.len() as u64),
        status: GetStatus::Success,
        full_body: body.to_vec(),
    };
    (entry, resp)
}

#[test]
fn scheduler_never_exceeds_its_limit() {
    let mut s = BatchScheduler::new(2, 5);
    assert_eq!(s.start_next(), Some(0));
    assert_eq!(s.start_next(), Some(1));
    // the pool is full
    assert_eq!(s.start_next(), None);
    assert_eq!(s.running_count(), 2);
    s.finish(0, true);
    assert_eq!(s.running_count(), 1);
    assert_eq!(s.start_next(), Some(2));
    assert_eq!(s.start_next(), None);
    s.finish(2, false);
    s.finish(1, true);
    assert_eq!(s.done_count(), 3);
}

#[test]
fn batch_trace_respects_the_worker_limit() {
    let limit = 2usize;
    let bodies: Vec<Vec<u8>> = (0..5u8).map(|i| vec![i; (i as usize + 1) * 3]).collect();
    let mut entries = Vec::new();
    let mut responses = Vec::new();
    for (i, b) in bodies.iter().enumerate() {
        let (e, r) = entry_with_body(i, b);
        entries.push(e);
        responses.push(vec![r]);
    }
    let existing: Vec<Option<Vec<u8>>> = vec![None, None, None, None, None];
    let mut global = GlobalProgress::new(0);
    let mut events: Vec<ProgressEvent> = Vec::new();
    let (outcomes, trace) = run_batch(
        &entries,
        &responses,
        existing,
        limit,
        3,
        &mut global,
        &mut events,
    );
    // every entry got an outcome and all succeeded
    assert_eq!(outcomes.len(), 5);
    assert!(outcomes.iter().all(|o| o.success));
    // the trace shows each start and finish, never more than `limit` open
    assert_eq!(trace.len(), 10);
    let mut open = 0i64;
    let mut peak = 0i64;
    for ev in &trace {
        match ev {
            BatchEvent::Started(_) => open += 1,
            BatchEvent::Finished(_) => open -= 1,
        }
        assert!(open <= limit as i64);
        peak = peak.max(open);
    }
    assert_eq!(open, 0);
    assert_eq!(peak, limit as i64);
    // the counter holds the sum of all fetched bytes
    let total: u64 = bodies.iter().map(|b| b.len() as u64).sum();
    assert_eq!(global.value(), total);
    assert!(events.iter().any(|e| matches!(e, ProgressEvent::AllDone)));
}

#[test]
fn batch_collects_partial_failures() {
    let (e0, r0) = entry_with_body(0, b"alpha");
    let (e1, _) = entry_with_body(1, b"beta");
    // the second mirror answers 404
    let r1 = MirrorResponse {
        head_ok: true,
        range_support: false,
        content_length: Some(4),
        status: GetStatus::NotFound,
        full_body: Vec::new(),
    };
    let (e2, r2) = entry_with_body(2, b"gamma");
    let entries = vec![e0, e1, e2];
    let responses = vec![vec![r0], vec![r1], vec![r2]];
    let mut global = GlobalProgress::new(0);
    let mut events: Vec<ProgressEvent> = Vec::new();
    let (outcomes, _trace) = run_batch(
        &entries,
        &responses,
        vec![None, None, None],
        4,
        3,
        &mut global,
        &mut events,
    );
    assert_eq!(outcomes.len(), 3);
    assert!(outcomes[0].success);
    assert!(!outcomes[1].success);
    assert!(outcomes[2].success);
    let (ok, failed) = summary(&outcomes);
    assert_eq!(ok, vec![0, 2]);
    assert_eq!(failed, vec![1]);
}

#[test]
fn batch_entries_with_good_mirrors_all_succeed() {
    // one corrupt-then-good entry, one already-valid entry
    let body = b"first entry payload";
    let (e0, _) = entry_with_body(0, body);
    let r0_bad = MirrorResponse {
        head_ok: true,
        range_support: true,
        content_length: Some(7),
        status: GetStatus::Success,
        full_body: b"garbage".to_vec(),
    };
    let (mut e0b, r0_good) = entry_with_body(0, body);
    e0b.urls = e0.urls.iter().cloned().chain(vec![b"http://alt/0".to_vec()]).collect();
    let valid = b"second entry, already on disk";
    let (e1, r1) = entry_with_body(1, valid);
    let entries = vec![e0b, e1];
    let responses = vec![vec![r0_bad, r0_good], vec![r1]];
    let existing = vec![None, Some(valid.to_vec())];
    let mut global = GlobalProgress::new(0);
    let mut events: Vec<ProgressEvent> = Vec::new();
    let (outcomes, _trace) =
        run_batch(&entries, &responses, existing, 2, 1, &mut global, &mut events);
    assert!(outcomes[0].success);
    assert_eq!(outcomes[0].used_url, Some(1));
    assert!(outcomes[1].success);
    assert_eq!(outcomes[1].bytes_transferred, 0);
    assert_eq!(outcomes[1].file.as_deref(), Some(valid.as_slice()));
}
