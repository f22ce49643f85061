//! The per-entry download state machine: existence check, resumability
//! negotiation, transfer, digest verification, and retry across mirrors.
//!
//! All network and file effects are taken as values: a mirror's behavior
//! is a [`MirrorResponse`], the destination file is an optional byte
//! string, and progress is a counter plus an event stream. The driver
//! that performs real I/O feeds these in and obeys the returned outcome.

use vstd::prelude::*;

use crate::checksum::{sha256_of, Checksum};

verus! {

/// One file to obtain: its mirror URL list, destination name, expected
/// digest, resume policy, display label and stable index in the batch.
#[derive(Debug, Clone)]
pub struct FetchEntry {
    pub urls: Vec<Vec<u8>>,
    pub filename: Vec<u8>,
    pub hash: Option<Checksum>,
    pub allow_resume: bool,
    pub msg: Vec<u8>,
    pub index: usize,
}

/// One unit of progress, pushed to a sink.
#[derive(Debug, Clone, Copy, PartialEq, Eq, Structural)]
pub enum ProgressEvent {
    /// An entry began processing.
    NewTask,
    /// The entry's own position advanced by this many bytes.
    ProgressInc(u64),
    /// The entry's own position was reset to this value.
    ProgressSet(u64),
    /// The entry completed.
    Done,
    /// A checksum mismatch triggered a retry of the same mirror.
    ChecksumRetry,
    /// The shared counter advanced by this many bytes.
    GlobalProgressInc(u64),
    /// The shared counter was set back to this value.
    GlobalProgressSet(u64),
    /// A mirror was given up on and the next one will be tried.
    SourceExhausted,
    /// The whole batch completed.
    AllDone,
}

/// Why one mirror attempt or a whole entry failed.
#[derive(Debug, Clone, Copy, PartialEq, Eq, Structural)]
pub enum DownloadError {
    /// The fetched bytes did not have the expected size and digest.
    ChecksumMisMatch,
    /// The mirror answered 404 for this file.
    NotFound,
    /// The mirror's header gave no usable total size.
    InvaildTotal,
    /// Any other transport failure on this mirror.
    SendRequestError,
}

/// What one mirror would answer: the header probe's outcome, the data
/// request's status, and the bytes it serves from offset zero. A ranged
/// request is served the suffix of `full_body` from the requested offset.
#[derive(Debug, Clone)]
pub struct MirrorResponse {
    /// The header probe succeeds.
    pub head_ok: bool,
    /// The server advertises byte-range support.
    pub range_support: bool,
    /// The parsed `Content-Length`, if present and well formed.
    pub content_length: Option<u64>,
    /// The data request's status.
    pub status: GetStatus,
    /// The bytes served on success.
    pub full_body: Vec<u8>,
}

/// Status of the data request.
#[derive(Debug, Clone, Copy, PartialEq, Eq, Structural)]
pub enum GetStatus {
    Success,
    NotFound,
    OtherError,
}

/// The shared, strictly-owned global progress counter. It only ever
/// moves by the engine's documented transitions: credit for bytes, and
/// the exact rollback of one entry's credit on a checksum mismatch.
#[derive(Debug, Clone, Copy, PartialEq, Eq, Structural)]
pub struct GlobalProgress {
    value: u64,
}

impl GlobalProgress {
    /// The counter's current value.
    pub closed spec fn spec_value(&self) -> u64 {
        self.value
    }

    /// A counter starting at `v`.
    pub fn new(v: u64) -> (r: GlobalProgress)
        ensures
            r.spec_value() == v,
    {
        GlobalProgress { value: v }
    }

    /// Read the counter.
    pub fn value(&self) -> (r: u64)
        ensures
            r == self.spec_value(),
    {
        self.value
    }

    /// Credit `n` bytes.
    fn inc(&mut self, n: u64)
        requires
            old(self).spec_value() + n <= u64::MAX,
        ensures
            final(self).spec_value() == old(self).spec_value() + n,
    {
        self.value = self.value + n;
    }

    /// Take exactly `n` credited bytes back.
    fn rollback(&mut self, n: u64)
        requires
            n <= old(self).spec_value(),
        ensures
            final(self).spec_value() == old(self).spec_value() - n,
    {
        self.value = self.value - n;
    }
}

/// The destination file's content, the empty string when it is absent.
pub open spec fn spec_file_view(f: Option<Vec<u8>>) -> Seq<u8> {
    match f {
        Some(v) => v@,
        None => Seq::empty(),
    }
}

/// Whether `data` has the expected digest; no expected digest accepts
/// anything.
pub open spec fn spec_digest_ok(hash: Option<Checksum>, data: Seq<u8>) -> bool {
    match hash {
        Some(c) => sha256_of(data) == c.spec_digest(),
        None => true,
    }
}

/// Whether an attempt resumes: policy allows it, the server supports
/// ranges, a total is known, and the existing bytes fall short of it.
pub open spec fn spec_resumes(
    allow_resume: bool,
    resp: MirrorResponse,
    existing_len: int,
) -> bool {
    allow_resume && resp.head_ok && resp.range_support && (resp.content_length matches Some(t)
        && existing_len < t)
}

/// The bytes the server sends for an attempt: on resume, the suffix of
/// its body from the existing length (nothing when the body is shorter);
/// otherwise the whole body.
pub open spec fn spec_served(resp: MirrorResponse, resumed: bool, existing_len: int) -> Seq<u8> {
    if resumed {
        if existing_len <= resp.full_body@.len() {
            resp.full_body@.skip(existing_len)
        } else {
            Seq::empty()
        }
    } else {
        resp.full_body@
    }
}

/// The destination's content after an attempt's transfer: the kept
/// prefix plus the served bytes on resume, the served bytes alone after
/// a truncating fresh start.
pub open spec fn spec_new_file(
    resp: MirrorResponse,
    resumed: bool,
    existing: Seq<u8>,
) -> Seq<u8> {
    if resumed {
        existing + spec_served(resp, resumed, existing.len() as int)
    } else {
        spec_served(resp, resumed, existing.len() as int)
    }
}

/// How one mirror attempt ended.
#[derive(Debug, Clone, Copy, PartialEq, Eq, Structural)]
pub enum AttemptOutcome {
    /// The existing destination already has the expected digest: done
    /// with zero transfer, its size credited.
    AlreadyValid,
    /// Transferred and verified (no expected digest verifies trivially).
    Fetched,
    /// Transferred, but size or digest is wrong; the credit was rolled
    /// back exactly.
    ChecksumMismatch,
    /// The mirror answered 404.
    NotFound,
    /// The header gave no usable total size.
    InvalidTotal,
    /// The header probe or the data request failed.
    TransportError,
}

/// The result of one mirror attempt.
pub struct AttemptResult {
    pub outcome: AttemptOutcome,
    /// Bytes received over the network in this attempt.
    pub transferred: u64,
    /// Whether a ranged request was used.
    pub resumed: bool,
    /// The destination file after the attempt.
    pub file: Option<Vec<u8>>,
}

proof fn lemma_prefix_push(a: Seq<ProgressEvent>, b: Seq<ProgressEvent>, x: ProgressEvent)
    requires
        a.is_prefix_of(b),
    ensures
        a.is_prefix_of(b.push(x)),
{
    assert(b.push(x).subrange(0, a.len() as int) =~= b.subrange(0, a.len() as int));
}

pub proof fn lemma_prefix_trans(a: Seq<ProgressEvent>, b: Seq<ProgressEvent>, c: Seq<ProgressEvent>)
    requires
        a.is_prefix_of(b),
        b.is_prefix_of(c),
    ensures
        a.is_prefix_of(c),
{
    assert(c.subrange(0, a.len() as int) =~= c.subrange(0, b.len() as int).subrange(
        0,
        a.len() as int,
    ));
}

/// Total size of the bodies all the mirrors would serve.
pub open spec fn spec_sum_bodies(rs: Seq<MirrorResponse>) -> int
    decreases rs.len(),
{
    if rs.len() == 0 {
        0
    } else {
        rs[0].full_body@.len() + spec_sum_bodies(rs.skip(1))
    }
}

proof fn lemma_sum_bodies_bound(rs: Seq<MirrorResponse>, i: int)
    requires
        0 <= i < rs.len(),
    ensures
        spec_sum_bodies(rs) >= 0,
        rs[i].full_body@.len() <= spec_sum_bodies(rs),
    decreases rs.len(),
{
    lemma_sum_bodies_nonneg(rs.skip(1));
    if i == 0 {
    } else {
        assert(rs.skip(1)[i - 1] == rs[i]);
        lemma_sum_bodies_bound(rs.skip(1), i - 1);
    }
}

pub proof fn lemma_sum_bodies_nonneg(rs: Seq<MirrorResponse>)
    ensures
        spec_sum_bodies(rs) >= 0,
    decreases rs.len(),
{
    if rs.len() > 0 {
        lemma_sum_bodies_nonneg(rs.skip(1));
    }
}

/// Whether the existing destination already carries the expected digest.
fn existing_matches(file: &Option<Vec<u8>>, hash: &Option<Checksum>) -> (r: bool)
    ensures
        r == (file is Some && hash is Some && spec_digest_ok(*hash, spec_file_view(*file))),
{
    match file {
        Some(f) => match hash {
            Some(c) => {
                let mut v = c.get_validator();
                v.update(f.as_slice());
                v.finish()
            },
            None => false,
        },
        None => false,
    }
}

/// Drive one attempt against one mirror: check the existing file, probe
/// the headers, negotiate resume, transfer, and verify. The global
/// counter gains the attempt's credit on completion and is restored
/// exactly on a checksum mismatch; failed probes and requests leave the
/// file and the counter untouched.
pub fn download_once(
    hash: &Option<Checksum>,
    allow_resume: bool,
    file: Option<Vec<u8>>,
    resp: &MirrorResponse,
    global: &mut GlobalProgress,
    events: &mut Vec<ProgressEvent>,
) -> (r: AttemptResult)
    requires
        old(global).spec_value() + spec_file_view(file).len() + resp.full_body@.len()
            <= u64::MAX,
    ensures
        old(events)@.is_prefix_of(final(events)@),
        match r.outcome {
            AttemptOutcome::AlreadyValid => {
                &&& file is Some && hash is Some
                &&& spec_digest_ok(*hash, spec_file_view(file))
                &&& r.file == file
                &&& r.transferred == 0 && !r.resumed
                &&& final(global).spec_value() == old(global).spec_value() + spec_file_view(
                    file,
                ).len()
                &&& final(events)@ == old(events)@ + seq![
                    ProgressEvent::GlobalProgressInc(spec_file_view(file).len() as u64),
                    ProgressEvent::Done,
                ]
            },
            AttemptOutcome::TransportError => {
                &&& !resp.head_ok || (resp.content_length is Some && resp.status is OtherError)
                &&& !(file is Some && hash is Some && spec_digest_ok(*hash, spec_file_view(file)))
                &&& r.file == file && r.transferred == 0 && !r.resumed
                &&& final(global).spec_value() == old(global).spec_value()
                &&& final(events)@ == old(events)@
            },
            AttemptOutcome::NotFound => {
                &&& resp.head_ok && resp.content_length is Some && resp.status is NotFound
                &&& !(file is Some && hash is Some && spec_digest_ok(*hash, spec_file_view(file)))
                &&& r.file == file && r.transferred == 0 && !r.resumed
                &&& final(global).spec_value() == old(global).spec_value()
                &&& final(events)@ == old(events)@
            },
            AttemptOutcome::InvalidTotal => {
                &&& resp.head_ok && resp.content_length is None
                &&& !(file is Some && hash is Some && spec_digest_ok(*hash, spec_file_view(file)))
                &&& r.file == file && r.transferred == 0 && !r.resumed
                &&& final(global).spec_value() == old(global).spec_value()
                &&& final(events)@ == old(events)@
            },
            AttemptOutcome::Fetched => {
                let existing = spec_file_view(file);
                let resumed = spec_resumes(allow_resume, *resp, existing.len() as int);
                let newf = spec_new_file(*resp, resumed, existing);
                &&& resp.head_ok && resp.status is Success && resp.content_length is Some
                &&& !(file is Some && hash is Some && spec_digest_ok(*hash, existing))
                &&& r.resumed == resumed
                &&& r.file matches Some(f) && f@ == newf
                &&& r.transferred == spec_served(*resp, resumed, existing.len() as int).len()
                &&& spec_digest_ok(*hash, newf)
                &&& hash is Some ==> newf.len() == resp.content_length->Some_0
                &&& final(global).spec_value() == old(global).spec_value() + (if resumed {
                    existing.len() as int
                } else {
                    0
                }) + r.transferred
                &&& final(events)@ == old(events)@ + (if resumed {
                    seq![
                        ProgressEvent::GlobalProgressInc(existing.len() as u64),
                        ProgressEvent::ProgressInc(existing.len() as u64),
                    ]
                } else {
                    Seq::empty()
                }) + seq![
                    ProgressEvent::GlobalProgressInc(
                        spec_served(*resp, resumed, existing.len() as int).len() as u64,
                    ),
                    ProgressEvent::ProgressInc(
                        spec_served(*resp, resumed, existing.len() as int).len() as u64,
                    ),
                    ProgressEvent::Done,
                ]
            },
            AttemptOutcome::ChecksumMismatch => {
                let existing = spec_file_view(file);
                let resumed = spec_resumes(allow_resume, *resp, existing.len() as int);
                let newf = spec_new_file(*resp, resumed, existing);
                &&& resp.head_ok && resp.status is Success && resp.content_length is Some
                &&& !(file is Some && hash is Some && spec_digest_ok(*hash, spec_file_view(file)))
                &&& hash is Some
                &&& !(spec_digest_ok(*hash, newf) && newf.len() == resp.content_length->Some_0)
                &&& r.resumed == resumed
                &&& r.file matches Some(f) && f@ == newf
                &&& r.transferred == spec_served(*resp, resumed, existing.len() as int).len()
                &&& final(global).spec_value() == old(global).spec_value()
                &&& final(events)@ == old(events)@ + (if resumed {
                    seq![
                        ProgressEvent::GlobalProgressInc(existing.len() as u64),
                        ProgressEvent::ProgressInc(existing.len() as u64),
                    ]
                } else {
                    Seq::empty()
                }) + seq![
                    ProgressEvent::GlobalProgressInc(
                        spec_served(*resp, resumed, existing.len() as int).len() as u64,
                    ),
                    ProgressEvent::ProgressInc(
                        spec_served(*resp, resumed, existing.len() as int).len() as u64,
                    ),
                    ProgressEvent::GlobalProgressSet(old(global).spec_value()),
                    ProgressEvent::ProgressSet(0),
                ]
            },
        },
{
    let ghost old_events = events@;
    // CheckExisting: a destination that already verifies completes the
    // entry with zero transfer, its size credited as progress.
    if existing_matches(&file, hash) {
        let flen: u64 = match &file {
            Some(f) => f.len() as u64,
            None => 0,
        };
        global.inc(flen);
        events.push(ProgressEvent::GlobalProgressInc(flen));
        let ghost ev1 = events@;
        events.push(ProgressEvent::Done);
        proof {
            assert(old_events.is_prefix_of(ev1));
            lemma_prefix_push(old_events, ev1, ProgressEvent::Done);
            assert(events@ =~= old_events + seq![
                ProgressEvent::GlobalProgressInc(flen),
                ProgressEvent::Done,
            ]);
        }
        return AttemptResult {
            outcome: AttemptOutcome::AlreadyValid,
            transferred: 0,
            resumed: false,
            file,
        };
    }
    // HeadProbe.
    if !resp.head_ok {
        proof {
            assert(old_events.is_prefix_of(events@));
        }
        return AttemptResult {
            outcome: AttemptOutcome::TransportError,
            transferred: 0,
            resumed: false,
            file,
        };
    }
    let total: u64 = match resp.content_length {
        Some(t) => t,
        None => {
            proof {
                assert(old_events.is_prefix_of(events@));
            }
            return AttemptResult {
                outcome: AttemptOutcome::InvalidTotal,
                transferred: 0,
                resumed: false,
                file,
            };
        },
    };
    // Data request status.
    match resp.status {
        GetStatus::NotFound => {
            proof {
                assert(old_events.is_prefix_of(events@));
            }
            return AttemptResult {
                outcome: AttemptOutcome::NotFound,
                transferred: 0,
                resumed: false,
                file,
            };
        },
        GetStatus::OtherError => {
            proof {
                assert(old_events.is_prefix_of(events@));
            }
            return AttemptResult {
                outcome: AttemptOutcome::TransportError,
                transferred: 0,
                resumed: false,
                file,
            };
        },
        GetStatus::Success => {},
    }
    // Range selection: resume only when allowed, supported, and the
    // existing bytes fall short of the advertised total.
    let existing_len: usize = match &file {
        Some(f) => f.len(),
        None => 0,
    };
    let resumed = allow_resume && resp.range_support && (existing_len as u64) < total;
    proof {
        assert(resumed == spec_resumes(allow_resume, *resp, spec_file_view(file).len() as int));
    }
    // Streaming: the kept prefix is credited on resume, then the served
    // bytes are appended and credited.
    let served: Vec<u8> = if resumed {
        if existing_len <= resp.full_body.len() {
            crate::bytes::subvec(resp.full_body.as_slice(), existing_len, resp.full_body.len())
        } else {
            Vec::new()
        }
    } else {
        crate::bytes::subvec(resp.full_body.as_slice(), 0, resp.full_body.len())
    };
    proof {
        assert(served@ =~= spec_served(*resp, resumed, spec_file_view(file).len() as int));
    }
    let mut newf: Vec<u8> = Vec::new();
    let mut credited: u64 = 0;
    if resumed {
        newf = match file {
            Some(f) => f,
            None => Vec::new(),
        };
        let klen: u64 = newf.len() as u64;
        global.inc(klen);
        events.push(ProgressEvent::GlobalProgressInc(klen));
        events.push(ProgressEvent::ProgressInc(klen));
        credited = klen;
        proof {
            assert(events@ =~= old_events + seq![
                ProgressEvent::GlobalProgressInc(spec_file_view(file).len() as u64),
                ProgressEvent::ProgressInc(spec_file_view(file).len() as u64),
            ]);
        }
    }
    let ghost ev_kept = events@;
    proof {
        assert(ev_kept =~= old_events + (if resumed {
            seq![
                ProgressEvent::GlobalProgressInc(spec_file_view(file).len() as u64),
                ProgressEvent::ProgressInc(spec_file_view(file).len() as u64),
            ]
        } else {
            Seq::empty()
        }));
    }
    newf.extend_from_slice(served.as_slice());
    let tlen: u64 = served.len() as u64;
    global.inc(tlen);
    events.push(ProgressEvent::GlobalProgressInc(tlen));
    events.push(ProgressEvent::ProgressInc(tlen));
    credited = credited + tlen;
    proof {
        assert(newf@ =~= spec_new_file(
            *resp,
            resumed,
            spec_file_view(file),
        ));
    }
    // Verify: the digest and the advertised size must both agree.
    let ok: bool = match hash {
        Some(c) => {
            let mut v = c.get_validator();
            v.update(newf.as_slice());
            let digest_ok = v.finish();
            digest_ok && newf.len() as u64 == total
        },
        None => true,
    };
    if ok {
        events.push(ProgressEvent::Done);
        proof {
            assert(old_events.is_prefix_of(events@));
            assert(events@ =~= ev_kept + seq![
                ProgressEvent::GlobalProgressInc(tlen),
                ProgressEvent::ProgressInc(tlen),
                ProgressEvent::Done,
            ]);
        }
        AttemptResult {
            outcome: AttemptOutcome::Fetched,
            transferred: tlen,
            resumed,
            file: Some(newf),
        }
    } else {
        // Roll the attempt's credit back, exactly.
        global.rollback(credited);
        let setto = global.value();
        events.push(ProgressEvent::GlobalProgressSet(setto));
        events.push(ProgressEvent::ProgressSet(0));
        proof {
            assert(old_events.is_prefix_of(events@));
            assert(events@ =~= ev_kept + seq![
                ProgressEvent::GlobalProgressInc(tlen),
                ProgressEvent::ProgressInc(tlen),
                ProgressEvent::GlobalProgressSet(setto),
                ProgressEvent::ProgressSet(0),
            ]);
        }
        AttemptResult {
            outcome: AttemptOutcome::ChecksumMismatch,
            transferred: tlen,
            resumed,
            file: Some(newf),
        }
    }
}

/// A mirror that behaves perfectly for an entry: reachable, a truthful
/// total, a served body of exactly that size, and the expected digest.
pub open spec fn spec_mirror_good(hash: Option<Checksum>, resp: MirrorResponse) -> bool {
    &&& resp.head_ok
    &&& resp.status is Success
    &&& resp.content_length matches Some(t) && resp.full_body@.len() == t
    &&& spec_digest_ok(hash, resp.full_body@)
}

/// A retry after a checksum mismatch runs with resume disallowed, and an
/// attempt with resume disallowed never resumes: together with the exact
/// counter rollback of a mismatching attempt, this is the engine's
/// mismatch-retry discipline.
pub proof fn lemma_retry_never_resumes(resp: MirrorResponse, existing_len: int)
    ensures
        !spec_resumes(false, resp, existing_len),
{
}

/// Whether some mirror would satisfy the entry outright.
pub open spec fn spec_some_mirror_good(hash: Option<Checksum>, rs: Seq<MirrorResponse>) -> bool {
    exists|u: int| 0 <= u < rs.len() && spec_mirror_good(hash, #[trigger] rs[u])
}

/// Index of the first wholly good mirror, or the mirror count when
/// there is none.
pub open spec fn spec_first_good(hash: Option<Checksum>, rs: Seq<MirrorResponse>) -> int
    decreases rs.len(),
{
    if rs.len() == 0 {
        0
    } else if spec_mirror_good(hash, rs[0]) {
        0
    } else {
        1 + spec_first_good(hash, rs.skip(1))
    }
}

proof fn lemma_first_good_bounds(hash: Option<Checksum>, rs: Seq<MirrorResponse>)
    ensures
        0 <= spec_first_good(hash, rs) <= rs.len(),
        spec_first_good(hash, rs) < rs.len() ==> spec_mirror_good(
            hash,
            rs[spec_first_good(hash, rs)],
        ),
        forall|j: int|
            0 <= j < spec_first_good(hash, rs) ==> !spec_mirror_good(hash, #[trigger] rs[j]),
    decreases rs.len(),
{
    if rs.len() > 0 && !spec_mirror_good(hash, rs[0]) {
        lemma_first_good_bounds(hash, rs.skip(1));
        let fg = spec_first_good(hash, rs);
        assert forall|j: int| 0 <= j < fg implies !spec_mirror_good(hash, #[trigger] rs[j]) by {
            if j > 0 {
                assert(rs.skip(1)[j - 1] == rs[j]);
            }
        }
        if fg < rs.len() {
            assert(rs.skip(1)[fg - 1] == rs[fg]);
        }
    }
}

/// One attempt of the mirror loop, for the outcome's audit log.
#[derive(Debug, Clone, Copy, PartialEq, Eq, Structural)]
pub struct AttemptRecord {
    /// Which mirror was tried.
    pub url: usize,
    /// Whether the attempt used a ranged request.
    pub resumed: bool,
    /// Whether the attempt's size-and-digest check failed.
    pub mismatch: bool,
}

/// Saturating addition on byte totals.
fn sat_add(a: u64, b: u64) -> (r: u64)
    ensures
        a + b <= u64::MAX ==> r == a + b,
        a + b > u64::MAX ==> r == u64::MAX,
{
    if a <= u64::MAX - b {
        a + b
    } else {
        u64::MAX
    }
}

/// The result of one whole fetch entry, folded into the batch summary.
#[derive(Debug, Clone)]
pub struct DownloadOutcome {
    /// The entry completed with a verified destination.
    pub success: bool,
    /// Network bytes received across all attempts (saturating).
    pub bytes_transferred: u64,
    /// The destination file's content after the run.
    pub file: Option<Vec<u8>>,
    /// How many mirror attempts were made (saturating).
    pub attempts: u64,
    /// Every attempt in order: which mirror, whether it resumed, and
    /// whether it failed its size-and-digest check.
    pub attempt_log: Vec<AttemptRecord>,
    /// Whether the successful attempt used a ranged request.
    pub resumed_success: bool,
    /// Which mirror completed the entry.
    pub used_url: Option<usize>,
    /// The total size that mirror advertised; absent when the existing
    /// destination was already valid and nothing was probed.
    pub total: Option<u64>,
    /// The last mirror's failure, when the entry failed.
    pub error: Option<DownloadError>,
}

/// Drive one fetch entry to completion: mirrors in order, and on a
/// checksum mismatch up to `max_retries` retries of the same mirror with
/// resume disabled — the budget is per mirror, so a mirror gets at most
/// `max_retries + 1` attempts. A batch never aborts on one entry's
/// failure; the outcome reports success or the last mirror's error, and
/// its attempt log shows the whole in-order scan: mirrors are taken from
/// the first upward, only a mismatch repeats a mirror, and the repeat
/// runs without resume.
///
/// On success the global counter has gained exactly the destination's
/// final size; on failure it stands exactly where it started, every
/// optimistically credited byte having been taken back.
pub fn run_fetch(
    entry: &FetchEntry,
    responses: &Vec<MirrorResponse>,
    existing: Option<Vec<u8>>,
    max_retries: u64,
    global: &mut GlobalProgress,
    events: &mut Vec<ProgressEvent>,
) -> (r: DownloadOutcome)
    requires
        entry.urls@.len() == responses@.len(),
        old(global).spec_value() + spec_file_view(existing).len() + 2 * spec_sum_bodies(
            responses@,
        ) <= u64::MAX,
    ensures
        old(events)@.is_prefix_of(final(events)@),
        r.success ==> final(global).spec_value() == old(global).spec_value() + spec_file_view(
            r.file,
        ).len(),
        !r.success ==> final(global).spec_value() == old(global).spec_value(),
        r.success && entry.hash is Some ==> r.file is Some && spec_digest_ok(
            entry.hash,
            spec_file_view(r.file),
        ),
        r.success && entry.hash is Some ==> (r.total matches Some(t) ==> spec_file_view(
            r.file,
        ).len() == t),
        (existing is Some && entry.hash is Some && spec_digest_ok(
            entry.hash,
            spec_file_view(existing),
        ) && entry.urls@.len() > 0) ==> r.success && r.bytes_transferred == 0 && r.file
            == existing,
        r.success && r.attempts == 1 && r.resumed_success && entry.hash is Some ==> (
        r.total matches Some(t) ==> r.bytes_transferred + spec_file_view(existing).len() == t),
        r.success ==> r.error is None && (r.used_url matches Some(u) && u < responses@.len()),
        !r.success ==> r.error is Some,
        max_retries >= 1 && spec_some_mirror_good(entry.hash, responses@) ==> r.success,
        r.attempts as int <= entry.urls@.len() * (max_retries + 1),
        r.attempt_log@.len() <= entry.urls@.len() * (max_retries + 1),
        r.attempt_log@.len() > 0 ==> r.attempt_log@[0].url == 0,
        forall|k: int|
            0 <= k < r.attempt_log@.len() - 1 ==> ((#[trigger] r.attempt_log@[k + 1]).url
                == r.attempt_log@[k].url || r.attempt_log@[k + 1].url == r.attempt_log@[k].url
                + 1),
        forall|k: int|
            0 <= k < r.attempt_log@.len() - 1 && (#[trigger] r.attempt_log@[k]).url
                == r.attempt_log@[k + 1].url ==> r.attempt_log@[k].mismatch
                && !r.attempt_log@[k + 1].resumed,
        r.success ==> r.attempt_log@.len() > 0 && (r.used_url matches Some(u)
            && r.attempt_log@.last().url == u),
        spec_file_view(r.file).len() <= spec_file_view(existing).len() + spec_sum_bodies(
            responses@,
        ),
{
    let ghost old0 = old(global).spec_value();
    let ghost oldev = old(events)@;
    let ghost existing0 = existing;
    events.push(ProgressEvent::NewTask);
    proof {
        assert(events@.subrange(0, oldev.len() as int) =~= oldev);
    }
    let mut curfile = existing;
    let mut url_idx: usize = 0;
    let mut retry_here: u64 = 0;
    let mut allow_resume_now = entry.allow_resume;
    let mut attempts: u64 = 0;
    let mut bytes: u64 = 0;
    let mut attempt_log: Vec<AttemptRecord> = Vec::new();
    let mut last_error = DownloadError::SendRequestError;
    let n = entry.urls.len();
    proof {
        lemma_sum_bodies_nonneg(responses@);
        lemma_first_good_bounds(entry.hash, responses@);
    }
    while url_idx < n
        invariant
            oldev == old(events)@,
            old0 == old(global).spec_value(),
            existing0 == existing,
            n == entry.urls@.len(),
            entry.urls@.len() == responses@.len(),
            url_idx <= n,
            retry_here <= max_retries,
            global.spec_value() == old0,
            old0 + spec_file_view(existing0).len() + 2 * spec_sum_bodies(responses@) <= u64::MAX,
            spec_sum_bodies(responses@) >= 0,
            spec_file_view(curfile).len() <= spec_file_view(existing0).len() + spec_sum_bodies(
                responses@,
            ),
            attempts == 0 ==> curfile == existing0,
            attempts == 0 ==> bytes == 0,
            (url_idx > 0 || retry_here > 0) ==> attempts > 0,
            attempts > 0 ==> !(existing0 is Some && entry.hash is Some && spec_digest_ok(
                entry.hash,
                spec_file_view(existing0),
            )),
            (max_retries >= 1 && spec_some_mirror_good(entry.hash, responses@)) ==> (
            url_idx as int <= spec_first_good(entry.hash, responses@) && ((url_idx as int
                == spec_first_good(entry.hash, responses@) && retry_here > 0)
                ==> allow_resume_now == false)),
            url_idx == n ==> retry_here == 0,
            attempts as int <= attempt_log@.len(),
            attempt_log@.len() <= url_idx * (max_retries + 1) + retry_here,
            attempt_log@.len() > 0 ==> attempt_log@[0].url == 0,
            attempt_log@.len() > 0 ==> (attempt_log@.last().url == url_idx
                || attempt_log@.last().url + 1 == url_idx),
            (attempt_log@.len() > 0 && attempt_log@.last().url == url_idx) ==> (
            attempt_log@.last().mismatch && allow_resume_now == false),
            forall|k: int|
                0 <= k < attempt_log@.len() - 1 ==> ((#[trigger] attempt_log@[k + 1]).url
                    == attempt_log@[k].url || attempt_log@[k + 1].url == attempt_log@[k].url
                    + 1),
            forall|k: int|
                0 <= k < attempt_log@.len() - 1 && (#[trigger] attempt_log@[k]).url
                    == attempt_log@[k + 1].url ==> attempt_log@[k].mismatch
                    && !attempt_log@[k + 1].resumed,
            oldev.is_prefix_of(events@),
        decreases n - url_idx, max_retries - retry_here,
    {
        let resp = &responses[url_idx];
        proof {
            lemma_sum_bodies_bound(responses@, url_idx as int);
        }
        let ghost evb = events@;
        let ghost fileb = curfile;
        let t = download_once(&entry.hash, allow_resume_now, curfile, resp, global, events);
        let att_now = sat_add(attempts, 1);
        attempts = att_now;
        bytes = sat_add(bytes, t.transferred);
        curfile = t.file;
        let is_mismatch = match t.outcome {
            AttemptOutcome::ChecksumMismatch => true,
            _ => false,
        };
        let rec = AttemptRecord { url: url_idx, resumed: t.resumed, mismatch: is_mismatch };
        let ghost oldlog = attempt_log@;
        attempt_log.push(rec);
        proof {
            lemma_prefix_trans(oldev, evb, events@);
            assert(attempt_log@.last() == rec);
            assert forall|k: int|
                0 <= k < attempt_log@.len() - 1 implies ((#[trigger] attempt_log@[k + 1]).url
                    == attempt_log@[k].url || attempt_log@[k + 1].url == attempt_log@[k].url
                    + 1) by {
                if k < oldlog.len() - 1 {
                    assert(attempt_log@[k] == oldlog[k]);
                    assert(attempt_log@[k + 1] == oldlog[k + 1]);
                } else {
                    assert(attempt_log@[k] == oldlog.last());
                    assert(attempt_log@[k + 1] == rec);
                }
            }
            assert forall|k: int|
                0 <= k < attempt_log@.len() - 1 && (#[trigger] attempt_log@[k]).url
                    == attempt_log@[k + 1].url implies (attempt_log@[k].mismatch
                    && !attempt_log@[k + 1].resumed) by {
                if k < oldlog.len() - 1 {
                    assert(attempt_log@[k] == oldlog[k]);
                    assert(attempt_log@[k + 1] == oldlog[k + 1]);
                } else {
                    assert(attempt_log@[k] == oldlog.last());
                    assert(attempt_log@[k + 1] == rec);
                }
            }
            assert((url_idx as int) * (max_retries as int + 1) + retry_here + 1 <= (
            entry.urls@.len() as int) * (max_retries as int + 1)) by (nonlinear_arith)
                requires
                    (url_idx as int) < entry.urls@.len(),
                    retry_here <= max_retries,
            ;
            assert(((url_idx as int) + 1) * (max_retries as int + 1) == (url_idx as int) * (
            max_retries as int + 1) + max_retries as int + 1) by (nonlinear_arith);
        }
        match t.outcome {
            AttemptOutcome::AlreadyValid => {
                return DownloadOutcome {
                    success: true,
                    bytes_transferred: bytes,
                    file: curfile,
                    attempts,
                    attempt_log,
                    resumed_success: false,
                    used_url: Some(url_idx),
                    total: None,
                    error: None,
                };
            },
            AttemptOutcome::Fetched => {
                return DownloadOutcome {
                    success: true,
                    bytes_transferred: bytes,
                    file: curfile,
                    attempts,
                    attempt_log,
                    resumed_success: t.resumed,
                    used_url: Some(url_idx),
                    total: resp.content_length,
                    error: None,
                };
            },
            AttemptOutcome::ChecksumMismatch => {
                last_error = DownloadError::ChecksumMisMatch;
                if retry_here < max_retries {
                    // Retry the same mirror, resume disabled, the credit
                    // already taken back.
                    let ghost evc = events@;
                    events.push(ProgressEvent::ChecksumRetry);
                    proof {
                        lemma_prefix_push(oldev, evc, ProgressEvent::ChecksumRetry);
                    }
                    retry_here = retry_here + 1;
                    allow_resume_now = false;
                } else {
                    proof {
                        // a wholly good mirror cannot exhaust the retry
                        // budget: its retries run without resume and
                        // then verify
                        if max_retries >= 1 && spec_some_mirror_good(entry.hash, responses@) {
                            lemma_first_good_bounds(entry.hash, responses@);
                            if url_idx as int == spec_first_good(entry.hash, responses@) {
                                assert(spec_mirror_good(
                                    entry.hash,
                                    responses@[url_idx as int],
                                ));
                                assert(!spec_resumes(
                                    false,
                                    *resp,
                                    spec_file_view(fileb).len() as int,
                                ));
                                assert(false);
                            }
                        }
                    }
                    let ghost evc = events@;
                    events.push(ProgressEvent::SourceExhausted);
                    proof {
                        lemma_prefix_push(oldev, evc, ProgressEvent::SourceExhausted);
                    }
                    url_idx = url_idx + 1;
                    retry_here = 0;
                    allow_resume_now = entry.allow_resume;
                }
            },
            AttemptOutcome::NotFound => {
                proof {
                    if max_retries >= 1 && spec_some_mirror_good(entry.hash, responses@) {
                        lemma_first_good_bounds(entry.hash, responses@);
                        if url_idx as int == spec_first_good(entry.hash, responses@) {
                            assert(spec_mirror_good(entry.hash, responses@[url_idx as int]));
                            assert(false);
                        }
                    }
                }
                last_error = DownloadError::NotFound;
                let ghost evc = events@;
                events.push(ProgressEvent::SourceExhausted);
                proof {
                    lemma_prefix_push(oldev, evc, ProgressEvent::SourceExhausted);
                }
                url_idx = url_idx + 1;
                retry_here = 0;
                allow_resume_now = entry.allow_resume;
            },
            AttemptOutcome::InvalidTotal => {
                proof {
                    if max_retries >= 1 && spec_some_mirror_good(entry.hash, responses@) {
                        lemma_first_good_bounds(entry.hash, responses@);
                        if url_idx as int == spec_first_good(entry.hash, responses@) {
                            assert(spec_mirror_good(entry.hash, responses@[url_idx as int]));
                            assert(false);
                        }
                    }
                }
                last_error = DownloadError::InvaildTotal;
                let ghost evc = events@;
                events.push(ProgressEvent::SourceExhausted);
                proof {
                    lemma_prefix_push(oldev, evc, ProgressEvent::SourceExhausted);
                }
                url_idx = url_idx + 1;
                retry_here = 0;
                allow_resume_now = entry.allow_resume;
            },
            AttemptOutcome::TransportError => {
                proof {
                    if max_retries >= 1 && spec_some_mirror_good(entry.hash, responses@) {
                        lemma_first_good_bounds(entry.hash, responses@);
                        if url_idx as int == spec_first_good(entry.hash, responses@) {
                            assert(spec_mirror_good(entry.hash, responses@[url_idx as int]));
                            assert(false);
                        }
                    }
                }
                last_error = DownloadError::SendRequestError;
                let ghost evc = events@;
                events.push(ProgressEvent::SourceExhausted);
                proof {
                    lemma_prefix_push(oldev, evc, ProgressEvent::SourceExhausted);
                }
                url_idx = url_idx + 1;
                retry_here = 0;
                allow_resume_now = entry.allow_resume;
            },
        }
    }
    proof {
        if max_retries >= 1 && spec_some_mirror_good(entry.hash, responses@) {
            lemma_first_good_bounds(entry.hash, responses@);
            let u = choose|u: int|
                0 <= u < responses@.len() && spec_mirror_good(entry.hash, #[trigger] responses@[u]);
            assert(!spec_mirror_good(entry.hash, responses@[u]));
            assert(false);
        }
    }
    DownloadOutcome {
        success: false,
        bytes_transferred: bytes,
        file: curfile,
        attempts,
        attempt_log,
        resumed_success: false,
        used_url: None,
        total: None,
        error: Some(last_error),
    }
}

/// The canonical archive file name of a package: the package token of
/// the source file name, the version with `:` escaped as `%3a`, and the
/// architecture token (`noarch.deb` mapping to `all.deb`), joined by
/// underscores, with every `%2b` decoded back to `+`. Nothing when the
/// source name lacks its three `_`-separated tokens.
pub open spec fn spec_trans_filename(filename: Seq<u8>, version: Seq<u8>) -> Option<Seq<u8>> {
    let toks = crate::bytes::spec_split_byte(filename, 95);
    if toks.len() < 3 {
        None
    } else {
        let arch = if toks[2] == seq![
            110u8, 111u8, 97u8, 114u8, 99u8, 104u8, 46u8, 100u8, 101u8, 98u8,
        ] {
            seq![97u8, 108u8, 108u8, 46u8, 100u8, 101u8, 98u8]
        } else {
            toks[2]
        };
        let ver = crate::bytes::spec_replace(
            version,
            seq![58u8],
            seq![37u8, 51u8, 97u8],
        );
        Some(
            crate::bytes::spec_replace(
                toks[0] + seq![95u8] + ver + seq![95u8] + arch,
                seq![37u8, 50u8, 98u8],
                seq![43u8],
            ),
        )
    }
}

/// Build the canonical archive file name for a downloaded package.
pub fn trans_filename(filename: &[u8], version: &[u8]) -> (r: Option<Vec<u8>>)
    ensures
        match r {
            Some(v) => spec_trans_filename(filename@, version@) == Some(v@),
            None => spec_trans_filename(filename@, version@) is None,
        },
{
    let toks = crate::bytes::split_byte(filename, 95);
    if toks.len() < 3 {
        return None;
    }
    let noarch: [u8; 10] = [110, 111, 97, 114, 99, 104, 46, 100, 101, 98];
    let alldeb: [u8; 7] = [97, 108, 108, 46, 100, 101, 98];
    let colon: [u8; 1] = [58];
    let esc3a: [u8; 3] = [37, 51, 97];
    let esc2b: [u8; 3] = [37, 50, 98];
    let plus: [u8; 1] = [43];
    proof {
        assert(noarch@ == seq![110u8, 111u8, 97u8, 114u8, 99u8, 104u8, 46u8, 100u8, 101u8, 98u8]);
        assert(alldeb@ == seq![97u8, 108u8, 108u8, 46u8, 100u8, 101u8, 98u8]);
        assert(colon@ == seq![58u8]);
        assert(esc3a@ == seq![37u8, 51u8, 97u8]);
        assert(esc2b@ == seq![37u8, 50u8, 98u8]);
        assert(plus@ == seq![43u8]);
        assert(toks.deep_view()[0] == toks@[0]@);
        assert(toks.deep_view()[2] == toks@[2]@);
    }
    let arch: &Vec<u8> = &toks[2];
    let arch_fixed: &[u8] = if crate::bytes::bytes_eq(arch.as_slice(), &noarch) {
        &alldeb
    } else {
        arch.as_slice()
    };
    let ver = crate::bytes::replace_all(version, &colon, &esc3a);
    let mut joined: Vec<u8> = Vec::new();
    joined.extend_from_slice(toks[0].as_slice());
    joined.push(95);
    joined.extend_from_slice(ver.as_slice());
    joined.push(95);
    joined.extend_from_slice(arch_fixed);
    proof {
        let toksv = crate::bytes::spec_split_byte(filename@, 95);
        let archv = if toksv[2] == seq![
            110u8, 111u8, 97u8, 114u8, 99u8, 104u8, 46u8, 100u8, 101u8, 98u8,
        ] {
            seq![97u8, 108u8, 108u8, 46u8, 100u8, 101u8, 98u8]
        } else {
            toksv[2]
        };
        assert(joined@ =~= toksv[0] + seq![95u8] + crate::bytes::spec_replace(
            version@,
            seq![58u8],
            seq![37u8, 51u8, 97u8],
        ) + seq![95u8] + archv);
    }
    Some(crate::bytes::replace_all(joined.as_slice(), &esc2b, &plus))
}

} // verus!
