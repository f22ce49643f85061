//! Version-difference highlighting for pending-operation tables, and a
//! line printer that buffers what a pager will show.

use vstd::prelude::*;

use crate::bytes::{bytes_eq, find_byte_from, first_pos, lemma_first_pos_is, subvec};

verus! {

/// Index of the first position where two equal-length strings differ,
/// or their length when they are equal.
pub open spec fn spec_first_diff(a: Seq<u8>, b: Seq<u8>) -> int
    decreases a.len(),
{
    if a.len() == 0 || b.len() == 0 {
        0
    } else if a[0] != b[0] {
        0
    } else {
        1 + spec_first_diff(a.skip(1), b.skip(1))
    }
}

proof fn lemma_first_diff_is(a: Seq<u8>, b: Seq<u8>, n: int)
    requires
        a.len() == b.len(),
        0 <= n <= a.len(),
        forall|j: int| 0 <= j < n ==> a[j] == b[j],
        n < a.len() ==> a[n] != b[n],
    ensures
        spec_first_diff(a, b) == n,
    decreases a.len(),
{
    if a.len() == 0 {
    } else if a[0] != b[0] {
    } else {
        assert forall|j: int| 0 <= j < n - 1 implies a.skip(1)[j] == b.skip(1)[j] by {
            assert(a.skip(1)[j] == a[j + 1]);
            assert(b.skip(1)[j] == b[j + 1]);
        }
        if n - 1 < a.skip(1).len() {
            assert(a.skip(1)[n - 1] == a[n]);
            assert(b.skip(1)[n - 1] == b[n]);
        }
        lemma_first_diff_is(a.skip(1), b.skip(1), n - 1);
    }
}

/// Whether a byte separates chunks of a version string.
pub open spec fn is_boundary(c: u8) -> bool {
    c == 46 || c == 45 || c == 126 || c == 43
}

/// The last boundary byte at or before `upto`, or `-1` when there is
/// none.
pub open spec fn spec_last_boundary(a: Seq<u8>, upto: int) -> int
    decreases upto + 1,
{
    if upto < 0 {
        -1
    } else if upto >= a.len() {
        spec_last_boundary(a, a.len() - 1)
    } else if is_boundary(a[upto]) {
        upto
    } else {
        spec_last_boundary(a, upto - 1)
    }
}

/// Where two equal-length versions start to differ for display: nothing
/// when they are equal, else the position after the last version
/// boundary (`.`, `-`, `~`, `+`) at or before the first differing byte,
/// or zero when no boundary precedes it.
pub open spec fn spec_eq_len_diff(a: Seq<u8>, b: Seq<u8>) -> Option<int> {
    if a == b {
        None
    } else {
        let fm = spec_first_diff(a, b);
        let lb = spec_last_boundary(a, fm);
        if lb >= 0 {
            Some(lb + 1)
        } else {
            Some(0)
        }
    }
}

/// Compute where two equal-length versions start to differ.
pub fn version_diff_equal_length(old_version: &[u8], new_version: &[u8]) -> (r: Option<usize>)
    requires
        old_version@.len() == new_version@.len(),
    ensures
        match r {
            None => spec_eq_len_diff(old_version@, new_version@) is None,
            Some(v) => spec_eq_len_diff(old_version@, new_version@) == Some(v as int),
        },
{
    let mut boundary_pos: usize = 0;
    let mut has_boundary = false;
    let mut i: usize = 0;
    while i < old_version.len()
        invariant
            old_version@.len() == new_version@.len(),
            i <= old_version@.len(),
            forall|j: int| 0 <= j < i ==> old_version@[j] == new_version@[j],
            has_boundary ==> spec_last_boundary(old_version@, i - 1) == boundary_pos - 1
                && boundary_pos >= 1,
            !has_boundary ==> spec_last_boundary(old_version@, i - 1) == -1,
        decreases old_version@.len() - i,
    {
        let c = old_version[i];
        if c == 46 || c == 45 || c == 126 || c == 43 {
            boundary_pos = i + 1;
            has_boundary = true;
        }
        proof {
            if is_boundary(old_version@[i as int]) {
                assert(spec_last_boundary(old_version@, i as int) == i);
            } else {
                assert(spec_last_boundary(old_version@, i as int) == spec_last_boundary(
                    old_version@,
                    i - 1,
                ));
            }
        }
        let c2 = new_version[i];
        if c != c2 {
            proof {
                lemma_first_diff_is(old_version@, new_version@, i as int);
            }
            if has_boundary {
                return Some(boundary_pos);
            } else {
                return Some(0);
            }
        }
        i = i + 1;
    }
    proof {
        assert(old_version@ =~= new_version@);
    }
    None
}

/// Whether a version carries an epoch, and where it ends.
pub open spec fn spec_epoch_end(a: Seq<u8>) -> int {
    first_pos(a, 58)
}

/// Where two version strings start to differ, one position for each: the
/// whole string when exactly one has an epoch or their epochs differ;
/// nothing for a side that is a prefix of the other; otherwise the
/// boundary-aligned position of the first difference on both sides.
pub open spec fn spec_version_diff(a: Seq<u8>, b: Seq<u8>) -> (Option<int>, Option<int>) {
    let ae = spec_epoch_end(a) < a.len();
    let be = spec_epoch_end(b) < b.len();
    if (ae || be) && !(ae && be) {
        (Some(0), Some(0))
    } else if ae && be && a.take(spec_epoch_end(a)) != b.take(spec_epoch_end(b)) {
        (Some(0), Some(0))
    } else if a.len() < b.len() {
        if a == b.take(a.len() as int) {
            (None, Some(a.len() as int))
        } else {
            let d = spec_eq_len_diff(a, b.take(a.len() as int));
            (d, d)
        }
    } else if a.len() == b.len() {
        let d = spec_eq_len_diff(a, b);
        (d, d)
    } else {
        if a.take(b.len() as int) == b {
            (Some(b.len() as int), None)
        } else {
            let d = spec_eq_len_diff(a.take(b.len() as int), b);
            (d, d)
        }
    }
}

/// Position of the first occurrence of `:` in `s`, or its length.
fn epoch_end(s: &[u8]) -> (r: usize)
    ensures
        r == spec_epoch_end(s@),
        r <= s@.len(),
{
    match find_byte_from(s, 0, 58) {
        Some(p) => {
            proof {
                lemma_first_pos_is(s@, 58, p as int);
            }
            p
        },
        None => {
            proof {
                lemma_first_pos_is(s@, 58, s@.len() as int);
            }
            s.len()
        },
    }
}

/// Compute where two version strings start to differ, for highlighting.
pub fn version_diff(old_version: &[u8], new_version: &[u8]) -> (r: (Option<usize>, Option<usize>))
    ensures
        ({
            let s = spec_version_diff(old_version@, new_version@);
            &&& (match r.0 {
                None => s.0 is None,
                Some(v) => s.0 == Some(v as int),
            })
            &&& (match r.1 {
                None => s.1 is None,
                Some(v) => s.1 == Some(v as int),
            })
        }),
{
    let ae_end = epoch_end(old_version);
    let be_end = epoch_end(new_version);
    let ae = ae_end < old_version.len();
    let be = be_end < new_version.len();
    if (ae || be) && !(ae && be) {
        return (Some(0), Some(0));
    }
    if ae && be {
        let aeprefix = subvec(old_version, 0, ae_end);
        let beprefix = subvec(new_version, 0, be_end);
        proof {
            assert(aeprefix@ =~= old_version@.take(spec_epoch_end(old_version@)));
            assert(beprefix@ =~= new_version@.take(spec_epoch_end(new_version@)));
        }
        if !bytes_eq(aeprefix.as_slice(), beprefix.as_slice()) {
            return (Some(0), Some(0));
        }
    }
    if old_version.len() < new_version.len() {
        let head = subvec(new_version, 0, old_version.len());
        proof {
            assert(head@ =~= new_version@.take(old_version@.len() as int));
        }
        if bytes_eq(old_version, head.as_slice()) {
            return (None, Some(old_version.len()));
        }
        let d = version_diff_equal_length(old_version, head.as_slice());
        (d, d)
    } else if old_version.len() == new_version.len() {
        let d = version_diff_equal_length(old_version, new_version);
        (d, d)
    } else {
        let head = subvec(old_version, 0, new_version.len());
        proof {
            assert(head@ =~= old_version@.take(new_version@.len() as int));
        }
        if bytes_eq(head.as_slice(), new_version) {
            return (Some(new_version.len()), None);
        }
        let d = version_diff_equal_length(head.as_slice(), new_version);
        (d, d)
    }
}

/// A printer that buffers the lines a pager will show; the shell around
/// the library drains the buffer to the real writer.
#[derive(Debug, Clone)]
pub struct PagerPrinter {
    lines: Vec<String>,
}

impl PagerPrinter {
    /// The buffered lines, in order.
    pub closed spec fn spec_lines(&self) -> Seq<Seq<char>> {
        self.lines.deep_view()
    }

    /// A printer with nothing buffered.
    pub fn new() -> (r: PagerPrinter)
        ensures
            r.spec_lines() == Seq::<Seq<char>>::empty(),
    {
        let r = PagerPrinter { lines: Vec::new() };
        proof {
            assert(r.spec_lines() =~~= Seq::<Seq<char>>::empty());
        }
        r
    }

    /// Buffer one line.
    pub fn print(&mut self, d: String)
        ensures
            final(self).spec_lines() == old(self).spec_lines().push(d@),
    {
        let ghost prev = self.lines.deep_view();
        let ghost dv = d@;
        self.lines.push(d);
        proof {
            assert(self.lines.deep_view() =~~= prev.push(dv));
        }
    }

    /// Hand the buffered lines over, oldest first.
    pub fn take_lines(self) -> (r: Vec<String>)
        ensures
            r.deep_view() == self.spec_lines(),
    {
        self.lines
    }
}

} // verus!
