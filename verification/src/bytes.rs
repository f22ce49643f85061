//! Byte-string utilities shared by the parsing modules.
//!
//! Repository metadata (control files, checksum lines, dates, templates,
//! version strings) is handled as ASCII byte strings throughout the crate;
//! every helper here carries an exact functional contract.

use vstd::prelude::*;

verus! {

/// Whether a byte is ASCII whitespace, as `u8::is_ascii_whitespace` counts it.
pub open spec fn is_ws(b: u8) -> bool {
    b == 32 || b == 9 || b == 10 || b == 12 || b == 13
}

/// Whether a byte is an ASCII decimal digit.
pub open spec fn is_digit(b: u8) -> bool {
    48 <= b <= 57
}

/// `s` begins with `p`.
pub open spec fn seq_starts_with(s: Seq<u8>, p: Seq<u8>) -> bool {
    p.len() <= s.len() && s.subrange(0, p.len() as int) == p
}

/// `s` ends with `p`.
pub open spec fn seq_ends_with(s: Seq<u8>, p: Seq<u8>) -> bool {
    p.len() <= s.len() && s.subrange(s.len() - p.len(), s.len() as int) == p
}

/// Index of the first occurrence of `b` in `s`, or `s.len()` when absent.
pub open spec fn first_pos(s: Seq<u8>, b: u8) -> int
    decreases s.len(),
{
    if s.len() == 0 {
        0
    } else if s[0] == b {
        0
    } else {
        1 + first_pos(s.skip(1), b)
    }
}

/// Index of the first whitespace byte in `s`, or `s.len()` when absent.
pub open spec fn first_ws(s: Seq<u8>) -> int
    decreases s.len(),
{
    if s.len() == 0 {
        0
    } else if is_ws(s[0]) {
        0
    } else {
        1 + first_ws(s.skip(1))
    }
}

/// The first occurrence is pinned by its defining properties.
pub proof fn lemma_first_pos_is(s: Seq<u8>, b: u8, n: int)
    requires
        0 <= n <= s.len(),
        forall|j: int| 0 <= j < n ==> s[j] != b,
        n < s.len() ==> s[n] == b,
    ensures
        first_pos(s, b) == n,
    decreases s.len(),
{
    if s.len() == 0 {
    } else if s[0] == b {
    } else {
        assert forall|j: int| 0 <= j < n - 1 implies s.skip(1)[j] != b by {
            assert(s.skip(1)[j] == s[j + 1]);
        }
        if n - 1 < s.skip(1).len() {
            assert(s.skip(1)[n - 1] == s[n]);
        }
        lemma_first_pos_is(s.skip(1), b, n - 1);
    }
}

pub proof fn lemma_first_ws_is(s: Seq<u8>, n: int)
    requires
        0 <= n <= s.len(),
        forall|j: int| 0 <= j < n ==> !is_ws(s[j]),
        n < s.len() ==> is_ws(s[n]),
    ensures
        first_ws(s) == n,
    decreases s.len(),
{
    if s.len() == 0 {
    } else if is_ws(s[0]) {
    } else {
        assert forall|j: int| 0 <= j < n - 1 implies !is_ws(s.skip(1)[j]) by {
            assert(s.skip(1)[j] == s[j + 1]);
        }
        if n - 1 < s.skip(1).len() {
            assert(s.skip(1)[n - 1] == s[n]);
        }
        lemma_first_ws_is(s.skip(1), n - 1);
    }
}

/// Executable check that a byte is ASCII whitespace.
pub fn byte_is_ws(b: u8) -> (r: bool)
    ensures
        r == is_ws(b),
{
    b == 32 || b == 9 || b == 10 || b == 12 || b == 13
}

/// Executable check that a byte is an ASCII decimal digit.
pub fn byte_is_digit(b: u8) -> (r: bool)
    ensures
        r == is_digit(b),
{
    48 <= b && b <= 57
}

/// First occurrence of `b` in `s` at or after `from`, if any.
pub fn find_byte_from(s: &[u8], from: usize, b: u8) -> (r: Option<usize>)
    requires
        from <= s@.len(),
    ensures
        match r {
            Some(i) => from <= i < s@.len() && s@[i as int] == b && forall|j: int|
                from <= j < i ==> s@[j] != b,
            None => forall|j: int| from <= j < s@.len() ==> s@[j] != b,
        },
{
    let mut i: usize = from;
    while i < s.len()
        invariant
            from <= i <= s@.len(),
            forall|j: int| from <= j < i ==> s@[j] != b,
        decreases s@.len() - i,
    {
        if s[i] == b {
            return Some(i);
        }
        i = i + 1;
    }
    None
}

/// First whitespace byte in `s` at or after `from`, if any.
pub fn find_ws_from(s: &[u8], from: usize) -> (r: Option<usize>)
    requires
        from <= s@.len(),
    ensures
        match r {
            Some(i) => from <= i < s@.len() && is_ws(s@[i as int]) && forall|j: int|
                from <= j < i ==> !is_ws(s@[j]),
            None => forall|j: int| from <= j < s@.len() ==> !is_ws(s@[j]),
        },
{
    let mut i: usize = from;
    while i < s.len()
        invariant
            from <= i <= s@.len(),
            forall|j: int| from <= j < i ==> !is_ws(s@[j]),
        decreases s@.len() - i,
    {
        if byte_is_ws(s[i]) {
            return Some(i);
        }
        i = i + 1;
    }
    None
}

/// Element-wise equality of two byte slices.
pub fn bytes_eq(a: &[u8], b: &[u8]) -> (r: bool)
    ensures
        r == (a@ == b@),
{
    if a.len() != b.len() {
        proof {
            assert(a@.len() != b@.len());
        }
        return false;
    }
    let mut i: usize = 0;
    while i < a.len()
        invariant
            a@.len() == b@.len(),
            i <= a@.len(),
            forall|j: int| 0 <= j < i ==> a@[j] == b@[j],
        decreases a@.len() - i,
    {
        if a[i] != b[i] {
            return false;
        }
        i = i + 1;
    }
    proof {
        assert(a@ =~= b@);
    }
    true
}

/// Does `s` begin with `p`?
pub fn starts_with(s: &[u8], p: &[u8]) -> (r: bool)
    ensures
        r == seq_starts_with(s@, p@),
{
    if p.len() > s.len() {
        return false;
    }
    let head = &s[0..p.len()];
    bytes_eq(head, p)
}

/// Does `s` end with `p`?
pub fn ends_with(s: &[u8], p: &[u8]) -> (r: bool)
    ensures
        r == seq_ends_with(s@, p@),
{
    if p.len() > s.len() {
        return false;
    }
    let tail = &s[s.len() - p.len()..s.len()];
    bytes_eq(tail, p)
}

/// Copy of the byte range `[from, to)` of `s`.
pub fn subvec(s: &[u8], from: usize, to: usize) -> (r: Vec<u8>)
    requires
        from <= to <= s@.len(),
    ensures
        r@ == s@.subrange(from as int, to as int),
{
    let mut out: Vec<u8> = Vec::new();
    out.extend_from_slice(&s[from..to]);
    out
}

/// Mathematical value of a string of decimal digits (most significant first).
pub open spec fn digits_val(s: Seq<u8>) -> int
    decreases s.len(),
{
    if s.len() == 0 {
        0
    } else {
        digits_val(s.drop_last()) * 10 + (s.last() - 48)
    }
}

pub proof fn lemma_digits_val_nonneg(s: Seq<u8>)
    requires
        forall|j: int| 0 <= j < s.len() ==> is_digit(s[j]),
    ensures
        digits_val(s) >= 0,
    decreases s.len(),
{
    if s.len() > 0 {
        lemma_digits_val_nonneg(s.drop_last());
    }
}

proof fn lemma_digits_val_step(s: Seq<u8>, i: int)
    requires
        0 <= i < s.len(),
    ensures
        digits_val(s.take(i + 1)) == digits_val(s.take(i)) * 10 + (s[i] - 48),
{
    assert(s.take(i + 1).drop_last() =~= s.take(i));
    assert(s.take(i + 1).last() == s[i]);
}

proof fn lemma_digits_val_grows(s: Seq<u8>, i: int)
    requires
        0 <= i <= s.len(),
        forall|j: int| 0 <= j < s.len() ==> is_digit(s[j]),
    ensures
        digits_val(s) >= digits_val(s.take(i)),
    decreases s.len() - i,
{
    if i == s.len() {
        assert(s.take(i) =~= s);
    } else {
        lemma_digits_val_step(s, i);
        assert(forall|j: int| 0 <= j < s.take(i).len() ==> is_digit(s.take(i)[j]));
        lemma_digits_val_nonneg(s.take(i));
        assert(digits_val(s.take(i + 1)) >= digits_val(s.take(i)));
        lemma_digits_val_grows(s, i + 1);
    }
}

/// Parse an unsigned decimal number: one or more ASCII digits whose
/// value is in range. Nothing else is accepted — in particular no sign,
/// so this is stricter than `str::parse::<u64>`, which also allows a
/// leading `+`.
pub fn parse_u64(s: &[u8]) -> (r: Option<u64>)
    ensures
        match r {
            Some(v) => s@.len() > 0 && (forall|j: int| 0 <= j < s@.len() ==> is_digit(s@[j]))
                && digits_val(s@) == v,
            None => s@.len() == 0 || (exists|j: int| 0 <= j < s@.len() && !is_digit(s@[j]))
                || digits_val(s@) > u64::MAX,
        },
{
    if s.len() == 0 {
        return None;
    }
    let mut acc: u64 = 0;
    let mut i: usize = 0;
    while i < s.len()
        invariant
            i <= s@.len(),
            s@.len() > 0,
            forall|j: int| 0 <= j < i ==> is_digit(s@[j]),
            acc == digits_val(s@.take(i as int)),
        decreases s@.len() - i,
    {
        let b = s[i];
        if !byte_is_digit(b) {
            return None;
        }
        let d: u64 = (b - 48) as u64;
        let shifted = match acc.checked_mul(10) {
            Some(x) => x,
            None => {
                proof {
                    lemma_digits_val_step(s@, i as int);
                    if forall|j: int| 0 <= j < s@.len() ==> is_digit(s@[j]) {
                        lemma_digits_val_grows(s@, i as int + 1);
                    }
                }
                return None;
            },
        };
        let next = match shifted.checked_add(d) {
            Some(x) => x,
            None => {
                proof {
                    lemma_digits_val_step(s@, i as int);
                    if forall|j: int| 0 <= j < s@.len() ==> is_digit(s@[j]) {
                        lemma_digits_val_grows(s@, i as int + 1);
                    }
                }
                return None;
            },
        };
        proof {
            lemma_digits_val_step(s@, i as int);
        }
        acc = next;
        i = i + 1;
    }
    proof {
        assert(s@.take(i as int) =~= s@);
    }
    Some(acc)
}

proof fn lemma_skip_skip(s: Seq<u8>, i: int, k: int)
    requires
        0 <= i,
        0 <= k,
        i + k <= s.len(),
    ensures
        s.skip(i).skip(k) =~= s.skip(i + k),
{
}

/// The tokens of `s`: its maximal runs of non-whitespace bytes, in order.
pub open spec fn spec_split_ws(s: Seq<u8>) -> Seq<Seq<u8>>
    decreases s.len(),
{
    if s.len() == 0 {
        Seq::empty()
    } else {
        let rest = spec_split_ws(s.skip(1));
        if is_ws(s[0]) {
            rest
        } else if s.len() >= 2 && !is_ws(s[1]) {
            seq![seq![s[0]] + rest[0]] + rest.skip(1)
        } else {
            seq![seq![s[0]]] + rest
        }
    }
}

/// A maximal non-whitespace run `[i, j)` is the head token of `s.skip(i)`.
proof fn lemma_split_ws_token(s: Seq<u8>, i: int, j: int)
    requires
        0 <= i < j <= s.len(),
        forall|k: int| i <= k < j ==> !is_ws(s[k]),
        j == s.len() || is_ws(s[j]),
    ensures
        spec_split_ws(s.skip(i)) =~= seq![s.subrange(i, j)] + spec_split_ws(s.skip(j)),
    decreases j - i,
{
    let t = s.skip(i);
    assert(t[0] == s[i]);
    if i + 1 == j {
        if j < s.len() {
            assert(t[1] == s[j]);
            assert(t.len() >= 2 && is_ws(t[1]));
        }
        lemma_skip_skip(s, i, 1);
        assert(spec_split_ws(t) =~= seq![seq![s[i]]] + spec_split_ws(s.skip(j)));
        assert(seq![s[i]] =~= s.subrange(i, j));
    } else {
        assert(t[1] == s[i + 1]);
        assert(!is_ws(t[1]));
        lemma_skip_skip(s, i, 1);
        lemma_split_ws_token(s, i + 1, j);
        let rest = spec_split_ws(s.skip(i + 1));
        assert(rest =~= seq![s.subrange(i + 1, j)] + spec_split_ws(s.skip(j)));
        assert(rest[0] == s.subrange(i + 1, j));
        assert(seq![s[i]] + rest[0] =~= s.subrange(i, j));
        assert(rest.skip(1) =~= spec_split_ws(s.skip(j)));
    }
}

/// Skipping a whitespace byte does not change the tokens.
proof fn lemma_split_ws_skip_ws(s: Seq<u8>, i: int)
    requires
        0 <= i < s.len(),
        is_ws(s[i]),
    ensures
        spec_split_ws(s.skip(i)) == spec_split_ws(s.skip(i + 1)),
{
    let t = s.skip(i);
    assert(t[0] == s[i]);
    lemma_skip_skip(s, i, 1);
    assert(t.skip(1) =~= s.skip(i + 1));
}

/// Split `s` into its maximal non-whitespace runs, as
/// `str::split_ascii_whitespace` does.
pub fn split_ws(s: &[u8]) -> (r: Vec<Vec<u8>>)
    ensures
        r.deep_view() == spec_split_ws(s@),
{
    let mut out: Vec<Vec<u8>> = Vec::new();
    let mut i: usize = 0;
    proof {
        assert(s@.skip(0) =~= s@);
    }
    while i < s.len()
        invariant
            i <= s@.len(),
            spec_split_ws(s@) =~= out.deep_view() + spec_split_ws(s@.skip(i as int)),
        decreases s@.len() - i,
    {
        if byte_is_ws(s[i]) {
            proof {
                lemma_split_ws_skip_ws(s@, i as int);
            }
            i = i + 1;
        } else {
            let j = match find_ws_from(s, i) {
                Some(j) => j,
                None => s.len(),
            };
            let tok = subvec(s, i, j);
            proof {
                lemma_split_ws_token(s@, i as int, j as int);
            }
            let ghost prev = out.deep_view();
            let ghost tokv = tok@;
            out.push(tok);
            proof {
                assert(out.deep_view() =~~= prev.push(tokv));
            }
            i = j;
        }
    }
    proof {
        assert(s@.skip(i as int) =~= Seq::<u8>::empty());
        assert(spec_split_ws(s@) =~= out.deep_view());
    }
    out
}

/// Split `s` at every occurrence of `b`, as `str::split` does:
/// the result always has one part more than there are separators,
/// and empty parts are kept.
pub open spec fn spec_split_byte(s: Seq<u8>, b: u8) -> Seq<Seq<u8>>
    decreases s.len(),
{
    if s.len() == 0 {
        seq![Seq::empty()]
    } else {
        let rest = spec_split_byte(s.skip(1), b);
        if s[0] == b {
            seq![Seq::<u8>::empty()] + rest
        } else {
            seq![seq![s[0]] + rest[0]] + rest.skip(1)
        }
    }
}

pub proof fn lemma_split_byte_nonempty(s: Seq<u8>, b: u8)
    ensures
        spec_split_byte(s, b).len() >= 1,
    decreases s.len(),
{
    if s.len() > 0 {
        lemma_split_byte_nonempty(s.skip(1), b);
    }
}

/// A separator-free run `[i, j)` is the head part of `s.skip(i)`.
proof fn lemma_split_byte_segment(s: Seq<u8>, b: u8, i: int, j: int)
    requires
        0 <= i <= j <= s.len(),
        forall|k: int| i <= k < j ==> s[k] != b,
        j == s.len() || s[j] == b,
    ensures
        j == s.len() ==> spec_split_byte(s.skip(i), b) =~= seq![s.subrange(i, j)],
        j < s.len() ==> spec_split_byte(s.skip(i), b) =~= seq![s.subrange(i, j)]
            + spec_split_byte(s.skip(j + 1), b),
    decreases j - i,
{
    let t = s.skip(i);
    if i == j {
        if j == s.len() {
            assert(t =~= Seq::<u8>::empty());
            assert(s.subrange(i, j) =~= Seq::<u8>::empty());
        } else {
            assert(t[0] == s[j]);
            lemma_skip_skip(s, i, 1);
            assert(s.subrange(i, j) =~= Seq::<u8>::empty());
        }
    } else {
        assert(t[0] == s[i]);
        lemma_skip_skip(s, i, 1);
        lemma_split_byte_segment(s, b, i + 1, j);
        let rest = spec_split_byte(s.skip(i + 1), b);
        lemma_split_byte_nonempty(s.skip(i + 1), b);
        if j == s.len() {
            assert(rest[0] == s.subrange(i + 1, j));
            assert(seq![s[i]] + rest[0] =~= s.subrange(i, j));
            assert(rest.skip(1) =~= Seq::<Seq<u8>>::empty());
        } else {
            assert(rest[0] == s.subrange(i + 1, j));
            assert(seq![s[i]] + rest[0] =~= s.subrange(i, j));
            assert(rest.skip(1) =~= spec_split_byte(s.skip(j + 1), b));
        }
    }
}

/// Split `s` at every occurrence of `b`, keeping empty parts.
pub fn split_byte(s: &[u8], b: u8) -> (r: Vec<Vec<u8>>)
    ensures
        r.deep_view() == spec_split_byte(s@, b),
        r.len() >= 1,
{
    let mut out: Vec<Vec<u8>> = Vec::new();
    let mut i: usize = 0;
    let n = s.len();
    proof {
        assert(s@.skip(0) =~= s@);
    }
    loop
        invariant
            i <= s@.len(),
            n == s@.len(),
            spec_split_byte(s@, b) =~= out.deep_view() + spec_split_byte(s@.skip(i as int), b),
        ensures
            out.deep_view() =~= spec_split_byte(s@, b),
            out.len() >= 1,
        decreases s@.len() - i,
    {
        match find_byte_from(s, i, b) {
            Some(j) => {
                let part = subvec(s, i, j);
                proof {
                    lemma_split_byte_segment(s@, b, i as int, j as int);
                }
                let ghost prev = out.deep_view();
                let ghost partv = part@;
                out.push(part);
                proof {
                    assert(out.deep_view() =~~= prev.push(partv));
                }
                i = j + 1;
            },
            None => {
                let part = subvec(s, i, s.len());
                proof {
                    lemma_split_byte_segment(s@, b, i as int, s@.len() as int);
                }
                let ghost prev = out.deep_view();
                let ghost partv = part@;
                out.push(part);
                proof {
                    assert(out.deep_view() =~~= prev.push(partv));
                    lemma_split_byte_nonempty(s@, b);
                }
                return out;
            },
        }
    }
}

/// The parts joined with `sep` between consecutive parts.
pub open spec fn spec_join(parts: Seq<Seq<u8>>, sep: Seq<u8>) -> Seq<u8>
    decreases parts.len(),
{
    if parts.len() == 0 {
        Seq::empty()
    } else if parts.len() == 1 {
        parts[0]
    } else {
        parts[0] + sep + spec_join(parts.skip(1), sep)
    }
}

proof fn lemma_join_snoc(parts: Seq<Seq<u8>>, x: Seq<u8>, sep: Seq<u8>)
    ensures
        parts.len() == 0 ==> spec_join(parts.push(x), sep) == x,
        parts.len() >= 1 ==> spec_join(parts.push(x), sep) =~= spec_join(parts, sep) + sep + x,
    decreases parts.len(),
{
    if parts.len() == 0 {
        assert(spec_join(parts.push(x), sep) == parts.push(x)[0]);
        assert(parts.push(x)[0] == x);
    } else if parts.len() == 1 {
        assert(parts.push(x).skip(1) =~= seq![x]);
        assert(spec_join(parts.push(x), sep) == parts[0] + sep + spec_join(seq![x], sep));
    } else {
        assert(parts.push(x).skip(1) =~= parts.skip(1).push(x));
        lemma_join_snoc(parts.skip(1), x, sep);
    }
}

/// Join the parts with `sep` between consecutive parts.
pub fn join_bytes(parts: &Vec<Vec<u8>>, sep: u8) -> (r: Vec<u8>)
    ensures
        r@ == spec_join(parts.deep_view(), seq![sep]),
{
    let mut out: Vec<u8> = Vec::new();
    let mut i: usize = 0;
    while i < parts.len()
        invariant
            i <= parts.len(),
            out@ =~= spec_join(parts.deep_view().take(i as int), seq![sep]),
        decreases parts.len() - i,
    {
        if i > 0 {
            out.push(sep);
        }
        out.extend_from_slice(parts[i].as_slice());
        proof {
            assert(parts.deep_view().take(i + 1) =~~= parts.deep_view().take(i as int).push(
                parts[i as int]@,
            ));
            lemma_join_snoc(parts.deep_view().take(i as int), parts[i as int]@, seq![sep]);
        }
        i = i + 1;
    }
    proof {
        assert(parts.deep_view().take(parts.len() as int) =~= parts.deep_view());
    }
    out
}

/// `s` with every (leftmost, non-overlapping) occurrence of `pat`
/// replaced by `rep`, as `str::replace` does.
pub open spec fn spec_replace(s: Seq<u8>, pat: Seq<u8>, rep: Seq<u8>) -> Seq<u8>
    decreases s.len(),
{
    if pat.len() == 0 || s.len() < pat.len() {
        s
    } else if seq_starts_with(s, pat) {
        rep + spec_replace(s.skip(pat.len() as int), pat, rep)
    } else {
        seq![s[0]] + spec_replace(s.skip(1), pat, rep)
    }
}

proof fn lemma_replace_step(s: Seq<u8>, pat: Seq<u8>, rep: Seq<u8>, i: int)
    requires
        pat.len() >= 1,
        0 <= i <= s.len(),
    ensures
        i + pat.len() <= s.len() && s.subrange(i, i + pat.len()) == pat ==> spec_replace(
            s.skip(i),
            pat,
            rep,
        ) =~= rep + spec_replace(s.skip(i + pat.len()), pat, rep),
        i < s.len() && !(i + pat.len() <= s.len() && s.subrange(i, i + pat.len()) == pat)
            ==> spec_replace(s.skip(i), pat, rep) =~= seq![s[i]] + spec_replace(
            s.skip(i + 1),
            pat,
            rep,
        ),
{
    let t = s.skip(i);
    if i + pat.len() <= s.len() && s.subrange(i, i + pat.len()) == pat {
        assert(t.subrange(0, pat.len() as int) =~= s.subrange(i, i + pat.len()));
        assert(seq_starts_with(t, pat));
        lemma_skip_skip(s, i, pat.len() as int);
    } else if i < s.len() {
        assert(t[0] == s[i]);
        if pat.len() <= t.len() {
            assert(t.subrange(0, pat.len() as int) =~= s.subrange(i, i + pat.len()));
            assert(!seq_starts_with(t, pat));
        }
        lemma_skip_skip(s, i, 1);
    }
}

/// Replace every occurrence of `pat` in `s` by `rep`, left to right.
pub fn replace_all(s: &[u8], pat: &[u8], rep: &[u8]) -> (r: Vec<u8>)
    requires
        pat@.len() >= 1,
    ensures
        r@ == spec_replace(s@, pat@, rep@),
{
    let mut out: Vec<u8> = Vec::new();
    let mut i: usize = 0;
    proof {
        assert(s@.skip(0) =~= s@);
    }
    while i < s.len()
        invariant
            i <= s@.len(),
            pat@.len() >= 1,
            spec_replace(s@, pat@, rep@) =~= out@ + spec_replace(s@.skip(i as int), pat@, rep@),
        decreases s@.len() - i,
    {
        let matched = if pat.len() <= s.len() - i {
            bytes_eq(&s[i..i + pat.len()], pat)
        } else {
            false
        };
        proof {
            lemma_replace_step(s@, pat@, rep@, i as int);
        }
        if matched {
            out.extend_from_slice(rep);
            i = i + pat.len();
        } else {
            out.push(s[i]);
            i = i + 1;
        }
    }
    proof {
        assert(s@.skip(i as int) =~= Seq::<u8>::empty());
        assert(spec_replace(s@.skip(i as int), pat@, rep@) =~= Seq::<u8>::empty());
        assert(out@ =~= spec_replace(s@, pat@, rep@));
    }
    out
}

/// `s` without its leading ASCII whitespace.
pub open spec fn spec_trim_start(s: Seq<u8>) -> Seq<u8>
    decreases s.len(),
{
    if s.len() > 0 && is_ws(s[0]) {
        spec_trim_start(s.skip(1))
    } else {
        s
    }
}

/// `s` without its trailing ASCII whitespace.
pub open spec fn spec_trim_end(s: Seq<u8>) -> Seq<u8>
    decreases s.len(),
{
    if s.len() > 0 && is_ws(s.last()) {
        spec_trim_end(s.drop_last())
    } else {
        s
    }
}

/// `s` without leading and trailing ASCII whitespace.
pub open spec fn spec_trim(s: Seq<u8>) -> Seq<u8> {
    spec_trim_end(spec_trim_start(s))
}

proof fn lemma_trim_start_is(s: Seq<u8>, a: int)
    requires
        0 <= a <= s.len(),
        forall|j: int| 0 <= j < a ==> is_ws(s[j]),
        a == s.len() || !is_ws(s[a]),
    ensures
        spec_trim_start(s) =~= s.skip(a),
    decreases a,
{
    if a == 0 {
        assert(s.skip(0) =~= s);
    } else {
        assert(is_ws(s[0]));
        lemma_skip_skip(s, 1, a - 1);
        assert forall|j: int| 0 <= j < a - 1 implies is_ws(s.skip(1)[j]) by {
            assert(s.skip(1)[j] == s[j + 1]);
        }
        if a - 1 < s.skip(1).len() {
            assert(s.skip(1)[a - 1] == s[a]);
        }
        lemma_trim_start_is(s.skip(1), a - 1);
    }
}

proof fn lemma_trim_end_is(s: Seq<u8>, b: int)
    requires
        0 <= b <= s.len(),
        forall|j: int| b <= j < s.len() ==> is_ws(s[j]),
        b == 0 || !is_ws(s[b - 1]),
    ensures
        spec_trim_end(s) =~= s.take(b),
    decreases s.len() - b,
{
    if b == s.len() {
        assert(s.take(b) =~= s);
    } else {
        assert(is_ws(s.last()));
        assert forall|j: int| b <= j < s.drop_last().len() implies is_ws(s.drop_last()[j]) by {
            assert(s.drop_last()[j] == s[j]);
        }
        lemma_trim_end_is(s.drop_last(), b);
        assert(s.drop_last().take(b) =~= s.take(b));
    }
}

/// Trim leading and trailing ASCII whitespace, as `str::trim` does on
/// ASCII text.
pub fn trim_ascii(s: &[u8]) -> (r: Vec<u8>)
    ensures
        r@ == spec_trim(s@),
{
    let mut a: usize = 0;
    while a < s.len() && byte_is_ws(s[a])
        invariant
            a <= s@.len(),
            forall|j: int| 0 <= j < a ==> is_ws(s@[j]),
        decreases s@.len() - a,
    {
        a = a + 1;
    }
    let mut b: usize = s.len();
    while b > a && byte_is_ws(s[b - 1])
        invariant
            a <= b <= s@.len(),
            forall|j: int| 0 <= j < a ==> is_ws(s@[j]),
            forall|j: int| b <= j < s@.len() ==> is_ws(s@[j]),
        decreases b,
    {
        b = b - 1;
    }
    proof {
        lemma_trim_start_is(s@, a as int);
        let t = s@.skip(a as int);
        assert forall|j: int| (b - a) <= j < t.len() implies is_ws(t[j]) by {
            assert(t[j] == s@[j + a]);
        }
        if b > a {
            assert(t[b - a - 1] == s@[b - 1]);
        }
        lemma_trim_end_is(t, b - a);
        assert(t.take(b - a) =~= s@.subrange(a as int, b as int));
    }
    subvec(s, a, b)
}

/// ASCII lower-casing of one byte.
pub open spec fn lower_byte(b: u8) -> u8 {
    if 65 <= b <= 90 {
        (b + 32) as u8
    } else {
        b
    }
}

/// ASCII lower-casing, as `str::to_ascii_lowercase` does.
pub fn to_lowercase_ascii(s: &[u8]) -> (r: Vec<u8>)
    ensures
        r@ == s@.map_values(|b: u8| lower_byte(b)),
{
    let mut out: Vec<u8> = Vec::new();
    let mut i: usize = 0;
    while i < s.len()
        invariant
            i <= s@.len(),
            out@ =~= s@.take(i as int).map_values(|b: u8| lower_byte(b)),
        decreases s@.len() - i,
    {
        let b = s[i];
        if 65 <= b && b <= 90 {
            out.push(b + 32);
        } else {
            out.push(b);
        }
        proof {
            assert(s@.take(i + 1).map_values(|b: u8| lower_byte(b)) =~= s@.take(
                i as int,
            ).map_values(|b: u8| lower_byte(b)).push(lower_byte(s@[i as int])));
        }
        i = i + 1;
    }
    proof {
        assert(s@.take(i as int) =~= s@);
    }
    out
}

} // verus!

