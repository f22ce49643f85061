//! Parsing and validity checking of `InRelease` repository metadata.
//!
//! An `InRelease` document is a control-file paragraph of `Key: Value`
//! fields, where a line starting with whitespace continues the value of
//! the preceding field. The first paragraph carries a checksum manifest
//! (one of `SHA256`, `SHA512`, `MD5Sum`), optional `Date` / `Valid-Until`
//! bounds, and an `Acquire-By-Hash` flag.

use vstd::prelude::*;

use crate::bytes::{
    byte_is_ws, bytes_eq, digits_val, find_byte_from, find_ws_from, first_pos, first_ws, is_digit,
    is_ws, lemma_first_pos_is, lemma_first_ws_is, parse_u64, spec_join, spec_replace,
    spec_split_byte, spec_split_ws, spec_trim, split_byte, split_ws, subvec, trim_ascii,
};
use crate::verify::VerifyError;

verus! {

/// Why a refresh of one repository source failed at the metadata stage.
#[derive(Debug, Clone)]
pub enum InReleaseError {
    /// The document is unsigned and policy does not mark the source trusted.
    NotTrusted,
    /// The signature verifier rejected the document.
    VerifyError(VerifyError),
    /// The `Date` field is missing or does not parse.
    BadInReleaseData,
    /// The `Valid-Until` field does not parse.
    BadInReleaseValidUntil,
    /// The `Date` field lies in the future.
    EarlierSignature,
    /// The `Valid-Until` field lies in the past.
    ExpiredSignature,
    /// The document is not a well-formed control-file paragraph.
    InReleaseSyntaxError,
    /// A fetched index file has an extension no decompressor handles.
    UnsupportedFileType,
    /// A numeric field does not parse as an unsigned integer.
    ParseIntError,
    /// The paragraph carries no usable checksum manifest.
    BrokenInRelease,
}

/// One field of the paragraph.
#[derive(Debug, Clone)]
pub struct ReleaseField {
    pub name: Vec<u8>,
    pub value: Vec<u8>,
}

/// Ghost image of a field list.
pub open spec fn fields_view(fields: Seq<ReleaseField>) -> Seq<(Seq<u8>, Seq<u8>)> {
    fields.map_values(|f: ReleaseField| (f.name@, f.value@))
}

/// Strip one trailing carriage return.
pub open spec fn strip_cr(l: Seq<u8>) -> Seq<u8> {
    if l.len() > 0 && l.last() == 13 {
        l.drop_last()
    } else {
        l
    }
}

/// The lines of `s`, as `str::lines` yields them: split at every newline,
/// no entry for a trailing newline, and a trailing carriage return
/// removed from each line.
pub open spec fn spec_lines(s: Seq<u8>) -> Seq<Seq<u8>> {
    let parts = spec_split_byte(s, 10);
    let kept = if parts.len() > 0 && parts.last().len() == 0 {
        parts.drop_last()
    } else {
        parts
    };
    kept.map_values(|l: Seq<u8>| strip_cr(l))
}

/// Split `s` into lines, as `str::lines` does.
pub fn lines(s: &[u8]) -> (r: Vec<Vec<u8>>)
    ensures
        r.deep_view() == spec_lines(s@),
{
    let parts = split_byte(s, 10);
    let mut kept = parts;
    if kept.len() > 0 && kept[kept.len() - 1].len() == 0 {
        let ghost before = kept.deep_view();
        kept.pop();
        proof {
            assert(kept.deep_view() =~~= before.drop_last());
        }
    }
    let mut out: Vec<Vec<u8>> = Vec::new();
    let mut i: usize = 0;
    while i < kept.len()
        invariant
            i <= kept.len(),
            out.deep_view() =~= kept.deep_view().take(i as int).map_values(
                |l: Seq<u8>| strip_cr(l),
            ),
        decreases kept.len() - i,
    {
        let line = &kept[i];
        let stripped = if line.len() > 0 && line[line.len() - 1] == 13 {
            subvec(line.as_slice(), 0, line.len() - 1)
        } else {
            subvec(line.as_slice(), 0, line.len())
        };
        proof {
            assert(kept[i as int]@.subrange(0, kept[i as int]@.len() as int) =~= kept[i as int]@);
            assert(stripped@ =~= strip_cr(kept.deep_view()[i as int]));
        }
        let ghost prev = out.deep_view();
        let ghost sv = stripped@;
        out.push(stripped);
        proof {
            assert(out.deep_view() =~~= prev.push(sv));
            assert(kept.deep_view().take(i + 1).map_values(|l: Seq<u8>| strip_cr(l)) =~~= kept.deep_view().take(
                i as int,
            ).map_values(|l: Seq<u8>| strip_cr(l)).push(strip_cr(kept.deep_view()[i as int])));
        }
        i = i + 1;
    }
    proof {
        assert(kept.deep_view().take(kept.len() as int) =~~= kept.deep_view());
    }
    out
}

/// Fold the lines of the first paragraph into a field list.
///
/// Blank lines before the paragraph are skipped; the first blank line
/// after a field ends it. A line starting with whitespace continues the
/// previous field: its trimmed text is appended to the value after a
/// newline. Any other line must hold a colon, which splits it into the
/// field name and the trimmed value; a later field of the same name
/// shadows an earlier one when looked up. `None` is a syntax error.
pub open spec fn spec_parse_fields_rec(
    ls: Seq<Seq<u8>>,
    acc: Seq<(Seq<u8>, Seq<u8>)>,
) -> Option<Seq<(Seq<u8>, Seq<u8>)>>
    decreases ls.len(),
{
    if ls.len() == 0 {
        Some(acc)
    } else {
        let l = ls[0];
        if l.len() == 0 {
            if acc.len() == 0 {
                spec_parse_fields_rec(ls.skip(1), acc)
            } else {
                Some(acc)
            }
        } else if is_ws(l[0]) {
            if acc.len() == 0 {
                None
            } else {
                let lastf = acc.last();
                spec_parse_fields_rec(
                    ls.skip(1),
                    acc.update(acc.len() - 1, (lastf.0, lastf.1 + seq![10u8] + spec_trim(l))),
                )
            }
        } else {
            let p = first_pos(l, 58);
            if p == l.len() {
                None
            } else {
                spec_parse_fields_rec(
                    ls.skip(1),
                    acc.push((l.take(p), spec_trim(l.skip(p + 1)))),
                )
            }
        }
    }
}

/// The fields of the first paragraph of `input`.
pub open spec fn spec_parse_fields(input: Seq<u8>) -> Option<Seq<(Seq<u8>, Seq<u8>)>> {
    spec_parse_fields_rec(spec_lines(input), Seq::empty())
}

/// Parse the first control-file paragraph of `input` into its fields.
/// Fails with `InReleaseSyntaxError` exactly when the paragraph is
/// malformed, and with `BrokenInRelease` when it holds no field at all.
pub fn parse_release_fields(input: &[u8]) -> (r: Result<Vec<ReleaseField>, InReleaseError>)
    ensures
        match r {
            Ok(fields) => spec_parse_fields(input@) == Some(fields_view(fields@)) && fields@.len()
                > 0,
            Err(e) => match e {
                InReleaseError::InReleaseSyntaxError => spec_parse_fields(input@) is None,
                InReleaseError::BrokenInRelease => spec_parse_fields(input@) matches Some(fs)
                    && fs.len() == 0,
                _ => false,
            },
        },
{
    let ls = lines(input);
    let mut acc: Vec<ReleaseField> = Vec::new();
    let mut i: usize = 0;
    let ghost lv = spec_lines(input@);
    proof {
        assert(lv.skip(0) =~~= lv);
        assert(fields_view(acc@) =~= Seq::<(Seq<u8>, Seq<u8>)>::empty());
    }
    while i < ls.len()
        invariant
            i <= ls.len(),
            ls.deep_view() == lv,
            lv == spec_lines(input@),
            spec_parse_fields_rec(lv, Seq::empty()) == spec_parse_fields_rec(
                lv.skip(i as int),
                fields_view(acc@),
            ),
        decreases ls.len() - i,
    {
        let line = &ls[i];
        proof {
            assert(lv.skip(i as int)[0] == line@);
            assert(lv.skip(i as int).skip(1) =~~= lv.skip(i as int + 1));
        }
        if line.len() == 0 {
            if acc.len() == 0 {
                i = i + 1;
                continue ;
            } else {
                proof {
                    assert(lv.skip(i as int).len() > 0);
                    assert(lv.skip(i as int)[0].len() == 0);
                    assert(fields_view(acc@).len() > 0);
                    assert(spec_parse_fields_rec(lv.skip(i as int), fields_view(acc@)) == Some(
                        fields_view(acc@),
                    ));
                    assert(spec_parse_fields(input@) == Some(fields_view(acc@)));
                }
                return Ok(acc);
            }
        } else if byte_is_ws(line[0]) {
            if acc.len() == 0 {
                return Err(InReleaseError::InReleaseSyntaxError);
            }
            let ghost oldfv = fields_view(acc@);
            let lastf = match acc.pop() {
                Some(f) => f,
                None => {
                    return Err(InReleaseError::InReleaseSyntaxError);
                },
            };
            let trimmed = trim_ascii(line.as_slice());
            let mut val = lastf.value;
            val.push(10);
            val.extend_from_slice(trimmed.as_slice());
            proof {
                assert(val@ =~= oldfv.last().1 + seq![10u8] + spec_trim(line@));
            }
            let ghost prevfv = fields_view(acc@);
            let ghost newpair = (lastf.name@, val@);
            acc.push(ReleaseField { name: lastf.name, value: val });
            proof {
                assert(fields_view(acc@) =~= prevfv.push((newpair.0, newpair.1)));
                assert(fields_view(acc@) =~= oldfv.update(
                    oldfv.len() - 1,
                    (oldfv.last().0, oldfv.last().1 + seq![10u8] + spec_trim(line@)),
                ));
            }
        } else {
            let p = match find_byte_from(line.as_slice(), 0, 58) {
                Some(p) => p,
                None => {
                    proof {
                        lemma_first_pos_is(line@, 58, line@.len() as int);
                    }
                    return Err(InReleaseError::InReleaseSyntaxError);
                },
            };
            proof {
                lemma_first_pos_is(line@, 58, p as int);
            }
            let name = subvec(line.as_slice(), 0, p);
            let rest = subvec(line.as_slice(), p + 1, line.len());
            let value = trim_ascii(rest.as_slice());
            proof {
                assert(rest@ =~= line@.skip(p + 1));
            }
            let ghost prevfv = fields_view(acc@);
            let ghost newpair = (name@, value@);
            acc.push(ReleaseField { name, value });
            proof {
                assert(fields_view(acc@) =~= prevfv.push((newpair.0, newpair.1)));
            }
        }
        i = i + 1;
    }
    proof {
        if i == ls.len() {
            assert(lv.skip(i as int) =~~= Seq::<Seq<u8>>::empty());
        }
    }
    if acc.len() == 0 {
        return Err(InReleaseError::BrokenInRelease);
    }
    Ok(acc)
}

/// One line of a checksum manifest: relative name, size and digest.
#[derive(Debug, Clone, PartialEq, Eq)]
pub struct ChecksumItem {
    pub name: Vec<u8>,
    pub size: u64,
    pub checksum: Vec<u8>,
}

/// Ghost image of a checksum item: digest, size, name.
pub open spec fn item_view(c: ChecksumItem) -> (Seq<u8>, int, Seq<u8>) {
    (c.checksum@, c.size as int, c.name@)
}

/// Ghost image of an item list.
pub open spec fn items_view(items: Seq<ChecksumItem>) -> Seq<(Seq<u8>, int, Seq<u8>)> {
    items.map_values(|c: ChecksumItem| item_view(c))
}

/// One checksum line parsed as `"<digest> <size> <name>"`: split at the
/// first two whitespace bytes, the remainder (whitespace included) being
/// the name. A missing token is `BrokenInRelease`; a size that is not an
/// unsigned decimal number in range is `ParseIntError`.
pub open spec fn spec_parse_item(l: Seq<u8>) -> Result<(Seq<u8>, int, Seq<u8>), InReleaseError> {
    let w1 = first_ws(l);
    if w1 == l.len() {
        Err(InReleaseError::BrokenInRelease)
    } else {
        let rest = l.skip(w1 + 1);
        let w2 = first_ws(rest);
        if w2 == rest.len() {
            Err(InReleaseError::BrokenInRelease)
        } else {
            let sz = rest.take(w2);
            if sz.len() > 0 && (forall|j: int| 0 <= j < sz.len() ==> is_digit(sz[j]))
                && digits_val(sz) <= u64::MAX {
                Ok((l.take(w1), digits_val(sz), rest.skip(w2 + 1)))
            } else {
                Err(InReleaseError::ParseIntError)
            }
        }
    }
}

/// Parse one checksum manifest line.
pub fn checksum_item_from_bytes(l: &[u8]) -> (r: Result<ChecksumItem, InReleaseError>)
    ensures
        match r {
            Ok(c) => spec_parse_item(l@) == Ok::<_, InReleaseError>(item_view(c)),
            Err(e) => spec_parse_item(l@) == Err::<(Seq<u8>, int, Seq<u8>), _>(e),
        },
{
    let total = l.len();
    proof {
        assert(total == l@.len());
    }
    let w1 = match find_ws_from(l, 0) {
        Some(i) => i,
        None => {
            proof {
                lemma_first_ws_is(l@, l@.len() as int);
            }
            return Err(InReleaseError::BrokenInRelease);
        },
    };
    proof {
        lemma_first_ws_is(l@, w1 as int);
    }
    let ghost rest = l@.skip(w1 + 1);
    let w2 = match find_ws_from(l, w1 + 1) {
        Some(j) => {
            proof {
                assert forall|k: int| 0 <= k < (j - w1 - 1) implies !is_ws(rest[k]) by {
                    assert(rest[k] == l@[k + w1 + 1]);
                }
                assert(rest[j - w1 - 1] == l@[j as int]);
                lemma_first_ws_is(rest, j - w1 - 1);
            }
            j
        },
        None => {
            proof {
                assert forall|k: int| 0 <= k < rest.len() implies !is_ws(rest[k]) by {
                    assert(rest[k] == l@[k + w1 + 1]);
                }
                lemma_first_ws_is(rest, rest.len() as int);
            }
            return Err(InReleaseError::BrokenInRelease);
        },
    };
    let size_bytes = subvec(l, w1 + 1, w2);
    proof {
        assert(size_bytes@ =~= rest.take(w2 - w1 - 1));
    }
    let size = match parse_u64(size_bytes.as_slice()) {
        Some(v) => v,
        None => {
            return Err(InReleaseError::ParseIntError);
        },
    };
    let checksum = subvec(l, 0, w1);
    let name = subvec(l, w2 + 1, l.len());
    proof {
        assert(name@ =~= rest.skip(w2 - w1 - 1 + 1));
        assert(checksum@ =~= l@.take(w1 as int));
    }
    Ok(ChecksumItem { name, size, checksum })
}

/// The manifest lines of a field value: the trimmed value split at
/// newlines, or nothing when the value is blank.
pub open spec fn spec_checksum_lines(v: Seq<u8>) -> Seq<Seq<u8>> {
    let t = spec_trim(v);
    if t.len() == 0 {
        Seq::empty()
    } else {
        spec_split_byte(t, 10)
    }
}

/// Every line parsed in order; the first failure is the result.
pub open spec fn spec_parse_items(ls: Seq<Seq<u8>>) -> Result<
    Seq<(Seq<u8>, int, Seq<u8>)>,
    InReleaseError,
>
    decreases ls.len(),
{
    if ls.len() == 0 {
        Ok(Seq::empty())
    } else {
        match spec_parse_item(ls[0]) {
            Err(e) => Err(e),
            Ok(t) => match spec_parse_items(ls.skip(1)) {
                Err(e) => Err(e),
                Ok(r) => Ok(seq![t] + r),
            },
        }
    }
}

proof fn lemma_parse_items_all_ok(ls: Seq<Seq<u8>>)
    requires
        forall|j: int| 0 <= j < ls.len() ==> #[trigger] spec_parse_item(ls[j]) is Ok,
    ensures
        spec_parse_items(ls) == Ok::<_, InReleaseError>(
            Seq::new(ls.len(), |j: int| spec_parse_item(ls[j])->Ok_0),
        ),
    decreases ls.len(),
{
    if ls.len() == 0 {
        assert(Seq::new(ls.len(), |j: int| spec_parse_item(ls[j])->Ok_0) =~= Seq::empty());
    } else {
        assert forall|j: int| 0 <= j < ls.skip(1).len() implies #[trigger] spec_parse_item(
            ls.skip(1)[j],
        ) is Ok by {
            assert(ls.skip(1)[j] == ls[j + 1]);
        }
        lemma_parse_items_all_ok(ls.skip(1));
        assert(seq![spec_parse_item(ls[0])->Ok_0] + Seq::new(
            ls.skip(1).len(),
            |j: int| spec_parse_item(ls.skip(1)[j])->Ok_0,
        ) =~= Seq::new(ls.len(), |j: int| spec_parse_item(ls[j])->Ok_0));
    }
}

proof fn lemma_parse_items_first_err(ls: Seq<Seq<u8>>, i: int, e: InReleaseError)
    requires
        0 <= i < ls.len(),
        forall|j: int| 0 <= j < i ==> #[trigger] spec_parse_item(ls[j]) is Ok,
        spec_parse_item(ls[i]) == Err::<(Seq<u8>, int, Seq<u8>), _>(e),
    ensures
        spec_parse_items(ls) == Err::<Seq<(Seq<u8>, int, Seq<u8>)>, _>(e),
    decreases i,
{
    if i == 0 {
    } else {
        assert forall|j: int| 0 <= j < i - 1 implies #[trigger] spec_parse_item(
            ls.skip(1)[j],
        ) is Ok by {
            assert(ls.skip(1)[j] == ls[j + 1]);
        }
        assert(ls.skip(1)[i - 1] == ls[i]);
        lemma_parse_items_first_err(ls.skip(1), i - 1, e);
    }
}

/// Parse a whole checksum manifest value. Succeeds with the items in
/// order exactly when every line parses; otherwise the first failing
/// line's error is returned.
pub fn get_checksums_inner(v: &[u8]) -> (r: Result<Vec<ChecksumItem>, InReleaseError>)
    ensures
        match r {
            Ok(items) => spec_parse_items(spec_checksum_lines(v@)) == Ok::<_, InReleaseError>(
                items_view(items@),
            ),
            Err(e) => spec_parse_items(spec_checksum_lines(v@)) == Err::<
                Seq<(Seq<u8>, int, Seq<u8>)>,
                _,
            >(e),
        },
{
    let t = trim_ascii(v);
    if t.len() == 0 {
        let items: Vec<ChecksumItem> = Vec::new();
        proof {
            assert(spec_checksum_lines(v@) =~~= Seq::<Seq<u8>>::empty());
            assert(items_view(items@) =~= Seq::<(Seq<u8>, int, Seq<u8>)>::empty());
        }
        return Ok(items);
    }
    let ls = split_byte(t.as_slice(), 10);
    let ghost lsv = spec_checksum_lines(v@);
    proof {
        assert(ls.deep_view() == lsv);
    }
    let mut items: Vec<ChecksumItem> = Vec::new();
    let mut i: usize = 0;
    while i < ls.len()
        invariant
            i <= ls.len(),
            ls.deep_view() == lsv,
            lsv == spec_checksum_lines(v@),
            items@.len() == i,
            forall|j: int| 0 <= j < i ==> #[trigger] spec_parse_item(lsv[j]) is Ok,
            forall|j: int|
                0 <= j < i ==> item_view(#[trigger] items@[j]) == spec_parse_item(lsv[j])->Ok_0,
        decreases ls.len() - i,
    {
        let line = &ls[i];
        proof {
            assert(lsv[i as int] == line@);
        }
        match checksum_item_from_bytes(line.as_slice()) {
            Ok(c) => {
                items.push(c);
            },
            Err(e) => {
                proof {
                    lemma_parse_items_first_err(lsv, i as int, e);
                }
                return Err(e);
            },
        }
        i = i + 1;
    }
    proof {
        lemma_parse_items_all_ok(lsv);
        assert(items_view(items@) =~= Seq::new(lsv.len(), |j: int| spec_parse_item(lsv[j])->Ok_0));
    }
    Ok(items)
}

/// Look a field up by name; a later field of the same name shadows an
/// earlier one.
pub open spec fn lookup_field(fields: Seq<(Seq<u8>, Seq<u8>)>, key: Seq<u8>) -> Option<Seq<u8>>
    decreases fields.len(),
{
    if fields.len() == 0 {
        None
    } else if fields.last().0 == key {
        Some(fields.last().1)
    } else {
        lookup_field(fields.drop_last(), key)
    }
}

/// A parsed `InRelease` paragraph, before its derived data is computed.
#[derive(Debug, Clone)]
pub struct InRelease {
    fields: Vec<ReleaseField>,
}

/// Which digest algorithm a manifest selects, by the fixed priority
/// SHA-256 over SHA-512 over MD5.
#[derive(Debug, Clone, Copy, PartialEq, Eq, Structural)]
pub enum InReleaseChecksum {
    Sha256,
    Sha512,
    Md5,
}

/// The `SHA256` field name.
pub open spec fn key_sha256() -> Seq<u8> {
    seq![83u8, 72u8, 65u8, 50u8, 53u8, 54u8]
}

/// The `SHA512` field name.
pub open spec fn key_sha512() -> Seq<u8> {
    seq![83u8, 72u8, 65u8, 53u8, 49u8, 50u8]
}

/// The `MD5Sum` field name.
pub open spec fn key_md5() -> Seq<u8> {
    seq![77u8, 68u8, 53u8, 83u8, 117u8, 109u8]
}

/// The `Acquire-By-Hash` field name.
pub open spec fn key_acquire_by_hash() -> Seq<u8> {
    seq![65u8, 99u8, 113u8, 117u8, 105u8, 114u8, 101u8, 45u8, 66u8, 121u8, 45u8, 72u8, 97u8, 115u8, 104u8]
}

/// The `Date` field name.
pub open spec fn key_date() -> Seq<u8> {
    seq![68u8, 97u8, 116u8, 101u8]
}

/// The `Valid-Until` field name.
pub open spec fn key_valid_until() -> Seq<u8> {
    seq![86u8, 97u8, 108u8, 105u8, 100u8, 45u8, 85u8, 110u8, 116u8, 105u8, 108u8]
}

/// Which checksum manifest the paragraph selects: `SHA256` first, then
/// `SHA512`, then `MD5Sum`.
pub open spec fn spec_pick_manifest(fv: Seq<(Seq<u8>, Seq<u8>)>) -> Option<
    (InReleaseChecksum, Seq<u8>),
> {
    if lookup_field(fv, key_sha256()) is Some {
        Some((InReleaseChecksum::Sha256, lookup_field(fv, key_sha256())->Some_0))
    } else if lookup_field(fv, key_sha512()) is Some {
        Some((InReleaseChecksum::Sha512, lookup_field(fv, key_sha512())->Some_0))
    } else if lookup_field(fv, key_md5()) is Some {
        Some((InReleaseChecksum::Md5, lookup_field(fv, key_md5())->Some_0))
    } else {
        None
    }
}

/// Whether the paragraph turns `Acquire-By-Hash` on: the field present
/// with the value `yes`, compared case-insensitively.
pub open spec fn spec_acquire_by_hash(fv: Seq<(Seq<u8>, Seq<u8>)>) -> bool {
    match lookup_field(fv, key_acquire_by_hash()) {
        Some(v) => v.map_values(|b: u8| crate::bytes::lower_byte(b)) == seq![121u8, 101u8, 115u8],
        None => false,
    }
}

/// The derived, immutable data of a verified `InRelease` paragraph.
#[derive(Debug, Clone)]
pub struct InReleaseMetadata {
    checksum_type: InReleaseChecksum,
    checksums: Vec<ChecksumItem>,
    acquire_by_hash: bool,
    date: Option<Vec<u8>>,
    valid_until: Option<Vec<u8>>,
}

impl InRelease {
    /// The fields of the paragraph, in order.
    pub closed spec fn spec_fields(&self) -> Seq<(Seq<u8>, Seq<u8>)> {
        fields_view(self.fields@)
    }

    /// Parse the first paragraph of an `InRelease` document.
    pub fn new(input: &[u8]) -> (r: Result<InRelease, InReleaseError>)
        ensures
            match r {
                Ok(ir) => spec_parse_fields(input@) == Some(ir.spec_fields())
                    && ir.spec_fields().len() > 0,
                Err(e) => match e {
                    InReleaseError::InReleaseSyntaxError => spec_parse_fields(input@) is None,
                    InReleaseError::BrokenInRelease => spec_parse_fields(input@) matches Some(fs)
                        && fs.len() == 0,
                    _ => false,
                },
            },
    {
        match parse_release_fields(input) {
            Ok(fields) => Ok(InRelease { fields }),
            Err(e) => Err(e),
        }
    }

    /// The value of the named field, the last occurrence winning.
    pub fn get_field(&self, key: &[u8]) -> (r: Option<Vec<u8>>)
        ensures
            match r {
                Some(v) => lookup_field(self.spec_fields(), key@) == Some(v@),
                None => lookup_field(self.spec_fields(), key@) is None,
            },
    {
        let ghost fv = self.spec_fields();
        let mut i: usize = self.fields.len();
        proof {
            assert(fv.take(i as int) =~~= fv);
        }
        while i > 0
            invariant
                i <= self.fields.len(),
                fv == self.spec_fields(),
                lookup_field(fv, key@) == lookup_field(fv.take(i as int), key@),
            decreases i,
        {
            i = i - 1;
            let f = &self.fields[i];
            proof {
                assert(fv.take(i + 1).last() == fv[i as int]);
                assert(fv[i as int].0 == f.name@);
                assert(fv.take(i + 1).drop_last() =~~= fv.take(i as int));
            }
            if bytes_eq(f.name.as_slice(), key) {
                let v = subvec(f.value.as_slice(), 0, f.value.len());
                proof {
                    assert(v@ =~= fv[i as int].1);
                }
                return Some(v);
            }
        }
        proof {
            assert(fv.take(0) =~~= Seq::<(Seq<u8>, Seq<u8>)>::empty());
        }
        None
    }

    /// Compute the derived data: the highest-priority checksum manifest
    /// parsed into items, the `Acquire-By-Hash` flag, and the raw date
    /// bounds. Fails with `BrokenInRelease` when no manifest field is
    /// present, and with the manifest's parse error when one line is bad.
    pub fn try_init(&self) -> (r: Result<InReleaseMetadata, InReleaseError>)
        ensures
            match r {
                Ok(m) => {
                    &&& spec_pick_manifest(self.spec_fields()) matches Some(pick)
                        && m.spec_checksum_type() == pick.0 && spec_parse_items(
                        spec_checksum_lines(pick.1),
                    ) == Ok::<_, InReleaseError>(items_view(m.spec_checksums()))
                    &&& m.spec_acquire_by_hash() == spec_acquire_by_hash(self.spec_fields())
                    &&& m.spec_date() == lookup_field(self.spec_fields(), key_date())
                    &&& m.spec_valid_until() == lookup_field(
                        self.spec_fields(),
                        key_valid_until(),
                    )
                },
                Err(e) => match e {
                    InReleaseError::BrokenInRelease => spec_pick_manifest(self.spec_fields())
                        is None || (spec_pick_manifest(self.spec_fields()) matches Some(pick)
                        && spec_parse_items(spec_checksum_lines(pick.1)) == Err::<
                        Seq<(Seq<u8>, int, Seq<u8>)>,
                        _,
                    >(e)),
                    _ => spec_pick_manifest(self.spec_fields()) matches Some(pick)
                        && spec_parse_items(spec_checksum_lines(pick.1)) == Err::<
                        Seq<(Seq<u8>, int, Seq<u8>)>,
                        _,
                    >(e),
                },
            },
    {
        let k256: [u8; 6] = [83, 72, 65, 50, 53, 54];
        let k512: [u8; 6] = [83, 72, 65, 53, 49, 50];
        let kmd5: [u8; 6] = [77, 68, 53, 83, 117, 109];
        proof {
            assert(k256@ == key_sha256());
            assert(k512@ == key_sha512());
            assert(kmd5@ == key_md5());
        }
        let picked: (InReleaseChecksum, Vec<u8>) = if let Some(v) = self.get_field(&k256) {
            (InReleaseChecksum::Sha256, v)
        } else if let Some(v) = self.get_field(&k512) {
            (InReleaseChecksum::Sha512, v)
        } else if let Some(v) = self.get_field(&kmd5) {
            (InReleaseChecksum::Md5, v)
        } else {
            return Err(InReleaseError::BrokenInRelease);
        };
        let checksums = match get_checksums_inner(picked.1.as_slice()) {
            Ok(items) => items,
            Err(e) => {
                return Err(e);
            },
        };
        let kabh: [u8; 15] = [65, 99, 113, 117, 105, 114, 101, 45, 66, 121, 45, 72, 97, 115, 104];
        proof {
            assert(kabh@ == key_acquire_by_hash());
        }
        let acquire_by_hash = match self.get_field(&kabh) {
            Some(v) => {
                let lowered = crate::bytes::to_lowercase_ascii(v.as_slice());
                let yes: [u8; 3] = [121, 101, 115];
                proof {
                    assert(yes@ == seq![121u8, 101u8, 115u8]);
                }
                bytes_eq(lowered.as_slice(), &yes)
            },
            None => false,
        };
        let kdate: [u8; 4] = [68, 97, 116, 101];
        let kvu: [u8; 11] = [86, 97, 108, 105, 100, 45, 85, 110, 116, 105, 108];
        proof {
            assert(kdate@ == key_date());
            assert(kvu@ == key_valid_until());
        }
        let date = self.get_field(&kdate);
        let valid_until = self.get_field(&kvu);
        Ok(InReleaseMetadata { checksum_type: picked.0, checksums, acquire_by_hash, date, valid_until })
    }
}

impl InReleaseMetadata {
    /// The selected digest algorithm.
    pub closed spec fn spec_checksum_type(&self) -> InReleaseChecksum {
        self.checksum_type
    }

    /// The parsed manifest items.
    pub closed spec fn spec_checksums(&self) -> Seq<ChecksumItem> {
        self.checksums@
    }

    /// The `Acquire-By-Hash` flag.
    pub closed spec fn spec_acquire_by_hash(&self) -> bool {
        self.acquire_by_hash
    }

    /// The raw `Date` field.
    pub closed spec fn spec_date(&self) -> Option<Seq<u8>> {
        match self.date {
            Some(ref d) => Some(d@),
            None => None,
        }
    }

    /// The raw `Valid-Until` field.
    pub closed spec fn spec_valid_until(&self) -> Option<Seq<u8>> {
        match self.valid_until {
            Some(ref d) => Some(d@),
            None => None,
        }
    }

    /// The selected digest algorithm and the manifest items.
    pub fn checksum_type_and_list(&self) -> (r: (InReleaseChecksum, &Vec<ChecksumItem>))
        ensures
            r.0 == self.spec_checksum_type(),
            r.1@ == self.spec_checksums(),
    {
        (self.checksum_type, &self.checksums)
    }

    /// Whether the repository offers by-hash index paths.
    pub fn acquire_by_hash(&self) -> (r: bool)
        ensures
            r == self.spec_acquire_by_hash(),
    {
        self.acquire_by_hash
    }

    /// Enforce the lower bound of the validity window. The `Date` field
    /// must be present and parse (`BadInReleaseData` otherwise), and must
    /// not lie after `now` (`EarlierSignature` otherwise).
    pub fn check_date(&self, now: i64) -> (r: Result<(), InReleaseError>)
        ensures
            match self.spec_date() {
                None => r matches Err(e) && e is BadInReleaseData,
                Some(d) => match spec_parse_date(d) {
                    None => r matches Err(e) && e is BadInReleaseData,
                    Some(t) => if now < t {
                        r matches Err(e) && e is EarlierSignature
                    } else {
                        r is Ok
                    },
                },
            },
    {
        let d = match self.date {
            Some(ref d) => d,
            None => {
                return Err(InReleaseError::BadInReleaseData);
            },
        };
        let t = match parse_date(d.as_slice()) {
            Some(t) => t,
            None => {
                return Err(InReleaseError::BadInReleaseData);
            },
        };
        if now < t {
            return Err(InReleaseError::EarlierSignature);
        }
        Ok(())
    }

    /// Enforce the upper bound of the validity window. A missing
    /// `Valid-Until` field means no upper bound; one that does not parse
    /// is `BadInReleaseValidUntil`; one before `now` is
    /// `ExpiredSignature`.
    pub fn check_valid_until(&self, now: i64) -> (r: Result<(), InReleaseError>)
        ensures
            match self.spec_valid_until() {
                None => r is Ok,
                Some(d) => match spec_parse_date(d) {
                    None => r matches Err(e) && e is BadInReleaseValidUntil,
                    Some(t) => if now > t {
                        r matches Err(e) && e is ExpiredSignature
                    } else {
                        r is Ok
                    },
                },
            },
    {
        let d = match self.valid_until {
            Some(ref d) => d,
            None => {
                return Ok(());
            },
        };
        let t = match parse_date(d.as_slice()) {
            Some(t) => t,
            None => {
                return Err(InReleaseError::BadInReleaseValidUntil);
            },
        };
        if now > t {
            return Err(InReleaseError::ExpiredSignature);
        }
        Ok(())
    }
}

/// The timestamp that strict RFC 2822 parsing assigns to a byte string:
/// seconds since the Unix epoch, or nothing when the string is not valid
/// UTF-8 or not a compliant date. It depends on the bytes alone.
pub uninterp spec fn rfc2822_epoch(s: Seq<u8>) -> Option<int>;

/// Relies on chrono's `DateTime::parse_from_rfc2822` and `timestamp`:
/// the parse is strict, deterministic, and depends on the text alone.
#[verifier::external_body]
fn parse_rfc2822(s: &[u8]) -> (r: Option<i64>)
    ensures
        match r {
            Some(t) => rfc2822_epoch(s@) == Some(t as int),
            None => rfc2822_epoch(s@) is None,
        },
{
    match std::str::from_utf8(s) {
        Ok(t) => match chrono::DateTime::parse_from_rfc2822(t) {
            Ok(d) => Some(d.timestamp()),
            Err(_) => None,
        },
        Err(_) => None,
    }
}

/// A one-digit part of a time token gets a leading zero.
pub open spec fn spec_pad_part(p: Seq<u8>) -> Seq<u8> {
    if p.len() == 1 && is_digit(p[0]) {
        seq![48u8] + p
    } else {
        p
    }
}

/// A part of a time token must be an unsigned decimal number in range.
pub open spec fn spec_part_ok(p: Seq<u8>) -> bool {
    p.len() > 0 && (forall|j: int| 0 <= j < p.len() ==> is_digit(p[j])) && digits_val(p)
        <= u64::MAX
}

/// Whether a token holds a colon, marking it as a time token.
pub open spec fn spec_token_has_colon(t: Seq<u8>) -> bool {
    first_pos(t, 58) < t.len()
}

/// A time token with its one-digit parts zero-padded; any other token
/// unchanged.
pub open spec fn spec_fix_token(t: Seq<u8>) -> Seq<u8> {
    if !spec_token_has_colon(t) {
        t
    } else {
        spec_join(
            spec_split_byte(t, 58).map_values(|p: Seq<u8>| spec_pad_part(p)),
            seq![58u8],
        )
    }
}

/// A token is acceptable when it is no time token, or every colon-
/// separated part of it is numeric.
pub open spec fn spec_token_ok(t: Seq<u8>) -> bool {
    !spec_token_has_colon(t) || (forall|j: int|
        0 <= j < spec_split_byte(t, 58).len() ==> spec_part_ok(
            #[trigger] spec_split_byte(t, 58)[j],
        ))
}

/// Every whitespace-separated token of the date is acceptable.
pub open spec fn spec_date_tokens_ok(s: Seq<u8>) -> bool {
    forall|j: int|
        0 <= j < spec_split_ws(s).len() ==> spec_token_ok(#[trigger] spec_split_ws(s)[j])
}

/// The `UTC` marker.
pub open spec fn utc_marker() -> Seq<u8> {
    seq![85u8, 84u8, 67u8]
}

/// The `+0000` zone offset.
pub open spec fn utc_offset() -> Seq<u8> {
    seq![43u8, 48u8, 48u8, 48u8, 48u8]
}

/// The compatibility rewrite applied before strict date parsing: the
/// date's whitespace-separated tokens, each time token's one-digit parts
/// zero-padded, joined by single spaces, and every `UTC` replaced by
/// `+0000`.
pub open spec fn spec_date_hack(s: Seq<u8>) -> Seq<u8> {
    spec_replace(
        spec_join(spec_split_ws(s).map_values(|t: Seq<u8>| spec_fix_token(t)), seq![32u8]),
        utc_marker(),
        utc_offset(),
    )
}

/// Rewrite a non-compliant date: a trailing non-standard `UTC` marker
/// becomes `+0000`, and a single-digit hour in an `H:MM:SS` time token is
/// zero-padded. Fails with `ParseIntError` exactly when a time token
/// holds a non-numeric part.
pub fn date_hack(date: &[u8]) -> (r: Result<Vec<u8>, InReleaseError>)
    ensures
        match r {
            Ok(v) => spec_date_tokens_ok(date@) && v@ == spec_date_hack(date@),
            Err(e) => e is ParseIntError && !spec_date_tokens_ok(date@),
        },
{
    let tokens = split_ws(date);
    let ghost tv = spec_split_ws(date@);
    let mut fixed: Vec<Vec<u8>> = Vec::new();
    let mut i: usize = 0;
    proof {
        assert(fixed.deep_view() =~~= tv.take(0).map_values(|t: Seq<u8>| spec_fix_token(t)));
    }
    while i < tokens.len()
        invariant
            i <= tokens.len(),
            tokens.deep_view() == tv,
            tv == spec_split_ws(date@),
            forall|j: int| 0 <= j < i ==> spec_token_ok(#[trigger] tv[j]),
            fixed.deep_view() =~~= tv.take(i as int).map_values(|t: Seq<u8>| spec_fix_token(t)),
        decreases tokens.len() - i,
    {
        let tok = &tokens[i];
        proof {
            assert(tv[i as int] == tok@);
        }
        let fixed_tok: Vec<u8> = match find_byte_from(tok.as_slice(), 0, 58) {
            None => {
                proof {
                    lemma_first_pos_is(tok@, 58, tok@.len() as int);
                }
                subvec(tok.as_slice(), 0, tok.len())
            },
            Some(c) => {
                proof {
                    lemma_first_pos_is(tok@, 58, c as int);
                }
                let parts = split_byte(tok.as_slice(), 58);
                let ghost pv = spec_split_byte(tok@, 58);
                let mut padded: Vec<Vec<u8>> = Vec::new();
                let mut j: usize = 0;
                proof {
                    assert(padded.deep_view() =~~= pv.take(0).map_values(
                        |p: Seq<u8>| spec_pad_part(p),
                    ));
                }
                while j < parts.len()
                    invariant
                        j <= parts.len(),
                        parts.deep_view() == pv,
                        i < tokens.len(),
                        tokens.deep_view() == tv,
                        tv == spec_split_ws(date@),
                        tv[i as int] == tok@,
                        pv == spec_split_byte(tok@, 58),
                        first_pos(tok@, 58) < tok@.len(),
                        forall|k: int| 0 <= k < j ==> spec_part_ok(#[trigger] pv[k]),
                        padded.deep_view() =~~= pv.take(j as int).map_values(
                            |p: Seq<u8>| spec_pad_part(p),
                        ),
                    decreases parts.len() - j,
                {
                    let part = &parts[j];
                    proof {
                        assert(pv[j as int] == part@);
                    }
                    let val = match parse_u64(part.as_slice()) {
                        Some(v) => v,
                        None => {
                            proof {
                                assert(!spec_part_ok(pv[j as int]));
                                assert(!spec_token_ok(tv[i as int]));
                                assert(!spec_date_tokens_ok(date@));
                            }
                            return Err(InReleaseError::ParseIntError);
                        },
                    };
                    let padded_part = if part.len() == 1 {
                        let mut z: Vec<u8> = Vec::new();
                        z.push(48);
                        z.extend_from_slice(part.as_slice());
                        proof {
                            assert(is_digit(part@[0]));
                            assert(z@ =~= spec_pad_part(pv[j as int]));
                        }
                        z
                    } else {
                        proof {
                            assert(part@ =~= spec_pad_part(pv[j as int]));
                        }
                        subvec(part.as_slice(), 0, part.len())
                    };
                    let ghost prev = padded.deep_view();
                    let ghost pp = padded_part@;
                    padded.push(padded_part);
                    proof {
                        assert(padded.deep_view() =~~= prev.push(pp));
                        assert(pv.take(j + 1).map_values(|p: Seq<u8>| spec_pad_part(p))
                            =~~= pv.take(j as int).map_values(|p: Seq<u8>| spec_pad_part(p)).push(
                            spec_pad_part(pv[j as int]),
                        ));
                    }
                    j = j + 1;
                }
                proof {
                    assert(pv.take(parts.len() as int) =~~= pv);
                }
                let joined = crate::bytes::join_bytes(&padded, 58);
                proof {
                    assert(joined@ == spec_fix_token(tv[i as int]));
                }
                joined
            },
        };
        proof {
            assert(fixed_tok@ == spec_fix_token(tv[i as int]));
            assert(spec_token_ok(tv[i as int]));
        }
        let ghost prev = fixed.deep_view();
        let ghost fv = fixed_tok@;
        fixed.push(fixed_tok);
        proof {
            assert(fixed.deep_view() =~~= prev.push(fv));
            assert(tv.take(i + 1).map_values(|t: Seq<u8>| spec_fix_token(t)) =~~= tv.take(
                i as int,
            ).map_values(|t: Seq<u8>| spec_fix_token(t)).push(spec_fix_token(tv[i as int])));
        }
        i = i + 1;
    }
    proof {
        assert(tv.take(tokens.len() as int) =~~= tv);
    }
    let joined = crate::bytes::join_bytes(&fixed, 32);
    let utc: [u8; 3] = [85, 84, 67];
    let offset: [u8; 5] = [43, 48, 48, 48, 48];
    proof {
        assert(utc@ == utc_marker());
        assert(offset@ == utc_offset());
    }
    let out = crate::bytes::replace_all(joined.as_slice(), &utc, &offset);
    proof {
        assert(out@ == spec_date_hack(date@));
    }
    Ok(out)
}

/// The timestamp a date field denotes: strict parsing first, then the
/// compatibility rewrite followed by strict parsing.
pub open spec fn spec_parse_date(s: Seq<u8>) -> Option<int> {
    if rfc2822_epoch(s) is Some {
        rfc2822_epoch(s)
    } else if spec_date_tokens_ok(s) {
        rfc2822_epoch(spec_date_hack(s))
    } else {
        None
    }
}

/// Parse a date field, with the compatibility rewrite as fallback.
pub fn parse_date(s: &[u8]) -> (r: Option<i64>)
    ensures
        match r {
            Some(t) => spec_parse_date(s@) == Some(t as int),
            None => spec_parse_date(s@) is None,
        },
{
    match parse_rfc2822(s) {
        Some(t) => Some(t),
        None => {
            let hacked = match date_hack(s) {
                Ok(h) => h,
                Err(_) => {
                    return None;
                },
            };
            parse_rfc2822(hacked.as_slice())
        },
    }
}

/// Index of the last occurrence of `b` in `s`, or `-1` when absent.
pub open spec fn last_pos(s: Seq<u8>, b: u8) -> int
    decreases s.len(),
{
    if s.len() == 0 {
        -1
    } else if s.last() == b {
        s.len() - 1
    } else {
        last_pos(s.drop_last(), b)
    }
}

proof fn lemma_last_pos_is(s: Seq<u8>, b: u8, n: int)
    requires
        -1 <= n < s.len(),
        n >= 0 ==> s[n] == b,
        forall|j: int| n < j < s.len() ==> s[j] != b,
    ensures
        last_pos(s, b) == n,
    decreases s.len(),
{
    if s.len() > 0 && s.last() != b {
        assert forall|j: int| n < j < s.drop_last().len() implies s.drop_last()[j] != b by {
            assert(s.drop_last()[j] == s[j]);
        }
        if n >= 0 {
            assert(s.drop_last()[n] == s[n]);
        }
        lemma_last_pos_is(s.drop_last(), b, n);
    }
}

/// Last occurrence of `b` in `s`, if any.
pub fn rfind_byte(s: &[u8], b: u8) -> (r: Option<usize>)
    ensures
        match r {
            Some(i) => i < s@.len() && last_pos(s@, b) == i,
            None => last_pos(s@, b) == -1,
        },
{
    let mut i: usize = s.len();
    while i > 0
        invariant
            i <= s@.len(),
            forall|j: int| i <= j < s@.len() ==> s@[j] != b,
        decreases i,
    {
        i = i - 1;
        if s[i] == b {
            proof {
                lemma_last_pos_is(s@, b, i as int);
            }
            return Some(i);
        }
    }
    proof {
        lemma_last_pos_is(s@, b, -1);
    }
    None
}

/// How a manifest path splits into extension and extension-less name,
/// following `Path::extension` / `Path::with_extension("")`: the dot must
/// lie in the last component and not be its first byte; without such a
/// dot the extension is empty and the name is the whole path.
pub open spec fn spec_ext_split(x: Seq<u8>) -> (Seq<u8>, Seq<u8>) {
    let slash = last_pos(x, 47);
    let dot = last_pos(x, 46);
    if dot > slash + 1 {
        (x.skip(dot + 1), x.take(dot))
    } else {
        (Seq::empty(), x)
    }
}

/// Split a manifest path into its extension and its extension-less name.
pub fn split_ext_and_filename(x: &[u8]) -> (r: (Vec<u8>, Vec<u8>))
    ensures
        r.0@ == spec_ext_split(x@).0,
        r.1@ == spec_ext_split(x@).1,
{
    let total = x.len();
    proof {
        assert(total == x@.len());
    }
    let dotp = rfind_byte(x, 46);
    let slashp = rfind_byte(x, 47);
    let split_at: Option<usize> = match (dotp, slashp) {
        (Some(d), Some(s)) => if d > s + 1 {
            Some(d)
        } else {
            None
        },
        (Some(d), None) => if d > 0 {
            Some(d)
        } else {
            None
        },
        (None, _) => None,
    };
    match split_at {
        Some(d) => {
            let ext = subvec(x, d + 1, x.len());
            let name = subvec(x, 0, d);
            proof {
                assert(ext@ =~= x@.skip(d + 1));
                assert(name@ =~= x@.take(d as int));
            }
            (ext, name)
        },
        None => {
            let ext: Vec<u8> = Vec::new();
            let name = subvec(x, 0, x.len());
            proof {
                assert(name@ =~= x@);
                assert(ext@ =~= Seq::<u8>::empty());
            }
            (ext, name)
        },
    }
}

/// Whether a manifest name carries a supported compressed extension
/// (`.gz`, `.xz`, `.zst` or `.bz2`).
pub fn file_is_compress(name: &[u8]) -> (r: bool)
    ensures
        r == (crate::bytes::seq_ends_with(name@, seq![46u8, 103u8, 122u8])
            || crate::bytes::seq_ends_with(name@, seq![46u8, 120u8, 122u8])
            || crate::bytes::seq_ends_with(name@, seq![46u8, 122u8, 115u8, 116u8])
            || crate::bytes::seq_ends_with(name@, seq![46u8, 98u8, 122u8, 50u8])),
{
    let gz: [u8; 3] = [46, 103, 122];
    let xz: [u8; 3] = [46, 120, 122];
    let zst: [u8; 4] = [46, 122, 115, 116];
    let bz2: [u8; 4] = [46, 98, 122, 50];
    proof {
        assert(gz@ == seq![46u8, 103u8, 122u8]);
        assert(xz@ == seq![46u8, 120u8, 122u8]);
        assert(zst@ == seq![46u8, 122u8, 115u8, 116u8]);
        assert(bz2@ == seq![46u8, 98u8, 122u8, 50u8]);
    }
    crate::bytes::ends_with(name, &gz) || crate::bytes::ends_with(name, &xz)
        || crate::bytes::ends_with(name, &zst) || crate::bytes::ends_with(name, &bz2)
}

/// The OpenPGP cleartext-signature marker.
pub open spec fn pgp_marker() -> Seq<u8> {
    seq![45u8, 45u8, 45u8, 45u8, 45u8]  // "-----"
        + seq![66u8, 69u8, 71u8, 73u8, 78u8]  // "BEGIN"
        + seq![32u8, 80u8, 71u8, 80u8]  // " PGP"
        + seq![32u8, 83u8, 73u8, 71u8, 78u8, 69u8, 68u8]  // " SIGNED"
        + seq![32u8, 77u8, 69u8, 83u8, 83u8, 65u8, 71u8, 69u8]  // " MESSAGE"
        + seq![45u8, 45u8, 45u8, 45u8, 45u8]  // "-----"
}

/// What the trust gate requires of a fetched `InRelease` document.
#[derive(Debug, Clone, Copy, PartialEq, Eq, Structural)]
pub enum TrustRequirement {
    /// The document is cleartext-signed: verification is mandatory.
    MustVerify,
    /// The source is explicitly trusted and the document is unsigned.
    AcceptAsIs,
}

/// The trust gate: a document that begins with the cleartext-signature
/// marker must be verified; an unsigned document is accepted only when
/// policy marks the source trusted, and is `NotTrusted` otherwise.
pub fn verify_inrelease(inrelease: &[u8], trusted: bool) -> (r: Result<
    TrustRequirement,
    InReleaseError,
>)
    ensures
        crate::bytes::seq_starts_with(inrelease@, pgp_marker()) ==> r == Ok::<
            _,
            InReleaseError,
        >(TrustRequirement::MustVerify),
        !crate::bytes::seq_starts_with(inrelease@, pgp_marker()) && trusted ==> r == Ok::<
            _,
            InReleaseError,
        >(TrustRequirement::AcceptAsIs),
        !crate::bytes::seq_starts_with(inrelease@, pgp_marker()) && !trusted ==> (r matches Err(e)
            && e is NotTrusted),
{
    let marker: [u8; 34] = [
        45, 45, 45, 45, 45, 66, 69, 71, 73, 78, 32, 80, 71, 80, 32, 83, 73, 71, 78, 69, 68, 32,
        77, 69, 83, 83, 65, 71, 69, 45, 45, 45, 45, 45,
    ];
    proof {
        assert(marker@ == pgp_marker());
    }
    if crate::bytes::starts_with(inrelease, &marker) {
        Ok(TrustRequirement::MustVerify)
    } else if trusted {
        Ok(TrustRequirement::AcceptAsIs)
    } else {
        Err(InReleaseError::NotTrusted)
    }
}

} // verus!
