//! The target resolver: expands configured index-target templates against
//! architecture, component and language candidates to select which
//! checksum-manifest entries must be fetched, one compressed variant per
//! logical target.

use vstd::prelude::*;

use crate::bytes::{bytes_eq, find_byte_from, first_pos, lemma_first_pos_is, spec_replace, subvec};
use crate::inrelease::{spec_ext_split, split_ext_and_filename, ChecksumItem, item_view};

verus! {

/// Why resolving the download list failed.
#[derive(Debug, Clone, Copy, PartialEq, Eq, Structural)]
pub enum RefreshError {
    /// A configured index target lacks the template key the caller asked
    /// to expand: `flatMetaKey` when a flat repository was requested,
    /// `MetaKey` otherwise — so the offending key's name follows from
    /// the request itself.
    WrongConfigEntry,
}

/// One configured index-target kind.
#[derive(Debug, Clone)]
pub struct IndexTarget {
    /// The `MetaKey` template.
    pub meta_key: Option<Vec<u8>>,
    /// The `flatMetaKey` template.
    pub flat_meta_key: Option<Vec<u8>>,
    /// Whether the target is enabled by default.
    pub default_enabled: bool,
    /// Whether the fetched artifact is kept compressed on disk.
    pub keep_compressed: bool,
    /// The description template for display labels.
    pub short_description: Vec<u8>,
}

/// One selected manifest entry with its download policy and label.
#[derive(Debug, Clone)]
pub struct ChecksumDownloadEntry {
    pub item: ChecksumItem,
    pub keep_compress: bool,
    pub msg: Vec<u8>,
}

/// The `$(ARCHITECTURE)` placeholder.
pub open spec fn ph_arch() -> Seq<u8> {
    seq![36u8, 40u8, 65u8, 82u8, 67u8, 72u8, 73u8, 84u8, 69u8, 67u8, 84u8, 85u8, 82u8, 69u8, 41u8]
}

/// The `$(COMPONENT)` placeholder.
pub open spec fn ph_component() -> Seq<u8> {
    seq![36u8, 40u8, 67u8, 79u8, 77u8, 80u8, 79u8, 78u8, 69u8, 78u8, 84u8, 41u8]
}

/// The `$(LANGUAGE)` placeholder.
pub open spec fn ph_language() -> Seq<u8> {
    seq![36u8, 40u8, 76u8, 65u8, 78u8, 71u8, 85u8, 65u8, 71u8, 69u8, 41u8]
}

/// The `$(NATIVE_ARCHITECTURE)` placeholder.
pub open spec fn ph_native_arch() -> Seq<u8> {
    seq![36u8, 40u8, 78u8, 65u8, 84u8, 73u8, 86u8, 69u8, 95u8, 65u8, 82u8, 67u8, 72u8, 73u8, 84u8, 69u8, 67u8, 84u8, 85u8, 82u8, 69u8, 41u8]
}

/// A template rendered against one candidate combination: the four
/// placeholders replaced in the fixed order architecture, component,
/// language, native architecture.
pub open spec fn spec_render(
    t: Seq<u8>,
    arch: Seq<u8>,
    comp: Seq<u8>,
    lang: Seq<u8>,
    native: Seq<u8>,
) -> Seq<u8> {
    spec_replace(
        spec_replace(spec_replace(spec_replace(t, ph_arch(), arch), ph_component(), comp), ph_language(), lang),
        ph_native_arch(),
        native,
    )
}

/// Render a template against one candidate combination.
pub fn render_template(t: &[u8], arch: &[u8], comp: &[u8], lang: &[u8], native: &[u8]) -> (r: Vec<
    u8,
>)
    ensures
        r@ == spec_render(t@, arch@, comp@, lang@, native@),
{
    let pa: [u8; 15] = [36, 40, 65, 82, 67, 72, 73, 84, 69, 67, 84, 85, 82, 69, 41];
    let pc: [u8; 12] = [36, 40, 67, 79, 77, 80, 79, 78, 69, 78, 84, 41];
    let pl: [u8; 11] = [36, 40, 76, 65, 78, 71, 85, 65, 71, 69, 41];
    let pn: [u8; 22] = [
        36, 40, 78, 65, 84, 73, 86, 69, 95, 65, 82, 67, 72, 73, 84, 69, 67, 84, 85, 82, 69, 41,
    ];
    proof {
        assert(pa@ == ph_arch());
        assert(pc@ == ph_component());
        assert(pl@ == ph_language());
        assert(pn@ == ph_native_arch());
    }
    let s1 = crate::bytes::replace_all(t, &pa, arch);
    let s2 = crate::bytes::replace_all(s1.as_slice(), &pc, comp);
    let s3 = crate::bytes::replace_all(s2.as_slice(), &pl, lang);
    crate::bytes::replace_all(s3.as_slice(), &pn, native)
}

/// Whether a manifest name matches a rendered template, both taken
/// without their extension on the name's side.
pub open spec fn spec_is_match(
    template: Seq<u8>,
    name: Seq<u8>,
    arch: Seq<u8>,
    comp: Seq<u8>,
    lang: Seq<u8>,
    native: Seq<u8>,
) -> bool {
    spec_ext_split(name).1 == spec_render(template, arch, comp, lang, native)
}

/// Whether any candidate combination matches.
pub open spec fn spec_any_match(
    template: Seq<u8>,
    name: Seq<u8>,
    archs: Seq<Seq<u8>>,
    comps: Seq<Seq<u8>>,
    langs: Seq<Seq<u8>>,
    native: Seq<u8>,
) -> bool {
    exists|x: int, y: int, z: int|
        0 <= x < archs.len() && 0 <= y < comps.len() && 0 <= z < langs.len() && spec_is_match(
            template,
            name,
            archs[x],
            comps[y],
            langs[z],
            native,
        )
}

/// The language candidates a `LANG` value yields: the tag before any
/// `.` suffix (`C` and the empty value mapping to `en`), followed by its
/// part before `_` when it has one.
pub open spec fn spec_langs(e: Seq<u8>) -> Seq<Seq<u8>> {
    let base = e.take(first_pos(e, 46));
    let l = if base == seq![67u8] {
        seq![101u8, 110u8]
    } else {
        base
    };
    if first_pos(l, 95) < l.len() {
        seq![l, l.take(first_pos(l, 95))]
    } else {
        seq![l]
    }
}

/// Derive the language candidates from the `LANG` environment value.
pub fn get_matches_language(env_lang: &[u8]) -> (r: Vec<Vec<u8>>)
    ensures
        r.deep_view() == spec_langs(env_lang@),
{
    let dotpos = match find_byte_from(env_lang, 0, 46) {
        Some(p) => {
            proof {
                lemma_first_pos_is(env_lang@, 46, p as int);
            }
            p
        },
        None => {
            proof {
                lemma_first_pos_is(env_lang@, 46, env_lang@.len() as int);
            }
            env_lang.len()
        },
    };
    let base = subvec(env_lang, 0, dotpos);
    let cc: [u8; 1] = [67];
    let l: Vec<u8> = if bytes_eq(base.as_slice(), &cc) {
        let en: Vec<u8> = vec![101, 110];
        proof {
            assert(cc@ == seq![67u8]);
            assert(en@ =~= seq![101u8, 110u8]);
        }
        en
    } else {
        proof {
            assert(cc@ == seq![67u8]);
        }
        base
    };
    let mut out: Vec<Vec<u8>> = Vec::new();
    match find_byte_from(l.as_slice(), 0, 95) {
        Some(p) => {
            proof {
                lemma_first_pos_is(l@, 95, p as int);
            }
            let prefix = subvec(l.as_slice(), 0, p);
            let ghost lv = l@;
            let ghost pv = prefix@;
            out.push(l);
            out.push(prefix);
            proof {
                assert(out.deep_view() =~~= seq![lv, pv]);
                assert(pv =~= lv.take(first_pos(lv, 95)));
            }
        },
        None => {
            proof {
                lemma_first_pos_is(l@, 95, l@.len() as int);
            }
            let ghost lv = l@;
            out.push(l);
            proof {
                assert(out.deep_view() =~~= seq![lv]);
            }
        },
    }
    out
}

/// A compression kind, in ascending order of preference. Among several
/// compressed variants of one logical target the most space-efficient
/// available format wins: zstd over xz over gzip over bzip2 over plain.
#[derive(Debug, Clone, Copy, PartialEq, Eq, Structural)]
pub enum CompressKind {
    Plain,
    Bz2,
    Gzip,
    Xz,
    Zstd,
}

/// The preference rank of a compression kind.
pub open spec fn spec_rank(k: CompressKind) -> int {
    match k {
        CompressKind::Plain => 0,
        CompressKind::Bz2 => 1,
        CompressKind::Gzip => 2,
        CompressKind::Xz => 3,
        CompressKind::Zstd => 4,
    }
}

/// The compression kind a manifest name's extension denotes.
pub open spec fn spec_compress_kind(name: Seq<u8>) -> CompressKind {
    let ext = spec_ext_split(name).0;
    if ext == seq![103u8, 122u8] {
        CompressKind::Gzip
    } else if ext == seq![120u8, 122u8] {
        CompressKind::Xz
    } else if ext == seq![122u8, 115u8, 116u8] {
        CompressKind::Zstd
    } else if ext == seq![98u8, 122u8, 50u8] {
        CompressKind::Bz2
    } else {
        CompressKind::Plain
    }
}

/// The preference rank of a manifest name.
pub open spec fn spec_name_rank(name: Seq<u8>) -> int {
    spec_rank(spec_compress_kind(name))
}

/// Classify a manifest name by its compression extension.
pub fn compress_file(name: &[u8]) -> (r: CompressKind)
    ensures
        r == spec_compress_kind(name@),
{
    let (ext, _) = split_ext_and_filename(name);
    let gz: [u8; 2] = [103, 122];
    let xz: [u8; 2] = [120, 122];
    let zst: [u8; 3] = [122, 115, 116];
    let bz2: [u8; 3] = [98, 122, 50];
    proof {
        assert(gz@ == seq![103u8, 122u8]);
        assert(xz@ == seq![120u8, 122u8]);
        assert(zst@ == seq![122u8, 115u8, 116u8]);
        assert(bz2@ == seq![98u8, 122u8, 50u8]);
    }
    if bytes_eq(ext.as_slice(), &gz) {
        CompressKind::Gzip
    } else if bytes_eq(ext.as_slice(), &xz) {
        CompressKind::Xz
    } else if bytes_eq(ext.as_slice(), &zst) {
        CompressKind::Zstd
    } else if bytes_eq(ext.as_slice(), &bz2) {
        CompressKind::Bz2
    } else {
        CompressKind::Plain
    }
}

/// The preference rank of a manifest name, as a number.
pub fn name_rank(name: &[u8]) -> (r: u8)
    ensures
        r == spec_name_rank(name@),
{
    match compress_file(name) {
        CompressKind::Plain => 0,
        CompressKind::Bz2 => 1,
        CompressKind::Gzip => 2,
        CompressKind::Xz => 3,
        CompressKind::Zstd => 4,
    }
}

/// The `all` architecture.
pub open spec fn arch_all() -> Seq<u8> {
    seq![97u8, 108u8, 108u8]
}

/// The architecture candidates with the implicit `all` appended when the
/// explicit list lacks it.
pub open spec fn spec_archs_plus(archs: Seq<Seq<u8>>) -> Seq<Seq<u8>> {
    if exists|i: int| 0 <= i < archs.len() && archs[i] == arch_all() {
        archs
    } else {
        archs.push(arch_all())
    }
}

/// Copy the architecture list, appending the implicit `all` candidate
/// when it is missing.
fn archs_with_all(archs: &Vec<Vec<u8>>) -> (r: Vec<Vec<u8>>)
    ensures
        r.deep_view() == spec_archs_plus(archs.deep_view()),
{
    let allv: [u8; 3] = [97, 108, 108];
    proof {
        assert(allv@ == arch_all());
    }
    let mut out: Vec<Vec<u8>> = Vec::new();
    let mut has_all = false;
    let mut i: usize = 0;
    while i < archs.len()
        invariant
            allv@ == arch_all(),
            i <= archs.len(),
            out.deep_view() =~~= archs.deep_view().take(i as int),
            has_all == exists|j: int|
                0 <= j < i && archs.deep_view()[j] == arch_all(),
        decreases archs.len() - i,
    {
        let a = &archs[i];
        proof {
            assert(archs.deep_view()[i as int] == a@);
        }
        if bytes_eq(a.as_slice(), &allv) {
            has_all = true;
            proof {
                assert(archs.deep_view()[i as int] == arch_all());
            }
        }
        let copied = subvec(a.as_slice(), 0, a.len());
        proof {
            assert(copied@ =~= a@);
        }
        let ghost prev = out.deep_view();
        let ghost cv = copied@;
        out.push(copied);
        proof {
            assert(out.deep_view() =~~= prev.push(cv));
            assert(archs.deep_view().take(i + 1) =~~= prev.push(cv));
        }
        i = i + 1;
    }
    proof {
        assert(archs.deep_view().take(archs.len() as int) =~~= archs.deep_view());
    }
    if !has_all {
        let mut allvec: Vec<u8> = Vec::new();
        allvec.extend_from_slice(&allv);
        proof {
            assert(allvec@ =~= arch_all());
        }
        let ghost prev = out.deep_view();
        out.push(allvec);
        proof {
            assert(out.deep_view() =~~= prev.push(arch_all()));
        }
    }
    out
}

/// The template an index target offers for the requested repository
/// shape: `flatMetaKey` for a flat repository, `MetaKey` otherwise.
pub open spec fn spec_key_of(t: IndexTarget, is_flat: bool) -> Option<Vec<u8>> {
    if is_flat {
        t.flat_meta_key
    } else {
        t.meta_key
    }
}

/// Whether the combination `(x, y, z)` of candidates matches.
pub open spec fn matched_at(
    template: Seq<u8>,
    name: Seq<u8>,
    archs: Seq<Seq<u8>>,
    comps: Seq<Seq<u8>>,
    langs: Seq<Seq<u8>>,
    native: Seq<u8>,
    x: int,
    y: int,
    z: int,
) -> bool {
    0 <= x < archs.len() && 0 <= y < comps.len() && 0 <= z < langs.len() && spec_is_match(
        template,
        name,
        archs[x],
        comps[y],
        langs[z],
        native,
    )
}

/// Whether any candidate combination matches.
pub open spec fn spec_matches_any(
    template: Seq<u8>,
    name: Seq<u8>,
    archs: Seq<Seq<u8>>,
    comps: Seq<Seq<u8>>,
    langs: Seq<Seq<u8>>,
    native: Seq<u8>,
) -> bool {
    exists|x: int, y: int, z: int|
        #[trigger] matched_at(template, name, archs, comps, langs, native, x, y, z)
}

/// A selected entry is justified when some manifest item, enabled target
/// and matching candidate combination produced it.
pub open spec fn justified_at(
    e: ChecksumDownloadEntry,
    checksums: Seq<ChecksumItem>,
    tree: Seq<IndexTarget>,
    is_flat: bool,
    native: Seq<u8>,
    archs: Seq<Seq<u8>>,
    comps: Seq<Seq<u8>>,
    langs: Seq<Seq<u8>>,
    ci: int,
    ti: int,
    x: int,
    y: int,
    z: int,
) -> bool {
    &&& 0 <= ci < checksums.len() && 0 <= ti < tree.len()
    &&& item_view(e.item) == item_view(checksums[ci])
    &&& spec_key_of(tree[ti], is_flat) is Some
    &&& matched_at(
        spec_key_of(tree[ti], is_flat)->Some_0@,
        checksums[ci].name@,
        archs,
        comps,
        langs,
        native,
        x,
        y,
        z,
    )
    &&& e.keep_compress == tree[ti].keep_compressed
    &&& e.msg@ == spec_render(
        tree[ti].short_description@,
        archs[x],
        comps[y],
        langs[z],
        native,
    )
}

/// A selected entry is justified by some witness combination.
pub open spec fn spec_entry_justified(
    e: ChecksumDownloadEntry,
    checksums: Seq<ChecksumItem>,
    tree: Seq<IndexTarget>,
    is_flat: bool,
    native: Seq<u8>,
    archs: Seq<Seq<u8>>,
    comps: Seq<Seq<u8>>,
    langs: Seq<Seq<u8>>,
) -> bool {
    exists|ci: int, ti: int, x: int, y: int, z: int|
        #[trigger] justified_at(
            e,
            checksums,
            tree,
            is_flat,
            native,
            archs,
            comps,
            langs,
            ci,
            ti,
            x,
            y,
            z,
        )
}

/// The preference rank of a selected entry.
pub open spec fn entry_rank(e: ChecksumDownloadEntry) -> int {
    spec_name_rank(e.item.name@)
}

/// Keep the targets that are enabled, in order.
fn keep_enabled(v: Vec<IndexTarget>) -> (out: Vec<IndexTarget>)
    ensures
        out@ == v@.filter(|t: IndexTarget| t.default_enabled),
{
    let ghost orig = v@;
    let mut rest = v;
    let mut out: Vec<IndexTarget> = Vec::new();
    let ghost k: int = 0;
    proof {
        assert(rest@ =~= orig.skip(0));
        reveal_with_fuel(Seq::<IndexTarget>::filter, 1);
        assert(orig.take(0).filter(|t: IndexTarget| t.default_enabled) =~= Seq::<
            IndexTarget,
        >::empty());
    }
    while rest.len() > 0
        invariant
            0 <= k <= orig.len(),
            rest@ =~= orig.skip(k),
            out@ =~= orig.take(k).filter(|t: IndexTarget| t.default_enabled),
        decreases rest@.len(),
    {
        let t = rest.remove(0);
        proof {
            assert(t == orig[k]);
            assert(rest@ =~= orig.skip(k + 1));
            assert(orig.take(k + 1) =~= orig.take(k).push(orig[k]));
            lemma_filter_push_target(orig.take(k), orig[k], |t: IndexTarget| t.default_enabled);
        }
        if t.default_enabled {
            out.push(t);
        }
        proof {
            k = k + 1;
        }
    }
    proof {
        assert(orig.take(orig.len() as int) =~= orig);
    }
    out
}

proof fn lemma_filter_push_target(
    s: Seq<IndexTarget>,
    x: IndexTarget,
    pred: spec_fn(IndexTarget) -> bool,
)
    ensures
        s.push(x).filter(pred) =~= if pred(x) {
            s.filter(pred).push(x)
        } else {
            s.filter(pred)
        },
{
    reveal_with_fuel(Seq::<IndexTarget>::filter, 2);
    assert(s.push(x).drop_last() =~= s);
}

/// The configured index targets, split by repository kind.
#[derive(Debug, Clone)]
pub struct IndexTargetConfig {
    deb: Vec<IndexTarget>,
    deb_src: Vec<IndexTarget>,
    native_arch: Vec<u8>,
}

impl IndexTargetConfig {
    /// The enabled binary-package targets.
    pub closed spec fn spec_deb(&self) -> Seq<IndexTarget> {
        self.deb@
    }

    /// The enabled source-package targets.
    pub closed spec fn spec_deb_src(&self) -> Seq<IndexTarget> {
        self.deb_src@
    }

    /// The native architecture.
    pub closed spec fn spec_native(&self) -> Seq<u8> {
        self.native_arch@
    }

    /// The targets a repository kind selects.
    pub open spec fn spec_targets(&self, is_source: bool) -> Seq<IndexTarget> {
        if is_source {
            self.spec_deb_src()
        } else {
            self.spec_deb()
        }
    }

    /// Build the resolver's configuration: the given target lists with
    /// the disabled targets dropped, and the native architecture.
    pub fn new(deb: Vec<IndexTarget>, deb_src: Vec<IndexTarget>, native_arch: Vec<u8>) -> (r:
        IndexTargetConfig)
        ensures
            r.spec_deb() == deb@.filter(|t: IndexTarget| t.default_enabled),
            r.spec_deb_src() == deb_src@.filter(|t: IndexTarget| t.default_enabled),
            r.spec_native() == native_arch@,
    {
        IndexTargetConfig {
            deb: keep_enabled(deb),
            deb_src: keep_enabled(deb_src),
            native_arch,
        }
    }

    /// Whether a manifest name matches this template under one candidate
    /// combination, both sides taken without the name's extension.
    pub fn template_is_match(
        &self,
        template: &[u8],
        target: &[u8],
        arch: &[u8],
        component: &[u8],
        lang: &[u8],
    ) -> (r: bool)
        ensures
            r == spec_is_match(template@, target@, arch@, component@, lang@, self.spec_native()),
    {
        let rendered = render_template(template, arch, component, lang, self.native_arch.as_slice());
        let (_ext, base) = split_ext_and_filename(target);
        bytes_eq(base.as_slice(), rendered.as_slice())
    }

    /// Search the candidate combinations for one that matches, in
    /// architecture, component, language order.
    fn find_match(
        &self,
        template: &[u8],
        name: &[u8],
        archs: &Vec<Vec<u8>>,
        comps: &Vec<Vec<u8>>,
        langs: &Vec<Vec<u8>>,
    ) -> (r: Option<(usize, usize, usize)>)
        ensures
            match r {
                Some(w) => matched_at(
                    template@,
                    name@,
                    archs.deep_view(),
                    comps.deep_view(),
                    langs.deep_view(),
                    self.spec_native(),
                    w.0 as int,
                    w.1 as int,
                    w.2 as int,
                ),
                None => !spec_matches_any(
                    template@,
                    name@,
                    archs.deep_view(),
                    comps.deep_view(),
                    langs.deep_view(),
                    self.spec_native(),
                ),
            },
    {
        let ghost av = archs.deep_view();
        let ghost cv = comps.deep_view();
        let ghost lv = langs.deep_view();
        let mut x: usize = 0;
        while x < archs.len()
            invariant
                av == archs.deep_view(),
                cv == comps.deep_view(),
                lv == langs.deep_view(),
                x <= archs.len(),
                forall|x2: int, y2: int, z2: int|
                    0 <= x2 < x ==> !matched_at(
                        template@,
                        name@,
                        av,
                        cv,
                        lv,
                        self.spec_native(),
                        x2,
                        y2,
                        z2,
                    ),
            decreases archs.len() - x,
        {
            let mut y: usize = 0;
            while y < comps.len()
                invariant
                    av == archs.deep_view(),
                    cv == comps.deep_view(),
                    lv == langs.deep_view(),
                    x < archs.len(),
                    y <= comps.len(),
                    forall|y2: int, z2: int|
                        0 <= y2 < y ==> !matched_at(
                            template@,
                            name@,
                            av,
                            cv,
                            lv,
                            self.spec_native(),
                            x as int,
                            y2,
                            z2,
                        ),
                decreases comps.len() - y,
            {
                let mut z: usize = 0;
                while z < langs.len()
                    invariant
                        av == archs.deep_view(),
                        cv == comps.deep_view(),
                        lv == langs.deep_view(),
                        x < archs.len(),
                        y < comps.len(),
                        z <= langs.len(),
                        forall|z2: int|
                            0 <= z2 < z ==> !matched_at(
                                template@,
                                name@,
                                av,
                                cv,
                                lv,
                                self.spec_native(),
                                x as int,
                                y as int,
                                z2,
                            ),
                    decreases langs.len() - z,
                {
                    let hit = self.template_is_match(
                        template,
                        name,
                        archs[x].as_slice(),
                        comps[y].as_slice(),
                        langs[z].as_slice(),
                    );
                    proof {
                        assert(av[x as int] == archs@[x as int]@);
                        assert(cv[y as int] == comps@[y as int]@);
                        assert(lv[z as int] == langs@[z as int]@);
                    }
                    if hit {
                        proof {
                            assert(matched_at(
                                template@,
                                name@,
                                av,
                                cv,
                                lv,
                                self.spec_native(),
                                x as int,
                                y as int,
                                z as int,
                            ));
                        }
                        return Some((x, y, z));
                    }
                    z = z + 1;
                }
                y = y + 1;
            }
            x = x + 1;
        }
        proof {
            assert forall|x2: int, y2: int, z2: int|
                !matched_at(template@, name@, av, cv, lv, self.spec_native(), x2, y2, z2) by {
                if 0 <= x2 < av.len() && 0 <= y2 < cv.len() && 0 <= z2 < lv.len() {
                }
            }
        }
        None
    }
}

/// Put one selected entry into its logical-target group: a new base name
/// starts a group; within a group the higher-ranked variant wins, the
/// earlier entry being kept on ties.
fn upsert_group(
    groups: &mut Vec<(Vec<u8>, ChecksumDownloadEntry)>,
    base: Vec<u8>,
    e: ChecksumDownloadEntry,
)
    requires
        base@ == spec_ext_split(e.item.name@).1,
        forall|g1: int, g2: int|
            0 <= g1 < g2 < old(groups)@.len() ==> (#[trigger] old(groups)@[g1]).0@ != (
            #[trigger] old(groups)@[g2]).0@,
    ensures
        final(groups)@.len() == old(groups)@.len() || final(groups)@.len() == old(groups)@.len()
            + 1,
        forall|j: int|
            0 <= j < old(groups)@.len() ==> (#[trigger] final(groups)@[j]).0@ == old(
                groups,
            )@[j].0@,
        forall|j: int|
            0 <= j < old(groups)@.len() ==> ((#[trigger] final(groups)@[j]).1 == old(groups)@[j].1
                || (old(groups)@[j].0@ == base@ && final(groups)@[j].1 == e)),
        forall|j: int|
            0 <= j < old(groups)@.len() ==> entry_rank((#[trigger] final(groups)@[j]).1)
                >= entry_rank(old(groups)@[j].1),
        final(groups)@.len() == old(groups)@.len() + 1 ==> (forall|j: int|
            0 <= j < old(groups)@.len() ==> (#[trigger] old(groups)@[j]).0@ != base@)
            && final(groups)@.last().0@ == base@ && final(groups)@.last().1 == e,
        exists|j: int|
            0 <= j < final(groups)@.len() && (#[trigger] final(groups)@[j]).0@ == base@
                && entry_rank(final(groups)@[j].1) >= entry_rank(e),
        forall|g1: int, g2: int|
            0 <= g1 < g2 < final(groups)@.len() ==> (#[trigger] final(groups)@[g1]).0@ != (
            #[trigger] final(groups)@[g2]).0@,
{
    let mut g: usize = 0;
    let ghost oldg = groups@;
    while g < groups.len()
        invariant
            oldg == old(groups)@,
            groups@ == oldg,
            g <= oldg.len(),
            base@ == spec_ext_split(e.item.name@).1,
            forall|g1: int, g2: int|
                0 <= g1 < g2 < oldg.len() ==> (#[trigger] oldg[g1]).0@ != (
                #[trigger] oldg[g2]).0@,
            forall|j: int| 0 <= j < g ==> (#[trigger] oldg[j]).0@ != base@,
        decreases oldg.len() - g,
    {
        if bytes_eq(groups[g].0.as_slice(), base.as_slice()) {
            let cur_rank = name_rank(groups[g].1.item.name.as_slice());
            let new_rank = name_rank(e.item.name.as_slice());
            if new_rank > cur_rank {
                let gi = g;
                groups.remove(gi);
                proof {
                    assert(groups@ =~= oldg.remove(gi as int));
                }
                groups.insert(gi, (base, e));
                proof {
                    assert(groups@ =~= oldg.remove(gi as int).insert(gi as int, groups@[gi as int]));
                    assert(groups@ =~= oldg.update(gi as int, groups@[gi as int]));
                    assert(groups@[gi as int].0@ == base@);
                    assert(groups@[gi as int].1 == e);
                }
            }
            return ;
        }
        g = g + 1;
    }
    let ghost prev = groups@;
    groups.push((base, e));
    proof {
        assert(groups@[prev.len() as int].0@ == base@);
    }
}

/// A field-for-field copy of a manifest item.
fn copy_item(c: &ChecksumItem) -> (r: ChecksumItem)
    ensures
        item_view(r) == item_view(*c),
        r.name@ == c.name@,
        r.size == c.size,
        r.checksum@ == c.checksum@,
{
    let r = ChecksumItem {
        name: subvec(c.name.as_slice(), 0, c.name.len()),
        size: c.size,
        checksum: subvec(c.checksum.as_slice(), 0, c.checksum.len()),
    };
    proof {
        assert(r.name@ =~= c.name@);
        assert(r.checksum@ =~= c.checksum@);
    }
    r
}

impl IndexTargetConfig {
    /// Expand the configured index targets against every architecture
    /// (plus the implicit `all`), component and language candidate, and
    /// select which manifest entries must be fetched: matching zero-size
    /// entries are discarded as placeholders; the matches are grouped by
    /// extension-less name; and in each group the variant with the
    /// highest compression preference wins, ties keeping the earlier
    /// match. Fails with `WrongConfigEntry` exactly when some enabled
    /// target lacks the requested template key.
    pub fn get_download_list(
        &self,
        checksums: &Vec<ChecksumItem>,
        is_source: bool,
        is_flat: bool,
        archs: &Vec<Vec<u8>>,
        components: &Vec<Vec<u8>>,
        env_lang: &[u8],
    ) -> (r: Result<Vec<ChecksumDownloadEntry>, RefreshError>)
        ensures
            ({
                let tree = self.spec_targets(is_source);
                let aarchs = spec_archs_plus(archs.deep_view());
                let comps = components.deep_view();
                let langs = spec_langs(env_lang@);
                let native = self.spec_native();
                match r {
                    Err(err) => err is WrongConfigEntry && exists|ti: int|
                        0 <= ti < tree.len() && spec_key_of(#[trigger] tree[ti], is_flat) is None,
                    Ok(res) => {
                        &&& forall|ti: int|
                            0 <= ti < tree.len() ==> spec_key_of(
                                #[trigger] tree[ti],
                                is_flat,
                            ) is Some
                        &&& forall|k: int|
                            0 <= k < res@.len() ==> spec_entry_justified(
                                #[trigger] res@[k],
                                checksums@,
                                tree,
                                is_flat,
                                native,
                                aarchs,
                                comps,
                                langs,
                            )
                        &&& forall|k: int| 0 <= k < res@.len() ==> (#[trigger] res@[k]).item.size
                            != 0
                        &&& forall|k1: int, k2: int|
                            0 <= k1 < k2 < res@.len() ==> spec_ext_split(
                                (#[trigger] res@[k1]).item.name@,
                            ).1 != spec_ext_split((#[trigger] res@[k2]).item.name@).1
                        &&& forall|cj: int, tj: int|
                            #![trigger checksums@[cj], tree[tj]]
                            (0 <= cj < checksums@.len() && 0 <= tj < tree.len()
                                && checksums@[cj].size != 0 && spec_matches_any(
                                spec_key_of(tree[tj], is_flat)->Some_0@,
                                checksums@[cj].name@,
                                aarchs,
                                comps,
                                langs,
                                native,
                            )) ==> exists|k: int|
                                0 <= k < res@.len() && spec_ext_split(
                                    (#[trigger] res@[k]).item.name@,
                                ).1 == spec_ext_split(checksums@[cj].name@).1
                        &&& forall|k: int, cj: int, tj: int|
                            #![trigger res@[k], checksums@[cj], tree[tj]]
                            (0 <= k < res@.len() && 0 <= cj < checksums@.len() && 0 <= tj
                                < tree.len() && checksums@[cj].size != 0 && spec_matches_any(
                                spec_key_of(tree[tj], is_flat)->Some_0@,
                                checksums@[cj].name@,
                                aarchs,
                                comps,
                                langs,
                                native,
                            ) && spec_ext_split(checksums@[cj].name@).1 == spec_ext_split(
                                res@[k].item.name@,
                            ).1) ==> spec_name_rank(checksums@[cj].name@) <= spec_name_rank(
                                res@[k].item.name@,
                            )
                    },
                }
            }),
    {
        let tree: &Vec<IndexTarget> = if is_source {
            &self.deb_src
        } else {
            &self.deb
        };
        let ghost treev = self.spec_targets(is_source);
        let ghost csv = checksums@;
        // Every target must offer the requested template key.
        let mut pi: usize = 0;
        while pi < tree.len()
            invariant
                tree@ == treev,
                treev == self.spec_targets(is_source),
                pi <= treev.len(),
                forall|j: int| 0 <= j < pi ==> spec_key_of(#[trigger] treev[j], is_flat) is Some,
            decreases treev.len() - pi,
        {
            let present = if is_flat {
                tree[pi].flat_meta_key.is_some()
            } else {
                tree[pi].meta_key.is_some()
            };
            if !present {
                proof {
                    assert(spec_key_of(self.spec_targets(is_source)[pi as int], is_flat) is None);
                }
                return Err(RefreshError::WrongConfigEntry);
            }
            pi = pi + 1;
        }
        let langs = get_matches_language(env_lang);
        let aarchs = archs_with_all(archs);
        let ghost av = aarchs.deep_view();
        let ghost cv = components.deep_view();
        let ghost lv = langs.deep_view();
        let ghost natv = self.spec_native();
        let mut groups: Vec<(Vec<u8>, ChecksumDownloadEntry)> = Vec::new();
        let mut ci: usize = 0;
        while ci < checksums.len()
            invariant
                tree@ == treev,
                csv == checksums@,
                av == aarchs.deep_view(),
                cv == components.deep_view(),
                lv == langs.deep_view(),
                natv == self.spec_native(),
                av == spec_archs_plus(archs.deep_view()),
                lv == spec_langs(env_lang@),
                ci <= csv.len(),
                forall|j: int| 0 <= j < treev.len() ==> spec_key_of(#[trigger] treev[j], is_flat) is Some,
                forall|g1: int, g2: int|
                    0 <= g1 < g2 < groups@.len() ==> (#[trigger] groups@[g1]).0@ != (
                    #[trigger] groups@[g2]).0@,
                forall|g: int|
                    0 <= g < groups@.len() ==> (#[trigger] groups@[g]).0@ == spec_ext_split(
                        groups@[g].1.item.name@,
                    ).1,
                forall|g: int|
                    0 <= g < groups@.len() ==> spec_entry_justified(
                        (#[trigger] groups@[g]).1,
                        csv,
                        treev,
                        is_flat,
                        natv,
                        av,
                        cv,
                        lv,
                    ) && groups@[g].1.item.size != 0,
                forall|cj: int, tj: int|
                    #![trigger csv[cj], treev[tj]]
                    (0 <= cj < ci && 0 <= tj < treev.len() && csv[cj].size != 0
                        && spec_matches_any(
                        spec_key_of(treev[tj], is_flat)->Some_0@,
                        csv[cj].name@,
                        av,
                        cv,
                        lv,
                        natv,
                    )) ==> exists|g: int|
                        0 <= g < groups@.len() && (#[trigger] groups@[g]).0@ == spec_ext_split(
                            csv[cj].name@,
                        ).1,
                forall|g: int, cj: int, tj: int|
                    #![trigger groups@[g], csv[cj], treev[tj]]
                    (0 <= g < groups@.len() && 0 <= cj < ci && 0 <= tj < treev.len()
                        && csv[cj].size != 0 && spec_matches_any(
                        spec_key_of(treev[tj], is_flat)->Some_0@,
                        csv[cj].name@,
                        av,
                        cv,
                        lv,
                        natv,
                    ) && spec_ext_split(csv[cj].name@).1 == groups@[g].0@)
                        ==> spec_name_rank(csv[cj].name@) <= entry_rank(groups@[g].1),
            decreases csv.len() - ci,
        {
            let item = &checksums[ci];
            if item.size != 0 {
                let mut ti: usize = 0;
                while ti < tree.len()
                    invariant
                        tree@ == treev,
                        csv == checksums@,
                        av == aarchs.deep_view(),
                        cv == components.deep_view(),
                        lv == langs.deep_view(),
                        natv == self.spec_native(),
                        ci < csv.len(),
                        ti <= treev.len(),
                        item.name@ == csv[ci as int].name@,
                        item.size == csv[ci as int].size,
                        item.checksum@ == csv[ci as int].checksum@,
                        csv[ci as int].size != 0,
                        forall|j: int|
                            0 <= j < treev.len() ==> spec_key_of(
                                #[trigger] treev[j],
                                is_flat,
                            ) is Some,
                        forall|g1: int, g2: int|
                            0 <= g1 < g2 < groups@.len() ==> (#[trigger] groups@[g1]).0@ != (
                            #[trigger] groups@[g2]).0@,
                        forall|g: int|
                            0 <= g < groups@.len() ==> (#[trigger] groups@[g]).0@
                                == spec_ext_split(groups@[g].1.item.name@).1,
                        forall|g: int|
                            0 <= g < groups@.len() ==> spec_entry_justified(
                                (#[trigger] groups@[g]).1,
                                csv,
                                treev,
                                is_flat,
                                natv,
                                av,
                                cv,
                                lv,
                            ) && groups@[g].1.item.size != 0,
                        forall|cj: int, tj: int|
                            #![trigger csv[cj], treev[tj]]
                            (0 <= cj < csv.len() && 0 <= tj < treev.len() && (cj < ci || (cj == ci
                                && tj < ti)) && csv[cj].size != 0 && spec_matches_any(
                                spec_key_of(treev[tj], is_flat)->Some_0@,
                                csv[cj].name@,
                                av,
                                cv,
                                lv,
                                natv,
                            )) ==> exists|g: int|
                                0 <= g < groups@.len() && (#[trigger] groups@[g]).0@
                                    == spec_ext_split(csv[cj].name@).1,
                        forall|g: int, cj: int, tj: int|
                            #![trigger groups@[g], csv[cj], treev[tj]]
                            (0 <= g < groups@.len() && 0 <= cj < csv.len() && 0 <= tj
                                < treev.len() && (cj < ci || (cj == ci && tj < ti))
                                && csv[cj].size != 0 && spec_matches_any(
                                spec_key_of(treev[tj], is_flat)->Some_0@,
                                csv[cj].name@,
                                av,
                                cv,
                                lv,
                                natv,
                            ) && spec_ext_split(csv[cj].name@).1 == groups@[g].0@)
                                ==> spec_name_rank(csv[cj].name@) <= entry_rank(groups@[g].1),
                    decreases treev.len() - ti,
                {
                    let target = &tree[ti];
                    let template: &Vec<u8> = if is_flat {
                        match &target.flat_meta_key {
                            Some(t) => t,
                            None => {
                                proof {
                                    assert(false);
                                }
                                &target.short_description
                            },
                        }
                    } else {
                        match &target.meta_key {
                            Some(t) => t,
                            None => {
                                proof {
                                    assert(false);
                                }
                                &target.short_description
                            },
                        }
                    };
                    proof {
                        assert(template@ == spec_key_of(treev[ti as int], is_flat)->Some_0@);
                    }
                    match self.find_match(
                        template.as_slice(),
                        item.name.as_slice(),
                        &aarchs,
                        components,
                        &langs,
                    ) {
                        None => {
                            proof {
                                assert(!spec_matches_any(
                                    spec_key_of(treev[ti as int], is_flat)->Some_0@,
                                    csv[ci as int].name@,
                                    av,
                                    cv,
                                    lv,
                                    natv,
                                ));
                            }
                        },
                        Some(w) => {
                            let (x, y, z) = w;
                            let msg = render_template(
                                target.short_description.as_slice(),
                                aarchs[x].as_slice(),
                                components[y].as_slice(),
                                langs[z].as_slice(),
                                self.native_arch.as_slice(),
                            );
                            let new_item = copy_item(item);
                            let entry = ChecksumDownloadEntry {
                                item: new_item,
                                keep_compress: target.keep_compressed,
                                msg,
                            };
                            let (_ext, base) = split_ext_and_filename(item.name.as_slice());
                            proof {
                                assert(av[x as int] == aarchs@[x as int]@);
                                assert(cv[y as int] == components@[y as int]@);
                                assert(lv[z as int] == langs@[z as int]@);
                                assert(justified_at(
                                    entry,
                                    csv,
                                    treev,
                                    is_flat,
                                    natv,
                                    av,
                                    cv,
                                    lv,
                                    ci as int,
                                    ti as int,
                                    x as int,
                                    y as int,
                                    z as int,
                                ));
                                assert(spec_entry_justified(
                                    entry,
                                    csv,
                                    treev,
                                    is_flat,
                                    natv,
                                    av,
                                    cv,
                                    lv,
                                ));
                                assert(base@ == spec_ext_split(entry.item.name@).1);
                                assert(entry_rank(entry) == spec_name_rank(csv[ci as int].name@));
                            }
                            let ghost oldgr = groups@;
                            let ghost entry_g = entry;
                            let ghost base_g = base@;
                            upsert_group(&mut groups, base, entry);
                            proof {
                                assert(matched_at(
                                    spec_key_of(treev[ti as int], is_flat)->Some_0@,
                                    csv[ci as int].name@,
                                    av,
                                    cv,
                                    lv,
                                    natv,
                                    x as int,
                                    y as int,
                                    z as int,
                                ));
                                assert forall|g: int|
                                    0 <= g < groups@.len() implies spec_entry_justified(
                                        (#[trigger] groups@[g]).1,
                                        csv,
                                        treev,
                                        is_flat,
                                        natv,
                                        av,
                                        cv,
                                        lv,
                                    ) && groups@[g].1.item.size != 0 && groups@[g].0@
                                        == spec_ext_split(groups@[g].1.item.name@).1 by {
                                    if g < oldgr.len() {
                                        assert(groups@[g].1 == oldgr[g].1 || groups@[g].1
                                            == entry_g);
                                        assert(groups@[g].0@ == oldgr[g].0@);
                                    } else {
                                        assert(groups@[g].1 == entry_g);
                                        assert(groups@[g].0@ == base_g);
                                    }
                                }
                                assert forall|cj: int, tj: int|
                                    #![trigger csv[cj], treev[tj]]
                                    (0 <= cj < csv.len() && 0 <= tj < treev.len() && (cj < ci || (
                                    cj == ci && tj < ti + 1)) && csv[cj].size != 0
                                        && spec_matches_any(
                                        spec_key_of(treev[tj], is_flat)->Some_0@,
                                        csv[cj].name@,
                                        av,
                                        cv,
                                        lv,
                                        natv,
                                    )) implies exists|g: int|
                                        0 <= g < groups@.len() && (#[trigger] groups@[g]).0@
                                            == spec_ext_split(csv[cj].name@).1 by {
                                    if cj == ci && tj == ti {
                                        let g = choose|g: int|
                                            0 <= g < groups@.len() && (#[trigger] groups@[g]).0@
                                                == base_g && entry_rank(groups@[g].1)
                                                >= entry_rank(entry_g);
                                        assert(groups@[g].0@ == spec_ext_split(csv[cj].name@).1);
                                    } else {
                                        let g = choose|g: int|
                                            0 <= g < oldgr.len() && (#[trigger] oldgr[g]).0@
                                                == spec_ext_split(csv[cj].name@).1;
                                        assert(groups@[g].0@ == oldgr[g].0@);
                                    }
                                }
                                assert forall|g: int, cj: int, tj: int|
                                    #![trigger groups@[g], csv[cj], treev[tj]]
                                    (0 <= g < groups@.len() && 0 <= cj < csv.len() && 0 <= tj
                                        < treev.len() && (cj < ci || (cj == ci && tj < ti + 1))
                                        && csv[cj].size != 0 && spec_matches_any(
                                        spec_key_of(treev[tj], is_flat)->Some_0@,
                                        csv[cj].name@,
                                        av,
                                        cv,
                                        lv,
                                        natv,
                                    ) && spec_ext_split(csv[cj].name@).1 == groups@[g].0@)
                                        implies spec_name_rank(csv[cj].name@) <= entry_rank(
                                        groups@[g].1,
                                    ) by {
                                    if cj == ci && tj == ti {
                                        // the current combination's rank is the new entry's
                                        let gw = choose|gw: int|
                                            0 <= gw < groups@.len() && (#[trigger] groups@[gw]).0@
                                                == base_g && entry_rank(groups@[gw].1)
                                                >= entry_rank(entry_g);
                                        if g < oldgr.len() {
                                            assert(groups@[g].0@ == oldgr[g].0@);
                                        }
                                        assert(groups@[g].0@ == base_g);
                                        if gw != g {
                                            assert(groups@[gw].0@ != groups@[g].0@);
                                        }
                                        assert(entry_rank(groups@[g].1) >= entry_rank(entry_g));
                                    } else if g < oldgr.len() {
                                        // an already-processed combination against a kept group
                                        assert(groups@[g].0@ == oldgr[g].0@);
                                        assert(spec_name_rank(csv[cj].name@) <= entry_rank(
                                            oldgr[g].1,
                                        ));
                                        assert(entry_rank(groups@[g].1) >= entry_rank(oldgr[g].1));
                                    } else {
                                        // a fresh group: no earlier combination shares its base
                                        assert(groups@[g].0@ == base_g);
                                        assert(groups@.len() == oldgr.len() + 1);
                                        let gw = choose|gw: int|
                                            0 <= gw < oldgr.len() && (#[trigger] oldgr[gw]).0@
                                                == spec_ext_split(csv[cj].name@).1;
                                        assert(oldgr[gw].0@ != base_g);
                                        assert(false);
                                    }
                                }
                            }
                        },
                    }
                    ti = ti + 1;
                }
            }
            ci = ci + 1;
        }
        // The selected variant of each group, in group order.
        let ghost allg = groups@;
        let mut rest = groups;
        let mut res: Vec<ChecksumDownloadEntry> = Vec::new();
        let ghost moved: int = 0;
        proof {
            assert(rest@ =~= allg.skip(0));
        }
        while rest.len() > 0
            invariant
                0 <= moved <= allg.len(),
                rest@ =~= allg.skip(moved),
                res@.len() == moved,
                forall|k: int| 0 <= k < moved ==> (#[trigger] res@[k]) == allg[k].1,
            decreases rest@.len(),
        {
            let p = rest.remove(0);
            proof {
                assert(p == allg[moved]);
                assert(rest@ =~= allg.skip(moved + 1));
            }
            res.push(p.1);
            proof {
                moved = moved + 1;
            }
        }
        proof {
            assert forall|k1: int, k2: int|
                0 <= k1 < k2 < res@.len() implies spec_ext_split(
                    (#[trigger] res@[k1]).item.name@,
                ).1 != spec_ext_split((#[trigger] res@[k2]).item.name@).1 by {
                assert(allg[k1].0@ == spec_ext_split(allg[k1].1.item.name@).1);
                assert(allg[k2].0@ == spec_ext_split(allg[k2].1.item.name@).1);
            }
            assert forall|cj: int, tj: int|
                #![trigger csv[cj], treev[tj]]
                (0 <= cj < csv.len() && 0 <= tj < treev.len() && csv[cj].size != 0
                    && spec_matches_any(
                    spec_key_of(treev[tj], is_flat)->Some_0@,
                    csv[cj].name@,
                    av,
                    cv,
                    lv,
                    natv,
                )) implies exists|k: int|
                    0 <= k < res@.len() && spec_ext_split((#[trigger] res@[k]).item.name@).1
                        == spec_ext_split(csv[cj].name@).1 by {
                let g = choose|g: int|
                    0 <= g < allg.len() && (#[trigger] allg[g]).0@ == spec_ext_split(
                        csv[cj].name@,
                    ).1;
                assert(res@[g] == allg[g].1);
                assert(spec_ext_split(res@[g].item.name@).1 == spec_ext_split(csv[cj].name@).1);
            }
        }
        Ok(res)
    }
}

} // verus!
