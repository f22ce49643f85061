use oma::inrelease::ChecksumItem;
use oma::resolver::{
    compress_file, get_matches_language, render_template, CompressKind, IndexTarget,
    IndexTargetConfig, RefreshError,
};

fn target(meta_key: &[u8], keep: bool, desc: &[u8]) -> IndexTarget {
    IndexTarget {
        meta_key: Some(meta_key.to_vec()),
        flat_meta_key: Some(b"$(COMPONENT)/Packages".to_vec()),
        default_enabled: true,
        keep_compressed: keep,
        short_description: desc.to_vec(),
    }
}

fn item(name: &[u8], size: u64) -> ChecksumItem {
    ChecksumItem { name: name.to_vec(), size, checksum: b"aa".to_vec() }
}

#[test]
fn test_get_matches_language() {
    let langs = get_matches_language(b"C");
    assert_eq!(langs, vec![b"en".to_vec()]);
    let langs = get_matches_language(b"zh_CN.UTF-8");
    assert_eq!(langs, vec![b"zh_CN".to_vec(), b"zh".to_vec()]);
    let langs = get_matches_language(b"en_US.UTF-8");
    assert_eq!(langs, vec![b"en_US".to_vec(), b"en".to_vec()]);
}

#[test]
fn template_expansion_renders_placeholders() {
    let rendered = render_template(
        b"$(COMPONENT)/binary-$(ARCHITECTURE)/Packages",
        b"amd64",
        b"main",
        b"en",
        b"amd64",
    );
    assert_eq!(rendered, b"main/binary-amd64/Packages".to_vec());

    let rendered = render_template(
        b"$(COMPONENT)/i18n/Translation-$(LANGUAGE)",
        b"amd64",
        b"main",
        b"zh_CN",
        b"amd64",
    );
    assert_eq!(rendered, b"main/i18n/Translation-zh_CN".to_vec());

    let rendered = render_template(b"Contents-$(NATIVE_ARCHITECTURE)", b"all", b"main", b"en", b"riscv64");
    assert_eq!(rendered, b"Contents-riscv64".to_vec());
}

#[test]
fn compress_kinds_are_ranked_by_extension() {
    assert!(matches!(compress_file(b"a/Packages.gz"), CompressKind::Gzip));
    assert!(matches!(compress_file(b"a/Packages.xz"), CompressKind::Xz));
    assert!(matches!(compress_file(b"a/Packages.zst"), CompressKind::Zstd));
    assert!(matches!(compress_file(b"a/Packages.bz2"), CompressKind::Bz2));
    assert!(matches!(compress_file(b"a/Packages"), CompressKind::Plain));
}

#[test]
fn download_list_picks_one_variant_per_logical_target() {
    let config = IndexTargetConfig::new(
        vec![target(
            b"$(COMPONENT)/binary-$(ARCHITECTURE)/Packages",
            false,
            b"$(COMPONENT) $(ARCHITECTURE) package list",
        )],
        vec![],
        b"amd64".to_vec(),
    );
    let checksums = vec![
        item(b"main/binary-amd64/Packages", 100),
        item(b"main/binary-amd64/Packages.gz", 50),
        item(b"main/binary-amd64/Packages.xz", 40),
        item(b"main/binary-all/Packages.gz", 30),
        item(b"contrib/binary-amd64/Packages.gz", 20),
    ];
    let archs = vec![b"amd64".to_vec()];
    let comps = vec![b"main".to_vec()];
    let res = config
        .get_download_list(&checksums, false, false, &archs, &comps, b"C")
        .unwrap();
    // two logical targets: binary-amd64 (xz preferred) and binary-all
    assert_eq!(res.len(), 2);
    let names: Vec<&[u8]> = res.iter().map(|e| e.item.name.as_slice()).collect();
    assert!(names.contains(&b"main/binary-amd64/Packages.xz".as_slice()));
    assert!(names.contains(&b"main/binary-all/Packages.gz".as_slice()));
    let amd = res
        .iter()
        .find(|e| e.item.name == b"main/binary-amd64/Packages.xz".to_vec())
        .unwrap();
    assert_eq!(amd.msg, b"main amd64 package list".to_vec());
    assert!(!amd.keep_compress);
}

#[test]
fn zero_size_entries_are_placeholders() {
    let config = IndexTargetConfig::new(
        vec![target(b"$(COMPONENT)/binary-$(ARCHITECTURE)/Packages", true, b"d")],
        vec![],
        b"amd64".to_vec(),
    );
    let checksums = vec![item(b"main/binary-amd64/Packages", 0)];
    let archs = vec![b"amd64".to_vec()];
    let comps = vec![b"main".to_vec()];
    let res = config
        .get_download_list(&checksums, false, false, &archs, &comps, b"C")
        .unwrap();
    assert!(res.is_empty());
}

#[test]
fn disabled_targets_are_dropped() {
    let mut t = target(b"$(COMPONENT)/binary-$(ARCHITECTURE)/Packages", false, b"d");
    t.default_enabled = false;
    let config = IndexTargetConfig::new(vec![t], vec![], b"amd64".to_vec());
    let checksums = vec![item(b"main/binary-amd64/Packages.gz", 10)];
    let archs = vec![b"amd64".to_vec()];
    let comps = vec![b"main".to_vec()];
    let res = config
        .get_download_list(&checksums, false, false, &archs, &comps, b"C")
        .unwrap();
    assert!(res.is_empty());
}

#[test]
fn missing_template_key_is_a_config_error() {
    let mut t = target(b"x", false, b"d");
    t.flat_meta_key = None;
    let config = IndexTargetConfig::new(vec![t], vec![], b"amd64".to_vec());
    let checksums = vec![item(b"Packages.gz", 10)];
    let archs = vec![b"amd64".to_vec()];
    let comps = vec![b"main".to_vec()];
    let r = config.get_download_list(&checksums, false, true, &archs, &comps, b"C");
    assert!(matches!(r, Err(RefreshError::WrongConfigEntry)));
}

#[test]
fn language_candidates_match_translations() {
    let config = IndexTargetConfig::new(
        vec![target(b"$(COMPONENT)/i18n/Translation-$(LANGUAGE)", false, b"d")],
        vec![],
        b"amd64".to_vec(),
    );
    let checksums = vec![
        item(b"main/i18n/Translation-zh.xz", 5),
        item(b"main/i18n/Translation-fr.xz", 5),
    ];
    let archs = vec![b"amd64".to_vec()];
    let comps = vec![b"main".to_vec()];
    let res = config
        .get_download_list(&checksums, false, false, &archs, &comps, b"zh_CN.UTF-8")
        .unwrap();
    assert_eq!(res.len(), 1);
    assert_eq!(res[0].item.name, b"main/i18n/Translation-zh.xz".to_vec());
}

#[test]
fn implicit_all_architecture_matches() {
    let config = IndexTargetConfig::new(
        vec![target(b"$(COMPONENT)/binary-$(ARCHITECTURE)/Packages", false, b"d")],
        vec![],
        b"amd64".to_vec(),
    );
    let checksums = vec![item(b"main/binary-all/Packages.xz", 9)];
    let archs = vec![b"amd64".to_vec()];
    let comps = vec![b"main".to_vec()];
    let res = config
        .get_download_list(&checksums, false, false, &archs, &comps, b"C")
        .unwrap();
    assert_eq!(res.len(), 1);
}
