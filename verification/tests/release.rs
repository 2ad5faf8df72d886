use sam_toolkit::cache::{
    bin_name, entry_dir, find_asset, is_fresh, is_installed, is_stale_binary, now_unix, Asset,
    Metadata,
};
use sam_toolkit::extract::{choose_entry, infer_format, paths_match, sole_file, ExtractError};
use sam_toolkit::manifest::{
    expand_placeholders, manifest_body, replace_all, validate_repo, Format, Manifest,
    ManifestError, PlatformEntry, DEFAULT_TTL_HOURS,
};

fn entry(asset: &str) -> PlatformEntry {
    PlatformEntry { asset: asset.to_string(), path: None, format: None }
}

#[test]
fn placeholders_expand_tag_and_version() {
    assert_eq!(expand_placeholders("tool-{version}-linux.tar.gz", "v1.2.3"), "tool-1.2.3-linux.tar.gz");
    assert_eq!(expand_placeholders("tool-{tag}.zip", "v1.2.3"), "tool-v1.2.3.zip");
    assert_eq!(expand_placeholders("{tag}/{version}/{tag}", "2.0"), "2.0/2.0/2.0");
    assert_eq!(expand_placeholders("plain", "v1"), "plain");
    assert_eq!(expand_placeholders("{version}", "vv9"), "v9");
}

#[test]
fn replace_all_matches_str_replace() {
    for (text, pattern, with) in [
        ("aaaa", "aa", "b"),
        ("abcabc", "bc", ""),
        ("{tag}{tag}", "{tag}", "x"),
        ("", "a", "b"),
        ("héllo", "é", "e"),
    ] {
        assert_eq!(replace_all(text, pattern, with), text.replace(pattern, with));
    }
}

#[test]
fn manifest_body_skips_the_shebang_line() {
    assert_eq!(manifest_body("#!/usr/bin/env sam-run\n{\"repo\":\"a/b\"}"), "{\"repo\":\"a/b\"}");
    assert_eq!(manifest_body("{\"repo\":\"a/b\"}"), "{\"repo\":\"a/b\"}");
    assert_eq!(manifest_body("#!/usr/bin/env sam-run"), "");
    assert_eq!(manifest_body("#!x\n\n{}\n"), "\n{}\n");
}

#[test]
fn repos_must_be_owner_and_name() {
    assert_eq!(validate_repo("SamChou19815/SamChou19815"), Ok(()));
    assert_eq!(validate_repo("owner"), Err(ManifestError::NotOwnerName("owner".to_string())));
    for bad in ["/name", "owner/", "./name", "owner/..", "a/b/c", "a\\b/c", "a/b\\c"] {
        assert_eq!(validate_repo(bad), Err(ManifestError::InvalidOwnerName(bad.to_string())), "{bad}");
    }
    assert_eq!(
        ManifestError::InvalidOwnerName("a/".to_string()).message(),
        "repo \"a/\" is not a valid owner/name"
    );
    assert_eq!(
        ManifestError::NotOwnerName("a".to_string()).message(),
        "repo \"a\" is not in owner/name form"
    );
}

#[test]
fn manifests_find_platforms_and_ttls() {
    let manifest = Manifest {
        repo: "a/b".to_string(),
        tag: None,
        ttl_hours: Some(2),
        platforms: vec![
            ("linux-x86_64".to_string(), entry("linux")),
            ("macos-aarch64".to_string(), entry("mac")),
        ],
    };
    assert_eq!(manifest.platform("macos-aarch64").unwrap().asset, "mac");
    assert!(manifest.platform("windows-x86_64").is_none());
    assert_eq!(manifest.ttl_secs(), 7200);
    let default = Manifest { ttl_hours: None, ..manifest };
    assert_eq!(default.ttl_secs(), DEFAULT_TTL_HOURS * 3600);
}

#[test]
fn formats_follow_the_asset_name() {
    assert_eq!(infer_format("tool.tar.gz"), Format::TarGz);
    assert_eq!(infer_format("tool.tgz"), Format::TarGz);
    assert_eq!(infer_format("tool.zip"), Format::Zip);
    assert_eq!(infer_format("tool.gz"), Format::Gz);
    assert_eq!(infer_format("tool"), Format::Binary);
    assert_eq!(infer_format("tool.tar"), Format::Binary);
}

#[test]
fn archive_entries_are_chosen_by_path_or_alone() {
    assert!(paths_match("bin/tool", "bin/tool"));
    assert!(paths_match("./bin/tool", "bin/tool"));
    assert!(!paths_match("bin/tool", "./bin/tool"));
    assert!(!paths_match("x/bin/tool", "bin/tool"));

    assert_eq!(sole_file(vec!["a".to_string()]), Ok("a".to_string()));
    assert_eq!(sole_file(Vec::new()), Err(ExtractError::NoFiles));
    assert_eq!(
        sole_file(vec!["a".to_string(), "b".to_string()]),
        Err(ExtractError::MultipleFiles(vec!["a".to_string(), "b".to_string()]))
    );

    let entries = vec![
        ("./".to_string(), false),
        ("./tool".to_string(), true),
    ];
    assert_eq!(choose_entry(&entries, None), Ok(1));
    assert_eq!(choose_entry(&entries, Some("tool")), Ok(1));
    assert_eq!(choose_entry(&entries, Some("other")), Err(ExtractError::NoEntry("other".to_string())));
    let two = vec![("a".to_string(), true), ("b".to_string(), true)];
    assert_eq!(
        choose_entry(&two, None),
        Err(ExtractError::MultipleFiles(vec!["a".to_string(), "b".to_string()]))
    );
    assert_eq!(choose_entry(&vec![("dir/".to_string(), false)], None), Err(ExtractError::NoFiles));
}

#[test]
fn cache_entries_live_under_repo_tag_and_platform() {
    assert_eq!(entry_dir("/cache", "a/b", None, "linux-x86_64"), "/cache/a/b/latest/linux-x86_64");
    assert_eq!(entry_dir("/cache", "a/b", Some("v1"), "macos-aarch64"), "/cache/a/b/v1/macos-aarch64");
    // A root that already ends in a separator gets no second one; an
    // absolute part replaces what came before it.
    assert_eq!(entry_dir("/cache/", "a", None, "linux"), "/cache/a/latest/linux");
    assert_eq!(entry_dir("", "a", Some("v2"), "linux"), "a/v2/linux");
    assert_eq!(entry_dir("/cache", "/abs", None, "linux"), "/abs/latest/linux");
}

#[test]
fn freshness_and_reuse() {
    assert!(is_fresh(100, 50, 51));
    assert!(!is_fresh(100, 50, 50));
    assert!(is_fresh(10, 50, 1));
    assert!(!is_fresh(10, 50, 0));
    let metadata = Metadata {
        checked_at: 0,
        tag: "v1".to_string(),
        asset_id: 7,
        asset_updated_at: "2024-01-01".to_string(),
        bin: "bin-7".to_string(),
    };
    let asset = Asset {
        id: 7,
        name: "tool".to_string(),
        updated_at: "2024-01-01".to_string(),
        url: "https://api.github.com/x".to_string(),
    };
    assert!(is_installed(&metadata, &asset));
    let newer = Asset { updated_at: "2024-02-01".to_string(), ..asset.clone() };
    assert!(!is_installed(&metadata, &newer));
    assert_eq!(find_asset(&vec![newer, asset], "tool"), Some(0));
    assert_eq!(find_asset(&Vec::new(), "tool"), None);
    assert_eq!(bin_name(7), "bin-7");
    assert_eq!(bin_name(1234567890), "bin-1234567890");
    assert!(now_unix() > 1_600_000_000);
}

#[test]
fn only_other_binaries_and_temp_files_are_leftovers() {
    assert!(is_stale_binary("bin-1", "bin-2"));
    assert!(is_stale_binary(".tmp-3-4", "bin-2"));
    assert!(!is_stale_binary("bin-2", "bin-2"));
    assert!(!is_stale_binary("metadata.json", "bin-2"));
}

#[test]
fn extraction_errors_read_as_messages() {
    assert_eq!(ExtractError::NoFiles.message(), "archive contains no regular files");
    assert_eq!(
        ExtractError::MultipleFiles(vec!["a".to_string(), "b \"c\"".to_string()]).message(),
        "archive contains multiple files; specify which one with \"path\": [\"a\", \"b \\\"c\\\"\"]"
    );
    assert_eq!(ExtractError::NoEntry("bin/x".to_string()).message(), "archive has no entry named \"bin/x\"");
    // The message of a refused pick lists what the archive holds.
    let err = sole_file(vec!["x".to_string(), "y".to_string()]).unwrap_err();
    assert_eq!(err.message(), format!("archive contains multiple files; specify which one with \"path\": {:?}", ["x", "y"]));
}
