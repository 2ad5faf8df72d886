use sam_toolkit::projects::{
    behind_count, classify, human_bytes, is_vendored, lang_color, language_of, nonblank_line_count,
    nonblank_lines, repo_bytes, sorted, tally_languages, add_bytes, merge_languages, vendored_components, RepoStatus,
};

fn status(dirty: usize, commits: &[&str], has_upstream: bool) -> RepoStatus {
    RepoStatus {
        name: "repo".to_string(),
        branch: "main".to_string(),
        dirty,
        behind: 0,
        has_upstream,
        is_jj: false,
        commits: commits.iter().map(|c| c.to_string()).collect(),
        tree: String::new(),
        tip: "no commits yet".to_string(),
        languages: Vec::new(),
    }
}

#[test]
fn classify_counts_programming_and_markup_only() {
    assert_eq!(classify("a/b.rs"), Some("Rust"));
    assert_eq!(classify("a/b.tsx"), Some("TypeScript"));
    assert_eq!(classify("docs/post.mdx"), Some("MDX"));
    assert_eq!(classify("Dockerfile"), Some("Dockerfile"));
    assert_eq!(classify("svc/Dockerfile.prod"), Some("Dockerfile"));
    // Prose and data are excluded, the way Linguist's language bar excludes them.
    assert_eq!(classify("README.md"), None);
    assert_eq!(classify("package.json"), None);
    assert_eq!(classify("config.yaml"), None);
    assert_eq!(classify("Cargo.toml"), None);
    assert_eq!(classify("noext"), None);
}

#[test]
fn classify_lowers_the_extension_and_knows_makefiles() {
    assert_eq!(classify("src/LIB.RS"), Some("Rust"));
    assert_eq!(classify("web/Page.HTM"), Some("HTML"));
    assert_eq!(classify("build/GNUmakefile"), Some("Makefile"));
    assert_eq!(classify("Makefile"), Some("Makefile"));
    assert_eq!(classify(".bashrc"), None);
    assert_eq!(classify("lib/a.hpp"), Some("C++"));
    assert_eq!(classify("x/y.ex"), Some("Elixir"));
}

#[test]
fn language_of_prefers_the_file_name() {
    assert_eq!(language_of(Some("Dockerfile.rs"), Some("rs")), Some("Dockerfile"));
    assert_eq!(language_of(Some("main.PY"), Some("PY")), Some("Python"));
    assert_eq!(language_of(None, Some("go")), Some("Go"));
    assert_eq!(language_of(Some("notes"), None), None);
}

#[test]
fn is_vendored_matches_any_segment() {
    assert!(is_vendored("web/node_modules/x/index.js"));
    assert!(is_vendored("dist/bundle.js"));
    assert!(!is_vendored("src/main.rs"));
}

#[test]
fn is_vendored_needs_a_whole_segment() {
    assert!(!is_vendored("src/distance.rs"));
    assert!(is_vendored("a/.yarn/cache"));
    assert!(is_vendored("generated"));
    assert!(vendored_components(&vec!["src".to_string(), "target".to_string()]));
    assert!(!vendored_components(&vec!["src".to_string()]));
}

#[test]
fn sorted_orders_by_bytes_then_name() {
    let map = vec![
        ("Rust".to_string(), 100),
        ("MDX".to_string(), 100),
        ("TypeScript".to_string(), 300),
    ];
    assert_eq!(
        sorted(map),
        vec![
            ("TypeScript".to_string(), 300),
            ("MDX".to_string(), 100),
            ("Rust".to_string(), 100)
        ],
    );
}

#[test]
fn sorted_drops_empty_languages_and_ignores_input_order() {
    let forward = vec![("C".to_string(), 0), ("Go".to_string(), 5), ("Ada".to_string(), 5)];
    let backward = vec![("Ada".to_string(), 5), ("Go".to_string(), 5), ("C".to_string(), 0)];
    let expected = vec![("Ada".to_string(), 5), ("Go".to_string(), 5)];
    assert_eq!(sorted(forward), expected);
    assert_eq!(sorted(backward), expected);
    assert_eq!(sorted(Vec::new()), Vec::new());
}

#[test]
fn lang_color_matches_github_and_falls_back() {
    // A known language echoes its Linguist hex (Rust = #dea584).
    assert_eq!(lang_color("Rust"), (0xde, 0xa5, 0x84));
    // Unknown languages fall back to neutral gray.
    assert_eq!(lang_color("Brainfuck"), (0x80, 0x80, 0x80));
}

#[test]
fn lang_color_covers_name_recognised_languages() {
    assert_eq!(lang_color("Dockerfile"), (0x38, 0x4d, 0x54));
    assert_eq!(lang_color("Makefile"), (0x42, 0x78, 0x19));
    assert_eq!(lang_color("rust"), (0x80, 0x80, 0x80));
}

#[test]
fn human_bytes_scales_units() {
    assert_eq!(human_bytes(512), "512 B");
    assert_eq!(human_bytes(1024), "1.0 KiB");
    assert_eq!(human_bytes(1536), "1.5 KiB");
    assert_eq!(human_bytes(1024 * 1024), "1.0 MiB");
}

#[test]
fn human_bytes_rounds_like_float_formatting() {
    for n in [0u64, 1, 1023, 1025, 1280, 1331, 1792, 10_000, 1_048_575, 123_456_789, 1 << 40, 5 << 41] {
        let mut value = n as f64;
        let units = ["B", "KiB", "MiB", "GiB", "TiB"];
        let mut unit = 0;
        while value >= 1024.0 && unit < units.len() - 1 {
            value /= 1024.0;
            unit += 1;
        }
        let expected = if unit == 0 {
            format!("{n} B")
        } else {
            format!("{value:.1} {}", units[unit])
        };
        assert_eq!(human_bytes(n), expected, "for {n}");
    }
    assert_eq!(human_bytes(1280), "1.2 KiB");
    assert_eq!(human_bytes(1_048_575), "1024.0 KiB");
}

#[test]
fn unreleased_work_is_local_only_work() {
    assert!(!status(0, &[], true).is_unreleased());
    assert!(status(2, &[], true).is_unreleased());
    assert!(status(0, &["1 day ago · fix"], true).is_unreleased());
    assert!(status(0, &[], false).is_unreleased());
}

#[test]
fn repo_bytes_adds_every_language() {
    let mut repo = status(0, &[], true);
    assert_eq!(repo_bytes(&repo), 0);
    repo.languages = vec![("Rust".to_string(), 100), ("CSS".to_string(), 23)];
    assert_eq!(repo_bytes(&repo), 123);
}

#[test]
fn output_lines_skip_blank_ones() {
    assert_eq!(nonblank_line_count(""), 0);
    assert_eq!(nonblank_line_count(" M a.rs\n?? b.rs\n\n   \n"), 2);
    assert_eq!(
        nonblank_lines("2 days ago · add\r\n\n3 days ago · fix"),
        vec!["2 days ago · add".to_string(), "3 days ago · fix".to_string()]
    );
    assert_eq!(nonblank_lines("a\n \nb\n"), vec!["a".to_string(), "b".to_string()]);
}

#[test]
fn behind_reads_the_first_count() {
    assert_eq!(behind_count("3\t5"), 3);
    assert_eq!(behind_count("  12 0"), 12);
    assert_eq!(behind_count("+7 1"), 7);
    assert_eq!(behind_count(""), 0);
    assert_eq!(behind_count("x 1"), 0);
    assert_eq!(behind_count("-1 1"), 0);
    assert_eq!(behind_count("4294967295 0"), 4294967295);
    assert_eq!(behind_count("4294967296 0"), 0);
}

#[test]
fn languages_are_tallied_per_language_and_ranked() {
    let files = vec![
        ("src/main.rs".to_string(), 100),
        ("node_modules/x/index.js".to_string(), 5000),
        ("web/app.ts".to_string(), 300),
        ("src/lib.rs".to_string(), 250),
        ("README".to_string(), 40),
        ("empty.rs".to_string(), 0),
    ];
    assert_eq!(
        tally_languages(&files),
        vec![("Rust".to_string(), 350), ("TypeScript".to_string(), 300)]
    );
    assert!(tally_languages(&Vec::new()).is_empty());
    let mut totals = vec![("Rust".to_string(), 1)];
    add_bytes(&mut totals, "Rust", 2);
    add_bytes(&mut totals, "Go", 3);
    assert_eq!(totals, vec![("Rust".to_string(), 3), ("Go".to_string(), 3)]);
}

#[test]
fn extensions_follow_the_last_dot_past_a_leading_one() {
    assert_eq!(classify(".rs"), None);
    assert_eq!(classify("a/.x.rs"), Some("Rust"));
    assert_eq!(classify("archive.tar.RS"), Some("Rust"));
    assert_eq!(classify("noext"), None);
}

#[test]
fn repository_totals_merge_by_language() {
    let mut totals = vec![("Rust".to_string(), 10)];
    merge_languages(&mut totals, &vec![("Go".to_string(), 5), ("Rust".to_string(), 7)]);
    merge_languages(&mut totals, &Vec::new());
    assert_eq!(totals, vec![("Rust".to_string(), 17), ("Go".to_string(), 5)]);
}
