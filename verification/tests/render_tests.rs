use codesearch::render::{format_condensed, render_default, FormatError};
use codesearch::results::{
    HoundConfig, HoundResults, Match, RepoConfig, RepoMatch, RepoResult, UrlPattern,
};
use codesearch::text::u64_to_string;
use codesearch::url::build_url;

fn config_entry(url: &str) -> RepoConfig {
    RepoConfig {
        url: url.to_string(),
        url_pattern: UrlPattern {
            base_url: "{url}/blob/{rev}/{path}{anchor}".to_string(),
            anchor: "#L{line}".to_string(),
        },
    }
}

fn sample_config() -> HoundConfig {
    HoundConfig {
        entries: vec![
            ("alpha".to_string(), config_entry("https://a.example")),
            ("beta".to_string(), config_entry("https://b.example")),
        ],
    }
}

fn sample_results() -> HoundResults {
    let alpha = RepoResult {
        matches: vec![RepoMatch {
            filename: "src/One.php".to_string(),
            matches: vec![Match {
                line: "class One".to_string(),
                line_number: 10,
                before: vec!["b0".to_string(), "b1".to_string()],
                after: vec!["a0".to_string(), "a1".to_string()],
            }],
        }],
        files_with_match: 3,
        revision: "abc".to_string(),
    };
    let beta = RepoResult {
        matches: vec![RepoMatch {
            filename: "Two.php".to_string(),
            matches: vec![
                Match {
                    line: "two".to_string(),
                    line_number: 5,
                    before: vec![],
                    after: vec![],
                },
                Match {
                    line: "two again".to_string(),
                    line_number: 9,
                    before: vec![],
                    after: vec![],
                },
            ],
        }],
        files_with_match: 1,
        revision: "def".to_string(),
    };
    HoundResults {
        entries: vec![("alpha".to_string(), alpha), ("beta".to_string(), beta)],
    }
}

#[test]
fn url_templating_with_line_anchor() {
    let cfg = RepoConfig {
        url: "x".to_string(),
        url_pattern: UrlPattern {
            base_url: "{url}/blob/{rev}/{path}{anchor}".to_string(),
            anchor: "#L{line}".to_string(),
        },
    };
    assert_eq!(
        build_url(&cfg, "abc123", "foo/bar.php", Some(42)),
        "x/blob/abc123/foo/bar.php#L42"
    );
    assert_eq!(build_url(&cfg, "abc123", "foo/bar.php", None), "x/blob/abc123/foo/bar.php");
}

#[test]
fn decimal_rendering() {
    assert_eq!(u64_to_string(0), "0");
    assert_eq!(u64_to_string(7), "7");
    assert_eq!(u64_to_string(42), "42");
    assert_eq!(u64_to_string(12034), "12034");
    assert_eq!(u64_to_string(u64::MAX), "18446744073709551615");
}

#[test]
fn condensed_view_output() {
    let out = format_condensed(&sample_config(), &sample_results()).unwrap();
    let expected = "\
[ ] alpha (3 files)
** [[https://a.example/blob/abc/src/One.php|src/One.php]] (1 matches)
[ ] beta (1 files)
** [[https://b.example/blob/def/Two.php|Two.php]] (2 matches)";
    assert_eq!(out, expected);
}

#[test]
fn condensed_view_sorts_blocks() {
    // Entry order in the result set does not matter: blocks come out sorted.
    let results = sample_results();
    let reversed = HoundResults {
        entries: results.entries.into_iter().rev().collect(),
    };
    let out = format_condensed(&sample_config(), &reversed).unwrap();
    assert!(out.starts_with("[ ] alpha"));
}

#[test]
fn condensed_view_missing_config_is_a_sync_fault() {
    let config = HoundConfig { entries: vec![("alpha".to_string(), config_entry("u"))] };
    assert_eq!(
        format_condensed(&config, &sample_results()),
        Err(FormatError::ConfigSyncFault)
    );
}

#[test]
fn default_view_ranks_and_flags_completeness() {
    let cards = render_default(&sample_config(), &sample_results()).unwrap();
    // alpha reports 3 files but delivered 1: ranked first, load-more owed.
    assert_eq!(cards.len(), 2);
    assert_eq!(cards[0].name, "alpha");
    assert_eq!(cards[0].files_with_match, 3);
    assert!(cards[0].has_more);
    // beta is complete: the affordance must not be shown.
    assert_eq!(cards[1].name, "beta");
    assert!(!cards[1].has_more);
}

#[test]
fn default_view_lines_and_links() {
    let cards = render_default(&sample_config(), &sample_results()).unwrap();
    let file = &cards[0].files[0];
    assert_eq!(file.name, "src/One.php");
    assert_eq!(file.href, "https://a.example/blob/abc/src/One.php");
    let numbers: Vec<u32> = file.lines.iter().map(|l| l.number).collect();
    assert_eq!(numbers, vec![8, 9, 10, 11, 12]);
    let ten = &file.lines[2];
    assert!(ten.highlight);
    assert_eq!(ten.text, "class One");
    assert_eq!(ten.href, "https://a.example/blob/abc/src/One.php#L10");
    assert!(!file.lines[0].highlight);
}

#[test]
fn empty_result_set_renders_empty() {
    let results = HoundResults { entries: vec![] };
    assert_eq!(format_condensed(&sample_config(), &results).unwrap(), "");
    assert!(render_default(&sample_config(), &results).unwrap().is_empty());
}

#[test]
fn default_view_missing_config_is_a_sync_fault() {
    let config = HoundConfig { entries: vec![] };
    let r = render_default(&config, &sample_results());
    assert_eq!(r.err(), Some(FormatError::ConfigSyncFault));
}
