use codesearch::backends::{backends, is_valid_backend, resolve_profile};
use codesearch::merge::{merge_partial, MergeError};
use codesearch::rank::rank_results;
use codesearch::results::{HoundResults, RepoMatch, RepoResult};

fn repo_result(n_matches: usize, files_with_match: usize, revision: &str) -> RepoResult {
    let matches = (0..n_matches)
        .map(|i| RepoMatch { filename: format!("file{}.php", i), matches: vec![] })
        .collect();
    RepoResult { matches, files_with_match, revision: revision.to_string() }
}

fn results_of(entries: Vec<(&str, RepoResult)>) -> HoundResults {
    HoundResults { entries: entries.into_iter().map(|(n, r)| (n.to_string(), r)).collect() }
}

#[test]
fn ranking_counts_descending_names_ascending() {
    // {A: 5 files, B: 5 files, C: 9 files} ranks as C, A, B.
    let results = results_of(vec![
        ("A", repo_result(0, 5, "r")),
        ("B", repo_result(0, 5, "r")),
        ("C", repo_result(0, 9, "r")),
    ]);
    let ranked = rank_results(&results);
    let names: Vec<&str> = ranked.iter().map(|(n, _)| n.as_str()).collect();
    assert_eq!(names, vec!["C", "A", "B"]);
}

#[test]
fn ranking_keeps_empty_repositories() {
    let results = results_of(vec![
        ("empty", repo_result(0, 0, "r")),
        ("full", repo_result(2, 2, "r")),
    ]);
    let ranked = rank_results(&results);
    assert_eq!(ranked.len(), 2);
    assert_eq!(ranked[0].0, "full");
    assert_eq!(ranked[1].0, "empty");
}

#[test]
fn partial_merge_extends_counts_and_keeps_totals() {
    // Merging 15 newly fetched matches into an existing 20-match entry with
    // a reported total of 50 yields 35 matches, total and revision unchanged.
    let mut results = results_of(vec![("repo", repo_result(20, 50, "rev-one"))]);
    let fetched = results_of(vec![("repo", repo_result(15, 60, "rev-two"))]);
    let outcome = merge_partial(&mut results, "repo", &fetched);
    assert!(outcome.is_ok());
    let entry = &results.entries[0];
    assert_eq!(entry.1.matches.len(), 35);
    assert_eq!(entry.1.files_with_match, 50);
    assert_eq!(entry.1.revision, "rev-one");
}

#[test]
fn partial_merge_appends_after_existing_matches() {
    let mut results = results_of(vec![("repo", repo_result(2, 4, "r"))]);
    let fetched = results_of(vec![(
        "repo",
        RepoResult {
            matches: vec![RepoMatch { filename: "late.php".to_string(), matches: vec![] }],
            files_with_match: 4,
            revision: "r".to_string(),
        },
    )]);
    merge_partial(&mut results, "repo", &fetched).unwrap();
    let names: Vec<&str> =
        results.entries[0].1.matches.iter().map(|m| m.filename.as_str()).collect();
    assert_eq!(names, vec!["file0.php", "file1.php", "late.php"]);
}

#[test]
fn partial_merge_missing_target_is_an_error() {
    let mut results = results_of(vec![("repo", repo_result(1, 2, "r"))]);
    let fetched = results_of(vec![("repo", repo_result(1, 2, "r"))]);
    assert_eq!(
        merge_partial(&mut results, "other", &fetched),
        Err(MergeError::MergeTargetMissing)
    );
    assert_eq!(results.entries[0].1.matches.len(), 1);
}

#[test]
fn partial_merge_missing_source_is_an_error() {
    let mut results = results_of(vec![("repo", repo_result(1, 2, "r"))]);
    let fetched = results_of(vec![]);
    assert_eq!(
        merge_partial(&mut results, "repo", &fetched),
        Err(MergeError::MergeTargetMissing)
    );
    assert_eq!(results.entries[0].1.matches.len(), 1);
}

#[test]
fn backend_catalogue_shape() {
    let catalogue = backends();
    assert_eq!(catalogue.len(), 14);
    assert_eq!(catalogue[0], ("search".to_string(), "Everything".to_string()));
    assert_eq!(catalogue[1], ("core".to_string(), "MediaWiki core".to_string()));
}

#[test]
fn backend_membership() {
    assert!(is_valid_backend("core"));
    assert!(is_valid_backend("operations"));
    assert!(!is_valid_backend("nonsense"));
    assert!(!is_valid_backend(""));
    // Labels are not identifiers.
    assert!(!is_valid_backend("Everything"));
}

#[test]
fn profile_resolution() {
    assert_eq!(resolve_profile(None), "search");
    assert_eq!(resolve_profile(Some("extensions")), "extensions");
    assert_eq!(resolve_profile(Some("bogus")), "search");
}
