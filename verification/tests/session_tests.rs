use codesearch::results::{HoundConfig, HoundResponse, HoundResults, RepoMatch, RepoResult,
    SearchOptions};
use codesearch::session::{update, partial_response_to_msg, response_to_msg, Effect, Model, Msg,
    ResultFormat};

fn options(query: &str) -> SearchOptions {
    SearchOptions {
        query: query.to_string(),
        files: String::new(),
        repos: None,
        case_insensitive: false,
    }
}

fn model(query: &str) -> Model {
    Model {
        options: options(query),
        profile: "search".to_string(),
        loading: false,
        hound_config: None,
        results: None,
        result_format: ResultFormat::Default,
        error: Some("stale error".to_string()),
    }
}

fn one_repo(name: &str, n_matches: usize, total: usize) -> HoundResults {
    let matches = (0..n_matches)
        .map(|i| RepoMatch { filename: format!("f{}.php", i), matches: vec![] })
        .collect();
    HoundResults {
        entries: vec![(
            name.to_string(),
            RepoResult { matches, files_with_match: total, revision: "r".to_string() },
        )],
    }
}

#[test]
fn submit_with_empty_query_is_inert() {
    let (next, effect) = update(model(""), Msg::SearchSubmitted);
    assert!(matches!(effect, Effect::NoEffect));
    assert!(next.error.is_none());
    assert!(next.results.is_none());
    assert!(!next.loading);
}

#[test]
fn submit_clears_state_and_requests_search() {
    let (next, effect) = update(model("LinkRenderer"), Msg::SearchSubmitted);
    assert!(next.error.is_none());
    assert!(next.results.is_none());
    assert!(next.loading);
    match effect {
        Effect::SubmitSearch { options, profile } => {
            assert_eq!(options.query, "LinkRenderer");
            assert_eq!(profile, "search");
        },
        _ => panic!("expected a search submission"),
    }
}

#[test]
fn form_edits_change_only_their_field() {
    let (next, _) = update(model("q"), Msg::SearchQueryChanged("new q".to_string()));
    assert_eq!(next.options.query, "new q");
    let (next, _) = update(model("q"), Msg::FilesChanged("*.php".to_string()));
    assert_eq!(next.options.files, "*.php");
    assert_eq!(next.options.query, "q");
    let (next, _) = update(model("q"), Msg::CaseInsensitiveChanged);
    assert!(next.options.case_insensitive);
}

#[test]
fn received_results_replace_state() {
    let config = HoundConfig { entries: vec![] };
    let results = one_repo("repo", 1, 1);
    let mut m = model("q");
    m.loading = true;
    let (next, effect) = update(m, Msg::ResultsReceived(config, results));
    assert!(matches!(effect, Effect::NoEffect));
    assert!(!next.loading);
    assert!(next.hound_config.is_some());
    assert_eq!(next.results.unwrap().entries.len(), 1);
}

#[test]
fn errors_surface_and_stop_loading() {
    let mut m = model("q");
    m.loading = true;
    let (next, _) = update(m, Msg::ResultsErrored("boom".to_string()));
    assert_eq!(next.error.as_deref(), Some("boom"));
    assert!(!next.loading);
}

#[test]
fn profile_change_resubmits_only_with_results() {
    let (_, effect) = update(model("q"), Msg::ChangeProfile("core".to_string()));
    assert!(matches!(effect, Effect::SyncUrl));
    let mut m = model("q");
    m.results = Some(one_repo("repo", 1, 1));
    let (next, effect) = update(m, Msg::ChangeProfile("core".to_string()));
    assert_eq!(next.profile, "core");
    assert!(matches!(effect, Effect::Resubmit));
}

#[test]
fn load_more_scopes_options_to_the_repository() {
    let mut m = model("q");
    m.options.files = "*.php".to_string();
    let (next, effect) = update(m, Msg::LoadMoreResults("repo".to_string()));
    assert!(next.options.repos.is_none());
    match effect {
        Effect::SubmitLoadMore { options, profile } => {
            assert_eq!(options.repos.as_deref(), Some("repo"));
            assert_eq!(options.query, "q");
            assert_eq!(options.files, "*.php");
            assert_eq!(profile, "search");
        },
        _ => panic!("expected a load-more submission"),
    }
}

#[test]
fn partial_results_extend_the_target() {
    let mut m = model("q");
    m.results = Some(one_repo("repo", 2, 5));
    let fetched = one_repo("repo", 3, 5);
    let (next, effect) =
        update(m, Msg::PartialResultsReceived(fetched, "repo".to_string()));
    assert!(matches!(effect, Effect::NoEffect));
    let results = next.results.unwrap();
    assert_eq!(results.entries[0].1.matches.len(), 5);
    assert_eq!(results.entries[0].1.files_with_match, 5);
}

#[test]
fn stale_partial_results_are_discarded() {
    // The target repository vanished (the result set was replaced): no-op.
    let mut m = model("q");
    m.results = Some(one_repo("other", 2, 5));
    let fetched = one_repo("repo", 3, 5);
    let (next, _) = update(m, Msg::PartialResultsReceived(fetched, "repo".to_string()));
    let results = next.results.unwrap();
    assert_eq!(results.entries.len(), 1);
    assert_eq!(results.entries[0].0, "other");
    assert_eq!(results.entries[0].1.matches.len(), 2);
}

#[test]
fn partial_results_without_any_current_set_are_discarded() {
    let m = model("q");
    let fetched = one_repo("repo", 3, 5);
    let (next, _) = update(m, Msg::PartialResultsReceived(fetched, "repo".to_string()));
    assert!(next.results.is_none());
}

#[test]
fn response_classification() {
    let config = HoundConfig { entries: vec![] };
    let resp = HoundResponse { error: Some("backend says no".to_string()), results: None };
    match response_to_msg(config, resp) {
        Msg::ResultsErrored(e) => assert_eq!(e, "backend says no"),
        _ => panic!("expected an error event"),
    }

    let config = HoundConfig { entries: vec![] };
    let resp = HoundResponse { error: None, results: Some(one_repo("repo", 1, 1)) };
    match response_to_msg(config, resp) {
        Msg::ResultsReceived(_, results) => assert_eq!(results.entries.len(), 1),
        _ => panic!("expected a results event"),
    }

    let config = HoundConfig { entries: vec![] };
    let resp = HoundResponse { error: None, results: None };
    match response_to_msg(config, resp) {
        Msg::ResultsErrored(e) => assert_eq!(e, "Unknown error fetching search results"),
        _ => panic!("expected an error event"),
    }
}

#[test]
fn partial_response_classification() {
    let resp = HoundResponse { error: None, results: Some(one_repo("repo", 2, 4)) };
    match partial_response_to_msg(resp, "repo".to_string()) {
        Msg::PartialResultsReceived(results, repo) => {
            assert_eq!(repo, "repo");
            assert_eq!(results.entries[0].1.matches.len(), 2);
        },
        _ => panic!("expected a partial-results event"),
    }

    let resp = HoundResponse { error: None, results: None };
    match partial_response_to_msg(resp, "repo".to_string()) {
        Msg::ResultsErrored(e) => assert_eq!(e, "Unknown error fetching search results"),
        _ => panic!("expected an error event"),
    }
}
