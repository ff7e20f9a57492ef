//! Session state and its reducer: the in-memory model of one search session,
//! transformed by a closed set of event variants. Every transition is a pure
//! function from state and event to next state plus a requested effect; the
//! surrounding shell performs the effect (a fetch, a URL sync) and feeds the
//! outcome back as a further event.

use vstd::prelude::*;

use crate::results::{HoundConfig, HoundResponse, HoundResults, SearchOptions, assoc_lookup};
use crate::merge::{merge_partial, merge_spec};

verus! {

/// The two output formats of the result pane.
#[derive(Clone, Copy, Debug, PartialEq, Eq, Structural)]
pub enum ResultFormat {
    Default,
    Phabricator,
}

/// The state of one search session.
pub struct Model {
    pub options: SearchOptions,
    pub profile: String,
    pub loading: bool,
    pub hound_config: Option<HoundConfig>,
    pub results: Option<HoundResults>,
    pub result_format: ResultFormat,
    pub error: Option<String>,
}

/// The events a session reacts to.
pub enum Msg {
    SearchSubmitted,
    SearchQueryChanged(String),
    FilesChanged(String),
    CaseInsensitiveChanged,
    ResultsReceived(HoundConfig, HoundResults),
    PartialResultsReceived(HoundResults, String),
    ResultsErrored(String),
    ChangeProfile(String),
    ChangeResultFormat(ResultFormat),
    LoadMoreResults(String),
}

/// What the shell is asked to do after a transition. Submitting a search
/// also implies syncing the address bar to the new query.
pub enum Effect {
    NoEffect,
    SubmitSearch { options: SearchOptions, profile: String },
    SubmitLoadMore { options: SearchOptions, profile: String },
    Resubmit,
    SyncUrl,
}

/// The fields a transition leaves alone, compared pairwise.
pub open spec fn same_options(a: Model, b: Model) -> bool {
    a.options == b.options
}

pub open spec fn same_session(a: Model, b: Model) -> bool {
    &&& a.profile == b.profile
    &&& a.hound_config == b.hound_config
    &&& a.result_format == b.result_format
}

pub open spec fn same_results(a: Model, b: Model) -> bool {
    a.results == b.results
}

pub open spec fn same_flags(a: Model, b: Model) -> bool {
    &&& a.loading == b.loading
    &&& a.error == b.error
}

/// One step of the session: the next state and the effect owed for it.
///
/// Submitting with an empty query clears the previous outcome and asks for
/// nothing. A partial result is folded in only when its repository is still
/// present in the current result set — a stale partial fetch, arriving after
/// the set was replaced, is discarded as a no-op.
pub fn update(model: Model, msg: Msg) -> (r: (Model, Effect))
    ensures
        match msg {
            Msg::SearchSubmitted => {
                &&& r.0.error is None
                &&& r.0.results is None
                &&& same_options(r.0, model)
                &&& same_session(r.0, model)
                &&& if model.options.query@.len() == 0 {
                    r.0.loading == model.loading && r.1 is NoEffect
                } else {
                    r.0.loading == true && match r.1 {
                        Effect::SubmitSearch { options, profile } => options@ == model.options@
                            && profile@ == model.profile@,
                        _ => false,
                    }
                }
            },
            Msg::SearchQueryChanged(v) => {
                &&& r.0.options.query == v
                &&& r.0.options.files == model.options.files
                &&& r.0.options.repos == model.options.repos
                &&& r.0.options.case_insensitive == model.options.case_insensitive
                &&& same_session(r.0, model)
                &&& same_results(r.0, model)
                &&& same_flags(r.0, model)
                &&& r.1 is NoEffect
            },
            Msg::FilesChanged(v) => {
                &&& r.0.options.files == v
                &&& r.0.options.query == model.options.query
                &&& r.0.options.repos == model.options.repos
                &&& r.0.options.case_insensitive == model.options.case_insensitive
                &&& same_session(r.0, model)
                &&& same_results(r.0, model)
                &&& same_flags(r.0, model)
                &&& r.1 is NoEffect
            },
            Msg::CaseInsensitiveChanged => {
                &&& r.0.options.case_insensitive == !model.options.case_insensitive
                &&& r.0.options.query == model.options.query
                &&& r.0.options.files == model.options.files
                &&& r.0.options.repos == model.options.repos
                &&& same_session(r.0, model)
                &&& same_results(r.0, model)
                &&& same_flags(r.0, model)
                &&& r.1 is NoEffect
            },
            Msg::ResultsReceived(config, results) => {
                &&& r.0.hound_config == Some(config)
                &&& r.0.results == Some(results)
                &&& r.0.loading == false
                &&& r.0.error == model.error
                &&& same_options(r.0, model)
                &&& r.0.profile == model.profile
                &&& r.0.result_format == model.result_format
                &&& r.1 is NoEffect
            },
            Msg::ResultsErrored(e) => {
                &&& r.0.error == Some(e)
                &&& r.0.loading == false
                &&& same_options(r.0, model)
                &&& same_session(r.0, model)
                &&& same_results(r.0, model)
                &&& r.1 is NoEffect
            },
            Msg::ChangeProfile(p) => {
                &&& r.0.profile == p
                &&& same_options(r.0, model)
                &&& r.0.hound_config == model.hound_config
                &&& r.0.result_format == model.result_format
                &&& same_results(r.0, model)
                &&& same_flags(r.0, model)
                &&& if model.results is Some {
                    r.1 is Resubmit
                } else {
                    r.1 is SyncUrl
                }
            },
            Msg::ChangeResultFormat(f) => {
                &&& r.0.result_format == f
                &&& same_options(r.0, model)
                &&& r.0.profile == model.profile
                &&& r.0.hound_config == model.hound_config
                &&& same_results(r.0, model)
                &&& same_flags(r.0, model)
                &&& r.1 is NoEffect
            },
            Msg::LoadMoreResults(repo) => {
                &&& same_options(r.0, model)
                &&& same_session(r.0, model)
                &&& same_results(r.0, model)
                &&& same_flags(r.0, model)
                &&& match r.1 {
                    Effect::SubmitLoadMore { options, profile } => {
                        &&& options.query@ == model.options.query@
                        &&& options.files@ == model.options.files@
                        &&& options.case_insensitive == model.options.case_insensitive
                        &&& options.repos matches Some(s) && s@ == repo@
                        &&& profile@ == model.profile@
                    },
                    _ => false,
                }
            },
            Msg::PartialResultsReceived(fetched, repo) => {
                &&& same_options(r.0, model)
                &&& same_session(r.0, model)
                &&& same_flags(r.0, model)
                &&& r.1 is NoEffect
                &&& match model.results {
                    None => r.0.results is None,
                    Some(cur) => {
                        &&& r.0.results is Some
                        &&& if assoc_lookup(cur@, repo@) is Some && assoc_lookup(
                            fetched@,
                            repo@,
                        ) is Some {
                            exists|i: int|
                                {
                                    &&& 0 <= i < cur@.len()
                                    &&& (#[trigger] cur@[i]).0 == repo@
                                    &&& (forall|j: int|
                                        0 <= j < i ==> (#[trigger] cur@[j]).0 != repo@)
                                    &&& r.0.results->Some_0@ == merge_spec(
                                        cur@,
                                        i,
                                        assoc_lookup(fetched@, repo@)->Some_0.matches,
                                    )
                                }
                        } else {
                            r.0.results->Some_0@ == cur@
                        }
                    },
                }
            },
        },
{
    let mut model = model;
    match msg {
        Msg::SearchSubmitted => {
            model.error = None;
            model.results = None;
            if model.options.query.as_str().is_empty() {
                (model, Effect::NoEffect)
            } else {
                model.loading = true;
                let options = model.options.clone();
                let profile = model.profile.clone();
                (model, Effect::SubmitSearch { options, profile })
            }
        },
        Msg::SearchQueryChanged(v) => {
            model.options.query = v;
            (model, Effect::NoEffect)
        },
        Msg::FilesChanged(v) => {
            model.options.files = v;
            (model, Effect::NoEffect)
        },
        Msg::CaseInsensitiveChanged => {
            let current = model.options.case_insensitive;
            model.options.case_insensitive = !current;
            (model, Effect::NoEffect)
        },
        Msg::ResultsReceived(config, results) => {
            model.hound_config = Some(config);
            model.results = Some(results);
            model.loading = false;
            (model, Effect::NoEffect)
        },
        Msg::ResultsErrored(e) => {
            model.error = Some(e);
            model.loading = false;
            (model, Effect::NoEffect)
        },
        Msg::ChangeProfile(p) => {
            model.profile = p;
            if model.results.is_some() {
                (model, Effect::Resubmit)
            } else {
                (model, Effect::SyncUrl)
            }
        },
        Msg::ChangeResultFormat(f) => {
            model.result_format = f;
            (model, Effect::NoEffect)
        },
        Msg::LoadMoreResults(repo) => {
            let mut options = model.options.clone();
            options.repos = Some(repo);
            let profile = model.profile.clone();
            (model, Effect::SubmitLoadMore { options, profile })
        },
        Msg::PartialResultsReceived(fetched, repo) => {
            match model.results {
                Some(mut cur) => {
                    let merged = merge_partial(&mut cur, repo.as_str(), &fetched);
                    proof {
                        if merged is Err {
                            assert(cur@ == model.results->Some_0@);
                        }
                    }
                    model.results = Some(cur);
                },
                None => {
                    model.results = None;
                },
            }
            (model, Effect::NoEffect)
        },
    }
}

/// The event that a completed search response stands for: the backend's own
/// error text when it reports one; the results, paired with the browse
/// configuration, when a result payload is present; and an unknown-error
/// event when the response carries neither.
pub fn response_to_msg(config: HoundConfig, resp: HoundResponse) -> (m: Msg)
    ensures
        match resp.error {
            Some(e) => m == Msg::ResultsErrored(e),
            None => match resp.results {
                Some(r) => m == Msg::ResultsReceived(config, r),
                None => match m {
                    Msg::ResultsErrored(s) => s@ == "Unknown error fetching search results"@,
                    _ => false,
                },
            },
        },
{
    match resp.error {
        Some(e) => Msg::ResultsErrored(e),
        None => match resp.results {
            Some(r) => Msg::ResultsReceived(config, r),
            None => Msg::ResultsErrored(
                "Unknown error fetching search results".to_owned(),
            ),
        },
    }
}

/// The event that a completed load-more response stands for: the backend's
/// error text, the fetched result set paired with the repository it was
/// scoped to, or an unknown-error event when neither is present.
pub fn partial_response_to_msg(resp: HoundResponse, repo: String) -> (m: Msg)
    ensures
        match resp.error {
            Some(e) => m == Msg::ResultsErrored(e),
            None => match resp.results {
                Some(r) => m == Msg::PartialResultsReceived(r, repo),
                None => match m {
                    Msg::ResultsErrored(s) => s@ == "Unknown error fetching search results"@,
                    _ => false,
                },
            },
        },
{
    match resp.error {
        Some(e) => Msg::ResultsErrored(e),
        None => match resp.results {
            Some(r) => Msg::PartialResultsReceived(r, repo),
            None => Msg::ResultsErrored(
                "Unknown error fetching search results".to_owned(),
            ),
        },
    }
}

} // verus!
