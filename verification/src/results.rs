//! Data model for search results: per-repository results, per-file matches,
//! repository browse configuration, and the raw backend response shape.

use vstd::prelude::*;

verus! {

/// Options of one search request. Cloned before being scoped to a single
/// repository for a follow-up fetch.
pub struct SearchOptions {
    pub query: String,
    pub files: String,
    pub repos: Option<String>,
    pub case_insensitive: bool,
}

/// Abstract value of [`SearchOptions`].
pub ghost struct SearchOptionsV {
    pub query: Seq<char>,
    pub files: Seq<char>,
    pub repos: Option<Seq<char>>,
    pub case_insensitive: bool,
}

impl View for SearchOptions {
    type V = SearchOptionsV;

    open spec fn view(&self) -> SearchOptionsV {
        SearchOptionsV {
            query: self.query@,
            files: self.files@,
            repos: match self.repos {
                Some(s) => Some(s@),
                None => None,
            },
            case_insensitive: self.case_insensitive,
        }
    }
}

impl Clone for SearchOptions {
    fn clone(&self) -> (r: Self)
        ensures
            r@ == self@,
    {
        let repos = match &self.repos {
            Some(s) => Some(s.clone()),
            None => None,
        };
        SearchOptions {
            query: self.query.clone(),
            files: self.files.clone(),
            repos,
            case_insensitive: self.case_insensitive,
        }
    }
}

/// One matching line in a file, with up to two lines of leading and trailing
/// context. `before[0]` is the line two above the match, `before[1]` the line
/// directly above; `after[0]` is the line directly below, `after[1]` two below.
pub struct Match {
    pub line: String,
    pub line_number: u32,
    pub before: Vec<String>,
    pub after: Vec<String>,
}

/// Abstract value of [`Match`].
pub ghost struct MatchV {
    pub line: Seq<char>,
    pub line_number: u32,
    pub before: Seq<Seq<char>>,
    pub after: Seq<Seq<char>>,
}

impl View for Match {
    type V = MatchV;

    open spec fn view(&self) -> MatchV {
        MatchV {
            line: self.line@,
            line_number: self.line_number,
            before: self.before@.map_values(|s: String| s@),
            after: self.after@.map_values(|s: String| s@),
        }
    }
}

impl Clone for Match {
    fn clone(&self) -> (r: Self)
        ensures
            r@ == self@,
    {
        let before = self.before.clone();
        let after = self.after.clone();
        proof {
            assert(before@ =~= self.before@);
            assert(after@ =~= self.after@);
        }
        Match {
            line: self.line.clone(),
            line_number: self.line_number,
            before,
            after,
        }
    }
}

/// A match line is well formed when its context windows hold at most two
/// lines each and its line number leaves room for the two trailing context
/// keys within the machine integer range.
pub open spec fn match_wf(m: MatchV) -> bool {
    &&& m.line_number + 2 <= u32::MAX
    &&& m.before.len() <= 2
    &&& m.after.len() <= 2
}

/// One matching file within a repository, with its matching lines in order.
pub struct RepoMatch {
    pub filename: String,
    pub matches: Vec<Match>,
}

/// Abstract value of [`RepoMatch`].
pub ghost struct RepoMatchV {
    pub filename: Seq<char>,
    pub matches: Seq<MatchV>,
}

impl View for RepoMatch {
    type V = RepoMatchV;

    open spec fn view(&self) -> RepoMatchV {
        RepoMatchV {
            filename: self.filename@,
            matches: self.matches@.map_values(|m: Match| m@),
        }
    }
}

impl Clone for RepoMatch {
    fn clone(&self) -> (r: Self)
        ensures
            r@ == self@,
    {
        let matches = self.matches.clone();
        proof {
            assert forall|i: int| 0 <= i < matches@.len() implies matches@[i]@ == self.matches@[i]@ by {
                assert(vstd::pervasive::cloned::<Match>(self.matches@[i], matches@[i]));
            }
            assert(matches@.map_values(|m: Match| m@) =~= self.matches@.map_values(|m: Match| m@));
        }
        RepoMatch { filename: self.filename.clone(), matches }
    }
}

pub open spec fn repo_match_wf(rm: RepoMatchV) -> bool {
    forall|i: int| 0 <= i < rm.matches.len() ==> match_wf(#[trigger] rm.matches[i])
}

/// One repository's share of a response. `files_with_match` is the backend's
/// total count of matching files, which exceeds `matches.len()` when the
/// result set was truncated by server-side pagination.
pub struct RepoResult {
    pub matches: Vec<RepoMatch>,
    pub files_with_match: usize,
    pub revision: String,
}

/// Abstract value of [`RepoResult`].
pub ghost struct RepoResultV {
    pub matches: Seq<RepoMatchV>,
    pub files_with_match: usize,
    pub revision: Seq<char>,
}

impl View for RepoResult {
    type V = RepoResultV;

    open spec fn view(&self) -> RepoResultV {
        RepoResultV {
            matches: self.matches@.map_values(|rm: RepoMatch| rm@),
            files_with_match: self.files_with_match,
            revision: self.revision@,
        }
    }
}

impl Clone for RepoResult {
    fn clone(&self) -> (r: Self)
        ensures
            r@ == self@,
    {
        let matches = self.matches.clone();
        proof {
            assert forall|i: int| 0 <= i < matches@.len() implies matches@[i]@ == self.matches@[i]@ by {
                assert(vstd::pervasive::cloned::<RepoMatch>(self.matches@[i], matches@[i]));
            }
            assert(matches@.map_values(|rm: RepoMatch| rm@) =~= self.matches@.map_values(
                |rm: RepoMatch| rm@,
            ));
        }
        RepoResult {
            matches,
            files_with_match: self.files_with_match,
            revision: self.revision.clone(),
        }
    }
}

/// A repository result is well formed when the matches delivered never
/// outnumber the reported total and every match line is well formed.
pub open spec fn repo_result_wf(r: RepoResultV) -> bool {
    &&& r.matches.len() <= r.files_with_match
    &&& forall|i: int| 0 <= i < r.matches.len() ==> repo_match_wf(#[trigger] r.matches[i])
}

/// The full result set of one search: repository name to result, with unique
/// names. Held as an association vector so that entry order is a plain,
/// provable property.
pub struct HoundResults {
    pub entries: Vec<(String, RepoResult)>,
}

/// The abstract entries of an association vector of repository results.
pub open spec fn entries_view(s: Seq<(String, RepoResult)>) -> Seq<(Seq<char>, RepoResultV)> {
    s.map_values(|e: (String, RepoResult)| (e.0@, e.1@))
}

impl View for HoundResults {
    type V = Seq<(Seq<char>, RepoResultV)>;

    open spec fn view(&self) -> Seq<(Seq<char>, RepoResultV)> {
        entries_view(self.entries@)
    }
}

/// Repository names are unique within a result set.
pub open spec fn names_unique<V>(s: Seq<(Seq<char>, V)>) -> bool {
    forall|i: int, j: int| 0 <= i < j < s.len() ==> (#[trigger] s[i]).0 != (#[trigger] s[j]).0
}

pub open spec fn results_wf(s: Seq<(Seq<char>, RepoResultV)>) -> bool {
    &&& names_unique(s)
    &&& forall|i: int| 0 <= i < s.len() ==> repo_result_wf((#[trigger] s[i]).1)
}

/// First entry under `name` in an association sequence, if any.
pub open spec fn assoc_lookup<V>(s: Seq<(Seq<char>, V)>, name: Seq<char>) -> Option<V>
    decreases s.len(),
{
    if s.len() == 0 {
        None
    } else if s[0].0 == name {
        Some(s[0].1)
    } else {
        assoc_lookup(s.drop_first(), name)
    }
}

/// An entry hit at index `i` determines the lookup result when no earlier
/// entry carries the name.
pub proof fn lemma_assoc_lookup_index<V>(s: Seq<(Seq<char>, V)>, name: Seq<char>, i: int)
    requires
        0 <= i < s.len(),
        s[i].0 == name,
        forall|j: int| 0 <= j < i ==> (#[trigger] s[j]).0 != name,
    ensures
        assoc_lookup(s, name) == Some(s[i].1),
    decreases i,
{
    if i == 0 {
    } else {
        lemma_assoc_lookup_index(s.drop_first(), name, i - 1);
    }
}

/// When no entry carries the name, the lookup misses.
pub proof fn lemma_assoc_lookup_none<V>(s: Seq<(Seq<char>, V)>, name: Seq<char>)
    requires
        forall|j: int| 0 <= j < s.len() ==> (#[trigger] s[j]).0 != name,
    ensures
        assoc_lookup(s, name) is None,
    decreases s.len(),
{
    if s.len() > 0 {
        lemma_assoc_lookup_none(s.drop_first(), name);
    }
}

/// The raw shape of a search response: either the backend's own error text,
/// or a result set, or neither (an unknown failure).
pub struct HoundResponse {
    pub error: Option<String>,
    pub results: Option<HoundResults>,
}

/// Template pieces for building a link into a repository's source browser.
pub struct UrlPattern {
    pub base_url: String,
    pub anchor: String,
}

/// Abstract value of [`UrlPattern`].
pub ghost struct UrlPatternV {
    pub base_url: Seq<char>,
    pub anchor: Seq<char>,
}

impl View for UrlPattern {
    type V = UrlPatternV;

    open spec fn view(&self) -> UrlPatternV {
        UrlPatternV { base_url: self.base_url@, anchor: self.anchor@ }
    }
}

/// Browse configuration of one repository, obtained from the configuration
/// endpoint keyed by repository name.
pub struct RepoConfig {
    pub url: String,
    pub url_pattern: UrlPattern,
}

/// Abstract value of [`RepoConfig`].
pub ghost struct RepoConfigV {
    pub url: Seq<char>,
    pub url_pattern: UrlPatternV,
}

impl View for RepoConfig {
    type V = RepoConfigV;

    open spec fn view(&self) -> RepoConfigV {
        RepoConfigV { url: self.url@, url_pattern: self.url_pattern@ }
    }
}

/// Browse configuration for every repository of a backend profile, keyed by
/// repository name; names are unique.
pub struct HoundConfig {
    pub entries: Vec<(String, RepoConfig)>,
}

impl View for HoundConfig {
    type V = Seq<(Seq<char>, RepoConfigV)>;

    open spec fn view(&self) -> Seq<(Seq<char>, RepoConfigV)> {
        self.entries@.map_values(|e: (String, RepoConfig)| (e.0@, e.1@))
    }
}

} // verus!
