//! Partial-result merger: folds a follow-up fetch for one repository into the
//! result set already in memory, appending the newly delivered matches to the
//! existing ones. The count of matching files and the acting revision of the
//! existing entry stay as first observed, even when the new fetch reports
//! different values.

use vstd::prelude::*;

use crate::results::{HoundResults, RepoResultV, RepoMatchV, assoc_lookup,
    lemma_assoc_lookup_index, lemma_assoc_lookup_none};
use crate::text::str_eq;

verus! {

/// Failure of a partial merge: the repository is absent from the current
/// result set or from the newly fetched one. Callers treat it as a
/// consistency fault and leave the displayed state untouched.
#[derive(Clone, Copy, Debug, PartialEq, Eq, Structural)]
pub enum MergeError {
    MergeTargetMissing,
}

/// The result set after appending `extra` matches to the entry at `i`:
/// everything else, and the entry's own count and revision, unchanged.
pub open spec fn merge_spec(
    s: Seq<(Seq<char>, RepoResultV)>,
    i: int,
    extra: Seq<RepoMatchV>,
) -> Seq<(Seq<char>, RepoResultV)> {
    s.update(
        i,
        (
            s[i].0,
            RepoResultV {
                matches: s[i].1.matches + extra,
                files_with_match: s[i].1.files_with_match,
                revision: s[i].1.revision,
            },
        ),
    )
}

impl HoundResults {
    /// Index of the first entry under `name`, if any.
    pub fn find(&self, name: &str) -> (r: Option<usize>)
        ensures
            match r {
                Some(i) => {
                    &&& i < self@.len()
                    &&& self@[i as int].0 == name@
                    &&& forall|j: int| 0 <= j < i ==> (#[trigger] self@[j]).0 != name@
                    &&& assoc_lookup(self@, name@) == Some(self@[i as int].1)
                },
                None => {
                    &&& forall|j: int| 0 <= j < self@.len() ==> (#[trigger] self@[j]).0 != name@
                    &&& assoc_lookup(self@, name@) is None
                },
            },
    {
        let n = self.entries.len();
        let mut i: usize = 0;
        while i < n
            invariant
                n == self.entries@.len(),
                i <= n,
                forall|j: int| 0 <= j < i ==> (#[trigger] self@[j]).0 != name@,
            decreases n - i,
        {
            if str_eq(self.entries[i].0.as_str(), name) {
                proof {
                    assert(self@[i as int].0 == name@);
                    lemma_assoc_lookup_index(self@, name@, i as int);
                }
                return Some(i);
            }
            i = i + 1;
        }
        proof {
            lemma_assoc_lookup_none(self@, name@);
        }
        None
    }
}

/// Fold the matches fetched for `repo` into the current result set.
///
/// On success, the named entry's matches are extended in place — existing
/// matches first, newly fetched ones after, with the entry's reported file
/// count and revision untouched — and every other entry is unchanged. The
/// merge fails, leaving the result set exactly as it was, precisely when the
/// repository is missing from the current set or from the fetched one.
pub fn merge_partial(results: &mut HoundResults, repo: &str, fetched: &HoundResults) -> (r: Result<
    (),
    MergeError,
>)
    ensures
        match r {
            Ok(_) => exists|i: int|
                {
                    &&& 0 <= i < old(results)@.len()
                    &&& (#[trigger] old(results)@[i]).0 == repo@
                    &&& (forall|j: int| 0 <= j < i ==> (#[trigger] old(results)@[j]).0 != repo@)
                    &&& final(results)@ == merge_spec(
                        old(results)@,
                        i,
                        assoc_lookup(fetched@, repo@)->Some_0.matches,
                    )
                },
            Err(e) => {
                &&& e == MergeError::MergeTargetMissing
                &&& final(results)@ == old(results)@
            },
        },
        (r is Err) <==> (assoc_lookup(old(results)@, repo@) is None || assoc_lookup(
            fetched@,
            repo@,
        ) is None),
{
    let target = results.find(repo);
    let source = fetched.find(repo);
    let i = match target {
        Some(i) => i,
        None => {
            return Err(MergeError::MergeTargetMissing);
        },
    };
    let s = match source {
        Some(s) => s,
        None => {
            return Err(MergeError::MergeTargetMissing);
        },
    };
    let ghost old_entries = results@;
    let ghost extra = fetched@[s as int].1.matches;
    let mut entry = results.entries.remove(i);
    let new_matches = &fetched.entries[s].1.matches;
    let k = new_matches.len();
    let ghost old_matches = entry.1.matches@;
    let mut j: usize = 0;
    while j < k
        invariant
            k == new_matches@.len(),
            j <= k,
            i < old(results).entries@.len(),
            entry.1.matches@.map_values(|rm: crate::results::RepoMatch| rm@) =~= old_matches
                .map_values(|rm: crate::results::RepoMatch| rm@) + new_matches@.map_values(
                |rm: crate::results::RepoMatch| rm@,
            ).take(j as int),
            entry.0 == old(results).entries@[i as int].0,
            entry.1.files_with_match == old(results).entries@[i as int].1.files_with_match,
            entry.1.revision == old(results).entries@[i as int].1.revision,
        decreases k - j,
    {
        let ghost pre = entry.1.matches@;
        let newm = new_matches[j].clone();
        let ghost nv = newm@;
        entry.1.matches.push(newm);
        proof {
            let f = |rm: crate::results::RepoMatch| rm@;
            assert(entry.1.matches@ == pre.push(newm));
            assert(pre.push(newm).map_values(f) =~= pre.map_values(f).push(nv));
            assert(nv == new_matches@.map_values(f)[j as int]);
            assert(new_matches@.map_values(f).take(j + 1) =~= new_matches@.map_values(f).take(
                j as int,
            ).push(nv));
            assert(entry.1.matches@.map_values(f) =~= old_matches.map_values(f)
                + new_matches@.map_values(f).take(j + 1));
        }
        j = j + 1;
    }
    results.entries.insert(i, entry);
    proof {
        let f = |rm: crate::results::RepoMatch| rm@;
        assert(new_matches@.map_values(f).take(k as int) =~= new_matches@.map_values(f));
        assert(new_matches@.map_values(f) == extra);
        assert(results@ =~= merge_spec(old_entries, i as int, extra));
    }
    Ok(())
}

} // verus!
