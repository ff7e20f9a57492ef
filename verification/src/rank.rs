//! Result ranker: orders repositories for display, most matching files
//! first, repository name ascending as the tie-break. No repository is
//! dropped, and entries with empty match lists keep their place in the order.

use vstd::prelude::*;

use crate::results::{HoundResults, RepoResult, RepoResultV, entries_view, names_unique};
use crate::text::{
    lex_le, str_le, lemma_lex_le_total, lemma_lex_le_trans, lemma_lex_le_antisymmetric,
};

verus! {

/// The display comparator: more matching files first; on an equal count, the
/// lexicographically smaller repository name first.
pub open spec fn rank_le(a: (Seq<char>, RepoResultV), b: (Seq<char>, RepoResultV)) -> bool {
    ||| a.1.files_with_match > b.1.files_with_match
    ||| (a.1.files_with_match == b.1.files_with_match && lex_le(a.0, b.0))
}

/// The comparator relates every pair of entries one way or the other.
pub proof fn lemma_rank_le_total(a: (Seq<char>, RepoResultV), b: (Seq<char>, RepoResultV))
    ensures
        rank_le(a, b) || rank_le(b, a),
{
    if a.1.files_with_match == b.1.files_with_match {
        lemma_lex_le_total(a.0, b.0);
    }
}

/// The comparator is transitive.
pub proof fn lemma_rank_le_trans(
    a: (Seq<char>, RepoResultV),
    b: (Seq<char>, RepoResultV),
    c: (Seq<char>, RepoResultV),
)
    requires
        rank_le(a, b),
        rank_le(b, c),
    ensures
        rank_le(a, c),
{
    if a.1.files_with_match == b.1.files_with_match && b.1.files_with_match
        == c.1.files_with_match {
        lemma_lex_le_trans(a.0, b.0, c.0);
    }
}

/// Entries related both ways share their name and their count, so with
/// unique repository names the comparator is a total order on a result set.
pub proof fn lemma_rank_le_antisymmetric(a: (Seq<char>, RepoResultV), b: (Seq<char>, RepoResultV))
    requires
        rank_le(a, b),
        rank_le(b, a),
    ensures
        a.0 == b.0,
        a.1.files_with_match == b.1.files_with_match,
{
    lemma_lex_le_antisymmetric(a.0, b.0);
}

/// With unique repository names the display order is canonical: two sorted
/// arrangements of the same entries are the same sequence, so the ranked
/// output is fully determined by the result set.
pub proof fn lemma_ranked_unique(a: Seq<(Seq<char>, RepoResultV)>, b: Seq<(Seq<char>, RepoResultV)>)
    requires
        ranked_ascending(a),
        ranked_ascending(b),
        names_unique(a),
        a.to_multiset() == b.to_multiset(),
    ensures
        a == b,
    decreases a.len(),
{
    broadcast use vstd::seq_lib::group_to_multiset_ensures;
    broadcast use vstd::multiset::group_multiset_axioms;

    if a.len() == 0 || b.len() == 0 {
        assert(a.len() == a.to_multiset().len());
        assert(b.len() == b.to_multiset().len());
        assert(a =~= b);
    } else {
        assert(b.to_multiset().contains(b[0]));
        assert(a.to_multiset().contains(b[0]));
        assert(a.contains(b[0]));
        let i = choose|i: int| 0 <= i < a.len() && a[i] == b[0];
        assert(a.to_multiset().contains(a[0]));
        assert(b.to_multiset().contains(a[0]));
        assert(b.contains(a[0]));
        let j = choose|j: int| 0 <= j < b.len() && b[j] == a[0];
        if i != 0 {
            if j == 0 {
                assert(a[i] == a[0]);
                assert(false);
            } else {
                assert(rank_le(a[0], a[i]));
                assert(rank_le(b[0], b[j]));
                lemma_rank_le_antisymmetric(a[0], b[0]);
                assert(a[i].0 == a[0].0);
                assert(false);
            }
        }
        assert(a[0] == b[0]);
        vstd::seq_lib::to_multiset_remove(a, 0);
        vstd::seq_lib::to_multiset_remove(b, 0);
        assert(a.drop_first() =~= a.remove(0));
        assert(b.drop_first() =~= b.remove(0));
        assert(a.drop_first().to_multiset() == a.to_multiset().remove(a[0]));
        assert(b.drop_first().to_multiset() == b.to_multiset().remove(b[0]));
        assert forall|p: int, q: int|
            0 <= p < q < a.drop_first().len() implies rank_le(
            #[trigger] a.drop_first()[p],
            #[trigger] a.drop_first()[q],
        ) by {
            assert(rank_le(a[p + 1], a[q + 1]));
        }
        assert forall|p: int, q: int|
            0 <= p < q < b.drop_first().len() implies rank_le(
            #[trigger] b.drop_first()[p],
            #[trigger] b.drop_first()[q],
        ) by {
            assert(rank_le(b[p + 1], b[q + 1]));
        }
        assert forall|p: int, q: int|
            0 <= p < q < a.drop_first().len() implies (#[trigger] a.drop_first()[p]).0 != (
        #[trigger] a.drop_first()[q]).0 by {
            assert(a[p + 1].0 != a[q + 1].0);
        }
        lemma_ranked_unique(a.drop_first(), b.drop_first());
        assert(a.len() == b.len());
        assert forall|k: int| 0 <= k < a.len() implies a[k] == b[k] by {
            if k > 0 {
                assert(a[k] == a.drop_first()[k - 1]);
                assert(b[k] == b.drop_first()[k - 1]);
            }
        }
        assert(a =~= b);
    }
}

/// A sequence of entries stands in display order.
pub open spec fn ranked_ascending(s: Seq<(Seq<char>, RepoResultV)>) -> bool {
    forall|i: int, j: int| 0 <= i < j < s.len() ==> rank_le(#[trigger] s[i], #[trigger] s[j])
}

/// Decide the display comparator on two owned entries.
fn ranks_before(a: &(String, RepoResult), b: &(String, RepoResult)) -> (r: bool)
    ensures
        r == rank_le((a.0@, a.1@), (b.0@, b.1@)),
{
    if a.1.files_with_match > b.1.files_with_match {
        true
    } else if a.1.files_with_match == b.1.files_with_match {
        str_le(a.0.as_str(), b.0.as_str())
    } else {
        false
    }
}

/// Order a result set for display: a permutation of the entries, sorted under
/// the display comparator.
pub fn rank_results(results: &HoundResults) -> (r: Vec<(String, RepoResult)>)
    ensures
        ranked_ascending(entries_view(r@)),
        entries_view(r@).to_multiset() == results@.to_multiset(),
{
    broadcast use vstd::seq_lib::group_to_multiset_ensures;

    let n = results.entries.len();
    let mut out: Vec<(String, RepoResult)> = Vec::new();
    proof {
        assert(entries_view(out@) =~= Seq::<(Seq<char>, RepoResultV)>::empty());
        assert(results@.take(0) =~= Seq::<(Seq<char>, RepoResultV)>::empty());
    }
    let mut i: usize = 0;
    while i < n
        invariant
            n == results.entries@.len(),
            i <= n,
            ranked_ascending(entries_view(out@)),
            entries_view(out@).to_multiset() == results@.take(i as int).to_multiset(),
        decreases n - i,
    {
        let x = (results.entries[i].0.clone(), results.entries[i].1.clone());
        let ghost xv = results@[i as int];
        proof {
            assert((x.0@, x.1@) == xv);
        }
        let m = out.len();
        let ghost ov = entries_view(out@);
        let mut p: usize = 0;
        while p < m && !ranks_before(&x, &out[p])
            invariant
                m == out@.len(),
                ov == entries_view(out@),
                (x.0@, x.1@) == xv,
                p <= m,
                forall|j: int| 0 <= j < p ==> !rank_le(xv, #[trigger] ov[j]),
            decreases m - p,
        {
            p = p + 1;
        }
        out.insert(p, x);
        proof {
            let nv = entries_view(out@);
            assert(nv =~= ov.insert(p as int, xv));
            assert forall|a: int, b: int| 0 <= a < b < nv.len() implies rank_le(
                #[trigger] nv[a],
                #[trigger] nv[b],
            ) by {
                if b < p {
                    assert(rank_le(ov[a], ov[b]));
                } else if b == p {
                    assert(!rank_le(xv, ov[a]));
                    lemma_rank_le_total(xv, ov[a]);
                } else if a == p {
                    assert(rank_le(xv, ov[p as int]));
                    if b - 1 > p {
                        lemma_rank_le_trans(xv, ov[p as int], ov[b - 1]);
                    }
                } else if a < p {
                    assert(rank_le(ov[a], ov[b - 1]));
                } else {
                    assert(rank_le(ov[a - 1], ov[b - 1]));
                }
            }
            assert(results@.take(i + 1) =~= results@.take(i as int).push(xv));
            vstd::seq_lib::to_multiset_insert(ov, p as int, xv);
            vstd::seq_lib::to_multiset_build(results@.take(i as int), xv);
            assert(nv.to_multiset() == results@.take(i + 1).to_multiset());
        }
        i = i + 1;
    }
    proof {
        assert(results@.take(n as int) =~= results@);
    }
    out
}

} // verus!
