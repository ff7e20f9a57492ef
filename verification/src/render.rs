//! Export formatters: read-only projections of the merged, ranked result set
//! into renderable output — a per-line default view and a condensed
//! checklist view. A repository present in the results but absent from the
//! browse configuration is a sync fault that cleanly fails the render pass
//! instead of crashing it.

use vstd::prelude::*;

use crate::results::{HoundConfig, HoundResults, RepoConfig, RepoConfigV, RepoMatch, RepoMatchV,
    RepoResult, RepoResultV, assoc_lookup, lemma_assoc_lookup_index, lemma_assoc_lookup_none,
    entries_view, results_wf, repo_result_wf, repo_match_wf};
use crate::text::{lex_le, str_eq, str_le_chars, dec_rep, u64_digits, append_chars, append_str,
    chars_to_string, str_chars, lemma_lex_le_total, lemma_lex_le_trans};
use crate::url::{build_url_spec, build_url};
use crate::flatten::{flatten, flatten_matches, lines_map, strictly_sorted, LineV,
    lemma_lines_map_at, lemma_lines_map_key_index};
use crate::rank::{rank_results, ranked_ascending};

verus! {

/// A repository stands in the results but not in the browse configuration:
/// the render pass fails as a whole rather than crash.
#[derive(Clone, Copy, Debug, PartialEq, Eq, Structural)]
pub enum FormatError {
    ConfigSyncFault,
}

/// One checklist line for a matched file: its browse link, its name, and how
/// many of its lines matched.
pub open spec fn condensed_file_line(
    cfg: RepoConfigV,
    revision: Seq<char>,
    rm: RepoMatchV,
) -> Seq<char> {
    "** [["@ + build_url_spec(cfg, revision, rm.filename, None) + "|"@ + rm.filename + "]] ("@
        + dec_rep(rm.matches.len() as nat) + " matches)"@
}

/// The checklist lines of a repository's files, each on a fresh line.
pub open spec fn condensed_files(
    cfg: RepoConfigV,
    revision: Seq<char>,
    ms: Seq<RepoMatchV>,
) -> Seq<char>
    decreases ms.len(),
{
    if ms.len() == 0 {
        Seq::<char>::empty()
    } else {
        condensed_files(cfg, revision, ms.drop_last()) + "\n"@ + condensed_file_line(
            cfg,
            revision,
            ms.last(),
        )
    }
}

/// One repository's checklist block: a header with its name and file count,
/// then one line per matched file.
pub open spec fn condensed_block(name: Seq<char>, r: RepoResultV, cfg: RepoConfigV) -> Seq<char> {
    "[ ] "@ + name + " ("@ + dec_rep(r.files_with_match as nat) + " files)"@ + condensed_files(
        cfg,
        r.revision,
        r.matches,
    )
}

/// Every repository's checklist block, in result-set order.
pub open spec fn condensed_blocks(
    cfg: Seq<(Seq<char>, RepoConfigV)>,
    rs: Seq<(Seq<char>, RepoResultV)>,
) -> Seq<Seq<char>> {
    rs.map_values(|e: (Seq<char>, RepoResultV)| condensed_block(e.0, e.1, assoc_lookup(cfg, e.0)->Some_0))
}

/// Blocks joined by single newlines.
pub open spec fn join_nl(bs: Seq<Seq<char>>) -> Seq<char>
    decreases bs.len(),
{
    if bs.len() == 0 {
        Seq::<char>::empty()
    } else if bs.len() == 1 {
        bs[0]
    } else {
        join_nl(bs.drop_last()) + "\n"@ + bs.last()
    }
}

/// The abstract contents of a vector of character blocks.
pub open spec fn blocks_view(s: Seq<Vec<char>>) -> Seq<Seq<char>> {
    s.map_values(|b: Vec<char>| b@)
}

/// Lexicographically ascending.
pub open spec fn lex_sorted(bs: Seq<Seq<char>>) -> bool {
    forall|i: int, j: int| 0 <= i < j < bs.len() ==> lex_le(#[trigger] bs[i], #[trigger] bs[j])
}

/// Sorting is canonical: two lexicographically sorted arrangements of the
/// same blocks are the same sequence, so the condensed view's output is
/// fully determined by the blocks it is built from.
pub proof fn lemma_sorted_blocks_unique(a: Seq<Seq<char>>, b: Seq<Seq<char>>)
    requires
        lex_sorted(a),
        lex_sorted(b),
        a.to_multiset() == b.to_multiset(),
    ensures
        a == b,
{
    let leq = |x: Seq<char>, y: Seq<char>| lex_le(x, y);
    assert forall|x: Seq<char>| #[trigger] leq(x, x) by {
        lemma_lex_le_total(x, x);
    }
    assert forall|x: Seq<char>, y: Seq<char>| #[trigger] leq(x, y) && #[trigger] leq(
        y,
        x,
    ) implies x == y by {
        crate::text::lemma_lex_le_antisymmetric(x, y);
    }
    assert forall|x: Seq<char>, y: Seq<char>, z: Seq<char>|
        #[trigger] leq(x, y) && #[trigger] leq(y, z) implies leq(x, z) by {
        lemma_lex_le_trans(x, y, z);
    }
    assert forall|x: Seq<char>, y: Seq<char>| #[trigger] leq(x, y) || #[trigger] leq(y, x) by {
        lemma_lex_le_total(x, y);
    }
    assert(vstd::relations::total_ordering(leq));
    assert(vstd::relations::sorted_by(a, leq));
    assert(vstd::relations::sorted_by(b, leq));
    vstd::seq_lib::lemma_sorted_unique(a, b, leq);
    assert(a =~= b);
}

impl HoundConfig {
    /// Index of the first configuration entry under `name`, if any.
    pub fn find(&self, name: &str) -> (r: Option<usize>)
        ensures
            match r {
                Some(i) => {
                    &&& i < self@.len()
                    &&& self@[i as int].0 == name@
                    &&& assoc_lookup(self@, name@) == Some(self@[i as int].1)
                },
                None => assoc_lookup(self@, name@) is None,
            },
    {
        let n = self.entries.len();
        let mut i: usize = 0;
        while i < n
            invariant
                n == self.entries@.len(),
                i <= n,
                forall|j: int| 0 <= j < i ==> (#[trigger] self@[j]).0 != name@,
            decreases n - i,
        {
            if str_eq(self.entries[i].0.as_str(), name) {
                proof {
                    lemma_assoc_lookup_index(self@, name@, i as int);
                }
                return Some(i);
            }
            i = i + 1;
        }
        proof {
            lemma_assoc_lookup_none(self@, name@);
        }
        None
    }
}

/// One repository's checklist block, as characters.
fn condensed_block_exec(name: &String, r: &RepoResult, cfg: &RepoConfig) -> (b: Vec<char>)
    ensures
        b@ == condensed_block(name@, r@, cfg@),
{
    let mut b: Vec<char> = Vec::new();
    append_str(&mut b, "[ ] ");
    let name_chars = str_chars(name.as_str());
    append_chars(&mut b, &name_chars);
    append_str(&mut b, " (");
    let count = u64_digits(r.files_with_match as u64);
    append_chars(&mut b, &count);
    append_str(&mut b, " files)");
    let ghost head = b@;
    let n = r.matches.len();
    let mut i: usize = 0;
    proof {
        assert(b@ =~= head + condensed_files(cfg@, r@.revision, r@.matches.take(0)));
    }
    while i < n
        invariant
            n == r.matches@.len(),
            i <= n,
            b@ == head + condensed_files(cfg@, r@.revision, r@.matches.take(i as int)),
            head == "[ ] "@ + name@ + " ("@ + dec_rep(r@.files_with_match as nat) + " files)"@,
        decreases n - i,
    {
        let rm = &r.matches[i];
        append_str(&mut b, "\n");
        append_str(&mut b, "** [[");
        let url = build_url(cfg, r.revision.as_str(), rm.filename.as_str(), None);
        let url_chars = str_chars(url.as_str());
        append_chars(&mut b, &url_chars);
        append_str(&mut b, "|");
        let fname = str_chars(rm.filename.as_str());
        append_chars(&mut b, &fname);
        append_str(&mut b, "]] (");
        let matches_count = u64_digits(rm.matches.len() as u64);
        append_chars(&mut b, &matches_count);
        append_str(&mut b, " matches)");
        proof {
            assert(rm@ == r@.matches[i as int]);
            assert(r@.matches.take(i + 1).drop_last() =~= r@.matches.take(i as int));
            assert(r@.matches.take(i + 1).last() == r@.matches[i as int]);
            assert(b@ =~= head + condensed_files(cfg@, r@.revision, r@.matches.take(i + 1)));
        }
        i = i + 1;
    }
    proof {
        assert(r@.matches.take(n as int) =~= r@.matches);
    }
    b
}

/// Sort blocks lexicographically: a sorted permutation of the input.
fn sort_blocks(blocks: Vec<Vec<char>>) -> (r: Vec<Vec<char>>)
    ensures
        lex_sorted(blocks_view(r@)),
        blocks_view(r@).to_multiset() == blocks_view(blocks@).to_multiset(),
{
    let n = blocks.len();
    let mut out: Vec<Vec<char>> = Vec::new();
    let mut rest = blocks;
    proof {
        assert(blocks_view(out@) =~= Seq::<Seq<char>>::empty());
        assert(blocks_view(rest@).take(0) =~= Seq::<Seq<char>>::empty());
    }
    let ghost whole = blocks_view(rest@);
    let mut i: usize = 0;
    while i < n
        invariant
            n == rest@.len(),
            whole == blocks_view(rest@),
            i <= n,
            lex_sorted(blocks_view(out@)),
            blocks_view(out@).to_multiset() == whole.take(i as int).to_multiset(),
        decreases n - i,
    {
        let x = rest[i].clone();
        let ghost xv = whole[i as int];
        proof {
            assert(x@ =~= rest@[i as int]@);
            assert(xv == rest@[i as int]@);
        }
        let m = out.len();
        let ghost ov = blocks_view(out@);
        let mut p: usize = 0;
        while p < m && !str_le_chars(&x, &out[p])
            invariant
                m == out@.len(),
                ov == blocks_view(out@),
                x@ == xv,
                p <= m,
                forall|j: int| 0 <= j < p ==> !lex_le(xv, #[trigger] ov[j]),
            decreases m - p,
        {
            proof {
                assert(ov[p as int] == out@[p as int]@);
            }
            p = p + 1;
        }
        if p < m {
            proof {
                assert(ov[p as int] == out@[p as int]@);
            }
        }
        out.insert(p, x);
        proof {
            let nv = blocks_view(out@);
            assert(nv =~= ov.insert(p as int, xv));
            assert forall|a: int, b: int| 0 <= a < b < nv.len() implies lex_le(
                #[trigger] nv[a],
                #[trigger] nv[b],
            ) by {
                if b < p {
                    assert(lex_le(ov[a], ov[b]));
                } else if b == p {
                    assert(!lex_le(xv, ov[a]));
                    lemma_lex_le_total(xv, ov[a]);
                } else if a == p {
                    assert(lex_le(xv, ov[p as int]));
                    if b - 1 > p {
                        lemma_lex_le_trans(xv, ov[p as int], ov[b - 1]);
                    }
                } else if a < p {
                    assert(lex_le(ov[a], ov[b - 1]));
                } else {
                    assert(lex_le(ov[a - 1], ov[b - 1]));
                }
            }
            vstd::seq_lib::to_multiset_insert(ov, p as int, xv);
            vstd::seq_lib::to_multiset_build(whole.take(i as int), xv);
            assert(whole.take(i + 1) =~= whole.take(i as int).push(xv));
        }
        i = i + 1;
    }
    proof {
        assert(whole.take(n as int) =~= whole);
    }
    out
}

/// Join blocks with newlines.
fn join_blocks(blocks: &Vec<Vec<char>>) -> (r: Vec<char>)
    ensures
        r@ == join_nl(blocks_view(blocks@)),
{
    let ghost bs = blocks_view(blocks@);
    let mut r: Vec<char> = Vec::new();
    let n = blocks.len();
    let mut i: usize = 0;
    proof {
        assert(bs.take(0) =~= Seq::<Seq<char>>::empty());
        assert(r@ =~= join_nl(bs.take(0)));
    }
    while i < n
        invariant
            n == blocks@.len(),
            bs == blocks_view(blocks@),
            i <= n,
            r@ == join_nl(bs.take(i as int)),
        decreases n - i,
    {
        if i > 0 {
            append_str(&mut r, "\n");
        }
        let chunk = &blocks[i];
        append_chars(&mut r, chunk);
        proof {
            assert(chunk@ == bs[i as int]);
            assert(bs.take(i + 1).drop_last() =~= bs.take(i as int));
            assert(bs.take(i + 1).last() == bs[i as int]);
            if i == 0 {
                assert(Seq::<char>::empty() + bs[0] =~= bs[0]);
                assert(join_nl(bs.take(1)) == bs.take(1)[0]);
                assert(bs.take(1)[0] == bs[0]);
            }
        }
        i = i + 1;
    }
    proof {
        assert(bs.take(n as int) =~= bs);
    }
    r
}

/// The condensed checklist view: one block per repository — header plus one
/// line per matched file — with the blocks of all repositories sorted
/// lexicographically and joined by newlines.
///
/// Fails with a sync fault, exactly when some repository of the result set
/// has no browse configuration.
pub fn format_condensed(config: &HoundConfig, results: &HoundResults) -> (r: Result<
    String,
    FormatError,
>)
    ensures
        match r {
            Ok(s) => {
                &&& forall|i: int|
                    0 <= i < results@.len() ==> assoc_lookup(
                        config@,
                        (#[trigger] results@[i]).0,
                    ) is Some
                &&& exists|bs: Seq<Seq<char>>|
                    {
                        &&& lex_sorted(bs)
                        &&& bs.to_multiset() == condensed_blocks(
                            config@,
                            results@,
                        ).to_multiset()
                        &&& s@ == #[trigger] join_nl(bs)
                    }
            },
            Err(e) => {
                &&& e == FormatError::ConfigSyncFault
                &&& exists|i: int|
                    0 <= i < results@.len() && assoc_lookup(
                        config@,
                        (#[trigger] results@[i]).0,
                    ) is None
            },
        },
{
    let n = results.entries.len();
    let mut blocks: Vec<Vec<char>> = Vec::new();
    proof {
        assert(blocks_view(blocks@) =~= Seq::<Seq<char>>::empty());
        assert(condensed_blocks(config@, results@).take(0) =~= Seq::<Seq<char>>::empty());
    }
    let mut i: usize = 0;
    while i < n
        invariant
            n == results.entries@.len(),
            i <= n,
            forall|j: int|
                0 <= j < i ==> assoc_lookup(config@, (#[trigger] results@[j]).0) is Some,
            blocks_view(blocks@) == condensed_blocks(config@, results@).take(i as int),
        decreases n - i,
    {
        let name = &results.entries[i].0;
        let cfg_index = match config.find(name.as_str()) {
            Some(k) => k,
            None => {
                proof {
                    assert(results@[i as int].0 == name@);
                }
                return Err(FormatError::ConfigSyncFault);
            },
        };
        let ghost pre_blocks = blocks@;
        let block = condensed_block_exec(name, &results.entries[i].1, &config.entries[cfg_index].1);
        let ghost bv = block@;
        blocks.push(block);
        proof {
            assert(results@[i as int].0 == name@);
            assert(results@[i as int].1 == results.entries@[i as int].1@);
            assert(config@[cfg_index as int].1 == config.entries@[cfg_index as int].1@);
            assert(assoc_lookup(config@, name@) == Some(config@[cfg_index as int].1));
            assert(bv == condensed_blocks(config@, results@)[i as int]);
            assert(blocks_view(blocks@) =~= blocks_view(pre_blocks).push(bv));
            assert(blocks_view(blocks@) =~= condensed_blocks(config@, results@).take(i + 1));
        }
        i = i + 1;
    }
    let sorted = sort_blocks(blocks);
    let joined = join_blocks(&sorted);
    let s = chars_to_string(&joined);
    proof {
        assert(condensed_blocks(config@, results@).take(n as int) =~= condensed_blocks(
            config@,
            results@,
        ));
        let bs = blocks_view(sorted@);
        assert(s@ == join_nl(bs));
    }
    Ok(s)
}

/// One displayable line of the default view: its number, the deep link for
/// that number, and the line itself.
pub struct RenderedLine {
    pub number: u32,
    pub href: String,
    pub highlight: bool,
    pub text: String,
}

/// Abstract value of [`RenderedLine`].
pub ghost struct RenderedLineV {
    pub number: u32,
    pub href: Seq<char>,
    pub highlight: bool,
    pub text: Seq<char>,
}

impl View for RenderedLine {
    type V = RenderedLineV;

    open spec fn view(&self) -> RenderedLineV {
        RenderedLineV {
            number: self.number,
            href: self.href@,
            highlight: self.highlight,
            text: self.text@,
        }
    }
}

/// One file card of the default view: the file's browse link and its merged
/// display lines in ascending line order.
pub struct RenderedFile {
    pub name: String,
    pub href: String,
    pub lines: Vec<RenderedLine>,
}

/// Abstract value of [`RenderedFile`].
pub ghost struct RenderedFileV {
    pub name: Seq<char>,
    pub href: Seq<char>,
    pub lines: Seq<RenderedLineV>,
}

impl View for RenderedFile {
    type V = RenderedFileV;

    open spec fn view(&self) -> RenderedFileV {
        RenderedFileV {
            name: self.name@,
            href: self.href@,
            lines: rendered_lines_view(self.lines@),
        }
    }
}

/// One repository card of the default view, with the call-to-action flag for
/// fetching the remaining matches.
pub struct RenderedRepo {
    pub name: String,
    pub files_with_match: usize,
    pub has_more: bool,
    pub files: Vec<RenderedFile>,
}

/// Abstract value of [`RenderedRepo`].
pub ghost struct RenderedRepoV {
    pub name: Seq<char>,
    pub files_with_match: usize,
    pub has_more: bool,
    pub files: Seq<RenderedFileV>,
}

impl View for RenderedRepo {
    type V = RenderedRepoV;

    open spec fn view(&self) -> RenderedRepoV {
        RenderedRepoV {
            name: self.name@,
            files_with_match: self.files_with_match,
            has_more: self.has_more,
            files: rendered_files_view(self.files@),
        }
    }
}

/// The abstract values of a vector of rendered lines.
pub open spec fn rendered_lines_view(s: Seq<RenderedLine>) -> Seq<RenderedLineV> {
    s.map_values(|l: RenderedLine| l@)
}

/// The abstract values of a vector of rendered files.
pub open spec fn rendered_files_view(s: Seq<RenderedFile>) -> Seq<RenderedFileV> {
    s.map_values(|f: RenderedFile| f@)
}

/// The abstract values of a vector of rendered repository cards.
pub open spec fn rendered_repos_view(s: Seq<RenderedRepo>) -> Seq<RenderedRepoV> {
    s.map_values(|x: RenderedRepo| x@)
}

/// The "load more" affordance is owed exactly when the delivered matches
/// fall short of the reported total.
pub open spec fn has_more_spec(r: RepoResultV) -> bool {
    r.files_with_match > r.matches.len()
}

/// Completion detection: when the delivered matches never outnumber the
/// reported total, the "load more" affordance is shown if and only if the
/// delivered count differs from the total — so its absence means the result
/// set for the repository is complete.
pub proof fn lemma_completion(r: RepoResultV)
    requires
        r.matches.len() <= r.files_with_match,
    ensures
        has_more_spec(r) <==> r.matches.len() != r.files_with_match,
{
}

/// A rendered line faithfully shows one entry of the merged line mapping,
/// with a deep link to its number.
pub open spec fn line_rendered(
    rl: RenderedLineV,
    lm: Map<u32, LineV>,
    cfg: RepoConfigV,
    rev: Seq<char>,
    filename: Seq<char>,
) -> bool {
    &&& lm.contains_key(rl.number)
    &&& lm[rl.number] == LineV { highlight: rl.highlight, text: rl.text }
    &&& rl.href == build_url_spec(cfg, rev, filename, Some(rl.number))
}

/// A rendered file shows the file's merged line mapping completely, in
/// strictly ascending line order, under the file's browse link.
pub open spec fn file_rendered(
    rf: RenderedFileV,
    rm: RepoMatchV,
    rev: Seq<char>,
    cfg: RepoConfigV,
) -> bool {
    &&& rf.name == rm.filename
    &&& rf.href == build_url_spec(cfg, rev, rm.filename, None)
    &&& forall|a: int, b: int|
        0 <= a < b < rf.lines.len() ==> (#[trigger] rf.lines[a]).number < (
        #[trigger] rf.lines[b]).number
    &&& forall|a: int|
        0 <= a < rf.lines.len() ==> line_rendered(
            #[trigger] rf.lines[a],
            flatten_matches(rm.matches),
            cfg,
            rev,
            rm.filename,
        )
    &&& forall|k: u32|
        flatten_matches(rm.matches).contains_key(k) ==> exists|a: int|
            0 <= a < rf.lines.len() && (#[trigger] rf.lines[a]).number == k
}

/// A rendered repository card shows the repository's name, its reported file
/// count, the owed "load more" affordance, and one file card per delivered
/// match.
pub open spec fn repo_rendered(
    rr: RenderedRepoV,
    name: Seq<char>,
    res: RepoResultV,
    cfg: RepoConfigV,
) -> bool {
    &&& rr.name == name
    &&& rr.files_with_match == res.files_with_match
    &&& rr.has_more == has_more_spec(res)
    &&& rr.files.len() == res.matches.len()
    &&& forall|j: int|
        0 <= j < res.matches.len() ==> file_rendered(
            #[trigger] rr.files[j],
            res.matches[j],
            res.revision,
            cfg,
        )
}

/// Render one file's matches as a file card.
fn render_file(rm: &RepoMatch, revision: &str, cfg: &RepoConfig) -> (rf: RenderedFile)
    requires
        repo_match_wf(rm@),
    ensures
        file_rendered(rf@, rm@, revision@, cfg@),
{
    let flat = flatten(rm);
    let href = build_url(cfg, revision, rm.filename.as_str(), None);
    let mut lines: Vec<RenderedLine> = Vec::new();
    let n = flat.lines.len();
    let ghost fl = flat.lines@;
    let mut i: usize = 0;
    while i < n
        invariant
            n == fl.len(),
            fl == flat.lines@,
            i <= n,
            strictly_sorted(fl),
            lines_map(fl) == flatten_matches(rm@.matches),
            lines@.len() == i,
            forall|j: int|
                0 <= j < i ==> {
                    let lv = #[trigger] rendered_lines_view(lines@)[j];
                    &&& lv.number == fl[j].0
                    &&& lv.highlight == fl[j].1@.highlight
                    &&& lv.text == fl[j].1@.text
                    &&& lv.href == build_url_spec(cfg@, revision@, rm@.filename, Some(fl[j].0))
                },
        decreases n - i,
    {
        let number = flat.lines[i].0;
        let line_href = build_url(cfg, revision, rm.filename.as_str(), Some(number));
        let rl = RenderedLine {
            number,
            href: line_href,
            highlight: flat.lines[i].1.highlight,
            text: flat.lines[i].1.text.clone(),
        };
        let ghost rlv = rl@;
        let ghost pre_lines = lines@;
        lines.push(rl);
        proof {
            assert(rendered_lines_view(lines@) =~= rendered_lines_view(pre_lines).push(rlv));
        }
        i = i + 1;
    }
    let rf = RenderedFile { name: flat.name, href, lines };
    proof {
        let lv = rf@.lines;
        assert(rf@.name == rm@.filename);
        assert forall|a: int| 0 <= a < lv.len() implies line_rendered(
            #[trigger] lv[a],
            flatten_matches(rm@.matches),
            cfg@,
            revision@,
            rm@.filename,
        ) by {
            lemma_lines_map_at(fl, a);
        }
        assert forall|k: u32| flatten_matches(rm@.matches).contains_key(k) implies exists|a: int|
            0 <= a < lv.len() && (#[trigger] lv[a]).number == k by {
            lemma_lines_map_key_index(fl, k);
            let j = choose|j: int| 0 <= j < fl.len() && (#[trigger] fl[j]).0 == k;
            assert(lv[j].number == k);
        }
    }
    rf
}

/// The default view: repositories in display order, each with its file cards
/// and per-line deep links.
///
/// The returned cards follow some ordering of the result set that the
/// display comparator accepts — a permutation of the entries, most matching
/// files first, name as tie-break — and each card renders its repository's
/// result faithfully. Fails with a sync fault, leaving nothing rendered,
/// exactly when some repository of the result set has no browse
/// configuration.
pub fn render_default(config: &HoundConfig, results: &HoundResults) -> (r: Result<
    Vec<RenderedRepo>,
    FormatError,
>)
    requires
        results_wf(results@),
    ensures
        match r {
            Ok(v) => {
                &&& forall|i: int|
                    0 <= i < results@.len() ==> assoc_lookup(
                        config@,
                        (#[trigger] results@[i]).0,
                    ) is Some
                &&& exists|order: Seq<(Seq<char>, RepoResultV)>|
                    {
                        &&& #[trigger] order.to_multiset() == results@.to_multiset()
                        &&& ranked_ascending(order)
                        &&& rendered_repos_view(v@).len() == order.len()
                        &&& forall|i: int|
                            0 <= i < order.len() ==> repo_rendered(
                                #[trigger] rendered_repos_view(v@)[i],
                                order[i].0,
                                order[i].1,
                                assoc_lookup(config@, order[i].0)->Some_0,
                            )
                    }
            },
            Err(e) => {
                &&& e == FormatError::ConfigSyncFault
                &&& exists|i: int|
                    0 <= i < results@.len() && assoc_lookup(
                        config@,
                        (#[trigger] results@[i]).0,
                    ) is None
            },
        },
{
    broadcast use vstd::seq_lib::group_to_multiset_ensures;

    let n = results.entries.len();
    let mut i: usize = 0;
    while i < n
        invariant
            n == results.entries@.len(),
            i <= n,
            forall|j: int|
                0 <= j < i ==> assoc_lookup(config@, (#[trigger] results@[j]).0) is Some,
        decreases n - i,
    {
        let name = &results.entries[i].0;
        match config.find(name.as_str()) {
            Some(_) => {},
            None => {
                proof {
                    assert(results@[i as int].0 == name@);
                }
                return Err(FormatError::ConfigSyncFault);
            },
        }
        proof {
            assert(results@[i as int].0 == name@);
        }
        i = i + 1;
    }
    let ranked = rank_results(results);
    let ghost order = entries_view(ranked@);
    proof {
        assert forall|i: int| 0 <= i < order.len() implies {
            &&& assoc_lookup(config@, (#[trigger] order[i]).0) is Some
            &&& repo_result_wf(order[i].1)
        } by {
            let e = order[i];
            assert(order[i] == e);
            assert(order.contains(e));
            assert(order.to_multiset().count(e) > 0);
            assert(results@.to_multiset().count(e) > 0);
            assert(results@.contains(e));
            let j = choose|j: int| 0 <= j < results@.len() && results@[j] == e;
            assert(assoc_lookup(config@, results@[j].0) is Some);
            assert(repo_result_wf(results@[j].1));
        }
    }
    let m = ranked.len();
    let mut cards: Vec<RenderedRepo> = Vec::new();
    let mut i: usize = 0;
    while i < m
        invariant
            m == ranked@.len(),
            order == entries_view(ranked@),
            forall|k: int|
                0 <= k < order.len() ==> assoc_lookup(config@, (#[trigger] order[k]).0) is Some,
            forall|k: int| 0 <= k < order.len() ==> repo_result_wf((#[trigger] order[k]).1),
            i <= m,
            cards@.len() == i,
            forall|k: int|
                0 <= k < i ==> repo_rendered(
                    #[trigger] rendered_repos_view(cards@)[k],
                    order[k].0,
                    order[k].1,
                    assoc_lookup(config@, order[k].0)->Some_0,
                ),
        decreases m - i,
    {
        let name = &ranked[i].0;
        let res = &ranked[i].1;
        proof {
            assert(order[i as int] == (name@, res@));
        }
        let cfg_index = match config.find(name.as_str()) {
            Some(k) => k,
            None => {
                proof {
                    assert(assoc_lookup(config@, order[i as int].0) is Some);
                    assert(false);
                }
                return Err(FormatError::ConfigSyncFault);
            },
        };
        let cfg = &config.entries[cfg_index].1;
        proof {
            assert(assoc_lookup(config@, name@)->Some_0 == cfg@);
        }
        let fcount = res.matches.len();
        let mut files: Vec<RenderedFile> = Vec::new();
        let mut j: usize = 0;
        while j < fcount
            invariant
                fcount == res.matches@.len(),
                repo_result_wf(res@),
                j <= fcount,
                files@.len() == j,
                forall|k: int|
                    0 <= k < j ==> file_rendered(
                        #[trigger] rendered_files_view(files@)[k],
                        res@.matches[k],
                        res@.revision,
                        cfg@,
                    ),
            decreases fcount - j,
        {
            proof {
                assert(repo_match_wf(res@.matches[j as int]));
                assert(res.matches@[j as int]@ == res@.matches[j as int]);
            }
            let rf = render_file(&res.matches[j], res.revision.as_str(), cfg);
            let ghost rfv = rf@;
            let ghost pre_files = files@;
            files.push(rf);
            proof {
                assert(rendered_files_view(files@) =~= rendered_files_view(pre_files).push(rfv));
            }
            j = j + 1;
        }
        let card = RenderedRepo {
            name: name.clone(),
            files_with_match: res.files_with_match,
            has_more: res.files_with_match > res.matches.len(),
            files,
        };
        let ghost cardv = card@;
        proof {
            assert(repo_rendered(
                cardv,
                order[i as int].0,
                order[i as int].1,
                assoc_lookup(config@, order[i as int].0)->Some_0,
            ));
        }
        let ghost pre_cards = cards@;
        cards.push(card);
        proof {
            assert(rendered_repos_view(cards@) =~= rendered_repos_view(pre_cards).push(cardv));
        }
        i = i + 1;
    }
    proof {
        assert(rendered_repos_view(cards@).len() == order.len());
    }
    Ok(cards)
}

} // verus!
