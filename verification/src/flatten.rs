//! Line-window merger: turns one file's list of discontiguous matches, each
//! carrying up to two lines of leading and trailing context, into a single
//! ordered, deduplicated mapping from line number to displayable line.
//!
//! Insertion policy: the matched line itself is authoritative and always
//! overwrites; a context line is inserted only when its line number is still
//! absent, on both the leading and the trailing side. (Guarding both sides
//! alike keeps a highlighted line from ever being downgraded by a later
//! overlapping context window.)

use vstd::prelude::*;

use crate::results::{Match, RepoMatch, MatchV, repo_match_wf, match_wf};

verus! {

/// One displayable line: highlighted when it is a matched line, plain when it
/// is context.
pub struct Line {
    pub highlight: bool,
    pub text: String,
}

/// Abstract value of [`Line`].
pub ghost struct LineV {
    pub highlight: bool,
    pub text: Seq<char>,
}

impl View for Line {
    type V = LineV;

    open spec fn view(&self) -> LineV {
        LineV { highlight: self.highlight, text: self.text@ }
    }
}

/// A file's merged display lines, keyed by line number and kept in strictly
/// ascending key order.
pub struct File {
    pub name: String,
    pub lines: Vec<(u32, Line)>,
}

/// Keys strictly ascend, so each line number appears at most once and
/// iteration order is numeric order.
pub open spec fn strictly_sorted(s: Seq<(u32, Line)>) -> bool {
    forall|i: int, j: int| 0 <= i < j < s.len() ==> (#[trigger] s[i]).0 < (#[trigger] s[j]).0
}

/// The mapping from line number to line content that an association sequence
/// holds; later entries win, though under unique keys none collide.
pub open spec fn lines_map(s: Seq<(u32, Line)>) -> Map<u32, LineV>
    decreases s.len(),
{
    if s.len() == 0 {
        Map::empty()
    } else {
        lines_map(s.drop_last()).insert(s.last().0, s.last().1@)
    }
}

pub proof fn lemma_lines_map_contains_at(s: Seq<(u32, Line)>, j: int)
    requires
        0 <= j < s.len(),
    ensures
        lines_map(s).contains_key(s[j].0),
    decreases s.len(),
{
    if j < s.len() - 1 {
        lemma_lines_map_contains_at(s.drop_last(), j);
    }
}

pub proof fn lemma_lines_map_not_contains(s: Seq<(u32, Line)>, k: u32)
    requires
        forall|j: int| 0 <= j < s.len() ==> (#[trigger] s[j]).0 != k,
    ensures
        !lines_map(s).contains_key(k),
    decreases s.len(),
{
    if s.len() > 0 {
        lemma_lines_map_not_contains(s.drop_last(), k);
    }
}

/// Under unique keys, each entry's value is what the mapping holds at its
/// key.
pub proof fn lemma_lines_map_at(s: Seq<(u32, Line)>, j: int)
    requires
        strictly_sorted(s),
        0 <= j < s.len(),
    ensures
        lines_map(s).contains_key(s[j].0),
        lines_map(s)[s[j].0] == s[j].1@,
    decreases s.len(),
{
    if j < s.len() - 1 {
        lemma_lines_map_at(s.drop_last(), j);
        assert(s[j].0 < s.last().0);
    }
}

/// Every key of the mapping comes from some entry.
pub proof fn lemma_lines_map_key_index(s: Seq<(u32, Line)>, k: u32)
    requires
        lines_map(s).contains_key(k),
    ensures
        exists|j: int| 0 <= j < s.len() && (#[trigger] s[j]).0 == k,
    decreases s.len(),
{
    if s.len() > 0 {
        if s.last().0 == k {
            assert(s[s.len() - 1].0 == k);
        } else {
            lemma_lines_map_key_index(s.drop_last(), k);
            let j = choose|j: int| 0 <= j < s.drop_last().len() && (#[trigger] s.drop_last()[j]).0
                == k;
            assert(s[j].0 == k);
        }
    }
}

/// Replacing the entry at a key already present acts as a map insert.
proof fn lemma_lines_map_update(s: Seq<(u32, Line)>, i: int, v: Line)
    requires
        0 <= i < s.len(),
        strictly_sorted(s),
    ensures
        lines_map(s.update(i, (s[i].0, v))) =~= lines_map(s).insert(s[i].0, v@),
    decreases s.len(),
{
    let t = s.update(i, (s[i].0, v));
    if i == s.len() - 1 {
        assert(t.drop_last() =~= s.drop_last());
    } else {
        assert(t.drop_last() =~= s.drop_last().update(i, (s[i].0, v)));
        lemma_lines_map_update(s.drop_last(), i, v);
        assert(s[i].0 < s.last().0);
        assert(lines_map(t) =~= lines_map(s).insert(s[i].0, v@));
    }
}

/// Splicing a fresh key into the sequence acts as a map insert.
proof fn lemma_lines_map_insert(s: Seq<(u32, Line)>, i: int, key: u32, v: Line)
    requires
        0 <= i <= s.len(),
        forall|j: int| 0 <= j < s.len() ==> (#[trigger] s[j]).0 != key,
    ensures
        lines_map(s.insert(i, (key, v))) =~= lines_map(s).insert(key, v@),
    decreases s.len(),
{
    let t = s.insert(i, (key, v));
    if i == s.len() {
        assert(t.drop_last() =~= s);
    } else {
        assert(t.last() == s.last());
        assert(t.drop_last() =~= s.drop_last().insert(i, (key, v)));
        lemma_lines_map_insert(s.drop_last(), i, key, v);
        assert(s.last().0 != key);
        assert(lines_map(t) =~= lines_map(s).insert(key, v@));
    }
}

impl File {
    /// An empty line listing for the named file.
    pub fn new(name: &str) -> (f: Self)
        ensures
            f.name@ == name@,
            f.lines@ == Seq::<(u32, Line)>::empty(),
    {
        File { name: name.to_owned(), lines: Vec::new() }
    }
}

/// Index of the first entry whose key is not below `key`.
fn find_slot(lines: &Vec<(u32, Line)>, key: u32) -> (i: usize)
    requires
        strictly_sorted(lines@),
    ensures
        i <= lines@.len(),
        forall|j: int| 0 <= j < i ==> (#[trigger] lines@[j]).0 < key,
        i < lines@.len() ==> lines@[i as int].0 >= key,
{
    let n = lines.len();
    let mut i: usize = 0;
    while i < n && lines[i].0 < key
        invariant
            n == lines@.len(),
            i <= n,
            forall|j: int| 0 <= j < i ==> (#[trigger] lines@[j]).0 < key,
        decreases n - i,
    {
        i = i + 1;
    }
    i
}

/// Insert or overwrite: the matched line is authoritative at its key.
fn upsert(file: &mut File, key: u32, value: Line)
    requires
        strictly_sorted(old(file).lines@),
    ensures
        strictly_sorted(final(file).lines@),
        final(file).name == old(file).name,
        lines_map(final(file).lines@) == lines_map(old(file).lines@).insert(key, value@),
{
    let i = find_slot(&file.lines, key);
    let n = file.lines.len();
    if i < n && file.lines[i].0 == key {
        let ghost s = file.lines@;
        file.lines[i] = (key, value);
        proof {
            lemma_lines_map_update(s, i as int, value);
            assert(file.lines@ =~= s.update(i as int, (s[i as int].0, value)));
            assert(strictly_sorted(file.lines@));
        }
    } else {
        let ghost s = file.lines@;
        proof {
            assert forall|j: int| 0 <= j < s.len() implies (#[trigger] s[j]).0 != key by {
                if j >= i {
                    assert(s[i as int].0 > key);
                }
            }
        }
        file.lines.insert(i, (key, value));
        proof {
            lemma_lines_map_insert(s, i as int, key, value);
            assert forall|a: int, b: int|
                0 <= a < b < file.lines@.len() implies (#[trigger] file.lines@[a]).0 < (
            #[trigger] file.lines@[b]).0 by {
                if a < i && b > i {
                    assert(s[a].0 < key);
                    assert(s[b - 1].0 > key);
                } else if a == i {
                    assert(s[b - 1].0 > key);
                } else if b == i {
                    assert(s[a].0 < key);
                }
            }
        }
    }
}

/// Insert a context line only when its key is still free.
fn insert_if_absent(file: &mut File, key: u32, value: Line)
    requires
        strictly_sorted(old(file).lines@),
    ensures
        strictly_sorted(final(file).lines@),
        final(file).name == old(file).name,
        lines_map(final(file).lines@) == if lines_map(old(file).lines@).contains_key(key) {
            lines_map(old(file).lines@)
        } else {
            lines_map(old(file).lines@).insert(key, value@)
        },
{
    let i = find_slot(&file.lines, key);
    let n = file.lines.len();
    if i < n && file.lines[i].0 == key {
        proof {
            lemma_lines_map_contains_at(file.lines@, i as int);
        }
    } else {
        let ghost s = file.lines@;
        proof {
            assert forall|j: int| 0 <= j < s.len() implies (#[trigger] s[j]).0 != key by {
                if j >= i {
                    assert(s[i as int].0 > key);
                }
            }
            lemma_lines_map_not_contains(s, key);
        }
        file.lines.insert(i, (key, value));
        proof {
            lemma_lines_map_insert(s, i as int, key, value);
            assert forall|a: int, b: int|
                0 <= a < b < file.lines@.len() implies (#[trigger] file.lines@[a]).0 < (
            #[trigger] file.lines@[b]).0 by {
                if a < i && b > i {
                    assert(s[a].0 < key);
                    assert(s[b - 1].0 > key);
                } else if a == i {
                    assert(s[b - 1].0 > key);
                } else if b == i {
                    assert(s[a].0 < key);
                }
            }
        }
    }
}

/// `a - b`, stopped at zero: a computed context line number is kept in the
/// non-negative domain rather than wrapping.
pub open spec fn sat_sub(a: u32, b: u32) -> u32 {
    if a >= b {
        (a - b) as u32
    } else {
        0
    }
}

/// The effect of one match line on the accumulated line mapping: the matched
/// line always lands; each of its four context lines lands only on a key that
/// is still absent.
pub open spec fn apply_match(m: Map<u32, LineV>, mt: MatchV) -> Map<u32, LineV> {
    let m1 = m.insert(mt.line_number, LineV { highlight: true, text: mt.line });
    let m2 = if mt.before.len() >= 1 && !m1.contains_key(sat_sub(mt.line_number, 2)) {
        m1.insert(sat_sub(mt.line_number, 2), LineV { highlight: false, text: mt.before[0] })
    } else {
        m1
    };
    let m3 = if mt.before.len() == 2 && !m2.contains_key(sat_sub(mt.line_number, 1)) {
        m2.insert(sat_sub(mt.line_number, 1), LineV { highlight: false, text: mt.before[1] })
    } else {
        m2
    };
    let m4 = if mt.after.len() >= 1 && !m3.contains_key((mt.line_number + 1) as u32) {
        m3.insert((mt.line_number + 1) as u32, LineV { highlight: false, text: mt.after[0] })
    } else {
        m3
    };
    if mt.after.len() == 2 && !m4.contains_key((mt.line_number + 2) as u32) {
        m4.insert((mt.line_number + 2) as u32, LineV { highlight: false, text: mt.after[1] })
    } else {
        m4
    }
}

/// The line mapping implied by a sequence of match lines, applied in input
/// order.
pub open spec fn flatten_matches(ms: Seq<MatchV>) -> Map<u32, LineV>
    decreases ms.len(),
{
    if ms.len() == 0 {
        Map::empty()
    } else {
        apply_match(flatten_matches(ms.drop_last()), ms.last())
    }
}

/// Merge one file's matches into its ordered display lines.
///
/// The returned listing holds every line implied by every match — the match
/// itself plus up to two context lines on each side — in strictly ascending
/// line order, and its content is exactly [`flatten_matches`] of the input.
pub fn flatten(repomatch: &RepoMatch) -> (file: File)
    requires
        repo_match_wf(repomatch@),
    ensures
        file.name@ == repomatch@.filename,
        strictly_sorted(file.lines@),
        lines_map(file.lines@) == flatten_matches(repomatch@.matches),
{
    let mut file = File::new(repomatch.filename.as_str());
    let n = repomatch.matches.len();
    let ghost ms = repomatch@.matches;
    let mut i: usize = 0;
    while i < n
        invariant
            n == repomatch.matches@.len(),
            ms == repomatch@.matches,
            repo_match_wf(repomatch@),
            i <= n,
            file.name@ == repomatch@.filename,
            strictly_sorted(file.lines@),
            lines_map(file.lines@) == flatten_matches(ms.take(i as int)),
        decreases n - i,
    {
        let mt = &repomatch.matches[i];
        let ghost mv = ms[i as int];
        proof {
            assert(mv == repomatch.matches@[i as int]@);
            assert(match_wf(mv));
        }
        let ln = mt.line_number;
        upsert(&mut file, ln, Line { highlight: true, text: mt.line.clone() });
        let bl = mt.before.len();
        if bl >= 1 {
            let k = if ln >= 2 {
                ln - 2
            } else {
                0
            };
            proof {
                assert(k == sat_sub(mv.line_number, 2));
                assert(mt.before@[0]@ == mv.before[0]);
            }
            insert_if_absent(&mut file, k, Line { highlight: false, text: mt.before[0].clone() });
        }
        if bl == 2 {
            let k = if ln >= 1 {
                ln - 1
            } else {
                0
            };
            proof {
                assert(k == sat_sub(mv.line_number, 1));
                assert(mt.before@[1]@ == mv.before[1]);
            }
            insert_if_absent(&mut file, k, Line { highlight: false, text: mt.before[1].clone() });
        }
        let al = mt.after.len();
        if al >= 1 {
            proof {
                assert(mt.after@[0]@ == mv.after[0]);
            }
            insert_if_absent(
                &mut file,
                ln + 1,
                Line { highlight: false, text: mt.after[0].clone() },
            );
        }
        if al == 2 {
            proof {
                assert(mt.after@[1]@ == mv.after[1]);
            }
            insert_if_absent(
                &mut file,
                ln + 2,
                Line { highlight: false, text: mt.after[1].clone() },
            );
        }
        proof {
            assert(lines_map(file.lines@) == apply_match(flatten_matches(ms.take(i as int)), mv));
            assert(ms.take(i + 1).drop_last() =~= ms.take(i as int));
            assert(ms.take(i + 1).last() == mv);
        }
        i = i + 1;
    }
    proof {
        assert(ms.take(n as int) =~= ms);
    }
    file
}

/// Highlight stability over one step: once a line number is recorded as
/// highlighted, merging a further match never downgrades it, because a
/// matched line only ever writes `highlight: true` and context lines never
/// land on an occupied key.
pub proof fn lemma_highlight_stable_step(m: Map<u32, LineV>, mt: MatchV, k: u32)
    requires
        m.contains_key(k),
        m[k].highlight,
    ensures
        apply_match(m, mt).contains_key(k),
        apply_match(m, mt)[k].highlight,
{
}

/// Highlight stability: for any sequence of matches touching the same line
/// number, once the merge of a prefix records that line as highlighted, the
/// merge of any longer prefix still records it as highlighted.
pub proof fn lemma_highlight_stable(ms: Seq<MatchV>, i: int, j: int, k: u32)
    requires
        0 <= i <= j <= ms.len(),
        flatten_matches(ms.take(i)).contains_key(k),
        flatten_matches(ms.take(i))[k].highlight,
    ensures
        flatten_matches(ms.take(j)).contains_key(k),
        flatten_matches(ms.take(j))[k].highlight,
    decreases j - i,
{
    if i < j {
        lemma_highlight_stable(ms, i, j - 1, k);
        assert(ms.take(j).drop_last() =~= ms.take(j - 1));
        lemma_highlight_stable_step(flatten_matches(ms.take(j - 1)), ms[j - 1], k);
    }
}

/// No clobber of prior lines: merging a further match leaves every already
/// recorded line other than the newly matched line number exactly as it was,
/// since context lines are inserted only on absent keys.
pub proof fn lemma_no_clobber(m: Map<u32, LineV>, mt: MatchV, k: u32)
    requires
        m.contains_key(k),
        k != mt.line_number,
    ensures
        apply_match(m, mt).contains_key(k),
        apply_match(m, mt)[k] == m[k],
{
}

} // verus!
