use codesearch::flatten::{flatten, File};
use codesearch::results::{Match, RepoMatch};

fn m(line: &str, number: u32, before: Vec<&str>, after: Vec<&str>) -> Match {
    Match {
        line: line.to_string(),
        line_number: number,
        before: before.into_iter().map(|s| s.to_string()).collect(),
        after: after.into_iter().map(|s| s.to_string()).collect(),
    }
}

fn flat(matches: Vec<Match>) -> File {
    flatten(&RepoMatch { filename: "f.rs".to_string(), matches })
}

#[test]
fn context_window_placement() {
    // A match at line 10 with both context windows full lands on lines 8..12,
    // in order, with only the matched line highlighted.
    let file = flat(vec![m("match-text", 10, vec!["b0", "b1"], vec!["a0", "a1"])]);
    assert_eq!(file.name, "f.rs");
    let got: Vec<(u32, bool, &str)> =
        file.lines.iter().map(|(n, l)| (*n, l.highlight, l.text.as_str())).collect();
    assert_eq!(
        got,
        vec![
            (8, false, "b0"),
            (9, false, "b1"),
            (10, true, "match-text"),
            (11, false, "a0"),
            (12, false, "a1"),
        ]
    );
}

#[test]
fn highlight_is_never_downgraded() {
    // The second match's context covers line 10, which is already
    // highlighted: it must stay highlighted with its own text.
    let file = flat(vec![
        m("ten", 10, vec![], vec![]),
        m("nine", 9, vec![], vec!["ten-ctx", "eleven-ctx"]),
    ]);
    let ten = file.lines.iter().find(|(n, _)| *n == 10).unwrap();
    assert!(ten.1.highlight);
    assert_eq!(ten.1.text, "ten");
    let eleven = file.lines.iter().find(|(n, _)| *n == 11).unwrap();
    assert!(!eleven.1.highlight);
    assert_eq!(eleven.1.text, "eleven-ctx");
}

#[test]
fn context_does_not_clobber_prior_entries() {
    // A later match at line 10 whose leading context covers lines 8 and 9
    // must not erase the highlighted entry already recorded at line 9.
    let file = flat(vec![
        m("nine", 9, vec![], vec![]),
        m("ten", 10, vec!["eight-ctx", "nine-ctx"], vec![]),
    ]);
    let nine = file.lines.iter().find(|(n, _)| *n == 9).unwrap();
    assert!(nine.1.highlight);
    assert_eq!(nine.1.text, "nine");
    let eight = file.lines.iter().find(|(n, _)| *n == 8).unwrap();
    assert!(!eight.1.highlight);
    assert_eq!(eight.1.text, "eight-ctx");
    let ten = file.lines.iter().find(|(n, _)| *n == 10).unwrap();
    assert!(ten.1.highlight);
}

#[test]
fn matched_line_overwrites_context() {
    // The matched line is authoritative: it replaces a context line already
    // recorded under its number.
    let file = flat(vec![
        m("nine", 9, vec![], vec!["ten-ctx", "eleven-ctx"]),
        m("ten", 10, vec![], vec![]),
    ]);
    let ten = file.lines.iter().find(|(n, _)| *n == 10).unwrap();
    assert!(ten.1.highlight);
    assert_eq!(ten.1.text, "ten");
}

#[test]
fn low_line_numbers_saturate_at_zero() {
    // Context lines computed below line zero stay in the non-negative domain
    // instead of wrapping.
    let file = flat(vec![m("one", 1, vec!["above"], vec![])]);
    let got: Vec<u32> = file.lines.iter().map(|(n, _)| *n).collect();
    assert_eq!(got, vec![0, 1]);
}

#[test]
fn one_sided_context() {
    // A single leading context line sits two lines above the match, a single
    // trailing one directly below.
    let file = flat(vec![m("x", 20, vec!["b0"], vec!["a0"])]);
    let got: Vec<(u32, &str)> = file.lines.iter().map(|(n, l)| (*n, l.text.as_str())).collect();
    assert_eq!(got, vec![(18, "b0"), (20, "x"), (21, "a0")]);
}

#[test]
fn overlapping_windows_merge_without_duplicates() {
    let file = flat(vec![
        m("five", 5, vec!["b3", "b4"], vec!["a6", "a7"]),
        m("seven", 7, vec!["b5", "b6"], vec!["a8", "a9"]),
    ]);
    let numbers: Vec<u32> = file.lines.iter().map(|(n, _)| *n).collect();
    assert_eq!(numbers, vec![3, 4, 5, 6, 7, 8, 9]);
    let seven = file.lines.iter().find(|(n, _)| *n == 7).unwrap();
    assert!(seven.1.highlight);
    assert_eq!(seven.1.text, "seven");
    // Line 6 was first recorded as trailing context of the match at 5 and is
    // not replaced by the later leading context.
    let six = file.lines.iter().find(|(n, _)| *n == 6).unwrap();
    assert_eq!(six.1.text, "a6");
}

#[test]
fn largest_permitted_line_number() {
    let top = u32::MAX - 2;
    let file = flat(vec![m("edge", top, vec!["b0", "b1"], vec!["a0", "a1"])]);
    let numbers: Vec<u32> = file.lines.iter().map(|(n, _)| *n).collect();
    assert_eq!(numbers, vec![top - 2, top - 1, top, top + 1, top + 2]);
}

#[test]
fn empty_match_list_yields_empty_file() {
    let file = flat(vec![]);
    assert!(file.lines.is_empty());
    assert_eq!(file.name, "f.rs");
}
