use zip_merge::merge::longest_common_run;
use zip_merge::merge::zip_merge;
use zip_merge::merge::zip_merge_traced;
use zip_merge::merge::Unmatched;
use zip_merge::merge::CommonRun;

fn lines(items: &[&str]) -> Vec<String> {
    items.iter().map(|s| s.to_string()).collect()
}

#[test]
fn merge_of_two_empty_sequences_is_empty() {
    let none: Vec<String> = Vec::new();
    assert_eq!(zip_merge(&none, &none), none);
}

#[test]
fn merge_with_empty_second_is_first() {
    let a = lines(&["one", "two", "three"]);
    let none: Vec<String> = Vec::new();
    assert_eq!(zip_merge(&a, &none), a);
}

#[test]
fn merge_with_empty_first_is_second() {
    let b = lines(&["one", "two", "three"]);
    let none: Vec<String> = Vec::new();
    assert_eq!(zip_merge(&none, &b), b);
}

#[test]
fn merge_without_overlap_puts_second_before_first_on_equal_lengths() {
    let a = lines(&["p", "q"]);
    let b = lines(&["r", "s"]);
    assert_eq!(zip_merge(&a, &b), lines(&["r", "s", "p", "q"]));
}

#[test]
fn merge_without_overlap_puts_shorter_before_longer() {
    let a = lines(&["p"]);
    let b = lines(&["r", "s"]);
    assert_eq!(zip_merge(&a, &b), lines(&["p", "r", "s"]));
    assert_eq!(zip_merge(&b, &a), lines(&["p", "r", "s"]));
}

#[test]
fn tie_between_longest_runs_goes_to_the_first_met() {
    let a = lines(&["x", "a", "b", "y", "a", "b"]);
    let b = lines(&["a", "b"]);
    let run = longest_common_run(&a, &b);
    assert_eq!(run, CommonRun { long_start: 1, short_start: 0, len: 2 });
    assert_eq!(zip_merge(&a, &b), lines(&["x", "a", "b", "y", "a", "b"]));
    assert_eq!(zip_merge(&b, &a), lines(&["x", "a", "b", "y", "a", "b"]));
}

#[test]
fn tie_in_short_goes_to_its_earliest_start() {
    let long = lines(&["k", "a", "z"]);
    let short = lines(&["a", "a"]);
    assert_eq!(
        longest_common_run(&long, &short),
        CommonRun { long_start: 1, short_start: 0, len: 1 }
    );
}

#[test]
fn later_run_wins_only_when_strictly_longer() {
    let long = lines(&["a", "b", "x", "a", "b", "c"]);
    let short = lines(&["a", "b", "c"]);
    assert_eq!(
        longest_common_run(&long, &short),
        CommonRun { long_start: 3, short_start: 0, len: 3 }
    );
}

#[test]
fn no_common_element_gives_the_empty_run_at_the_origin() {
    let long = lines(&["a", "b"]);
    let short = lines(&["c"]);
    assert_eq!(
        longest_common_run(&long, &short),
        CommonRun { long_start: 0, short_start: 0, len: 0 }
    );
    let none: Vec<String> = Vec::new();
    assert_eq!(
        longest_common_run(&none, &none),
        CommonRun { long_start: 0, short_start: 0, len: 0 }
    );
}

#[test]
fn merge_of_a_sequence_with_itself_is_that_sequence() {
    let a = lines(&["a", "b", "a", "c"]);
    assert_eq!(zip_merge(&a, &a), a);
}

#[test]
fn merge_splices_around_the_common_run() {
    let a = lines(&["h1", "x", "y", "t1"]);
    let b = lines(&["h2", "x", "y", "t2", "t3"]);
    // long is b (5 elements); the run x, y starts at 1 in both. Before it,
    // h2 of long and h1 of short are equally long, so h1 goes first.
    assert_eq!(
        zip_merge(&a, &b),
        lines(&["h1", "h2", "x", "y", "t1", "t2", "t3"])
    );
}

#[test]
fn merge_recurses_into_both_sides_of_the_run() {
    let a = lines(&["a", "m", "n", "o", "z"]);
    let b = lines(&["a", "q", "m", "n", "o", "r", "z"]);
    assert_eq!(
        zip_merge(&a, &b),
        lines(&["a", "q", "m", "n", "o", "r", "z"])
    );
}

#[test]
fn merge_length_lies_between_longer_input_and_sum() {
    let cases: Vec<(Vec<String>, Vec<String>)> = vec![
        (lines(&[]), lines(&[])),
        (lines(&["a"]), lines(&[])),
        (lines(&["a", "b", "c"]), lines(&["b", "c", "d"])),
        (lines(&["p", "q"]), lines(&["r", "s"])),
        (lines(&["x", "a", "b", "y", "a", "b"]), lines(&["a", "b"])),
        (lines(&["a", "a", "a"]), lines(&["a", "a"])),
    ];
    for (a, b) in cases {
        let merged = zip_merge(&a, &b);
        assert!(merged.len() >= a.len().max(b.len()));
        assert!(merged.len() <= a.len() + b.len());
    }
}

#[test]
fn merge_works_on_numbers_and_borrowed_strings() {
    let a: Vec<u32> = vec![1, 2, 3, 4];
    let b: Vec<u32> = vec![3, 4, 5];
    assert_eq!(zip_merge(&a, &b), vec![1, 2, 3, 4, 5]);
    let c: Vec<&str> = vec!["p", "q"];
    let d: Vec<&str> = vec!["q", "r"];
    assert_eq!(zip_merge(&c, &d), vec!["p", "q", "r"]);
}

fn is_subsequence(sub: &[String], sup: &[String]) -> bool {
    let mut at = 0;
    for x in sup {
        if at < sub.len() && sub[at] == *x {
            at += 1;
        }
    }
    at == sub.len()
}

#[test]
fn merge_keeps_both_inputs_in_order_and_adds_nothing() {
    let cases: Vec<(Vec<String>, Vec<String>)> = vec![
        (lines(&["a", "b", "c", "d"]), lines(&["x", "b", "c", "y"])),
        (lines(&["a", "m", "n", "o", "z"]), lines(&["a", "q", "m", "n", "o", "r", "z"])),
        (lines(&["p", "q"]), lines(&["r", "s"])),
        (lines(&["a", "a", "a"]), lines(&["a", "a"])),
        (lines(&["1", "2", "1", "2", "3"]), lines(&["2", "3", "1", "2"])),
    ];
    for (a, b) in cases {
        let merged = zip_merge(&a, &b);
        assert!(is_subsequence(&a, &merged));
        assert!(is_subsequence(&b, &merged));
        for x in &merged {
            assert!(a.contains(x) || b.contains(x));
        }
    }
}

#[test]
fn merge_drops_one_copy_of_each_common_run_and_nothing_else() {
    // The run b, c is common and kept once; x and a before it, y and d after.
    let a = lines(&["a", "b", "c", "d"]);
    let b = lines(&["x", "b", "c", "y"]);
    let merged = zip_merge(&a, &b);
    assert_eq!(merged, lines(&["x", "a", "b", "c", "y", "d"]));
    let count = |v: &Vec<String>, x: &str| v.iter().filter(|e| e.as_str() == x).count();
    for x in ["a", "d", "x", "y"] {
        assert_eq!(count(&merged, x), count(&a, x) + count(&b, x));
    }
    for x in ["b", "c"] {
        assert_eq!(count(&merged, x) + 1, count(&a, x) + count(&b, x));
    }
}

#[test]
fn unmatched_stretches_are_reported_in_splice_order() {
    let a = lines(&["x", "a", "b", "y", "a", "b"]);
    let b = lines(&["a", "b"]);
    let (merged, unmatched) = zip_merge_traced(&a, &b);
    assert_eq!(merged, zip_merge(&a, &b));
    assert_eq!(
        unmatched,
        vec![
            Unmatched { short: lines(&[]), long: lines(&["x"]) },
            Unmatched { short: lines(&[]), long: lines(&["y", "a", "b"]) },
        ]
    );
}

#[test]
fn unmatched_pair_of_equal_lengths_has_the_second_as_short() {
    let a = lines(&["p", "q"]);
    let b = lines(&["r", "s"]);
    let (merged, unmatched) = zip_merge_traced(&a, &b);
    assert_eq!(merged, lines(&["r", "s", "p", "q"]));
    assert_eq!(
        unmatched,
        vec![Unmatched { short: lines(&["r", "s"]), long: lines(&["p", "q"]) }]
    );
}

#[test]
fn nothing_is_reported_where_everything_matches_or_nothing_is_there() {
    let a = lines(&["a", "b", "c"]);
    let none: Vec<String> = Vec::new();
    assert_eq!(zip_merge_traced(&a, &a).1, Vec::new());
    assert_eq!(zip_merge_traced(&none, &none).1, Vec::new());
    let (merged, unmatched) = zip_merge_traced(&a, &none);
    assert_eq!(merged, a);
    assert_eq!(unmatched, vec![Unmatched { short: lines(&[]), long: a.clone() }]);
}

#[test]
fn unmatched_stretches_share_no_element() {
    let a = lines(&["h1", "x", "y", "t1", "k", "k2"]);
    let b = lines(&["h2", "h3", "x", "y", "t2", "k", "k3"]);
    let (merged, unmatched) = zip_merge_traced(&a, &b);
    assert_eq!(
        merged,
        lines(&["h1", "h2", "h3", "x", "y", "t1", "t2", "k", "k2", "k3"])
    );
    assert_eq!(
        unmatched,
        vec![
            Unmatched { short: lines(&["h1"]), long: lines(&["h2", "h3"]) },
            Unmatched { short: lines(&["t1"]), long: lines(&["t2"]) },
            Unmatched { short: lines(&["k2"]), long: lines(&["k3"]) },
        ]
    );
    for gap in &unmatched {
        assert!(!gap.long.is_empty());
        assert!(gap.short.len() <= gap.long.len());
        for x in &gap.short {
            assert!(!gap.long.contains(x));
        }
    }
}
