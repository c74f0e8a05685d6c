use zip_merge::dedup::any_marked;
use zip_merge::scan::block_repeats;
use zip_merge::scan::enter_marks;
use zip_merge::dedup::deduplicate_patterns;
use zip_merge::scan::mark_size;
use zip_merge::scan::offset_marks;
use zip_merge::scan::removal_mask;
use zip_merge::dedup::retain_unmarked;
use zip_merge::throttle::scans_size;
use zip_merge::dedup::sweep;
use zip_merge::throttle::ALWAYS_SCANNED_PERCENT;

fn text(items: &[&str]) -> Vec<String> {
    items.iter().map(|s| s.to_string()).collect()
}

#[test]
fn repeated_pair_is_collapsed_in_one_sweep() {
    let s = text(&["a", "b", "a", "b", "c"]);
    assert_eq!(removal_mask(&s, 1), vec![true, true, false, false, false]);
    assert_eq!(sweep(&s, 1), text(&["a", "b", "c"]));
    let swept = sweep(&s, 1);
    assert_eq!(removal_mask(&swept, 1), vec![false, false, false]);
    assert_eq!(sweep(&swept, 1), swept);
    assert_eq!(deduplicate_patterns(&s, 1), text(&["a", "b", "c"]));
    assert_eq!(deduplicate_patterns(&s, 20), text(&["a", "b", "c"]));
}

#[test]
fn deduplicating_twice_changes_nothing_more() {
    let inputs: Vec<Vec<String>> = vec![
        text(&[]),
        text(&["a"]),
        text(&["a", "a"]),
        text(&["a", "b", "a", "b", "c"]),
        text(&["a", "a", "b", "a", "a", "b"]),
        text(&["x", "y", "x", "y", "x", "y", "z", "z", "z"]),
        text(&["a", "b", "b", "a", "b", "b", "c"]),
    ];
    for t in [1usize, 2, 7, 20, 100] {
        for s in &inputs {
            let once = deduplicate_patterns(s, t);
            let twice = deduplicate_patterns(&once, t);
            assert_eq!(once, twice);
            assert!(once.len() <= s.len());
            assert!(!any_marked(&removal_mask(&once, t)));
        }
    }
}

#[test]
fn sequences_shorter_than_two_are_returned_unchanged() {
    let none: Vec<String> = Vec::new();
    assert_eq!(deduplicate_patterns(&none, 1), none);
    let one = text(&["only"]);
    assert_eq!(deduplicate_patterns(&one, 1), one);
    assert_eq!(removal_mask(&one, 1), vec![false]);
}

#[test]
fn first_of_two_equal_neighbours_is_the_one_removed() {
    let s: Vec<(char, u8)> = vec![('a', 1), ('a', 1), ('b', 2)];
    assert_eq!(removal_mask(&s, 1), vec![true, false, false]);
    let s = text(&["a", "a", "a", "b"]);
    assert_eq!(removal_mask(&s, 1), vec![true, true, false, false]);
    assert_eq!(deduplicate_patterns(&s, 1), text(&["a", "b"]));
}

#[test]
fn marks_of_all_scanned_sizes_are_gathered_before_the_rebuild() {
    // size 1 marks 0 and 3, size 3 marks 0, 1 and 2.
    let s = text(&["a", "a", "b", "a", "a", "b"]);
    assert_eq!(
        removal_mask(&s, 1),
        vec![true, true, true, true, false, false]
    );
    assert_eq!(sweep(&s, 1), text(&["a", "b"]));
    assert_eq!(deduplicate_patterns(&s, 1), text(&["a", "b"]));
}

#[test]
fn throttle_skips_sizes_between_multiples() {
    // half is 5: size 3 has relative size 60, size 5 has 100.
    let s = text(&["a", "b", "c", "a", "b", "c", "d", "e", "f", "g"]);
    assert!(scans_size(10, 3, 20));
    assert!(!scans_size(10, 3, 7));
    assert_eq!(deduplicate_patterns(&s, 20), text(&["a", "b", "c", "d", "e", "f", "g"]));
    assert_eq!(deduplicate_patterns(&s, 7), s);
}

#[test]
fn throttle_boundary_at_one_hundred_elements() {
    assert_eq!(ALWAYS_SCANNED_PERCENT, 10);
    // half is 50, so the relative size is twice the size.
    for size in 1..=5usize {
        assert!(scans_size(100, size, 20), "size {}", size);
    }
    for size in 6..=9usize {
        assert!(!scans_size(100, size, 20), "size {}", size);
    }
    assert!(scans_size(100, 10, 20));
    assert!(!scans_size(100, 11, 20));
    assert!(!scans_size(100, 19, 20));
    assert!(scans_size(100, 20, 20));
    assert!(scans_size(100, 30, 20));
    assert!(!scans_size(100, 35, 20));
    assert!(scans_size(100, 50, 20));
    assert!(!scans_size(100, 51, 20));
    assert!(!scans_size(100, 0, 20));
}

#[test]
fn relative_size_is_rounded_down() {
    // half is 3: sizes 1, 2, 3 have relative sizes 33, 66, 100.
    assert!(scans_size(7, 1, 11));
    assert!(scans_size(7, 2, 33));
    assert!(!scans_size(7, 2, 67));
    assert!(!scans_size(7, 3, 7));
    assert!(scans_size(7, 3, 50));
    // half is 20: size 3 has relative size 15.
    assert!(scans_size(40, 3, 5));
    assert!(!scans_size(40, 3, 4));
    // every size is scanned when nothing is skipped.
    for size in 1..=20usize {
        assert!(scans_size(40, size, 1));
    }
    assert!(!scans_size(1, 1, 1));
    assert!(!scans_size(0, 0, 1));
}

#[test]
fn block_repeats_wants_two_whole_windows() {
    let s = text(&["a", "b", "a", "b", "a"]);
    assert!(block_repeats(&s, 0, 2));
    assert!(block_repeats(&s, 1, 2));
    assert!(!block_repeats(&s, 2, 2));
    assert!(!block_repeats(&s, 3, 1));
    assert!(!block_repeats(&s, 0, 1));
    assert!(!block_repeats(&s, 0, 0));
    assert!(!block_repeats(&s, 9, 1));
    assert!(!block_repeats(&s, 0, usize::MAX));
}

#[test]
fn offset_marks_walks_one_offset_only() {
    let s = text(&["x", "a", "b", "a", "b", "a", "b", "y"]);
    // Of the windows of size 2, those at 1 and 3 repeat, which belong to
    // offset 1, and the one at 2, which belongs to offset 0.
    assert_eq!(offset_marks(&s, 2, 0), vec![2, 3]);
    assert_eq!(offset_marks(&s, 2, 1), vec![1, 2, 3, 4]);
    assert_eq!(offset_marks(&s, 3, 0), Vec::<usize>::new());
    // An offset that is not below the size has no windows.
    assert_eq!(offset_marks(&s, 2, 2), Vec::<usize>::new());
    assert_eq!(offset_marks(&s, 2, 3), Vec::<usize>::new());
    assert_eq!(offset_marks(&s, 0, 0), Vec::<usize>::new());
    assert_eq!(offset_marks(&s, 9, 3), Vec::<usize>::new());
}

#[test]
fn mark_size_gathers_the_lists_of_all_offsets() {
    let s = text(&["x", "a", "b", "a", "b", "a", "b", "y", "y", "y"]);
    let mut mask = vec![false; s.len()];
    mark_size(&s, 2, &mut mask);
    assert_eq!(
        mask,
        vec![false, true, true, true, true, false, false, false, false, false]
    );
    mark_size(&s, 1, &mut mask);
    assert_eq!(
        mask,
        vec![false, true, true, true, true, false, false, true, true, false]
    );
    let gathered = mask.clone();
    mark_size(&s, 0, &mut mask);
    assert_eq!(mask, gathered);
    mark_size(&s, 6, &mut mask);
    assert_eq!(mask, gathered);
}

#[test]
fn enter_marks_adds_to_what_is_marked() {
    let mut mask = vec![false, true, false, false, false];
    enter_marks(&vec![3, 0, 3], &mut mask);
    assert_eq!(mask, vec![true, true, false, true, false]);
    enter_marks(&Vec::new(), &mut mask);
    assert_eq!(mask, vec![true, true, false, true, false]);
}

#[test]
fn mark_size_agrees_with_a_sequential_scan() {
    let mut s: Vec<u32> = Vec::new();
    for i in 0..300u32 {
        s.push((i / 3) % 5);
    }
    for size in 1..=40usize {
        let mut mask = vec![false; s.len()];
        mark_size(&s, size, &mut mask);
        let mut expected = vec![false; s.len()];
        for i in 0..s.len() {
            if block_repeats(&s, i, size) {
                for k in i..i + size {
                    expected[k] = true;
                }
            }
        }
        assert_eq!(mask, expected, "size {}", size);
    }
}

#[test]
fn retain_unmarked_keeps_the_order_of_the_rest() {
    let s = text(&["a", "b", "c", "d"]);
    assert_eq!(
        retain_unmarked(&s, &vec![false, true, false, true]),
        text(&["a", "c"])
    );
    assert_eq!(retain_unmarked(&s, &vec![false; 4]), s);
    assert_eq!(retain_unmarked(&s, &vec![true; 4]), text(&[]));
    // What the mask does not reach is kept.
    assert_eq!(retain_unmarked(&s, &vec![true, false]), text(&["b", "c", "d"]));
    assert_eq!(retain_unmarked(&s, &vec![true; 9]), text(&[]));
    assert!(any_marked(&vec![false, false, true]));
    assert!(!any_marked(&vec![false, false]));
    assert!(!any_marked(&Vec::new()));
}

#[test]
fn long_repetition_collapses_to_one_block() {
    let mut s: Vec<String> = Vec::new();
    for _ in 0..25 {
        s.extend(text(&["alpha", "beta", "gamma"]));
    }
    s.push("omega".to_string());
    assert_eq!(
        deduplicate_patterns(&s, 1),
        text(&["alpha", "beta", "gamma", "omega"])
    );
}

fn is_subsequence(sub: &[String], sup: &[String]) -> bool {
    let mut at = 0;
    for x in sup {
        if at < sub.len() && sub[at] == *x {
            at += 1;
        }
    }
    at == sub.len()
}

#[test]
fn deduplication_takes_elements_out_and_loses_no_value() {
    let inputs: Vec<Vec<String>> = vec![
        text(&["a", "b", "a", "b", "c"]),
        text(&["a", "a", "b", "a", "a", "b"]),
        text(&["a", "b", "b", "a", "b", "b", "c"]),
        text(&["x", "y", "z", "x", "y", "z", "x", "y", "z", "w", "w"]),
        text(&["k", "k", "k", "k", "k", "k", "k"]),
    ];
    for t in [1usize, 3, 20] {
        for s in &inputs {
            let d = deduplicate_patterns(s, t);
            assert!(is_subsequence(&d, s));
            for x in s {
                assert!(d.contains(x));
            }
        }
    }
}

#[test]
fn marked_element_has_an_equal_one_window_later() {
    let s = text(&["a", "b", "b", "a", "b", "b", "c", "c"]);
    let mask = removal_mask(&s, 1);
    assert_eq!(
        mask,
        vec![true, true, true, false, true, false, true, false]
    );
    for k in 0..s.len() {
        if mask[k] {
            assert!((1..=s.len() / 2).any(|size| k + size < s.len() && s[k] == s[k + size]));
        }
    }
}
