use prisoners::permutation::build;
use prisoners::search::{search_number, SearchResult};

#[test]
fn two_cycles_of_two() {
    let boxes = vec![1, 0, 3, 2];
    for i in 0..4 {
        assert_eq!(search_number(&boxes, i, 2), SearchResult::Found(2));
    }
}

#[test]
fn identity_finds_at_once() {
    let boxes = vec![0, 1, 2, 3];
    for i in 0..4 {
        assert_eq!(search_number(&boxes, i, 2), SearchResult::Found(1));
    }
}

#[test]
fn one_cycle_of_four_is_too_long_for_two_attempts() {
    let boxes = vec![1, 2, 3, 0];
    for i in 0..4 {
        assert_eq!(search_number(&boxes, i, 2), SearchResult::NotFound);
        assert_eq!(search_number(&boxes, i, 3), SearchResult::NotFound);
    }
}

#[test]
fn found_at_the_length_of_the_cycle() {
    let boxes = vec![1, 2, 3, 0];
    for i in 0..4 {
        assert_eq!(search_number(&boxes, i, 4), SearchResult::Found(4));
        assert_eq!(search_number(&boxes, i, 50), SearchResult::Found(4));
    }
}

#[test]
fn cycles_of_different_lengths() {
    let boxes = vec![1, 2, 0, 4, 3, 5];
    assert_eq!(search_number(&boxes, 0, 3), SearchResult::Found(3));
    assert_eq!(search_number(&boxes, 1, 3), SearchResult::Found(3));
    assert_eq!(search_number(&boxes, 2, 3), SearchResult::Found(3));
    assert_eq!(search_number(&boxes, 3, 3), SearchResult::Found(2));
    assert_eq!(search_number(&boxes, 4, 3), SearchResult::Found(2));
    assert_eq!(search_number(&boxes, 5, 3), SearchResult::Found(1));
    assert_eq!(search_number(&boxes, 0, 2), SearchResult::NotFound);
    assert_eq!(search_number(&boxes, 3, 1), SearchResult::NotFound);
}

#[test]
fn no_attempts_still_opens_the_first_box() {
    let boxes = vec![0, 2, 1];
    assert_eq!(search_number(&boxes, 0, 0), SearchResult::Found(1));
    assert_eq!(search_number(&boxes, 1, 0), SearchResult::NotFound);
    assert_eq!(search_number(&boxes, 2, 0), SearchResult::NotFound);
}

#[test]
fn one_attempt_opens_one_box() {
    let boxes = vec![0, 2, 1];
    assert_eq!(search_number(&boxes, 0, 1), SearchResult::Found(1));
    assert_eq!(search_number(&boxes, 1, 1), SearchResult::NotFound);
}

#[test]
fn chain_that_misses_its_start_loops() {
    // Not a permutation: box 0 leads into the cycle 1 -> 2 -> 1.
    let boxes = vec![1, 2, 1];
    assert_eq!(search_number(&boxes, 0, 5), SearchResult::Looped);
    assert_eq!(search_number(&boxes, 0, 3), SearchResult::Looped);
    assert_eq!(search_number(&boxes, 0, 2), SearchResult::NotFound);
    assert_eq!(search_number(&boxes, 1, 5), SearchResult::Found(2));
}

#[test]
fn chain_stuck_on_one_box_loops() {
    let boxes = vec![1, 1];
    assert_eq!(search_number(&boxes, 0, 1), SearchResult::NotFound);
    assert_eq!(search_number(&boxes, 0, 2), SearchResult::Looped);
}

#[test]
fn built_rows_never_loop() {
    for seed in 0..200u64 {
        let boxes = build(12, seed);
        for i in 0..12 {
            for attempts in 0..14 {
                assert_ne!(search_number(&boxes, i, attempts), SearchResult::Looped);
            }
        }
    }
}

#[test]
fn found_attempt_is_the_cycle_length_and_within_the_attempts() {
    for seed in 0..200u64 {
        let boxes = build(12, seed);
        for i in 0..12 {
            let mut len = 1;
            let mut cur = boxes[i];
            while cur != i {
                cur = boxes[cur];
                len += 1;
            }
            for attempts in 1..14 {
                let expected = if len <= attempts {
                    SearchResult::Found(len)
                } else {
                    SearchResult::NotFound
                };
                assert_eq!(search_number(&boxes, i, attempts), expected);
            }
        }
    }
}

#[test]
fn search_is_repeatable() {
    let boxes = build(10, 12345);
    let expected = [3, 5, 5, 5, 5, 3, 2, 5, 2, 3];
    for i in 0..10 {
        assert_eq!(search_number(&boxes, i, 5), SearchResult::Found(expected[i]));
        assert_eq!(search_number(&boxes, i, 5), search_number(&build(10, 12345), i, 5));
    }
}
