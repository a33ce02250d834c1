//! Judging a whole row of boxes, and the seed it was built from: does every
//! prisoner find their number, and do they all need the same number of
//! attempts?

use vstd::prelude::*;
use crate::permutation::{build, built, in_bounds, is_permutation};
use crate::search::{
    cycle_length_is, lemma_permutation_cycle_exists, lemma_search_finds_cycle, search_number,
    search_outcome, SearchResult,
};

verus! {

/// Number of prisoners and boxes
pub const NUM_PRISONERS: usize = 100;

/// Number of attempts to find the prisoners number
pub const NUM_ATTEMPTS: usize = 50;

/// Every prisoner finds their number within `max_attempts` attempts.
pub open spec fn all_found(boxes: Seq<usize>, max_attempts: usize) -> bool {
    forall|i: int|
        0 <= i < boxes.len() ==> #[trigger] search_outcome(boxes, i, max_attempts) is Found
}

/// Every prisoner finds their number at attempt `count` exactly.
pub open spec fn all_found_at(boxes: Seq<usize>, max_attempts: usize, count: usize) -> bool {
    forall|i: int|
        0 <= i < boxes.len() ==> #[trigger] search_outcome(boxes, i, max_attempts)
            == SearchResult::Found(count)
}

/// The attempt at which every prisoner finds their number, if there is one
/// such attempt for all of them: it is then the attempt of prisoner 0.
pub open spec fn common_attempts(boxes: Seq<usize>, max_attempts: usize) -> Option<usize> {
    match search_outcome(boxes, 0, max_attempts) {
        SearchResult::Found(count) => if all_found_at(boxes, max_attempts, count) {
            Some(count)
        } else {
            None
        },
        _ => None,
    }
}

/// The outcomes of all prisoners, in the order of their numbers.
pub open spec fn outcomes_of(boxes: Seq<usize>, max_attempts: usize) -> Seq<SearchResult> {
    Seq::new(boxes.len(), |i: int| search_outcome(boxes, i, max_attempts))
}

/// Where all prisoners find their number at one common
/// attempt, all prisoners find their number.
pub proof fn lemma_common_attempts_implies_all_found(boxes: Seq<usize>, max_attempts: usize)
    requires
        common_attempts(boxes, max_attempts) is Some,
    ensures
        all_found(boxes, max_attempts),
{
    let count = common_attempts(boxes, max_attempts).unwrap();
    assert(all_found_at(boxes, max_attempts, count));
    assert forall|i: int| 0 <= i < boxes.len() implies #[trigger] search_outcome(
        boxes,
        i,
        max_attempts,
    ) is Found by {
        assert(search_outcome(boxes, i, max_attempts) == SearchResult::Found(count));
    }
}

/// In a row that holds each number exactly once, as many attempts as there
/// are boxes let every prisoner find their number.
pub proof fn lemma_enough_attempts_find_all(boxes: Seq<usize>, max_attempts: usize)
    requires
        is_permutation(boxes),
        max_attempts >= boxes.len(),
    ensures
        all_found(boxes, max_attempts),
{
    assert forall|i: int| 0 <= i < boxes.len() implies #[trigger] search_outcome(
        boxes,
        i,
        max_attempts,
    ) is Found by {
        lemma_permutation_cycle_exists(boxes, i);
        let len = choose|len: int|
            len <= boxes.len() && #[trigger] cycle_length_is(boxes, i, len);
        lemma_search_finds_cycle(boxes, i, len, max_attempts);
    }
}

/// A seed whose row lets all prisoners find their number at one common
/// attempt is a seed whose row lets all prisoners find their number.
pub proof fn lemma_interesting_seed_is_valid(n: usize, seed: u64, max_attempts: usize)
    requires
        common_attempts(built(n as nat, seed), max_attempts) is Some,
    ensures
        all_found(built(n as nat, seed), max_attempts),
{
    lemma_common_attempts_implies_all_found(built(n as nat, seed), max_attempts);
}

/// The number of workers to start beside the caller, which works too: one per
/// available processor but one, and none where the number of processors is
/// not known.
pub open spec fn workers_beside_caller(available: Option<usize>) -> int {
    match available {
        Some(cpus) => cpus - 1,
        None => 0,
    }
}

/// Tells how many workers to start beside the caller, given the amount of
/// available cpus, if it is known. We omit one cpu and leave it to the caller.
pub fn extra_workers(available: Option<usize>) -> (workers: usize)
    requires
        available matches Some(cpus) ==> cpus >= 1,
    ensures
        workers == workers_beside_caller(available),
{
    let cpus = match available {
        None => 1,
        Some(n) => n,
    };
    cpus - 1
}

/// Tells whether each prisoner finds their number in `boxes` within
/// `n_attempts` attempts. The first prisoner who loops or can't find their
/// number settles it.
pub fn all_succeed(boxes: &Vec<usize>, n_attempts: usize) -> (valid: bool)
    requires
        in_bounds(boxes@),
    ensures
        valid == all_found(boxes@, n_attempts),
{
    let n = boxes.len();
    for i in 0..n
        invariant
            n == boxes@.len(),
            in_bounds(boxes@),
            forall|j: int|
                0 <= j < i ==> #[trigger] search_outcome(boxes@, j, n_attempts) is Found,
    {
        match search_number(boxes, i, n_attempts) {
            SearchResult::NotFound | SearchResult::Looped => {
                assert(!(search_outcome(boxes@, i as int, n_attempts) is Found));
                return false;
            },
            _ => (),
        }
    }
    true
}

/// Tells whether all prisoners take exactly the same amount of attempts to
/// find their numbers in `boxes`, and if so, how many.
///
/// The amount looked for is the one that prisoner 0 takes, so there has to be
/// at least one box. The first prisoner who loops, can't find their number or
/// takes a different amount settles it.
pub fn all_succeed_uniform(boxes: &Vec<usize>, n_attempts: usize) -> (found: Option<usize>)
    requires
        boxes@.len() >= 1,
        in_bounds(boxes@),
    ensures
        found == common_attempts(boxes@, n_attempts),
{
    let n = boxes.len();
    // The number of attempts we are looking for.
    let found_attempt = match search_number(boxes, 0, n_attempts) {
        SearchResult::NotFound | SearchResult::Looped => {
            return None;
        },
        SearchResult::Found(attempt) => attempt,
    };

    // Now check the rest.
    for i in 1..n
        invariant
            n == boxes@.len(),
            in_bounds(boxes@),
            search_outcome(boxes@, 0, n_attempts) == SearchResult::Found(found_attempt),
            forall|j: int|
                0 <= j < i ==> #[trigger] search_outcome(boxes@, j, n_attempts)
                    == SearchResult::Found(found_attempt),
    {
        match search_number(boxes, i, n_attempts) {
            SearchResult::NotFound | SearchResult::Looped => {
                assert(search_outcome(boxes@, i as int, n_attempts) != SearchResult::Found(
                    found_attempt,
                ));
                return None;
            },
            SearchResult::Found(attempt) => if attempt != found_attempt {
                assert(search_outcome(boxes@, i as int, n_attempts) != SearchResult::Found(
                    found_attempt,
                ));
                return None;
            },
        }
    }
    Some(found_attempt)
}

/// Tells whether `seed` is valid: each of `n` prisoners finds their number,
/// within `n_attempts` attempts, in the boxes built from it.
pub fn is_valid_seed(n: usize, seed: u64, n_attempts: usize) -> (valid: bool)
    ensures
        valid == all_found(built(n as nat, seed), n_attempts),
{
    let boxes = build(n, seed);
    all_succeed(&boxes, n_attempts)
}

/// Tells whether `seed` is interesting: all of `n` prisoners take exactly the
/// same amount of attempts to find their numbers in the boxes built from it.
/// Returns that amount if so.
pub fn interesting_seed(n: usize, seed: u64, n_attempts: usize) -> (found: Option<usize>)
    requires
        n >= 1,
    ensures
        found == common_attempts(built(n as nat, seed), n_attempts),
        found is Some ==> all_found(built(n as nat, seed), n_attempts),
{
    let boxes = build(n, seed);
    let found = all_succeed_uniform(&boxes, n_attempts);
    proof {
        if found is Some {
            lemma_common_attempts_implies_all_found(boxes@, n_attempts);
        }
    }
    found
}

/// Attempt to solve the riddle given a certain seed: builds the boxes for `n`
/// prisoners and lets each prisoner search for their number. Returns the
/// boxes and the outcome of each prisoner, in the order of their numbers.
pub fn attempt(n: usize, seed: u64, n_attempts: usize) -> (run: (Vec<usize>, Vec<SearchResult>))
    ensures
        run.0@ == built(n as nat, seed),
        is_permutation(run.0@),
        run.1@ == outcomes_of(built(n as nat, seed), n_attempts),
{
    // Create the boxes and randomize them
    let boxes = build(n, seed);

    // Let the prisoners search for their numbers
    let mut outcomes: Vec<SearchResult> = Vec::with_capacity(n);
    for i in 0..n
        invariant
            boxes@ == built(n as nat, seed),
            boxes@.len() == n,
            is_permutation(boxes@),
            outcomes@.len() == i,
            forall|j: int|
                0 <= j < i ==> outcomes@[j] == search_outcome(boxes@, j, n_attempts),
    {
        outcomes.push(search_number(&boxes, i, n_attempts));
    }
    assert(outcomes@ =~= outcomes_of(boxes@, n_attempts));
    (boxes, outcomes)
}

} // verus!
