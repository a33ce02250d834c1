//! The loop-following search of one prisoner.
//!
//! A prisoner who looks for the number `t` opens box `t` first and then, again
//! and again, the box whose number the last box held. The chain of numbers seen
//! is `follow(boxes, t, 1)`, `follow(boxes, t, 2)`, and so on.
//!
//! The search ends when the number looked for is seen, when the attempts run
//! out, or when the chain comes back to the number seen first. The last is
//! told apart from running out of attempts, as `SearchResult::Looped`; on a
//! row that holds each number exactly once it never happens
//! (`lemma_permutation_never_loops`), so there the two ways to fail are one.

use vstd::prelude::*;
use vstd::set_lib::{lemma_int_range, lemma_len_subset, set_int_range};
use crate::permutation::{in_bounds, is_permutation};

verus! {

/// How the search of one prisoner ended.
#[derive(Debug, Clone, Copy, PartialEq, Eq, Structural)]
pub enum SearchResult {
    /// The number was in the box opened at this attempt, counted from one.
    Found(usize),
    /// The attempts ran out before the number was seen.
    NotFound,
    /// The chain came back to the number seen first without passing the
    /// number looked for.
    Looped,
}

/// The number seen at attempt `k` of a search that starts at box `start`;
/// at `k == 0`, `start` itself.
pub open spec fn follow(boxes: Seq<usize>, start: int, k: nat) -> int
    decreases k,
{
    if k == 0 {
        start
    } else {
        boxes[follow(boxes, start, (k - 1) as nat)] as int
    }
}

/// Attempt `k` ends the search for `target`: the number looked for is seen,
/// or, from the second attempt on, the number seen first is seen again.
pub open spec fn stops_at(boxes: Seq<usize>, target: int, k: int) -> bool {
    &&& k >= 1
    &&& (follow(boxes, target, k as nat) == target || (k >= 2 && follow(boxes, target, k as nat)
        == follow(boxes, target, 1)))
}

/// Attempt `k` is the first that ends the search for `target`.
pub open spec fn first_stop(boxes: Seq<usize>, target: int, k: int) -> bool {
    &&& stops_at(boxes, target, k)
    &&& forall|j: int| 1 <= j < k ==> !#[trigger] stops_at(boxes, target, j)
}

/// The number of boxes a prisoner may open. The first box is always opened,
/// so a budget of zero attempts still allows one.
pub open spec fn budget(max_attempts: usize) -> int {
    if max_attempts == 0 {
        1
    } else {
        max_attempts as int
    }
}

/// Some attempt within the budget ends the search for `target`.
pub open spec fn stops_within(boxes: Seq<usize>, target: int, max_attempts: usize) -> bool {
    exists|k: int| #[trigger] first_stop(boxes, target, k) && k <= budget(max_attempts)
}

/// The outcome of the search for `target` with `max_attempts` attempts. If no
/// attempt within the budget ends the search, the number is not found.
/// Otherwise the first attempt that ends it decides: the number was found at
/// that attempt, or the chain looped.
pub open spec fn search_outcome(boxes: Seq<usize>, target: int, max_attempts: usize)
    -> SearchResult {
    if stops_within(boxes, target, max_attempts) {
        let k = choose|k: int| #[trigger]
            first_stop(boxes, target, k) && k <= budget(max_attempts);
        if follow(boxes, target, k as nat) == target {
            SearchResult::Found(k as usize)
        } else {
            SearchResult::Looped
        }
    } else {
        SearchResult::NotFound
    }
}

/// The number of boxes that the search for `target` opens: up to the first
/// attempt that ends it, or the whole budget where none does.
pub open spec fn probes(boxes: Seq<usize>, target: int, max_attempts: usize) -> int {
    if stops_within(boxes, target, max_attempts) {
        choose|k: int| #[trigger] first_stop(boxes, target, k) && k <= budget(max_attempts)
    } else {
        budget(max_attempts)
    }
}

/// At most one attempt is the first to end a search.
pub proof fn lemma_first_stop_unique(boxes: Seq<usize>, target: int, a: int, b: int)
    requires
        first_stop(boxes, target, a),
        first_stop(boxes, target, b),
    ensures
        a == b,
{
    if a < b {
        assert(stops_at(boxes, target, a));
    } else if b < a {
        assert(stops_at(boxes, target, b));
    }
}

/// Where attempt `k` within the budget is the first to end the search, the
/// outcome is decided there, after exactly `k` boxes.
pub proof fn lemma_outcome_at_first_stop(
    boxes: Seq<usize>,
    target: int,
    max_attempts: usize,
    k: int,
)
    requires
        first_stop(boxes, target, k),
        k <= budget(max_attempts),
    ensures
        probes(boxes, target, max_attempts) == k,
        follow(boxes, target, k as nat) == target ==> search_outcome(boxes, target, max_attempts)
            == SearchResult::Found(k as usize),
        follow(boxes, target, k as nat) != target ==> search_outcome(boxes, target, max_attempts)
            == SearchResult::Looped,
{
    assert(stops_within(boxes, target, max_attempts));
    let c = choose|c: int| #[trigger] first_stop(boxes, target, c) && c <= budget(max_attempts);
    lemma_first_stop_unique(boxes, target, c, k);
}

/// Where no attempt within the budget ends the search, the number is not
/// found and the whole budget is spent.
pub proof fn lemma_outcome_without_stop(boxes: Seq<usize>, target: int, max_attempts: usize)
    requires
        forall|j: int| 1 <= j <= budget(max_attempts) ==> !#[trigger] stops_at(boxes, target, j),
    ensures
        search_outcome(boxes, target, max_attempts) == SearchResult::NotFound,
        probes(boxes, target, max_attempts) == budget(max_attempts),
{
    assert forall|k: int| #[trigger]
        first_stop(boxes, target, k) implies k > budget(max_attempts) by {
        if k <= budget(max_attempts) {
            assert(stops_at(boxes, target, k));
        }
    }
}

/// Every number seen on the chain is the number of a box.
pub proof fn lemma_follow_in_bounds(boxes: Seq<usize>, start: int, k: nat)
    requires
        in_bounds(boxes),
        0 <= start < boxes.len(),
    ensures
        0 <= follow(boxes, start, k) < boxes.len(),
    decreases k,
{
    if k > 0 {
        lemma_follow_in_bounds(boxes, start, (k - 1) as nat);
    }
}

/// The cycle through `target` has length `len`: following the boxes from
/// `target` leads back to `target` after `len` boxes and not before.
pub open spec fn cycle_length_is(boxes: Seq<usize>, target: int, len: int) -> bool {
    &&& len >= 1
    &&& follow(boxes, target, len as nat) == target
    &&& forall|j: int| 1 <= j < len ==> #[trigger] follow(boxes, target, j as nat) != target
}

/// In a row that holds each number exactly once, a chain that sees one number
/// at two attempts `a < b` is back at its start after `b - a` boxes.
pub proof fn lemma_permutation_chain_returns(boxes: Seq<usize>, target: int, a: nat, b: nat)
    requires
        is_permutation(boxes),
        0 <= target < boxes.len(),
        a < b,
        follow(boxes, target, a) == follow(boxes, target, b),
    ensures
        follow(boxes, target, (b - a) as nat) == target,
    decreases a,
{
    if a > 0 {
        lemma_follow_in_bounds(boxes, target, (a - 1) as nat);
        lemma_follow_in_bounds(boxes, target, (b - 1) as nat);
        lemma_permutation_chain_returns(boxes, target, (a - 1) as nat, (b - 1) as nat);
    }
}

/// Where the chain is back at `target` after `back` boxes, the cycle through
/// `target` has a length, and it is at most `back`.
pub proof fn lemma_return_gives_cycle_length(boxes: Seq<usize>, target: int, back: int)
    requires
        back >= 1,
        follow(boxes, target, back as nat) == target,
    ensures
        exists|len: int| len <= back && #[trigger] cycle_length_is(boxes, target, len),
    decreases back,
{
    if exists|j: int| 1 <= j < back && #[trigger] follow(boxes, target, j as nat) == target {
        let j = choose|j: int| 1 <= j < back && #[trigger] follow(boxes, target, j as nat)
            == target;
        lemma_return_gives_cycle_length(boxes, target, j);
    } else {
        assert(cycle_length_is(boxes, target, back));
    }
}

/// In a row that holds each number exactly once, every number lies on a
/// cycle, and no cycle is longer than the row.
pub proof fn lemma_permutation_cycle_exists(boxes: Seq<usize>, target: int)
    requires
        is_permutation(boxes),
        0 <= target < boxes.len(),
    ensures
        exists|len: int| len <= boxes.len() && #[trigger] cycle_length_is(boxes, target, len),
{
    let n = boxes.len() as int;
    if forall|r: int| 1 <= r <= n ==> #[trigger] follow(boxes, target, r as nat) != target {
        // Then the first n + 1 numbers of the chain differ from each other,
        // which is one more than there are boxes.
        let chain = Seq::new((n + 1) as nat, |k: int| follow(boxes, target, k as nat));
        assert forall|a: int, b: int| 0 <= a < b < chain.len() implies chain[a] != chain[b] by {
            if chain[a] == chain[b] {
                lemma_permutation_chain_returns(boxes, target, a as nat, b as nat);
                assert(follow(boxes, target, (b - a) as nat) == target);
            }
        }
        assert(chain.no_duplicates());
        chain.unique_seq_to_set();
        lemma_int_range(0, n);
        assert forall|v: int| chain.to_set().contains(v) implies set_int_range(0, n).contains(
            v,
        ) by {
            let k = choose|k: int| 0 <= k < chain.len() && chain[k] == v;
            lemma_follow_in_bounds(boxes, target, k as nat);
        }
        lemma_len_subset(chain.to_set(), set_int_range(0, n));
        assert(false);
    } else {
        let r = choose|r: int| 1 <= r <= n && #[trigger] follow(boxes, target, r as nat)
            == target;
        lemma_return_gives_cycle_length(boxes, target, r);
    }
}

/// In a row that holds each number exactly once, where the cycle through
/// `target` has length `len`, `len` is the first attempt that ends the search.
pub proof fn lemma_cycle_length_is_first_stop(boxes: Seq<usize>, target: int, len: int)
    requires
        is_permutation(boxes),
        0 <= target < boxes.len(),
        cycle_length_is(boxes, target, len),
    ensures
        first_stop(boxes, target, len),
{
    assert forall|j: int| 1 <= j < len implies !#[trigger] stops_at(boxes, target, j) by {
        assert(follow(boxes, target, j as nat) != target);
        if j >= 2 && follow(boxes, target, j as nat) == follow(boxes, target, 1) {
            lemma_permutation_chain_returns(boxes, target, 1, j as nat);
            assert(follow(boxes, target, (j - 1) as nat) != target);
        }
    }
}

/// In a row that holds each number exactly once, where the
/// cycle through `target` has length `len` and `len` attempts are allowed,
/// the search finds the number at attempt `len`, after `len` boxes.
pub proof fn lemma_search_finds_cycle(
    boxes: Seq<usize>,
    target: int,
    len: int,
    max_attempts: usize,
)
    requires
        is_permutation(boxes),
        0 <= target < boxes.len(),
        cycle_length_is(boxes, target, len),
        len <= max_attempts,
    ensures
        search_outcome(boxes, target, max_attempts) == SearchResult::Found(len as usize),
        probes(boxes, target, max_attempts) == len,
{
    lemma_cycle_length_is_first_stop(boxes, target, len);
    lemma_outcome_at_first_stop(boxes, target, max_attempts, len);
}

/// In a row that holds each number exactly once, where the cycle through
/// `target` is longer than the budget, the number is not found.
pub proof fn lemma_search_misses_long_cycle(
    boxes: Seq<usize>,
    target: int,
    len: int,
    max_attempts: usize,
)
    requires
        is_permutation(boxes),
        0 <= target < boxes.len(),
        cycle_length_is(boxes, target, len),
        len > budget(max_attempts),
    ensures
        search_outcome(boxes, target, max_attempts) == SearchResult::NotFound,
{
    lemma_cycle_length_is_first_stop(boxes, target, len);
    lemma_outcome_without_stop(boxes, target, max_attempts);
}

/// In a row that holds each number exactly once no search loops: the chain
/// passes the number looked for before it can come back to the number seen
/// first. Folding the looped outcome into the not-found one therefore changes
/// no outcome on such rows.
pub proof fn lemma_permutation_never_loops(boxes: Seq<usize>, target: int, max_attempts: usize)
    requires
        is_permutation(boxes),
        0 <= target < boxes.len(),
    ensures
        search_outcome(boxes, target, max_attempts) != SearchResult::Looped,
{
    if stops_within(boxes, target, max_attempts) {
        let k = choose|k: int| #[trigger]
            first_stop(boxes, target, k) && k <= budget(max_attempts);
        if follow(boxes, target, k as nat) != target {
            lemma_permutation_chain_returns(boxes, target, 1, k as nat);
            assert(stops_at(boxes, target, k - 1));
        }
    }
}

/// With at least one attempt allowed, the search opens at least one box and
/// never more than `max_attempts`, and where it finds the number, the attempt
/// it reports is the number of boxes it opened.
pub proof fn lemma_search_bounded(boxes: Seq<usize>, target: int, max_attempts: usize)
    requires
        max_attempts >= 1,
    ensures
        1 <= probes(boxes, target, max_attempts) <= max_attempts,
        search_outcome(boxes, target, max_attempts) matches SearchResult::Found(k) ==> k
            == probes(boxes, target, max_attempts),
{
    if stops_within(boxes, target, max_attempts) {
        let k = choose|k: int| #[trigger]
            first_stop(boxes, target, k) && k <= budget(max_attempts);
        assert(stops_at(boxes, target, k));
    }
}

/// Searches for a number given the Miltersen looping algorithm.
///
/// `boxes` are the boxes to loop through. `num` is the number we are looking
/// for. `n_attempts` is the number of attempts we make. The first box is
/// opened whatever `n_attempts` is.
pub fn search_number(boxes: &Vec<usize>, num: usize, n_attempts: usize) -> (result: SearchResult)
    requires
        num < boxes@.len(),
        in_bounds(boxes@),
    ensures
        result == search_outcome(boxes@, num as int, n_attempts),
        result matches SearchResult::Found(k) ==> 1 <= k <= budget(n_attempts) && probes(
            boxes@,
            num as int,
            n_attempts,
        ) == k && follow(boxes@, num as int, k as nat) == num,
        1 <= probes(boxes@, num as int, n_attempts) <= budget(n_attempts),
{
    // This is our first attempt to find the number
    let mut next_num = boxes[num];
    let first_num = next_num;
    let mut attempt: usize = 1;
    assert(follow(boxes@, num as int, 1) == boxes@[follow(boxes@, num as int, 0)]);
    if next_num == num {
        proof {
            lemma_outcome_at_first_stop(boxes@, num as int, n_attempts, 1);
        }
        return SearchResult::Found(attempt);
    }
    // This is the rest of the attempts

    while attempt < n_attempts
        invariant
            1 <= attempt <= budget(n_attempts),
            num < boxes@.len(),
            in_bounds(boxes@),
            next_num < boxes@.len(),
            next_num == follow(boxes@, num as int, attempt as nat),
            first_num == follow(boxes@, num as int, 1),
            forall|j: int| 1 <= j <= attempt ==> !#[trigger] stops_at(boxes@, num as int, j),
        decreases n_attempts - attempt,
    {
        // Go to the next number
        next_num = boxes[next_num];
        attempt += 1;

        // We found the number we are looking for
        if next_num == num {
            proof {
                lemma_outcome_at_first_stop(boxes@, num as int, n_attempts, attempt as int);
            }
            return SearchResult::Found(attempt);
        }
        // We got back to our first attempt but didn't find our number

        if next_num == first_num {
            proof {
                lemma_outcome_at_first_stop(boxes@, num as int, n_attempts, attempt as int);
            }
            return SearchResult::Looped;
        }
    }

    proof {
        lemma_outcome_without_stop(boxes@, num as int, n_attempts);
    }
    SearchResult::NotFound
}

} // verus!
