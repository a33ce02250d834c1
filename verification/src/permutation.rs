//! Rows of boxes that hold each number exactly once, and how to build one
//! from a seed.

use vstd::prelude::*;
use crate::xorshift::{lemma_pick_in_range, nth_state, pick, shuffle_steps, shuffled, swapped, Rng};

verus! {

/// Every box of the row holds the number of some box of the row.
pub open spec fn in_bounds(boxes: Seq<usize>) -> bool {
    forall|i: int| 0 <= i < boxes.len() ==> #[trigger] boxes[i] < boxes.len()
}

/// The row holds each number below its length exactly once: every number it
/// holds is below its length, no two boxes hold the same number, and every
/// number below its length is in some box.
pub open spec fn is_permutation(boxes: Seq<usize>) -> bool {
    &&& in_bounds(boxes)
    &&& forall|i: int, j: int|
        0 <= i < boxes.len() && 0 <= j < boxes.len() && i != j ==> #[trigger] boxes[i]
            != #[trigger] boxes[j]
    &&& forall|v: int| 0 <= v < boxes.len() ==> #[trigger] occurs(boxes, v)
}

/// Some box of the row holds the number `v`.
pub open spec fn occurs(boxes: Seq<usize>, v: int) -> bool {
    exists|i: int| 0 <= i < boxes.len() && #[trigger] boxes[i] == v
}

/// The row in which box `i` holds the number `i`.
pub open spec fn identity(n: nat) -> Seq<usize> {
    Seq::new(n, |i: int| i as usize)
}

/// The row of `n` boxes that the seed determines: the identity row, shuffled
/// by a generator started at `seed`.
pub open spec fn built(n: nat, seed: u64) -> Seq<usize> {
    shuffled(identity(n), seed)
}

/// The identity row holds each number exactly once.
pub proof fn lemma_identity_is_permutation(n: nat)
    requires
        n <= usize::MAX,
    ensures
        is_permutation(identity(n)),
{
    let s = identity(n);
    assert forall|v: int| 0 <= v < s.len() implies #[trigger] occurs(s, v) by {
        assert(s[v] == v);
    }
}

/// Exchanging two boxes of a row that holds each number exactly once gives
/// another such row.
pub proof fn lemma_swapped_is_permutation(boxes: Seq<usize>, i: int, j: int)
    requires
        is_permutation(boxes),
        0 <= i < boxes.len(),
        0 <= j < boxes.len(),
    ensures
        is_permutation(swapped(boxes, i, j)),
{
    let after = swapped(boxes, i, j);
    assert(after.len() == boxes.len());
    assert forall|v: int| 0 <= v < after.len() implies #[trigger] occurs(after, v) by {
        assert(occurs(boxes, v));
        let b = choose|b: int| 0 <= b < boxes.len() && #[trigger] boxes[b] == v;
        let a = if b == i {
            j
        } else if b == j {
            i
        } else {
            b
        };
        assert(after[a] == v);
    }
}

/// Every prefix of a shuffle of a row that holds each number exactly once is
/// again such a row, whatever the state the generator starts from.
pub proof fn lemma_shuffle_steps_is_permutation(boxes: Seq<usize>, state: u64, k: nat)
    requires
        is_permutation(boxes),
        k <= boxes.len(),
        boxes.len() <= usize::MAX,
    ensures
        shuffle_steps(boxes, state, k).len() == boxes.len(),
        is_permutation(shuffle_steps(boxes, state, k)),
    decreases k,
{
    if k > 0 {
        lemma_shuffle_steps_is_permutation(boxes, state, (k - 1) as nat);
        lemma_pick_in_range(nth_state(state, (k - 1) as nat), boxes.len() as usize);
        lemma_swapped_is_permutation(
            shuffle_steps(boxes, state, (k - 1) as nat),
            k - 1,
            pick(nth_state(state, (k - 1) as nat), boxes.len() as usize),
        );
    }
}

/// For every size and every seed, the row built from the seed has that size
/// and holds each number below it exactly once.
pub proof fn lemma_built_is_permutation(n: nat, seed: u64)
    requires
        n <= usize::MAX,
    ensures
        built(n, seed).len() == n,
        is_permutation(built(n, seed)),
{
    lemma_identity_is_permutation(n);
    lemma_shuffle_steps_is_permutation(identity(n), seed, n);
}

/// Creates the boxes for `n` prisoners and randomizes them from `seed`.
pub fn build(n: usize, seed: u64) -> (boxes: Vec<usize>)
    ensures
        boxes@ == built(n as nat, seed),
        boxes@.len() == n,
        is_permutation(boxes@),
{
    let mut rng = Rng::new(seed);
    let mut boxes: Vec<usize> = Vec::with_capacity(n);
    for i in 0..n
        invariant
            boxes@ == identity(i as nat),
    {
        boxes.push(i);
        assert(boxes@ =~= identity((i + 1) as nat));
    }
    rng.shuffle(&mut boxes);
    proof {
        lemma_built_is_permutation(n as nat, seed);
    }
    boxes
}

} // verus!
