//! The xorshift64 generator and the shuffle it drives.

use vstd::prelude::*;

verus! {

/// One update of the generator state: three self-XOR-shifts, each applied to
/// the result of the one before.
pub open spec fn xorshift_step(s: u64) -> u64 {
    let a = s ^ (s << 13);
    let b = a ^ (a >> 17);
    b ^ (b << 43)
}

/// The state reached from `seed` after `k` draws. It is also the value that
/// draw number `k` (counting from zero) returns.
pub open spec fn nth_state(seed: u64, k: nat) -> u64
    decreases k,
{
    if k == 0 {
        seed
    } else {
        xorshift_step(nth_state(seed, (k - 1) as nat))
    }
}

/// The position that a drawn value selects in a row of `n` items: the value,
/// cut to the machine's word size, modulo `n`.
pub open spec fn pick(r: u64, n: usize) -> int
    recommends
        n > 0,
{
    ((r as usize) % n) as int
}

/// `s` with the items at positions `i` and `j` exchanged.
pub open spec fn swapped(s: Seq<usize>, i: int, j: int) -> Seq<usize>
    recommends
        0 <= i < s.len(),
        0 <= j < s.len(),
{
    s.update(i, s[j]).update(j, s[i])
}

/// `s` after the first `k` steps of the shuffle driven from `state`: step `i`
/// exchanges position `i` with the position picked by draw number `i`, which
/// ranges over the whole row at every step.
pub open spec fn shuffle_steps(s: Seq<usize>, state: u64, k: nat) -> Seq<usize>
    decreases k,
{
    if k == 0 {
        s
    } else {
        swapped(
            shuffle_steps(s, state, (k - 1) as nat),
            k - 1,
            pick(nth_state(state, (k - 1) as nat), s.len() as usize),
        )
    }
}

/// `s` after the complete shuffle driven from `state`: one step per position.
pub open spec fn shuffled(s: Seq<usize>, state: u64) -> Seq<usize> {
    shuffle_steps(s, state, s.len())
}

/// Exchanging two items rearranges a row without adding or losing any.
pub proof fn lemma_swapped_rearranges(s: Seq<usize>, i: int, j: int)
    requires
        0 <= i < s.len(),
        0 <= j < s.len(),
    ensures
        swapped(s, i, j).len() == s.len(),
        swapped(s, i, j).to_multiset() == s.to_multiset(),
{
    broadcast use vstd::seq_lib::to_multiset_update;
    broadcast use vstd::multiset::group_multiset_axioms;

    let mid = s.update(i, s[j]);
    assert(mid.to_multiset() == s.to_multiset().insert(s[j]).remove(s[i]));
    assert(mid[j] == s[j]);
    assert(swapped(s, i, j).to_multiset() == mid.to_multiset().insert(s[i]).remove(s[j]));
    let m = s.to_multiset();
    assert(m.count(s[i]) > 0 && m.count(s[j]) > 0) by {
        broadcast use vstd::seq_lib::to_multiset_contains;
        assert(s.contains(s[i]) && s.contains(s[j]));
    }
    assert(m.insert(s[j]).remove(s[i]).insert(s[i]).remove(s[j]) =~= m);
}

/// Every prefix of the shuffle keeps the row's length and rearranges its
/// items: nothing is added and nothing is lost.
pub proof fn lemma_shuffle_steps_rearranges(s: Seq<usize>, state: u64, k: nat)
    requires
        k <= s.len(),
        s.len() <= usize::MAX,
    ensures
        shuffle_steps(s, state, k).len() == s.len(),
        shuffle_steps(s, state, k).to_multiset() == s.to_multiset(),
    decreases k,
{
    if k > 0 {
        let before = shuffle_steps(s, state, (k - 1) as nat);
        lemma_shuffle_steps_rearranges(s, state, (k - 1) as nat);
        lemma_pick_in_range(nth_state(state, (k - 1) as nat), s.len() as usize);
        lemma_swapped_rearranges(
            before,
            k - 1,
            pick(nth_state(state, (k - 1) as nat), s.len() as usize),
        );
    }
}

/// A picked position lies inside the row.
pub proof fn lemma_pick_in_range(r: u64, n: usize)
    requires
        n > 0,
    ensures
        0 <= pick(r, n) < n,
{
}

/// The seed 0 is a fixed point of the generator: every state reached from it,
/// and so every value drawn, is 0.
pub proof fn lemma_zero_seed_stays_zero(k: nat)
    ensures
        nth_state(0, k) == 0,
    decreases k,
{
    if k > 0 {
        lemma_zero_seed_stays_zero((k - 1) as nat);
        assert(xorshift_step(0) == 0) by (bit_vector);
    }
}

/// A pseudo-random number generator whose whole state is one 64-bit word.
///
/// The seed 0 is a fixed point: every draw returns 0 and leaves the state 0.
pub struct Rng(u64);

impl View for Rng {
    type V = u64;

    closed spec fn view(&self) -> u64 {
        self.0
    }
}

impl Rng {
    /// Creates a new seeded PRNG
    pub fn new(seed: u64) -> (rng: Self)
        ensures
            rng@ == seed,
    {
        Self(seed)
    }

    /// Returns the next pseudo-randomly generated number
    pub fn rand(&mut self) -> (ret: u64)
        ensures
            ret == old(self)@,
            final(self)@ == xorshift_step(old(self)@),
    {
        let ret = self.0;
        self.0 ^= self.0 << 13;
        self.0 ^= self.0 >> 17;
        self.0 ^= self.0 << 43;
        ret
    }

    /// Shuffle a vector in place
    pub fn shuffle(&mut self, vector: &mut Vec<usize>)
        ensures
            final(vector)@ == shuffled(old(vector)@, old(self)@),
            final(vector)@.len() == old(vector)@.len(),
            final(vector)@.to_multiset() == old(vector)@.to_multiset(),
            final(self)@ == nth_state(old(self)@, old(vector)@.len()),
    {
        let ghost start = vector@;
        let ghost seed = self@;
        let n_shuffles = vector.len();
        for i in 0..n_shuffles
            invariant
                n_shuffles == start.len(),
                vector@ == shuffle_steps(start, seed, i as nat),
                vector@.len() == start.len(),
                self@ == nth_state(seed, i as nat),
        {
            #[verifier::truncate]
            let random_idx: usize = self.rand() as usize % n_shuffles;
            let temp = vector[i];
            vector[i] = vector[random_idx];
            vector[random_idx] = temp;
        }
        proof {
            lemma_shuffle_steps_rearranges(start, seed, n_shuffles as nat);
        }
    }
}

} // verus!
