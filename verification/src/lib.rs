//! The "100 prisoners" puzzle: a seeded shuffle of numbered boxes and the
//! loop-following search that each prisoner runs over them.
//!
//! Every executable function carries a contract over a mathematical model of
//! its data: the generator is its 64-bit state, a row of boxes is the sequence
//! of the numbers inside them, and a search is described by the chain of boxes
//! it opens.

pub mod xorshift;
pub mod permutation;
pub mod search;
pub mod seeds;
