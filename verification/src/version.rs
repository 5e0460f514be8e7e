//! Resource versions of the in-memory directory: a counter written in
//! decimal.
//!
//! The version after `version` is the decimal writing of the number that
//! `version` reads as, plus one (zero after the largest number); a version
//! that does not read as a number counts as zero.
use crate::decimal::{decimal, format_counter, lemma_parse_of_decimal, parse_counter, read_counter};
use vstd::prelude::*;

verus! {

/// The number that follows `n`, starting over after the largest.
pub open spec fn wrapping_successor(n: u64) -> u64 {
    if n == u64::MAX {
        0
    } else {
        (n + 1) as u64
    }
}

/// The version that follows `version`.
pub open spec fn successor(version: Seq<char>) -> Seq<char> {
    decimal(wrapping_successor(counter_of(version)) as nat)
}

/// The version that `steps` moves of the counter lead to from `version`.
pub open spec fn successor_n(version: Seq<char>, steps: nat) -> Seq<char>
    decreases steps,
{
    if steps == 0 {
        version
    } else {
        successor(successor_n(version, (steps - 1) as nat))
    }
}

/// The number that `version` counts as.
pub open spec fn counter_of(version: Seq<char>) -> u64 {
    match parse_counter(version) {
        Some(n) => n,
        None => 0,
    }
}

/// `n` moved on by `steps`, starting over after the largest number.
pub open spec fn wrapping_sum(n: u64, steps: nat) -> u64 {
    if n + steps <= u64::MAX {
        (n + steps) as u64
    } else {
        (n + steps - u64::MAX - 1) as u64
    }
}

/// After at least one move the version is the decimal writing of the
/// counter moved on by as many steps.
pub proof fn lemma_successor_n_counts(version: Seq<char>, steps: nat)
    requires
        0 < steps <= u64::MAX,
    ensures
        successor_n(version, steps) == decimal(
            wrapping_sum(counter_of(version), steps) as nat,
        ),
    decreases steps,
{
    if steps == 1 {
        assert(successor_n(version, 0) == version);
    } else {
        lemma_successor_n_counts(version, (steps - 1) as nat);
        lemma_parse_of_decimal(wrapping_sum(counter_of(version), (steps - 1) as nat));
    }
}

/// A version does not come back before the counter has gone round: fewer
/// than 2^64 moves lead to another version.
pub proof fn lemma_successor_n_differs(version: Seq<char>, steps: nat)
    requires
        0 < steps <= u64::MAX,
    ensures
        successor_n(version, steps) != version,
{
    lemma_successor_n_counts(version, steps);
    lemma_parse_of_decimal(wrapping_sum(counter_of(version), steps));
}

/// A version never equals the one that follows it.
pub proof fn lemma_successor_differs(version: Seq<char>)
    ensures
        successor(version) != version,
{
    assert(successor_n(version, 1) == successor(successor_n(version, 0)));
    lemma_successor_n_differs(version, 1);
}

/// Nor does it equal the one after that.
pub proof fn lemma_successor_twice_differs(version: Seq<char>)
    ensures
        successor(successor(version)) != version,
{
    assert(successor_n(version, 1) == successor(successor_n(version, 0)));
    assert(successor_n(version, 2) == successor(successor_n(version, 1)));
    lemma_successor_n_differs(version, 2);
}

/// The version that follows `version`.
pub fn next_version(version: &str) -> (next: String)
    ensures
        next@ == successor(version@),
        next@ != version@,
{
    proof {
        lemma_successor_differs(version@);
    }
    let current: u64 = match read_counter(version) {
        Some(n) => n,
        None => 0,
    };
    format_counter(current.wrapping_add(1))
}

} // verus!
