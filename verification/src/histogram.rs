//! The distribution of register values: how often each value occurs.

use vstd::prelude::*;
use std::collections::BTreeMap;
use crate::estimate::{lemma_occurrences_bounded, occurrences};

verus! {

/// The distribution of a register array: every value that occurs, mapped
/// to the number of registers that hold it. A value that no register holds
/// has no entry.
pub open spec fn distribution_of(registers: Seq<u8>) -> Map<u8, usize> {
    Map::new(
        |value: u8| occurrences(registers, value) > 0,
        |value: u8| occurrences(registers, value) as usize,
    )
}

/// Counts how often each value occurs among the registers.
pub fn value_distribution(registers: &[u8]) -> (counts: BTreeMap<u8, usize>)
    ensures
        counts@ == distribution_of(registers@),
{
    let mut counts: BTreeMap<u8, usize> = BTreeMap::new();
    assert(counts@ =~= distribution_of(registers@.take(0)));
    let mut i: usize = 0;
    while i < registers.len()
        invariant
            i <= registers.len(),
            counts@ == distribution_of(registers@.take(i as int)),
        decreases registers.len() - i,
    {
        let value = registers[i];
        proof {
            assert(registers@.take(i + 1).drop_last() == registers@.take(i as int));
            lemma_occurrences_bounded(registers@.take(i as int), value);
        }
        let seen: usize = match counts.get(&value) {
            Some(count) => *count,
            None => 0,
        };
        counts.insert(value, seen + 1);
        assert(counts@ =~= distribution_of(registers@.take(i + 1)));
        i += 1;
    }
    assert(registers@.take(i as int) == registers@);
    counts
}

} // verus!
