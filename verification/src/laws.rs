//! What holds of every sketch and every sequence of insertions.

use vstd::prelude::*;
use vstd::arithmetic::power2::{
    pow2, lemma2_to64, lemma_pow2_strictly_increases, lemma_pow2_unfold,
};
use crate::bits::{bit_length, lemma_bit_length_fits};
use crate::estimate::{
    alpha_denominator, alpha_numerator, inverse_power, inverse_power_sum,
    lemma_register_count_values, raw_denominator, raw_numerator, register_count,
    valid_precision, zero_registers, Estimator, Ratio,
};
use crate::estimate::{lemma_occurrences_bounded, occurrences};
use crate::histogram::distribution_of;
use crate::model::{lemma_rank_bounds, lemma_register_index, rank, register_index, Sketch};

verus! {

/// A non-zero value lies between the two powers of two that its bit length
/// names, so its bit length is the position of its highest set bit.
pub proof fn lemma_bit_length_bounds(s: u64)
    requires
        s > 0,
    ensures
        1 <= bit_length(s) <= 64,
        pow2((bit_length(s) - 1) as nat) <= s < pow2(bit_length(s)),
    decreases s,
{
    lemma2_to64();
    lemma_bit_length_fits(s, 64);
    if s == 1 {
        assert(bit_length(0) == 0);
    } else {
        lemma_bit_length_bounds(s / 2);
        lemma_pow2_unfold(bit_length(s));
        lemma_pow2_unfold(bit_length(s / 2));
    }
}

/// An insertion keeps a sketch well formed.
pub proof fn lemma_insert_preserves_wf(sketch: Sketch, hash: u64)
    requires
        sketch.wf(),
    ensures
        sketch.insert_hash(hash).wf(),
{
    lemma_register_index(hash, sketch.precision);
    lemma_rank_bounds(hash, sketch.precision);
}

/// An insertion touches one register only, the one that the hash selects,
/// and leaves it at the larger of its old value and the hash's rank.
pub proof fn lemma_insert_raises_one_register(sketch: Sketch, hash: u64)
    requires
        sketch.wf(),
    ensures
        ({
            let after = sketch.insert_hash(hash);
            let j = register_index(hash, sketch.precision);
            let r = rank(hash, sketch.precision);
            &&& after.registers.len() == sketch.registers.len()
            &&& after.registers[j] == if sketch.registers[j] < r {
                r
            } else {
                sketch.registers[j] as int
            }
            &&& forall|i: int|
                0 <= i < sketch.registers.len() && i != j ==> after.registers[i]
                    == sketch.registers[i]
        }),
{
    lemma_register_index(hash, sketch.precision);
    lemma_rank_bounds(hash, sketch.precision);
}

/// Inserting a hash a second time changes nothing.
pub proof fn lemma_insert_idempotent(sketch: Sketch, hash: u64)
    requires
        sketch.wf(),
    ensures
        sketch.insert_hash(hash).insert_hash(hash) == sketch.insert_hash(hash),
{
    lemma_register_index(hash, sketch.precision);
    lemma_rank_bounds(hash, sketch.precision);
}

/// An insertion never lowers a register.
pub proof fn lemma_insert_never_lowers(sketch: Sketch, hash: u64)
    requires
        sketch.wf(),
    ensures
        sketch.insert_hash(hash).never_below(sketch),
{
    lemma_register_index(hash, sketch.precision);
    lemma_rank_bounds(hash, sketch.precision);
}

/// Over any sequence of insertions every register is non-decreasing: the
/// state after the first `k` insertions is never above the state after all
/// of them, and every state on the way is well formed.
pub proof fn lemma_insertions_never_lower(sketch: Sketch, hashes: Seq<u64>, k: int)
    requires
        sketch.wf(),
        0 <= k <= hashes.len(),
    ensures
        sketch.insert_hashes(hashes).wf(),
        sketch.insert_hashes(hashes).never_below(sketch.insert_hashes(hashes.take(k))),
    decreases hashes.len(),
{
    if hashes.len() == 0 {
        assert(hashes.take(k) == hashes);
    } else {
        let before = sketch.insert_hashes(hashes.drop_last());
        assert(sketch.insert_hashes(hashes) == before.insert_hash(hashes.last()));
        if k == hashes.len() {
            assert(hashes.take(k) == hashes);
            lemma_insertions_never_lower(sketch, hashes.drop_last(), 0);
            lemma_insert_preserves_wf(before, hashes.last());
        } else {
            assert(hashes.drop_last().take(k) == hashes.take(k));
            lemma_insertions_never_lower(sketch, hashes.drop_last(), k);
            lemma_insert_preserves_wf(before, hashes.last());
            lemma_insert_never_lowers(before, hashes.last());
        }
    }
}

/// The estimate is a function of the precision and the registers alone:
/// two sketches that agree on both have the same estimate, whatever their
/// hash keys, and reading the estimate twice gives the same result.
pub proof fn lemma_estimate_determined_by_registers(a: Sketch, b: Sketch)
    requires
        a.precision == b.precision,
        a.registers == b.registers,
    ensures
        a.estimator() == b.estimator(),
        a.cardinality() == b.cardinality(),
        a.zero_registers() == b.zero_registers(),
{
}

/// A fresh sketch is well formed, has one zero register per index, and is
/// read by linear counting with every register still empty.
pub proof fn lemma_empty_sketch(precision: u8, keys: (u64, u64))
    requires
        valid_precision(precision),
    ensures
        Sketch::empty(precision, keys).wf(),
        Sketch::empty(precision, keys).registers.len() == register_count(precision),
        forall|i: int|
            0 <= i < register_count(precision) ==> Sketch::empty(precision, keys).registers[i]
                == 0,
        Sketch::empty(precision, keys).zero_registers() == register_count(precision),
        Sketch::empty(precision, keys).estimator() == Estimator::LinerCounting,
{
    let empty = Sketch::empty(precision, keys);
    lemma_register_count_values(precision);
    lemma2_to64();
    lemma_all_zero(empty.registers);
    let a = alpha_numerator(precision) as int;
    let d = alpha_denominator(precision) as int;
    let m = register_count(precision) as int;
    let p = pow2(64) as int;
    assert(2 * a < 5 * d);
    assert(2 * (a * m * m * p) < 5 * m * (d * (m * p))) by (nonlinear_arith)
        requires
            2 * a < 5 * d,
            0 <= a,
            0 < d,
            0 < m,
            0 < p,
    ;
}

/// An array of zeros counts every entry as a zero register and weighs each
/// with the full `2^64`.
pub proof fn lemma_all_zero(registers: Seq<u8>)
    requires
        forall|i: int| 0 <= i < registers.len() ==> registers[i] == 0,
    ensures
        zero_registers(registers) == registers.len(),
        inverse_power_sum(registers) == registers.len() * pow2(64),
    decreases registers.len(),
{
    lemma2_to64();
    if registers.len() > 0 {
        lemma_all_zero(registers.drop_last());
    }
}

/// A value occurs among the registers exactly when some register holds it.
pub proof fn lemma_occurs_iff_held(registers: Seq<u8>, value: u8)
    ensures
        occurrences(registers, value) > 0 <==> exists|i: int|
            0 <= i < registers.len() && registers[i] == value,
    decreases registers.len(),
{
    if registers.len() > 0 {
        let front = registers.drop_last();
        lemma_occurs_iff_held(front, value);
        if occurrences(registers, value) > 0 {
            if registers.last() == value {
                assert(registers[registers.len() - 1] == value);
            } else {
                let i = choose|i: int| 0 <= i < front.len() && front[i] == value;
                assert(registers[i] == value);
            }
        } else {
            assert forall|i: int| 0 <= i < registers.len() implies registers[i] != value by {
                if i < front.len() {
                    assert(front[i] == registers[i]);
                }
            }
        }
    }
}

/// The distribution has an entry for exactly the values that some register
/// holds, and the entry is the number of registers that hold the value.
pub proof fn lemma_distribution_entries(registers: Seq<u8>, value: u8)
    requires
        registers.len() <= usize::MAX,
    ensures
        distribution_of(registers).contains_key(value) <==> exists|i: int|
            0 <= i < registers.len() && registers[i] == value,
        distribution_of(registers).contains_key(value) ==> distribution_of(registers)[value]
            == occurrences(registers, value),
{
    lemma_occurs_iff_held(registers, value);
    lemma_occurrences_bounded(registers, value);
}

/// The distribution of a fresh sketch has one entry: the value zero, held
/// by every register.
pub proof fn lemma_fresh_distribution(precision: u8, keys: (u64, u64))
    requires
        valid_precision(precision),
    ensures
        distribution_of(Sketch::empty(precision, keys).registers) == Map::<u8, usize>::empty().insert(
            0u8,
            register_count(precision) as usize,
        ),
{
    let registers = Sketch::empty(precision, keys).registers;
    lemma_register_count_values(precision);
    lemma_all_zero(registers);
    assert forall|value: u8| value != 0 implies !distribution_of(registers).contains_key(
        value,
    ) by {
        lemma_occurs_iff_held(registers, value);
    }
    assert(distribution_of(registers) =~= Map::<u8, usize>::empty().insert(
        0u8,
        register_count(precision) as usize,
    ));
}

/// Raising registers never lowers the raw estimate: the harmonic sum of
/// the higher registers is no larger, so the fraction with the same
/// numerator over it is no smaller. The two fractions are compared by
/// multiplying across.
pub proof fn lemma_raw_estimate_never_lowers(
    alpha: Ratio,
    m: nat,
    lower: Seq<u8>,
    higher: Seq<u8>,
)
    requires
        lower.len() == higher.len(),
        forall|i: int|
            #![trigger lower[i]]
            #![trigger higher[i]]
            0 <= i < lower.len() ==> lower[i] <= higher[i] && higher[i] <= 64,
    ensures
        inverse_power_sum(higher) <= inverse_power_sum(lower),
        raw_denominator(alpha, higher) <= raw_denominator(alpha, lower),
        raw_numerator(alpha, m) * raw_denominator(alpha, higher) <= raw_numerator(alpha, m)
            * raw_denominator(alpha, lower),
    decreases lower.len(),
{
    if lower.len() > 0 {
        lemma_raw_estimate_never_lowers(alpha, m, lower.drop_last(), higher.drop_last());
        if lower.last() < higher.last() {
            lemma_pow2_strictly_increases((64 - higher.last()) as nat, (64 - lower.last()) as nat);
        }
        assert(inverse_power(higher.last()) <= inverse_power(lower.last()));
    }
    let d = alpha.denominator as int;
    let n = raw_numerator(alpha, m) as int;
    let hi = inverse_power_sum(higher) as int;
    let lo = inverse_power_sum(lower) as int;
    assert(d * hi <= d * lo && n * (d * hi) <= n * (d * lo)) by (nonlinear_arith)
        requires
            0 <= d,
            0 <= n,
            0 <= hi <= lo,
    ;
}

} // verus!
