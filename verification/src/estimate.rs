//! Reading a register array: how many registers are still empty, the exact
//! harmonic sum behind the raw estimate, and which of the two estimators
//! applies.

use vstd::prelude::*;
use vstd::arithmetic::power2::{pow2, lemma2_to64, lemma_pow2_pos, lemma_pow2_strictly_increases};
use vstd::bits::{lemma_u64_pow2_no_overflow, lemma_u64_shl_is_mul};
use crate::error::HllError;

verus! {

/// The smallest supported precision.
pub const MIN_PRECISION: u8 = 4;

/// The largest supported precision.
pub const MAX_PRECISION: u8 = 16;

/// Whether `precision` lies in the supported range.
pub open spec fn valid_precision(precision: u8) -> bool {
    MIN_PRECISION <= precision <= MAX_PRECISION
}

/// The number of registers of a sketch of the given precision.
pub open spec fn register_count(precision: u8) -> nat {
    pow2(precision as nat)
}

/// A non-negative fraction, kept as an exact pair of integers.
#[derive(Clone, Copy, Debug, PartialEq, Eq, Structural)]
pub struct Ratio {
    pub numerator: u128,
    pub denominator: u128,
}

/// The estimator that produced, or is to produce, a cardinality estimate.
#[derive(Clone, Copy, Debug, PartialEq, Eq, Structural)]
pub enum Estimator {
    /// The raw harmonic-mean estimate.
    HyperLogLog,
    /// Linear counting, used in the small range while registers are empty.
    LinerCounting,
}

/// How many entries of `registers` hold `value`.
pub open spec fn occurrences(registers: Seq<u8>, value: u8) -> nat
    decreases registers.len(),
{
    if registers.len() == 0 {
        0
    } else {
        occurrences(registers.drop_last(), value) + if registers.last() == value {
            1nat
        } else {
            0nat
        }
    }
}

/// How many registers have never been raised.
pub open spec fn zero_registers(registers: Seq<u8>) -> nat {
    occurrences(registers, 0)
}

/// A value cannot occur more often than there are registers.
pub proof fn lemma_occurrences_bounded(registers: Seq<u8>, value: u8)
    ensures
        occurrences(registers, value) <= registers.len(),
    decreases registers.len(),
{
    if registers.len() > 0 {
        lemma_occurrences_bounded(registers.drop_last(), value);
    }
}

/// Counts the registers that are zero.
pub fn count_zero_registers(registers: &[u8]) -> (count: usize)
    ensures
        count == zero_registers(registers@),
{
    let mut count: usize = 0;
    let mut i: usize = 0;
    while i < registers.len()
        invariant
            i <= registers.len(),
            count == zero_registers(registers@.take(i as int)),
            count <= i,
        decreases registers.len() - i,
    {
        assert(registers@.take(i + 1).drop_last() == registers@.take(i as int));
        if registers[i] == 0 {
            count += 1;
        }
        i += 1;
    }
    assert(registers@.take(i as int) == registers@);
    count
}

/// The numerator of the bias-correction constant. The three smallest
/// precisions have the tuned constants 0.673, 0.697 and 0.709; from
/// precision 7 on the constant is `0.7213 / (1 + 1.079 / m)` for `m`
/// registers, which is `7213 m / (10000 m + 10790)`.
pub open spec fn alpha_numerator(precision: u8) -> nat {
    if precision == 4 {
        673
    } else if precision == 5 {
        697
    } else if precision == 6 {
        709
    } else {
        7213 * register_count(precision)
    }
}

/// The denominator that goes with [`alpha_numerator`].
pub open spec fn alpha_denominator(precision: u8) -> nat {
    if precision <= 6 {
        1000
    } else {
        10000 * register_count(precision) + 10790
    }
}

/// The powers of two that a supported precision can select.
pub proof fn lemma_register_count_values(precision: u8)
    requires
        valid_precision(precision),
    ensures
        16 <= register_count(precision) <= 65536,
        precision == 4 ==> register_count(precision) == 16,
        precision == 5 ==> register_count(precision) == 32,
        precision == 6 ==> register_count(precision) == 64,
        precision == 7 ==> register_count(precision) == 128,
        precision == 8 ==> register_count(precision) == 256,
        precision == 9 ==> register_count(precision) == 512,
        precision == 10 ==> register_count(precision) == 1024,
        precision == 11 ==> register_count(precision) == 2048,
        precision == 12 ==> register_count(precision) == 4096,
        precision == 13 ==> register_count(precision) == 8192,
        precision == 14 ==> register_count(precision) == 16384,
        precision == 15 ==> register_count(precision) == 32768,
        precision == 16 ==> register_count(precision) == 65536,
{
    lemma2_to64();
}

/// The number of registers for a supported precision.
pub fn registers_for(precision: u8) -> (m: usize)
    requires
        valid_precision(precision),
    ensures
        m == register_count(precision),
{
    proof {
        lemma_register_count_values(precision);
        lemma_u64_shl_is_mul(1, precision as u64);
    }
    let m: u64 = 1u64 << precision;
    m as usize
}

/// The bias-correction constant for a supported precision, as an exact
/// fraction.
pub fn alpha_for(precision: u8) -> (alpha: Ratio)
    requires
        valid_precision(precision),
    ensures
        alpha.numerator == alpha_numerator(precision),
        alpha.denominator == alpha_denominator(precision),
{
    proof {
        lemma_register_count_values(precision);
    }
    match precision {
        4 => Ratio { numerator: 673, denominator: 1000 },
        5 => Ratio { numerator: 697, denominator: 1000 },
        6 => Ratio { numerator: 709, denominator: 1000 },
        _ => {
            let m: u128 = registers_for(precision) as u128;
            Ratio { numerator: 7213 * m, denominator: 10000 * m + 10790 }
        },
    }
}

/// The bias-correction constant for `b` bits of precision, as an exact
/// fraction, or `InvalidPrecision` where `b` is not between 4 and 16.
pub fn get_alpha(b: u8) -> (alpha: Result<Ratio, HllError>)
    ensures
        valid_precision(b) ==> alpha == Ok::<Ratio, HllError>(
            (Ratio {
                numerator: alpha_numerator(b) as u128,
                denominator: alpha_denominator(b) as u128,
            }),
        ),
        !valid_precision(b) ==> alpha == Err::<Ratio, HllError>(HllError::InvalidPrecision),
{
    if b < MIN_PRECISION || b > MAX_PRECISION {
        Err(HllError::InvalidPrecision)
    } else {
        proof {
            lemma_register_count_values(b);
        }
        Ok(alpha_for(b))
    }
}

/// `2^64` times `2^(-value)`: the weight with which a register of the given
/// value enters the harmonic sum, scaled to an integer.
pub open spec fn inverse_power(value: u8) -> nat {
    pow2((64 - value) as nat)
}

/// `2^64` times the sum of `2^(-r)` over all registers `r`.
pub open spec fn inverse_power_sum(registers: Seq<u8>) -> nat
    decreases registers.len(),
{
    if registers.len() == 0 {
        0
    } else {
        inverse_power_sum(registers.drop_last()) + inverse_power(registers.last())
    }
}

/// Whether every register holds a value whose scaled weight is an integer.
pub open spec fn registers_in_range(registers: Seq<u8>) -> bool {
    forall|i: int| 0 <= i < registers.len() ==> registers[i] <= 64
}

/// A register's scaled weight lies between one and `2^64`.
pub proof fn lemma_inverse_power_bounds(value: u8)
    requires
        value <= 64,
    ensures
        1 <= inverse_power(value) <= pow2(64),
        pow2(64) == 0x1_0000_0000_0000_0000,
{
    lemma2_to64();
    lemma_pow2_pos((64 - value) as nat);
    if value > 0 {
        lemma_pow2_strictly_increases((64 - value) as nat, 64);
    }
}

/// The scaled sum lies between the number of registers and `2^64` times
/// that number.
pub proof fn lemma_inverse_power_sum_bounds(registers: Seq<u8>)
    requires
        registers_in_range(registers),
    ensures
        registers.len() <= inverse_power_sum(registers) <= registers.len() * pow2(64),
    decreases registers.len(),
{
    lemma2_to64();
    if registers.len() > 0 {
        lemma_inverse_power_sum_bounds(registers.drop_last());
        lemma_inverse_power_bounds(registers.last());
    }
}

/// The scaled weight of one register.
pub fn scaled_inverse_power(value: u8) -> (weight: u128)
    requires
        value <= 64,
    ensures
        weight == inverse_power(value),
{
    if value == 0 {
        proof {
            lemma2_to64();
        }
        0x1_0000_0000_0000_0000u128
    } else {
        let shift: u64 = (64 - value) as u64;
        proof {
            lemma_u64_pow2_no_overflow(shift as nat);
            lemma_u64_shl_is_mul(1, shift);
        }
        (1u64 << shift) as u128
    }
}

/// The scaled harmonic sum of a register array.
pub fn scaled_harmonic_sum(registers: &[u8]) -> (sum: u128)
    requires
        registers_in_range(registers@),
    ensures
        sum == inverse_power_sum(registers@),
{
    let mut sum: u128 = 0;
    let mut i: usize = 0;
    while i < registers.len()
        invariant
            i <= registers.len(),
            registers_in_range(registers@),
            sum == inverse_power_sum(registers@.take(i as int)),
            sum <= i * 0x1_0000_0000_0000_0000,
        decreases registers.len() - i,
    {
        proof {
            assert(registers@.take(i + 1).drop_last() == registers@.take(i as int));
            lemma_inverse_power_bounds(registers[i as int]);
        }
        sum += scaled_inverse_power(registers[i]);
        i += 1;
    }
    assert(registers@.take(i as int) == registers@);
    sum
}

/// An estimate in exact terms: either the raw estimate as a fraction, or
/// the two counts that linear counting works on.
#[derive(Clone, Copy, Debug, PartialEq, Eq, Structural)]
pub enum Cardinality {
    /// The raw estimate `alpha * m^2 / sum of 2^(-r)`.
    Raw(Ratio),
    /// Linear counting: the estimate is `registers * ln(registers / zero_registers)`.
    Linear { registers: usize, zero_registers: usize },
}

/// The numerator of the raw estimate `alpha * m^2 / sum of 2^(-r)`, with
/// numerator and denominator both scaled by `2^64`.
pub open spec fn raw_numerator(alpha: Ratio, m: nat) -> nat {
    alpha.numerator as nat * m * m * pow2(64)
}

/// The denominator that goes with [`raw_numerator`].
pub open spec fn raw_denominator(alpha: Ratio, registers: Seq<u8>) -> nat {
    alpha.denominator as nat * inverse_power_sum(registers)
}

/// Whether the raw estimate lies below the small-range threshold of two
/// and a half times the number of registers.
pub open spec fn in_small_range(alpha: Ratio, m: nat, registers: Seq<u8>) -> bool {
    2 * raw_numerator(alpha, m) < 5 * m * raw_denominator(alpha, registers)
}

/// The estimator that applies: linear counting in the small range while at
/// least one register is still zero, the raw estimate otherwise.
pub open spec fn estimator_for(alpha: Ratio, m: nat, registers: Seq<u8>) -> Estimator {
    if in_small_range(alpha, m, registers) && zero_registers(registers) > 0 {
        Estimator::LinerCounting
    } else {
        Estimator::HyperLogLog
    }
}

/// The estimate that [`estimator_for`] selects, in exact terms.
pub open spec fn cardinality_for(alpha: Ratio, m: nat, registers: Seq<u8>) -> Cardinality {
    match estimator_for(alpha, m, registers) {
        Estimator::HyperLogLog => Cardinality::Raw(
            Ratio {
                numerator: raw_numerator(alpha, m) as u128,
                denominator: raw_denominator(alpha, registers) as u128,
            },
        ),
        Estimator::LinerCounting => Cardinality::Linear {
            registers: m as usize,
            zero_registers: zero_registers(registers) as usize,
        },
    }
}

/// Whether the raw estimate for these arguments can be written as a
/// fraction of two 128-bit numbers.
pub open spec fn raw_fraction_fits(alpha: Ratio, m: nat, registers: Seq<u8>) -> bool {
    &&& registers_in_range(registers)
    &&& raw_numerator(alpha, m) <= u128::MAX
    &&& raw_denominator(alpha, registers) <= u128::MAX
}

/// Whether the raw estimate for these arguments can be held against the
/// small-range threshold in 128 bits.
pub open spec fn raw_estimate_fits(alpha: Ratio, m: nat, registers: Seq<u8>) -> bool {
    &&& 0 < m
    &&& registers_in_range(registers)
    &&& 2 * raw_numerator(alpha, m) <= u128::MAX
    &&& 5 * raw_denominator(alpha, registers) <= u128::MAX
}

/// The partial products on the way to the raw estimate's numerator are
/// never above the numerator itself.
proof fn lemma_numerator_steps(a: int, n: int)
    requires
        0 <= a,
        0 <= n,
    ensures
        pow2(64) == 0x1_0000_0000_0000_0000,
        0 <= a * n <= a * n * n * pow2(64),
        0 <= a * n * n <= a * n * n * pow2(64),
{
    lemma2_to64();
    let p = pow2(64) as int;
    assert(0 <= a * n <= a * n * n * p && 0 <= a * n * n <= a * n * n * p) by (nonlinear_arith)
        requires
            0 <= a,
            0 <= n,
            1 <= p,
    ;
}

/// The raw estimate `alpha * m^2 / sum of 2^(-r)` as an exact fraction.
pub fn raw_hyperloglog_estimate(alpha: Ratio, m: usize, registers: &[u8]) -> (raw: Ratio)
    requires
        raw_fraction_fits(alpha, m as nat, registers@),
    ensures
        raw.numerator == raw_numerator(alpha, m as nat),
        raw.denominator == raw_denominator(alpha, registers@),
{
    let sum = scaled_harmonic_sum(registers);
    let count: u128 = m as u128;
    proof {
        lemma_numerator_steps(alpha.numerator as int, m as int);
    }
    Ratio {
        numerator: alpha.numerator * count * count * 0x1_0000_0000_0000_0000u128,
        denominator: alpha.denominator * sum,
    }
}

/// Whether every register is at most 64.
pub fn all_in_range(registers: &[u8]) -> (in_range: bool)
    ensures
        in_range == registers_in_range(registers@),
{
    let mut i: usize = 0;
    while i < registers.len()
        invariant
            i <= registers.len(),
            forall|k: int| 0 <= k < i ==> registers[k] <= 64,
        decreases registers.len() - i,
    {
        if registers[i] > 64 {
            return false;
        }
        i += 1;
    }
    true
}

/// The raw estimate `alpha * m^2 / sum of 2^(-r)` as an exact fraction, for
/// any arguments: `None` where a register lies above 64 or one of the two
/// parts of the fraction needs more than 128 bits.
pub fn checked_raw_hyperloglog_estimate(alpha: Ratio, m: usize, registers: &[u8]) -> (raw: Option<
    Ratio,
>)
    ensures
        raw is Some <==> raw_fraction_fits(alpha, m as nat, registers@),
        raw matches Some(r) ==> r.numerator == raw_numerator(alpha, m as nat) && r.denominator
            == raw_denominator(alpha, registers@),
{
    if !all_in_range(registers) {
        return None;
    }
    let sum = scaled_harmonic_sum(registers);
    let count: u128 = m as u128;
    proof {
        lemma_numerator_steps(alpha.numerator as int, m as int);
    }
    let first = match alpha.numerator.checked_mul(count) {
        Some(first) => first,
        None => {
            return None;
        },
    };
    let second = match first.checked_mul(count) {
        Some(second) => second,
        None => {
            return None;
        },
    };
    let numerator = match second.checked_mul(0x1_0000_0000_0000_0000u128) {
        Some(numerator) => numerator,
        None => {
            return None;
        },
    };
    match alpha.denominator.checked_mul(sum) {
        Some(denominator) => Some(Ratio { numerator, denominator }),
        None => None,
    }
}

/// Decides between the two estimators and gives the selected estimate in
/// exact terms.
pub fn estimate_from_registers(alpha: Ratio, m: usize, registers: &[u8]) -> (estimate: (
    Cardinality,
    Estimator,
))
    requires
        raw_estimate_fits(alpha, m as nat, registers@),
    ensures
        estimate.1 == estimator_for(alpha, m as nat, registers@),
        estimate.0 == cardinality_for(alpha, m as nat, registers@),
{
    let raw = raw_hyperloglog_estimate(alpha, m, registers);
    let count: u128 = m as u128;
    proof {
        let n = m as int;
        let per_register = alpha.numerator as int * n * pow2(64) as int;
        assert(raw.numerator as int == per_register * n && (per_register * n) / n == per_register)
            by (nonlinear_arith)
            requires
                raw.numerator as int == alpha.numerator as int * n * n * pow2(64) as int,
                per_register == alpha.numerator as int * n * pow2(64) as int,
                1 <= n,
        ;
        assert((2 * per_register < 5 * raw.denominator) <==> (2 * (per_register * n) < 5 * n
            * raw.denominator)) by (nonlinear_arith)
            requires
                1 <= n,
        ;
    }
    // raw < 5/2 m, with both sides divided by m
    let below: bool = 2 * (raw.numerator / count) < 5 * raw.denominator;
    if below {
        match count_zero_registers(registers) {
            0 => (Cardinality::Raw(raw), Estimator::HyperLogLog),
            v => (Cardinality::Linear { registers: m, zero_registers: v }, Estimator::LinerCounting),
        }
    } else {
        (Cardinality::Raw(raw), Estimator::HyperLogLog)
    }
}

} // verus!
