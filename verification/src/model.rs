//! The mathematical model of a sketch: which register a hash selects, the
//! rank it carries, and what an insertion does to the registers.

use vstd::prelude::*;
use vstd::arithmetic::power2::{pow2, lemma2_to64, lemma_pow2_adds, lemma_pow2_pos};
use vstd::arithmetic::div_mod::lemma_multiply_divide_lt;
use vstd::bits::{low_bits_mask, lemma_u64_low_bits_mask_is_mod, lemma_u64_shr_is_div};
use crate::bits::{bit_length, leftmost_one_position, lemma_bit_length_fits};
use crate::estimate::{
    alpha_denominator, alpha_numerator, cardinality_for, estimator_for, inverse_power_sum,
    lemma_inverse_power_sum_bounds, lemma_register_count_values, raw_estimate_fits,
    register_count, valid_precision, zero_registers, Cardinality, Estimator, Ratio,
};

verus! {

/// The mask that keeps the low `precision` bits of a hash.
pub open spec fn index_mask(precision: u8) -> u64 {
    (register_count(precision) - 1) as u64
}

/// The register that a hash selects: its low `precision` bits.
pub open spec fn register_index(hash: u64, precision: u8) -> int {
    (hash & index_mask(precision)) as int
}

/// What is left of a hash once the index bits are shifted out.
pub open spec fn hash_remainder(hash: u64, precision: u8) -> u64 {
    hash >> (precision as u64)
}

/// The width of the window in which the remainder's leading zeros are
/// counted.
pub open spec fn window_width(precision: u8) -> u8 {
    (64 - precision) as u8
}

/// The rank of a hash: one more than the run of leading zeros of its
/// remainder, counted in the window left over after the index bits. A
/// remainder that is zero all through the window has the width of the
/// window as its rank.
pub open spec fn rank(hash: u64, precision: u8) -> int {
    leftmost_one_position(hash_remainder(hash, precision), window_width(precision))
}

/// The largest rank that a hash can carry at the given precision.
pub open spec fn max_rank(precision: u8) -> int {
    64 - precision
}

/// The registers after a hash has been inserted: the selected register is
/// raised to the hash's rank unless it is there already.
pub open spec fn raise(registers: Seq<u8>, hash: u64, precision: u8) -> Seq<u8> {
    let j = register_index(hash, precision);
    let r = rank(hash, precision);
    if registers[j] < r {
        registers.update(j, r as u8)
    } else {
        registers
    }
}

/// The registers after a whole sequence of hashes has been inserted, first
/// to last.
pub open spec fn raise_all(registers: Seq<u8>, hashes: Seq<u64>, precision: u8) -> Seq<u8>
    decreases hashes.len(),
{
    if hashes.len() == 0 {
        registers
    } else {
        raise(raise_all(registers, hashes.drop_last(), precision), hashes.last(), precision)
    }
}

/// The abstract state of a sketch.
pub struct Sketch {
    /// The number of hash bits that select a register.
    pub precision: u8,
    /// The registers, one per value of the index bits.
    pub registers: Seq<u8>,
    /// The two keys of the seeded hash function.
    pub keys: (u64, u64),
}

impl Sketch {
    /// The invariant of a sketch: a supported precision, one register per
    /// index, and no register above the largest rank.
    pub open spec fn wf(self) -> bool {
        &&& valid_precision(self.precision)
        &&& self.registers.len() == register_count(self.precision)
        &&& forall|i: int|
            0 <= i < self.registers.len() ==> #[trigger] self.registers[i] <= max_rank(
                self.precision,
            )
    }

    /// A sketch into which nothing has been inserted.
    pub open spec fn empty(precision: u8, keys: (u64, u64)) -> Sketch {
        Sketch {
            precision,
            registers: Seq::new(register_count(precision), |i: int| 0u8),
            keys,
        }
    }

    /// The bias-correction constant of this sketch.
    pub open spec fn alpha(self) -> Ratio {
        Ratio {
            numerator: alpha_numerator(self.precision) as u128,
            denominator: alpha_denominator(self.precision) as u128,
        }
    }

    /// How many registers are still zero.
    pub open spec fn zero_registers(self) -> nat {
        zero_registers(self.registers)
    }

    /// The estimator that applies to the current registers.
    pub open spec fn estimator(self) -> Estimator {
        estimator_for(self.alpha(), register_count(self.precision), self.registers)
    }

    /// The current estimate in exact terms.
    pub open spec fn cardinality(self) -> Cardinality {
        cardinality_for(self.alpha(), register_count(self.precision), self.registers)
    }

    /// Whether this state can have come from `earlier` by insertions alone:
    /// the same precision and keys, and no register lower than it was.
    pub open spec fn never_below(self, earlier: Sketch) -> bool {
        &&& self.precision == earlier.precision
        &&& self.keys == earlier.keys
        &&& self.registers.len() == earlier.registers.len()
        &&& forall|i: int|
            0 <= i < self.registers.len() ==> earlier.registers[i] <= #[trigger] self.registers[i]
    }

    /// The state after one hash has been inserted.
    pub open spec fn insert_hash(self, hash: u64) -> Sketch {
        Sketch { registers: raise(self.registers, hash, self.precision), ..self }
    }

    /// The state after a sequence of hashes has been inserted.
    pub open spec fn insert_hashes(self, hashes: Seq<u64>) -> Sketch {
        Sketch { registers: raise_all(self.registers, hashes, self.precision), ..self }
    }
}

/// The selected register is the hash modulo the number of registers, and
/// so a valid index.
pub proof fn lemma_register_index(hash: u64, precision: u8)
    requires
        valid_precision(precision),
    ensures
        register_index(hash, precision) == hash as int % register_count(precision) as int,
        0 <= register_index(hash, precision) < register_count(precision),
{
    lemma_register_count_values(precision);
    lemma_u64_low_bits_mask_is_mod(hash, precision as nat);
    assert(low_bits_mask(precision as nat) as u64 == index_mask(precision));
}

/// The remainder is the hash divided by the number of registers, and fits
/// in the window.
pub proof fn lemma_hash_remainder(hash: u64, precision: u8)
    requires
        valid_precision(precision),
    ensures
        hash_remainder(hash, precision) == hash as int / register_count(precision) as int,
        bit_length(hash_remainder(hash, precision)) <= window_width(precision),
{
    lemma_register_count_values(precision);
    lemma_u64_shr_is_div(hash, precision as u64);
    let m = register_count(precision) as int;
    let w = hash_remainder(hash, precision);
    lemma2_to64();
    lemma_pow2_adds(precision as nat, window_width(precision) as nat);
    lemma_pow2_pos(window_width(precision) as nat);
    assert(hash < m * pow2(window_width(precision) as nat));
    lemma_multiply_divide_lt(hash as int, m, pow2(window_width(precision) as nat) as int);
    lemma_bit_length_fits(w, window_width(precision) as nat);
}

/// A rank lies between one and the largest rank, which a zero remainder
/// reaches.
pub proof fn lemma_rank_bounds(hash: u64, precision: u8)
    requires
        valid_precision(precision),
    ensures
        1 <= rank(hash, precision) <= max_rank(precision),
        hash_remainder(hash, precision) == 0 ==> rank(hash, precision) == max_rank(precision),
{
    lemma_hash_remainder(hash, precision);
}

/// The raw estimate of a well-formed sketch can be computed in 128 bits.
pub proof fn lemma_estimate_fits(sketch: Sketch)
    requires
        sketch.wf(),
    ensures
        raw_estimate_fits(sketch.alpha(), register_count(sketch.precision), sketch.registers),
        alpha_numerator(sketch.precision) <= 7213 * 65536,
        1000 <= alpha_denominator(sketch.precision) <= 10000 * 65536 + 10790,
{
    lemma_register_count_values(sketch.precision);
    lemma2_to64();
    lemma_inverse_power_sum_bounds(sketch.registers);
    let a = alpha_numerator(sketch.precision) as int;
    let d = alpha_denominator(sketch.precision) as int;
    let m = register_count(sketch.precision) as int;
    let p = pow2(64) as int;
    let s = inverse_power_sum(sketch.registers) as int;
    assert(a * m * m * p <= (7213 * 65536) * 65536 * 65536 * 0x1_0000_0000_0000_0000)
        by (nonlinear_arith)
        requires
            0 <= a <= 7213 * 65536,
            0 <= m <= 65536,
            p == 0x1_0000_0000_0000_0000,
    ;
    assert(s <= 65536 * 0x1_0000_0000_0000_0000) by (nonlinear_arith)
        requires
            s <= m * p,
            0 <= m <= 65536,
            p == 0x1_0000_0000_0000_0000,
    ;
    assert(d * s <= (10000 * 65536 + 10790) * (65536 * 0x1_0000_0000_0000_0000))
        by (nonlinear_arith)
        requires
            0 <= d <= 10000 * 65536 + 10790,
            0 <= s <= 65536 * 0x1_0000_0000_0000_0000,
    ;
}

} // verus!
