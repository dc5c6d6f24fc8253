//! The sketch itself: construction, insertion and the reads that the
//! estimate is made from.

use vstd::prelude::*;
use std::collections::BTreeMap;
use std::hash::Hash;
#[allow(deprecated)]
use std::hash::SipHasher;
use crate::bits::position_of_leftmost_one_bit;
use crate::error::HllError;
use crate::estimate::{
    alpha_for, count_zero_registers, estimate_from_registers, lemma_register_count_values,
    register_count, registers_for, valid_precision, Cardinality, Estimator, Ratio,
    MAX_PRECISION, MIN_PRECISION,
};
use crate::histogram::{distribution_of, value_distribution};
use crate::model::{
    index_mask, lemma_estimate_fits, lemma_hash_remainder, lemma_rank_bounds,
    lemma_register_index, Sketch,
};

verus! {

/// The operating system's random number generator, as `rand` offers it.
#[verifier::external_type_specification]
#[verifier::external_body]
pub struct ExOsRng(rand::OsRng);

/// The error with which opening the random number generator fails.
#[verifier::external_type_specification]
#[verifier::external_body]
pub struct ExIoError(std::io::Error);

/// The keyed hasher of the standard library.
#[verifier::external_type_specification]
#[verifier::external_body]
#[allow(deprecated)]
pub struct ExSipHasher(SipHasher);

/// Calls `rand::OsRng::new`, which opens the operating system's randomness
/// source. Whether it succeeds depends on the machine, so nothing is
/// claimed of the result.
#[verifier::external_body]
fn open_os_rng() -> (rng: Result<rand::OsRng, std::io::Error>) {
    rand::OsRng::new()
}

/// Calls `rand::Rng::gen` for a `u64` on the operating system's generator.
/// The value is random, so nothing is claimed of it. The generator panics
/// if the source fails after it was opened; no argument decides that.
#[verifier::external_body]
fn next_key(rng: &mut rand::OsRng) -> (key: u64) {
    rand::Rng::gen::<u64>(rng)
}

/// Calls `ToString::to_string` on the error with which the randomness
/// source failed to open. The text is the operating system's, so nothing is
/// claimed of it.
#[verifier::external_body]
fn error_text(error: &std::io::Error) -> (text: String) {
    error.to_string()
}

/// Calls `SipHasher::new_with_keys`, which makes a hasher seeded with the
/// two keys. A hasher is opaque here, so nothing is claimed of it.
#[verifier::external_body]
#[allow(deprecated)]
fn keyed_hasher(key0: u64, key1: u64) -> (hasher: SipHasher) {
    SipHasher::new_with_keys(key0, key1)
}

/// Calls `Hash::hash`, which feeds `value` to the hasher. What is fed is
/// up to the value's own implementation, so nothing is claimed.
#[verifier::external_body]
#[allow(deprecated)]
fn feed<H: Hash>(value: &H, hasher: &mut SipHasher) {
    value.hash(hasher)
}

/// Calls `Hasher::finish`, which reads the 64-bit hash of what was fed so
/// far. Nothing is claimed of the result.
#[verifier::external_body]
#[allow(deprecated)]
fn finish(hasher: &SipHasher) -> (hash: u64) {
    std::hash::Hasher::finish(hasher)
}

/// Raises register `j` to `rank` unless it is there already.
fn raise_register(registers: &mut Vec<u8>, j: usize, rank: u8)
    requires
        j < old(registers).len(),
    ensures
        final(registers)@ == if old(registers)@[j as int] < rank {
            old(registers)@.update(j as int, rank)
        } else {
            old(registers)@
        },
    no_unwind
{
    let register = &mut registers[j];
    if *register < rank {
        *register = rank;
    }
}

/// A cardinality sketch: `2^b` one-byte registers, each holding the largest
/// rank seen among the hashes that selected it.
pub struct HyperLogLog {
    b: u8,
    b_mask: usize,
    m: usize,
    registers: Vec<u8>,
    hasher_key0: u64,
    hasher_key1: u64,
}

impl View for HyperLogLog {
    type V = Sketch;

    closed spec fn view(&self) -> Sketch {
        Sketch {
            precision: self.b,
            registers: self.registers@,
            keys: (self.hasher_key0, self.hasher_key1),
        }
    }
}

impl HyperLogLog {
    #[verifier::type_invariant]
    spec fn inv(self) -> bool {
        &&& self@.wf()
        &&& self.m == register_count(self.b)
        &&& self.b_mask == index_mask(self.b)
    }

    /// Makes an empty sketch with `b` bits of precision and the given hash
    /// keys. The precision has to lie between 4 and 16.
    pub fn with_keys(b: u8, key0: u64, key1: u64) -> (sketch: Result<Self, HllError>)
        ensures
            valid_precision(b) ==> sketch is Ok && sketch->Ok_0@ == Sketch::empty(b, (key0, key1))
                && sketch->Ok_0@.wf(),
            !valid_precision(b) ==> sketch == Err::<Self, HllError>(HllError::InvalidPrecision),
    {
        if b < MIN_PRECISION || b > MAX_PRECISION {
            return Err(HllError::InvalidPrecision);
        }
        proof {
            lemma_register_count_values(b);
        }
        let m = registers_for(b);
        let registers: Vec<u8> = vec![0u8; m];
        assert(registers@ =~= Seq::new(register_count(b), |i: int| 0u8));
        Ok(
            HyperLogLog {
                b,
                b_mask: m - 1,
                m,
                registers,
                hasher_key0: key0,
                hasher_key1: key1,
            },
        )
    }

    /// Makes an empty sketch with `b` bits of precision whose hash keys are
    /// drawn from the operating system's randomness source.
    pub fn new(b: u8) -> (sketch: Result<Self, HllError>)
        ensures
            !valid_precision(b) ==> sketch == Err::<Self, HllError>(HllError::InvalidPrecision),
            valid_precision(b) ==> match sketch {
                Ok(s) => s@.wf() && s@.precision == b && s@ == Sketch::empty(b, s@.keys),
                Err(e) => e is RandomnessUnavailable,
            },
    {
        if b < MIN_PRECISION || b > MAX_PRECISION {
            return Err(HllError::InvalidPrecision);
        }
        match open_os_rng() {
            Ok(mut rng) => {
                let key0 = next_key(&mut rng);
                let key1 = next_key(&mut rng);
                Self::with_keys(b, key0, key1)
            },
            Err(error) => Err(HllError::RandomnessUnavailable { cause: error_text(&error) }),
        }
    }

    /// The number of hash bits that select a register.
    pub fn precision(&self) -> (b: u8)
        ensures
            b == self@.precision,
            self@.wf(),
    {
        proof {
            use_type_invariant(self);
        }
        self.b
    }

    /// The number of registers.
    pub fn register_count(&self) -> (m: usize)
        ensures
            m == register_count(self@.precision),
            m == self@.registers.len(),
    {
        proof {
            use_type_invariant(self);
        }
        self.m
    }

    /// The mask that selects a hash's index bits: one less than the number
    /// of registers.
    pub fn index_mask(&self) -> (mask: usize)
        ensures
            mask == index_mask(self@.precision),
            mask == register_count(self@.precision) - 1,
    {
        proof {
            use_type_invariant(self);
            lemma_register_count_values(self.b);
        }
        self.b_mask
    }

    /// The registers.
    pub fn registers(&self) -> (registers: &[u8])
        ensures
            registers@ == self@.registers,
    {
        self.registers.as_slice()
    }

    /// The two keys of the hash function.
    pub fn hasher_keys(&self) -> (keys: (u64, u64))
        ensures
            keys == self@.keys,
    {
        (self.hasher_key0, self.hasher_key1)
    }

    /// The bias-correction constant, as an exact fraction.
    pub fn alpha(&self) -> (alpha: Ratio)
        ensures
            alpha == self@.alpha(),
    {
        proof {
            use_type_invariant(self);
            lemma_register_count_values(self.b);
        }
        alpha_for(self.b)
    }

    /// How many registers are still zero.
    pub fn zero_registers(&self) -> (count: usize)
        ensures
            count == self@.zero_registers(),
    {
        count_zero_registers(self.registers.as_slice())
    }

    /// How often each value occurs among the registers: every value that
    /// some register holds, with the number of registers that hold it.
    pub fn register_value_distribution(&self) -> (counts: BTreeMap<u8, usize>)
        ensures
            counts@ == distribution_of(self@.registers),
    {
        value_distribution(self.registers.as_slice())
    }

    /// Records a 64-bit hash: the register that its low bits select is
    /// raised to the rank of the remaining bits.
    pub fn insert_hash(&mut self, hash: u64)
        ensures
            final(self)@ == old(self)@.insert_hash(hash),
            final(self)@.wf(),
            final(self)@.never_below(old(self)@),
    {
        proof {
            use_type_invariant(&*self);
            lemma_register_index(hash, self.b);
            lemma_hash_remainder(hash, self.b);
            lemma_rank_bounds(hash, self.b);
        }
        let j: usize = (hash & (self.b_mask as u64)) as usize;
        let w: u64 = hash >> (self.b as u64);
        let rank = position_of_leftmost_one_bit(w, 64 - self.b);
        raise_register(&mut self.registers, j, rank);
    }

    /// The hash of a value under this sketch's keys.
    fn hash<H: Hash>(&self, value: &H) -> (hash: u64) {
        let mut hasher = keyed_hasher(self.hasher_key0, self.hasher_key1);
        feed(value, &mut hasher);
        finish(&hasher)
    }

    /// Records a value: it is hashed under the sketch's keys and the hash is
    /// inserted.
    pub fn insert<H: Hash>(&mut self, value: &H)
        ensures
            exists|hash: u64| final(self)@ == old(self)@.insert_hash(hash),
            final(self)@.wf(),
            final(self)@.never_below(old(self)@),
    {
        let x = self.hash(value);
        self.insert_hash(x);
    }
}

/// Estimates the cardinality: decides which estimator applies to the
/// sketch's registers and gives the estimate in exact terms.
pub fn estimate_cardinality(hll: &HyperLogLog) -> (estimate: (Cardinality, Estimator))
    ensures
        estimate.0 == hll@.cardinality(),
        estimate.1 == hll@.estimator(),
{
    proof {
        use_type_invariant(hll);
        lemma_estimate_fits(hll@);
    }
    let alpha = hll.alpha();
    estimate_from_registers(alpha, hll.m, hll.registers.as_slice())
}

} // verus!
