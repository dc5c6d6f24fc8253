use std::collections::BTreeMap;

use hyperloglog::{
    count_zero_registers, estimate_cardinality, get_alpha, Cardinality, Estimator, HllError,
    HyperLogLog, Ratio,
};

fn sketch(precision: u8) -> HyperLogLog {
    HyperLogLog::with_keys(precision, 0x0706_0504_0302_0100, 0x0f0e_0d0c_0b0a_0908).unwrap()
}

fn to_float(estimate: &Cardinality) -> f64 {
    match estimate {
        Cardinality::Raw(raw) => raw.numerator as f64 / raw.denominator as f64,
        Cardinality::Linear { registers, zero_registers } => {
            let m = *registers as f64;
            m * (m / *zero_registers as f64).ln()
        }
    }
}

#[test]
fn create_hll() {
    assert!(HyperLogLog::new(3).is_err());
    assert!(HyperLogLog::new(17).is_err());

    let hll = HyperLogLog::new(4);
    assert!(hll.is_ok());

    let hll = hll.unwrap();
    assert_eq!(hll.precision(), 4);
    assert_eq!(hll.register_count(), 2_f64.powi(4) as usize);
    let alpha = hll.alpha();
    assert_eq!(alpha.numerator as f64 / alpha.denominator as f64, 0.673);
    assert_eq!(hll.registers().len(), 2_f64.powi(4) as usize);

    assert!(HyperLogLog::new(16).is_ok());
}

#[test]
fn small_range() {
    let mut hll = HyperLogLog::new(12).unwrap();
    let items = ["test1", "test2", "test3", "test2", "test2", "test2"];

    println!("\n=== Loading {} items.\n", items.len());
    for item in &items {
        hll.insert(item);
    }
}

#[test]
fn every_supported_precision_gives_an_empty_sketch() {
    for p in 4u8..=16 {
        let hll = HyperLogLog::with_keys(p, 11, 22).unwrap();
        assert_eq!(hll.precision(), p);
        assert_eq!(hll.register_count(), 1usize << p);
        assert_eq!(hll.index_mask(), (1usize << p) - 1);
        assert_eq!(hll.registers().len(), 1usize << p);
        assert!(hll.registers().iter().all(|r| *r == 0));
        assert_eq!(hll.hasher_keys(), (11, 22));
        assert_eq!(hll.zero_registers(), 1usize << p);
        assert!(HyperLogLog::new(p).is_ok());
    }
}

#[test]
fn alpha_follows_the_table_and_the_formula() {
    assert_eq!(get_alpha(4), Ok(Ratio { numerator: 673, denominator: 1000 }));
    assert_eq!(get_alpha(5), Ok(Ratio { numerator: 697, denominator: 1000 }));
    assert_eq!(get_alpha(6), Ok(Ratio { numerator: 709, denominator: 1000 }));
    assert_eq!(get_alpha(7), Ok(Ratio { numerator: 923_264, denominator: 1_290_790 }));
    assert_eq!(
        get_alpha(16),
        Ok(Ratio { numerator: 7213 * 65536, denominator: 10000 * 65536 + 10790 })
    );
    for p in 4u8..=16 {
        let alpha = get_alpha(p).unwrap();
        let m = (1u64 << p) as f64;
        let expected = match p {
            4 => 0.673,
            5 => 0.697,
            6 => 0.709,
            _ => 0.7213 / (1.0 + 1.079 / m),
        };
        let got = alpha.numerator as f64 / alpha.denominator as f64;
        assert!((got - expected).abs() < 1e-15, "precision {}: {} vs {}", p, got, expected);
        assert_eq!(HyperLogLog::with_keys(p, 0, 0).unwrap().alpha(), alpha);
    }
    assert_eq!(0.709, 709.0 / 1000.0);
}

#[test]
fn precision_outside_the_range_is_rejected() {
    for p in (0u8..4).chain(17u8..=255) {
        assert!(matches!(HyperLogLog::new(p), Err(HllError::InvalidPrecision)));
        assert!(matches!(HyperLogLog::with_keys(p, 1, 2), Err(HllError::InvalidPrecision)));
        assert_eq!(get_alpha(p), Err(HllError::InvalidPrecision));
    }
}

#[test]
fn insert_hash_raises_the_selected_register_to_the_rank() {
    let mut hll = sketch(4);
    // index bits 0101, remainder 0b11: two bits in a window of sixty
    hll.insert_hash(0x35);
    assert_eq!(hll.registers()[5], 59);
    assert_eq!(count_zero_registers(hll.registers()), 15);
    // a lower rank for the same register changes nothing
    hll.insert_hash((0xffu64 << 4) | 5);
    assert_eq!(hll.registers()[5], 59);
    // the highest bit of the hash set: no leading zero, rank one
    hll.insert_hash((1u64 << 63) | 7);
    assert_eq!(hll.registers()[7], 1);
    // a zero remainder carries the largest rank, the width of the window
    hll.insert_hash(9);
    assert_eq!(hll.registers()[9], 60);
    hll.insert_hash(0);
    assert_eq!(hll.registers()[0], 60);
    let expected: Vec<u8> = vec![60, 0, 0, 0, 0, 59, 0, 1, 0, 60, 0, 0, 0, 0, 0, 0];
    assert_eq!(hll.registers(), &expected[..]);
}

#[test]
fn insert_hash_uses_the_low_bits_at_every_precision() {
    for p in 4u8..=16 {
        let mut hll = sketch(p);
        let last = (1u64 << p) - 1;
        hll.insert_hash(u64::MAX);
        assert_eq!(hll.registers()[last as usize], 1);
        hll.insert_hash(last - 1);
        assert_eq!(hll.registers()[(last - 1) as usize], 64 - p);
        hll.insert_hash((1u64 << p) | 3);
        assert_eq!(hll.registers()[3], 64 - p);
        hll.insert_hash((2u64 << p) | 4);
        assert_eq!(hll.registers()[4], 63 - p);
        assert_eq!(hll.zero_registers(), (1usize << p) - 4);
    }
}

#[test]
fn inserting_a_hash_twice_is_inserting_it_once() {
    let mut once = sketch(8);
    let mut twice = sketch(8);
    for h in [0u64, 1, 0xdead_beef, u64::MAX, 0x1234_5678_9abc_def0] {
        once.insert_hash(h);
        twice.insert_hash(h);
        twice.insert_hash(h);
        assert_eq!(once.registers(), twice.registers());
    }
}

#[test]
fn inserting_a_value_twice_is_inserting_it_once() {
    let mut once = sketch(10);
    let mut twice = sketch(10);
    for word in ["alpha", "beta", "gamma", "delta"] {
        once.insert(&word);
        twice.insert(&word);
        twice.insert(&word);
    }
    assert_eq!(once.registers(), twice.registers());
    assert!(once.zero_registers() < 1024);

    let mut numbers = sketch(10);
    numbers.insert(&42u64);
    let after_first = numbers.registers().to_vec();
    numbers.insert(&42u64);
    assert_eq!(numbers.registers(), &after_first[..]);
}

#[test]
fn registers_never_decrease() {
    let mut hll = sketch(6);
    let mut before = hll.registers().to_vec();
    for i in 0u64..5000 {
        if i % 2 == 0 {
            hll.insert(&i);
        } else {
            hll.insert_hash(i.wrapping_mul(0x9e37_79b9_7f4a_7c15));
        }
        let after = hll.registers().to_vec();
        assert_eq!(after.len(), before.len());
        let mut changed = 0;
        for (old, new) in before.iter().zip(after.iter()) {
            assert!(old <= new);
            assert!(*new <= 58);
            if old != new {
                changed += 1;
            }
        }
        assert!(changed <= 1);
        before = after;
    }
    assert_eq!(hll.precision(), 6);
}

#[test]
fn hashing_depends_on_the_value_and_on_the_keys() {
    let mut a = HyperLogLog::with_keys(12, 1, 2).unwrap();
    let mut b = HyperLogLog::with_keys(12, 3, 4).unwrap();
    let mut c = HyperLogLog::with_keys(12, 1, 2).unwrap();
    for i in 0u64..1000 {
        a.insert(&i);
        b.insert(&i);
        c.insert(&i);
    }
    assert_eq!(a.registers(), c.registers());
    assert_ne!(a.registers(), b.registers());
    // a thousand values spread over far more than a handful of registers
    assert!(a.zero_registers() < 4096 - 700);
    assert!(b.zero_registers() < 4096 - 700);
}

#[test]
fn an_empty_sketch_estimates_zero_by_linear_counting() {
    for p in 4u8..=16 {
        let hll = sketch(p);
        let (estimate, kind) = estimate_cardinality(&hll);
        assert_eq!(kind, Estimator::LinerCounting);
        assert_eq!(
            estimate,
            Cardinality::Linear { registers: 1usize << p, zero_registers: 1usize << p }
        );
        assert_eq!(to_float(&estimate), 0.0);
    }
}

#[test]
fn small_range_is_read_by_linear_counting() {
    let mut hll = sketch(12);
    for i in 0u32..40 {
        hll.insert(&format!("item-{}", i));
    }
    let zeros = count_zero_registers(hll.registers());
    assert!(zeros >= 4096 - 40 && zeros < 4096);
    let (estimate, kind) = estimate_cardinality(&hll);
    assert_eq!(kind, Estimator::LinerCounting);
    assert_eq!(estimate, Cardinality::Linear { registers: 4096, zero_registers: zeros });
    let expected = 4096.0 * (4096.0 / zeros as f64).ln();
    assert_eq!(to_float(&estimate), expected);
    assert!((expected - 40.0).abs() < 2.0);
}

#[test]
fn large_range_is_read_by_the_raw_estimate() {
    let mut hll = sketch(12);
    for i in 0u64..100_000 {
        hll.insert(&i);
    }
    let (estimate, kind) = estimate_cardinality(&hll);
    assert_eq!(kind, Estimator::HyperLogLog);

    let sum: u128 = hll.registers().iter().map(|r| 1u128 << (64 - *r as u32)).sum();
    let m: u128 = 4096;
    let expected = Ratio {
        numerator: 7213 * m * m * m * (1u128 << 64),
        denominator: (10000 * m + 10790) * sum,
    };
    assert_eq!(estimate, Cardinality::Raw(expected));

    let float_sum: f64 = hll.registers().iter().map(|r| 2.0f64.powi(-(*r as i32))).sum();
    let alpha = 0.7213 / (1.0 + 1.079 / 4096.0);
    let raw = alpha * 4096.0 * 4096.0 / float_sum;
    assert!(raw >= 2.5 * 4096.0);
    let got = to_float(&estimate);
    assert!((got - raw).abs() / raw < 1e-12);
}

#[test]
fn estimate_is_close_to_the_true_count() {
    let mut hll = sketch(12);
    for i in 0u64..100_000 {
        hll.insert(&i.wrapping_mul(0x9e37_79b9_7f4a_7c15));
    }
    let (estimate, _) = estimate_cardinality(&hll);
    let got = to_float(&estimate);
    assert!((got - 100_000.0).abs() / 100_000.0 < 0.10, "estimate {}", got);
}

#[test]
fn a_full_small_sketch_stays_with_the_raw_estimate() {
    // every register at one: nothing is zero, so no linear counting even
    // though the raw estimate is below the threshold
    let mut hll = sketch(4);
    for j in 0u64..16 {
        hll.insert_hash((1u64 << 63) | j);
    }
    assert_eq!(hll.zero_registers(), 0);
    let (estimate, kind) = estimate_cardinality(&hll);
    assert_eq!(kind, Estimator::HyperLogLog);
    assert_eq!(
        estimate,
        Cardinality::Raw(Ratio {
            numerator: 673 * 16 * 16 * (1u128 << 64),
            denominator: 1000 * 16 * (1u128 << 63),
        })
    );
    assert!((to_float(&estimate) - 21.536).abs() < 1e-9);
}

#[test]
fn reading_the_estimate_twice_gives_the_same_result() {
    let mut hll = sketch(9);
    for i in 0u64..3000 {
        hll.insert(&i);
    }
    let first = estimate_cardinality(&hll);
    let second = estimate_cardinality(&hll);
    assert_eq!(first, second);
    assert_eq!(hll.zero_registers(), hll.zero_registers());

    // the keys play no part once the registers are what they are
    let mut a = HyperLogLog::with_keys(9, 1, 1).unwrap();
    let mut b = HyperLogLog::with_keys(9, 2, 2).unwrap();
    for h in [5u64, 77 << 9, 0xabc_def0, u64::MAX] {
        a.insert_hash(h);
        b.insert_hash(h);
    }
    assert_eq!(estimate_cardinality(&a), estimate_cardinality(&b));
}

#[test]
fn distribution_of_a_sketch_counts_every_register() {
    let mut hll = sketch(4);
    hll.insert_hash(0x35);
    hll.insert_hash((1u64 << 63) | 7);
    hll.insert_hash((1u64 << 63) | 8);
    let counts = hll.register_value_distribution();
    let expected: BTreeMap<u8, usize> = [(0u8, 13usize), (1, 2), (59, 1)].into_iter().collect();
    assert_eq!(counts, expected);
    assert_eq!(counts.keys().last(), Some(&59));
    assert_eq!(counts.values().max(), Some(&13));
    assert_eq!(counts.get(&2), None);
    assert_eq!(counts.values().sum::<usize>(), 16);

    // a fresh sketch has one entry: every register at zero
    let fresh = sketch(4).register_value_distribution();
    assert_eq!(fresh.len(), 1);
    assert_eq!(fresh.get(&0), Some(&16));
    let fresh = sketch(5).register_value_distribution();
    assert_eq!(fresh.into_iter().collect::<Vec<_>>(), vec![(0u8, 32usize)]);
}
