use solana_e_commerce::bloom::{filter_checksum, set_bit_count, BloomFilter};
use solana_e_commerce::hash::{hash_keyword, hash_string, hash_u64, multi_hash};

#[test]
fn fnv_hash_of_keywords() {
    assert_eq!(hash_keyword(""), 0xcbf29ce484222325);
    assert_eq!(hash_keyword("a"), 0xaf63dc4c8601ec8c);
    assert_eq!(hash_keyword("phone"), 0x31fc9c6bde865d6f);
}

#[test]
fn polynomial_string_hash() {
    assert_eq!(hash_string(""), 0);
    assert_eq!(hash_string("ab"), 3105);
    assert_eq!(hash_string("phone"), 106642798);
}

#[test]
fn seeded_mixer_values() {
    assert_eq!(multi_hash(0, 0), 0);
    assert_eq!(multi_hash(1, 0), 16294208416658607535);
    assert_eq!(multi_hash(42, 1), 566489329403328680);
    assert_eq!(multi_hash(12345, 2), 1934587434946441810);
}

#[test]
fn murmur_finaliser_values() {
    assert_eq!(hash_u64(0), 0);
    assert_eq!(hash_u64(1), 12994781566227106604);
    assert_eq!(hash_u64(42), 9297814886316923340);
}

#[test]
fn bloom_has_no_false_negatives() {
    let mut filter = [0u8; 256];
    for v in 0..500u64 {
        BloomFilter::add(&mut filter, v * 7919 + 3);
    }
    for v in 0..500u64 {
        assert!(BloomFilter::might_contain(&filter, v * 7919 + 3));
    }
}

#[test]
fn bloom_empty_filter_contains_nothing() {
    let filter = [0u8; 256];
    for v in 0..100u64 {
        assert!(!BloomFilter::might_contain(&filter, v));
    }
}

#[test]
fn bloom_false_positive_rate_is_near_estimate() {
    let mut filter = [0u8; 256];
    let inserted = 200u64;
    for v in 0..inserted {
        BloomFilter::add(&mut filter, v);
    }
    let trials = 20_000u64;
    let mut hits = 0u64;
    for v in 1_000_000..1_000_000 + trials {
        if BloomFilter::might_contain(&filter, v) {
            hits += 1;
        }
    }
    let m = 2048.0f64;
    let k = 3.0f64;
    let n = inserted as f64;
    let expected = (1.0 - (-k * n / m).exp()).powf(k);
    let observed = hits as f64 / trials as f64;
    assert!((observed - expected).abs() < 0.02, "observed {} expected {}", observed, expected);
}

#[test]
fn bloom_merge_keeps_both_sides() {
    let mut a = [0u8; 256];
    let mut b = [0u8; 256];
    BloomFilter::add(&mut a, 11);
    BloomFilter::add(&mut b, 22);
    BloomFilter::merge(&mut a, &b);
    assert!(BloomFilter::might_contain(&a, 11));
    assert!(BloomFilter::might_contain(&a, 22));
    BloomFilter::add(&mut b, 33);
    BloomFilter::merge(&mut a, &b);
    assert!(BloomFilter::might_contain(&a, 11));
    assert!(BloomFilter::might_contain(&a, 33));
}

#[test]
fn filter_checksum_and_bit_count() {
    let mut filter = [0u8; 256];
    assert_eq!(filter_checksum(&filter), 0);
    assert_eq!(set_bit_count(&filter), 0);
    filter[0] = 0x01;
    filter[9] = 0x02;
    filter[255] = 0xff;
    assert_eq!(filter_checksum(&filter), 0x01 ^ 0x0200 ^ 0xff00_0000_0000_0000);
    assert_eq!(set_bit_count(&filter), 10);
    let mut g = [0u8; 256];
    BloomFilter::add(&mut g, 77);
    let expected: u32 = g.iter().map(|b| b.count_ones()).sum();
    assert_eq!(set_bit_count(&g), expected);
}

#[test]
fn bloom_add_sets_three_probe_bits() {
    let mut filter = [0u8; 256];
    BloomFilter::add(&mut filter, 77);
    let set_bits: u32 = filter.iter().map(|b| b.count_ones()).sum();
    assert!(set_bits >= 1 && set_bits <= 3);
    for seed in 0..3u8 {
        let bit = (multi_hash(77, seed) % 2048) as usize;
        assert_eq!((filter[bit / 8] >> (bit % 8)) & 1, 1);
    }
}
