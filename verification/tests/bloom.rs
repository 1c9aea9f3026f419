use opengemini_engine::bloom::BloomFilter;

/// Sizes a filter for the expected number of items and false-positive
/// rate, as the standard formulas give them.
fn sized(expected_elements: usize, false_positive_rate: f64) -> BloomFilter {
    let ln2 = std::f64::consts::LN_2;
    let num_bits = (-(expected_elements as f64) * false_positive_rate.ln() / (ln2 * ln2)).ceil() as usize;
    let num_hashes = ((num_bits as f64 / expected_elements as f64) * ln2).ceil() as usize;
    BloomFilter::from_sizes(num_bits, num_hashes)
}

fn with_capacity(capacity: usize) -> BloomFilter {
    sized(capacity, 0.01)
}

#[test]
fn test_bloom_filter_new() {
    let filter = sized(1000, 0.01);
    assert!(filter.len() > 0);
    assert!(!filter.get_bit_array().is_empty());
}

#[test]
fn test_bloom_filter_with_capacity() {
    let filter = with_capacity(1000);
    assert!(filter.contains(b"test") == false || filter.contains(b"test") == true);
}

#[test]
fn test_bloom_filter_insert_and_check() {
    let mut filter = with_capacity(100);
    filter.insert(b"hello");
    filter.insert(b"world");
    assert!(filter.contains(b"hello"));
    assert!(filter.contains(b"world"));
}

#[test]
fn test_bloom_filter_not_contains() {
    let mut filter = with_capacity(100);
    filter.insert(b"hello");
    assert!(!filter.contains(b"not_inserted"));
}

#[test]
fn test_bloom_filter_clear() {
    let mut filter = with_capacity(100);
    filter.insert(b"hello");
    filter.clear();
    assert!(!filter.contains(b"hello"));
}

#[test]
fn test_bloom_filter_len() {
    let filter = with_capacity(100);
    assert_eq!(filter.len(), 959);
}

#[test]
fn test_bloom_filter_false_positive_rate() {
    let mut filter = sized(10000, 0.01);
    for i in 0u32..10000 {
        filter.insert(&i.to_le_bytes());
    }
    let mut false_positives = 0;
    for i in 10000u32..20000 {
        if filter.contains(&i.to_le_bytes()) {
            false_positives += 1;
        }
    }
    let actual_fpr = false_positives as f64 / 10000.0;
    assert!(actual_fpr < 0.05);
}

#[test]
fn test_bloom_filter_empty() {
    let filter = with_capacity(100);
    assert!(!filter.is_empty());
}

#[test]
fn test_bloom_filter_get_bit_array() {
    let filter = with_capacity(100);
    let bit_array = filter.get_bit_array();
    assert!(!bit_array.is_empty());
}

#[test]
fn test_bloom_filter_set_bit_array() {
    let mut filter = with_capacity(100);
    filter.insert(b"test");
    let bit_array = filter.get_bit_array().clone();
    let mut new_filter = with_capacity(100);
    new_filter.set_bit_array(bit_array);
    assert!(new_filter.contains(b"test"));
}

#[test]
fn test_bloom_filter_large_capacity() {
    let mut filter = with_capacity(1_000_000);
    for i in 0u32..1000 {
        filter.insert(&i.to_le_bytes());
    }
    for i in 0u32..1000 {
        assert!(filter.contains(&i.to_le_bytes()));
    }
}

#[test]
fn test_bloom_filter_multiple_inserts_same_key() {
    let mut filter = with_capacity(100);
    filter.insert(b"test");
    filter.insert(b"test");
    filter.insert(b"test");
    assert!(filter.contains(b"test"));
}

#[test]
fn test_bloom_filter_export_import() {
    let mut filter = with_capacity(100);
    filter.insert(b"series1");
    filter.insert(b"series2");
    let bit_array = filter.get_bit_array().clone();
    let mut imported_filter = with_capacity(100);
    imported_filter.set_bit_array(bit_array);
    assert!(imported_filter.contains(b"series1"));
    assert!(imported_filter.contains(b"series2"));
}

#[test]
fn test_bloom_filter_many_elements() {
    let mut filter = with_capacity(100000);
    for i in 0..10000 {
        let key = format!("series_{}", i);
        filter.insert(key.as_bytes());
    }
    for i in 0..10000 {
        let key = format!("series_{}", i);
        assert!(filter.contains(key.as_bytes()));
    }
}

#[test]
fn bloom_sizes_are_at_least_one() {
    let filter = BloomFilter::from_sizes(0, 0);
    assert_eq!(filter.len(), 1);
    assert_eq!(filter.get_bit_array().len(), 1);
    let filter = BloomFilter::from_sizes(65, 3);
    assert_eq!(filter.get_bit_array().len(), 2);
}

#[test]
fn bloom_cleared_filter_holds_nothing() {
    let mut filter = BloomFilter::from_sizes(128, 4);
    filter.insert(b"a");
    filter.insert(b"b");
    filter.clear();
    assert!(filter.get_bit_array().iter().all(|w| *w == 0));
    assert!(!filter.contains(b"a"));
    assert!(!filter.contains(b"b"));
}
