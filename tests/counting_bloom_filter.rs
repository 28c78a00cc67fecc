use bloom::{CountingBloomFilter, DeserializeError};

#[test]
fn test_counting_bloom_filter() {
    let mut cbf = CountingBloomFilter::new(1000, 5);

    cbf.insert(&"apple");
    cbf.insert(&"banana");
    cbf.insert(&"apple"); // Insert twice

    assert!(cbf.contains(&"apple"));
    assert!(cbf.contains(&"banana"));
    assert!(!cbf.contains(&"cherry"));

    cbf.remove(&"apple");
    assert!(cbf.contains(&"apple")); // Still present due to second insert

    cbf.remove(&"apple");
    assert!(!cbf.contains(&"apple")); // Now removed

    cbf.remove(&"banana");
    assert!(!cbf.contains(&"banana"));
}

#[test]
fn test_serialize_deserialize() {
    let mut cbf = CountingBloomFilter::new(1000, 5);
    cbf.insert(&"apple");
    cbf.insert(&"banana");

    let serialized = cbf.serialize();
    let deserialized = CountingBloomFilter::deserialize(&serialized).unwrap();

    assert_eq!(deserialized.size(), cbf.size());
    assert_eq!(deserialized.num_hashes(), cbf.num_hashes());
    assert_eq!(deserialized.counters(), cbf.counters());

    assert!(deserialized.contains(&"apple"));
    assert!(deserialized.contains(&"banana"));

    // Invalid data
    assert!(CountingBloomFilter::deserialize(&[]).is_err());
    assert!(CountingBloomFilter::deserialize(&[0u8; 15]).is_err());
    let mut invalid = serialized.clone();
    invalid.truncate(invalid.len() - 1); // Shorten by one byte
    assert!(CountingBloomFilter::deserialize(&invalid).is_err());
}

#[test]
fn new_filter_is_all_zero() {
    let cbf = CountingBloomFilter::new(7, 3);
    assert_eq!(cbf.size(), 7);
    assert_eq!(cbf.num_hashes(), 3);
    assert_eq!(cbf.counters(), &vec![0u32; 7]);
    assert_eq!(cbf.counter_total(), 0);
    assert!(!cbf.contains("anything"));
}

#[test]
fn serialize_layout_is_exact() {
    let cbf = CountingBloomFilter::new(2, 3);
    let bytes = cbf.serialize();
    assert_eq!(
        bytes,
        vec![2, 0, 0, 0, 0, 0, 0, 0, 3, 0, 0, 0, 0, 0, 0, 0, 0, 0, 0, 0, 0, 0, 0, 0]
    );
}

#[test]
fn deserialize_reads_little_endian_fields() {
    let bytes = vec![
        2, 0, 0, 0, 0, 0, 0, 0, 9, 1, 0, 0, 0, 0, 0, 0, 1, 2, 0, 0, 0xff, 0xff, 0xff, 0xff,
    ];
    let cbf = CountingBloomFilter::deserialize(&bytes).unwrap();
    assert_eq!(cbf.size(), 2);
    assert_eq!(cbf.num_hashes(), 265);
    assert_eq!(cbf.counters(), &vec![0x0201u32, u32::MAX]);
    assert_eq!(cbf.counter_total(), 0x0201u128 + u32::MAX as u128);
    assert_eq!(cbf.serialize(), bytes);
}

#[test]
fn deserialize_error_kinds() {
    assert_eq!(
        CountingBloomFilter::deserialize(&[]).err(),
        Some(DeserializeError::TooShort)
    );
    assert_eq!(
        CountingBloomFilter::deserialize(&[0u8; 15]).err(),
        Some(DeserializeError::TooShort)
    );
    let mut bytes = CountingBloomFilter::new(3, 2).serialize();
    bytes.push(0);
    assert_eq!(
        CountingBloomFilter::deserialize(&bytes).err(),
        Some(DeserializeError::LengthMismatch)
    );
    let mut huge = vec![0xffu8; 8];
    huge.extend_from_slice(&[5, 0, 0, 0, 0, 0, 0, 0]);
    assert_eq!(
        CountingBloomFilter::deserialize(&huge).err(),
        Some(DeserializeError::LengthMismatch)
    );
}

#[test]
fn empty_filter_round_trips() {
    let cbf = CountingBloomFilter::new(0, 4);
    let bytes = cbf.serialize();
    assert_eq!(bytes.len(), 16);
    let back = CountingBloomFilter::deserialize(&bytes).unwrap();
    assert_eq!(back.size(), 0);
    assert_eq!(back.num_hashes(), 4);
    assert!(back.counters().is_empty());
}

#[test]
fn insert_raises_counters_by_num_hashes() {
    let mut cbf = CountingBloomFilter::new(1000, 5);
    cbf.insert("apple");
    assert_eq!(cbf.counter_total(), 5);
    cbf.insert("apple");
    assert_eq!(cbf.counter_total(), 10);
    assert!(cbf.counters().iter().all(|&c| c == 0 || c % 2 == 0));
}

#[test]
fn probes_differ_between_keys() {
    let mut a = CountingBloomFilter::new(1000, 5);
    let mut b = CountingBloomFilter::new(1000, 5);
    a.insert("apple");
    b.insert("banana");
    assert_ne!(a.counters(), b.counters());
}

#[test]
fn insert_saturates_at_max() {
    let mut bytes = vec![1, 0, 0, 0, 0, 0, 0, 0, 3, 0, 0, 0, 0, 0, 0, 0];
    bytes.extend_from_slice(&u32::MAX.to_le_bytes());
    let mut cbf = CountingBloomFilter::deserialize(&bytes).unwrap();
    cbf.insert("apple");
    cbf.insert("apple");
    assert_eq!(cbf.counters(), &vec![u32::MAX]);
    assert!(cbf.contains("apple"));
}

#[test]
fn remove_never_goes_below_zero() {
    let mut cbf = CountingBloomFilter::new(50, 4);
    cbf.remove("ghost");
    cbf.remove("ghost");
    assert_eq!(cbf.counters(), &vec![0u32; 50]);
    cbf.insert("apple");
    cbf.remove("apple");
    cbf.remove("apple");
    assert_eq!(cbf.counters(), &vec![0u32; 50]);
}

#[test]
fn inserted_key_survives_other_inserts_and_fewer_removals() {
    let mut cbf = CountingBloomFilter::new(64, 3);
    for _ in 0..3 {
        cbf.insert("apple");
    }
    cbf.insert("banana");
    cbf.insert("cherry");
    cbf.remove("apple");
    cbf.remove("apple");
    assert!(cbf.contains("apple"));
}

#[test]
fn round_trip_keeps_answers() {
    let mut cbf = CountingBloomFilter::new(128, 4);
    for key in ["a", "b", "c", "d"] {
        cbf.insert(key);
    }
    let back = CountingBloomFilter::deserialize(&cbf.serialize()).unwrap();
    for key in ["a", "b", "c", "d", "e", "f", "g"] {
        assert_eq!(back.contains(key), cbf.contains(key));
    }
    assert_eq!(back.counters(), cbf.counters());
}
