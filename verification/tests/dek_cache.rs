use hyperion_vault::cache::{DekCache, MAX_ENTRIES};
use hyperion_vault::crypto::{dek_from_slice, Dek};

const SECOND: u128 = 1_000_000_000;

fn sample_dek(byte: u8) -> Dek {
    dek_from_slice(&[byte; 32]).expect("valid dek length")
}

#[test]
fn cap_is_hard_bounded() {
    let mut cache = DekCache::new(300);
    for i in 0..(MAX_ENTRIES + 50) {
        cache.put(i.to_le_bytes().to_vec(), sample_dek((i % 251) as u8), i as u128);
    }
    let len = cache.len();
    assert!(len <= MAX_ENTRIES, "cache exceeded hard cap: {len}");
}

#[test]
fn disabled_cache_stores_nothing() {
    let mut cache = DekCache::new(0);
    assert!(!cache.enabled());
    cache.put(vec![1, 2, 3], sample_dek(7), 0);
    assert!(cache.get(&vec![1, 2, 3], 0).is_none());
}

#[test]
fn entries_are_usable_until_their_time_is_up() {
    let mut cache = DekCache::new(2);
    assert!(cache.enabled());
    cache.put(vec![1], sample_dek(7), SECOND);
    assert_eq!(cache.get(&vec![1], 3 * SECOND - 1).unwrap().as_slice(), &[7u8; 32]);
    assert_eq!(cache.len(), 1);
    assert!(cache.get(&vec![1], 3 * SECOND).is_none());
    assert_eq!(cache.len(), 0);
    assert!(cache.get(&vec![2], SECOND).is_none());
}

#[test]
fn an_entry_replaces_the_one_before() {
    let mut cache = DekCache::new(10);
    cache.put(vec![1], sample_dek(1), 0);
    cache.put(vec![1], sample_dek(2), 5);
    assert_eq!(cache.len(), 1);
    assert_eq!(cache.get(&vec![1], 6).unwrap().as_slice(), &[2u8; 32]);
}

#[test]
fn a_full_cache_gives_up_its_oldest_entry() {
    let mut cache = DekCache::new(300);
    for i in 0..MAX_ENTRIES {
        let key = (i as u32).to_be_bytes().to_vec();
        let stored = if i == 77 { 0 } else { 10 + i as u128 };
        cache.put(key, sample_dek(1), stored);
    }
    assert_eq!(cache.len(), MAX_ENTRIES);
    cache.put(vec![9], sample_dek(9), 100_000);
    assert_eq!(cache.len(), MAX_ENTRIES);
    assert!(cache.get(&77u32.to_be_bytes().to_vec(), 100_000).is_none());
    assert!(cache.get(&78u32.to_be_bytes().to_vec(), 100_000).is_some());
    assert!(cache.get(&vec![9], 100_000).is_some());
}
