use dawn::beacon::{choose_location_indices, is_valid_beacon, Beacon, BeaconCache, BeaconKey, InMemoryBeaconCache};

#[test]
fn beacon_cache_gives_back_what_was_kept() {
    let mut cache = InMemoryBeaconCache::new();
    let key = BeaconKey::new(&[3u8; 32], 1_000);
    let other = BeaconKey::new(&[3u8; 32], 1_001);
    assert_eq!(cache.get(&key), None);

    cache.insert(key, Beacon { values: vec![1, 2] });
    assert_eq!(cache.get(&key), Some(Beacon { values: vec![1, 2] }));
    assert_eq!(cache.get(&other), None);

    cache.insert(key, Beacon { values: vec![9] });
    assert_eq!(cache.get(&key), Some(Beacon { values: vec![9] }));

    cache.insert(other, Beacon { values: vec![] });
    assert_eq!(cache.get(&key), Some(Beacon { values: vec![9] }));
    assert_eq!(cache.get(&other), Some(Beacon { values: vec![] }));
}

#[test]
fn beacons_agree_within_half_a_degree() {
    let own = Beacon { values: vec![100, -20, 0] };
    assert!(is_valid_beacon(&own, &Beacon { values: vec![105, -25, 0] }));
    assert!(is_valid_beacon(&own, &Beacon { values: vec![95, -15, -5] }));
    assert!(!is_valid_beacon(&own, &Beacon { values: vec![106, -20, 0] }));
    assert!(!is_valid_beacon(&own, &Beacon { values: vec![100, -26, 0] }));
}

#[test]
fn beacons_are_compared_only_where_both_have_readings() {
    let own = Beacon { values: vec![10, 20] };
    assert!(is_valid_beacon(&own, &Beacon { values: vec![10] }));
    assert!(is_valid_beacon(&own, &Beacon { values: vec![] }));
    assert!(is_valid_beacon(&Beacon { values: vec![] }, &own));
    assert!(!is_valid_beacon(&own, &Beacon { values: vec![10, 30, 0] }));
}

#[test]
fn extreme_readings_disagree() {
    let low = Beacon { values: vec![i32::MIN] };
    let high = Beacon { values: vec![i32::MAX] };
    assert!(!is_valid_beacon(&low, &high));
    assert!(!is_valid_beacon(&high, &low));
    assert!(is_valid_beacon(&high, &high));
}

#[test]
fn locations_are_chosen_by_hash_bytes() {
    let mut hash = [0u8; 32];
    for (i, b) in hash.iter_mut().enumerate() {
        *b = (i * 9) as u8;
    }
    let chosen = choose_location_indices(&hash, 7);
    assert_eq!(chosen.len(), 32);
    for i in 0..32 {
        assert_eq!(chosen[i], ((i * 9) as u8 as usize) % 7);
    }
    assert_eq!(choose_location_indices(&[255u8; 32], 10), vec![5usize; 32]);
}

#[test]
fn no_locations_give_no_choice() {
    assert!(choose_location_indices(&[1u8; 32], 0).is_empty());
}
