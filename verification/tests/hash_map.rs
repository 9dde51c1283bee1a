use page_store::hash_map::group::{
    control_byte, lowest_bit, scan_insert_group, scan_lookup_group, snapshot_is_whole, Group,
    GroupRead, DELETED, EMPTY,
};
use page_store::hash_map::ConcurrentHashMap;
use std::collections::HashMap;

/// The `nth` key whose hash starts in the given group.
fn key_of_group(table: &ConcurrentHashMap, group: usize, nth: usize) -> u64 {
    let mut found = 0;
    let mut key = 0u64;
    loop {
        if table.group_id(ConcurrentHashMap::hash(key)) == group {
            if found == nth {
                return key;
            }
            found += 1;
        }
        key += 1;
    }
}

#[test]
fn hash_multiplies_by_the_golden_ratio() {
    assert_eq!(ConcurrentHashMap::hash(0), 0);
    assert_eq!(ConcurrentHashMap::hash(1), 0x9e37_79b9_7f4a_7c15);
    assert_eq!(ConcurrentHashMap::hash(2), 0x3c6e_f372_fe94_f82a);
}

#[test]
fn fingerprint_is_the_low_seven_bits() {
    assert_eq!(ConcurrentHashMap::fingerprint(0x9e37_79b9_7f4a_7c15), 0x15);
    assert_eq!(ConcurrentHashMap::fingerprint(0xff), 0x7f);
    assert_eq!(ConcurrentHashMap::fingerprint(0x80), 0);
}

#[test]
fn home_group_is_the_high_bits() {
    let table = ConcurrentHashMap::new(64);
    assert_eq!(table.group_id(0x9e37_79b9_7f4a_7c15), 4);
    assert_eq!(table.group_id(0), 0);
    assert_eq!(table.group_id(u64::MAX), 7);
    let small = ConcurrentHashMap::new(8);
    assert_eq!(small.group_id(u64::MAX), 0);
    let two = ConcurrentHashMap::new(9);
    assert_eq!(two.group_id(u64::MAX), 1);
}

#[test]
fn empty_table_finds_nothing() {
    let mut table = ConcurrentHashMap::new(4);
    assert_eq!(table.get(0), None);
    assert_eq!(table.get(7), None);
    assert_eq!(table.remove(7), None);
}

#[test]
fn insert_replaces_and_returns_the_old_value() {
    let mut table = ConcurrentHashMap::new(4);
    assert_eq!(table.insert(7, 70), Ok(None));
    assert_eq!(table.get(7), Some(70));
    assert_eq!(table.insert(7, 71), Ok(Some(70)));
    assert_eq!(table.get(7), Some(71));
    assert_eq!(table.get(8), None);
}

#[test]
fn insert_then_get_leaves_other_keys_alone() {
    let mut table = ConcurrentHashMap::new(4);
    assert_eq!(table.insert(1, 10), Ok(None));
    assert_eq!(table.insert(2, 20), Ok(None));
    assert_eq!(table.get(1), Some(10));
    assert_eq!(table.get(2), Some(20));
}

#[test]
fn remove_then_get_leaves_other_keys_alone() {
    let mut table = ConcurrentHashMap::new(4);
    assert_eq!(table.insert(1, 10), Ok(None));
    assert_eq!(table.insert(2, 20), Ok(None));
    assert_eq!(table.remove(1), Some(10));
    assert_eq!(table.get(1), None);
    assert_eq!(table.get(2), Some(20));
    assert_eq!(table.remove(1), None);
}

#[test]
fn remove_undoes_insert() {
    let mut table = ConcurrentHashMap::new(4);
    assert_eq!(table.insert(5, 50), Ok(None));
    assert_eq!(table.remove(5), Some(50));
    assert_eq!(table.get(5), None);
    assert_eq!(table.insert(5, 51), Ok(None));
    assert_eq!(table.get(5), Some(51));
}

#[test]
fn full_table_refuses_new_keys_only() {
    let mut table = ConcurrentHashMap::new(0);
    for key in 0..16u64 {
        assert_eq!(table.insert(key, key as usize), Ok(None));
    }
    assert_eq!(table.insert(16, 16), Err(()));
    assert_eq!(table.get(16), None);
    assert_eq!(table.insert(3, 33), Ok(Some(3)));
    assert_eq!(table.remove(9), Some(9));
    assert_eq!(table.insert(16, 16), Ok(None));
    for key in 0..17u64 {
        let expected = match key {
            3 => Some(33),
            9 => None,
            other => Some(other as usize),
        };
        assert_eq!(table.get(key), expected);
    }
}

#[test]
fn table_has_room_for_what_it_was_made_for() {
    let mut table = ConcurrentHashMap::new(1000);
    for key in 0..1000u64 {
        assert_eq!(table.insert(key * 4096, key as usize), Ok(None));
    }
    for key in 0..1000u64 {
        assert_eq!(table.get(key * 4096), Some(key as usize));
    }
}

#[test]
fn probing_passes_over_full_groups_and_wraps_round() {
    let mut table = ConcurrentHashMap::new(64);
    let mut keys = Vec::new();
    for nth in 0..40 {
        let key = key_of_group(&table, 7, nth);
        assert_eq!(table.insert(key, nth), Ok(None));
        keys.push(key);
    }
    for nth in 0..40 {
        assert_eq!(table.get(keys[nth]), Some(nth));
    }
    // Giving up slots in the home group does not cut off later groups.
    for nth in 0..16 {
        assert_eq!(table.remove(keys[nth]), Some(nth));
    }
    for nth in 16..40 {
        assert_eq!(table.get(keys[nth]), Some(nth));
    }
    assert_eq!(table.insert(keys[0], 100), Ok(None));
    assert_eq!(table.get(keys[0]), Some(100));
}

#[test]
fn random_operations_agree_with_a_plain_map() {
    let mut table = ConcurrentHashMap::new(32);
    let mut model: HashMap<u64, usize> = HashMap::new();
    let mut seed = 0x1234_5678_9abc_def1u64;
    for step in 0..20_000usize {
        seed ^= seed << 13;
        seed ^= seed >> 7;
        seed ^= seed << 17;
        let key = (seed >> 20) % 96;
        match seed % 3 {
            0 => assert_eq!(table.get(key), model.get(&key).copied()),
            1 => {
                let known = model.contains_key(&key);
                if !known && model.len() == 64 {
                    assert_eq!(table.insert(key, step), Err(()));
                } else {
                    assert_eq!(table.insert(key, step), Ok(model.insert(key, step)));
                }
            }
            _ => assert_eq!(table.remove(key), model.remove(&key)),
        }
    }
}

#[test]
fn control_bytes_are_scanned_slot_by_slot() {
    let mut group = Group::new();
    group.begin_write();
    group.set_control(0, 0x15);
    group.set_control(3, DELETED);
    group.set_control(9, 0x15);
    group.set_control(15, 0x7f);
    let (lo, hi) = group.control();
    assert_eq!(control_byte(lo, hi, 0), 0x15);
    assert_eq!(control_byte(lo, hi, 1), EMPTY);
    assert_eq!(control_byte(lo, hi, 3), DELETED);
    assert_eq!(control_byte(lo, hi, 15), 0x7f);
    let scan = scan_insert_group(lo, hi, 0x15);
    assert_eq!(scan.matches, 0b0000_0010_0000_0001);
    assert_eq!(scan.deleted, 0b0000_0000_0000_1000);
    assert_eq!(scan.empty, 0b0111_1101_1111_0110);
    assert_eq!(scan_lookup_group(lo, hi, 0x7f), (0x8000, 0b0111_1101_1111_0110));
}

#[test]
fn lowest_bit_counts_from_the_low_end() {
    assert_eq!(lowest_bit(1), 0);
    assert_eq!(lowest_bit(0b1010_0000), 5);
    assert_eq!(lowest_bit(0x8000), 15);
}

#[test]
fn group_search_takes_the_first_matching_slot() {
    let mut group = Group::new();
    group.begin_write();
    group.set_key(2, 8);
    group.set_key(5, 9);
    group.set_key(7, 9);
    group.end_write();
    assert_eq!(group.find(0b1010_0100, 9), Some(5));
    assert_eq!(group.find(0b1000_0100, 9), Some(7));
    assert_eq!(group.find(0b0000_0100, 9), None);
    assert_eq!(group.find(0, 8), None);
}

#[test]
fn reader_repeats_its_look_while_a_writer_is_at_work() {
    let mut group = Group::new();
    assert_eq!(group.read(5, 1), Some(GroupRead::Absent));
    group.begin_write();
    assert_eq!(group.version(), 1);
    assert_eq!(group.read(5, 1), None);
    group.set_key(4, 5);
    group.set_value(4, 50);
    group.set_control(4, 1);
    group.end_write();
    assert_eq!(group.version(), 2);
    assert_eq!(group.value(4), 50);
    assert_eq!(group.read(5, 1), Some(GroupRead::Found(50)));
    assert_eq!(group.read(6, 1), Some(GroupRead::Absent));
    group.begin_write();
    for slot in 0..16 {
        group.set_control(slot, 2);
    }
    group.end_write();
    assert_eq!(group.read(6, 1), Some(GroupRead::Next));
}

#[test]
fn snapshot_is_whole_between_equal_even_versions() {
    assert!(snapshot_is_whole(0, 0));
    assert!(snapshot_is_whole(4, 4));
    assert!(!snapshot_is_whole(4, 6));
    assert!(!snapshot_is_whole(5, 5));
    assert!(!snapshot_is_whole(4, 5));
}
