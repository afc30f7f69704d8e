use grevm::access::{ReadSet, WriteSet};
use grevm::detect_set::ContinuousDetectSet;
use grevm::location::{Address, LocationAndType, LocationKey, Slot};
use grevm::memory::MVMemory;
use grevm::types::{MemoryEntry, ReadVersion, TxVersion};
use grevm::versions::{edit_versions, find_latest_before, VersionEdit, Versions};

fn address(n: u128) -> Address {
    Address { high: 7, low: n }
}

fn basic(n: u128) -> LocationAndType {
    LocationAndType::Basic(address(n))
}

fn entry(incarnation: usize, estimate: bool) -> MemoryEntry {
    MemoryEntry { incarnation, estimate }
}

fn write_set(locations: &[LocationAndType]) -> WriteSet {
    let mut set = WriteSet::new();
    for location in locations {
        set.insert(location);
    }
    set
}

fn sorted(mut keys: Vec<LocationKey>) -> Vec<LocationKey> {
    keys.sort();
    keys
}

#[test]
fn keys_tell_locations_apart() {
    let slot = Slot { high: 0, low: 0 };
    let locations = [
        basic(1),
        basic(2),
        LocationAndType::Code(address(1)),
        LocationAndType::Storage(address(1), slot),
        LocationAndType::Storage(address(1), Slot { high: 1, low: 0 }),
        LocationAndType::Storage(address(1), Slot { high: 0, low: 1 }),
        LocationAndType::Basic(Address { high: 8, low: 1 }),
    ];
    for (i, a) in locations.iter().enumerate() {
        for (j, b) in locations.iter().enumerate() {
            assert_eq!(a.key() == b.key(), i == j);
        }
    }
    assert_eq!(basic(5).key(), (0, 7, 5, 0, 0));
}

#[test]
fn read_set_keeps_the_last_version_of_each_location() {
    let seen = ReadVersion::MvMemory(TxVersion { txid: 3, incarnation: 2 });
    let mut reads = ReadSet::new();
    assert_eq!(reads.items(), vec![]);
    reads.insert(&basic(1), ReadVersion::Storage);
    reads.insert(&basic(2), ReadVersion::Storage);
    reads.insert(&basic(1), seen);
    let mut items = reads.items();
    items.sort_by_key(|item| item.0);
    assert_eq!(items, vec![(basic(1).key(), seen), (basic(2).key(), ReadVersion::Storage)]);
}

#[test]
fn write_set_holds_each_location_once() {
    let set = write_set(&[basic(1), basic(2), basic(1)]);
    assert_eq!(sorted(set.items()), vec![basic(1).key(), basic(2).key()]);
    assert!(set.contains(&basic(1).key()));
    assert!(!set.contains(&basic(3).key()));
    assert_eq!(WriteSet::new().items(), vec![]);
}

#[test]
fn write_sets_are_compared() {
    let small = write_set(&[basic(1)]);
    let large = write_set(&[basic(1), basic(2)]);
    assert!(small.is_subset_of(&large));
    assert!(!large.is_subset_of(&small));
    assert!(WriteSet::new().is_subset_of(&small));
}

#[test]
fn latest_version_is_the_one_before_the_reader() {
    let mut versions = Versions::new();
    versions.insert(2, entry(1, false));
    versions.insert(5, entry(3, true));
    versions.insert(9, entry(1, false));
    assert_eq!(find_latest_before(&versions, 2), None);
    assert_eq!(find_latest_before(&versions, 3), Some((2, entry(1, false))));
    assert_eq!(find_latest_before(&versions, 5), Some((2, entry(1, false))));
    assert_eq!(find_latest_before(&versions, 9), Some((5, entry(3, true))));
    assert_eq!(find_latest_before(&versions, 100), Some((9, entry(1, false))));
    assert_eq!(find_latest_before(&Versions::new(), 100), None);
}

#[test]
fn versions_are_edited() {
    let versions = edit_versions(Versions::new(), VersionEdit::Write(4, entry(2, false)));
    let versions = edit_versions(versions, VersionEdit::Write(6, entry(1, false)));
    let versions = edit_versions(versions, VersionEdit::MarkEstimate(4));
    let versions = edit_versions(versions, VersionEdit::MarkEstimate(5));
    assert_eq!(versions.len(), 2);
    assert_eq!(versions[&4], entry(2, true));
    assert_eq!(versions[&6], entry(1, false));
    let versions = edit_versions(versions, VersionEdit::Retire(4));
    assert_eq!(versions.len(), 1);
    assert!(!versions.contains_key(&4));
}

#[test]
fn memory_gives_back_what_was_published() {
    let mut memory = MVMemory::new();
    assert_eq!(memory.latest(&basic(1).key(), 10), None);
    memory.publish(&write_set(&[basic(1), basic(2)]), 3, entry(1, false));
    memory.publish(&write_set(&[basic(1)]), 5, entry(2, true));
    assert_eq!(memory.latest(&basic(1).key(), 3), None);
    assert_eq!(memory.latest(&basic(1).key(), 4), Some((3, entry(1, false))));
    assert_eq!(memory.latest(&basic(1).key(), 6), Some((5, entry(2, true))));
    assert_eq!(memory.latest(&basic(2).key(), 6), Some((3, entry(1, false))));
    assert_eq!(memory.latest(&basic(3).key(), 6), None);
}

#[test]
fn memory_marks_only_what_the_transaction_wrote() {
    let mut memory = MVMemory::new();
    memory.publish(&write_set(&[basic(1), basic(2)]), 3, entry(1, false));
    memory.publish(&write_set(&[basic(2)]), 4, entry(1, false));
    memory.mark_estimate(3, &write_set(&[basic(1), basic(2), basic(9)]));
    assert_eq!(memory.latest(&basic(1).key(), 4), Some((3, entry(1, true))));
    assert_eq!(memory.latest(&basic(2).key(), 4), Some((3, entry(1, true))));
    assert_eq!(memory.latest(&basic(2).key(), 5), Some((4, entry(1, false))));
    assert_eq!(memory.latest(&basic(9).key(), 5), None);
}

#[test]
fn memory_retires_what_is_no_longer_written() {
    let mut memory = MVMemory::new();
    let last = write_set(&[basic(1), basic(2)]);
    memory.publish(&last, 3, entry(1, false));
    memory.retire(3, &last, &write_set(&[basic(2), basic(3)]));
    assert_eq!(memory.latest(&basic(1).key(), 4), None);
    assert_eq!(memory.latest(&basic(2).key(), 4), Some((3, entry(1, false))));
}

#[test]
fn detect_set_finds_the_first_gap() {
    let mut set = ContinuousDetectSet::new(4);
    assert_eq!(set.continuous_idx(), 0);
    set.add(1);
    assert_eq!(set.continuous_idx(), 0);
    set.add(0);
    assert_eq!(set.continuous_idx(), 2);
    set.add(0);
    assert_eq!(set.continuous_idx(), 2);
    set.add(3);
    assert_eq!(set.continuous_idx(), 2);
    set.add(2);
    assert_eq!(set.continuous_idx(), 4);
    assert_eq!(ContinuousDetectSet::new(0).continuous_idx(), 0);
}
