use vstd::prelude::*;

use crate::util::bytes::{i32_list_bytes, put_i32_list, put_str, text_bytes};
use crate::util::hash::{hashes_equal, Hashed};

verus! {

/// Temperatures read at the chosen locations, in tenths of a degree Celsius.
#[derive(Debug, PartialEq, Eq)]
pub struct Beacon {
    pub values: Vec<i32>,
}

impl View for Beacon {
    type V = Seq<i32>;

    open spec fn view(&self) -> Seq<i32> {
        self.values@
    }
}

impl Clone for Beacon {
    fn clone(&self) -> (res: Self)
        ensures
            res@ == self@,
    {
        let mut values: Vec<i32> = Vec::new();
        let mut i: usize = 0;
        while i < self.values.len()
            invariant
                i <= self.values@.len(),
                values@ == self.values@.take(i as int),
            decreases self.values@.len() - i,
        {
            values.push(self.values[i]);
            i = i + 1;
            assert(values@ =~= self.values@.take(i as int));
        }
        assert(self.values@.take(i as int) =~= self.values@);
        Beacon { values }
    }
}

/// What a beacon is read for: the hash of the latest block and the time of
/// the block that follows it.
#[derive(Debug, Clone, Copy, PartialEq, Eq, Hash)]
pub struct BeaconKey {
    pub latest_block_hash: Hashed,
    pub timestamp: i64,
}

/// A beacon key as a value.
pub open spec fn key_view(k: BeaconKey) -> (Seq<u8>, i64) {
    (k.latest_block_hash@, k.timestamp)
}

impl BeaconKey {
    /// The key of the beacon for the block after `latest_block_hash` at
    /// `timestamp`.
    pub fn new(latest_block_hash: &Hashed, timestamp: i64) -> (res: Self)
        ensures
            res.latest_block_hash@ == latest_block_hash@,
            res.timestamp == timestamp,
    {
        BeaconKey { latest_block_hash: *latest_block_hash, timestamp }
    }
}

/// Where beacons that were read are kept for later checks.
pub trait BeaconCache {
    /// The beacon kept under `key`, if any.
    fn get(&self, key: &BeaconKey) -> Option<Beacon>;

    /// Keeps `beacon` under `key`, replacing what was kept there.
    fn insert(&mut self, key: BeaconKey, beacon: Beacon);
}

/// A beacon cache held in memory: one entry per key.
pub struct InMemoryBeaconCache {
    entries: Vec<(BeaconKey, Beacon)>,
}

/// The beacons kept in a sequence of entries, by key (later entries win).
pub open spec fn entries_map(entries: Seq<(BeaconKey, Beacon)>) -> Map<(Seq<u8>, i64), Seq<i32>>
    decreases entries.len(),
{
    if entries.len() == 0 {
        Map::empty()
    } else {
        entries_map(entries.drop_last()).insert(key_view(entries.last().0), entries.last().1@)
    }
}

proof fn lemma_entries_map_distinct(entries: Seq<(BeaconKey, Beacon)>, i: int)
    requires
        0 <= i < entries.len(),
        forall|a: int, b: int|
            0 <= a < entries.len() && 0 <= b < entries.len() && a != b ==> key_view(
                #[trigger] entries[a].0,
            ) != key_view(#[trigger] entries[b].0),
    ensures
        entries_map(entries).contains_key(key_view(entries[i].0)),
        entries_map(entries)[key_view(entries[i].0)] == entries[i].1@,
    decreases entries.len(),
{
    let last = entries.len() - 1;
    if i < last {
        lemma_entries_map_distinct(entries.drop_last(), i);
        assert(key_view(entries[i].0) != key_view(entries[last].0));
    }
}

proof fn lemma_entries_map_absent(entries: Seq<(BeaconKey, Beacon)>, k: (Seq<u8>, i64))
    requires
        forall|a: int| 0 <= a < entries.len() ==> key_view(#[trigger] entries[a].0) != k,
    ensures
        !entries_map(entries).contains_key(k),
    decreases entries.len(),
{
    if entries.len() > 0 {
        lemma_entries_map_absent(entries.drop_last(), k);
    }
}

proof fn lemma_entries_map_dom(entries: Seq<(BeaconKey, Beacon)>, k: (Seq<u8>, i64))
    requires
        entries_map(entries).contains_key(k),
    ensures
        exists|a: int| 0 <= a < entries.len() && key_view(#[trigger] entries[a].0) == k,
{
    if forall|a: int| 0 <= a < entries.len() ==> key_view(#[trigger] entries[a].0) != k {
        lemma_entries_map_absent(entries, k);
    }
}

impl View for InMemoryBeaconCache {
    type V = Map<(Seq<u8>, i64), Seq<i32>>;

    closed spec fn view(&self) -> Map<(Seq<u8>, i64), Seq<i32>> {
        entries_map(self.entries@)
    }
}

impl InMemoryBeaconCache {
    #[verifier::type_invariant]
    spec fn keys_distinct(self) -> bool {
        forall|a: int, b: int|
            0 <= a < self.entries@.len() && 0 <= b < self.entries@.len() && a != b ==> key_view(
                #[trigger] self.entries@[a].0,
            ) != key_view(#[trigger] self.entries@[b].0)
    }

    /// An empty cache.
    pub fn new() -> (res: Self)
        ensures
            res@ == Map::<(Seq<u8>, i64), Seq<i32>>::empty(),
    {
        let res = InMemoryBeaconCache { entries: Vec::new() };
        assert(res@ =~= Map::<(Seq<u8>, i64), Seq<i32>>::empty());
        res
    }

    /// The index of the entry with `key`, if any.
    fn position(&self, key: &BeaconKey) -> (res: Option<usize>)
        ensures
            match res {
                Some(i) => i < self.entries@.len() && key_view(self.entries@[i as int].0) == key_view(*key),
                None => forall|a: int|
                    0 <= a < self.entries@.len() ==> key_view(#[trigger] self.entries@[a].0) != key_view(*key),
            },
    {
        let mut i: usize = 0;
        while i < self.entries.len()
            invariant
                i <= self.entries@.len(),
                forall|a: int|
                    0 <= a < i ==> key_view(#[trigger] self.entries@[a].0) != key_view(*key),
            decreases self.entries@.len() - i,
        {
            if hashes_equal(&self.entries[i].0.latest_block_hash, &key.latest_block_hash)
                && self.entries[i].0.timestamp == key.timestamp {
                return Some(i);
            }
            i = i + 1;
        }
        None
    }
}

impl BeaconCache for InMemoryBeaconCache {
    /// The beacon kept under `key`, if any.
    fn get(&self, key: &BeaconKey) -> (res: Option<Beacon>)
        ensures
            match res {
                Some(b) => self@.contains_key(key_view(*key)) && self@[key_view(*key)] == b@,
                None => !self@.contains_key(key_view(*key)),
            },
    {
        proof {
            use_type_invariant(self);
        }
        match self.position(key) {
            Some(i) => {
                proof {
                    lemma_entries_map_distinct(self.entries@, i as int);
                }
                Some(self.entries[i].1.clone())
            },
            None => {
                proof {
                    lemma_entries_map_absent(self.entries@, key_view(*key));
                }
                None
            },
        }
    }

    /// Keeps `beacon` under `key`, replacing what was kept there.
    fn insert(&mut self, key: BeaconKey, beacon: Beacon)
        ensures
            final(self)@ == old(self)@.insert(key_view(key), beacon@),
    {
        proof {
            use_type_invariant(&*self);
        }
        let ghost old_entries = self.entries@;
        let pos = self.position(&key);
        let mut entries: Vec<(BeaconKey, Beacon)> = Vec::new();
        let mut i: usize = 0;
        while i < self.entries.len()
            invariant
                i <= self.entries@.len(),
                self.entries@ == old_entries,
                entries@.len() == i,
                forall|a: int, b: int|
                    0 <= a < old_entries.len() && 0 <= b < old_entries.len() && a != b ==> key_view(
                        #[trigger] old_entries[a].0,
                    ) != key_view(#[trigger] old_entries[b].0),
                pos matches Some(p) ==> p < old_entries.len() && key_view(old_entries[p as int].0)
                    == key_view(key),
                pos is None ==> forall|a: int|
                    0 <= a < old_entries.len() ==> key_view(#[trigger] old_entries[a].0) != key_view(key),
                forall|a: int|
                    0 <= a < i ==> key_view(#[trigger] entries@[a].0) == key_view(old_entries[a].0),
                forall|a: int|
                    0 <= a < i ==> (#[trigger] entries@[a].1)@ == (if pos == Some(a as usize) {
                        beacon@
                    } else {
                        old_entries[a].1@
                    }),
            decreases self.entries@.len() - i,
        {
            let e = if pos == Some(i) {
                (key, beacon.clone())
            } else {
                (self.entries[i].0, self.entries[i].1.clone())
            };
            entries.push(e);
            i = i + 1;
        }
        if pos.is_none() {
            entries.push((key, beacon));
        }
        let ghost new_entries = entries@;
        proof {
            assert forall|a: int, b: int|
                0 <= a < new_entries.len() && 0 <= b < new_entries.len() && a != b implies key_view(
                #[trigger] new_entries[a].0,
            ) != key_view(#[trigger] new_entries[b].0) by {
                if a < old_entries.len() && b < old_entries.len() {
                } else if a < old_entries.len() {
                    assert(key_view(new_entries[a].0) == key_view(old_entries[a].0));
                } else {
                    assert(key_view(new_entries[b].0) == key_view(old_entries[b].0));
                }
            }
            let m = old(self)@.insert(key_view(key), beacon@);
            assert forall|k: (Seq<u8>, i64)| #[trigger] entries_map(new_entries).contains_key(k) <==> m.contains_key(k) by {
                if entries_map(new_entries).contains_key(k) {
                    lemma_entries_map_dom(new_entries, k);
                    let a = choose|a: int| 0 <= a < new_entries.len() && key_view(#[trigger] new_entries[a].0) == k;
                    if a < old_entries.len() {
                        lemma_entries_map_distinct(old_entries, a);
                    }
                }
                if m.contains_key(k) && k != key_view(key) {
                    lemma_entries_map_dom(old_entries, k);
                    let a = choose|a: int| 0 <= a < old_entries.len() && key_view(#[trigger] old_entries[a].0) == k;
                    lemma_entries_map_distinct(new_entries, a);
                }
                if k == key_view(key) {
                    match pos {
                        Some(p) => lemma_entries_map_distinct(new_entries, p as int),
                        None => lemma_entries_map_distinct(new_entries, new_entries.len() - 1),
                    }
                }
            }
            assert forall|k: (Seq<u8>, i64)| #[trigger] entries_map(new_entries).contains_key(k) implies entries_map(new_entries)[k] == m[k] by {
                lemma_entries_map_dom(new_entries, k);
                let a = choose|a: int| 0 <= a < new_entries.len() && key_view(#[trigger] new_entries[a].0) == k;
                lemma_entries_map_distinct(new_entries, a);
                if a < old_entries.len() && pos != Some(a as usize) {
                    lemma_entries_map_distinct(old_entries, a);
                }
            }
            assert(entries_map(new_entries) =~= m);
        }
        self.entries = entries;
    }
}

/// Whether two beacons agree: every temperature they both have differs by
/// at most half a degree (five tenths).
pub open spec fn spec_beacons_agree(own: Seq<i32>, target: Seq<i32>) -> bool {
    forall|i: int|
        0 <= i < own.len() && i < target.len() ==> -5 <= (#[trigger] own[i]) - target[i] <= 5
}

/// Whether a block's beacon agrees with the beacon this node read: the
/// temperatures they both have differ by at most five tenths of a degree.
pub fn is_valid_beacon(own_beacon: &Beacon, target_beacon: &Beacon) -> (res: bool)
    ensures
        res == spec_beacons_agree(own_beacon@, target_beacon@),
{
    let mut i: usize = 0;
    while i < own_beacon.values.len() && i < target_beacon.values.len()
        invariant
            i <= own_beacon@.len(),
            forall|j: int|
                0 <= j < i && j < target_beacon@.len() ==> -5 <= (#[trigger] own_beacon@[j])
                    - target_beacon@[j] <= 5,
        decreases own_beacon@.len() - i,
    {
        let d: i64 = own_beacon.values[i] as i64 - target_beacon.values[i] as i64;
        if d < -5 || d > 5 {
            return false;
        }
        i = i + 1;
    }
    true
}

/// The indices of the locations whose temperatures make a beacon: one per
/// byte of the latest block's hash, that byte modulo the number of
/// locations (none when there are no locations).
pub fn choose_location_indices(latest_block_hash: &Hashed, location_count: usize) -> (res: Vec<usize>)
    ensures
        location_count == 0 ==> res@.len() == 0,
        location_count > 0 ==> res@ == Seq::new(
            32,
            |i: int| (latest_block_hash@[i] as usize % location_count) as usize,
        ),
{
    let mut res: Vec<usize> = Vec::new();
    if location_count == 0 {
        return res;
    }
    let mut i: usize = 0;
    while i < 32
        invariant
            i <= 32,
            location_count > 0,
            latest_block_hash@.len() == 32,
            res@ == Seq::new(i as nat, |j: int| (latest_block_hash@[j] as usize % location_count) as usize),
        decreases 32 - i,
    {
        res.push(latest_block_hash[i] as usize % location_count);
        i = i + 1;
        assert(res@ =~= Seq::new(i as nat, |j: int| (latest_block_hash@[j] as usize % location_count) as usize));
    }
    res
}

/// A beacon as `Debug` writes it: `Beacon { values: [...] }`.
pub open spec fn beacon_debug_bytes(values: Seq<i32>) -> Seq<u8> {
    text_bytes("Beacon { values: ") + i32_list_bytes(values) + text_bytes(" }")
}

/// Appends a beacon as `Debug` writes it.
pub fn put_beacon_debug(buf: &mut Vec<u8>, beacon: &Beacon)
    ensures
        final(buf)@ == old(buf)@ + beacon_debug_bytes(beacon@),
{
    put_str(buf, "Beacon { values: ");
    put_i32_list(buf, beacon.values.as_slice());
    put_str(buf, " }");
    assert(final(buf)@ =~= old(buf)@ + beacon_debug_bytes(beacon@));
}

} // verus!
