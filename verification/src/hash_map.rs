//! A bounded hash table from page ids to frame ids.
//!
//! The slots come in groups of sixteen. A key starts in the group that its
//! hash selects and probes the following groups in order, round the end of the
//! table. A lookup ends at the first group with a slot that was never used.

use crate::hash_map::group::{
    lowest_bit, scan_insert_group, Group, GroupRead, InsertScan, DELETED, EMPTY, GROUP_SIZE,
};
use vstd::prelude::*;

pub mod group;
pub mod lockless;

verus! {

/// The multiplier of the hash function.
pub const HASH_FACTOR: u64 = 0x9e37_79b9_7f4a_7c15;

/// The hash of a key.
pub open spec fn hash_of(key: u64) -> u64 {
    key.wrapping_mul(HASH_FACTOR)
}

/// The seven bits of a hash that are kept in the control byte.
pub open spec fn fingerprint_of(hash: u64) -> u8 {
    (hash % 128) as u8
}

/// The group in which a hash starts, when all hashes are spread evenly, in
/// order, over `count` groups.
pub open spec fn home_of(hash: u64, count: int) -> int {
    hash as int * count / 0x1_0000_0000_0000_0000
}

/// How many steps lead from group `home` to group `g` in a ring of `count`.
pub open spec fn distance(home: int, g: int, count: int) -> int {
    if g >= home {
        g - home
    } else {
        g - home + count
    }
}

/// The group that lies `steps` after `home` in a ring of `count`.
pub open spec fn group_after(home: int, steps: int, count: int) -> int {
    if home + steps < count {
        home + steps
    } else {
        home + steps - count
    }
}

/// How many groups a table for `max_entries` entries needs at least.
pub open spec fn wanted_groups(max_entries: int) -> int {
    if max_entries == 0 {
        1
    } else {
        (max_entries * 2 + 15) / 16
    }
}

/// `groups` is the smallest power of two that leaves half of the slots free
/// when `max_entries` entries are in the table.
pub open spec fn is_group_count(groups: nat, max_entries: int) -> bool {
    &&& vstd::arithmetic::power2::is_pow2(groups as int)
    &&& groups >= wanted_groups(max_entries)
    &&& groups == 1 || groups < 2 * wanted_groups(max_entries)
}

/// The value of a key, if there is one.
pub open spec fn lookup(entries: Map<u64, usize>, key: u64) -> Option<usize> {
    if entries.contains_key(key) {
        Some(entries[key])
    } else {
        None
    }
}

/// The hash of a key is the low half of its product with the multiplier.
pub proof fn law_hash_is_the_low_half(key: u64)
    ensures
        hash_of(key) as int == key as int * 0x9e37_79b9_7f4a_7c15 % 0x1_0000_0000_0000_0000,
{
}

/// A fingerprint is what is left of a hash modulo 128.
pub proof fn law_fingerprint_is_seven_bits(hash: u64)
    ensures
        fingerprint_of(hash) < 128,
        hash as int == 128 * (hash as int / 128) + fingerprint_of(hash),
{
}

/// The hashes are spread over the groups in order and evenly: group `g` is home
/// to the hashes in the `g`-th of `count` equal parts of all hashes.
pub proof fn law_home_is_a_part_of_the_hashes(hash: u64, count: int)
    requires
        count > 0,
    ensures
        home_of(hash, count) * 0x1_0000_0000_0000_0000 <= hash as int * count,
        hash as int * count < (home_of(hash, count) + 1) * 0x1_0000_0000_0000_0000,
{
    vstd::arithmetic::div_mod::lemma_fundamental_div_mod(
        hash as int * count,
        0x1_0000_0000_0000_0000,
    );
    vstd::arithmetic::div_mod::lemma_mod_pos_bound(hash as int * count, 0x1_0000_0000_0000_0000);
}

/// A table has the smallest power of two of groups that leaves half of its slots
/// free when it holds what it was made for.
pub proof fn law_group_count(groups: nat, max_entries: int)
    requires
        0 <= max_entries,
    ensures
        is_group_count(groups, max_entries) <==> {
            &&& vstd::arithmetic::power2::is_pow2(groups as int)
            &&& 16 * groups >= 2 * max_entries
            &&& groups == 1 || 16 * (groups as int / 2) < 2 * max_entries
        },
{
    reveal(vstd::arithmetic::power2::is_pow2);
    if groups > 1 && vstd::arithmetic::power2::is_pow2(groups as int) {
        assert(groups as int % 2 == 0);
    }
}

/// A table has sixteen slots for each of its groups.
pub proof fn law_sixteen_slots_per_group(table: ConcurrentHashMap)
    ensures
        table.capacity() == 16 * table.group_count(),
{
}

/// A lookup finds the value that the entries have for the key, and nothing if
/// they have none.
pub proof fn law_lookup_is_that_of_the_entries(entries: Map<u64, usize>, key: u64, value: usize)
    ensures
        lookup(entries, key) == Some(value) <==> entries.contains_key(key) && entries[key]
            == value,
        lookup(entries, key) is None <==> !entries.contains_key(key),
{
}

/// After an insertion the key has its new value, and every other key is as
/// before.
pub proof fn law_insert_then_get(entries: Map<u64, usize>, key: u64, value: usize, other: u64)
    ensures
        lookup(entries.insert(key, value), other) == (if other == key {
            Some(value)
        } else {
            lookup(entries, other)
        }),
{
}

/// After a removal the key is gone, and every other key is as before.
pub proof fn law_remove_then_get(entries: Map<u64, usize>, key: u64, other: u64)
    ensures
        lookup(entries.remove(key), other) == (if other == key {
            None
        } else {
            lookup(entries, other)
        }),
{
}

/// Removing a key undoes its insertion.
pub proof fn law_remove_undoes_insert(entries: Map<u64, usize>, key: u64, value: usize)
    requires
        lookup(entries, key) is None,
    ensures
        entries.insert(key, value).remove(key) == entries,
{
    assert(entries.insert(key, value).remove(key) =~= entries);
}

/// A table that holds no more than the entries it was made for is at most half
/// full, so it takes another one.
pub proof fn law_table_has_room(groups: nat, max_entries: nat, len: nat)
    requires
        is_group_count(groups, max_entries as int),
        len <= max_entries,
    ensures
        2 * len <= 16 * groups,
        len < 16 * groups,
{
}

/// A table of page ids and frame ids with a fixed number of slots.
pub struct ConcurrentHashMap {
    groups: Vec<Group>,
    group_mask: usize,
    group_shift: u32,
    /// Where each key lies: its group and its slot.
    places: Ghost<Map<u64, (int, int)>>,
}

/// What every group of a table satisfies between two operations.
spec fn group_ok(group: Group) -> bool {
    &&& group.stable()
    &&& group.keys().len() == 16
    &&& group.values().len() == 16
    &&& forall|s: int|
        0 <= s < 16 ==> (#[trigger] group.ctrl(s) < 0x80 || group.ctrl(s) == EMPTY || group.ctrl(s)
            == DELETED)
    &&& forall|s: int| #[trigger]
        group.occupied(s) ==> group.ctrl(s) == fingerprint_of(hash_of(group.keys()[s]))
}

impl ConcurrentHashMap {
    /// The number of groups.
    pub closed spec fn group_count(self) -> nat {
        self.groups@.len()
    }

    /// The number of slots, and so the largest number of entries.
    pub open spec fn capacity(self) -> nat {
        16 * self.group_count()
    }

    /// The groups of the table.
    pub closed spec fn spec_groups(self) -> Seq<Group> {
        self.groups@
    }

    /// The versions of the groups: each change of a group moves its version on
    /// by two.
    pub closed spec fn versions(self) -> Seq<u64> {
        self.groups@.map_values(|group: Group| group.spec_version())
    }

    spec fn home(self, key: u64) -> int {
        home_of(hash_of(key), self.groups@.len() as int)
    }

    spec fn steps_to(self, key: u64, g: int) -> int {
        distance(self.home(key), g, self.groups@.len() as int)
    }

    spec fn shape(self) -> bool {
        &&& self.group_shift <= 64
        &&& self.groups@.len() == vstd::arithmetic::power2::pow2((64 - self.group_shift) as nat)
        &&& self.groups@.len() >= 1
        &&& self.group_mask == self.groups@.len() - 1
    }

    spec fn placed(self, key: u64) -> bool {
        let (g, s) = self.places@[key];
        &&& 0 <= g < self.groups@.len()
        &&& self.groups@[g].holds(s, key)
    }

    /// The invariant of the table: every entry lies where its key is recorded,
    /// no key lies twice, and no group that a key's search visits before its
    /// place has a slot that was never used.
    pub closed spec fn wf(self) -> bool {
        &&& self.shape()
        &&& forall|g: int| 0 <= g < self.groups@.len() ==> group_ok(#[trigger] self.groups@[g])
        &&& forall|g: int, s: int|
            0 <= g < self.groups@.len() && #[trigger] self.groups@[g].occupied(s)
                ==> self.places@.contains_key(self.groups@[g].keys()[s])
                && self.places@[self.groups@[g].keys()[s]] == (g, s)
        &&& forall|key: u64| #[trigger] self.places@.contains_key(key) ==> self.placed(key)
        &&& forall|key: u64, g: int|
            self.places@.contains_key(key) && 0 <= g < self.groups@.len() && #[trigger] self.steps_to(
                key,
                g,
            ) < self.steps_to(key, self.places@[key].0) ==> !self.groups@[g].has_empty()
    }

    proof fn lemma_few_bits(self)
        requires
            self.shape(),
        ensures
            64 - self.group_shift < usize::BITS,
    {
        let bits = (64 - self.group_shift) as nat;
        vstd::arithmetic::power2::lemma2_to64();
        vstd::arithmetic::power2::lemma2_to64_rest();
        assert(self.groups.len() <= usize::MAX);
        if usize::BITS < bits {
            vstd::arithmetic::power2::lemma_pow2_strictly_increases(usize::BITS as nat, bits);
        }
    }

    /// No entry has moved: a key that is in both tables lies in the same slot.
    pub closed spec fn keeps_places(self, new: Self) -> bool {
        &&& new.groups@.len() == self.groups@.len()
        &&& forall|key: u64| #[trigger]
            self.places@.contains_key(key) && new.places@.contains_key(key) ==> new.places@[key]
                == self.places@[key]
    }

    /// The look at the `step`-th group on the search path of a key finds this.
    pub closed spec fn look_says(self, key: u64, step: int, read: GroupRead) -> bool {
        self.groups@[group_after(
            self.home(key),
            step,
            self.groups@.len() as int,
        )].read_says(key, fingerprint_of(hash_of(key)), read)
    }

    /// The hash of a key.
    pub fn hash(key: u64) -> (hash: u64)
        ensures
            hash == hash_of(key),
    {
        key.wrapping_mul(HASH_FACTOR)
    }

    /// The part of a hash that is kept in the control byte.
    pub fn fingerprint(hash: u64) -> (fingerprint: u8)
        ensures
            fingerprint == fingerprint_of(hash),
            fingerprint < 0x80,
    {
        assert(hash & 0x7f == hash % 128) by (bit_vector);
        (hash & 0x7f) as u8
    }

    /// A key starts in one of the groups.
    proof fn lemma_home(self, key: u64)
        requires
            self.shape(),
        ensures
            0 <= self.home(key) < self.groups@.len(),
    {
        let hash = hash_of(key) as int;
        let count = self.groups@.len() as int;
        let whole = 0x1_0000_0000_0000_0000int;
        assert(hash * count < count * whole) by (nonlinear_arith)
            requires
                0 <= hash < whole,
                count > 0,
        ;
        assert(hash * count >= 0) by (nonlinear_arith)
            requires
                0 <= hash,
                count > 0,
        ;
        vstd::arithmetic::div_mod::lemma_multiply_divide_lt(hash * count, whole, count);
    }

    /// The group in which a hash starts.
    pub fn group_id(&self, hash: u64) -> (id: usize)
        requires
            self.wf(),
        ensures
            id == home_of(hash, self.group_count() as int),
            id < self.group_count(),
    {
        let ghost count = self.groups@.len() as int;
        let ghost bits = (64 - self.group_shift) as nat;
        proof {
            vstd::arithmetic::power2::lemma2_to64();
            vstd::arithmetic::power2::lemma2_to64_rest();
        }
        if self.group_mask == 0 {
            assert(hash as int * count == hash as int);
            return 0;
        }
        proof {
            if self.group_shift == 64 {
                assert(count == 1);
            }
            if self.group_shift == 0 {
                assert(count == vstd::arithmetic::power2::pow2(64));
            }
            let shift = self.group_shift as nat;
            vstd::bits::lemma_u64_shr_is_div(hash, self.group_shift as u64);
            vstd::arithmetic::power2::lemma_pow2_adds(bits, shift);
            vstd::arithmetic::power2::lemma_pow2_pos(shift);
            let d = vstd::arithmetic::power2::pow2(shift) as int;
            vstd::arithmetic::div_mod::lemma_div_multiples_vanish_quotient(
                count,
                hash as int,
                d,
            );
            vstd::arithmetic::mul::lemma_mul_is_commutative(count, d);
            vstd::arithmetic::mul::lemma_mul_is_commutative(count, hash as int);
            vstd::arithmetic::div_mod::lemma_multiply_divide_lt(hash as int, d, count);
            assert(hash >> (self.group_shift as u64) == home_of(hash, count));
            self.lemma_few_bits();
            let x = (hash >> (self.group_shift as u64)) as usize;
            vstd::bits::lemma_usize_low_bits_mask_is_mod(x, bits);
            vstd::arithmetic::div_mod::lemma_small_mod(x as nat, count as nat);
        }
        (hash >> (self.group_shift as u64)) as usize & self.group_mask
    }

    /// The group that a search visits after `group_id`.
    fn next_group(&self, group_id: usize) -> (next: usize)
        requires
            self.wf(),
            group_id < self.group_count(),
        ensures
            next == group_after(group_id as int, 1, self.group_count() as int),
            next < self.group_count(),
    {
        proof {
            self.lemma_few_bits();
            assert(self.groups.len() <= usize::MAX);
            let bits = (64 - self.group_shift) as nat;
            let x = (group_id + 1) as usize;
            let count = self.groups@.len();
            vstd::bits::lemma_usize_pow2_no_overflow(bits);
            vstd::bits::lemma_usize_low_bits_mask_is_mod(x, bits);
            if x < count {
                vstd::arithmetic::div_mod::lemma_small_mod(x as nat, count);
            } else {
                vstd::arithmetic::div_mod::lemma_mod_self_0(count as int);
            }
        }
        (group_id + 1) & self.group_mask
    }

    /// An empty table with room for twice `max_entries` entries at least. The
    /// number of groups is the smallest power of two that gives this room.
    pub fn new(max_entries: usize) -> (table: Self)
        requires
            max_entries * 2 + 16 <= usize::MAX,
        ensures
            table.wf(),
            table@ == Map::<u64, usize>::empty(),
            table.capacity() >= 2 * max_entries,
            is_group_count(table.group_count(), max_entries as int),
            table.versions() == Seq::new(table.group_count(), |i: int| 0u64),
    {
        let mut wanted: usize = (max_entries * 2 + GROUP_SIZE - 1) / GROUP_SIZE;
        if wanted == 0 {
            wanted = 1;
        }
        assert(wanted == wanted_groups(max_entries as int));
        let mut group_count: usize = 1;
        let mut group_bits: u32 = 0;
        proof {
            vstd::arithmetic::power2::lemma2_to64();
            vstd::arithmetic::power2::lemma2_to64_rest();
        }
        while group_count < wanted
            invariant
                1 <= group_count,
                group_count == 1 || group_count < 2 * wanted,
                wanted <= usize::MAX / 16,
                group_bits < 64,
                group_count == vstd::arithmetic::power2::pow2(group_bits as nat),
            decreases 2 * wanted - group_count,
        {
            group_count = group_count * 2;
            proof {
                vstd::arithmetic::power2::lemma_pow2_unfold((group_bits + 1) as nat);
                vstd::arithmetic::power2::lemma2_to64();
                vstd::arithmetic::power2::lemma2_to64_rest();
            }
            group_bits = group_bits + 1;
        }
        let mut groups: Vec<Group> = Vec::new();
        while groups.len() < group_count
            invariant
                groups@.len() <= group_count,
                forall|g: int|
                    0 <= g < groups@.len() ==> (#[trigger] groups@[g]).spec_version() == 0
                        && groups@[g].keys().len() == 16 && groups@[g].values().len() == 16 && (
                    forall|s: int| 0 <= s < 16 ==> #[trigger] groups@[g].ctrl(s) == EMPTY),
            decreases group_count - groups@.len(),
        {
            groups.push(Group::new());
        }
        let table = Self {
            groups,
            group_mask: group_count - 1,
            group_shift: 64 - group_bits,
            places: Ghost(Map::empty()),
        };
        proof {
            vstd::arithmetic::power2::is_pow2_equiv(group_count as int);
            assert(vstd::arithmetic::power::pow(2, group_bits as nat) == group_count) by {
                vstd::arithmetic::power2::lemma_pow2(group_bits as nat);
            }
            assert(table.versions() =~= Seq::new(table.group_count(), |i: int| 0u64));
            assert(table@ =~= Map::<u64, usize>::empty());
        }
        table
    }

    /// A search for `key` that has passed `steps` groups has met no entry for
    /// the key and no slot that was never used.
    spec fn passed(self, key: u64, steps: int) -> bool {
        forall|g: int|
            0 <= g < self.groups@.len() && #[trigger] self.steps_to(key, g) < steps
                ==> !self.groups@[g].has_empty() && forall|s: int|
                !#[trigger] self.groups@[g].holds(s, key)
    }

    /// An entry for a key carries the fingerprint of the key.
    proof fn lemma_not_in_group(self, key: u64, g: int)
        requires
            self.wf(),
            0 <= g < self.groups@.len(),
            forall|s: int|
                0 <= s < 16 && #[trigger] self.groups@[g].ctrl(s) == fingerprint_of(hash_of(key))
                    ==> self.groups@[g].keys()[s] != key,
        ensures
            forall|s: int| !#[trigger] self.groups@[g].holds(s, key),
    {
        assert forall|s: int| !#[trigger] self.groups@[g].holds(s, key) by {
            if self.groups@[g].holds(s, key) {
                assert(group_ok(self.groups@[g]));
                assert(self.groups@[g].occupied(s));
            }
        }
    }

    /// A search that ends at a slot that was never used, or has passed every
    /// group, has shown that the key is absent.
    proof fn lemma_absent(self, key: u64, steps: int)
        requires
            self.wf(),
            0 <= self.home(key) < self.groups@.len(),
            self.passed(key, steps),
            steps >= self.groups@.len() || (0 <= steps && ({
                let g = group_after(self.home(key), steps, self.groups@.len() as int);
                self.groups@[g].has_empty() && forall|s: int| !self.groups@[g].holds(s, key)
            })),
        ensures
            !self.places@.contains_key(key),
    {
        if self.places@.contains_key(key) {
            assert(self.placed(key));
            let (g, s) = self.places@[key];
            assert(self.groups@[g].holds(s, key));
            assert(self.steps_to(key, g) >= steps);
            let here = group_after(self.home(key), steps, self.groups@.len() as int);
            assert(self.steps_to(key, here) == steps);
        }
    }

    /// The value of a key, if the table has the key.
    pub fn get(&self, key: u64) -> (value: Option<usize>)
        requires
            self.wf(),
        ensures
            value == lookup(self@, key),
    {
        let hash: u64 = Self::hash(key);
        let fingerprint: u8 = Self::fingerprint(hash);
        let mut group_id: usize = self.group_id(hash);
        let mut step: usize = 0;
        while step < self.groups.len()
            invariant
                self.wf(),
                hash == hash_of(key),
                fingerprint == fingerprint_of(hash),
                fingerprint < 0x80,
                step <= self.groups@.len(),
                0 <= self.home(key) < self.groups@.len(),
                group_id == group_after(self.home(key), step as int, self.groups@.len() as int),
                group_id < self.groups@.len(),
                self.passed(key, step as int),
            decreases self.groups@.len() - step,
        {
            assert(group_ok(self.groups@[group_id as int]));
            match self.groups[group_id].read(key, fingerprint) {
                None => {
                    assert(false);
                },
                Some(GroupRead::Found(value)) => {
                    proof {
                        let group = self.groups@[group_id as int];
                        let s = choose|s: int|
                            0 <= s < 16 && #[trigger] group.ctrl(s) == fingerprint && group.keys()[s]
                                == key && group.values()[s] == value;
                        assert(group.occupied(s));
                    }
                    return Some(value);
                },
                Some(GroupRead::Absent) => {
                    proof {
                        self.lemma_not_in_group(key, group_id as int);
                        self.lemma_absent(key, step as int);
                    }
                    return None;
                },
                Some(GroupRead::Next) => {},
            }
            proof {
                self.lemma_not_in_group(key, group_id as int);
                assert(self.steps_to(key, group_id as int) == step);
            }
            group_id = self.next_group(group_id);
            step = step + 1;
        }
        proof {
            self.lemma_absent(key, step as int);
        }
        None
    }

    /// Everything but one group is as before, and that group has finished one
    /// more write.
    spec fn group_written(self, new: Self, g: int) -> bool {
        &&& 0 <= g < self.groups@.len()
        &&& new.groups@.len() == self.groups@.len()
        &&& forall|i: int|
            0 <= i < self.groups@.len() && i != g ==> #[trigger] new.groups@[i] == self.groups@[i]
        &&& new.groups@[g].spec_version() == self.groups@[g].spec_version().wrapping_add(2)
        &&& new.group_mask == self.group_mask
        &&& new.group_shift == self.group_shift
    }

    /// Exactly one group has been written, once, and the others are as before.
    pub open spec fn wrote_one_group(self, new: Self) -> bool {
        exists|g: int|
            0 <= g < self.group_count() && new.versions() == #[trigger] self.versions().update(
                g,
                self.versions()[g].wrapping_add(2),
            ) && new.spec_groups() == self.spec_groups().update(g, new.spec_groups()[g])
    }

    proof fn lemma_versions(self, new: Self, g: int)
        requires
            self.group_written(new, g),
        ensures
            self.wrote_one_group(new),
            new.group_count() == self.group_count(),
    {
        assert(new.versions() =~= self.versions().update(g, self.versions()[g].wrapping_add(2)));
        assert(new.spec_groups() =~= self.spec_groups().update(g, new.spec_groups()[g]));
    }

    /// Entering a new key into a free slot on its search path.
    #[verifier::rlimit(40)]
    proof fn lemma_put(self, new: Self, key: u64, value: usize, g: int, s: int)
        requires
            self.wf(),
            self.group_written(new, g),
            0 <= s < 16,
            !self.places@.contains_key(key),
            !self.groups@[g].occupied(s),
            self.groups@[g].control_replaced(new.groups@[g], s, fingerprint_of(hash_of(key))),
            new.groups@[g].keys() == self.groups@[g].keys().update(s, key),
            new.groups@[g].values() == self.groups@[g].values().update(s, value),
            new.places@ == self.places@.insert(key, (g, s)),
            forall|i: int|
                0 <= i < self.groups@.len() && #[trigger] self.steps_to(key, i) < self.steps_to(
                    key,
                    g,
                ) ==> !self.groups@[i].has_empty(),
        ensures
            new.wf(),
            new@ == self@.insert(key, value),
    {
        let before = self.groups@[g];
        let after = new.groups@[g];
        assert(group_ok(before));
        assert(after.ctrl(s) < 0x80);
        assert forall|i: int| 0 <= i < 16 && i != s implies #[trigger] after.ctrl(i) == before.ctrl(
            i,
        ) && after.keys()[i] == before.keys()[i] && after.values()[i] == before.values()[i] && (
        after.occupied(i) == before.occupied(i)) by {}
        assert(group_ok(after)) by {
            assert forall|i: int| #[trigger] after.occupied(i) implies after.ctrl(i)
                == fingerprint_of(hash_of(after.keys()[i])) by {
                if i != s {
                    assert(after.ctrl(i) == before.ctrl(i));
                    assert(before.occupied(i));
                }
            }
        }
        assert(!before.has_empty() ==> !after.has_empty()) by {
            if after.has_empty() {
                let i = choose|i: int| 0 <= i < 16 && #[trigger] after.ctrl(i) == EMPTY;
                assert(before.ctrl(i) == EMPTY);
            }
        }
        assert forall|i: int| 0 <= i < self.groups@.len() && !(#[trigger] self.groups@[i]).has_empty()
            implies !new.groups@[i].has_empty() by {}
        assert forall|i: int, j: int|
            0 <= i < new.groups@.len() && #[trigger] new.groups@[i].occupied(
                j,
            ) implies new.places@.contains_key(new.groups@[i].keys()[j])
            && new.places@[new.groups@[i].keys()[j]] == (i, j) by {
            if i == g && j == s {
            } else {
                if i == g {
                    assert(after.ctrl(j) == before.ctrl(j));
                }
                assert(self.groups@[i].occupied(j));
            }
        }
        assert forall|k: u64| #[trigger] new.places@.contains_key(k) implies new.placed(k) by {
            if k != key {
                assert(self.places@.contains_key(k));
                assert(self.placed(k));
                let (i, j) = self.places@[k];
                assert(self.groups@[i].holds(j, k));
                if i == g {
                    assert(j != s);
                    assert(after.ctrl(j) == before.ctrl(j));
                }
            }
        }
        assert forall|k: u64, i: int|
            new.places@.contains_key(k) && 0 <= i < new.groups@.len() && #[trigger] new.steps_to(
                k,
                i,
            ) < new.steps_to(k, new.places@[k].0) implies !new.groups@[i].has_empty() by {
            assert(new.steps_to(k, i) == self.steps_to(k, i));
            if k != key {
                assert(self.places@.contains_key(k));
            }
            assert(!self.groups@[i].has_empty());
        }
        assert(new@ =~= self@.insert(key, value)) by {
            assert forall|k: u64| #[trigger] new@.contains_key(k) && k != key implies new@[k]
                == self@[k] by {
                assert(self.places@.contains_key(k));
                assert(self.placed(k));
                let (i, j) = self.places@[k];
                assert(self.groups@[i].holds(j, k));
                if i == g {
                    assert(j != s);
                    assert(after.ctrl(j) == before.ctrl(j));
                }
            }
        }
    }

    /// Writes an entry into a slot and publishes it.
    fn publish_slot(
        &mut self,
        group_id: usize,
        slot: usize,
        key: u64,
        value: usize,
        fingerprint: u8,
    )
        requires
            group_id < old(self).groups@.len(),
            slot < GROUP_SIZE,
            old(self).groups@[group_id as int].stable(),
        ensures
            old(self).group_written(*final(self), group_id as int),
            old(self).groups@[group_id as int].control_replaced(
                final(self).groups@[group_id as int],
                slot as int,
                fingerprint,
            ),
            final(self).groups@[group_id as int].keys()
                == old(self).groups@[group_id as int].keys().update(slot as int, key),
            final(self).groups@[group_id as int].values()
                == old(self).groups@[group_id as int].values().update(slot as int, value),
            final(self).places == old(self).places,
    {
        let ghost before = self.groups@[group_id as int];
        self.groups[group_id].begin_write();
        self.groups[group_id].set_key(slot, key);
        self.groups[group_id].set_value(slot, value);
        let ghost between = self.groups@[group_id as int];
        self.groups[group_id].set_control(slot, fingerprint);
        let ghost marked = self.groups@[group_id as int];
        self.groups[group_id].end_write();
        proof {
            let after = self.groups@[group_id as int];
            assert forall|i: int| 0 <= i < 16 implies #[trigger] after.ctrl(i) == (if i == slot {
                fingerprint
            } else {
                before.ctrl(i)
            }) by {
                assert(after.ctrl(i) == marked.ctrl(i));
                assert(between.ctrl(i) == before.ctrl(i));
            }
        }
    }

    /// Replacing the value of a key.
    proof fn lemma_replace(self, new: Self, key: u64, value: usize, g: int, s: int)
        requires
            self.wf(),
            self.group_written(new, g),
            self.groups@[g].holds(s, key),
            new.groups@[g].low() == self.groups@[g].low(),
            new.groups@[g].high() == self.groups@[g].high(),
            new.groups@[g].keys() == self.groups@[g].keys(),
            new.groups@[g].values() == self.groups@[g].values().update(s, value),
            new.places == self.places,
        ensures
            new.wf(),
            self@.contains_key(key),
            new@ == self@.insert(key, value),
    {
        let before = self.groups@[g];
        let after = new.groups@[g];
        assert(group_ok(before));
        assert(before.occupied(s));
        assert forall|i: int| #[trigger] after.ctrl(i) == before.ctrl(i) by {}
        assert forall|i: int| #[trigger] after.occupied(i) == before.occupied(i) by {}
        assert(group_ok(after));
        assert(after.has_empty() == before.has_empty()) by {
            if after.has_empty() {
                let i = choose|i: int| 0 <= i < 16 && #[trigger] after.ctrl(i) == EMPTY;
                assert(before.ctrl(i) == EMPTY);
            }
            if before.has_empty() {
                let i = choose|i: int| 0 <= i < 16 && #[trigger] before.ctrl(i) == EMPTY;
                assert(after.ctrl(i) == EMPTY);
            }
        }
        assert forall|i: int, j: int|
            0 <= i < new.groups@.len() && #[trigger] new.groups@[i].occupied(
                j,
            ) implies new.places@.contains_key(new.groups@[i].keys()[j])
            && new.places@[new.groups@[i].keys()[j]] == (i, j) by {
            assert(self.groups@[i].occupied(j));
        }
        assert forall|k: u64| #[trigger] new.places@.contains_key(k) implies new.placed(k) by {
            assert(self.placed(k));
        }
        assert forall|k: u64, i: int|
            new.places@.contains_key(k) && 0 <= i < new.groups@.len() && #[trigger] new.steps_to(
                k,
                i,
            ) < new.steps_to(k, new.places@[k].0) implies !new.groups@[i].has_empty() by {
            assert(new.steps_to(k, i) == self.steps_to(k, i));
            assert(!self.groups@[i].has_empty());
        }
        assert(new@ =~= self@.insert(key, value)) by {
            assert forall|k: u64| #[trigger] new@.contains_key(k) && k != key implies new@[k]
                == self@[k] by {
                assert(self.placed(k));
            }
        }
    }

    /// Giving up the slot of a key.
    proof fn lemma_take(self, new: Self, key: u64, g: int, s: int)
        requires
            self.wf(),
            self.group_written(new, g),
            self.groups@[g].holds(s, key),
            self.groups@[g].control_replaced(new.groups@[g], s, DELETED),
            new.groups@[g].keys() == self.groups@[g].keys(),
            new.groups@[g].values() == self.groups@[g].values(),
            new.places@ == self.places@.remove(key),
        ensures
            new.wf(),
            new@ == self@.remove(key),
    {
        let before = self.groups@[g];
        let after = new.groups@[g];
        assert(group_ok(before));
        assert(before.occupied(s));
        assert(after.ctrl(s) == DELETED);
        assert(group_ok(after)) by {
            assert forall|i: int| #[trigger] after.occupied(i) implies after.ctrl(i)
                == fingerprint_of(hash_of(after.keys()[i])) by {
                assert(after.ctrl(i) == before.ctrl(i));
                assert(before.occupied(i));
            }
        }
        assert(!before.has_empty() ==> !after.has_empty()) by {
            if after.has_empty() {
                let i = choose|i: int| 0 <= i < 16 && #[trigger] after.ctrl(i) == EMPTY;
                assert(before.ctrl(i) == EMPTY);
            }
        }
        assert forall|i: int, j: int|
            0 <= i < new.groups@.len() && #[trigger] new.groups@[i].occupied(
                j,
            ) implies new.places@.contains_key(new.groups@[i].keys()[j])
            && new.places@[new.groups@[i].keys()[j]] == (i, j) by {
            if i == g {
                assert(j != s);
                assert(after.ctrl(j) == before.ctrl(j));
            }
            assert(self.groups@[i].occupied(j));
        }
        assert forall|k: u64| #[trigger] new.places@.contains_key(k) implies new.placed(k) by {
            assert(self.places@.contains_key(k));
            assert(self.placed(k));
            let (i, j) = self.places@[k];
            assert(self.groups@[i].holds(j, k));
            if i == g {
                assert(j != s);
                assert(after.ctrl(j) == before.ctrl(j));
            }
        }
        assert forall|k: u64, i: int|
            new.places@.contains_key(k) && 0 <= i < new.groups@.len() && #[trigger] new.steps_to(
                k,
                i,
            ) < new.steps_to(k, new.places@[k].0) implies !new.groups@[i].has_empty() by {
            assert(self.places@.contains_key(k));
            assert(new.steps_to(k, i) == self.steps_to(k, i));
            assert(!self.groups@[i].has_empty());
        }
        assert(new@ =~= self@.remove(key));
    }

    /// The table is full when every slot holds an entry, and only then.
    proof fn lemma_len(self)
        requires
            self.wf(),
        ensures
            self@.dom().finite(),
            self@.len() <= self.capacity(),
            self@.len() == self.capacity() <==> forall|g: int, s: int|
                0 <= g < self.groups@.len() && 0 <= s < 16
                    ==> #[trigger] self.groups@[g].occupied(s),
    {
        let n = self.capacity() as int;
        let all = vstd::set_lib::set_int_range(0, n);
        vstd::set_lib::lemma_int_range(0, n);
        let dom = self.places@.dom();
        assert(self@.dom() =~= dom);
        let key_of = |i: int| self.groups@[i / 16].keys()[i % 16];
        let index_of = |key: u64| 16 * self.places@[key].0 + self.places@[key].1;
        all.lemma_map_finite(key_of);
        assert forall|key: u64| dom.contains(key) implies all.map(key_of).contains(key) by {
            assert(self.placed(key));
            let i = index_of(key);
            assert(all.contains(i) && key_of(i) == key);
        }
        vstd::set_lib::lemma_set_subset_finite(all.map(key_of), dom);
        let used = dom.map(index_of);
        assert forall|a: u64, b: u64|
            dom.contains(a) && dom.contains(b) && #[trigger] index_of(a) == #[trigger] index_of(
                b,
            ) implies a == b by {
            assert(self.placed(a));
            assert(self.placed(b));
        }
        vstd::set_lib::lemma_map_size(dom, used, index_of);
        assert forall|i: int| used.contains(i) implies all.contains(i) by {
            let key = choose|key: u64| dom.contains(key) && index_of(key) == i;
            assert(self.placed(key));
        }
        vstd::set_lib::lemma_len_subset(used, all);
        if forall|g: int, s: int|
            0 <= g < self.groups@.len() && 0 <= s < 16 ==> #[trigger] self.groups@[g].occupied(s) {
            assert forall|i: int| all.contains(i) implies used.contains(i) by {
                assert(self.groups@[i / 16].occupied(i % 16));
                let key = key_of(i);
                assert(dom.contains(key) && index_of(key) == i);
            }
            assert(used =~= all);
        } else {
            let (g, s) = choose|g: int, s: int|
                0 <= g < self.groups@.len() && 0 <= s < 16 && !#[trigger] self.groups@[g].occupied(
                    s,
                );
            let i = 16 * g + s;
            assert(all.contains(i));
            assert(!used.contains(i)) by {
                if used.contains(i) {
                    let key = choose|key: u64| dom.contains(key) && index_of(key) == i;
                    assert(self.placed(key));
                }
            }
            vstd::set_lib::lemma_len_subset(used, all.remove(i));
        }
    }

    /// A table never holds more entries than it has slots.
    pub proof fn lemma_len_bound(self)
        requires
            self.wf(),
        ensures
            self@.dom().finite(),
            self@.len() <= self.capacity(),
    {
        self.lemma_len();
    }

    /// Enters a value for a key and returns the value that it replaces. A new
    /// key takes the first given-up slot on its search path, or else the first
    /// slot that was never used; it is refused only by a full table.
    #[verifier::rlimit(40)]
    pub fn insert(&mut self, key: u64, value: usize) -> (result: Result<Option<usize>, ()>)
        requires
            old(self).wf(),
        ensures
            final(self).wf(),
            final(self).group_count() == old(self).group_count(),
            result is Err <==> !old(self)@.contains_key(key)
                && old(self)@.len() == old(self).capacity(),
            result matches Ok(previous) ==> {
                &&& previous == lookup(old(self)@, key)
                &&& final(self)@ == old(self)@.insert(key, value)
                &&& old(self).wrote_one_group(*final(self))
            },
            result is Err ==> *final(self) == *old(self),
            old(self).keeps_places(*final(self)),
    {
        let hash: u64 = Self::hash(key);
        let fingerprint: u8 = Self::fingerprint(hash);
        let mut group_id: usize = self.group_id(hash);
        let mut first_deleted: Option<(usize, usize)> = None;
        let mut step: usize = 0;
        proof {
            self.lemma_len();
        }
        while step < self.groups.len()
            invariant
                self.wf(),
                *self == *old(self),
                self@.len() == self.capacity() <==> forall|g: int, s: int|
                    0 <= g < self.groups@.len() && 0 <= s < 16
                        ==> #[trigger] self.groups@[g].occupied(s),
                hash == hash_of(key),
                fingerprint == fingerprint_of(hash),
                fingerprint < 0x80,
                step <= self.groups@.len(),
                0 <= self.home(key) < self.groups@.len(),
                group_id == group_after(self.home(key), step as int, self.groups@.len() as int),
                group_id < self.groups@.len(),
                self.passed(key, step as int),
                first_deleted matches Some(place) ==> place.0 < self.groups@.len() && place.1
                    < GROUP_SIZE && self.steps_to(key, place.0 as int) < step
                    && !self.groups@[place.0 as int].occupied(place.1 as int),
                first_deleted is None ==> forall|g: int, s: int|
                    0 <= g < self.groups@.len() && self.steps_to(key, g) < step && 0 <= s < 16
                        ==> #[trigger] self.groups@[g].occupied(s),
            decreases self.groups@.len() - step,
        {
            let ghost here = self.groups@[group_id as int];
            proof {
                assert(group_ok(here));
                assert(self.steps_to(key, group_id as int) == step);
            }
            let (lo, hi): (u64, u64) = self.groups[group_id].control();
            let scan: InsertScan = scan_insert_group(lo, hi, fingerprint);
            proof {
                assert forall|i: int| 0 <= i < 16 implies (
                #[trigger] crate::hash_map::group::bit(scan.matches, i)
                    <==> here.ctrl(i) == fingerprint) by {}
                assert forall|i: int| 0 <= i < 16 implies (
                #[trigger] crate::hash_map::group::bit(scan.empty, i)
                    <==> here.ctrl(i) == EMPTY) by {}
                crate::hash_map::group::lemma_mask_zero(scan.empty);
                crate::hash_map::group::lemma_mask_zero(scan.deleted);
            }
            let found: Option<usize> = self.groups[group_id].find(scan.matches, key);
            if let Some(slot) = found {
                proof {
                    assert(crate::hash_map::group::bit(scan.matches, slot as int));
                    assert(here.holds(slot as int, key));
                }
                let previous: usize = self.groups[group_id].value(slot);
                self.groups[group_id].begin_write();
                self.groups[group_id].set_value(slot, value);
                self.groups[group_id].end_write();
                proof {
                    old(self).lemma_replace(*self, key, value, group_id as int, slot as int);
                    old(self).lemma_versions(*self, group_id as int);
                    assert(old(self).groups@[group_id as int].occupied(slot as int));
                }
                return Ok(Some(previous));
            }
            proof {
                assert forall|i: int|
                    0 <= i < 16 && #[trigger] here.ctrl(i) == fingerprint implies here.keys()[i]
                    != key by {
                    assert(crate::hash_map::group::bit(scan.matches, i));
                }
                self.lemma_not_in_group(key, group_id as int);
            }
            if first_deleted.is_none() && scan.deleted != 0 {
                let slot: usize = lowest_bit(scan.deleted);
                proof {
                    assert(crate::hash_map::group::bit(scan.deleted, slot as int));
                    assert(here.ctrl(slot as int) >= 0x80);
                }
                first_deleted = Some((group_id, slot));
            }
            if scan.empty != 0 {
                let unused: usize = lowest_bit(scan.empty);
                proof {
                    assert(crate::hash_map::group::bit(scan.empty, unused as int));
                    assert(here.ctrl(unused as int) == EMPTY);
                    self.lemma_absent(key, step as int);
                }
                let (target_group, target_slot): (usize, usize) = match first_deleted {
                    Some(place) => place,
                    None => (group_id, unused),
                };
                self.publish_slot(target_group, target_slot, key, value, fingerprint);
                proof {
                    assert(!old(self).groups@[target_group as int].occupied(target_slot as int));
                    self.places@ = self.places@.insert(
                        key,
                        (target_group as int, target_slot as int),
                    );
                    old(self).lemma_put(
                        *self,
                        key,
                        value,
                        target_group as int,
                        target_slot as int,
                    );
                    old(self).lemma_versions(*self, target_group as int);
                }
                return Ok(None);
            }
            proof {
                assert(!here.has_empty()) by {
                    assert forall|i: int| 0 <= i < 16 implies #[trigger] here.ctrl(i) != EMPTY by {
                        assert(!crate::hash_map::group::bit(scan.empty, i));
                    }
                }
                if first_deleted is None {
                    assert forall|s: int| 0 <= s < 16 implies #[trigger] here.occupied(s) by {
                        assert(!crate::hash_map::group::bit(scan.deleted, s));
                        assert(!crate::hash_map::group::bit(scan.empty, s));
                    }
                    assert forall|g: int, s: int|
                        0 <= g < self.groups@.len() && self.steps_to(key, g) < step + 1 && 0 <= s
                            < 16 implies #[trigger] self.groups@[g].occupied(s) by {
                        if self.steps_to(key, g) == step {
                            assert(g == group_id);
                        }
                    }
                }
            }
            group_id = self.next_group(group_id);
            step = step + 1;
        }
        proof {
            self.lemma_absent(key, step as int);
        }
        if let Some((group_id, slot)) = first_deleted {
            self.publish_slot(group_id, slot, key, value, fingerprint);
            proof {
                assert(!old(self).groups@[group_id as int].occupied(slot as int));
                self.places@ = self.places@.insert(key, (group_id as int, slot as int));
                old(self).lemma_put(*self, key, value, group_id as int, slot as int);
                old(self).lemma_versions(*self, group_id as int);
            }
            return Ok(None);
        }
        Err(())
    }

    /// Removes a key and returns its value. The slot keeps its key and value
    /// and is only marked as given up, so that searches still pass over it.
    pub fn remove(&mut self, key: u64) -> (removed: Option<usize>)
        requires
            old(self).wf(),
        ensures
            final(self).wf(),
            final(self).group_count() == old(self).group_count(),
            removed == lookup(old(self)@, key),
            final(self)@ == old(self)@.remove(key),
            removed is Some ==> old(self).wrote_one_group(*final(self)),
            removed is None ==> *final(self) == *old(self),
            old(self).keeps_places(*final(self)),
    {
        let hash: u64 = Self::hash(key);
        let fingerprint: u8 = Self::fingerprint(hash);
        let mut group_id: usize = self.group_id(hash);
        let mut step: usize = 0;
        while step < self.groups.len()
            invariant
                self.wf(),
                *self == *old(self),
                hash == hash_of(key),
                fingerprint == fingerprint_of(hash),
                fingerprint < 0x80,
                step <= self.groups@.len(),
                0 <= self.home(key) < self.groups@.len(),
                group_id == group_after(self.home(key), step as int, self.groups@.len() as int),
                group_id < self.groups@.len(),
                self.passed(key, step as int),
            decreases self.groups@.len() - step,
        {
            let ghost here = self.groups@[group_id as int];
            proof {
                assert(group_ok(here));
                assert(self.steps_to(key, group_id as int) == step);
            }
            let (lo, hi): (u64, u64) = self.groups[group_id].control();
            let scan: InsertScan = scan_insert_group(lo, hi, fingerprint);
            proof {
                assert forall|i: int| 0 <= i < 16 implies (
                #[trigger] crate::hash_map::group::bit(scan.matches, i)
                    <==> here.ctrl(i) == fingerprint) by {}
                crate::hash_map::group::lemma_mask_zero(scan.empty);
            }
            let found: Option<usize> = self.groups[group_id].find(scan.matches, key);
            if let Some(slot) = found {
                proof {
                    assert(crate::hash_map::group::bit(scan.matches, slot as int));
                    assert(here.holds(slot as int, key));
                    assert(here.occupied(slot as int));
                }
                let value: usize = self.groups[group_id].value(slot);
                self.groups[group_id].begin_write();
                let ghost marked = self.groups@[group_id as int];
                self.groups[group_id].set_control(slot, DELETED);
                let ghost given_up = self.groups@[group_id as int];
                self.groups[group_id].end_write();
                proof {
                    let after = self.groups@[group_id as int];
                    assert forall|i: int| 0 <= i < 16 implies #[trigger] after.ctrl(i) == (if i
                        == slot {
                        DELETED
                    } else {
                        here.ctrl(i)
                    }) by {
                        assert(after.ctrl(i) == given_up.ctrl(i));
                        assert(marked.ctrl(i) == here.ctrl(i));
                    }
                    self.places@ = self.places@.remove(key);
                    old(self).lemma_take(*self, key, group_id as int, slot as int);
                    old(self).lemma_versions(*self, group_id as int);
                }
                return Some(value);
            }
            proof {
                assert forall|i: int|
                    0 <= i < 16 && #[trigger] here.ctrl(i) == fingerprint implies here.keys()[i]
                    != key by {
                    assert(crate::hash_map::group::bit(scan.matches, i));
                }
                self.lemma_not_in_group(key, group_id as int);
            }
            if scan.empty != 0 {
                proof {
                    let i = choose|i: int|
                        0 <= i < 16 && #[trigger] crate::hash_map::group::bit(scan.empty, i);
                    assert(here.ctrl(i) == EMPTY);
                    self.lemma_absent(key, step as int);
                    assert(self@.remove(key) =~= self@);
                }
                return None;
            }
            proof {
                assert(!here.has_empty()) by {
                    assert forall|i: int| 0 <= i < 16 implies #[trigger] here.ctrl(i) != EMPTY by {
                        assert(!crate::hash_map::group::bit(scan.empty, i));
                    }
                }
            }
            group_id = self.next_group(group_id);
            step = step + 1;
        }
        proof {
            self.lemma_absent(key, step as int);
            assert(self@.remove(key) =~= self@);
        }
        None
    }
}

impl View for ConcurrentHashMap {
    type V = Map<u64, usize>;

    /// The entries of the table.
    closed spec fn view(&self) -> Map<u64, usize> {
        Map::new(
            |key: u64| self.places@.contains_key(key),
            |key: u64| self.groups@[self.places@[key].0].values()[self.places@[key].1],
        )
    }
}

} // verus!
