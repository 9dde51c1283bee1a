//! One group of the hash table: sixteen slots and their control bytes.
//!
//! The control bytes of a group fill two words. A control byte is `EMPTY`,
//! `DELETED`, or the seven-bit fingerprint of the key in that slot. The
//! group's version is even while the group is stable and odd while a writer is
//! at work on it.

use vstd::prelude::*;

verus! {

/// The number of slots in a group.
pub const GROUP_SIZE: usize = 16;

/// The control byte of a slot that was never used.
pub const EMPTY: u8 = 0x80;

/// The control byte of a slot whose entry was removed.
pub const DELETED: u8 = 0xfe;

/// Eight control bytes that are all `EMPTY`.
const EMPTY_WORD: u64 = 0x8080_8080_8080_8080;

/// Byte `k` of a word, counted from the low end.
pub open spec fn byte_at(word: u64, k: int) -> u8 {
    ((word >> ((8 * k) as u64)) & 0xff) as u8
}

/// The control byte of a slot in the two control words of a group.
pub open spec fn control_at(lo: u64, hi: u64, slot: int) -> u8 {
    if slot < 8 {
        byte_at(lo, slot)
    } else {
        byte_at(hi, slot - 8)
    }
}

/// Whether bit `i` of a slot mask is set.
pub open spec fn bit(mask: u16, i: int) -> bool {
    (mask >> (i as u16)) & 1 == 1
}

/// What one look at a group says about a key.
#[derive(Clone, Copy, Debug, PartialEq, Eq, Structural)]
pub enum GroupRead {
    /// The group holds the key with this value.
    Found(usize),
    /// The key is nowhere: the group has a slot that was never used.
    Absent,
    /// The key may be in a later group.
    Next,
}

/// The slots of a group that matter to an insertion, one bit per slot.
pub struct InsertScan {
    /// The slots whose control byte is the fingerprint.
    pub matches: u16,
    /// The slots that were never used.
    pub empty: u16,
    /// The slots whose entry was removed.
    pub deleted: u16,
}

proof fn lemma_no_bits(i: int)
    requires
        0 <= i < 16,
    ensures
        !bit(0, i),
{
    let j = i as u16;
    assert((0u16 >> j) & 1 == 0) by (bit_vector);
}

proof fn lemma_set_bit(mask: u16, i: int, j: int)
    requires
        0 <= i < 16,
        0 <= j < 16,
    ensures
        bit(mask | (1u16 << (i as u16)), j) == (i == j || bit(mask, j)),
{
    let a = i as u16;
    let b = j as u16;
    assert(((mask | (1u16 << a)) >> b) & 1 == 1 <==> (a == b || (mask >> b) & 1 == 1))
        by (bit_vector)
        requires
            a < 16,
            b < 16,
    ;
}

/// A mask with no bit set is zero, and the other way round.
pub proof fn lemma_mask_zero(mask: u16)
    ensures
        mask == 0 <==> forall|i: int| 0 <= i < 16 ==> !#[trigger] bit(mask, i),
{
    if mask == 0 {
        assert forall|i: int| 0 <= i < 16 implies !#[trigger] bit(mask, i) by {
            lemma_no_bits(i);
        }
    } else {
        vstd::std_specs::bits::axiom_u16_trailing_zeros(mask);
        let t = vstd::std_specs::bits::u16_trailing_zeros(mask) as int;
        assert(bit(mask, t));
    }
}

/// Clearing the lowest set bit of a mask clears that bit and no other.
proof fn lemma_clear_lowest(mask: u16, t: u16)
    requires
        t < 16,
        mask != 0,
        bit(mask, t as int),
        forall|i: int| 0 <= i < t ==> !#[trigger] bit(mask, i),
    ensures
        forall|i: int|
            0 <= i < 16 ==> (#[trigger] bit(mask & ((mask - 1) as u16), i) <==> (bit(mask, i) && i
                != t)),
        mask & ((mask - 1) as u16) < mask,
{
    assert(mask & ((mask - 1) as u16) < mask) by (bit_vector)
        requires
            mask != 0,
    ;
    assert(mask & ((1u16 << t) - 1) as u16 == 0) by {
        let low = mask & ((1u16 << t) - 1) as u16;
        if low != 0 {
            vstd::std_specs::bits::axiom_u16_trailing_zeros(low);
            let k = vstd::std_specs::bits::u16_trailing_zeros(low) as u16;
            assert(k < t && (mask >> k) & 1 == 1) by (bit_vector)
                requires
                    low == mask & ((1u16 << t) - 1) as u16,
                    (low >> k) & 1 == 1,
                    k < 16,
                    t < 16,
            ;
            assert(bit(mask, k as int));
        }
    }
    assert forall|i: int| 0 <= i < 16 implies (#[trigger] bit(mask & ((mask - 1) as u16), i) <==> (
    bit(mask, i) && i != t)) by {
        let j = i as u16;
        assert(((mask & ((mask - 1) as u16)) >> j) & 1 == 1 <==> ((mask >> j) & 1 == 1 && j != t))
            by (bit_vector)
            requires
                mask != 0,
                j < 16,
                t < 16,
                (mask >> t) & 1 == 1,
                mask & ((1u16 << t) - 1) as u16 == 0,
        ;
    }
}

/// The lowest set bit of a mask.
pub fn lowest_bit(mask: u16) -> (slot: usize)
    requires
        mask != 0,
    ensures
        slot < GROUP_SIZE,
        bit(mask, slot as int),
        forall|i: int| 0 <= i < slot ==> !#[trigger] bit(mask, i),
{
    proof {
        vstd::std_specs::bits::axiom_u16_trailing_zeros(mask);
    }
    let t: u32 = mask.trailing_zeros();
    assert forall|i: int| 0 <= i < t implies !#[trigger] bit(mask, i) by {
        let j = i as u16;
        assert((mask >> j) & 1u16 == 0u16);
    }
    t as usize
}

/// The control byte of a slot in the two control words of a group.
pub fn control_byte(lo: u64, hi: u64, slot: usize) -> (control: u8)
    requires
        slot < GROUP_SIZE,
    ensures
        control == control_at(lo, hi, slot as int),
{
    if slot < 8 {
        ((lo >> (8 * slot as u64)) & 0xff) as u8
    } else {
        ((hi >> (8 * (slot - 8) as u64)) & 0xff) as u8
    }
}

/// The slots whose control byte equals `target`.
fn equal_mask(lo: u64, hi: u64, target: u8) -> (mask: u16)
    ensures
        forall|i: int| 0 <= i < 16 ==> (#[trigger] bit(mask, i) <==> control_at(lo, hi, i) == target),
{
    let mut mask: u16 = 0;
    let mut slot: usize = 0;
    proof {
        assert forall|i: int| 0 <= i < 16 implies !#[trigger] bit(mask, i) by {
            lemma_no_bits(i);
        }
    }
    while slot < GROUP_SIZE
        invariant
            slot <= GROUP_SIZE,
            forall|i: int|
                0 <= i < 16 ==> (#[trigger] bit(mask, i) <==> (i < slot && control_at(lo, hi, i)
                    == target)),
        decreases GROUP_SIZE - slot,
    {
        if control_byte(lo, hi, slot) == target {
            let ghost before = mask;
            mask = mask | (1u16 << (slot as u16));
            proof {
                assert forall|i: int| 0 <= i < 16 implies (#[trigger] bit(mask, i) <==> (i < slot
                    + 1 && control_at(lo, hi, i) == target)) by {
                    lemma_set_bit(before, slot as int, i);
                }
            }
        }
        slot = slot + 1;
    }
    mask
}

/// The slots whose control byte has its top bit set.
fn special_mask(lo: u64, hi: u64) -> (mask: u16)
    ensures
        forall|i: int| 0 <= i < 16 ==> (#[trigger] bit(mask, i) <==> control_at(lo, hi, i) >= 0x80),
{
    let mut mask: u16 = 0;
    let mut slot: usize = 0;
    proof {
        assert forall|i: int| 0 <= i < 16 implies !#[trigger] bit(mask, i) by {
            lemma_no_bits(i);
        }
    }
    while slot < GROUP_SIZE
        invariant
            slot <= GROUP_SIZE,
            forall|i: int|
                0 <= i < 16 ==> (#[trigger] bit(mask, i) <==> (i < slot && control_at(lo, hi, i)
                    >= 0x80)),
        decreases GROUP_SIZE - slot,
    {
        if control_byte(lo, hi, slot) >= 0x80 {
            let ghost before = mask;
            mask = mask | (1u16 << (slot as u16));
            proof {
                assert forall|i: int| 0 <= i < 16 implies (#[trigger] bit(mask, i) <==> (i < slot
                    + 1 && control_at(lo, hi, i) >= 0x80)) by {
                    lemma_set_bit(before, slot as int, i);
                }
            }
        }
        slot = slot + 1;
    }
    mask
}

/// The slots that match a fingerprint, and the slots that were never used.
pub fn scan_lookup_group(lo: u64, hi: u64, fingerprint: u8) -> (masks: (u16, u16))
    ensures
        forall|i: int|
            0 <= i < 16 ==> (#[trigger] bit(masks.0, i) <==> control_at(lo, hi, i) == fingerprint),
        forall|i: int|
            0 <= i < 16 ==> (#[trigger] bit(masks.1, i) <==> control_at(lo, hi, i) == EMPTY),
{
    (equal_mask(lo, hi, fingerprint), equal_mask(lo, hi, EMPTY))
}

/// The slots that match a fingerprint, were never used, or were given up.
pub fn scan_insert_group(lo: u64, hi: u64, fingerprint: u8) -> (scan: InsertScan)
    ensures
        forall|i: int|
            0 <= i < 16 ==> (#[trigger] bit(scan.matches, i) <==> control_at(lo, hi, i)
                == fingerprint),
        forall|i: int|
            0 <= i < 16 ==> (#[trigger] bit(scan.empty, i) <==> control_at(lo, hi, i) == EMPTY),
        forall|i: int|
            0 <= i < 16 ==> (#[trigger] bit(scan.deleted, i) <==> control_at(lo, hi, i) >= 0x80
                && control_at(lo, hi, i) != EMPTY),
{
    let matches: u16 = equal_mask(lo, hi, fingerprint);
    let empty: u16 = equal_mask(lo, hi, EMPTY);
    let special: u16 = special_mask(lo, hi);
    let deleted: u16 = special & !empty;
    proof {
        assert forall|i: int| 0 <= i < 16 implies (#[trigger] bit(deleted, i) <==> control_at(
            lo,
            hi,
            i,
        ) >= 0x80 && control_at(lo, hi, i) != EMPTY) by {
            let j = i as u16;
            assert(((special & !empty) >> j) & 1 == 1 <==> ((special >> j) & 1 == 1 && (empty >> j)
                & 1 != 1)) by (bit_vector)
                requires
                    j < 16,
            ;
            assert(bit(special, i) <==> control_at(lo, hi, i) >= 0x80);
            assert(bit(empty, i) <==> control_at(lo, hi, i) == EMPTY);
        }
    }
    InsertScan { matches, empty, deleted }
}

/// One group of slots. Its content is changed only through methods that ask
/// for an odd version.
pub struct Group {
    /// Even: stable. Odd: a writer is changing the group.
    version: u64,
    control_low: u64,
    control_high: u64,
    keys: [u64; 16],
    values: [usize; 16],
}

/// A word with byte `k` replaced.
proof fn lemma_replace_byte(word: u64, k: u64, control: u8, new: u64)
    requires
        k < 8,
        new == (word & !(0xffu64 << ((8 * k) as u64))) | ((control as u64) << ((8 * k) as u64)),
    ensures
        forall|j: int|
            0 <= j < 8 ==> #[trigger] byte_at(new, j) == (if j == k {
                control
            } else {
                byte_at(word, j)
            }),
{
    assert forall|j: int| 0 <= j < 8 implies #[trigger] byte_at(new, j) == (if j == k {
        control
    } else {
        byte_at(word, j)
    }) by {
        let i = j as u64;
        assert(((new >> ((8 * i) as u64)) & 0xff) as u8 == (if i == k {
            control
        } else {
            ((word >> ((8 * i) as u64)) & 0xff) as u8
        })) by (bit_vector)
            requires
                i < 8,
                k < 8,
                new == (word & !(0xffu64 << ((8 * k) as u64))) | ((control as u64) << ((8
                    * k) as u64)),
        ;
    }
}

/// Every byte of the empty word is `EMPTY`.
proof fn lemma_empty_word()
    ensures
        forall|j: int| 0 <= j < 8 ==> #[trigger] byte_at(EMPTY_WORD, j) == EMPTY,
{
    assert forall|j: int| 0 <= j < 8 implies #[trigger] byte_at(EMPTY_WORD, j) == EMPTY by {
        let i = j as u64;
        assert(((0x8080_8080_8080_8080u64 >> ((8 * i) as u64)) & 0xff) as u8 == 0x80u8)
            by (bit_vector)
            requires
                i < 8,
        ;
    }
}

/// Control byte `slot` of a group is digit `slot` of its low word to the base 256,
/// or digit `slot - 8` of its high word.
pub proof fn law_control_bytes_are_digits(lo: u64, hi: u64)
    ensures
        control_at(lo, hi, 0) as int == lo as int % 0x100,
        control_at(lo, hi, 1) as int == lo as int / 0x100 % 0x100,
        control_at(lo, hi, 2) as int == lo as int / 0x1_0000 % 0x100,
        control_at(lo, hi, 3) as int == lo as int / 0x100_0000 % 0x100,
        control_at(lo, hi, 4) as int == lo as int / 0x1_0000_0000 % 0x100,
        control_at(lo, hi, 5) as int == lo as int / 0x100_0000_0000 % 0x100,
        control_at(lo, hi, 6) as int == lo as int / 0x1_0000_0000_0000 % 0x100,
        control_at(lo, hi, 7) as int == lo as int / 0x100_0000_0000_0000 % 0x100,
        forall|slot: int| 8 <= slot < 16 ==> #[trigger] control_at(lo, hi, slot) == control_at(
            hi,
            lo,
            slot - 8,
        ),
{
    lemma_bytes_are_digits(lo);
}

proof fn lemma_bytes_are_digits(word: u64)
    ensures
        byte_at(word, 0) as int == word as int % 0x100,
        byte_at(word, 1) as int == word as int / 0x100 % 0x100,
        byte_at(word, 2) as int == word as int / 0x1_0000 % 0x100,
        byte_at(word, 3) as int == word as int / 0x100_0000 % 0x100,
        byte_at(word, 4) as int == word as int / 0x1_0000_0000 % 0x100,
        byte_at(word, 5) as int == word as int / 0x100_0000_0000 % 0x100,
        byte_at(word, 6) as int == word as int / 0x1_0000_0000_0000 % 0x100,
        byte_at(word, 7) as int == word as int / 0x100_0000_0000_0000 % 0x100,
{
    assert(((word >> 0u64) & 0xff) as u8 == word % 0x100u64 && ((word >> 8u64) & 0xff) as u8 == word
        / 0x100u64 % 0x100u64 && ((word >> 16u64) & 0xff) as u8 == word / 0x1_0000u64 % 0x100u64 && ((
    word >> 24u64) & 0xff) as u8 == word / 0x100_0000u64 % 0x100u64 && ((word >> 32u64)
        & 0xff) as u8 == word / 0x1_0000_0000u64 % 0x100u64 && ((word >> 40u64) & 0xff) as u8 == word
        / 0x100_0000_0000u64 % 0x100u64 && ((word >> 48u64) & 0xff) as u8 == word
        / 0x1_0000_0000_0000u64 % 0x100u64 && ((word >> 56u64) & 0xff) as u8 == word
        / 0x100_0000_0000_0000u64 % 0x100u64) by (bit_vector);
}

/// A slot was never used if its control byte is 0x80, was given up if it is 0xfe,
/// and holds an entry if it is below 0x80; it holds a key if it holds an entry
/// with that key.
pub proof fn law_what_a_slot_holds(group: Group, slot: int, key: u64)
    ensures
        EMPTY == 0x80,
        DELETED == 0xfe,
        group.ctrl(slot) == control_at(group.low(), group.high(), slot),
        group.occupied(slot) <==> 0 <= slot < 16 && group.ctrl(slot) < 0x80,
        group.holds(slot, key) <==> 0 <= slot < 16 && group.ctrl(slot) < 0x80
            && group.keys()[slot] == key,
        group.has_empty() <==> exists|i: int| 0 <= i < 16 && #[trigger] group.ctrl(i) == 0x80,
        group.stable() <==> group.spec_version() as int % 2 == 0,
{
}

/// What a look may say: that the group has the key with this value in the first
/// slot that has its fingerprint and the key, or else that no such slot exists,
/// and whether some slot was never used.
pub proof fn law_look(group: Group, key: u64, fingerprint: u8, read: GroupRead, slot: int)
    requires
        group.read_says(key, fingerprint, read),
    ensures
        !(read is Found) ==> (0 <= slot < 16 && group.ctrl(slot) == fingerprint
            ==> group.keys()[slot] != key),
        read is Absent ==> exists|i: int| 0 <= i < 16 && #[trigger] group.ctrl(i) == 0x80,
        read is Next && 0 <= slot < 16 ==> group.ctrl(slot) != 0x80,
        read is Found && 0 <= slot < 16 && group.ctrl(slot) == fingerprint && group.keys()[slot]
            == key && (forall|j: int|
            0 <= j < slot && #[trigger] group.ctrl(j) == fingerprint ==> group.keys()[j] != key)
            ==> read == GroupRead::Found(group.values()[slot]),
        read is Found ==> exists|i: int|
            0 <= i < 16 && #[trigger] group.ctrl(i) == fingerprint && group.keys()[i] == key,
{
    if let GroupRead::Found(value) = read {
        let i = choose|i: int|
            0 <= i < 16 && #[trigger] group.ctrl(i) == fingerprint && group.keys()[i] == key
                && group.values()[i] == value && forall|j: int|
                0 <= j < i && #[trigger] group.ctrl(j) == fingerprint ==> group.keys()[j] != key;
        assert(group.ctrl(i) == fingerprint);
        if 0 <= slot < 16 && group.ctrl(slot) == fingerprint && group.keys()[slot] == key && (
        forall|j: int|
            0 <= j < slot && #[trigger] group.ctrl(j) == fingerprint ==> group.keys()[j] != key) {
            if i < slot {
                assert(group.keys()[i] != key);
            } else if slot < i {
                assert(group.keys()[slot] != key);
            }
        }
    } else if read is Absent {
        assert(group.has_empty());
    } else if 0 <= slot < 16 {
        assert(!group.has_empty());
        assert(group.ctrl(slot) != EMPTY);
    }
}

/// Two groups hold the same if every control byte, key and value is the same.
/// Replacing a control byte replaces no other.
pub proof fn law_same_content(a: Group, b: Group, slot: int, control: u8, other: int)
    ensures
        a.same_slots(b) <==> a.low() == b.low() && a.high() == b.high() && a.keys() == b.keys()
            && a.values() == b.values(),
        a.control_replaced(b, slot, control) && 0 <= slot < 16 ==> b.ctrl(slot) == control,
        a.control_replaced(b, slot, control) && 0 <= other < 16 && other != slot ==> b.ctrl(other)
            == a.ctrl(other),
{
}

/// Bit `i` of a mask is digit `i` of the mask to the base 2.
pub proof fn law_bits_are_digits(mask: u16)
    ensures
        bit(mask, 0) <==> mask as int % 2 == 1,
        forall|i: int| 0 <= i < 15 ==> (bit(mask, i + 1) <==> #[trigger] bit(mask / 2, i)),
{
    assert((mask >> 0u16) & 1 == mask % 2) by (bit_vector);
    assert forall|i: int| 0 <= i < 15 implies (bit(mask, i + 1) <==> #[trigger] bit(
        mask / 2,
        i,
    )) by {
        let j = i as u16;
        let next = (i + 1) as u16;
        assert(((mask / 2u16) >> j) & 1 == (mask >> next) & 1) by (bit_vector)
            requires
                j < 15,
                next == j + 1,
        ;
    }
}

/// Whether everything read between two looks at a group's version belongs to
/// one state of the group.
pub fn snapshot_is_whole(version_before: u64, version_after: u64) -> (whole: bool)
    ensures
        whole == (version_before % 2 == 0 && version_before == version_after),
{
    version_before % 2 == 0 && version_before == version_after
}

impl Group {
    /// The version of the group.
    pub closed spec fn spec_version(self) -> u64 {
        self.version
    }

    /// The control bytes of slots 0 to 7.
    pub closed spec fn low(self) -> u64 {
        self.control_low
    }

    /// The control bytes of slots 8 to 15.
    pub closed spec fn high(self) -> u64 {
        self.control_high
    }

    /// The keys of the slots.
    pub closed spec fn keys(self) -> Seq<u64> {
        self.keys@
    }

    /// The values of the slots.
    pub closed spec fn values(self) -> Seq<usize> {
        self.values@
    }

    /// The control byte of a slot.
    pub open spec fn ctrl(self, slot: int) -> u8 {
        control_at(self.low(), self.high(), slot)
    }

    /// Whether a slot holds an entry.
    pub open spec fn occupied(self, slot: int) -> bool {
        0 <= slot < 16 && self.ctrl(slot) < 0x80
    }

    /// Whether some slot was never used.
    pub open spec fn has_empty(self) -> bool {
        exists|slot: int| 0 <= slot < 16 && #[trigger] self.ctrl(slot) == EMPTY
    }

    /// Whether a slot holds an entry for `key`.
    pub open spec fn holds(self, slot: int, key: u64) -> bool {
        self.occupied(slot) && self.keys()[slot] == key
    }

    /// No writer is at work.
    pub open spec fn stable(self) -> bool {
        self.spec_version() % 2 == 0
    }

    /// Two groups with the same slots and control bytes.
    pub open spec fn same_slots(self, other: Group) -> bool {
        &&& self.low() == other.low()
        &&& self.high() == other.high()
        &&& self.keys() == other.keys()
        &&& self.values() == other.values()
    }

    /// The group with the control byte of one slot replaced.
    pub open spec fn control_replaced(self, new: Group, slot: int, control: u8) -> bool {
        forall|i: int|
            0 <= i < 16 ==> #[trigger] new.ctrl(i) == (if i == slot {
                control
            } else {
                self.ctrl(i)
            })
    }

    /// What a look at the group for a key with this fingerprint finds.
    pub open spec fn read_says(self, key: u64, fingerprint: u8, read: GroupRead) -> bool {
        match read {
            GroupRead::Found(value) => exists|i: int|
                0 <= i < 16 && #[trigger] self.ctrl(i) == fingerprint && self.keys()[i] == key
                    && self.values()[i] == value && forall|j: int|
                    0 <= j < i && #[trigger] self.ctrl(j) == fingerprint ==> self.keys()[j] != key,
            GroupRead::Absent => self.has_empty() && forall|i: int|
                0 <= i < 16 && #[trigger] self.ctrl(i) == fingerprint ==> self.keys()[i] != key,
            GroupRead::Next => !self.has_empty() && forall|i: int|
                0 <= i < 16 && #[trigger] self.ctrl(i) == fingerprint ==> self.keys()[i] != key,
        }
    }

    /// A group without entries.
    pub fn new() -> (group: Group)
        ensures
            group.spec_version() == 0,
            group.keys().len() == 16,
            group.values().len() == 16,
            forall|i: int| 0 <= i < 16 ==> #[trigger] group.ctrl(i) == EMPTY,
            forall|i: int| 0 <= i < 16 ==> #[trigger] group.keys()[i] == 0,
            forall|i: int| 0 <= i < 16 ==> #[trigger] group.values()[i] == 0,
    {
        proof {
            lemma_empty_word();
        }
        Group {
            version: 0,
            control_low: EMPTY_WORD,
            control_high: EMPTY_WORD,
            keys: [0; 16],
            values: [0; 16],
        }
    }

    /// Marks the group as being written: an even version becomes odd.
    pub fn begin_write(&mut self)
        ensures
            final(self).spec_version() == old(self).spec_version().wrapping_add(1),
            final(self).same_slots(*old(self)),
            final(self).stable() != old(self).stable(),
            group_step(*old(self), *final(self)),
    {
        self.version = self.version.wrapping_add(1);
    }

    /// Marks the group as stable again: an odd version becomes even.
    pub fn end_write(&mut self)
        ensures
            final(self).spec_version() == old(self).spec_version().wrapping_add(1),
            final(self).same_slots(*old(self)),
            final(self).stable() != old(self).stable(),
            group_step(*old(self), *final(self)),
    {
        self.version = self.version.wrapping_add(1);
    }

    /// The two control words.
    pub fn control(&self) -> (words: (u64, u64))
        ensures
            words == (self.low(), self.high()),
    {
        (self.control_low, self.control_high)
    }

    /// The version of the group.
    pub fn version(&self) -> (version: u64)
        ensures
            version == self.spec_version(),
    {
        self.version
    }

    /// The value in a slot.
    pub fn value(&self, slot: usize) -> (value: usize)
        requires
            slot < GROUP_SIZE,
        ensures
            value == self.values()[slot as int],
    {
        self.values[slot]
    }

    /// Replaces the key of one slot.
    pub fn set_key(&mut self, slot: usize, key: u64)
        requires
            slot < GROUP_SIZE,
            !old(self).stable(),
        ensures
            final(self).keys() == old(self).keys().update(slot as int, key),
            final(self).values() == old(self).values(),
            final(self).low() == old(self).low(),
            final(self).high() == old(self).high(),
            final(self).spec_version() == old(self).spec_version(),
            group_step(*old(self), *final(self)),
    {
        self.keys[slot] = key;
    }

    /// Replaces the value of one slot.
    pub fn set_value(&mut self, slot: usize, value: usize)
        requires
            slot < GROUP_SIZE,
            !old(self).stable(),
        ensures
            final(self).values() == old(self).values().update(slot as int, value),
            final(self).keys() == old(self).keys(),
            final(self).low() == old(self).low(),
            final(self).high() == old(self).high(),
            final(self).spec_version() == old(self).spec_version(),
            group_step(*old(self), *final(self)),
    {
        self.values[slot] = value;
    }

    /// Replaces the control byte of one slot.
    pub fn set_control(&mut self, slot: usize, control: u8)
        requires
            slot < GROUP_SIZE,
            !old(self).stable(),
        ensures
            old(self).control_replaced(*final(self), slot as int, control),
            final(self).spec_version() == old(self).spec_version(),
            final(self).keys() == old(self).keys(),
            final(self).values() == old(self).values(),
            group_step(*old(self), *final(self)),
    {
        if slot < 8 {
            let shift: u64 = 8 * slot as u64;
            let word: u64 = self.control_low;
            self.control_low = (word & !(0xffu64 << shift)) | ((control as u64) << shift);
            proof {
                lemma_replace_byte(word, slot as u64, control, self.control_low);
            }
        } else {
            let shift: u64 = 8 * (slot - 8) as u64;
            let word: u64 = self.control_high;
            self.control_high = (word & !(0xffu64 << shift)) | ((control as u64) << shift);
            proof {
                lemma_replace_byte(word, (slot - 8) as u64, control, self.control_high);
            }
        }
    }

    /// The first slot of a mask whose key is `key`.
    pub fn find(&self, mask: u16, key: u64) -> (found: Option<usize>)
        ensures
            found matches Some(slot) ==> slot < GROUP_SIZE && bit(mask, slot as int)
                && self.keys()[slot as int] == key && forall|i: int|
                0 <= i < slot && #[trigger] bit(mask, i) ==> self.keys()[i] != key,
            found is None ==> forall|i: int|
                0 <= i < 16 && #[trigger] bit(mask, i) ==> self.keys()[i] != key,
    {
        let mut matches: u16 = mask;
        while matches != 0
            invariant
                forall|i: int| 0 <= i < 16 && #[trigger] bit(matches, i) ==> bit(mask, i),
                forall|i: int|
                    0 <= i < 16 && #[trigger] bit(mask, i) ==> bit(matches, i) || self.keys()[i]
                        != key,
            decreases matches,
        {
            let slot: usize = lowest_bit(matches);
            if self.keys[slot] == key {
                return Some(slot);
            }
            proof {
                lemma_clear_lowest(matches, slot as u16);
            }
            matches = matches & (matches - 1);
        }
        proof {
            lemma_mask_zero(matches);
        }
        None
    }

    /// Looks for `key` among the slots with its fingerprint. `None` means that
    /// a writer was at work and the look has to be repeated.
    pub fn read(&self, key: u64, fingerprint: u8) -> (result: Option<GroupRead>)
        ensures
            result is None <==> !self.stable(),
            result matches Some(read) ==> self.read_says(key, fingerprint, read),
    {
        let version_before: u64 = self.version;
        let (lo, hi): (u64, u64) = self.control();
        let (matches, empty): (u16, u16) = scan_lookup_group(lo, hi, fingerprint);
        let found: Option<usize> = self.find(matches, key);
        let version_after: u64 = self.version;
        if !snapshot_is_whole(version_before, version_after) {
            return None;
        }
        proof {
            lemma_mask_zero(empty);
        }
        match found {
            Some(slot) => {
                proof {
                    assert(bit(matches, slot as int));
                    assert(self.ctrl(slot as int) == fingerprint);
                    assert forall|j: int|
                        0 <= j < slot && #[trigger] self.ctrl(j) == fingerprint implies self.keys()[j]
                        != key by {
                        assert(bit(matches, j));
                    }
                }
                Some(GroupRead::Found(self.values[slot]))
            },
            None => {
                proof {
                    assert forall|i: int|
                        0 <= i < 16 && #[trigger] self.ctrl(i)
                            == fingerprint implies self.keys()[i] != key by {
                        assert(bit(matches, i));
                    }
                }
                if empty != 0 {
                    proof {
                        let i = choose|i: int| 0 <= i < 16 && #[trigger] bit(empty, i);
                        assert(self.ctrl(i) == EMPTY);
                    }
                    Some(GroupRead::Absent)
                } else {
                    proof {
                        assert forall|i: int| 0 <= i < 16 implies #[trigger] self.ctrl(i)
                            != EMPTY by {
                            assert(!bit(empty, i));
                        }
                    }
                    Some(GroupRead::Next)
                }
            },
        }
    }
}

/// One step in the life of a shared group: a writer enters or leaves, or,
/// while a writer is at work, slots and control bytes change.
pub open spec fn group_step(before: Group, after: Group) -> bool {
    ||| after.spec_version() == before.spec_version().wrapping_add(1) && after.same_slots(before)
    ||| after.spec_version() == before.spec_version() && !before.stable()
    ||| after == before
}

/// The step of a group's life after its `i`-th state.
pub open spec fn step_at(history: Seq<Group>, i: int) -> bool {
    group_step(history[i], history[i + 1])
}

proof fn lemma_next_version(first: u64, passed: nat, version: u64)
    requires
        version as int == (first + passed) % 0x1_0000_0000_0000_0000,
    ensures
        version.wrapping_add(1) as int == (first + passed + 1) % 0x1_0000_0000_0000_0000,
{
}

/// How many versions lie between two points of a group's life.
proof fn lemma_versions_passed(history: Seq<Group>, from: int, to: int) -> (passed: nat)
    requires
        0 <= from <= to < history.len(),
        forall|i: int| from <= i < to ==> #[trigger] step_at(history, i),
    ensures
        passed <= to - from,
        history[to].spec_version() as int == (history[from].spec_version() + passed)
            % 0x1_0000_0000_0000_0000,
        passed == 0 && history[from].stable() ==> history[to].same_slots(history[from]),
    decreases to - from,
{
    if from == to {
        0
    } else {
        let passed = lemma_versions_passed(history, from, to - 1);
        let before = history[to - 1];
        let after = history[to];
        assert(step_at(history, to - 1));
        if after.spec_version() == before.spec_version() {
            passed
        } else {
            lemma_next_version(history[from].spec_version(), passed, before.spec_version());
            passed + 1
        }
    }
}

/// A reader that finds the same even version before and after its look has
/// seen one state of the group: between the two looks no writer has changed
/// anything, however the steps of readers and writers interleave.
pub proof fn law_whole_snapshot(history: Seq<Group>, start: int, look: int, end: int)
    requires
        0 <= start <= look <= end < history.len(),
        end - start < 0x1_0000_0000_0000_0000,
        forall|i: int| 0 <= i < history.len() - 1 ==> #[trigger] step_at(history, i),
        history[start].spec_version() % 2 == 0 && history[start].spec_version() == history[end].spec_version(),
    ensures
        history[look].same_slots(history[start]),
        history[look].spec_version() == history[start].spec_version(),
{
    let first = lemma_versions_passed(history, start, look);
    let second = lemma_versions_passed(history, look, end);
    let total: nat = first + second;
    assert((history[start].spec_version() + total) % 0x1_0000_0000_0000_0000
        == history[start].spec_version());
    assert(total == 0);
}

} // verus!
