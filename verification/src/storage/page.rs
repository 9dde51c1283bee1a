//! One page, and the bookkeeping of the frame that holds it.
//!
//! A frame keeps its lifecycle state and its pin counter in one 32-bit word:
//!
//! ```text
//!  31                         22 21       20 19                 0
//! +-----------------------------+-----------+--------------------+
//! |           unused            |   state   |     pin count      |
//! +-----------------------------+-----------+--------------------+
//! ```
//!
//! A reader takes a frame by `READY, n -> READY, n + 1`, an evictor by
//! `READY, 0 -> EVICTING, 0`. Both are exchanges of the same word, so at most
//! one of two such exchanges that start from one observed word can succeed.

use crate::error::StorageError;
use crate::storage::PAGE_SIZE;
use vstd::prelude::*;

verus! {

/// The page id of a frame that holds no page.
pub const INVALID_PAGE_ID: u64 = 0xffff_ffff_ffff_ffff;

/// The largest pin count: the low 20 bits of the word.
pub const PIN_MASK: u32 = 0x000f_ffff;

const STATE_SHIFT: u32 = 20;

const STATE_MASK: u32 = 0x0030_0000;

pub const FRAME_FREE: u32 = 0;

pub const FRAME_LOADING: u32 = 1;

pub const FRAME_READY: u32 = 2;

pub const FRAME_EVICTING: u32 = 3;

pub const FLAG_DIRTY: u8 = 1;

pub const FLAG_WRITEBACK: u8 = 2;

/// The ceiling of a frame's usage counter.
pub const MAX_USAGE: u8 = 3;

/// The bytes of one page.
pub struct PageData {
    pub data: [u8; PAGE_SIZE],
}

/// How an attempt to pin a frame ended.
#[derive(Clone, Copy, Debug, PartialEq, Eq, Structural)]
pub enum PinResult {
    /// The caller holds a pin.
    Pinned,
    /// The frame is being loaded or evicted.
    Busy,
    /// The frame holds another page by now.
    Stale,
}

/// What a reader does about the word that it observed.
#[derive(Clone, Copy, Debug, PartialEq, Eq, Structural)]
pub enum PinStep {
    /// Exchange the observed word for this one.
    Exchange(u32),
    /// Wait until the frame changes.
    Busy,
}

/// The state in a word.
pub open spec fn word_state(word: u32) -> int {
    (word as int / 0x10_0000) % 4
}

/// The pin count in a word.
pub open spec fn word_pins(word: u32) -> int {
    word as int % 0x10_0000
}

/// The word with the given state and pin count, and no other bit set.
pub open spec fn word_of(state: int, pins: int) -> int {
    state * 0x10_0000 + pins
}

/// `flags` with the dirty bit set.
pub open spec fn dirty_flags(flags: u8) -> int {
    if flags % 2 == 1 {
        flags as int
    } else {
        flags + 1
    }
}

/// `flags` with the write-back bit set.
pub open spec fn writeback_flags(flags: u8) -> int {
    if (flags / 2) % 2 == 1 {
        flags as int
    } else {
        flags + 2
    }
}

/// `flags` with the write-back bit cleared.
pub open spec fn settled_flags(flags: u8) -> int {
    if (flags / 2) % 2 == 1 {
        flags - 2
    } else {
        flags as int
    }
}

/// Puts a state and a pin count into one word.
pub fn pack_state(state: u32, pin_count: u32) -> (word: u32)
    requires
        state <= 3,
        pin_count <= PIN_MASK,
    ensures
        word == word_of(state as int, pin_count as int),
        word_state(word) == state,
        word_pins(word) == pin_count,
{
    assert((state << 20u32) | pin_count == state * 0x10_0000u32 + pin_count) by (bit_vector)
        requires
            state <= 3,
            pin_count <= 0x000f_ffffu32,
    ;
    (state << STATE_SHIFT) | pin_count
}

/// The state in a word.
pub fn frame_state(state_and_pin: u32) -> (state: u32)
    ensures
        state == word_state(state_and_pin),
        state <= 3,
{
    assert((state_and_pin & 0x0030_0000u32) >> 20u32 == (state_and_pin / 0x10_0000u32) % 4u32)
        by (bit_vector);
    (state_and_pin & STATE_MASK) >> STATE_SHIFT
}

/// The pin count in a word.
pub fn pin_count(state_and_pin: u32) -> (pins: u32)
    ensures
        pins == word_pins(state_and_pin),
        pins <= PIN_MASK,
{
    assert(state_and_pin & 0x000f_ffffu32 == state_and_pin % 0x10_0000u32) by (bit_vector);
    state_and_pin & PIN_MASK
}

/// `flags` with the dirty bit set.
pub fn set_dirty(flags: u8) -> (result: u8)
    ensures
        result == dirty_flags(flags),
{
    assert(flags | 1u8 == if flags % 2u8 == 1u8 {
        flags as int
    } else {
        flags + 1u8
    }) by (bit_vector);
    flags | FLAG_DIRTY
}

/// `flags` with the write-back bit set.
pub fn set_writeback(flags: u8) -> (result: u8)
    ensures
        result == writeback_flags(flags),
{
    assert(flags | 2u8 == if (flags / 2u8) % 2u8 == 1u8 {
        flags as int
    } else {
        flags + 2u8
    }) by (bit_vector);
    flags | FLAG_WRITEBACK
}

/// `flags` with the write-back bit cleared.
pub fn clear_writeback(flags: u8) -> (result: u8)
    ensures
        result == settled_flags(flags),
{
    assert(flags & !2u8 == if (flags / 2u8) % 2u8 == 1u8 {
        flags - 2u8
    } else {
        flags as int
    }) by (bit_vector);
    flags & !FLAG_WRITEBACK
}

/// Whether the dirty bit is set.
pub fn is_dirty(flags: u8) -> (dirty: bool)
    ensures
        dirty == (flags % 2 == 1),
{
    assert(flags & 1u8 == flags % 2u8) by (bit_vector);
    flags & FLAG_DIRTY != 0
}

/// What a reader that observed `word` does next: one more pin on a ready
/// frame, or nothing while the frame is busy.
pub fn pin_step(word: u32) -> (step: Result<PinStep, StorageError>)
    ensures
        step == (if word_state(word) == FRAME_READY {
            if word_pins(word) == PIN_MASK {
                Err(StorageError::PinOverflow)
            } else {
                Ok(PinStep::Exchange((word + 1) as u32))
            }
        } else if word_state(word) == FRAME_FREE {
            Err(StorageError::MappedFrameIsFree)
        } else {
            Ok(PinStep::Busy)
        }),
        step matches Ok(PinStep::Exchange(new)) ==> new == word + 1 && word_state(new)
            == FRAME_READY && word_pins(new) == word_pins(word) + 1,
{
    let state: u32 = frame_state(word);
    if state == FRAME_FREE {
        return Err(StorageError::MappedFrameIsFree);
    }
    if state != FRAME_READY {
        return Ok(PinStep::Busy);
    }
    if pin_count(word) == PIN_MASK {
        return Err(StorageError::PinOverflow);
    }
    Ok(PinStep::Exchange(word + 1))
}

/// The word that an unpinning thread that observed `word` exchanges it for.
pub fn unpin_step(word: u32) -> (new: Result<u32, StorageError>)
    ensures
        new == (if word_state(word) != FRAME_READY {
            Err(StorageError::UnpinNotReady)
        } else if word_pins(word) == 0 {
            Err(StorageError::NotPinned)
        } else {
            Ok((word - 1) as u32)
        }),
        new matches Ok(w) ==> w == word - 1 && word_state(w) == FRAME_READY && word_pins(w)
            == word_pins(word) - 1,
{
    if frame_state(word) != FRAME_READY {
        return Err(StorageError::UnpinNotReady);
    }
    if pin_count(word) == 0 {
        return Err(StorageError::NotPinned);
    }
    Ok(word - 1)
}

/// The bookkeeping of one frame.
///
/// The page id is kept apart from the state word: it changes only when the
/// frame is reused, and ordinary pins and unpins leave it alone.
#[derive(Clone, Copy, Debug, PartialEq, Eq, Structural)]
pub struct FrameMeta {
    pub page_id: u64,
    /// The low 20 bits count pins; the two bits above hold the state.
    pub state_and_pin: u32,
    /// How often the frame was used lately, at most `MAX_USAGE`.
    pub usage_count: u8,
    pub flags: u8,
}

impl FrameMeta {
    pub open spec fn state(self) -> int {
        word_state(self.state_and_pin)
    }

    pub open spec fn pins(self) -> int {
        word_pins(self.state_and_pin)
    }

    pub open spec fn dirty(self) -> bool {
        self.flags % 2 == 1
    }

    /// The frame after one more recorded use.
    pub open spec fn used(self) -> FrameMeta {
        FrameMeta {
            usage_count: if self.usage_count < MAX_USAGE {
                (self.usage_count + 1) as u8
            } else {
                self.usage_count
            },
            ..self
        }
    }

    /// How an attempt to pin the frame for `page_id` ends.
    pub open spec fn pin_outcome(self, page_id: u64) -> Result<PinResult, StorageError> {
        if self.page_id != page_id {
            Ok(PinResult::Stale)
        } else if self.state() == FRAME_FREE {
            Err(StorageError::MappedFrameIsFree)
        } else if self.state() != FRAME_READY {
            Ok(PinResult::Busy)
        } else if self.pins() == PIN_MASK {
            Err(StorageError::PinOverflow)
        } else {
            Ok(PinResult::Pinned)
        }
    }

    /// The frame after an attempt to pin it for `page_id`.
    pub open spec fn after_pin(self, page_id: u64) -> FrameMeta {
        if self.pin_outcome(page_id) == Ok::<PinResult, StorageError>(PinResult::Pinned) {
            FrameMeta { state_and_pin: (self.state_and_pin + 1) as u32, ..self }.used()
        } else {
            self
        }
    }

    /// The frame after a successful exchange for one more pin.
    pub open spec fn exchanged(self) -> FrameMeta {
        FrameMeta { state_and_pin: (self.state_and_pin + 1) as u32, ..self }
    }

    /// The frame after a pin whose exchange has succeeded was finished: it is
    /// kept if the frame holds the expected page, or else given back.
    pub open spec fn after_settle(self, expected_page_id: u64) -> FrameMeta {
        if self.page_id == expected_page_id {
            self.used()
        } else {
            FrameMeta { state_and_pin: (self.state_and_pin - 1) as u32, ..self }
        }
    }

    /// How an attempt to unpin `page_id` ends.
    pub open spec fn unpin_outcome(self, page_id: u64) -> Result<(), StorageError> {
        if self.page_id != page_id {
            Err(StorageError::PageLeftFrame)
        } else if self.state() != FRAME_READY {
            Err(StorageError::UnpinNotReady)
        } else if self.pins() == 0 {
            Err(StorageError::NotPinned)
        } else {
            Ok(())
        }
    }

    /// The frame after an attempt to unpin `page_id`.
    pub open spec fn after_unpin(self, page_id: u64, is_dirty: bool) -> FrameMeta {
        if self.unpin_outcome(page_id) is Ok {
            FrameMeta {
                state_and_pin: (self.state_and_pin - 1) as u32,
                flags: if is_dirty {
                    dirty_flags(self.flags) as u8
                } else {
                    self.flags
                },
                ..self
            }
        } else {
            self
        }
    }

    /// A frame that holds no page.
    pub open spec fn spec_empty() -> FrameMeta {
        FrameMeta { page_id: INVALID_PAGE_ID, state_and_pin: 0, usage_count: 0, flags: 0 }
    }

    /// A frame that holds no page.
    pub fn empty() -> (frame: FrameMeta)
        ensures
            frame == FrameMeta::spec_empty(),
            frame.state() == FRAME_FREE,
            frame.pins() == 0,
    {
        FrameMeta {
            page_id: INVALID_PAGE_ID,
            state_and_pin: pack_state(FRAME_FREE, 0),
            usage_count: 0,
            flags: 0,
        }
    }

    /// Tries to pin the frame for the page that is expected in it.
    pub fn try_pin(&mut self, expected_page_id: u64) -> (result: Result<PinResult, StorageError>)
        ensures
            result == old(self).pin_outcome(expected_page_id),
            *final(self) == old(self).after_pin(expected_page_id),
    {
        if self.page_id != expected_page_id {
            return Ok(PinResult::Stale);
        }
        match pin_step(self.state_and_pin) {
            Err(error) => Err(error),
            Ok(PinStep::Busy) => Ok(PinResult::Busy),
            Ok(PinStep::Exchange(word)) => {
                self.state_and_pin = word;
                Ok(self.settle_pin(expected_page_id))
            },
        }
    }

    /// Finishes a pin whose exchange has succeeded. The page id is looked at
    /// again: the frame may have been reused for another page between the
    /// first look and the exchange, and then the pin is given back.
    pub fn settle_pin(&mut self, expected_page_id: u64) -> (result: PinResult)
        requires
            old(self).pins() > 0,
        ensures
            result == (if old(self).page_id == expected_page_id {
                PinResult::Pinned
            } else {
                PinResult::Stale
            }),
            *final(self) == old(self).after_settle(expected_page_id),
    {
        if self.page_id != expected_page_id {
            self.state_and_pin = self.state_and_pin - 1;
            return PinResult::Stale;
        }
        self.record_access();
        PinResult::Pinned
    }

    /// Gives back one pin. The dirty bit is set before the pin goes: an
    /// evictor that finds the frame unpinned must find it dirty as well.
    pub fn unpin(&mut self, expected_page_id: u64, is_dirty: bool) -> (result: Result<
        (),
        StorageError,
    >)
        ensures
            result == old(self).unpin_outcome(expected_page_id),
            *final(self) == old(self).after_unpin(expected_page_id, is_dirty),
    {
        if self.page_id != expected_page_id {
            return Err(StorageError::PageLeftFrame);
        }
        match unpin_step(self.state_and_pin) {
            Err(error) => Err(error),
            Ok(word) => {
                if is_dirty {
                    self.flags = set_dirty(self.flags);
                }
                self.state_and_pin = word;
                Ok(())
            },
        }
    }

    /// Counts one use of the frame, up to `MAX_USAGE`.
    pub fn record_access(&mut self)
        ensures
            *final(self) == old(self).used(),
    {
        if self.usage_count < MAX_USAGE {
            self.usage_count = self.usage_count + 1;
        }
    }
}

/// An atomic compare-and-exchange on a word: the word after it, and whether it
/// succeeded.
pub open spec fn exchange(current: u32, expected: u32, new: u32) -> (u32, bool) {
    if current == expected {
        (new, true)
    } else {
        (current, false)
    }
}

/// A reader and an evictor that both observed the same ready, unpinned word
/// cannot both succeed, whoever comes first.
pub proof fn law_reader_or_evictor(word: u32)
    requires
        word_state(word) == FRAME_READY,
        word_pins(word) == 0,
    ensures
        ({
            let pinned = (word + 1) as u32;
            let evicting = word_of(FRAME_EVICTING as int, 0) as u32;
            let reader_first = exchange(word, word, pinned);
            let evictor_first = exchange(word, word, evicting);
            &&& reader_first.1 && !exchange(reader_first.0, word, evicting).1
            &&& evictor_first.1 && !exchange(evictor_first.0, word, pinned).1
        }),
{
}

/// A word holds exactly the state and the pin count that were put into it.
pub proof fn law_word_round_trip(state: int, pins: int)
    requires
        0 <= state <= 3,
        0 <= pins <= PIN_MASK,
    ensures
        word_state(word_of(state, pins) as u32) == state,
        word_pins(word_of(state, pins) as u32) == pins,
{
}

/// A pin takes effect with its exchange: to finish it at once gives the frame
/// that an indivisible pin gives, and on a frame that holds another page it
/// leaves no trace.
pub proof fn law_pin_takes_effect_at_its_exchange(frame: FrameMeta, page_id: u64)
    requires
        frame.state() == FRAME_READY,
        frame.pins() < PIN_MASK,
    ensures
        frame.exchanged().state() == FRAME_READY,
        frame.exchanged().pins() == frame.pins() + 1,
        frame.exchanged().after_settle(page_id) == (if frame.page_id == page_id {
            frame.after_pin(page_id)
        } else {
            frame
        }),
{
}

/// A word is made of its unused part, its state and its pin count, and of
/// nothing else.
pub proof fn law_word_layout(word: u32, state: int, pins: int)
    ensures
        0 <= word_state(word) < 4,
        0 <= word_pins(word) < 0x10_0000,
        word as int == (word as int / 0x40_0000) * 0x40_0000 + word_state(word) * 0x10_0000
            + word_pins(word),
        word_of(state, pins) - word_of(0, pins) == state * 0x10_0000,
        word_of(state, pins) - word_of(state, 0) == pins,
        word_of(0, 0) == 0,
{
}

/// The parts of a frame's bookkeeping are those of its word and its flags.
pub proof fn law_frame_fields(frame: FrameMeta)
    ensures
        frame.state_and_pin as int == (frame.state_and_pin as int / 0x40_0000) * 0x40_0000
            + frame.state() * 0x10_0000 + frame.pins(),
        0 <= frame.state() < 4,
        0 <= frame.pins() < 0x10_0000,
        frame.dirty() <==> frame.flags as int % 2 == 1,
{
}

/// Each of the three changes of the flags touches one bit and no other.
pub proof fn law_flag_changes_touch_one_bit(flags: u8)
    ensures
        dirty_flags(flags) % 2 == 1,
        dirty_flags(flags) / 2 == flags as int / 2,
        writeback_flags(flags) % 2 == flags as int % 2,
        writeback_flags(flags) / 2 % 2 == 1,
        writeback_flags(flags) / 4 == flags as int / 4,
        settled_flags(flags) % 2 == flags as int % 2,
        settled_flags(flags) / 2 % 2 == 0,
        settled_flags(flags) / 4 == flags as int / 4,
        0 <= dirty_flags(flags) < 256,
        0 <= writeback_flags(flags) < 256,
        0 <= settled_flags(flags) < 256,
{
}

/// A frame without a page: no state, no pin, no use, no flag.
pub proof fn law_empty_frame()
    ensures
        FrameMeta::spec_empty().page_id == u64::MAX,
        FrameMeta::spec_empty().state_and_pin == 0,
        FrameMeta::spec_empty().usage_count == 0,
        FrameMeta::spec_empty().flags == 0,
{
}

/// A recorded use adds one to the usage count, which stops at three, and touches
/// nothing else.
pub proof fn law_use_counts_one(frame: FrameMeta)
    ensures
        frame.usage_count < 3 ==> frame.used().usage_count == frame.usage_count + 1,
        frame.usage_count >= 3 ==> frame.used().usage_count == frame.usage_count,
        frame.used().page_id == frame.page_id,
        frame.used().state_and_pin == frame.state_and_pin,
        frame.used().flags == frame.flags,
{
}

/// Whether a pin succeeds depends on the page, the state and the room in the
/// counter. If it does, the pin count is one higher, a use is recorded, and the
/// page, the state and the flags are as before. If it does not, nothing changes.
pub proof fn law_pin(frame: FrameMeta, page_id: u64)
    ensures
        ({
            let state = frame.state_and_pin as int / 0x10_0000 % 4;
            let pins = frame.state_and_pin as int % 0x10_0000;
            let new = frame.after_pin(page_id);
            &&& frame.page_id != page_id <==> frame.pin_outcome(page_id) == Ok::<
                PinResult,
                StorageError,
            >(PinResult::Stale)
            &&& frame.page_id == page_id && state == 0 <==> frame.pin_outcome(page_id) == Err::<
                PinResult,
                StorageError,
            >(StorageError::MappedFrameIsFree)
            &&& frame.page_id == page_id && (state == 1 || state == 3) <==> frame.pin_outcome(
                page_id,
            ) == Ok::<PinResult, StorageError>(PinResult::Busy)
            &&& frame.page_id == page_id && state == 2 && pins == 0xf_ffff <==> frame.pin_outcome(
                page_id,
            ) == Err::<PinResult, StorageError>(StorageError::PinOverflow)
            &&& frame.page_id == page_id && state == 2 && pins < 0xf_ffff <==> frame.pin_outcome(
                page_id,
            ) == Ok::<PinResult, StorageError>(PinResult::Pinned)
            &&& if frame.page_id == page_id && state == 2 && pins < 0xf_ffff {
                &&& new.state_and_pin == frame.state_and_pin + 1
                &&& new.page_id == frame.page_id
                &&& new.flags == frame.flags
                &&& new.usage_count == (if frame.usage_count < 3 {
                    frame.usage_count + 1
                } else {
                    frame.usage_count as int
                })
            } else {
                new == frame
            }
        }),
{
}

/// Whether an unpin succeeds depends on the page, the state and the pin count,
/// not on whether the page has changed. If it succeeds, the pin count is one
/// lower, whoever unpins and however many pins there are; a dirty unpin sets the
/// dirty bit; and the page, the state, the usage count and the other flags are
/// as before. If it does not succeed, nothing changes.
pub proof fn law_unpin(frame: FrameMeta, page_id: u64, is_dirty: bool)
    ensures
        ({
            let state = frame.state_and_pin as int / 0x10_0000 % 4;
            let pins = frame.state_and_pin as int % 0x10_0000;
            let new = frame.after_unpin(page_id, is_dirty);
            &&& frame.page_id != page_id <==> frame.unpin_outcome(page_id) == Err::<
                (),
                StorageError,
            >(StorageError::PageLeftFrame)
            &&& frame.page_id == page_id && state != 2 <==> frame.unpin_outcome(page_id) == Err::<
                (),
                StorageError,
            >(StorageError::UnpinNotReady)
            &&& frame.page_id == page_id && state == 2 && pins == 0 <==> frame.unpin_outcome(
                page_id,
            ) == Err::<(), StorageError>(StorageError::NotPinned)
            &&& frame.page_id == page_id && state == 2 && pins > 0 <==> frame.unpin_outcome(page_id)
                == Ok::<(), StorageError>(())
            &&& if frame.page_id == page_id && state == 2 && pins > 0 {
                &&& new.state_and_pin == frame.state_and_pin - 1
                &&& new.page_id == frame.page_id
                &&& new.usage_count == frame.usage_count
                &&& new.flags as int / 2 == frame.flags as int / 2
                &&& new.flags as int % 2 == (if is_dirty {
                    1
                } else {
                    frame.flags as int % 2
                })
            } else {
                new == frame
            }
        }),
{
}

/// As many unpins as pins, dirty or clean, bring the pin count back.
pub proof fn law_pins_and_unpins_balance(frame: FrameMeta, page_id: u64, first: bool, second: bool)
    requires
        frame.pin_outcome(page_id) == Ok::<PinResult, StorageError>(PinResult::Pinned),
        frame.after_pin(page_id).pin_outcome(page_id) == Ok::<PinResult, StorageError>(
            PinResult::Pinned,
        ),
    ensures
        ({
            let twice = frame.after_pin(page_id).after_pin(page_id);
            let once = twice.after_unpin(page_id, first);
            let back = once.after_unpin(page_id, second);
            &&& twice.state_and_pin == frame.state_and_pin + 2
            &&& back.state_and_pin == frame.state_and_pin
            &&& back.flags as int % 2 == (if first || second {
                1
            } else {
                frame.flags as int % 2
            })
        }),
{
}

/// The exchange for one more pin adds one to the word, and finishing the pin
/// either records a use or takes that one back.
pub proof fn law_exchange_and_settle(frame: FrameMeta, page_id: u64)
    requires
        0 < frame.state_and_pin < u32::MAX,
    ensures
        frame.exchanged().state_and_pin == frame.state_and_pin + 1,
        frame.exchanged().page_id == frame.page_id,
        frame.exchanged().usage_count == frame.usage_count,
        frame.exchanged().flags == frame.flags,
        frame.after_settle(page_id).page_id == frame.page_id,
        frame.after_settle(page_id).flags == frame.flags,
        frame.page_id == page_id ==> frame.after_settle(page_id).state_and_pin
            == frame.state_and_pin && frame.after_settle(page_id).usage_count == (if frame.usage_count
            < 3 {
            frame.usage_count + 1
        } else {
            frame.usage_count as int
        }),
        frame.page_id != page_id ==> frame.after_settle(page_id).state_and_pin
            == frame.state_and_pin - 1 && frame.after_settle(page_id).usage_count
            == frame.usage_count,
{
}

/// A pin that is given back clean leaves nothing behind but the recorded use.
pub proof fn law_unpin_undoes_pin(frame: FrameMeta, page_id: u64)
    requires
        frame.pin_outcome(page_id) == Ok::<PinResult, StorageError>(PinResult::Pinned),
    ensures
        frame.after_pin(page_id).pins() == frame.pins() + 1,
        frame.after_pin(page_id).unpin_outcome(page_id) is Ok,
        frame.after_pin(page_id).after_unpin(page_id, false) == frame.used(),
{
}

/// A frame that was unpinned dirty is dirty, and stays dirty until its content
/// is on disk: pins and clean unpins do not clear the bit.
pub proof fn law_dirty_stays(frame: FrameMeta, page_id: u64, is_dirty: bool)
    ensures
        frame.dirty() ==> frame.after_pin(page_id).dirty(),
        frame.dirty() ==> frame.after_unpin(page_id, is_dirty).dirty(),
        frame.unpin_outcome(page_id) is Ok && is_dirty ==> frame.after_unpin(
            page_id,
            is_dirty,
        ).dirty(),
{
}

} // verus!
