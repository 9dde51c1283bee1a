use page_store::error::StorageError;
use page_store::storage::page::{
    clear_writeback, frame_state, is_dirty, pack_state, pin_count, pin_step, set_dirty,
    set_writeback, unpin_step, FrameMeta, PageData, PinResult, PinStep, FLAG_DIRTY,
    FLAG_WRITEBACK, FRAME_EVICTING, FRAME_FREE, FRAME_LOADING, FRAME_READY, INVALID_PAGE_ID,
    MAX_USAGE, PIN_MASK,
};

fn ready(page_id: u64, pins: u32) -> FrameMeta {
    FrameMeta {
        page_id,
        state_and_pin: pack_state(FRAME_READY, pins),
        usage_count: 0,
        flags: 0,
    }
}

#[test]
fn word_holds_state_and_pins() {
    assert_eq!(pack_state(FRAME_FREE, 0), 0);
    assert_eq!(pack_state(FRAME_LOADING, 1), 0x10_0001);
    assert_eq!(pack_state(FRAME_READY, 5), 0x20_0005);
    assert_eq!(pack_state(FRAME_EVICTING, PIN_MASK), 0x3f_ffff);
    for state in 0..4 {
        for pins in [0, 1, 77, PIN_MASK] {
            let word = pack_state(state, pins);
            assert_eq!(frame_state(word), state);
            assert_eq!(pin_count(word), pins);
        }
    }
}

#[test]
fn unused_bits_of_a_word_are_ignored() {
    assert_eq!(frame_state(0xffc0_0000), 0);
    assert_eq!(pin_count(0xfff0_0000), 0);
}

#[test]
fn flags_are_set_and_cleared_one_by_one() {
    assert_eq!(set_dirty(0), FLAG_DIRTY);
    assert_eq!(set_dirty(3), 3);
    assert_eq!(set_writeback(1), FLAG_DIRTY | FLAG_WRITEBACK);
    assert_eq!(clear_writeback(3), FLAG_DIRTY);
    assert_eq!(clear_writeback(1), 1);
    assert!(is_dirty(1));
    assert!(is_dirty(3));
    assert!(!is_dirty(2));
}

#[test]
fn empty_frame_has_no_page() {
    let frame = FrameMeta::empty();
    assert_eq!(frame.page_id, INVALID_PAGE_ID);
    assert_eq!(frame.page_id, u64::MAX);
    assert_eq!(frame_state(frame.state_and_pin), FRAME_FREE);
    assert_eq!(pin_count(frame.state_and_pin), 0);
    assert_eq!(frame.usage_count, 0);
    assert_eq!(frame.flags, 0);
}

#[test]
fn pin_of_a_ready_frame_counts_a_use() {
    let mut frame = ready(100, 0);
    assert_eq!(frame.try_pin(100), Ok(PinResult::Pinned));
    assert_eq!(frame.state_and_pin, 0x20_0001);
    assert_eq!(frame.usage_count, 1);
    assert_eq!(frame.try_pin(100), Ok(PinResult::Pinned));
    assert_eq!(frame.state_and_pin, 0x20_0002);
    assert_eq!(frame.usage_count, 2);
}

#[test]
fn pin_for_another_page_is_stale() {
    let mut frame = ready(100, 0);
    assert_eq!(frame.try_pin(200), Ok(PinResult::Stale));
    assert_eq!(frame, ready(100, 0));
}

#[test]
fn pin_of_a_busy_frame_waits() {
    for state in [FRAME_LOADING, FRAME_EVICTING] {
        let mut frame = ready(100, 0);
        frame.state_and_pin = pack_state(state, 0);
        let before = frame;
        assert_eq!(frame.try_pin(100), Ok(PinResult::Busy));
        assert_eq!(frame, before);
    }
}

#[test]
fn pin_of_a_free_frame_is_an_error() {
    let mut frame = ready(100, 0);
    frame.state_and_pin = pack_state(FRAME_FREE, 0);
    assert_eq!(frame.try_pin(100), Err(StorageError::MappedFrameIsFree));
}

#[test]
fn pin_counter_does_not_overflow_into_the_state() {
    let mut frame = ready(100, PIN_MASK);
    assert_eq!(frame.try_pin(100), Err(StorageError::PinOverflow));
    assert_eq!(frame, ready(100, PIN_MASK));
    let mut nearly = ready(100, PIN_MASK - 1);
    assert_eq!(nearly.try_pin(100), Ok(PinResult::Pinned));
    assert_eq!(nearly.state_and_pin, 0x2f_ffff);
}

#[test]
fn pin_of_a_reused_frame_is_given_back() {
    // The exchange has hit a frame that holds page 200 by now.
    let mut frame = ready(200, 3);
    assert_eq!(frame.settle_pin(100), PinResult::Stale);
    assert_eq!(frame, ready(200, 2));
    let mut other = ready(100, 3);
    assert_eq!(other.settle_pin(100), PinResult::Pinned);
    assert_eq!(other.state_and_pin, 0x20_0003);
    assert_eq!(other.usage_count, 1);
}

#[test]
fn unpin_gives_back_one_pin() {
    let mut frame = ready(100, 2);
    assert_eq!(frame.unpin(100, false), Ok(()));
    assert_eq!(frame, ready(100, 1));
    assert_eq!(frame.unpin(100, true), Ok(()));
    assert_eq!(frame.state_and_pin, 0x20_0000);
    assert_eq!(frame.flags, FLAG_DIRTY);
}

#[test]
fn unpin_errors() {
    let mut frame = ready(100, 1);
    assert_eq!(frame.unpin(200, true), Err(StorageError::PageLeftFrame));
    assert_eq!(frame, ready(100, 1));
    let mut unpinned = ready(100, 0);
    assert_eq!(unpinned.unpin(100, true), Err(StorageError::NotPinned));
    assert_eq!(unpinned, ready(100, 0));
    let mut loading = ready(100, 0);
    loading.state_and_pin = pack_state(FRAME_LOADING, 1);
    let before = loading;
    assert_eq!(loading.unpin(100, true), Err(StorageError::UnpinNotReady));
    assert_eq!(loading, before);
}

#[test]
fn unpin_undoes_pin() {
    let mut frame = ready(100, 4);
    assert_eq!(frame.try_pin(100), Ok(PinResult::Pinned));
    assert_eq!(frame.unpin(100, false), Ok(()));
    let mut expected = ready(100, 4);
    expected.usage_count = 1;
    assert_eq!(frame, expected);
}

#[test]
fn dirty_stays_dirty() {
    let mut frame = ready(100, 2);
    assert_eq!(frame.unpin(100, true), Ok(()));
    assert_eq!(frame.try_pin(100), Ok(PinResult::Pinned));
    assert_eq!(frame.unpin(100, false), Ok(()));
    assert_eq!(frame.unpin(100, false), Ok(()));
    assert!(is_dirty(frame.flags));
}

#[test]
fn usage_count_has_a_ceiling() {
    let mut frame = ready(100, 0);
    for expected in [1, 2, 3, 3, 3] {
        frame.record_access();
        assert_eq!(frame.usage_count, expected);
    }
    assert_eq!(frame.usage_count, MAX_USAGE);
}

#[test]
fn reader_and_evictor_exchange_the_same_word() {
    let observed = pack_state(FRAME_READY, 0);
    let pinned = match pin_step(observed) {
        Ok(PinStep::Exchange(word)) => word,
        _ => panic!("a ready frame can be pinned"),
    };
    assert_eq!(pinned, 0x20_0001);
    // Whoever comes second finds another word than the observed one.
    assert_ne!(pinned, observed);
    assert_ne!(pack_state(FRAME_EVICTING, 0), observed);
    assert_eq!(pin_step(pack_state(FRAME_EVICTING, 0)), Ok(PinStep::Busy));
    assert_eq!(unpin_step(pinned), Ok(observed));
    assert_eq!(unpin_step(observed), Err(StorageError::NotPinned));
}

#[test]
fn page_numbers_are_little_endian() {
    let mut page = PageData::zeroed();
    page.write_u32(4, 0x0403_0201);
    page.write_u64(8, 0x0807_0605_0403_0201);
    assert_eq!(page.data[4..16], [1, 2, 3, 4, 1, 2, 3, 4, 5, 6, 7, 8]);
    assert_eq!(page.read_u32(4), 0x0403_0201);
    assert_eq!(page.read_u64(8), 0x0807_0605_0403_0201);
    page.write_u64(4088, u64::MAX);
    assert_eq!(page.read_u64(4088), u64::MAX);
    assert_eq!(page.data[4087], 0);
}
