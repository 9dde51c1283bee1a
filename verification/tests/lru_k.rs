use page_store::storage::lru_k::LruKReplacer;

fn used(frame_count: usize, accesses: &[usize]) -> LruKReplacer {
    let mut replacer = LruKReplacer::new(frame_count);
    for &frame in accesses {
        replacer.record_access(frame);
    }
    for frame in 0..frame_count {
        replacer.set_evictable(frame, true);
    }
    replacer
}

#[test]
fn nothing_to_evict_at_first() {
    let mut replacer = LruKReplacer::new(3);
    assert_eq!(replacer.evict(), None);
    replacer.set_evictable(1, true);
    assert_eq!(replacer.evict(), None);
}

#[test]
fn frame_that_must_stay_is_not_evicted() {
    let mut replacer = used(2, &[0, 1]);
    replacer.set_evictable(0, false);
    assert_eq!(replacer.evict(), Some(1));
    assert_eq!(replacer.evict(), None);
}

#[test]
fn once_used_frames_go_in_order_of_use() {
    let mut replacer = used(3, &[2, 0, 1]);
    assert_eq!(replacer.evict(), Some(2));
    assert_eq!(replacer.evict(), Some(0));
    assert_eq!(replacer.evict(), Some(1));
    assert_eq!(replacer.evict(), None);
}

#[test]
fn once_used_goes_before_twice_used() {
    // Frame 0 was used twice long ago, frame 1 once just now.
    let mut replacer = used(2, &[0, 0, 1]);
    assert_eq!(replacer.evict(), Some(1));
    assert_eq!(replacer.evict(), Some(0));
}

#[test]
fn twice_used_frames_go_by_their_last_use_but_one() {
    // Last uses but one: frame 0 at 1, frame 1 at 2. Last uses: 4 and 3.
    let mut replacer = used(2, &[0, 1, 1, 0]);
    assert_eq!(replacer.evict(), Some(0));
    assert_eq!(replacer.evict(), Some(1));
}

#[test]
fn third_use_moves_the_window() {
    // Last uses but one: frame 0 at 3, frame 1 at 2.
    let mut replacer = used(2, &[0, 1, 0, 0, 1]);
    assert_eq!(replacer.evict(), Some(1));
    assert_eq!(replacer.evict(), Some(0));
}

#[test]
fn evicted_frame_starts_over() {
    let mut replacer = used(2, &[0, 0, 1, 1]);
    assert_eq!(replacer.evict(), Some(0));
    replacer.record_access(0);
    // The history is gone: frame 0 counts as used once, but must be released.
    assert_eq!(replacer.evict(), Some(1));
    replacer.set_evictable(0, true);
    assert_eq!(replacer.evict(), Some(0));
}

#[test]
fn reset_forgets_a_frame() {
    let mut replacer = used(2, &[0, 1]);
    replacer.reset(0);
    assert_eq!(replacer.evict(), Some(1));
    assert_eq!(replacer.evict(), None);
}
