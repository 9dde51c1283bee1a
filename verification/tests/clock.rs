use page_store::storage::clock::ClockReplacer;
use page_store::storage::page::{
    pack_state, FrameMeta, FRAME_EVICTING, FRAME_FREE, FRAME_LOADING, FRAME_READY,
};

fn frame(state: u32, pins: u32, usage_count: u8) -> FrameMeta {
    FrameMeta {
        page_id: 7,
        state_and_pin: pack_state(state, pins),
        usage_count,
        flags: 1,
    }
}

#[test]
fn hand_goes_round() {
    let mut clock = ClockReplacer::new();
    let visited: Vec<usize> = (0..7).map(|_| clock.next(3)).collect();
    assert_eq!(visited, vec![0, 1, 2, 0, 1, 2, 0]);
}

#[test]
fn unused_frame_is_taken_before_a_used_one() {
    let mut clock = ClockReplacer::new();
    let mut frames = vec![
        frame(FRAME_READY, 0, 1),
        frame(FRAME_READY, 1, 0),
        frame(FRAME_READY, 0, 0),
    ];
    assert_eq!(clock.find_victim(&mut frames), Some(2));
    assert_eq!(frames[0], frame(FRAME_READY, 0, 0));
    assert_eq!(frames[1], frame(FRAME_READY, 1, 0));
    assert_eq!(frames[2], frame(FRAME_EVICTING, 0, 0));
    assert_eq!(clock.find_victim(&mut frames), Some(0));
    assert_eq!(clock.find_victim(&mut frames), None);
}

#[test]
fn busy_and_pinned_frames_are_passed_over() {
    let mut clock = ClockReplacer::new();
    let mut frames = vec![
        frame(FRAME_FREE, 0, 0),
        frame(FRAME_LOADING, 1, 0),
        frame(FRAME_EVICTING, 0, 0),
        frame(FRAME_READY, 2, 0),
    ];
    let before = frames.clone();
    assert_eq!(clock.find_victim(&mut frames), None);
    assert_eq!(frames, before);
}

#[test]
fn most_used_frame_is_found_in_the_end() {
    let mut clock = ClockReplacer::new();
    let mut frames = vec![frame(FRAME_READY, 3, 3), frame(FRAME_READY, 0, 3)];
    assert_eq!(clock.find_victim(&mut frames), Some(1));
    assert_eq!(frames[0], frame(FRAME_READY, 3, 3));
    assert_eq!(frames[1], frame(FRAME_EVICTING, 0, 0));
}

#[test]
fn no_frames_means_no_victim() {
    let mut clock = ClockReplacer::new();
    let mut frames: Vec<FrameMeta> = Vec::new();
    assert_eq!(clock.find_victim(&mut frames), None);
}

#[test]
fn coldest_frame_is_taken() {
    let mut clock = ClockReplacer::new();
    clock.next(4);
    clock.next(4);
    // The hand stands at frame 2. Frames 1 and 3 were used least, and the hand
    // comes to frame 3 first.
    let mut frames = vec![
        frame(FRAME_READY, 0, 2),
        frame(FRAME_READY, 0, 1),
        frame(FRAME_READY, 0, 3),
        frame(FRAME_READY, 0, 1),
    ];
    assert_eq!(clock.find_victim(&mut frames), Some(3));
}
