//! The GCLOCK replacement policy.
//!
//! A clock hand goes round the frames. A frame that is not ready or is pinned
//! is passed over. A ready, unpinned frame that was used lately loses one point
//! of its usage count and gets another chance; one without points is taken.
//! Everything that the policy knows about a frame stands in the frame itself.

use crate::storage::page::{
    frame_state, pack_state, pin_count, FrameMeta, FRAME_EVICTING, FRAME_READY, MAX_USAGE,
};
use vstd::prelude::*;

verus! {

/// The frame is ready and nobody has pinned it.
pub open spec fn evictable(frame: FrameMeta) -> bool {
    frame.state() == FRAME_READY && frame.pins() == 0
}

/// The frame after the evictor has taken it.
pub open spec fn taken(frame: FrameMeta) -> FrameMeta {
    FrameMeta { state_and_pin: 0x30_0000, ..frame }
}

/// The frame after it has lost one point of its usage count.
pub open spec fn spared(frame: FrameMeta) -> FrameMeta {
    FrameMeta { usage_count: (frame.usage_count - 1) as u8, ..frame }
}

/// What a sweep of the clock hand leaves behind.
#[verifier::ext_equal]
pub struct Sweep {
    pub frames: Seq<FrameMeta>,
    pub hand: usize,
    pub victim: Option<usize>,
}

/// The outcome of at most `steps` steps of the clock hand.
pub open spec fn sweep(frames: Seq<FrameMeta>, hand: usize, steps: nat) -> Sweep
    decreases steps,
{
    if steps == 0 || frames.len() == 0 {
        Sweep { frames, hand, victim: None }
    } else {
        let f = hand as int % frames.len() as int;
        let next = hand.wrapping_add(1);
        let rest = (steps - 1) as nat;
        if !evictable(frames[f]) {
            sweep(frames, next, rest)
        } else if frames[f].usage_count != 0 {
            sweep(frames.update(f, spared(frames[f])), next, rest)
        } else {
            Sweep {
                frames: frames.update(f, taken(frames[f])),
                hand: next,
                victim: Some(f as usize),
            }
        }
    }
}

/// How many steps a search for a victim takes at most: one round more than
/// brings every usage count to zero and takes the frame, if that number fits.
pub open spec fn sweep_steps(frame_count: nat) -> nat {
    if frame_count * 5 <= usize::MAX {
        frame_count * 5
    } else {
        usize::MAX as nat
    }
}

/// How often `steps` steps of the hand visit frame `c` of `n`.
spec fn visits(hand: usize, n: int, c: int, steps: nat) -> nat
    decreases steps,
{
    if steps == 0 {
        0
    } else {
        let here: nat = if hand as int % n == c {
            1
        } else {
            0
        };
        here + visits(hand.wrapping_add(1), n, c, (steps - 1) as nat)
    }
}

/// The hand `steps` later.
spec fn hand_after(hand: usize, steps: nat) -> usize
    decreases steps,
{
    if steps == 0 {
        hand
    } else {
        hand_after(hand.wrapping_add(1), (steps - 1) as nat)
    }
}

proof fn lemma_visits_add(hand: usize, n: int, c: int, a: nat, b: nat)
    ensures
        visits(hand, n, c, a + b) == visits(hand, n, c, a) + visits(hand_after(hand, a), n, c, b),
    decreases a,
{
    if a > 0 {
        lemma_visits_add(hand.wrapping_add(1), n, c, (a - 1) as nat, b);
    }
}

/// Without wrapping, the hand moves straight on.
proof fn lemma_hand_straight(hand: usize, steps: nat)
    requires
        hand + steps <= usize::MAX,
    ensures
        hand_after(hand, steps) == hand + steps,
    decreases steps,
{
    if steps > 0 {
        lemma_hand_straight(hand.wrapping_add(1), (steps - 1) as nat);
    }
}

/// The hand wraps to zero when it passes the largest number.
proof fn lemma_hand_wraps(hand: usize, steps: nat)
    requires
        hand + steps == usize::MAX + 1,
    ensures
        hand_after(hand, steps) == 0,
    decreases steps,
{
    if steps == 1 {
        assert(hand_after(hand.wrapping_add(1), 0) == 0);
    } else {
        lemma_hand_wraps(hand.wrapping_add(1), (steps - 1) as nat);
    }
}

/// A visit somewhere on the way counts.
proof fn lemma_one_visit(hand: usize, n: int, c: int, steps: nat, j: nat)
    requires
        j < steps,
        hand + j <= usize::MAX,
        (hand + j) % n == c,
    ensures
        visits(hand, n, c, steps) >= 1,
    decreases j,
{
    if j > 0 {
        lemma_one_visit(hand.wrapping_add(1), n, c, (steps - 1) as nat, (j - 1) as nat);
    }
}

/// Any `n` steps in a row, without wrapping, visit every frame.
proof fn lemma_round(hand: usize, n: int, c: int)
    requires
        0 <= c < n,
        hand + n <= usize::MAX + 1,
    ensures
        visits(hand, n, c, n as nat) >= 1,
{
    let q = hand as int / n;
    let r = hand as int % n;
    vstd::arithmetic::div_mod::lemma_fundamental_div_mod(hand as int, n);
    vstd::arithmetic::div_mod::lemma_mod_pos_bound(hand as int, n);
    let j = if c >= r {
        c - r
    } else {
        c - r + n
    };
    if c >= r {
        assert(hand + j == n * q + c);
        vstd::arithmetic::mul::lemma_mul_is_commutative(n, q);
        vstd::arithmetic::div_mod::lemma_fundamental_div_mod_converse(hand + j, n, q, c);
    } else {
        assert(hand + j == n * (q + 1) + c) by (nonlinear_arith)
            requires
                hand as int == n * q + r,
                j == c - r + n,
        ;
        vstd::arithmetic::mul::lemma_mul_is_commutative(n, q + 1);
        vstd::arithmetic::div_mod::lemma_fundamental_div_mod_converse(hand + j, n, q + 1, c);
    }
    lemma_one_visit(hand, n, c, n as nat, j as nat);
}

/// `rounds` rounds without wrapping visit every frame `rounds` times.
proof fn lemma_rounds(hand: usize, n: int, c: int, rounds: nat)
    requires
        0 <= c < n,
        hand + rounds * n <= usize::MAX + 1,
    ensures
        visits(hand, n, c, (rounds * n) as nat) >= rounds,
    decreases rounds,
{
    if rounds > 0 {
        let rest = ((rounds - 1) * n) as nat;
        assert(rounds * n == n + (rounds - 1) * n) by (nonlinear_arith);
        assert((rounds - 1) * n >= 0) by (nonlinear_arith)
            requires
                rounds > 0,
                n > 0,
        ;
        lemma_visits_add(hand, n, c, n as nat, rest);
        lemma_round(hand, n, c);
        if rounds > 1 {
            assert((rounds - 1) * n >= n) by (nonlinear_arith)
                requires
                    rounds > 1,
                    n > 0,
            ;
            lemma_hand_straight(hand, n as nat);
            lemma_rounds((hand + n) as usize, n, c, (rounds - 1) as nat);
        }
    }
}

/// More steps do not lose visits.
proof fn lemma_visits_monotone(hand: usize, n: int, c: int, a: nat, b: nat)
    requires
        a <= b,
    ensures
        visits(hand, n, c, a) <= visits(hand, n, c, b),
{
    lemma_visits_add(hand, n, c, a, (b - a) as nat);
}

/// Five rounds visit every frame four times, even if the hand wraps.
proof fn lemma_five_rounds(hand: usize, n: int, c: int)
    requires
        0 <= c < n,
        5 * n <= usize::MAX,
    ensures
        visits(hand, n, c, (5 * n) as nat) >= 4,
{
    if hand + 5 * n <= usize::MAX + 1 {
        lemma_rounds(hand, n, c, 5);
    } else {
        let k = usize::MAX + 1 - hand;
        let q1 = k / n;
        let r1 = k % n;
        let q2 = (5 * n - k) / n;
        let r2 = (5 * n - k) % n;
        vstd::arithmetic::div_mod::lemma_fundamental_div_mod(k, n);
        vstd::arithmetic::div_mod::lemma_fundamental_div_mod(5 * n - k, n);
        vstd::arithmetic::div_mod::lemma_mod_pos_bound(k, n);
        vstd::arithmetic::div_mod::lemma_mod_pos_bound(5 * n - k, n);
        vstd::arithmetic::div_mod::lemma_div_pos_is_pos(k, n);
        vstd::arithmetic::div_mod::lemma_div_pos_is_pos(5 * n - k, n);
        assert(q1 + q2 >= 4) by (nonlinear_arith)
            requires
                k == n * q1 + r1,
                5 * n - k == n * q2 + r2,
                0 <= r1 < n,
                0 <= r2 < n,
        ;
        assert(q1 * n <= k && q2 * n <= 5 * n - k) by (nonlinear_arith)
            requires
                k == n * q1 + r1,
                5 * n - k == n * q2 + r2,
                0 <= r1 < n,
                0 <= r2 < n,
        ;
        assert(q1 * n >= 0 && q2 * n >= 0) by (nonlinear_arith)
            requires
                q1 >= 0,
                q2 >= 0,
                n > 0,
        ;
        lemma_visits_add(hand, n, c, k as nat, (5 * n - k) as nat);
        lemma_hand_wraps(hand, k as nat);
        lemma_rounds(hand, n, c, q1 as nat);
        lemma_visits_monotone(hand, n, c, (q1 * n) as nat, k as nat);
        lemma_rounds(0, n, c, q2 as nat);
        lemma_visits_monotone(0, n, c, (q2 * n) as nat, (5 * n - k) as nat);
    }
}

/// A sweep without a victim has spared an evictable frame at each visit.
proof fn lemma_spared_at_each_visit(frames: Seq<FrameMeta>, hand: usize, steps: nat, c: int)
    requires
        0 <= c < frames.len(),
        evictable(frames[c]),
        sweep(frames, hand, steps).victim is None,
    ensures
        visits(hand, frames.len() as int, c, steps) <= frames[c].usage_count,
    decreases steps,
{
    if steps > 0 {
        let f = hand as int % frames.len() as int;
        let next = hand.wrapping_add(1);
        let rest = (steps - 1) as nat;
        if !evictable(frames[f]) {
            lemma_spared_at_each_visit(frames, next, rest, c);
        } else if frames[f].usage_count != 0 {
            let after = frames.update(f, spared(frames[f]));
            assert(evictable(after[c]));
            lemma_spared_at_each_visit(after, next, rest, c);
        }
    }
}

/// What a sweep leaves alone: it takes only a frame that was evictable, and
/// changes no other frame except that evictable frames lose usage points.
pub proof fn lemma_sweep_effect(frames: Seq<FrameMeta>, hand: usize, steps: nat)
    ensures
        sweep(frames, hand, steps).frames.len() == frames.len(),
        sweep(frames, hand, steps).victim matches Some(v) ==> 0 <= v < frames.len() && evictable(
            frames[v as int],
        ) && sweep(frames, hand, steps).frames[v as int].page_id == frames[v as int].page_id
            && sweep(frames, hand, steps).frames[v as int].flags == frames[v as int].flags && sweep(
            frames,
            hand,
            steps,
        ).frames[v as int].usage_count == 0 && sweep(frames, hand, steps).frames[v as int].state_and_pin
            == 0x30_0000,
        forall|i: int|
            0 <= i < frames.len() && sweep(frames, hand, steps).victim != Some(i as usize) ==> {
                let new = #[trigger] sweep(frames, hand, steps).frames[i];
                &&& new == (FrameMeta { usage_count: new.usage_count, ..frames[i] })
                &&& new.usage_count <= frames[i].usage_count
                &&& !evictable(frames[i]) ==> new == frames[i]
            },
    decreases steps,
{
    if steps > 0 && frames.len() > 0 {
        let n = frames.len() as int;
        let f = hand as int % n;
        vstd::arithmetic::div_mod::lemma_mod_pos_bound(hand as int, n);
        let next = hand.wrapping_add(1);
        let rest = (steps - 1) as nat;
        assert(f <= hand) by {
            vstd::arithmetic::div_mod::lemma_mod_decreases(hand as nat, n as nat);
        }
        if !evictable(frames[f]) {
            lemma_sweep_effect(frames, next, rest);
        } else if frames[f].usage_count != 0 {
            let after = frames.update(f, spared(frames[f]));
            lemma_sweep_effect(after, next, rest);
            let done = sweep(after, next, rest);
            assert(done == sweep(frames, hand, steps));
            assert forall|i: int| 0 <= i < frames.len() && done.victim != Some(i as usize) implies ({
                let new = #[trigger] done.frames[i];
                &&& new == (FrameMeta { usage_count: new.usage_count, ..frames[i] })
                &&& new.usage_count <= frames[i].usage_count
                &&& !evictable(frames[i]) ==> new == frames[i]
            }) by {
                assert(evictable(after[i]) == evictable(frames[i]));
            }
        }
    }
}

/// The search for a victim fails exactly when no frame is ready and unpinned,
/// whatever the usage counts are, up to their ceiling, and wherever the hand
/// stands.
pub proof fn law_sweep_finds_a_victim(frames: Seq<FrameMeta>, hand: usize)
    requires
        frames.len() * 5 <= usize::MAX,
        forall|i: int|
            0 <= i < frames.len() ==> (#[trigger] frames[i]).usage_count <= MAX_USAGE,
    ensures
        sweep(frames, hand, sweep_steps(frames.len())).victim is None <==> forall|i: int|
            0 <= i < frames.len() ==> !evictable(#[trigger] frames[i]),
{
    let steps = sweep_steps(frames.len());
    if sweep(frames, hand, steps).victim is None {
        assert forall|i: int| 0 <= i < frames.len() implies !evictable(#[trigger] frames[i]) by {
            if evictable(frames[i]) {
                lemma_spared_at_each_visit(frames, hand, steps, i);
                lemma_five_rounds(hand, frames.len() as int, i);
            }
        }
    } else {
        lemma_sweep_effect(frames, hand, steps);
    }
}

/// How many frames the hand passes before it comes to frame `f` of `n`.
pub open spec fn distance(hand: usize, n: int, f: int) -> int {
    let at = hand as int % n;
    if f >= at {
        f - at
    } else {
        f - at + n
    }
}

/// The hand has gone round the frames evenly on its way: it has not wrapped, or
/// only where a round ends.
pub open spec fn even_rounds(hand: usize, end: usize, n: int) -> bool {
    hand < end || end == 0 || (usize::MAX + 1) % n == 0
}

/// The frame is colder than another one: it was used less, or as much and the
/// hand comes to it first.
pub open spec fn colder(frames: Seq<FrameMeta>, hand: usize, f: int, other: int) -> bool {
    ||| frames[f].usage_count < frames[other].usage_count
    ||| frames[f].usage_count == frames[other].usage_count && distance(
        hand,
        frames.len() as int,
        f,
    ) < distance(hand, frames.len() as int, other)
}

proof fn lemma_distance(hand: usize, n: int, f: int)
    requires
        0 <= f < n,
    ensures
        0 <= distance(hand, n, f) < n,
        distance(hand, n, f) == 0 <==> hand as int % n == f,
{
    vstd::arithmetic::div_mod::lemma_mod_pos_bound(hand as int, n);
}

/// One step of the hand brings it one frame nearer to every frame but the one
/// that it leaves, which is a round away then.
proof fn lemma_hand_step(hand: usize, n: int, f: int)
    requires
        0 <= f < n,
        hand < usize::MAX || (usize::MAX + 1) % n == 0,
    ensures
        distance(hand.wrapping_add(1), n, f) == (if hand as int % n == f {
            n - 1
        } else {
            distance(hand, n, f) - 1
        }),
{
    let h = hand as int;
    vstd::arithmetic::div_mod::lemma_mod_pos_bound(h, n);
    vstd::arithmetic::div_mod::lemma_fundamental_div_mod(h, n);
    let q = h / n;
    let r = h % n;
    vstd::arithmetic::mul::lemma_mul_is_commutative(n, q);
    if r + 1 < n {
        vstd::arithmetic::div_mod::lemma_fundamental_div_mod_converse(h + 1, n, q, r + 1);
    } else {
        assert(h + 1 == (q + 1) * n + 0) by (nonlinear_arith)
            requires
                h == q * n + r,
                r + 1 == n,
        ;
        vstd::arithmetic::div_mod::lemma_fundamental_div_mod_converse(h + 1, n, q + 1, 0);
    }
    if hand == usize::MAX {
        vstd::arithmetic::div_mod::lemma_small_mod(0, n as nat);
    }
}

/// A sweep that finds a victim ends with the step that takes it.
proof fn lemma_last_step(frames: Seq<FrameMeta>, hand: usize, steps: nat) -> (last: nat)
    requires
        sweep(frames, hand, steps).victim is Some,
    ensures
        1 <= last <= steps,
        sweep(frames, hand, last) == sweep(frames, hand, steps),
        sweep(frames, hand, steps).hand == hand_after(hand, last),
    decreases steps,
{
    let f = hand as int % frames.len() as int;
    let next = hand.wrapping_add(1);
    let rest = (steps - 1) as nat;
    if !evictable(frames[f]) {
        lemma_last_step(frames, next, rest) + 1
    } else if frames[f].usage_count != 0 {
        lemma_last_step(frames.update(f, spared(frames[f])), next, rest) + 1
    } else {
        assert(hand_after(next, 0) == next);
        1
    }
}

proof fn lemma_victim_is_coldest(
    frames: Seq<FrameMeta>,
    hand: usize,
    steps: nat,
    victim: usize,
    other: int,
)
    requires
        sweep(frames, hand, steps).victim == Some(victim),
        hand + steps <= usize::MAX + 1 || (usize::MAX + 1) % (frames.len() as int) == 0,
        0 <= other < frames.len(),
        other != victim,
        evictable(frames[other]),
    ensures
        colder(frames, hand, victim as int, other),
    decreases steps,
{
    let n = frames.len() as int;
    let f = hand as int % n;
    let next = hand.wrapping_add(1);
    let rest = (steps - 1) as nat;
    lemma_sweep_effect(frames, hand, steps);
    lemma_distance(hand, n, other);
    lemma_distance(hand, n, victim as int);
    if !evictable(frames[f]) {
        assert(sweep(frames, next, rest).victim is Some);
        lemma_hand_step(hand, n, other);
        lemma_hand_step(hand, n, victim as int);
        lemma_victim_is_coldest(frames, next, rest, victim, other);
    } else if frames[f].usage_count != 0 {
        let after = frames.update(f, spared(frames[f]));
        assert(sweep(after, next, rest).victim is Some);
        lemma_hand_step(hand, n, other);
        lemma_hand_step(hand, n, victim as int);
        assert(evictable(after[other]));
        lemma_distance(next, n, other);
        lemma_distance(next, n, victim as int);
        lemma_victim_is_coldest(after, next, rest, victim, other);
    }
}

/// The victim of a sweep is colder than every other frame that could have been
/// taken. The law leaves out a hand that has wrapped in the middle of a round:
/// frames that it has just passed then come under it again at once.
pub proof fn law_victim_is_coldest(
    frames: Seq<FrameMeta>,
    hand: usize,
    steps: nat,
    victim: usize,
    other: int,
)
    requires
        steps <= usize::MAX,
        sweep(frames, hand, steps).victim == Some(victim),
        even_rounds(hand, sweep(frames, hand, steps).hand, frames.len() as int),
        0 <= other < frames.len(),
        other != victim,
        evictable(frames[other]),
    ensures
        colder(frames, hand, victim as int, other),
{
    let last = lemma_last_step(frames, hand, steps);
    if hand + last > usize::MAX + 1 {
        let straight = (usize::MAX + 1 - hand) as nat;
        let over = (last - straight) as nat;
        lemma_hand_wraps(hand, straight);
        lemma_hand_after_add(hand, straight, over);
        lemma_hand_straight(0, over);
    }
    lemma_victim_is_coldest(frames, hand, last, victim, other);
}

proof fn lemma_hand_after_add(hand: usize, a: nat, b: nat)
    ensures
        hand_after(hand, a + b) == hand_after(hand_after(hand, a), b),
    decreases a,
{
    if a > 0 {
        lemma_hand_after_add(hand.wrapping_add(1), (a - 1) as nat, b);
    }
}

/// How often a hand that starts at `hand` and moves on by one, wrapping after the
/// largest number, has stood at frame `f` of `n` in its first `steps` positions.
pub open spec fn times_passed(hand: int, n: int, f: int, steps: nat) -> nat
    decreases steps,
{
    if steps == 0 {
        0
    } else {
        let last = (hand + steps - 1) % (usize::MAX + 1) % n;
        times_passed(hand, n, f, (steps - 1) as nat) + (if last == f {
            1nat
        } else {
            0nat
        })
    }
}

proof fn lemma_hand_position(hand: usize, steps: nat)
    requires
        steps <= usize::MAX,
    ensures
        hand_after(hand, steps) == (hand + steps) % (usize::MAX + 1),
{
    let m = usize::MAX + 1;
    if hand + steps <= usize::MAX {
        lemma_hand_straight(hand, steps);
        vstd::arithmetic::div_mod::lemma_small_mod((hand + steps) as nat, m as nat);
    } else {
        let straight = (m - hand) as nat;
        let over = (steps - straight) as nat;
        lemma_hand_wraps(hand, straight);
        lemma_hand_after_add(hand, straight, over);
        lemma_hand_straight(0, over);
        vstd::arithmetic::div_mod::lemma_fundamental_div_mod_converse(
            hand + steps,
            m,
            1,
            over as int,
        );
    }
}

proof fn lemma_visits_are_passes(hand: usize, n: int, f: int, steps: nat)
    requires
        steps <= usize::MAX,
    ensures
        visits(hand, n, f, steps) == times_passed(hand as int, n, f, steps),
    decreases steps,
{
    if steps > 0 {
        let before = (steps - 1) as nat;
        lemma_visits_are_passes(hand, n, f, before);
        lemma_visits_add(hand, n, f, before, 1);
        lemma_hand_position(hand, before);
        let at = hand_after(hand, before);
        assert(visits(at.wrapping_add(1), n, f, 0) == 0);
        assert(visits(at, n, f, 1) == (if at as int % n == f {
            1nat
        } else {
            0nat
        }));
    }
}

/// The first step visits the frame under the hand.
proof fn lemma_first_visit(hand: usize, n: int, rest: nat)
    ensures
        forall|f: int| #[trigger]
            visits(hand, n, f, rest + 1) == (if hand as int % n == f {
                1nat
            } else {
                0nat
            }) + visits(hand.wrapping_add(1), n, f, rest),
        rest > 0 ==> forall|f: int| #[trigger]
            visits(hand, n, f, rest) == (if hand as int % n == f {
                1nat
            } else {
                0nat
            }) + visits(hand.wrapping_add(1), n, f, (rest - 1) as nat),
        hand_after(hand, rest + 1) == hand_after(hand.wrapping_add(1), rest),
        rest > 0 ==> hand_after(hand, rest) == hand_after(
            hand.wrapping_add(1),
            (rest - 1) as nat,
        ),
{
}

/// The account of a sweep, frame by frame.
proof fn lemma_sweep_account(frames: Seq<FrameMeta>, hand: usize, steps: nat) -> (taken_steps: nat)
    requires
        0 < frames.len() <= usize::MAX,
    ensures
        taken_steps <= steps,
        ({
            let done = sweep(frames, hand, steps);
            let n = frames.len() as int;
            &&& done.frames.len() == n
            &&& done.hand == hand_after(hand, taken_steps)
            &&& done.victim is None ==> taken_steps == steps
            &&& forall|f: int|
                0 <= f < n && !evictable(frames[f]) ==> #[trigger] done.frames[f] == frames[f]
            &&& forall|f: int|
                #![trigger done.frames[f]]
                #![trigger frames[f]]
                0 <= f < n && evictable(frames[f]) && done.victim != Some(f as usize) ==> {
                    let passed = visits(hand, n, f, taken_steps);
                    &&& passed <= frames[f].usage_count
                    &&& done.frames[f] == (FrameMeta {
                        usage_count: (frames[f].usage_count - passed) as u8,
                        ..frames[f]
                    })
                }
            &&& done.victim matches Some(v) ==> {
                &&& taken_steps > 0
                &&& v < n
                &&& evictable(frames[v as int])
                &&& hand_after(hand, (taken_steps - 1) as nat) as int % n == v
                &&& visits(hand, n, v as int, (taken_steps - 1) as nat)
                    == frames[v as int].usage_count
                &&& done.frames[v as int] == (FrameMeta {
                    usage_count: 0,
                    state_and_pin: 0x30_0000,
                    ..frames[v as int]
                })
            }
        }),
    decreases steps,
{
    if steps == 0 {
        0
    } else {
        let n = frames.len() as int;
        let f = hand as int % n;
        let next = hand.wrapping_add(1);
        let rest = (steps - 1) as nat;
        vstd::arithmetic::div_mod::lemma_mod_pos_bound(hand as int, n);
        if !evictable(frames[f]) {
            let k = lemma_sweep_account(frames, next, rest);
            lemma_first_visit(hand, n, k);
            let done = sweep(frames, hand, steps);
            assert(done == sweep(frames, next, rest));
            assert forall|g: int|
                #![trigger done.frames[g]]
                #![trigger frames[g]]
                0 <= g < n && evictable(frames[g]) && done.victim != Some(g as usize) implies {
                let passed = visits(hand, n, g, k + 1);
                &&& passed <= frames[g].usage_count
                &&& done.frames[g] == (FrameMeta {
                    usage_count: (frames[g].usage_count - passed) as u8,
                    ..frames[g]
                })
            } by {
                assert(f != g);
                assert(visits(hand, n, g, k + 1) == visits(next, n, g, k));
                assert(done.frames[g] == sweep(frames, next, rest).frames[g]);
            }
            assert forall|g: int| 0 <= g < n && !evictable(frames[g]) implies #[trigger]
                done.frames[g] == frames[g] by {
                assert(done.frames[g] == sweep(frames, next, rest).frames[g]);
            }
            if let Some(v) = done.victim {
                assert(v != f);
                assert(visits(hand, n, v as int, k) == visits(next, n, v as int, (k - 1) as nat));
            }
            k + 1
        } else if frames[f].usage_count != 0 {
            let after = frames.update(f, spared(frames[f]));
            let k = lemma_sweep_account(after, next, rest);
            lemma_first_visit(hand, n, k);
            assert forall|g: int| 0 <= g < n implies evictable(#[trigger] after[g]) == evictable(
                frames[g],
            ) by {}
            let done = sweep(frames, hand, steps);
            assert forall|g: int|
                #![trigger done.frames[g]]
                #![trigger frames[g]]
                0 <= g < n && evictable(frames[g]) && done.victim != Some(g as usize) implies {
                let passed = visits(hand, n, g, k + 1);
                &&& passed <= frames[g].usage_count
                &&& done.frames[g] == (FrameMeta {
                    usage_count: (frames[g].usage_count - passed) as u8,
                    ..frames[g]
                })
            } by {
                assert(evictable(after[g]));
                assert(visits(hand, n, g, k + 1) == (if f == g {
                    1nat
                } else {
                    0nat
                }) + visits(next, n, g, k));
                assert(done.frames[g] == sweep(after, next, rest).frames[g]);
            }
            assert forall|g: int| 0 <= g < n && !evictable(frames[g]) implies #[trigger]
                done.frames[g] == frames[g] by {
                assert(after[g] == frames[g]);
                assert(done.frames[g] == sweep(after, next, rest).frames[g]);
            }
            if let Some(v) = done.victim {
                assert(evictable(after[v as int]));
                assert(visits(hand, n, v as int, k) == (if f == v {
                    1nat
                } else {
                    0nat
                }) + visits(next, n, v as int, (k - 1) as nat));
            }
            k + 1
        } else {
            assert forall|g: int| visits(hand, n, g, 1) == (if f == g {
                1nat
            } else {
                0nat
            }) by {
                assert(visits(next, n, g, 0) == 0);
            }
            assert(hand_after(next, 0) == next);
            assert(hand_after(hand, 0) == hand);
            assert(hand_after(hand, 1) == next);
            assert(visits(hand, n, f, 0) == 0);
            let done = sweep(frames, hand, steps);
            assert(done.victim == Some(f as usize));
            assert forall|g: int|
                #![trigger done.frames[g]]
                #![trigger frames[g]]
                0 <= g < n && evictable(frames[g]) && done.victim != Some(g as usize) implies {
                let passed = visits(hand, n, g, 1);
                &&& passed <= frames[g].usage_count
                &&& done.frames[g] == (FrameMeta {
                    usage_count: (frames[g].usage_count - passed) as u8,
                    ..frames[g]
                })
            } by {
                assert(f != g);
            }
            1
        }
    }
}

/// What a search for a victim costs each frame. The hand makes some number of
/// steps, five rounds if it finds nothing. A frame that is not ready or is
/// pinned is left alone. A ready, unpinned frame that is not taken loses one
/// point for each time that the hand has come to it, and so none if the hand has
/// not. The frame that is taken is the one that the hand has come to last; it
/// had lost all its points before.
pub proof fn law_sweep_takes_one_point_per_pass(frames: Seq<FrameMeta>, hand: usize) -> (steps: nat)
    requires
        frames.len() > 0,
        frames.len() * 5 <= usize::MAX,
    ensures
        steps <= 5 * frames.len(),
        ({
            let done = sweep(frames, hand, sweep_steps(frames.len()));
            let n = frames.len() as int;
            &&& done.frames.len() == n
            &&& done.hand == (hand + steps) % (usize::MAX + 1)
            &&& done.victim is None ==> steps == 5 * frames.len()
            &&& forall|f: int|
                0 <= f < n ==> (#[trigger] done.frames[f]).page_id == frames[f].page_id
                    && done.frames[f].flags == frames[f].flags
            &&& forall|f: int|
                0 <= f < n && !(frames[f].state_and_pin as int % 0x40_0000 == 0x20_0000)
                    ==> #[trigger] done.frames[f] == frames[f]
            &&& forall|f: int|
                0 <= f < n && frames[f].state_and_pin as int % 0x40_0000 == 0x20_0000
                    && done.victim != Some(f as usize) ==> (#[trigger] done.frames[f]).state_and_pin
                    == frames[f].state_and_pin && done.frames[f].usage_count
                    == frames[f].usage_count - times_passed(hand as int, n, f, steps)
            &&& done.victim matches Some(v) ==> {
                &&& steps > 0
                &&& v < n
                &&& frames[v as int].state_and_pin as int % 0x40_0000 == 0x20_0000
                &&& (hand + steps - 1) % (usize::MAX + 1) % n == v
                &&& times_passed(hand as int, n, v as int, (steps - 1) as nat)
                    == frames[v as int].usage_count
                &&& done.frames[v as int].usage_count == 0
                &&& done.frames[v as int].state_and_pin == 0x30_0000
            }
        }),
{
    let n = frames.len() as int;
    let done = sweep(frames, hand, sweep_steps(frames.len()));
    let steps = lemma_sweep_account(frames, hand, sweep_steps(frames.len()));
    lemma_hand_position(hand, steps);
    assert forall|f: int| 0 <= f < n implies (evictable(#[trigger] frames[f])
        <==> frames[f].state_and_pin as int % 0x40_0000 == 0x20_0000) by {
        lemma_idle_word(frames[f].state_and_pin);
    }
    assert forall|f: int|
        0 <= f < n && frames[f].state_and_pin as int % 0x40_0000 == 0x20_0000 && done.victim
            != Some(f as usize) implies (#[trigger] done.frames[f]).state_and_pin
        == frames[f].state_and_pin && done.frames[f].usage_count == frames[f].usage_count
        - times_passed(hand as int, n, f, steps) by {
        assert(evictable(frames[f]));
        lemma_visits_are_passes(hand, n, f, steps);
    }
    if let Some(v) = done.victim {
        assert(evictable(frames[v as int]));
        lemma_visits_are_passes(hand, n, v as int, (steps - 1) as nat);
        lemma_hand_position(hand, (steps - 1) as nat);
    }
    steps
}

/// The low 22 bits of a word say whether the frame is ready and unpinned.
proof fn lemma_idle_word(word: u32)
    ensures
        (crate::storage::page::word_state(word) == FRAME_READY && crate::storage::page::word_pins(
            word,
        ) == 0) <==> word as int % 0x40_0000 == 0x20_0000,
{
}

/// The clock hand.
pub struct ClockReplacer {
    next_victim: usize,
}

impl ClockReplacer {
    /// Where the hand stands.
    pub closed spec fn hand(self) -> usize {
        self.next_victim
    }

    /// A hand at the first frame.
    pub fn new() -> (replacer: ClockReplacer)
        ensures
            replacer.hand() == 0,
    {
        ClockReplacer { next_victim: 0 }
    }

    /// The frame under the hand; the hand moves on.
    pub fn next(&mut self, frame_count: usize) -> (frame_id: usize)
        requires
            frame_count > 0,
        ensures
            frame_id == old(self).hand() as int % frame_count as int,
            frame_id < frame_count,
            final(self).hand() == old(self).hand().wrapping_add(1),
    {
        let current: usize = self.next_victim;
        self.next_victim = current.wrapping_add(1);
        current % frame_count
    }

    /// Looks for a victim among the frames and takes it.
    pub fn find_victim(&mut self, frames: &mut Vec<FrameMeta>) -> (victim: Option<usize>)
        ensures
            ({
                let done = sweep(
                    old(frames)@,
                    old(self).hand(),
                    sweep_steps(old(frames)@.len()),
                );
                &&& final(frames)@ == done.frames
                &&& final(self).hand() == done.hand
                &&& victim == done.victim
            }),
    {
        let frame_count: usize = frames.len();
        let rounds: usize = MAX_USAGE as usize + 2;
        let max_scan: usize = if frame_count <= usize::MAX / rounds {
            frame_count * rounds
        } else {
            usize::MAX
        };
        let mut i: usize = 0;
        while i < max_scan
            invariant
                i <= max_scan,
                frames@.len() == frame_count,
                old(frames)@.len() == frame_count,
                max_scan == sweep_steps(frame_count as nat),
                sweep(old(frames)@, old(self).hand(), max_scan as nat) == sweep(
                    frames@,
                    self.hand(),
                    (max_scan - i) as nat,
                ),
            decreases max_scan - i,
        {
            let frame_id: usize = self.next(frame_count);
            i = i + 1;
            let mut frame: FrameMeta = frames[frame_id];
            if frame_state(frame.state_and_pin) == FRAME_READY && pin_count(frame.state_and_pin)
                == 0 {
                if frame.usage_count != 0 {
                    frame.usage_count = frame.usage_count - 1;
                    frames[frame_id] = frame;
                } else {
                    frame.state_and_pin = pack_state(FRAME_EVICTING, 0);
                    frames[frame_id] = frame;
                    return Some(frame_id);
                }
            }
        }
        None
    }
}

} // verus!
