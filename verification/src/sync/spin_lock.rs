//! A spin lock.
//!
//! The lock is one flag. Each method here is one indivisible step on the flag;
//! the threads that share the lock interleave such steps in any order.

use vstd::prelude::*;

verus! {

/// The flag of a spin lock.
pub struct SpinLock {
    locked: bool,
}

/// The right to be inside the lock. It ends when the guard is dropped. A proof
/// learns nothing from a drop at the end of a scope; one that needs the lock to
/// be free calls `unlock`.
pub struct SpinLockGuard<'a> {
    /// The lock, until it has been left.
    pub lock: Option<&'a mut SpinLock>,
}

/// What a thread that has seen the flag exchanges it for: nothing while
/// somebody is inside.
pub open spec fn spec_take_step(observed: bool) -> Option<bool> {
    if observed {
        None
    } else {
        Some(true)
    }
}

/// What a thread that has seen the flag exchanges it for: nothing while
/// somebody is inside.
pub fn take_step(observed: bool) -> (new: Option<bool>)
    ensures
        new == spec_take_step(observed),
{
    if observed {
        None
    } else {
        Some(true)
    }
}

impl SpinLock {
    /// Whether somebody is inside the lock.
    pub closed spec fn is_locked(self) -> bool {
        self.locked
    }

    /// A lock that nobody has taken.
    pub fn new() -> (lock: SpinLock)
        ensures
            !lock.is_locked(),
    {
        SpinLock { locked: false }
    }

    /// Takes the lock. While somebody else is inside, a thread spins and comes
    /// here only when it has seen the flag clear.
    pub fn lock(&mut self) -> (guard: SpinLockGuard<'_>)
        requires
            !old(self).is_locked(),
        ensures
            guard.lock is Some,
            guard.lock->0.is_locked(),
            *final(self) == *final(guard.lock->0),
    {
        self.locked = true;
        SpinLockGuard { lock: Some(self) }
    }

    /// Takes the lock if nobody is inside.
    pub fn try_lock(&mut self) -> (guard: Option<SpinLockGuard<'_>>)
        ensures
            guard is Some <==> !old(self).is_locked(),
            guard is None ==> *final(self) == *old(self),
            guard matches Some(g) ==> g.lock is Some && g.lock->0.is_locked() && *final(self)
                == *final(g.lock->0),
    {
        match take_step(self.locked) {
            None => None,
            Some(taken) => {
                self.locked = taken;
                Some(SpinLockGuard { lock: Some(self) })
            },
        }
    }
}

impl<'a> SpinLockGuard<'a> {
    /// Leaves the lock.
    pub fn unlock(self)
        ensures
            self.lock is Some ==> !final(self.lock->0).is_locked(),
    {
        let mut guard = self;
        match guard.lock.take() {
            Some(lock) => {
                lock.locked = false;
            },
            None => {},
        }
    }
}

impl<'a> Drop for SpinLockGuard<'a> {
    /// Leaves the lock, if the guard has not left it already.
    fn drop(&mut self)
        ensures
            old(self).lock is Some <==> final(self).lock is Some,
            final(self).lock matches Some(lock) ==> !lock.is_locked(),
        opens_invariants none
        no_unwind
    {
        match &mut self.lock {
            Some(lock) => {
                lock.locked = false;
            },
            None => {},
        }
    }
}

/// A step of one thread on a shared lock.
pub enum LockStep {
    /// The thread, which has seen the flag with this value some time ago, tries
    /// to exchange it.
    Exchange(int, bool),
    /// The thread, which is inside, writes something that the lock protects.
    Write(int),
    /// The thread leaves the lock: its guard is dropped.
    Leave(int),
}

/// A shared lock, the threads that are inside, and who has seen which writes.
///
/// A thread sees its own writes. Leaving the lock publishes all that the thread
/// has seen along with the flag, and a successful exchange of the flag takes
/// over what was published with it. Nothing else is passed on.
pub struct LockState {
    pub locked: bool,
    pub inside: Set<int>,
    /// How many writes were made so far.
    pub writes: nat,
    /// Which writes each thread has seen.
    pub seen: Map<int, Set<nat>>,
    /// Which writes were published with the flag.
    pub published: Set<nat>,
}

/// Any thread may try to take the lock at any time; only a thread inside writes
/// and leaves.
pub open spec fn step_allowed(state: LockState, step: LockStep) -> bool {
    match step {
        LockStep::Exchange(_, _) => true,
        LockStep::Write(thread) => state.inside.contains(thread),
        LockStep::Leave(thread) => state.inside.contains(thread),
    }
}

/// The exchange succeeds: the thread wants to exchange the value that it has
/// seen, and the flag still has it.
pub open spec fn exchange_succeeds(state: LockState, observed: bool) -> bool {
    spec_take_step(observed) is Some && state.locked == observed
}

/// The lock after a step.
pub open spec fn after_step(state: LockState, step: LockStep) -> LockState {
    match step {
        LockStep::Exchange(thread, observed) => if exchange_succeeds(state, observed) {
            LockState {
                locked: spec_take_step(observed)->0,
                inside: state.inside.insert(thread),
                seen: state.seen.insert(thread, state.seen[thread].union(state.published)),
                ..state
            }
        } else {
            state
        },
        LockStep::Write(thread) => LockState {
            writes: state.writes + 1,
            seen: state.seen.insert(thread, state.seen[thread].insert(state.writes)),
            ..state
        },
        LockStep::Leave(thread) => LockState {
            locked: false,
            inside: state.inside.remove(thread),
            published: state.seen[thread],
            ..state
        },
    }
}

/// A lock that nobody has taken, and nothing was written.
pub open spec fn new_lock() -> LockState {
    LockState {
        locked: false,
        inside: Set::empty(),
        writes: 0,
        seen: Map::new(|thread: int| true, |thread: int| Set::<nat>::empty()),
        published: Set::empty(),
    }
}

/// The lock after a number of steps, starting with a new one.
pub open spec fn after_steps(steps: Seq<LockStep>) -> LockState
    decreases steps.len(),
{
    if steps.len() == 0 {
        new_lock()
    } else {
        after_step(after_steps(steps.drop_last()), steps.last())
    }
}

/// Every step was allowed when it was made.
pub open spec fn steps_allowed(steps: Seq<LockStep>) -> bool
    decreases steps.len(),
{
    steps.len() == 0 || (steps_allowed(steps.drop_last()) && step_allowed(
        after_steps(steps.drop_last()),
        steps.last(),
    ))
}

/// However the steps of the threads interleave, at most one thread is inside
/// the lock, and the flag says whether one is.
pub proof fn law_mutual_exclusion(steps: Seq<LockStep>, a: int, b: int)
    requires
        steps_allowed(steps),
    ensures
        after_steps(steps).inside.contains(a) && after_steps(steps).inside.contains(b) ==> a == b,
        after_steps(steps).inside.contains(a) ==> after_steps(steps).locked,
        after_steps(steps).locked ==> exists|t: int| after_steps(steps).inside.contains(t),
    decreases steps.len(),
{
    if steps.len() > 0 {
        let before = after_steps(steps.drop_last());
        match steps.last() {
            LockStep::Exchange(thread, observed) => {
                law_mutual_exclusion(steps.drop_last(), a, b);
                law_mutual_exclusion(steps.drop_last(), a, a);
                law_mutual_exclusion(steps.drop_last(), b, b);
                if exchange_succeeds(before, observed) {
                    assert(after_steps(steps).inside.contains(thread));
                } else if before.locked {
                    let t = choose|t: int| before.inside.contains(t);
                    assert(after_steps(steps).inside.contains(t));
                }
            },
            LockStep::Write(thread) => {
                law_mutual_exclusion(steps.drop_last(), a, b);
                assert(after_steps(steps).inside.contains(thread));
            },
            LockStep::Leave(thread) => {
                law_mutual_exclusion(steps.drop_last(), a, thread);
                law_mutual_exclusion(steps.drop_last(), b, thread);
            },
        }
    }
}

/// A thread that was inside after the first `start` steps and has not left since
/// is inside still, so the lock is held all the time.
pub proof fn law_held_until_left(steps: Seq<LockStep>, start: int, holder: int)
    requires
        steps_allowed(steps),
        0 <= start <= steps.len(),
        after_steps(steps.take(start)).inside.contains(holder),
        forall|i: int| start <= i < steps.len() ==> #[trigger] steps[i] != LockStep::Leave(holder),
    ensures
        after_steps(steps).inside.contains(holder),
        after_steps(steps).locked,
    decreases steps.len(),
{
    if start == steps.len() {
        assert(steps.take(start) =~= steps);
    } else {
        let earlier = steps.drop_last();
        assert(earlier.take(start) =~= steps.take(start));
        assert forall|i: int| start <= i < earlier.len() implies #[trigger] earlier[i]
            != LockStep::Leave(holder) by {
            assert(earlier[i] == steps[i]);
        }
        law_held_until_left(earlier, start, holder);
        assert(steps.last() == steps[steps.len() - 1]);
        law_attempts_fail_while_held(earlier, holder, steps.last());
    }
    law_mutual_exclusion(steps, holder, holder);
}

/// While a thread is inside, nobody else gets in: every attempt to take the lock
/// fails and changes nothing, until the thread itself leaves.
pub proof fn law_attempts_fail_while_held(steps: Seq<LockStep>, holder: int, step: LockStep)
    requires
        steps_allowed(steps),
        after_steps(steps).inside.contains(holder),
        step_allowed(after_steps(steps), step),
        step != LockStep::Leave(holder),
    ensures
        after_step(after_steps(steps), step).locked,
        after_step(after_steps(steps), step).inside == after_steps(steps).inside,
        step is Exchange ==> after_step(after_steps(steps), step) == after_steps(steps),
        spec_take_step(after_steps(steps).locked) is None,
{
    law_mutual_exclusion(steps, holder, holder);
    if let LockStep::Leave(thread) = step {
        law_mutual_exclusion(steps, holder, thread);
    }
}

/// Whoever takes the lock sees all that its former holders wrote inside it.
pub proof fn law_holder_sees_all_writes(steps: Seq<LockStep>, holder: int, write: nat)
    requires
        steps_allowed(steps),
        after_steps(steps).inside.contains(holder),
        write < after_steps(steps).writes,
    ensures
        after_steps(steps).seen[holder].contains(write),
{
    lemma_writes_travel(steps, holder, write);
}

/// Every write was seen by whoever is inside, or else was published.
proof fn lemma_writes_travel(steps: Seq<LockStep>, thread: int, write: nat)
    requires
        steps_allowed(steps),
        write < after_steps(steps).writes,
    ensures
        after_steps(steps).inside.contains(thread) ==> after_steps(steps).seen[thread].contains(
            write,
        ),
        !after_steps(steps).locked ==> after_steps(steps).published.contains(write),
    decreases steps.len(),
{
    if steps.len() > 0 {
        let earlier = steps.drop_last();
        let before = after_steps(earlier);
        match steps.last() {
            LockStep::Exchange(_, _) => {
                lemma_writes_travel(earlier, thread, write);
                law_mutual_exclusion(earlier, thread, thread);
            },
            LockStep::Write(writer) => {
                law_mutual_exclusion(earlier, writer, thread);
                if write < before.writes {
                    lemma_writes_travel(earlier, writer, write);
                    lemma_writes_travel(earlier, thread, write);
                }
            },
            LockStep::Leave(leaver) => {
                law_mutual_exclusion(earlier, thread, leaver);
                lemma_writes_travel(earlier, leaver, write);
            },
        }
    }
}

} // verus!
