//! The LRU-K replacement policy with K = 2.
//!
//! A frame that was used only once since it was last reset is colder than any
//! frame that was used at least twice. Among the former the one whose use lies
//! furthest back goes first, among the latter the one whose last use but one
//! lies furthest back.

use vstd::prelude::*;

verus! {

/// What the policy remembers about one frame. Times count from one; a frame
/// that was not used since its last reset has the time zero.
#[derive(Clone, Copy, Debug, PartialEq, Eq, Structural)]
pub struct Entry {
    /// When the frame was used last.
    pub first_latest_ts: u64,
    /// When it was used the time before.
    pub second_latest_ts: Option<u64>,
    /// Whether the frame may be evicted.
    pub evictable: bool,
}

impl Entry {
    /// A frame without history.
    pub open spec fn unused() -> Entry {
        Entry { first_latest_ts: 0, second_latest_ts: None, evictable: false }
    }

    /// The frame may be evicted and has been used.
    pub open spec fn candidate(self) -> bool {
        self.evictable && self.first_latest_ts != 0
    }

    /// A candidate that was used only once.
    pub open spec fn used_once(self) -> bool {
        self.candidate() && self.second_latest_ts is None
    }

    /// A candidate that was used at least twice.
    pub open spec fn used_twice(self) -> bool {
        self.candidate() && self.second_latest_ts is Some
    }

    /// The entry after a use at time `now`.
    pub open spec fn used_at(self, now: u64) -> Entry {
        Entry {
            first_latest_ts: now,
            second_latest_ts: if self.first_latest_ts != 0 {
                Some(self.first_latest_ts)
            } else {
                self.second_latest_ts
            },
            evictable: self.evictable,
        }
    }

    fn default() -> (entry: Entry)
        ensures
            entry == Entry::unused(),
    {
        Entry { first_latest_ts: 0, second_latest_ts: None, evictable: false }
    }
}

/// Some frame that was used only once may be evicted.
pub open spec fn any_used_once(entries: Seq<Entry>) -> bool {
    exists|i: int| 0 <= i < entries.len() && (#[trigger] entries[i]).used_once()
}

/// `frame` is the frame that the policy gives up first.
pub open spec fn is_victim(entries: Seq<Entry>, frame: int) -> bool {
    &&& 0 <= frame < entries.len()
    &&& if any_used_once(entries) {
        &&& entries[frame].used_once()
        &&& forall|i: int|
            0 <= i < entries.len() && (#[trigger] entries[i]).used_once() && i != frame
                ==> entries[frame].first_latest_ts < entries[i].first_latest_ts
    } else {
        &&& entries[frame].used_twice()
        &&& forall|i: int|
            0 <= i < entries.len() && (#[trigger] entries[i]).used_twice() && i != frame
                ==> entries[frame].second_latest_ts->0 < entries[i].second_latest_ts->0
    }
}

/// A use becomes the last one, and the last one becomes the last but one,
/// whether or not the frame may be evicted. Only a frame without a last use
/// keeps what it had.
pub proof fn law_use_shifts_the_times(entry: Entry, now: u64)
    ensures
        entry.used_at(now).first_latest_ts == now,
        entry.first_latest_ts != 0 ==> entry.used_at(now).second_latest_ts == Some(
            entry.first_latest_ts,
        ),
        entry.first_latest_ts == 0 ==> entry.used_at(now).second_latest_ts
            == entry.second_latest_ts,
        entry.used_at(now).evictable == entry.evictable,
{
}

/// After two uses the times of a frame are those of the two, whatever it had
/// before, and however its eviction was allowed or forbidden in between.
pub proof fn law_last_two_uses_are_kept(entry: Entry, earlier: u64, later: u64, evictable: bool)
    requires
        earlier != 0,
        later != 0,
    ensures
        ({
            let once = entry.used_at(earlier);
            let again = (Entry { evictable, ..once }).used_at(later);
            &&& again.first_latest_ts == later
            &&& again.second_latest_ts == Some(earlier)
            &&& again.evictable == evictable
            &&& !again.used_once()
            &&& again.used_twice() == evictable
        }),
{
}

/// One use after a reset makes a frame used once.
pub proof fn law_first_use_counts_once(now: u64, evictable: bool)
    requires
        now != 0,
    ensures
        Entry::unused().first_latest_ts == 0,
        Entry::unused().second_latest_ts is None,
        !Entry::unused().evictable,
        ({
            let once = Entry { evictable, ..Entry::unused().used_at(now) };
            &&& once.first_latest_ts == now
            &&& once.second_latest_ts is None
            &&& once.used_once() == evictable
            &&& !once.used_twice()
        }),
{
}

/// Which frames can be evicted, and which of them were used once or twice.
pub proof fn law_candidates(entry: Entry)
    ensures
        entry.candidate() <==> entry.evictable && entry.first_latest_ts != 0,
        entry.used_once() <==> entry.evictable && entry.first_latest_ts != 0
            && entry.second_latest_ts is None,
        entry.used_twice() <==> entry.evictable && entry.first_latest_ts != 0
            && entry.second_latest_ts is Some,
{
}

/// What makes a frame the victim: it may be evicted and was used; if it was used
/// once, every other such frame was used once and later, or twice; if it was
/// used twice, every other such frame was used twice, and its last use but one
/// came later.
pub proof fn law_victim(entries: Seq<Entry>, v: int)
    ensures
        is_victim(entries, v) <==> {
            &&& 0 <= v < entries.len()
            &&& entries[v].evictable
            &&& entries[v].first_latest_ts != 0
            &&& forall|i: int|
                0 <= i < entries.len() && i != v && (#[trigger] entries[i]).evictable
                    && entries[i].first_latest_ts != 0 ==> match (
                    entries[v].second_latest_ts,
                    entries[i].second_latest_ts,
                ) {
                    (None, None) => entries[v].first_latest_ts < entries[i].first_latest_ts,
                    (None, Some(_)) => true,
                    (Some(_), None) => false,
                    (Some(mine), Some(other)) => mine < other,
                }
        },
{
    if is_victim(entries, v) {
        assert(entries[v].candidate());
        assert forall|i: int|
            0 <= i < entries.len() && i != v && (#[trigger] entries[i]).evictable
                && entries[i].first_latest_ts != 0 implies match (
            entries[v].second_latest_ts,
            entries[i].second_latest_ts,
        ) {
            (None, None) => entries[v].first_latest_ts < entries[i].first_latest_ts,
            (None, Some(_)) => true,
            (Some(_), None) => false,
            (Some(mine), Some(other)) => mine < other,
        } by {
            assert(entries[i].used_once() || entries[i].used_twice());
        }
    }
    if 0 <= v < entries.len() && entries[v].evictable && entries[v].first_latest_ts != 0 && (forall|
        i: int,
    |
        0 <= i < entries.len() && i != v && (#[trigger] entries[i]).evictable
            && entries[i].first_latest_ts != 0 ==> match (
            entries[v].second_latest_ts,
            entries[i].second_latest_ts,
        ) {
            (None, None) => entries[v].first_latest_ts < entries[i].first_latest_ts,
            (None, Some(_)) => true,
            (Some(_), None) => false,
            (Some(mine), Some(other)) => mine < other,
        }) {
        if any_used_once(entries) {
            let i = choose|i: int| 0 <= i < entries.len() && (#[trigger] entries[i]).used_once();
            assert(entries[i].evictable);
        }
        assert(entries[v].used_once() ==> any_used_once(entries));
        assert(is_victim(entries, v));
    }
}

/// The policy never wavers between two frames.
pub proof fn law_one_victim(entries: Seq<Entry>, f: int, g: int)
    requires
        is_victim(entries, f),
        is_victim(entries, g),
    ensures
        f == g,
{
    assert(entries[f].used_once() || entries[f].used_twice());
    assert(entries[g].used_once() || entries[g].used_twice());
}

/// A frame that was used only once goes before every frame that was used
/// twice, however long ago those uses were.
pub proof fn law_once_before_twice(entries: Seq<Entry>, once: int, victim: int)
    requires
        0 <= once < entries.len(),
        entries[once].used_once(),
        is_victim(entries, victim),
    ensures
        entries[victim].used_once(),
        entries[victim].first_latest_ts <= entries[once].first_latest_ts,
{
    assert(any_used_once(entries));
}

/// A frame that was evicted is not evicted again before it has been used and
/// released again.
pub proof fn law_evicted_frame_rests(entries: Seq<Entry>, victim: int, next: int)
    requires
        is_victim(entries, victim),
        is_victim(entries.update(victim, Entry::unused()), next),
    ensures
        next != victim,
{
    let after = entries.update(victim, Entry::unused());
    assert(after[next].used_once() || after[next].used_twice());
}

/// A frame that must not be evicted is not evicted.
pub proof fn law_kept_frame_stays(entries: Seq<Entry>, kept: int, victim: int)
    requires
        0 <= kept < entries.len(),
        !entries[kept].evictable,
        is_victim(entries, victim),
    ensures
        victim != kept,
{
    assert(entries[victim].used_once() || entries[victim].used_twice());
}

/// Chooses the frame to evict among the frames of a pool.
pub struct LruKReplacer {
    entries: Vec<Entry>,
    timestamp: u64,
}

impl LruKReplacer {
    /// What the policy remembers about each frame.
    pub closed spec fn entries(self) -> Seq<Entry> {
        self.entries@
    }

    /// The time of the last use of any frame.
    pub closed spec fn timestamp(self) -> u64 {
        self.timestamp
    }

    /// No use lies in the future, the last use but one lies before the last,
    /// and no two uses share a time.
    pub closed spec fn wf(self) -> bool {
        &&& forall|i: int|
            0 <= i < self.entries@.len() ==> (#[trigger] self.entries@[i]).first_latest_ts
                <= self.timestamp
        &&& forall|i: int|
            0 <= i < self.entries@.len() && (#[trigger] self.entries@[i]).second_latest_ts is Some
                ==> 0 < self.entries@[i].second_latest_ts->0 < self.entries@[i].first_latest_ts
        &&& forall|i: int, j: int|
            0 <= i < self.entries@.len() && 0 <= j < self.entries@.len() && i != j && (
            #[trigger] self.entries@[i]).first_latest_ts != 0
                ==> self.entries@[i].first_latest_ts != (
            #[trigger] self.entries@[j]).first_latest_ts
        &&& forall|i: int, j: int|
            0 <= i < self.entries@.len() && 0 <= j < self.entries@.len() && i != j && (
            #[trigger] self.entries@[i]).second_latest_ts is Some
                ==> self.entries@[i].second_latest_ts->0 != self.entries@[j].first_latest_ts
                && self.entries@[i].second_latest_ts != (
            #[trigger] self.entries@[j]).second_latest_ts
    }

    /// What the times of a policy satisfy: none lies in the future, the last use
    /// but one of a frame lies before its last, and no two uses share a time.
    pub proof fn law_times(self, i: int, j: int)
        requires
            self.wf(),
            0 <= i < self.entries().len(),
            0 <= j < self.entries().len(),
        ensures
            self.entries()[i].first_latest_ts <= self.timestamp(),
            self.entries()[i].second_latest_ts matches Some(ts) ==> 0 < ts
                < self.entries()[i].first_latest_ts,
            i != j && self.entries()[i].first_latest_ts != 0 ==> self.entries()[i].first_latest_ts
                != self.entries()[j].first_latest_ts,
            i != j && self.entries()[i].second_latest_ts is Some
                ==> self.entries()[i].second_latest_ts->0 != self.entries()[j].first_latest_ts
                && self.entries()[i].second_latest_ts != self.entries()[j].second_latest_ts,
    {
    }

    /// A policy for `frame_count` frames, none of them used.
    pub fn new(frame_count: usize) -> (replacer: Self)
        ensures
            replacer.wf(),
            replacer.entries() == Seq::new(frame_count as nat, |i: int| Entry::unused()),
            replacer.timestamp() == 0,
    {
        let mut entries: Vec<Entry> = Vec::new();
        while entries.len() < frame_count
            invariant
                entries@.len() <= frame_count,
                entries@ == Seq::new(entries@.len(), |i: int| Entry::unused()),
            decreases frame_count - entries@.len(),
        {
            entries.push(Entry::default());
            assert(entries@ =~= Seq::new(entries@.len(), |i: int| Entry::unused()));
        }
        Self { entries, timestamp: 0 }
    }

    /// Notes a use of a frame.
    pub fn record_access(&mut self, frame_id: usize)
        requires
            old(self).wf(),
            frame_id < old(self).entries().len(),
            old(self).timestamp() < u64::MAX,
        ensures
            final(self).wf(),
            final(self).timestamp() == old(self).timestamp() + 1,
            final(self).entries() == old(self).entries().update(
                frame_id as int,
                old(self).entries()[frame_id as int].used_at(final(self).timestamp()),
            ),
    {
        let mut entry: Entry = self.entries[frame_id];
        if entry.first_latest_ts != 0 {
            entry.second_latest_ts = Some(entry.first_latest_ts);
        }
        self.timestamp = self.timestamp + 1;
        entry.first_latest_ts = self.timestamp;
        self.entries[frame_id] = entry;
    }

    /// Allows or forbids the eviction of a frame.
    pub fn set_evictable(&mut self, frame_id: usize, evictable: bool)
        requires
            old(self).wf(),
            frame_id < old(self).entries().len(),
        ensures
            final(self).wf(),
            final(self).timestamp() == old(self).timestamp(),
            final(self).entries() == old(self).entries().update(
                frame_id as int,
                Entry { evictable, ..old(self).entries()[frame_id as int] },
            ),
    {
        let mut entry: Entry = self.entries[frame_id];
        entry.evictable = evictable;
        self.entries[frame_id] = entry;
    }

    /// Gives up the coldest frame that may be evicted and forgets its history.
    pub fn evict(&mut self) -> (victim: Option<usize>)
        requires
            old(self).wf(),
        ensures
            final(self).wf(),
            final(self).timestamp() == old(self).timestamp(),
            victim is None <==> forall|i: int|
                0 <= i < old(self).entries().len()
                    ==> !(#[trigger] old(self).entries()[i]).candidate(),
            victim is None ==> *final(self) == *old(self),
            victim matches Some(frame) ==> {
                &&& is_victim(old(self).entries(), frame as int)
                &&& final(self).entries() == old(self).entries().update(
                    frame as int,
                    Entry::unused(),
                )
            },
    {
        let mut coldest_once: Option<(usize, u64)> = None;
        let mut coldest_twice: Option<(usize, u64)> = None;
        let mut frame_id: usize = 0;
        while frame_id < self.entries.len()
            invariant
                self.wf(),
                *self == *old(self),
                frame_id <= self.entries@.len(),
                coldest_once is None ==> forall|i: int|
                    0 <= i < frame_id ==> !(#[trigger] self.entries@[i]).used_once(),
                coldest_once matches Some(c) ==> c.0 < frame_id
                    && self.entries@[c.0 as int].used_once()
                    && self.entries@[c.0 as int].first_latest_ts == c.1 && forall|i: int|
                    0 <= i < frame_id && (#[trigger] self.entries@[i]).used_once() && i != c.0
                        ==> c.1 < self.entries@[i].first_latest_ts,
                coldest_twice is None ==> forall|i: int|
                    0 <= i < frame_id ==> !(#[trigger] self.entries@[i]).used_twice(),
                coldest_twice matches Some(c) ==> c.0 < frame_id
                    && self.entries@[c.0 as int].used_twice()
                    && self.entries@[c.0 as int].second_latest_ts == Some(c.1) && forall|i: int|
                    0 <= i < frame_id && (#[trigger] self.entries@[i]).used_twice() && i != c.0
                        ==> c.1 < self.entries@[i].second_latest_ts->0,
            decreases self.entries@.len() - frame_id,
        {
            let entry: Entry = self.entries[frame_id];
            if entry.evictable && entry.first_latest_ts != 0 {
                match entry.second_latest_ts {
                    None => {
                        let colder: bool = match coldest_once {
                            None => true,
                            Some((_, ts)) => entry.first_latest_ts < ts,
                        };
                        if colder {
                            coldest_once = Some((frame_id, entry.first_latest_ts));
                        }
                    },
                    Some(second_ts) => {
                        let colder: bool = match coldest_twice {
                            None => true,
                            Some((_, ts)) => second_ts < ts,
                        };
                        if colder {
                            coldest_twice = Some((frame_id, second_ts));
                        }
                    },
                }
            }
            frame_id = frame_id + 1;
        }
        let coldest: Option<(usize, u64)> = match coldest_once {
            Some(once) => Some(once),
            None => coldest_twice,
        };
        match coldest {
            None => {
                assert forall|i: int| 0 <= i < self.entries@.len() implies !(
                #[trigger] self.entries()[i]).candidate() by {
                    assert(!self.entries@[i].used_once());
                    assert(!self.entries@[i].used_twice());
                }
                None
            },
            Some((frame, _)) => {
                assert(is_victim(self.entries(), frame as int));
                assert(self.entries()[frame as int].candidate());
                self.reset(frame);
                Some(frame)
            },
        }
    }

    /// Forgets the history of a frame.
    pub fn reset(&mut self, frame_id: usize)
        requires
            old(self).wf(),
            frame_id < old(self).entries().len(),
        ensures
            final(self).wf(),
            final(self).timestamp() == old(self).timestamp(),
            final(self).entries() == old(self).entries().update(frame_id as int, Entry::unused()),
    {
        self.entries[frame_id] = Entry::default();
    }
}

} // verus!
