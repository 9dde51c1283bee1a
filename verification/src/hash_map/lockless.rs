//! Searches that readers make without a lock while a writer changes the table.

use crate::hash_map::group::{Group, GroupRead};
use crate::hash_map::ConcurrentHashMap;
use vstd::prelude::*;

verus! {

/// What a search that ends with this look answers.
pub open spec fn answer(read: GroupRead) -> Option<usize> {
    match read {
        GroupRead::Found(value) => Some(value),
        _ => None,
    }
}

/// No entry has moved after the `i`-th point of a table's life. A write counts
/// from the moment when its group is stable again.
pub open spec fn table_step_at(history: Seq<ConcurrentHashMap>, i: int) -> bool {
    history[i].keeps_places(history[i + 1])
}

/// A search that a reader makes without a lock while a writer changes the
/// table. The reader looks at the groups on the search path one after the
/// other, at the given times, and goes on as long as a look tells it to.
pub open spec fn is_search(
    history: Seq<ConcurrentHashMap>,
    key: u64,
    times: Seq<int>,
    reads: Seq<GroupRead>,
) -> bool {
    &&& forall|i: int| 0 <= i < history.len() ==> (#[trigger] history[i]).wf()
    &&& forall|i: int| 0 <= i < history.len() - 1 ==> #[trigger] table_step_at(history, i)
    &&& 0 < times.len() == reads.len() <= history[0].group_count()
    &&& forall|k: int| 0 <= k < times.len() ==> 0 <= #[trigger] times[k] < history.len()
    &&& forall|j: int, k: int|
        0 <= j <= k < times.len() ==> #[trigger] times[j] <= #[trigger] times[k]
    &&& forall|k: int|
        0 <= k < times.len() ==> history[times[k]].look_says(key, k, #[trigger] reads[k])
    &&& forall|k: int| 0 <= k < times.len() - 1 ==> #[trigger] reads[k] == GroupRead::Next
    &&& reads.last() != GroupRead::Next || times.len() == history[0].group_count()
}

proof fn lemma_group_count_stays(history: Seq<ConcurrentHashMap>, to: int)
    requires
        0 <= to < history.len(),
        forall|i: int| 0 <= i < history.len() - 1 ==> #[trigger] table_step_at(history, i),
    ensures
        history[to].groups@.len() == history[0].groups@.len(),
    decreases to,
{
    if to > 0 {
        lemma_group_count_stays(history, to - 1);
        assert(table_step_at(history, to - 1));
    }
}

proof fn lemma_place_stays(history: Seq<ConcurrentHashMap>, key: u64, from: int, to: int)
    requires
        0 <= from <= to < history.len(),
        forall|i: int| 0 <= i < history.len() - 1 ==> #[trigger] table_step_at(history, i),
        forall|t: int| from <= t <= to ==> (#[trigger] history[t]).places@.contains_key(key),
    ensures
        history[to].places@[key] == history[from].places@[key],
    decreases to - from,
{
    if from < to {
        lemma_place_stays(history, key, from, to - 1);
        assert(table_step_at(history, to - 1));
        assert(history[to - 1].places@.contains_key(key));
        assert(history[to].places@.contains_key(key));
    }
}

/// A search without a lock answers what a search at some one moment between
/// its first and its last look would have answered, whatever the writer does
/// meanwhile.
pub proof fn law_lockless_search(
    history: Seq<ConcurrentHashMap>,
    key: u64,
    times: Seq<int>,
    reads: Seq<GroupRead>,
) -> (moment: int)
    requires
        is_search(history, key, times, reads),
    ensures
        times[0] <= moment <= times.last(),
        answer(reads.last()) == crate::hash_map::lookup(history[moment]@, key),
{
    let last = times.len() - 1;
    let first_time = times[0];
    let last_time = times[last];
    let count = history[0].groups@.len() as int;
    let fingerprint = crate::hash_map::fingerprint_of(crate::hash_map::hash_of(key));
    let home = history[0].home(key);
    assert(fingerprint < 0x80);
    history[0].lemma_home(key);
    assert(history[last_time].look_says(key, last, reads[last]));
    lemma_group_count_stays(history, last_time);
    if let GroupRead::Found(value) = reads[last] {
        let table = history[last_time];
        let g = crate::hash_map::group_after(home, last, count);
        assert(table.wf());
        let i = choose|i: int|
            0 <= i < 16 && #[trigger] table.groups@[g].ctrl(i) == fingerprint
                && table.groups@[g].keys()[i] == key && table.groups@[g].values()[i] == value;
        assert(table.groups@[g].occupied(i));
        assert(table.places@.contains_key(key) && table.places@[key] == (g, i));
        last_time
    } else if exists|t: int|
        first_time <= t <= last_time && !(#[trigger] history[t]).places@.contains_key(key) {
        let t = choose|t: int|
            first_time <= t <= last_time && !(#[trigger] history[t]).places@.contains_key(key);
        assert(!history[t]@.contains_key(key));
        t
    } else {
        let (g, s) = history[first_time].places@[key];
        lemma_group_count_stays(history, first_time);
        assert(history[first_time].wf());
        assert(history[first_time].places@.contains_key(key));
        assert(history[first_time].placed(key));
        let steps = crate::hash_map::distance(home, g, count);
        assert(0 <= steps < count);
        assert(crate::hash_map::group_after(home, steps, count) == g);
        let k = if steps <= last {
            steps
        } else {
            last
        };
        let t = times[k];
        let table = history[t];
        assert(first_time <= t <= last_time);
        lemma_group_count_stays(history, t);
        lemma_place_stays(history, key, first_time, t);
        assert(table.wf());
        assert(table.places@.contains_key(key));
        assert(table.placed(key));
        assert(table.groups@[g].holds(s, key));
        assert(crate::hash_map::group_ok(table.groups@[g]));
        assert(table.groups@[g].ctrl(s) == fingerprint);
        assert(table.look_says(key, k, reads[k]));
        if steps > last {
            let here = crate::hash_map::group_after(home, last, count);
            assert(table.steps_to(key, here) == last);
            assert(table.steps_to(key, g) == steps);
            assert(!table.groups@[here].has_empty());
        }
        assert(false);
        last_time
    }
}

/// The life of a table that readers and one writer share.
pub struct Trace {
    /// The table before the first and after each finished write.
    pub tables: Seq<ConcurrentHashMap>,
    /// The groups before the first and after each single step of the writer.
    pub groups: Seq<Seq<Group>>,
    /// Which table is the last finished one, at each of these moments.
    pub finished: Seq<int>,
}

/// The groups hold what the groups of the table hold.
pub open spec fn groups_agree(groups: Seq<Group>, table: ConcurrentHashMap) -> bool {
    &&& groups.len() == table.group_count()
    &&& forall|g: int|
        0 <= g < groups.len() ==> (#[trigger] groups[g]).same_slots(table.spec_groups()[g])
}

/// One step of the writer in one group.
pub open spec fn changes_group(before: Seq<Group>, after: Seq<Group>, g: int) -> bool {
    &&& 0 <= g < before.len() == after.len()
    &&& forall|i: int| 0 <= i < before.len() && i != g ==> #[trigger] after[i] == before[i]
    &&& crate::hash_map::group::group_step(before[g], after[g])
}

/// The step that the writer makes after moment `m`. A write is finished with
/// the step that makes its group stable again; the groups are those of the next
/// table then.
pub open spec fn trace_step_at(trace: Trace, m: int) -> bool {
    exists|g: int| #[trigger]
        changes_group(trace.groups[m], trace.groups[m + 1], g) && (if !trace.groups[m][g].stable()
            && trace.groups[m + 1][g].stable() {
            trace.finished[m + 1] == trace.finished[m] + 1 && groups_agree(
                trace.groups[m + 1],
                trace.tables[trace.finished[m + 1]],
            )
        } else {
            trace.finished[m + 1] == trace.finished[m]
        })
}

/// The writer makes one write after the other, each inside one group.
pub open spec fn trace_ok(trace: Trace) -> bool {
    &&& forall|i: int| 0 <= i < trace.tables.len() ==> (#[trigger] trace.tables[i]).wf()
    &&& forall|i: int|
        0 <= i < trace.tables.len() - 1 ==> #[trigger] table_step_at(trace.tables, i)
    &&& 0 < trace.groups.len() == trace.finished.len()
    &&& forall|m: int|
        0 <= m < trace.finished.len() ==> 0 <= #[trigger] trace.finished[m] < trace.tables.len()
    &&& groups_agree(trace.groups[0], trace.tables[trace.finished[0]])
    &&& forall|m: int| 0 <= m < trace.groups.len() - 1 ==> #[trigger] trace_step_at(trace, m)
}

/// The life of one group.
pub open spec fn group_history(trace: Trace, g: int) -> Seq<Group> {
    Seq::new(trace.groups.len(), |m: int| trace.groups[m][g])
}

/// The low control word at moment `m`.
pub open spec fn low_was(history: Seq<Group>, m: int, part: u64) -> bool {
    history[m].low() == part
}

/// The high control word at moment `m`.
pub open spec fn high_was(history: Seq<Group>, m: int, part: u64) -> bool {
    history[m].high() == part
}

/// The key in slot `i` at moment `m`.
pub open spec fn key_was(history: Seq<Group>, m: int, i: int, part: u64) -> bool {
    history[m].keys()[i] == part
}

/// The value in slot `i` at moment `m`.
pub open spec fn value_was(history: Seq<Group>, m: int, i: int, part: usize) -> bool {
    history[m].values()[i] == part
}

/// What a reader has put together out of a group between two moments: each
/// control word, key and value was there at some moment in between, but not all
/// of them at the same one.
pub open spec fn pieced_together(history: Seq<Group>, from: int, to: int, seen: Group) -> bool {
    &&& seen.keys().len() == history[from].keys().len()
    &&& seen.values().len() == history[from].values().len()
    &&& exists|m: int| from <= m <= to && #[trigger] low_was(history, m, seen.low())
    &&& exists|m: int| from <= m <= to && #[trigger] high_was(history, m, seen.high())
    &&& forall|i: int|
        0 <= i < seen.keys().len() ==> exists|m: int|
            from <= m <= to && #[trigger] key_was(history, m, i, #[trigger] seen.keys()[i])
    &&& forall|i: int|
        0 <= i < seen.values().len() ==> exists|m: int|
            from <= m <= to && #[trigger] value_was(history, m, i, #[trigger] seen.values()[i])
}

/// One look of a reader at a group: the version is even at the first moment and
/// the same at the last.
pub struct Look {
    pub from: int,
    pub to: int,
    /// What the reader has put together in between.
    pub seen: Group,
    /// What it concludes.
    pub read: GroupRead,
}

/// The group that a search for a key visits after `step` others.
pub open spec fn path_group(key: u64, step: int, count: int) -> int {
    crate::hash_map::group_after(
        crate::hash_map::home_of(crate::hash_map::hash_of(key), count),
        step,
        count,
    )
}

/// The reader has accepted a look at the `step`-th group on its path.
pub open spec fn look_accepted(trace: Trace, key: u64, step: int, look: Look) -> bool {
    let g = path_group(key, step, trace.groups[0].len() as int);
    let history = group_history(trace, g);
    &&& 0 <= look.from <= look.to < trace.groups.len()
    &&& look.to - look.from < 0x1_0000_0000_0000_0000
    &&& history[look.from].stable()
    &&& history[look.from].spec_version() == history[look.to].spec_version()
    &&& pieced_together(history, look.from, look.to, look.seen)
    &&& look.seen.read_says(
        key,
        crate::hash_map::fingerprint_of(crate::hash_map::hash_of(key)),
        look.read,
    )
}

/// The number of groups does not change, and every stable group is that of the
/// last finished table.
proof fn lemma_stable_groups(trace: Trace, m: int)
    requires
        trace_ok(trace),
        0 <= m < trace.groups.len(),
    ensures
        trace.groups[m].len() == trace.groups[0].len(),
        trace.groups[m].len() == trace.tables[trace.finished[m]].group_count(),
        forall|g: int|
            0 <= g < trace.groups[m].len() && (#[trigger] trace.groups[m][g]).stable()
                ==> trace.groups[m][g].same_slots(
                trace.tables[trace.finished[m]].spec_groups()[g],
            ),
    decreases m,
{
    if m > 0 {
        lemma_stable_groups(trace, m - 1);
        assert(trace_step_at(trace, m - 1));
        let before = trace.groups[m - 1];
        let after = trace.groups[m - 1 + 1];
        let g = choose|g: int| #[trigger]
            changes_group(before, after, g) && (if !before[g].stable() && after[g].stable() {
                trace.finished[m - 1 + 1] == trace.finished[m - 1] + 1 && groups_agree(
                    after,
                    trace.tables[trace.finished[m - 1 + 1]],
                )
            } else {
                trace.finished[m - 1 + 1] == trace.finished[m - 1]
            });
        assert forall|i: int|
            0 <= i < after.len() && (#[trigger] after[i]).stable() implies after[i].same_slots(
            trace.tables[trace.finished[m]].spec_groups()[i],
        ) by {
            if i != g {
                assert(after[i] == before[i]);
            }
        }
    }
}

/// A group goes through single steps.
proof fn lemma_group_history(trace: Trace, g: int)
    requires
        trace_ok(trace),
        0 <= g < trace.groups[0].len(),
    ensures
        forall|m: int|
            0 <= m < trace.groups.len() - 1 ==> #[trigger] crate::hash_map::group::step_at(
                group_history(trace, g),
                m,
            ),
{
    assert forall|m: int| 0 <= m < trace.groups.len() - 1 implies #[trigger]
        crate::hash_map::group::step_at(group_history(trace, g), m) by {
        lemma_stable_groups(trace, m);
        assert(trace_step_at(trace, m));
    }
}

proof fn lemma_finished_grows(trace: Trace, from: int, to: int)
    requires
        trace_ok(trace),
        0 <= from <= to < trace.groups.len(),
    ensures
        trace.finished[from] <= trace.finished[to],
    decreases to - from,
{
    if from < to {
        lemma_finished_grows(trace, from, to - 1);
        assert(trace_step_at(trace, to - 1));
    }
}

/// What a reader has put together while the version of a group stayed the same,
/// and even, is the group as it was at one moment.
pub proof fn law_pieces_fit_together(history: Seq<Group>, from: int, to: int, seen: Group)
    requires
        0 <= from <= to < history.len(),
        to - from < 0x1_0000_0000_0000_0000,
        forall|i: int|
            0 <= i < history.len() - 1 ==> #[trigger] crate::hash_map::group::step_at(history, i),
        history[from].stable(),
        history[from].spec_version() == history[to].spec_version(),
        pieced_together(history, from, to, seen),
    ensures
        seen.same_slots(history[from]),
{
    assert forall|m: int| from <= m <= to implies (#[trigger] history[m]).same_slots(
        history[from],
    ) by {
        crate::hash_map::group::law_whole_snapshot(history, from, m, to);
    }
    let a = choose|m: int| from <= m <= to && #[trigger] low_was(history, m, seen.low());
    assert(history[a].same_slots(history[from]));
    let b = choose|m: int| from <= m <= to && #[trigger] high_was(history, m, seen.high());
    assert(history[b].same_slots(history[from]));
    assert forall|i: int| 0 <= i < seen.keys().len() implies #[trigger] seen.keys()[i]
        == history[from].keys()[i] by {
        let m = choose|m: int|
            from <= m <= to && #[trigger] key_was(history, m, i, seen.keys()[i]);
        assert(history[m].same_slots(history[from]));
    }
    assert(seen.keys() =~= history[from].keys());
    assert forall|i: int| 0 <= i < seen.values().len() implies #[trigger] seen.values()[i]
        == history[from].values()[i] by {
        let m = choose|m: int|
            from <= m <= to && #[trigger] value_was(history, m, i, seen.values()[i]);
        assert(history[m].same_slots(history[from]));
    }
    assert(seen.values() =~= history[from].values());
}

/// A look says the same of two groups that hold the same.
proof fn lemma_read_says(a: Group, b: Group, key: u64, fingerprint: u8, read: GroupRead)
    requires
        a.same_slots(b),
        a.read_says(key, fingerprint, read),
    ensures
        b.read_says(key, fingerprint, read),
{
    assert forall|i: int| #[trigger] a.ctrl(i) == b.ctrl(i) by {}
    assert forall|i: int| #[trigger] b.ctrl(i) == a.ctrl(i) by {}
    assert(a.has_empty() == b.has_empty()) by {
        if a.has_empty() {
            let i = choose|i: int|
                0 <= i < 16 && #[trigger] a.ctrl(i) == crate::hash_map::group::EMPTY;
            assert(b.ctrl(i) == crate::hash_map::group::EMPTY);
        }
        if b.has_empty() {
            let i = choose|i: int|
                0 <= i < 16 && #[trigger] b.ctrl(i) == crate::hash_map::group::EMPTY;
            assert(a.ctrl(i) == crate::hash_map::group::EMPTY);
        }
    }
    if let GroupRead::Found(value) = read {
        let i = choose|i: int|
            0 <= i < 16 && #[trigger] a.ctrl(i) == fingerprint && a.keys()[i] == key
                && a.values()[i] == value && forall|j: int|
                0 <= j < i && #[trigger] a.ctrl(j) == fingerprint ==> a.keys()[j] != key;
        assert(b.ctrl(i) == fingerprint);
        assert forall|j: int| 0 <= j < i && #[trigger] b.ctrl(j) == fingerprint implies b.keys()[j]
            != key by {
            assert(a.ctrl(j) == fingerprint);
        }
    }
}

/// A look that a reader has accepted is a look at a whole table: the one that
/// was finished last when the look began.
pub proof fn law_accepted_look_is_whole(trace: Trace, key: u64, step: int, look: Look)
    requires
        trace_ok(trace),
        0 <= step < trace.groups[0].len(),
        look_accepted(trace, key, step, look),
    ensures
        trace.tables[trace.finished[look.from]].look_says(key, step, look.read),
{
    let table = trace.tables[trace.finished[look.from]];
    let count = trace.groups[0].len() as int;
    let g = path_group(key, step, count);
    let history = group_history(trace, g);
    lemma_stable_groups(trace, look.from);
    assert(table.wf());
    table.lemma_home(key);
    assert(0 <= g < count);
    lemma_group_history(trace, g);
    law_pieces_fit_together(history, look.from, look.to, look.seen);
    assert(trace.groups[look.from][g].stable());
    lemma_read_says(
        look.seen,
        table.spec_groups()[g],
        key,
        crate::hash_map::fingerprint_of(crate::hash_map::hash_of(key)),
        look.read,
    );
}

/// The looks of a whole search: the reader goes on to the next group as long as
/// a look tells it to.
pub open spec fn looks_accepted(trace: Trace, key: u64, looks: Seq<Look>) -> bool {
    &&& 0 < looks.len() <= trace.groups[0].len()
    &&& forall|k: int| 0 <= k < looks.len() ==> look_accepted(trace, key, k, #[trigger] looks[k])
    &&& forall|j: int, k: int|
        0 <= j <= k < looks.len() ==> (#[trigger] looks[j]).from <= (#[trigger] looks[k]).from
    &&& forall|k: int|
        0 <= k < looks.len() - 1 ==> (#[trigger] looks[k]).read == GroupRead::Next
    &&& looks.last().read != GroupRead::Next || looks.len() == trace.groups[0].len()
}

/// A reader that takes no lock, and rejects every look during which the version
/// of a group was odd or has changed, gets the answer that the table had at
/// some moment between its first and its last look.
pub proof fn law_lockless_get(trace: Trace, key: u64, looks: Seq<Look>) -> (moment: int)
    requires
        trace_ok(trace),
        looks_accepted(trace, key, looks),
    ensures
        trace.finished[looks[0].from] <= moment <= trace.finished[looks.last().from],
        answer(looks.last().read) == crate::hash_map::lookup(trace.tables[moment]@, key),
{
    let times = Seq::new(looks.len(), |k: int| trace.finished[looks[k].from]);
    let reads = Seq::new(looks.len(), |k: int| looks[k].read);
    lemma_stable_groups(trace, 0);
    lemma_group_count_stays(trace.tables, trace.finished[0]);
    assert forall|k: int| 0 <= k < times.len() implies trace.tables[times[k]].look_says(
        key,
        k,
        #[trigger] reads[k],
    ) by {
        assert(look_accepted(trace, key, k, looks[k]));
        law_accepted_look_is_whole(trace, key, k, looks[k]);
    }
    assert forall|k: int| 0 <= k < times.len() implies 0 <= #[trigger] times[k]
        < trace.tables.len() by {
        assert(look_accepted(trace, key, k, looks[k]));
    }
    assert forall|j: int, k: int| 0 <= j <= k < times.len() implies #[trigger] times[j]
        <= #[trigger] times[k] by {
        assert(look_accepted(trace, key, j, looks[j]));
        assert(look_accepted(trace, key, k, looks[k]));
        lemma_finished_grows(trace, looks[j].from, looks[k].from);
    }
    assert(reads.last() == looks.last().read);
    law_lockless_search(trace.tables, key, times, reads)
}

} // verus!
