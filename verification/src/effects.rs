//! What events change, and what they leave alone.

use vstd::prelude::*;

use crate::accounting;
use crate::event;
use crate::event::{Action, EventError, EventView, FieldsView};
use crate::laws;
use crate::model;
use crate::model::{WorldView, ROOT_CGROUP};
use crate::state;
use crate::state::{Both, SchedulerView};
use crate::tick;

verus! {

/// The task that an event is about.
pub open spec fn task_of(e: EventView) -> Option<Seq<char>> {
    match e {
        EventView::TaskCreate { id, .. } => Some(id),
        EventView::TaskExit { id } => Some(id),
        EventView::TaskBlock { id } => Some(id),
        EventView::TaskUnblock { id } => Some(id),
        EventView::TaskYield { id } => Some(id),
        EventView::TaskSetNice { id, .. } => Some(id),
        EventView::TaskSetAffinity { id, .. } => Some(id),
        EventView::TaskMoveCgroup { id, .. } => Some(id),
        EventView::CpuBurst { id } => Some(id),
        _ => None,
    }
}

/// The control group that an event is about.
pub open spec fn group_of(e: EventView) -> Option<Seq<char>> {
    match e {
        EventView::CgroupCreate { id, .. } => Some(id),
        EventView::CgroupModify { id, .. } => Some(id),
        EventView::CgroupDelete { id } => Some(id),
        _ => None,
    }
}

/// `a` and `b` hold the same, or nothing, under `k`.
pub open spec fn same_at<V>(a: Map<Seq<char>, V>, b: Map<Seq<char>, V>, k: Seq<char>) -> bool {
    &&& a.contains_key(k) <==> b.contains_key(k)
    &&& a.contains_key(k) ==> a[k] == b[k]
}

/// An event leaves alone what ran before, the number of CPUs and the quantum, every group that it
/// is not about, and every task that it is not about, unless it deletes the group of that task.
pub proof fn events_touch_their_subject(b: Both, e: EventView)
    ensures
        ({
            let after = tick::perform(b, e);
            &&& after.world.last_schedule == b.world.last_schedule
            &&& after.sched.cpus == b.sched.cpus
            &&& after.sched.quanta == b.sched.quanta
            &&& forall|c: Seq<char>|
                group_of(e) != Some(c) ==> #[trigger] same_at(
                    b.world.cgroups,
                    after.world.cgroups,
                    c,
                )
            &&& forall|t: Seq<char>|
                task_of(e) != Some(t) && !(e is CgroupDelete && b.world.tasks.contains_key(t)
                    && b.world.tasks[t].cgroup == group_of(e)) ==> #[trigger] same_at(
                    b.world.tasks,
                    after.world.tasks,
                    t,
                )
        }),
{
}

/// Only an event that creates a task adds one, and none takes one away.
pub proof fn only_creation_adds_tasks(b: Both, e: EventView)
    requires
        !(e is TaskCreate),
    ensures
        tick::perform(b, e).world.tasks.dom() == b.world.tasks.dom(),
{
    assert(tick::perform(b, e).world.tasks.dom() =~= b.world.tasks.dom());
}

/// A task that cannot run becomes runnable only by an event that creates or unblocks it.
pub proof fn only_creation_and_unblocking_start_tasks(b: Both, e: EventView, t: Seq<char>)
    requires
        !tick::runnable(b.world, t),
        e matches EventView::TaskCreate { id, .. } ==> id != t,
        e matches EventView::TaskUnblock { id } ==> id != t,
    ensures
        !tick::runnable(tick::perform(b, e).world, t),
{
}

/// A tick starts and stops no task by itself.
pub proof fn dispatch_keeps_states(s: SchedulerView, w: WorldView, t: Seq<char>)
    ensures
        tick::runnable(state::dispatch(s, w).world, t) <==> tick::runnable(w, t),
{
    if w.tasks.contains_key(t) {
        accounting::running_tasks_are_charged(s, w, t);
        let seats = state::seats_of(state::dispatch(s, w).schedule);
        if seats.contains(Some(t)) {
            assert(seats[seats.index_of(Some(t))] == Some(t));
            laws::schedule_covers_cpus(s, w);
        }
    } else {
        accounting::tasks_stay(s, w);
    }
}

/// A task that is unblocked can run, and its virtual runtime does not fall. If it is not in burst
/// mode, it has at least the virtual runtime of the runnable task with the least.
pub proof fn unblocked_task_is_not_ahead(b: Both, id: Seq<char>)
    requires
        b.world.tasks.contains_key(id),
    ensures
        ({
            let after = tick::perform(b, EventView::TaskUnblock { id }).world;
            &&& tick::runnable(after, id)
            &&& after.tasks[id].vruntime >= b.world.tasks[id].vruntime
            &&& !b.world.tasks[id].burst_mode && (exists|u: Seq<char>| #[trigger]
                tick::runnable(b.world, u)) ==> exists|u: Seq<char>| #[trigger]
                tick::runnable(b.world, u) && b.world.tasks[u].vruntime
                    <= after.tasks[id].vruntime
        }),
{
    if exists|u: Seq<char>| #[trigger] tick::runnable(b.world, u) {
        tick::min_vruntime_exists(b.world);
    }
}

/// A task that yields gets a virtual runtime that no runnable task exceeds, unless it is in burst
/// mode.
pub proof fn yielding_task_is_last(b: Both, id: Seq<char>, u: Seq<char>)
    requires
        b.world.tasks.contains_key(id),
        !b.world.tasks[id].burst_mode,
        tick::runnable(b.world, u),
    ensures
        b.world.tasks[u].vruntime <= tick::perform(
            b,
            EventView::TaskYield { id },
        ).world.tasks[id].vruntime,
{
    tick::max_vruntime_exists(b.world);
}

/// A task in burst mode stays in it and keeps its virtual runtime, whatever event comes, unless the
/// task is created anew.
pub proof fn burst_runtime_stays(b: Both, e: EventView, t: Seq<char>)
    requires
        b.world.tasks.contains_key(t),
        b.world.tasks[t].burst_mode,
        e matches EventView::TaskCreate { id, .. } ==> id != t,
    ensures
        ({
            let after = tick::perform(b, e).world.tasks;
            &&& after.contains_key(t)
            &&& after[t].burst_mode
            &&& after[t].vruntime == b.world.tasks[t].vruntime
        }),
{
}

/// A task in burst mode stays in it and keeps its virtual runtime through a whole tick, whether the
/// events are accepted or not, unless one of them creates the task anew.
pub proof fn burst_runtime_stays_in_tick(
    b: Both,
    events: Seq<Result<EventView, EventError>>,
    t: Seq<char>,
)
    requires
        b.world.tasks.contains_key(t),
        b.world.tasks[t].burst_mode,
        forall|i: int|
            0 <= i < events.len() ==> (#[trigger] events[i] matches Ok(
                EventView::TaskCreate { id, .. },
            ) ==> id != t),
    ensures
        ({
            let ready = tick::prepared(b, events).both.world.tasks;
            let after = tick::tick(b, events).world.tasks;
            &&& ready.contains_key(t)
            &&& ready[t].burst_mode
            &&& ready[t].vruntime == b.world.tasks[t].vruntime
            &&& after.contains_key(t)
            &&& after[t].burst_mode
            &&& after[t].vruntime == b.world.tasks[t].vruntime
        }),
    decreases events.len(),
{
    if events.len() > 0 {
        let front = events.drop_last();
        assert forall|i: int| 0 <= i < front.len() implies (#[trigger] front[i] matches Ok(
            EventView::TaskCreate { id, .. },
        ) ==> id != t) by {
            assert(front[i] == events[i]);
        }
        burst_runtime_stays_in_tick(b, front, t);
        let before = tick::prepared(b, front);
        if before.refused is None {
            if let Ok(e) = events[events.len() - 1] {
                burst_runtime_stays(before.both, e, t);
            }
        }
    }
    let ready = tick::prepared(b, events).both;
    accounting::tasks_stay(ready.sched, ready.world);
    accounting::running_tasks_are_charged(ready.sched, ready.world, t);
    laws::schedule_covers_cpus(ready.sched, ready.world);
    let seats = state::seats_of(state::dispatch(ready.sched, ready.world).schedule);
    if seats.contains(Some(t)) {
        assert(seats[seats.index_of(Some(t))] == Some(t));
    }
}

/// After the root group was created if it was missing, it is there; one that was there is as it
/// was; nothing else changes; and doing it once more changes nothing.
pub proof fn root_is_created_once(w: WorldView)
    ensures
        state::with_root(w).cgroups.contains_key(ROOT_CGROUP@),
        w.cgroups.contains_key(ROOT_CGROUP@) ==> state::with_root(w) == w,
        !w.cgroups.contains_key(ROOT_CGROUP@) ==> state::with_root(w) == (WorldView {
            cgroups: w.cgroups.insert(ROOT_CGROUP@, model::new_cgroup(ROOT_CGROUP@)),
            ..w
        }),
        state::with_root(state::with_root(w)) == state::with_root(w),
{
}

/// A refused event leaves tasks, queues and the schedule alone. It leaves everything alone, unless
/// it modifies a group: then the group exists, with the shares that the event gives.
pub proof fn refused_events_change_little(b: Both, e: Result<EventView, EventError>)
    requires
        tick::run_one(b, e).refused is Some,
    ensures
        ({
            let after = tick::run_one(b, e).both;
            &&& after.sched == b.sched
            &&& after.world.tasks == b.world.tasks
            &&& after.world.last_schedule == b.world.last_schedule
            &&& after.world.cgroups == (match e {
                Ok(EventView::CgroupModify { id, shares, .. }) => b.world.cgroups.insert(
                    id,
                    tick::group_set(tick::group_or_new(b.world, id), shares, None),
                ),
                _ => b.world.cgroups,
            })
        }),
{
}

/// An event without an action, or with one that is not known, is accepted and changes nothing.
pub proof fn unknown_actions_are_ignored(f: FieldsView, b: Both)
    requires
        f.requested() == Action::Unknown,
    ensures
        event::decode(f) == Ok::<EventView, EventError>(EventView::Ignored),
        tick::run_one(b, event::decode(f)) == (tick::Run { both: b, refused: None }),
{
}

/// Once there, the root group stays, unless an event deletes it.
pub proof fn root_stays(b: Both, events: Seq<Result<EventView, EventError>>)
    requires
        forall|i: int|
            0 <= i < events.len() ==> #[trigger] events[i] != Ok::<EventView, EventError>(
                EventView::CgroupDelete { id: ROOT_CGROUP@ },
            ),
    ensures
        tick::prepared(b, events).both.world.cgroups.contains_key(ROOT_CGROUP@),
    decreases events.len(),
{
    if events.len() > 0 {
        let front = events.drop_last();
        assert forall|i: int| 0 <= i < front.len() implies #[trigger] front[i] != Ok::<
            EventView,
            EventError,
        >(EventView::CgroupDelete { id: ROOT_CGROUP@ }) by {
            assert(front[i] == events[i]);
        }
        root_stays(b, front);
        let before = tick::prepared(b, front);
        if before.refused is None {
            if let Ok(e) = events[events.len() - 1] {
                events_touch_their_subject(before.both, e);
                assert(same_at(
                    before.both.world.cgroups,
                    tick::perform(before.both, e).world.cgroups,
                    ROOT_CGROUP@,
                ) || group_of(e) == Some(ROOT_CGROUP@));
            }
        }
    }
}

/// Every task has a nice value of the table and the weight that goes with it, and tasks and groups
/// stand under their own identifiers: every event keeps that.
pub proof fn events_keep_tables(b: Both, e: EventView)
    requires
        b.world.weighted(),
        b.world.keyed(),
    ensures
        tick::perform(b, e).world.weighted(),
        tick::perform(b, e).world.keyed(),
{
    let w = b.world;
    let v = tick::perform(b, e).world;
    assert forall|t: Seq<char>| #[trigger] v.tasks.contains_key(t) implies v.tasks[t].weighted()
        && v.tasks[t].id == t by {
        assert(w.tasks.contains_key(t) || task_of(e) == Some(t));
    }
    assert forall|c: Seq<char>| #[trigger] v.cgroups.contains_key(c) implies v.cgroups[c].id
        == c by {
        assert(w.cgroups.contains_key(c) || group_of(e) == Some(c));
    }
}

/// Nice values, weights and identifiers stay in order through a whole tick.
pub proof fn ticks_keep_tables(b: Both, events: Seq<Result<EventView, EventError>>)
    requires
        b.world.weighted(),
        b.world.keyed(),
    ensures
        tick::prepared(b, events).both.world.weighted(),
        tick::prepared(b, events).both.world.keyed(),
        tick::tick(b, events).world.weighted(),
        tick::tick(b, events).world.keyed(),
    decreases events.len(),
{
    if events.len() > 0 {
        let front = events.drop_last();
        ticks_keep_tables(b, front);
        let before = tick::prepared(b, front);
        if before.refused is None {
            if let Ok(e) = events.last() {
                events_keep_tables(before.both, e);
            }
        }
    }
    let after = tick::prepared(b, events).both;
    dispatch_keeps_tables(after.sched, after.world);
}

/// Giving the CPUs their tasks keeps nice values, weights and identifiers.
proof fn dispatch_keeps_tables(s: SchedulerView, w: WorldView)
    requires
        w.weighted(),
        w.keyed(),
    ensures
        state::dispatch(s, w).world.weighted(),
        state::dispatch(s, w).world.keyed(),
{
    let v = state::dispatch(s, w).world;
    accounting::tasks_stay(s, w);
    assert forall|t: Seq<char>| #[trigger] v.tasks.contains_key(t) implies v.tasks[t].weighted()
        && v.tasks[t].id == t by {
        accounting::running_tasks_are_charged(s, w, t);
        laws::schedule_covers_cpus(s, w);
        let seats = state::seats_of(state::dispatch(s, w).schedule);
        if seats.contains(Some(t)) {
            assert(seats[seats.index_of(Some(t))] == Some(t));
        }
    }
    assert forall|c: Seq<char>| #[trigger] v.cgroups.contains_key(c) implies v.cgroups[c].id
        == c by {
        accounting::groups_are_charged_per_task(s, w, c);
        accounting::charged_keeps_id(
            s.quanta,
            w.cgroups[c],
            state::count_below(
                s.cpus as nat,
                accounting::seat_of_group(w, state::seats_of(state::dispatch(s, w).schedule), c),
            ),
        );
    }
}

} // verus!
