//! What events do to the scheduler and the world, and what a whole tick does.

use vstd::prelude::*;

use crate::event::{EventError, EventView};
use crate::model;
use crate::model::{CgroupView, TaskState, TaskView, WorldView};
use crate::state;
use crate::state::{Both, Dispatch, SchedulerView};

verus! {

/// Task `t` exists and can run.
pub open spec fn runnable(w: WorldView, t: Seq<char>) -> bool {
    w.tasks.contains_key(t) && w.tasks[t].state == TaskState::Runnable
}

/// `v` is the virtual runtime of a runnable task, and no runnable task has less.
pub open spec fn is_min_vruntime(w: WorldView, v: i64) -> bool {
    &&& exists|t: Seq<char>| #[trigger] runnable(w, t) && w.tasks[t].vruntime == v
    &&& forall|t: Seq<char>| #[trigger] runnable(w, t) ==> w.tasks[t].vruntime >= v
}

/// `v` is the virtual runtime of a runnable task, and no runnable task has more.
pub open spec fn is_max_vruntime(w: WorldView, v: i64) -> bool {
    &&& exists|t: Seq<char>| #[trigger] runnable(w, t) && w.tasks[t].vruntime == v
    &&& forall|t: Seq<char>| #[trigger] runnable(w, t) ==> w.tasks[t].vruntime <= v
}

/// The least virtual runtime of the runnable tasks; 0 if there are none.
pub open spec fn min_vruntime(w: WorldView) -> i64 {
    if exists|t: Seq<char>| #[trigger] runnable(w, t) {
        choose|v: i64| is_min_vruntime(w, v)
    } else {
        0
    }
}

/// The greatest virtual runtime of the runnable tasks; 0 if there are none.
pub open spec fn max_vruntime(w: WorldView) -> i64 {
    if exists|t: Seq<char>| #[trigger] runnable(w, t) {
        choose|v: i64| is_max_vruntime(w, v)
    } else {
        0
    }
}

/// The world with `after` in place of task `t`, if there is such a task.
pub open spec fn task_changed(w: WorldView, t: Seq<char>, after: TaskView) -> WorldView {
    if w.tasks.contains_key(t) {
        w.with_task(t, after)
    } else {
        w
    }
}

/// The scheduler and the world `w`, after task `t` was queued.
pub open spec fn requeued(s: SchedulerView, w: WorldView, t: Seq<char>) -> Both {
    Both { sched: state::queue_task(s, w, t), world: w }
}

/// A task that can run again, and has not fallen behind `least` meanwhile. In burst mode it keeps
/// its virtual runtime.
pub open spec fn woken(task: TaskView, least: i64) -> TaskView {
    TaskView {
        state: TaskState::Runnable,
        vruntime: if !task.burst_mode && task.vruntime < least {
            least
        } else {
            task.vruntime
        },
        ..task
    }
}

/// A task that lets all others go first, of which none is beyond `greatest`. In burst mode it keeps
/// its virtual runtime.
pub open spec fn yielded(task: TaskView, greatest: i64) -> TaskView {
    TaskView {
        vruntime: if task.burst_mode {
            task.vruntime
        } else {
            greatest
        },
        ..task
    }
}

/// The group with the shares and the mask that are given.
pub open spec fn group_set(group: CgroupView, shares: Option<u32>, mask: Option<u64>) -> CgroupView {
    CgroupView {
        cpu_shares: shares.unwrap_or(group.cpu_shares),
        cpu_mask: mask.unwrap_or(group.cpu_mask),
        ..group
    }
}

/// Group `c`, as it is created if it does not exist.
pub open spec fn group_or_new(w: WorldView, c: Seq<char>) -> CgroupView {
    if w.cgroups.contains_key(c) {
        w.cgroups[c]
    } else {
        model::new_cgroup(c)
    }
}

/// The tasks after those of group `c` went back to the root group.
pub open spec fn tasks_freed(tasks: Map<Seq<char>, TaskView>, c: Seq<char>) -> Map<
    Seq<char>,
    TaskView,
> {
    Map::new(
        |t: Seq<char>| tasks.contains_key(t),
        |t: Seq<char>|
            if tasks[t].cgroup == Some(c) {
                TaskView { cgroup: None, ..tasks[t] }
            } else {
                tasks[t]
            },
    )
}

/// What an event does.
pub open spec fn perform(b: Both, e: EventView) -> Both {
    let s = b.sched;
    let w = b.world;
    match e {
        EventView::TaskCreate { id, nice, vruntime, affinity, cgroup } => requeued(
            s,
            w.with_task(id, model::new_task(id, nice, vruntime, affinity, cgroup)),
            id,
        ),
        EventView::TaskExit { id } => Both {
            world: task_changed(w, id, TaskView { state: TaskState::Exited, ..w.tasks[id] }),
            ..b
        },
        EventView::TaskBlock { id } => Both {
            world: task_changed(w, id, TaskView { state: TaskState::Blocked, ..w.tasks[id] }),
            ..b
        },
        EventView::TaskUnblock { id } => requeued(
            s,
            task_changed(w, id, woken(w.tasks[id], min_vruntime(w))),
            id,
        ),
        EventView::TaskYield { id } => requeued(
            s,
            task_changed(w, id, yielded(w.tasks[id], max_vruntime(w))),
            id,
        ),
        EventView::TaskSetNice { id, nice } => requeued(
            s,
            task_changed(w, id, w.tasks[id].with_nice(nice)),
            id,
        ),
        EventView::TaskSetAffinity { id, mask } => requeued(
            s,
            task_changed(w, id, TaskView { affinity_mask: mask, ..w.tasks[id] }),
            id,
        ),
        EventView::TaskMoveCgroup { id, cgroup } => requeued(
            s,
            task_changed(w, id, TaskView { cgroup, ..w.tasks[id] }),
            id,
        ),
        EventView::CgroupCreate { id, shares, mask } => {
            let after = w.with_cgroup(id, group_set(model::new_cgroup(id), shares, mask));
            Both { sched: state::queue_group(s, after, id), world: after }
        },
        EventView::CgroupModify { id, shares, mask } => match mask {
            Ok(mask) => {
                let after = w.with_cgroup(id, group_set(group_or_new(w, id), shares, mask));
                Both { sched: state::queue_group(s, after, id), world: after }
            },
            Err(e) => Both {
                world: w.with_cgroup(id, group_set(group_or_new(w, id), shares, None)),
                ..b
            },
        },
        EventView::CgroupDelete { id } => Both {
            world: WorldView {
                tasks: tasks_freed(w.tasks, id),
                cgroups: w.cgroups.remove(id),
                ..w
            },
            ..b
        },
        EventView::CpuBurst { id } => requeued(
            s,
            task_changed(w, id, TaskView { burst_mode: true, ..w.tasks[id] }),
            id,
        ),
        EventView::Ignored => b,
    }
}

/// Why an event is refused while it is performed.
pub open spec fn refusal(e: EventView) -> Option<EventError> {
    match e {
        EventView::CgroupModify { id, shares, mask: Err(error) } => Some(error),
        _ => None,
    }
}

/// The outcome of running events.
pub struct Run {
    pub both: Both,
    /// Why the last event that was run is refused.
    pub refused: Option<EventError>,
}

/// Runs one event. One that could not be decoded changes nothing.
pub open spec fn run_one(b: Both, e: Result<EventView, EventError>) -> Run {
    match e {
        Ok(event) => Run { both: perform(b, event), refused: refusal(event) },
        Err(error) => Run { both: b, refused: Some(error) },
    }
}

/// Runs events in turn, up to the first one that is refused.
pub open spec fn run(b: Both, events: Seq<Result<EventView, EventError>>) -> Run
    decreases events.len(),
{
    if events.len() == 0 {
        Run { both: b, refused: None }
    } else {
        let before = run(b, events.drop_last());
        if before.refused is Some {
            before
        } else {
            run_one(before.both, events.last())
        }
    }
}

/// The scheduler and the world after the events of a tick were run.
pub open spec fn prepared(b: Both, events: Seq<Result<EventView, EventError>>) -> Run {
    run(Both { world: state::with_root(b.world), ..b }, events)
}

/// What a tick does whose events are all accepted.
pub open spec fn tick(b: Both, events: Seq<Result<EventView, EventError>>) -> Dispatch {
    let after = prepared(b, events).both;
    state::dispatch(after.sched, after.world)
}

/// There is one least virtual runtime.
pub proof fn min_vruntime_is(w: WorldView, v: i64)
    requires
        is_min_vruntime(w, v),
    ensures
        min_vruntime(w) == v,
{
    let u = choose|u: i64| is_min_vruntime(w, u);
    assert(is_min_vruntime(w, u));
}

/// There is one greatest virtual runtime.
pub proof fn max_vruntime_is(w: WorldView, v: i64)
    requires
        is_max_vruntime(w, v),
    ensures
        max_vruntime(w) == v,
{
    let u = choose|u: i64| is_max_vruntime(w, u);
    assert(is_max_vruntime(w, u));
}

/// Where a task is runnable, there is a least virtual runtime.
pub proof fn min_vruntime_exists(w: WorldView)
    requires
        exists|t: Seq<char>| #[trigger] runnable(w, t),
    ensures
        is_min_vruntime(w, min_vruntime(w)),
{
    let t = choose|t: Seq<char>| #[trigger] runnable(w, t);
    let v = least_from(w, t);
    assert(is_min_vruntime(w, v));
}

/// A least virtual runtime, found by going from task to task.
proof fn least_from(w: WorldView, t: Seq<char>) -> (v: i64)
    requires
        runnable(w, t),
    ensures
        is_min_vruntime(w, v),
    decreases w.tasks[t].vruntime - i64::MIN,
{
    if exists|u: Seq<char>| #[trigger] runnable(w, u) && w.tasks[u].vruntime < w.tasks[t].vruntime {
        let u = choose|u: Seq<char>| #[trigger]
            runnable(w, u) && w.tasks[u].vruntime < w.tasks[t].vruntime;
        least_from(w, u)
    } else {
        w.tasks[t].vruntime
    }
}

/// Where a task is runnable, there is a greatest virtual runtime.
pub proof fn max_vruntime_exists(w: WorldView)
    requires
        exists|t: Seq<char>| #[trigger] runnable(w, t),
    ensures
        is_max_vruntime(w, max_vruntime(w)),
{
    let t = choose|t: Seq<char>| #[trigger] runnable(w, t);
    let v = greatest_from(w, t);
    assert(is_max_vruntime(w, v));
}

/// A greatest virtual runtime, found by going from task to task.
proof fn greatest_from(w: WorldView, t: Seq<char>) -> (v: i64)
    requires
        runnable(w, t),
    ensures
        is_max_vruntime(w, v),
    decreases i64::MAX - w.tasks[t].vruntime,
{
    if exists|u: Seq<char>| #[trigger] runnable(w, u) && w.tasks[u].vruntime > w.tasks[t].vruntime {
        let u = choose|u: Seq<char>| #[trigger]
            runnable(w, u) && w.tasks[u].vruntime > w.tasks[t].vruntime;
        greatest_from(w, u)
    } else {
        w.tasks[t].vruntime
    }
}

/// Nothing is run after an event that is refused.
pub proof fn refusal_is_final(b: Both, events: Seq<Result<EventView, EventError>>, n: int)
    requires
        0 <= n <= events.len(),
        run(b, events.take(n)).refused is Some,
    ensures
        run(b, events) == run(b, events.take(n)),
    decreases events.len() - n,
{
    if n < events.len() {
        assert(events.take(n + 1).drop_last() =~= events.take(n));
        refusal_is_final(b, events, n + 1);
    } else {
        assert(events.take(n) =~= events);
    }
}

} // verus!
