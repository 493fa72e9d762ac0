//! What each event does, field by field.

use vstd::prelude::*;

use crate::event::{EventError, EventView};
use crate::model;
use crate::model::{CgroupView, TaskState, TaskView, WorldView, NICE_TO_WEIGHT};
use crate::queue;
use crate::state;
use crate::state::{Both, SchedulerView};
use crate::text;
use crate::tick;

verus! {

// ---------------------------------------------------------------------------
// Tasks
// ---------------------------------------------------------------------------

/// A created task holds what the event gives. It can run, has run nowhere and is not in burst mode.
/// Its nice value is brought between -20 and 19, and its weight is the one that the table has for
/// it. Nothing else in the world changes, and the task is queued.
pub proof fn creation_makes_the_task(
    b: Both,
    id: Seq<char>,
    nice: i32,
    vruntime: i64,
    affinity: u64,
    cgroup: Option<Seq<char>>,
)
    ensures
        ({
            let after = tick::perform(
                b,
                EventView::TaskCreate { id, nice, vruntime, affinity, cgroup },
            );
            let task = after.world.tasks[id];
            &&& after.world == (WorldView { tasks: b.world.tasks.insert(id, task), ..b.world })
            &&& after.sched == state::queue_task(b.sched, after.world, id)
            &&& task.id == id
            &&& -20 <= nice <= 19 ==> task.nice == nice
            &&& nice < -20 ==> task.nice == -20
            &&& nice > 19 ==> task.nice == 19
            &&& task.weight == NICE_TO_WEIGHT@[task.nice + 20]
            &&& task.vruntime == vruntime
            &&& task.state == TaskState::Runnable
            &&& task.affinity_mask == affinity
            &&& task.cgroup == cgroup
            &&& task.last_cpu is None
            &&& !task.burst_mode
        }),
{
}

/// A task that exits or blocks changes its state and nothing else changes. For a task that does not
/// exist nothing happens.
pub proof fn exits_and_blocks_change_the_state(b: Both, id: Seq<char>)
    ensures
        ({
            let exited = tick::perform(b, EventView::TaskExit { id });
            let blocked = tick::perform(b, EventView::TaskBlock { id });
            let task = b.world.tasks[id];
            if b.world.tasks.contains_key(id) {
                &&& exited.sched == b.sched
                &&& exited.world == (WorldView {
                    tasks: b.world.tasks.insert(
                        id,
                        TaskView { state: TaskState::Exited, ..task },
                    ),
                    ..b.world
                })
                &&& blocked.sched == b.sched
                &&& blocked.world == (WorldView {
                    tasks: b.world.tasks.insert(
                        id,
                        TaskView { state: TaskState::Blocked, ..task },
                    ),
                    ..b.world
                })
            } else {
                exited == b && blocked == b
            }
        }),
{
}

/// A task that is unblocked can run. Its virtual runtime is the greater of its own and the least of
/// the tasks that could run before; where none could, the greater of its own and 0. In burst mode
/// it stays. Nothing else in the world changes, and the task is queued.
pub proof fn unblocking_lifts_to_the_least(b: Both, id: Seq<char>)
    requires
        b.world.tasks.contains_key(id),
    ensures
        ({
            let after = tick::perform(b, EventView::TaskUnblock { id });
            let old_one = b.world.tasks[id];
            let new_one = after.world.tasks[id];
            &&& after.world == (WorldView {
                tasks: b.world.tasks.insert(
                    id,
                    TaskView {
                        state: TaskState::Runnable,
                        vruntime: new_one.vruntime,
                        ..old_one
                    },
                ),
                ..b.world
            })
            &&& after.sched == state::queue_task(b.sched, after.world, id)
            &&& new_one.vruntime >= old_one.vruntime
            &&& old_one.burst_mode ==> new_one.vruntime == old_one.vruntime
            &&& forall|u: Seq<char>| #[trigger]
                b.world.tasks.contains_key(u) && b.world.tasks[u].state == TaskState::Runnable
                    ==> new_one.vruntime <= old_one.vruntime || new_one.vruntime
                    <= b.world.tasks[u].vruntime
            &&& !old_one.burst_mode && (exists|u: Seq<char>| #[trigger]
                b.world.tasks.contains_key(u) && b.world.tasks[u].state == TaskState::Runnable)
                ==> exists|u: Seq<char>| #[trigger]
                b.world.tasks.contains_key(u) && b.world.tasks[u].state == TaskState::Runnable
                    && b.world.tasks[u].vruntime <= new_one.vruntime
            &&& !old_one.burst_mode && !(exists|u: Seq<char>| #[trigger]
                b.world.tasks.contains_key(u) && b.world.tasks[u].state == TaskState::Runnable)
                ==> new_one.vruntime == if old_one.vruntime < 0 {
                0
            } else {
                old_one.vruntime as int
            }
        }),
{
    let w = b.world;
    let some = exists|u: Seq<char>| #[trigger]
        w.tasks.contains_key(u) && w.tasks[u].state == TaskState::Runnable;
    if some {
        let u = choose|u: Seq<char>| #[trigger]
            w.tasks.contains_key(u) && w.tasks[u].state == TaskState::Runnable;
        assert(tick::runnable(w, u));
        tick::min_vruntime_exists(w);
        assert forall|u: Seq<char>| #[trigger]
            w.tasks.contains_key(u) && w.tasks[u].state == TaskState::Runnable implies w.tasks[u].vruntime
            >= tick::min_vruntime(w) by {
            assert(tick::runnable(w, u));
        }
        let m = choose|m: Seq<char>| #[trigger]
            tick::runnable(w, m) && w.tasks[m].vruntime == tick::min_vruntime(w);
        assert(w.tasks.contains_key(m));
    } else {
        assert(forall|u: Seq<char>| #[trigger] tick::runnable(w, u) ==> w.tasks.contains_key(u));
    }
}

/// A task that yields, and is not in burst mode, gets the greatest virtual runtime of the tasks
/// that can run: none of them exceeds it, and one of them has it. Where none can run, it gets 0. In
/// burst mode it keeps its own. Nothing else in the world changes, and the task is queued.
pub proof fn yielding_goes_to_the_greatest(b: Both, id: Seq<char>)
    requires
        b.world.tasks.contains_key(id),
    ensures
        ({
            let after = tick::perform(b, EventView::TaskYield { id });
            let old_one = b.world.tasks[id];
            let new_one = after.world.tasks[id];
            &&& after.world == (WorldView {
                tasks: b.world.tasks.insert(
                    id,
                    TaskView { vruntime: new_one.vruntime, ..old_one },
                ),
                ..b.world
            })
            &&& after.sched == state::queue_task(b.sched, after.world, id)
            &&& old_one.burst_mode ==> new_one.vruntime == old_one.vruntime
            &&& !old_one.burst_mode ==> forall|u: Seq<char>| #[trigger]
                b.world.tasks.contains_key(u) && b.world.tasks[u].state == TaskState::Runnable
                    ==> b.world.tasks[u].vruntime <= new_one.vruntime
            &&& !old_one.burst_mode && (exists|u: Seq<char>| #[trigger]
                b.world.tasks.contains_key(u) && b.world.tasks[u].state == TaskState::Runnable)
                ==> exists|u: Seq<char>| #[trigger]
                b.world.tasks.contains_key(u) && b.world.tasks[u].state == TaskState::Runnable
                    && b.world.tasks[u].vruntime == new_one.vruntime
            &&& !old_one.burst_mode && !(exists|u: Seq<char>| #[trigger]
                b.world.tasks.contains_key(u) && b.world.tasks[u].state == TaskState::Runnable)
                ==> new_one.vruntime == 0
        }),
{
    let w = b.world;
    let some = exists|u: Seq<char>| #[trigger]
        w.tasks.contains_key(u) && w.tasks[u].state == TaskState::Runnable;
    if some {
        let u = choose|u: Seq<char>| #[trigger]
            w.tasks.contains_key(u) && w.tasks[u].state == TaskState::Runnable;
        assert(tick::runnable(w, u));
        tick::max_vruntime_exists(w);
        assert forall|u: Seq<char>| #[trigger]
            w.tasks.contains_key(u) && w.tasks[u].state == TaskState::Runnable implies w.tasks[u].vruntime
            <= tick::max_vruntime(w) by {
            assert(tick::runnable(w, u));
        }
        let m = choose|m: Seq<char>| #[trigger]
            tick::runnable(w, m) && w.tasks[m].vruntime == tick::max_vruntime(w);
        assert(w.tasks.contains_key(m));
    } else {
        assert(forall|u: Seq<char>| #[trigger] tick::runnable(w, u) ==> w.tasks.contains_key(u));
    }
}

/// A task whose nice value is set has the value that the event gives, brought between -20 and 19,
/// and the weight that the table has for it. Nothing else in the world changes, and the task is
/// queued.
pub proof fn setting_nice_sets_nice_and_weight(b: Both, id: Seq<char>, nice: i32)
    requires
        b.world.tasks.contains_key(id),
    ensures
        ({
            let after = tick::perform(b, EventView::TaskSetNice { id, nice });
            let task = after.world.tasks[id];
            &&& -20 <= nice <= 19 ==> task.nice == nice
            &&& nice < -20 ==> task.nice == -20
            &&& nice > 19 ==> task.nice == 19
            &&& task.weight == NICE_TO_WEIGHT@[task.nice + 20]
            &&& after.world == (WorldView {
                tasks: b.world.tasks.insert(
                    id,
                    TaskView { nice: task.nice, weight: task.weight, ..b.world.tasks[id] },
                ),
                ..b.world
            })
            &&& after.sched == state::queue_task(b.sched, after.world, id)
        }),
{
}

/// Setting the affinity of a task, moving it to a group, and telling of a burst change that one
/// field of the task, and nothing else in the world. The task is queued.
pub proof fn single_fields_are_set(b: Both, id: Seq<char>, mask: u64, cgroup: Option<Seq<char>>)
    requires
        b.world.tasks.contains_key(id),
    ensures
        ({
            let w = b.world;
            let task = w.tasks[id];
            let fixed = tick::perform(b, EventView::TaskSetAffinity { id, mask });
            let moved = tick::perform(b, EventView::TaskMoveCgroup { id, cgroup });
            let burst = tick::perform(b, EventView::CpuBurst { id });
            &&& fixed.world == (WorldView {
                tasks: w.tasks.insert(id, TaskView { affinity_mask: mask, ..task }),
                ..w
            })
            &&& fixed.sched == state::queue_task(b.sched, fixed.world, id)
            &&& moved.world == (WorldView {
                tasks: w.tasks.insert(id, TaskView { cgroup, ..task }),
                ..w
            })
            &&& moved.sched == state::queue_task(b.sched, moved.world, id)
            &&& burst.world == (WorldView {
                tasks: w.tasks.insert(id, TaskView { burst_mode: true, ..task }),
                ..w
            })
            &&& burst.sched == state::queue_task(b.sched, burst.world, id)
        }),
{
}

/// An event on a task that does not exist changes nothing, unless it creates the task.
pub proof fn missing_tasks_are_passed_over(
    b: Both,
    id: Seq<char>,
    nice: i32,
    mask: u64,
    cgroup: Option<Seq<char>>,
)
    requires
        !b.world.tasks.contains_key(id),
    ensures
        tick::perform(b, EventView::TaskExit { id }) == b,
        tick::perform(b, EventView::TaskBlock { id }) == b,
        tick::perform(b, EventView::TaskUnblock { id }) == b,
        tick::perform(b, EventView::TaskYield { id }) == b,
        tick::perform(b, EventView::CpuBurst { id }) == b,
        tick::perform(b, EventView::TaskSetNice { id, nice }) == b,
        tick::perform(b, EventView::TaskSetAffinity { id, mask }) == b,
        tick::perform(b, EventView::TaskMoveCgroup { id, cgroup }) == b,
        tick::perform(b, EventView::Ignored) == b,
{
}

// ---------------------------------------------------------------------------
// Control groups
// ---------------------------------------------------------------------------

/// A created group has the shares and the mask that the event gives. Without them it has 1024
/// shares and may run everywhere. It has not run yet, whatever group it replaces. Nothing else in
/// the world changes, and the group is queued.
pub proof fn creation_makes_the_group(
    b: Both,
    id: Seq<char>,
    shares: Option<u32>,
    mask: Option<u64>,
)
    ensures
        ({
            let after = tick::perform(b, EventView::CgroupCreate { id, shares, mask });
            let group = after.world.cgroups[id];
            &&& after.world == (WorldView {
                cgroups: b.world.cgroups.insert(id, group),
                ..b.world
            })
            &&& after.sched == state::queue_group(b.sched, after.world, id)
            &&& group.id == id
            &&& group.vruntime == 0
            &&& group.cpu_shares == match shares {
                Some(n) => n,
                None => 1024,
            }
            &&& group.cpu_mask == match mask {
                Some(bits) => bits,
                None => 0xffff_ffff_ffff_ffff,
            }
        }),
{
}

/// A modified group has the shares and the mask that the event gives, and keeps what the event does
/// not give: its shares, its mask, its virtual runtime and its identifier. Nothing else in the world
/// changes, and the group is queued. With a mask that cannot be read, the shares are set and the
/// group is not queued.
pub proof fn modification_keeps_what_is_not_given(
    b: Both,
    id: Seq<char>,
    shares: Option<u32>,
    mask: Result<Option<u64>, EventError>,
)
    requires
        b.world.cgroups.contains_key(id),
    ensures
        ({
            let after = tick::perform(b, EventView::CgroupModify { id, shares, mask });
            let before = b.world.cgroups[id];
            let group = after.world.cgroups[id];
            &&& after.world == (WorldView {
                cgroups: b.world.cgroups.insert(id, group),
                ..b.world
            })
            &&& group.id == before.id
            &&& group.vruntime == before.vruntime
            &&& group.cpu_shares == match shares {
                Some(n) => n,
                None => before.cpu_shares,
            }
            &&& group.cpu_mask == match mask {
                Ok(Some(bits)) => bits,
                _ => before.cpu_mask,
            }
            &&& after.sched == if mask is Ok {
                state::queue_group(b.sched, after.world, id)
            } else {
                b.sched
            }
        }),
{
}

/// A modification of a group that does not exist creates it first, with 1024 shares, every CPU and
/// no runtime, and then does to it what it does to one that exists.
pub proof fn modification_creates_a_missing_group(
    b: Both,
    id: Seq<char>,
    shares: Option<u32>,
    mask: Result<Option<u64>, EventError>,
)
    requires
        !b.world.cgroups.contains_key(id),
    ensures
        ({
            let e = EventView::CgroupModify { id, shares, mask };
            let fresh = CgroupView {
                id,
                cpu_shares: 1024,
                cpu_mask: 0xffff_ffff_ffff_ffff,
                vruntime: 0,
            };
            let created = Both {
                world: WorldView { cgroups: b.world.cgroups.insert(id, fresh), ..b.world },
                ..b
            };
            tick::perform(b, e) == tick::perform(created, e)
        }),
{
    let e = EventView::CgroupModify { id, shares, mask };
    let fresh = model::new_cgroup(id);
    let created = Both { world: b.world.with_cgroup(id, fresh), ..b };
    let x = tick::perform(b, e);
    let y = tick::perform(created, e);
    assert(x.world.cgroups =~= y.world.cgroups);
    assert(x.sched == y.sched);
}

/// A deleted group is gone, and its tasks belong to no group then. Nothing else of them changes, and
/// nothing of other tasks or groups. Nothing is queued.
pub proof fn deletion_frees_the_tasks(b: Both, id: Seq<char>)
    ensures
        ({
            let w = b.world;
            let after = tick::perform(b, EventView::CgroupDelete { id });
            &&& after.sched == b.sched
            &&& after.world.last_schedule == w.last_schedule
            &&& after.world.cgroups == w.cgroups.remove(id)
            &&& forall|t: Seq<char>| #[trigger]
                after.world.tasks.contains_key(t) <==> w.tasks.contains_key(t)
            &&& forall|t: Seq<char>| #[trigger]
                w.tasks.contains_key(t) ==> after.world.tasks[t] == if w.tasks[t].cgroup == Some(
                    id,
                ) {
                    TaskView { cgroup: None, ..w.tasks[t] }
                } else {
                    w.tasks[t]
                }
        }),
{
}

// ---------------------------------------------------------------------------
// Queueing
// ---------------------------------------------------------------------------

/// Entry `x` leaves a queue no later than entry `y`: it has the smaller virtual runtime, or the same
/// and was queued earlier, or that too and comes first by its identifier.
pub open spec fn no_later(x: queue::ItemView, y: queue::ItemView) -> bool {
    ||| x.vruntime < y.vruntime
    ||| x.vruntime == y.vruntime && x.seq < y.seq
    ||| x.vruntime == y.vruntime && x.seq == y.seq && (x.id == y.id || text::text_lt(x.id, y.id))
}

/// Sequence numbers count up by one, and start over after the last one.
pub proof fn sequence_numbers_count_up(n: u64)
    ensures
        n < 0xffff_ffff_ffff_ffff ==> state::next_seq(n) == n + 1,
        n == 0xffff_ffff_ffff_ffff ==> state::next_seq(n) == 0,
{
}

/// A queue in order gives out the entry with the smallest virtual runtime first, and of several the
/// one that was queued first.
pub proof fn queues_give_the_least_first(items: Seq<queue::ItemView>, i: int, j: int)
    requires
        queue::in_order(items),
        0 <= i <= j < items.len(),
    ensures
        no_later(items[i], items[j]),
{
    if i < j {
        assert(queue::precedes_or_same(items[i], items[j]));
    }
}

/// The place of a new entry in a queue.
proof fn place_of(items: Seq<queue::ItemView>, item: queue::ItemView) -> (k: int)
    requires
        queue::in_order(items),
    ensures
        0 <= k <= items.len(),
        queue::with_item(items, item) == items.insert(k, item),
    decreases items.len(),
{
    if items.len() == 0 || queue::precedes_or_same(items.last(), item) {
        assert(items.push(item) =~= items.insert(items.len() as int, item));
        items.len() as int
    } else {
        let front = items.drop_last();
        assert forall|i: int, j: int| 0 <= i < j < front.len() implies
            #[trigger] queue::precedes_or_same(front[i], front[j]) by {
            assert(queue::precedes_or_same(items[i], items[j]));
        }
        let k = place_of(front, item);
        assert(front.insert(k, item).push(items.last()) =~= items.insert(k, item));
        k
    }
}

/// Queueing a group that exists adds one entry to the queue of groups: the group, at its current
/// virtual runtime and under the next sequence number. Nothing else changes but that this runtime
/// is remembered. A group that does not exist is not queued.
pub proof fn queueing_a_group_adds_it(s: SchedulerView, w: WorldView, c: Seq<char>) -> (k: int)
    requires
        s.in_order(),
    ensures
        !w.cgroups.contains_key(c) ==> state::queue_group(s, w, c) == s,
        w.cgroups.contains_key(c) ==> 0 <= k <= s.cg_heap.len() && state::queue_group(s, w, c) == (
        SchedulerView {
            cg_heap: s.cg_heap.insert(
                k,
                queue::ItemView {
                    vruntime: w.cgroups[c].vruntime,
                    seq: state::next_seq(s.cg_seq),
                    id: c,
                },
            ),
            cg_seq: state::next_seq(s.cg_seq),
            cg_last_key: s.cg_last_key.insert(c, w.cgroups[c].vruntime),
            ..s
        }),
        queue::in_order(state::queue_group(s, w, c).cg_heap),
{
    if w.cgroups.contains_key(c) {
        let item = queue::ItemView {
            vruntime: w.cgroups[c].vruntime,
            seq: state::next_seq(s.cg_seq),
            id: c,
        };
        queue::with_item_in_order(s.cg_heap, item);
        place_of(s.cg_heap, item)
    } else {
        0
    }
}

/// Queueing a task that can run adds one entry to the queue of its group, or of the root group if it
/// has none: the task, at its current virtual runtime and under the next sequence number. This
/// runtime is remembered, and the group is queued as well. No other queue changes. A task that does
/// not exist or cannot run is not queued.
pub proof fn queueing_a_task_adds_it(s: SchedulerView, w: WorldView, t: Seq<char>) -> (k: int)
    requires
        s.in_order(),
    ensures
        !(w.tasks.contains_key(t) && w.tasks[t].state == TaskState::Runnable) ==> state::queue_task(
            s,
            w,
            t,
        ) == s,
        w.tasks.contains_key(t) && w.tasks[t].state == TaskState::Runnable ==> ({
            let g = match w.tasks[t].cgroup {
                Some(g) => g,
                None => "__root__"@,
            };
            let items = if s.rq.contains_key(g) {
                s.rq[g]
            } else {
                Seq::empty()
            };
            let item = queue::ItemView {
                vruntime: w.tasks[t].vruntime,
                seq: state::next_seq(s.task_seq),
                id: t,
            };
            let queued = SchedulerView {
                rq: s.rq.insert(g, items.insert(k, item)),
                task_seq: state::next_seq(s.task_seq),
                task_last_key: s.task_last_key.insert(t, w.tasks[t].vruntime),
                ..s
            };
            &&& 0 <= k <= items.len()
            &&& queue::in_order(items.insert(k, item))
            &&& state::queue_task(s, w, t) == state::queue_group(queued, w, g)
        }),
{
    if w.tasks.contains_key(t) && w.tasks[t].state == TaskState::Runnable {
        let g = w.tasks[t].group();
        let items = state::queue_of(s, g);
        let item = queue::ItemView {
            vruntime: w.tasks[t].vruntime,
            seq: state::next_seq(s.task_seq),
            id: t,
        };
        assert(queue::in_order(items));
        queue::with_item_in_order(items, item);
        place_of(items, item)
    } else {
        0
    }
}

// ---------------------------------------------------------------------------
// Running events
// ---------------------------------------------------------------------------

/// No event is refused while it is performed but a modification whose mask cannot be read, and that
/// one for the reason why it cannot.
pub proof fn only_bad_masks_are_refused_late(e: EventView)
    ensures
        tick::refusal(e) == match e {
            EventView::CgroupModify { id, shares, mask } => match mask {
                Err(error) => Some(error),
                Ok(_) => None,
            },
            _ => None,
        },
{
}

/// Running one event performs it. One that could not be decoded is refused for that reason, and
/// changes nothing.
pub proof fn one_event_is_performed(b: Both, e: EventView, error: EventError)
    ensures
        tick::run(b, seq![Ok(e)]).both == tick::perform(b, e),
        tick::run(b, seq![Ok(e)]).refused == tick::refusal(e),
        tick::run(b, seq![Err(error)]).both == b,
        tick::run(b, seq![Err(error)]).refused == Some(error),
        tick::run(b, Seq::empty()).both == b,
        tick::run(b, Seq::empty()).refused is None,
{
    let none = Seq::<Result<EventView, EventError>>::empty();
    let good: Seq<Result<EventView, EventError>> = seq![Ok(e)];
    let bad: Seq<Result<EventView, EventError>> = seq![Err(error)];
    assert(good.drop_last() =~= none);
    assert(bad.drop_last() =~= none);
    assert(tick::run(b, none) == (tick::Run { both: b, refused: None }));
    assert(good.last() == Ok::<EventView, EventError>(e));
    assert(bad.last() == Err::<EventView, EventError>(error));
}

/// Events are run in their order: first some, and then, unless one of those is refused, the rest on
/// what they left.
pub proof fn events_run_in_order(
    b: Both,
    first: Seq<Result<EventView, EventError>>,
    rest: Seq<Result<EventView, EventError>>,
)
    ensures
        tick::run(b, first + rest) == if tick::run(b, first).refused is Some {
            tick::run(b, first)
        } else {
            tick::run(tick::run(b, first).both, rest)
        },
    decreases rest.len(),
{
    if rest.len() == 0 {
        assert(first + rest =~= first);
    } else {
        let all = first + rest;
        assert(all.drop_last() =~= first + rest.drop_last());
        assert(all.last() == rest.last());
        events_run_in_order(b, first, rest.drop_last());
    }
}

/// A tick runs its events after the root group was created if it was missing, with 1024 shares,
/// every CPU and no runtime.
pub proof fn events_find_a_root_group(b: Both, events: Seq<Result<EventView, EventError>>)
    ensures
        ({
            let w = b.world;
            let rooted = if w.cgroups.contains_key("__root__"@) {
                w
            } else {
                WorldView {
                    cgroups: w.cgroups.insert(
                        "__root__"@,
                        CgroupView {
                            id: "__root__"@,
                            cpu_shares: 1024,
                            cpu_mask: 0xffff_ffff_ffff_ffff,
                            vruntime: 0,
                        },
                    ),
                    ..w
                }
            };
            tick::prepared(b, events) == tick::run(Both { sched: b.sched, world: rooted }, events)
        }),
{
}

/// The CPUs get their tasks after the events of the tick were run.
pub proof fn dispatch_follows_the_events(b: Both, events: Seq<Result<EventView, EventError>>)
    ensures
        tick::tick(b, events) == state::dispatch(
            tick::prepared(b, events).both.sched,
            tick::prepared(b, events).both.world,
        ),
{
}

} // verus!
