//! Which tasks a scheduler will find: a runnable task is ready if the queues hold an entry that
//! leads to it.

use vstd::prelude::*;

use crate::event::{EventError, EventView};
use crate::laws;
use crate::model;
use crate::model::{CgroupView, TaskView, WorldView, ROOT_CGROUP};
use crate::queue;
use crate::queue::ItemView;
use crate::search;
use crate::state;
use crate::state::{Both, SchedulerView, IDLE};
use crate::tick;

verus! {

/// The queue of its group holds a valid entry for task `t`.
pub open spec fn task_queued(s: SchedulerView, w: WorldView, t: Seq<char>) -> bool {
    exists|e: ItemView| #[trigger]
        state::queue_of(s, w.tasks[t].group()).contains(e) && e.id == t && state::task_entry_valid(
            w,
            s.task_last_key,
            e,
        )
}

/// The queue of groups holds a valid entry for group `c`.
pub open spec fn group_queued(s: SchedulerView, w: WorldView, c: Seq<char>) -> bool {
    exists|e: ItemView| #[trigger]
        s.cg_heap.contains(e) && e.id == c && state::group_entry_valid(s, w, e)
}

/// Task `t` is queued, and so is its group, if it exists.
pub open spec fn ready(s: SchedulerView, w: WorldView, t: Seq<char>) -> bool {
    &&& task_queued(s, w, t)
    &&& w.cgroups.contains_key(w.tasks[t].group()) ==> group_queued(s, w, w.tasks[t].group())
}

/// Every runnable task is ready, but for those in `out` and for one that bears the name of an
/// idle CPU.
pub open spec fn all_ready_but(s: SchedulerView, w: WorldView, out: Set<Seq<char>>) -> bool {
    forall|t: Seq<char>| #[trigger]
        tick::runnable(w, t) && t != IDLE@ && !out.contains(t) ==> ready(s, w, t)
}

/// Every runnable task is ready, but for one that bears the name of an idle CPU.
pub open spec fn all_ready(b: Both) -> bool {
    all_ready_but(b.sched, b.world, Set::empty())
}

/// Queueing a group keeps what is queued, and adds the group, if it exists.
proof fn group_push_keeps(s: SchedulerView, w: WorldView, c: Seq<char>)
    ensures
        w.cgroups.contains_key(c) ==> group_queued(state::queue_group(s, w, c), w, c),
        forall|d: Seq<char>| #[trigger]
            group_queued(s, w, d) ==> group_queued(state::queue_group(s, w, c), w, d),
        forall|t: Seq<char>| #[trigger]
            task_queued(s, w, t) ==> task_queued(state::queue_group(s, w, c), w, t),
{
    let after = state::queue_group(s, w, c);
    if w.cgroups.contains_key(c) {
        let item = ItemView {
            vruntime: w.cgroups[c].vruntime,
            seq: state::next_seq(s.cg_seq),
            id: c,
        };
        queue::with_item_contains(s.cg_heap, item);
        assert(after.cg_heap.contains(item));
        assert(state::group_entry_valid(after, w, item));
        assert forall|d: Seq<char>| #[trigger] group_queued(s, w, d) implies group_queued(
            after,
            w,
            d,
        ) by {
            let e = choose|e: ItemView| #[trigger]
                s.cg_heap.contains(e) && e.id == d && state::group_entry_valid(s, w, e);
            assert(after.cg_heap.contains(e));
            assert(state::group_entry_valid(after, w, e));
        }
        assert forall|t: Seq<char>| #[trigger] task_queued(s, w, t) implies task_queued(
            after,
            w,
            t,
        ) by {
            let g = w.tasks[t].group();
            let e = choose|e: ItemView| #[trigger]
                state::queue_of(s, g).contains(e) && e.id == t && state::task_entry_valid(
                    w,
                    s.task_last_key,
                    e,
                );
            assert(state::queue_of(after, g).contains(e));
        }
    }
}

/// Queueing a task keeps what is queued, and makes the task ready if it can run.
proof fn task_push_keeps(s: SchedulerView, w: WorldView, t: Seq<char>)
    ensures
        tick::runnable(w, t) ==> ready(state::queue_task(s, w, t), w, t),
        forall|d: Seq<char>| #[trigger]
            group_queued(s, w, d) ==> group_queued(state::queue_task(s, w, t), w, d),
        forall|u: Seq<char>| #[trigger]
            task_queued(s, w, u) ==> task_queued(state::queue_task(s, w, t), w, u),
{
    let after = state::queue_task(s, w, t);
    if tick::runnable(w, t) {
        let vruntime = w.tasks[t].vruntime;
        let c = w.tasks[t].group();
        let seq = state::next_seq(s.task_seq);
        let item = ItemView { vruntime, seq, id: t };
        let queued = SchedulerView {
            task_seq: seq,
            rq: s.rq.insert(c, queue::with_item(state::queue_of(s, c), item)),
            task_last_key: s.task_last_key.insert(t, vruntime),
            ..s
        };
        queue::with_item_contains(state::queue_of(s, c), item);
        group_push_keeps(queued, w, c);
        assert(state::queue_of(queued, c).contains(item));
        assert(state::task_entry_valid(w, queued.task_last_key, item));
        assert(task_queued(queued, w, t));
        assert forall|u: Seq<char>| #[trigger] task_queued(s, w, u) implies task_queued(
            after,
            w,
            u,
        ) by {
            let g = w.tasks[u].group();
            let e = choose|e: ItemView| #[trigger]
                state::queue_of(s, g).contains(e) && e.id == u && state::task_entry_valid(
                    w,
                    s.task_last_key,
                    e,
                );
            assert(state::queue_of(queued, g).contains(e));
            assert(state::task_entry_valid(w, queued.task_last_key, e));
            assert(task_queued(queued, w, u));
        }
        assert forall|d: Seq<char>| #[trigger] group_queued(s, w, d) implies group_queued(
            after,
            w,
            d,
        ) by {
            let e = choose|e: ItemView| #[trigger]
                s.cg_heap.contains(e) && e.id == d && state::group_entry_valid(s, w, e);
            assert(queued.cg_heap.contains(e));
            assert(state::group_entry_valid(queued, w, e));
            assert(group_queued(queued, w, d));
        }
    }
}

/// Queueing a task keeps what is ready, and makes the task ready if it can run.
proof fn task_push_keeps_ready(s: SchedulerView, w: WorldView, t: Seq<char>, out: Set<Seq<char>>)
    requires
        all_ready_but(s, w, out),
    ensures
        all_ready_but(state::queue_task(s, w, t), w, out.remove(t)),
{
    task_push_keeps(s, w, t);
    let after = state::queue_task(s, w, t);
    assert forall|u: Seq<char>| #[trigger]
        tick::runnable(w, u) && u != IDLE@ && !out.remove(t).contains(u) implies ready(
        after,
        w,
        u,
    ) by {
        if u != t {
            assert(ready(s, w, u));
        }
    }
}

/// A change to task `t` leaves the other tasks ready.
proof fn task_change_keeps(s: SchedulerView, w: WorldView, t: Seq<char>, task: TaskView)
    requires
        all_ready_but(s, w, Set::empty()),
    ensures
        all_ready_but(s, w.with_task(t, task), set![t]),
{
    let after = w.with_task(t, task);
    assert forall|u: Seq<char>| #[trigger]
        tick::runnable(after, u) && u != IDLE@ && !set![t].contains(u) implies ready(
        s,
        after,
        u,
    ) by {
        assert(tick::runnable(w, u));
        other_world_same_task(s, w, after, u);
    }
}

/// Whether a task is ready depends on that task and its group only.
proof fn other_world_same_task(s: SchedulerView, w: WorldView, v: WorldView, t: Seq<char>)
    requires
        ready(s, w, t),
        v.tasks.contains_key(t),
        v.tasks[t].group() == w.tasks[t].group(),
        v.tasks[t].state == w.tasks[t].state,
        v.tasks[t].vruntime == w.tasks[t].vruntime,
        ({
            let g = w.tasks[t].group();
            v.cgroups.contains_key(g) ==> w.cgroups.contains_key(g) && v.cgroups[g].vruntime
                == w.cgroups[g].vruntime
        }),
    ensures
        ready(s, v, t),
{
    let g = w.tasks[t].group();
    let e = choose|e: ItemView| #[trigger]
        state::queue_of(s, g).contains(e) && e.id == t && state::task_entry_valid(
            w,
            s.task_last_key,
            e,
        );
    assert(state::task_entry_valid(v, s.task_last_key, e));
    assert(state::queue_of(s, v.tasks[t].group()).contains(e));
    if v.cgroups.contains_key(g) {
        let d = choose|d: ItemView| #[trigger]
            s.cg_heap.contains(d) && d.id == g && state::group_entry_valid(s, w, d);
        assert(state::group_entry_valid(s, v, d));
    }
}

/// A change to group `c` that is followed by queueing it keeps what is ready.
proof fn group_change_keeps(s: SchedulerView, w: WorldView, c: Seq<char>, group: CgroupView)
    requires
        all_ready_but(s, w, Set::empty()),
    ensures
        all_ready_but(
            state::queue_group(s, w.with_cgroup(c, group), c),
            w.with_cgroup(c, group),
            Set::empty(),
        ),
{
    let v = w.with_cgroup(c, group);
    let after = state::queue_group(s, v, c);
    group_push_keeps(s, v, c);
    assert forall|t: Seq<char>| #[trigger]
        tick::runnable(v, t) && t != IDLE@ && !Set::<Seq<char>>::empty().contains(t) implies ready(
        after,
        v,
        t,
    ) by {
        assert(tick::runnable(w, t));
        assert(ready(s, w, t));
        let g = w.tasks[t].group();
        if g == c {
            let e = choose|e: ItemView| #[trigger]
                state::queue_of(s, g).contains(e) && e.id == t && state::task_entry_valid(
                    w,
                    s.task_last_key,
                    e,
                );
            assert(state::queue_of(after, v.tasks[t].group()).contains(e));
            assert(state::task_entry_valid(v, after.task_last_key, e));
        } else {
            other_world_same_task(s, w, v, t);
            assert(ready(s, v, t));
        }
    }
}

/// An event takes a runnable task out of reach. Deleting a group does so to its tasks, which
/// belong to the root group then and are still queued in the old one. A modification that is
/// refused creates a missing group and leaves it out of the queue.
pub open spec fn strands(w: WorldView, e: EventView) -> bool {
    match e {
        EventView::CgroupDelete { id } => id != ROOT_CGROUP@ && exists|t: Seq<char>| #[trigger]
            tick::runnable(w, t) && w.tasks[t].cgroup == Some(id),
        EventView::CgroupModify { id, shares, mask: Err(_) } => !w.cgroups.contains_key(id)
            && exists|t: Seq<char>| #[trigger]
            tick::runnable(w, t) && w.tasks[t].group() == id,
        _ => false,
    }
}

/// Every event leaves every runnable task ready, but for those that take one out of reach.
pub proof fn events_keep_ready(b: Both, e: EventView)
    requires
        all_ready(b),
        !strands(b.world, e),
    ensures
        all_ready(tick::perform(b, e)),
{
    let s = b.sched;
    let w = b.world;
    let after = tick::perform(b, e);
    let none = Set::<Seq<char>>::empty();
    match e {
        EventView::TaskCreate { id, .. }
        | EventView::TaskUnblock { id }
        | EventView::TaskYield { id }
        | EventView::TaskSetNice { id, .. }
        | EventView::TaskSetAffinity { id, .. }
        | EventView::TaskMoveCgroup { id, .. }
        | EventView::CpuBurst { id } => {
            let v = after.world;
            if v.tasks.contains_key(id) {
                task_change_keeps(s, w, id, v.tasks[id]);
                assert(v == w.with_task(id, v.tasks[id]));
                task_push_keeps_ready(s, v, id, set![id]);
                assert(set![id].remove(id) =~= none);
            }
        },
        EventView::TaskExit { id } | EventView::TaskBlock { id } => {
            let v = after.world;
            if v.tasks.contains_key(id) {
                task_change_keeps(s, w, id, v.tasks[id]);
                assert(v == w.with_task(id, v.tasks[id]));
            }
        },
        EventView::CgroupCreate { id, .. } => {
            group_change_keeps(s, w, id, after.world.cgroups[id]);
        },
        EventView::CgroupModify { id, mask, .. } => {
            let v = after.world;
            if mask is Ok {
                group_change_keeps(s, w, id, v.cgroups[id]);
            } else {
                assert forall|t: Seq<char>| #[trigger]
                    tick::runnable(v, t) && t != IDLE@ && !none.contains(t) implies ready(
                    s,
                    v,
                    t,
                ) by {
                    assert(tick::runnable(w, t));
                    other_world_same_task(s, w, v, t);
                }
            }
        },
        EventView::CgroupDelete { id } => {
            let v = after.world;
            assert forall|t: Seq<char>| #[trigger]
                tick::runnable(v, t) && t != IDLE@ && !none.contains(t) implies ready(s, v, t) by {
                assert(w.tasks.contains_key(t));
                assert(tick::runnable(w, t));
                other_world_same_task(s, w, v, t);
            }
        },
        EventView::Ignored => {},
    }
}

/// The root group comes into being without being queued: that keeps what is ready, unless a
/// runnable task waits in it.
pub proof fn root_keeps_ready(b: Both)
    requires
        all_ready(b),
        b.world.cgroups.contains_key(ROOT_CGROUP@) || !exists|t: Seq<char>| #[trigger]
            tick::runnable(b.world, t) && b.world.tasks[t].group() == ROOT_CGROUP@,
    ensures
        all_ready(Both { world: state::with_root(b.world), ..b }),
{
    let w = b.world;
    let v = state::with_root(w);
    assert forall|t: Seq<char>| #[trigger]
        tick::runnable(v, t) && t != IDLE@ && !Set::<Seq<char>>::empty().contains(t) implies ready(
        b.sched,
        v,
        t,
    ) by {
        assert(tick::runnable(w, t));
        other_world_same_task(b.sched, w, v, t);
    }
}

/// Searching a queue for a task loses no valid entry but that of the task it gives out.
proof fn search_keeps(
    items: Seq<ItemView>,
    w: WorldView,
    task_last_key: Map<Seq<char>, i64>,
    cpu: usize,
    chosen: Set<Seq<char>>,
    e: ItemView,
)
    requires
        items.contains(e),
        state::task_entry_valid(w, task_last_key, e),
        state::task_from(items, w, task_last_key, cpu, chosen) != Some(e.id),
    ensures
        state::left_after(items, w, task_last_key, cpu, chosen).contains(e),
{
    let fits = state::fitting_tasks(w, task_last_key, cpu, chosen);
    let valid = state::valid_tasks(w, task_last_key);
    let k = state::first_where(items, fits);
    let left = state::left_after(items, w, task_last_key, cpu, chosen);
    search::first_where_properties(items, fits);
    let i = items.index_of(e);
    if k < items.len() {
        let front = items.take(k);
        search::filter_contains(front, valid);
        if i < k {
            assert(front[i] == e);
            assert(front.filter(valid).contains(e));
            assert(left[front.filter(valid).index_of(e)] == e);
        } else {
            assert(i != k);
            assert(left[front.filter(valid).len() + i - (k + 1)] == e);
        }
    } else {
        search::filter_contains(items, valid);
    }
}

/// If a group entry offers nothing, searching the queue of its group loses no valid entry.
pub proof fn pick_keeps_entry(
    s: SchedulerView,
    w: WorldView,
    cpu: usize,
    chosen: Set<Seq<char>>,
    c: Seq<char>,
    e: ItemView,
)
    requires
        state::queue_of(s, c).contains(e),
        state::task_entry_valid(w, s.task_last_key, e),
        state::pick(s, w, cpu, chosen).task != Some(e.id),
    ensures
        state::queue_of(state::pick(s, w, cpu, chosen).sched, c).contains(e),
{
    let offers = state::offering_groups(s, w, cpu, chosen);
    let k = state::group_position(s, w, cpu, chosen);
    let n = if k < s.cg_heap.len() {
        k + 1
    } else {
        k
    };
    let after = state::pick(s, w, cpu, chosen).sched;
    search::first_where_properties(s.cg_heap, offers);
    assert(s.rq.contains_key(c));
    assert(after.rq.contains_key(c));
    if state::searched_among(s, w, cpu, n, c) {
        let i = choose|i: int|
            0 <= i < n && (#[trigger] s.cg_heap[i]).id == c && state::group_entry_searched(
                s,
                w,
                cpu,
                s.cg_heap[i],
            );
        if i < k {
            assert(!offers(s.cg_heap[i]));
        }
        search_keeps(s.rq[c], w, s.task_last_key, cpu, chosen, e);
    }
}

/// Looking for a task keeps the valid group entries.
pub proof fn pick_keeps_group(
    s: SchedulerView,
    w: WorldView,
    cpu: usize,
    chosen: Set<Seq<char>>,
    e: ItemView,
)
    requires
        s.cg_heap.contains(e),
        state::group_entry_valid(s, w, e),
    ensures
        state::pick(s, w, cpu, chosen).sched.cg_heap.contains(e),
{
    let k = state::group_position(s, w, cpu, chosen);
    search::first_where_properties(s.cg_heap, state::offering_groups(s, w, cpu, chosen));
    let n = if k < s.cg_heap.len() {
        k + 1
    } else {
        k
    };
    let valid = state::valid_groups(s, w);
    let front = s.cg_heap.take(n);
    let after = state::pick(s, w, cpu, chosen).sched.cg_heap;
    search::filter_contains(front, valid);
    let i = s.cg_heap.index_of(e);
    if i < n {
        assert(front[i] == e);
        assert(front.filter(valid).contains(e));
        assert(after[front.filter(valid).index_of(e)] == e);
    } else {
        assert(after[front.filter(valid).len() + i - n] == e);
    }
}

/// Looking for a task leaves every task ready, but for the one that it finds.
proof fn pick_keeps_ready(
    s: SchedulerView,
    w: WorldView,
    cpu: usize,
    chosen: Set<Seq<char>>,
    out: Set<Seq<char>>,
)
    requires
        all_ready_but(s, w, out),
        state::pick(s, w, cpu, chosen).task matches Some(t) ==> out.contains(t),
    ensures
        all_ready_but(state::pick(s, w, cpu, chosen).sched, w, out),
{
    let after = state::pick(s, w, cpu, chosen).sched;
    assert forall|t: Seq<char>| #[trigger]
        tick::runnable(w, t) && t != IDLE@ && !out.contains(t) implies ready(after, w, t) by {
        let g = w.tasks[t].group();
        assert(ready(s, w, t));
        let e = choose|e: ItemView| #[trigger]
            state::queue_of(s, g).contains(e) && e.id == t && state::task_entry_valid(
                w,
                s.task_last_key,
                e,
            );
        pick_keeps_entry(s, w, cpu, chosen, g, e);
        assert(state::task_entry_valid(w, after.task_last_key, e));
        if w.cgroups.contains_key(g) {
            let d = choose|d: ItemView| #[trigger]
                s.cg_heap.contains(d) && d.id == g && state::group_entry_valid(s, w, d);
            pick_keeps_group(s, w, cpu, chosen, d);
            assert(state::group_entry_valid(after, w, d));
        }
    }
}

/// Looking for a task for each CPU leaves every task ready, but for those that are chosen.
pub proof fn picks_keep_ready(s: SchedulerView, w: WorldView, n: nat)
    requires
        all_ready_but(s, w, Set::empty()),
    ensures
        all_ready_but(
            state::pick_all(s, w, n).sched,
            w,
            state::chosen_in(state::pick_all(s, w, n).picks),
        ),
    decreases n,
{
    let picks = state::pick_all(s, w, n).picks;
    let out = state::chosen_in(picks);
    if n == 0 {
        assert(out =~= Set::empty());
    } else {
        let m = (n - 1) as nat;
        let before = state::pick_all(s, w, m);
        let last = state::pick(before.sched, w, m as usize, state::chosen_in(before.picks));
        picks_keep_ready(s, w, m);
        assert(picks == before.picks.push(last.task));
        assert forall|t: Seq<char>| state::chosen_in(before.picks).contains(t) implies out.contains(
            t,
        ) by {
            assert(picks[before.picks.index_of(Some(t))] == Some(t));
        }
        assert(picks[before.picks.len() as int] == last.task);
        assert(all_ready_but(before.sched, w, out));
        pick_keeps_ready(before.sched, w, m as usize, state::chosen_in(before.picks), out);
    }
}

/// Charging a task makes it ready again if it can run, and keeps the others ready.
proof fn charge_keeps_ready(b: Both, t: Seq<char>, out: Set<Seq<char>>)
    requires
        all_ready_but(b.sched, b.world, out),
        b.world.tasks.contains_key(t),
    ensures
        all_ready_but(state::charge(b, t).sched, state::charge(b, t).world, out.remove(t)),
{
    let c = b.world.tasks[t].group();
    let b2 = state::charge_group(state::charge_task(b, t), c);
    let s2 = b2.sched;
    let w2 = b2.world;
    let s3 = state::queue_task(s2, w2, t);
    let after = state::charge(b, t);
    task_push_keeps(s2, w2, t);
    group_push_keeps(s3, w2, c);
    assert forall|u: Seq<char>| #[trigger]
        tick::runnable(w2, u) && u != IDLE@ && !out.remove(t).contains(u) implies ready(
        after.sched,
        w2,
        u,
    ) by {
        if u != t {
            let g = w2.tasks[u].group();
            assert(tick::runnable(b.world, u));
            assert(ready(b.sched, b.world, u));
            let e = choose|e: ItemView| #[trigger]
                state::queue_of(b.sched, g).contains(e) && e.id == u && state::task_entry_valid(
                    b.world,
                    b.sched.task_last_key,
                    e,
                );
            assert(state::queue_of(s2, g).contains(e));
            assert(state::task_entry_valid(w2, s2.task_last_key, e));
            assert(task_queued(s2, w2, u));
            if w2.cgroups.contains_key(g) && g != c {
                let d = choose|d: ItemView| #[trigger]
                    b.sched.cg_heap.contains(d) && d.id == g && state::group_entry_valid(
                        b.sched,
                        b.world,
                        d,
                    );
                assert(s2.cg_heap.contains(d));
                assert(state::group_entry_valid(s2, w2, d));
                assert(group_queued(s2, w2, g));
            }
        }
    }
}

/// Charging the tasks of the first `n` seats makes them ready again.
proof fn charges_keep_ready(
    b: Both,
    seats: Seq<Option<Seq<char>>>,
    n: nat,
    out: Set<Seq<char>>,
)
    requires
        all_ready_but(b.sched, b.world, out),
        n <= seats.len(),
        forall|cpu: int|
            0 <= cpu < n ==> (#[trigger] seats[cpu] matches Some(t) ==> b.world.tasks.contains_key(
                t,
            )),
    ensures
        state::charge_all(b, seats, n).world.tasks.dom() == b.world.tasks.dom(),
        all_ready_but(
            state::charge_all(b, seats, n).sched,
            state::charge_all(b, seats, n).world,
            out.difference(state::chosen_in(seats.take(n as int))),
        ),
    decreases n,
{
    let left = out.difference(state::chosen_in(seats.take(n as int)));
    if n == 0 {
        assert(left =~= out);
    } else {
        let m = (n - 1) as nat;
        let before = state::charge_all(b, seats, m);
        let now = seats.take(n as int);
        let earlier = seats.take(m as int);
        let left_before = out.difference(state::chosen_in(earlier));
        charges_keep_ready(b, seats, m, out);
        assert(now =~= earlier.push(seats[n - 1]));
        match seats[n - 1] {
            Some(t) => {
                charge_keeps_ready(before, t, left_before);
                assert(state::charge(before, t).world.tasks.dom() =~= before.world.tasks.dom());
                assert forall|u: Seq<char>| left_before.remove(t).contains(u) implies left.contains(
                    u,
                ) by {
                    if now.contains(Some(u)) {
                        assert(earlier[now.index_of(Some(u))] == Some(u));
                    }
                }
            },
            None => {
                assert forall|u: Seq<char>| left_before.contains(u) implies left.contains(u) by {
                    if now.contains(Some(u)) {
                        assert(earlier[now.index_of(Some(u))] == Some(u));
                    }
                }
            },
        }
    }
}

/// Giving the CPUs their tasks leaves every runnable task ready.
pub proof fn dispatch_keeps_ready(b: Both)
    requires
        all_ready(b),
    ensures
        all_ready(
            Both {
                sched: state::dispatch(b.sched, b.world).sched,
                world: state::dispatch(b.sched, b.world).world,
            },
        ),
{
    let n = b.sched.cpus as nat;
    let w = b.world;
    let picked = state::pick_all(b.sched, w, n);
    let seats = state::seats_of(state::names_of(picked.picks));
    let v = state::placed(w, seats);
    let out = state::chosen_in(picked.picks);
    let start = Both { sched: picked.sched, world: v };
    let after = state::charge_all(start, seats, n);
    laws::picking_keeps(b.sched, w, n);
    laws::picked_tasks_fit(b.sched, w, n);
    picks_keep_ready(b.sched, w, n);
    assert forall|t: Seq<char>| #[trigger]
        tick::runnable(v, t) && t != IDLE@ && !out.contains(t) implies ready(
        picked.sched,
        v,
        t,
    ) by {
        assert(tick::runnable(w, t));
        other_world_same_task(picked.sched, w, v, t);
    }
    assert forall|cpu: int| 0 <= cpu < n implies (#[trigger] seats[cpu] matches Some(t)
        ==> v.tasks.contains_key(t)) by {
        assert(picked.picks[cpu] is Some || seats[cpu] is None);
    }
    charges_keep_ready(start, seats, n, out);
    assert(seats.take(n as int) =~= seats);
    assert forall|t: Seq<char>| #[trigger]
        tick::runnable(after.world, t) && t != IDLE@ implies ready(
        after.sched,
        after.world,
        t,
    ) by {
        if out.contains(t) {
            assert(seats[picked.picks.index_of(Some(t))] == Some(t));
        }
    }
}

/// No event of a tick takes a runnable task out of reach.
pub open spec fn strands_nothing(b: Both, events: Seq<Result<EventView, EventError>>) -> bool {
    forall|i: int|
        0 <= i < events.len() ==> (#[trigger] events[i] matches Ok(e) ==> !strands(
            tick::run(b, events.take(i)).both.world,
            e,
        ))
}

/// Running events leaves every runnable task ready, if none of them takes one out of reach.
pub proof fn run_keeps_ready(b: Both, events: Seq<Result<EventView, EventError>>)
    requires
        all_ready(b),
        strands_nothing(b, events),
    ensures
        all_ready(tick::run(b, events).both),
    decreases events.len(),
{
    if events.len() > 0 {
        let front = events.drop_last();
        assert(events.take(events.len() - 1) =~= front);
        assert forall|i: int| 0 <= i < front.len() implies (#[trigger] front[i] matches Ok(e)
            ==> !strands(tick::run(b, front.take(i)).both.world, e)) by {
            assert(front.take(i) =~= events.take(i));
            assert(events[i] == front[i]);
        }
        run_keeps_ready(b, front);
        let before = tick::run(b, front);
        if before.refused is None {
            match events[events.len() - 1] {
                Ok(e) => {
                    events_keep_ready(before.both, e);
                },
                Err(_) => {},
            }
        }
    }
}

} // verus!
