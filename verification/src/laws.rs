//! What holds of every scheduler and every world.

use vstd::prelude::*;

use crate::accounting;
use crate::event::{EventError, EventView};
use crate::homes;
use crate::idmap;
use crate::model;
use crate::model::{TaskState, TaskView, WorldView, ROOT_CGROUP};
use crate::placing;
use crate::queue;
use crate::queue::ItemView;
use crate::ready;
use crate::search;
use crate::state;
use crate::state::{Both, SchedulerView, IDLE};
use crate::tick;

verus! {

/// A task is given to a CPU only if it exists, can run, may run on that CPU, and was not chosen
/// already.
pub proof fn picked_task_fits(s: SchedulerView, w: WorldView, cpu: usize, chosen: Set<Seq<char>>)
    ensures
        state::pick(s, w, cpu, chosen).task matches Some(t) ==> {
            &&& w.tasks.contains_key(t)
            &&& w.tasks[t].state == TaskState::Runnable
            &&& model::mask_allows(w.tasks[t].affinity_mask, cpu)
            &&& !chosen.contains(t)
        },
{
    let k = state::group_position(s, w, cpu, chosen);
    search::first_where_properties(s.cg_heap, state::offering_groups(s, w, cpu, chosen));
    if k < s.cg_heap.len() {
        let items = s.rq[s.cg_heap[k].id];
        search::first_where_properties(
            items,
            state::fitting_tasks(w, s.task_last_key, cpu, chosen),
        );
    }
}

/// Looking for tasks changes neither the number of CPUs, the quantum, the sequence numbers, nor
/// what is remembered of virtual runtimes.
pub proof fn picking_keeps(s: SchedulerView, w: WorldView, n: nat)
    ensures
        state::pick_all(s, w, n).picks.len() == n,
        state::pick_all(s, w, n).sched == (SchedulerView {
            cg_heap: state::pick_all(s, w, n).sched.cg_heap,
            rq: state::pick_all(s, w, n).sched.rq,
            ..s
        }),
    decreases n,
{
    if n > 0 {
        picking_keeps(s, w, (n - 1) as nat);
    }
}

/// Whatever is given to the CPUs in one tick fits: each task exists, can run, and may run on the
/// CPU that it is given to.
pub proof fn picked_tasks_fit(s: SchedulerView, w: WorldView, n: nat)
    requires
        n <= usize::MAX,
    ensures
        ({
            let picks = state::pick_all(s, w, n).picks;
            forall|cpu: int|
                0 <= cpu < n ==> (#[trigger] picks[cpu] matches Some(t) ==> {
                    &&& w.tasks.contains_key(t)
                    &&& w.tasks[t].state == TaskState::Runnable
                    &&& model::mask_allows(w.tasks[t].affinity_mask, cpu as usize)
                })
        }),
    decreases n,
{
    if n > 0 {
        let m = (n - 1) as nat;
        picked_tasks_fit(s, w, m);
        picking_keeps(s, w, m);
        let before = state::pick_all(s, w, m);
        picked_task_fits(before.sched, w, m as usize, state::chosen_in(before.picks));
    }
}

/// No task is given to two CPUs in one tick.
pub proof fn picked_tasks_distinct(s: SchedulerView, w: WorldView, n: nat)
    ensures
        state::no_repeats(state::pick_all(s, w, n).picks),
    decreases n,
{
    if n > 0 {
        let m = (n - 1) as nat;
        picked_tasks_distinct(s, w, m);
        picking_keeps(s, w, m);
        let before = state::pick_all(s, w, m);
        picked_task_fits(before.sched, w, m as usize, state::chosen_in(before.picks));
        let picks = state::pick_all(s, w, n).picks;
        assert forall|i: int, j: int| 0 <= i < j < picks.len() && picks[i] is Some implies
            #[trigger] picks[i] != #[trigger] picks[j] by {
            if j == m {
                assert(before.picks.contains(picks[i]));
                if picks[j] == picks[i] {
                    assert(state::chosen_in(before.picks).contains(picks[i]->0));
                }
            }
        }
    }
}

/// The schedule of a tick names one task or idle CPU for each CPU. The world remembers it. There
/// are at most as many preemptions and migrations as CPUs.
pub proof fn schedule_covers_cpus(s: SchedulerView, w: WorldView)
    ensures
        ({
            let d = state::dispatch(s, w);
            &&& d.schedule.len() == s.cpus
            &&& d.world.last_schedule == state::seats_of(d.schedule)
            &&& d.preemptions <= s.cpus
            &&& d.migrations <= s.cpus
        }),
{
    let n = s.cpus as nat;
    let picked = state::pick_all(s, w, n);
    let seats = state::seats_of(state::names_of(picked.picks));
    picking_keeps(s, w, n);
    placing::count_at_most(n, state::preempted(w, seats));
    placing::count_at_most(n, state::migrated(w, seats));
    charging_keeps_schedule(Both { sched: picked.sched, world: state::placed(w, seats) }, seats, n);
}

/// Charging does not change what is remembered of the schedule.
proof fn charging_keeps_schedule(b: Both, seats: Seq<Option<Seq<char>>>, n: nat)
    ensures
        state::charge_all(b, seats, n).world.last_schedule == b.world.last_schedule,
    decreases n,
{
    if n > 0 {
        charging_keeps_schedule(b, seats, (n - 1) as nat);
    }
}

/// A task that is scheduled exists, can run, and may run on the CPU that it is scheduled on.
pub proof fn scheduled_tasks_fit(s: SchedulerView, w: WorldView, cpu: int)
    requires
        0 <= cpu < s.cpus,
    ensures
        state::seat_of(state::dispatch(s, w).schedule[cpu]) matches Some(t) ==> {
            &&& tick::runnable(w, t)
            &&& model::mask_allows(w.tasks[t].affinity_mask, cpu as usize)
        },
{
    picking_keeps(s, w, s.cpus as nat);
    picked_tasks_fit(s, w, s.cpus as nat);
    let picks = state::pick_all(s, w, s.cpus as nat).picks;
    assert(picks[cpu] is Some || state::names_of(picks)[cpu] == IDLE@);
}

/// A CPU that no mask covers is idle.
pub proof fn uncovered_cpus_are_idle(s: SchedulerView, w: WorldView, cpu: int)
    requires
        64 <= cpu < s.cpus,
    ensures
        state::dispatch(s, w).schedule[cpu] == IDLE@,
{
    scheduled_tasks_fit(s, w, cpu);
}

/// No task is scheduled on two CPUs in one tick.
pub proof fn no_task_runs_twice(s: SchedulerView, w: WorldView)
    ensures
        state::no_repeats(state::seats_of(state::dispatch(s, w).schedule)),
{
    let n = s.cpus as nat;
    picked_tasks_distinct(s, w, n);
    placing::seats_distinct(state::pick_all(s, w, n).picks);
}

/// A task was not given to one of the first `n` CPUs.
pub open spec fn passed_over(s: SchedulerView, w: WorldView, n: nat, t: Seq<char>) -> bool {
    !state::pick_all(s, w, n).picks.contains(Some(t))
}

/// `cpu` is open to task `t`: the task may run there, its group exists, and so may the group.
pub open spec fn open_to(w: WorldView, cpu: usize, t: Seq<char>) -> bool {
    &&& model::mask_allows(w.tasks[t].affinity_mask, cpu)
    &&& w.cgroups.contains_key(w.tasks[t].group())
    &&& model::mask_allows(w.cgroups[w.tasks[t].group()].cpu_mask, cpu)
}

/// If nothing is found for a CPU, it is closed to every task that is ready and not yet chosen.
pub proof fn nothing_found_means_closed(
    s: SchedulerView,
    w: WorldView,
    cpu: usize,
    chosen: Set<Seq<char>>,
    t: Seq<char>,
)
    requires
        ready::ready(s, w, t),
        tick::runnable(w, t),
        !chosen.contains(t),
        state::pick(s, w, cpu, chosen).task is None,
    ensures
        !open_to(w, cpu, t),
{
    let offers = state::offering_groups(s, w, cpu, chosen);
    let fits = state::fitting_tasks(w, s.task_last_key, cpu, chosen);
    let g = w.tasks[t].group();
    let k = state::group_position(s, w, cpu, chosen);
    search::first_where_properties(s.cg_heap, offers);
    if k < s.cg_heap.len() {
        assert(offers(s.cg_heap[k]));
    }
    if open_to(w, cpu, t) {
        let e = choose|e: ItemView| #[trigger]
            state::queue_of(s, g).contains(e) && e.id == t && state::task_entry_valid(
                w,
                s.task_last_key,
                e,
            );
        let d = choose|d: ItemView| #[trigger]
            s.cg_heap.contains(d) && d.id == g && state::group_entry_valid(s, w, d);
        let i = s.cg_heap.index_of(d);
        let items = s.rq[g];
        let j = items.index_of(e);
        assert(fits(items[j]));
        search::first_where_properties(items, fits);
        assert(!offers(s.cg_heap[i]));
    }
}

/// A CPU goes without a task only if it is closed to every runnable task that no earlier CPU got.
/// This holds while every runnable task is ready, of all but a task with the name of an idle CPU.
pub proof fn no_cpu_is_left_without_cause(b: Both, cpu: nat, t: Seq<char>)
    requires
        ready::all_ready(b),
        cpu < b.sched.cpus,
        tick::runnable(b.world, t),
        t != IDLE@,
        passed_over(b.sched, b.world, cpu, t),
        state::pick_all(b.sched, b.world, b.sched.cpus as nat).picks[cpu as int] is None,
    ensures
        !open_to(b.world, cpu as usize, t),
{
    let s = b.sched;
    let w = b.world;
    let before = state::pick_all(s, w, cpu);
    let chosen = state::chosen_in(before.picks);
    ready::picks_keep_ready(s, w, cpu);
    later_picks_keep(s, w, cpu, s.cpus as nat);
    picking_keeps(s, w, cpu);
    assert(!chosen.contains(t));
    assert(ready::ready(before.sched, w, t));
    assert(state::pick_all(s, w, cpu + 1).picks[cpu as int] is None);
    nothing_found_means_closed(before.sched, w, cpu as usize, chosen, t);
}

/// What a CPU gets does not depend on the CPUs after it.
pub proof fn later_picks_keep(s: SchedulerView, w: WorldView, cpu: nat, n: nat)
    requires
        cpu < n,
    ensures
        state::pick_all(s, w, n).picks[cpu as int] == state::pick_all(s, w, cpu + 1).picks[cpu as int],
    decreases n,
{
    if cpu + 1 < n {
        later_picks_keep(s, w, cpu, (n - 1) as nat);
        picking_keeps(s, w, (n - 1) as nat);
    }
}

/// A CPU that the schedule calls idle is closed to every runnable task that the schedule does not
/// name. This holds while every runnable task is ready and none bears the name of an idle CPU.
pub proof fn idle_cpus_are_closed(b: Both, cpu: nat, t: Seq<char>)
    requires
        ready::all_ready(b),
        !tick::runnable(b.world, IDLE@),
        cpu < b.sched.cpus,
        tick::runnable(b.world, t),
        state::dispatch(b.sched, b.world).schedule[cpu as int] == IDLE@,
        !state::dispatch(b.sched, b.world).schedule.contains(t),
    ensures
        !open_to(b.world, cpu as usize, t),
{
    let s = b.sched;
    let w = b.world;
    let n = s.cpus as nat;
    let picks = state::pick_all(s, w, n).picks;
    let early = state::pick_all(s, w, cpu).picks;
    picking_keeps(s, w, n);
    picking_keeps(s, w, cpu);
    picked_tasks_fit(s, w, n);
    if let Some(u) = picks[cpu as int] {
        assert(state::names_of(picks)[cpu as int] == u);
    }
    if early.contains(Some(t)) {
        let i = early.index_of(Some(t));
        later_picks_keep(s, w, i as nat, n);
        later_picks_keep(s, w, i as nat, cpu);
        assert(state::names_of(picks)[i] == t);
    }
    no_cpu_is_left_without_cause(b, cpu, t);
}

/// Looking for a task keeps the queues in order.
pub proof fn picking_keeps_order(s: SchedulerView, w: WorldView, n: nat)
    requires
        s.in_order(),
    ensures
        state::pick_all(s, w, n).sched.in_order(),
    decreases n,
{
    if n > 0 {
        let m = (n - 1) as nat;
        picking_keeps_order(s, w, m);
        let before = state::pick_all(s, w, m);
        pick_keeps_order(before.sched, w, m as usize, state::chosen_in(before.picks));
    }
}

/// Looking for a task for one CPU keeps the queues in order.
proof fn pick_keeps_order(s: SchedulerView, w: WorldView, cpu: usize, chosen: Set<Seq<char>>)
    requires
        s.in_order(),
    ensures
        state::pick(s, w, cpu, chosen).sched.in_order(),
{
    let after = state::pick(s, w, cpu, chosen).sched;
    let k = state::group_position(s, w, cpu, chosen);
    let n = if k < s.cg_heap.len() {
        k + 1
    } else {
        k
    };
    search::first_where_properties(s.cg_heap, state::offering_groups(s, w, cpu, chosen));
    search::filtered_in_order(s.cg_heap, state::valid_groups(s, w), n, n);
    assert forall|c: Seq<char>| #[trigger] after.rq.contains_key(c) implies queue::in_order(
        after.rq[c],
    ) by {
        let items = s.rq[c];
        assert(s.rq.contains_key(c));
        let fits = state::fitting_tasks(w, s.task_last_key, cpu, chosen);
        let valid = state::valid_tasks(w, s.task_last_key);
        let f = state::first_where(items, fits);
        search::first_where_properties(items, fits);
        if f < items.len() {
            search::filtered_in_order(items, valid, f, f + 1);
        } else {
            search::filtered_in_order(items, valid, f, f);
            assert(items.take(f) =~= items);
            assert(items.filter(valid) + items.skip(f) =~= items.filter(valid));
        }
    }
}

/// Task `t` may be given to `cpu` out of the queue of group `g`: no ready task to which the CPU is
/// open and that is not yet chosen is in a group with a smaller virtual runtime, nor in this group
/// with a smaller virtual runtime of its own.
pub open spec fn fair_for(
    w: WorldView,
    cpu: usize,
    chosen: Set<Seq<char>>,
    t: Seq<char>,
    g: Seq<char>,
) -> bool {
    &&& w.cgroups.contains_key(g)
    &&& model::mask_allows(w.cgroups[g].cpu_mask, cpu)
    &&& forall|u: Seq<char>| #[trigger]
        tick::runnable(w, u) && u != IDLE@ && !chosen.contains(u) && open_to(w, cpu, u) ==> {
            let c = w.tasks[u].group();
            &&& w.cgroups[g].vruntime <= w.cgroups[c].vruntime
            &&& c == g ==> w.tasks[t].vruntime <= w.tasks[u].vruntime
        }
}

/// The queue of group `g` holds an entry for task `t`.
pub open spec fn queued_in(s: SchedulerView, t: Seq<char>, g: Seq<char>) -> bool {
    exists|e: ItemView| #[trigger] state::queue_of(s, g).contains(e) && e.id == t
}

/// What is found for a CPU stands in the queue of a group with the least virtual runtime, and has
/// the least virtual runtime there.
proof fn pick_is_fair(s: SchedulerView, w: WorldView, cpu: usize, chosen: Set<Seq<char>>)
    requires
        s.in_order(),
        ready::all_ready_but(s, w, chosen),
    ensures
        state::pick(s, w, cpu, chosen).task matches Some(t) ==> exists|g: Seq<char>| #[trigger]
            fair_for(w, cpu, chosen, t, g) && queued_in(s, t, g),
{
    let offers = state::offering_groups(s, w, cpu, chosen);
    let fits = state::fitting_tasks(w, s.task_last_key, cpu, chosen);
    let k = state::group_position(s, w, cpu, chosen);
    search::first_where_properties(s.cg_heap, offers);
    if let Some(t) = state::pick(s, w, cpu, chosen).task {
        let g = s.cg_heap[k].id;
        assert(offers(s.cg_heap[k]));
        let items = s.rq[g];
        let f = state::first_where(items, fits);
        search::first_where_properties(items, fits);
        assert(queue::in_order(items));
        assert forall|u: Seq<char>| #[trigger]
            tick::runnable(w, u) && u != IDLE@ && !chosen.contains(u) && open_to(w, cpu, u) implies {
            let c = w.tasks[u].group();
            &&& w.cgroups[g].vruntime <= w.cgroups[c].vruntime
            &&& c == g ==> w.tasks[t].vruntime <= w.tasks[u].vruntime
        } by {
            let c = w.tasks[u].group();
            assert(ready::ready(s, w, u));
            let e = choose|e: ItemView| #[trigger]
                state::queue_of(s, c).contains(e) && e.id == u && state::task_entry_valid(
                    w,
                    s.task_last_key,
                    e,
                );
            let d = choose|d: ItemView| #[trigger]
                s.cg_heap.contains(d) && d.id == c && state::group_entry_valid(s, w, d);
            let i = s.cg_heap.index_of(d);
            let queue = s.rq[c];
            let j = queue.index_of(e);
            assert(fits(queue[j]));
            search::first_where_properties(queue, fits);
            assert(offers(s.cg_heap[i]));
            assert(k <= i);
            if k < i {
                assert(queue::precedes_or_same(s.cg_heap[k], s.cg_heap[i]));
            }
            if c == g {
                assert(f <= j);
                if f < j {
                    assert(queue::precedes_or_same(items[f], items[j]));
                }
            }
        }
        assert(fair_for(w, cpu, chosen, t, g));
        assert(state::queue_of(s, g).contains(items[f]));
    }
}

/// A CPU gets a task with the least virtual runtime out of the queue of a group with the least,
/// among those that it is open to and that no earlier CPU got. This holds while every runnable task
/// is ready.
pub proof fn cpus_are_shared_fairly(b: Both, cpu: nat)
    requires
        b.sched.in_order(),
        ready::all_ready(b),
        cpu < b.sched.cpus,
    ensures
        state::pick_all(b.sched, b.world, b.sched.cpus as nat).picks[cpu as int] matches Some(t)
            ==> exists|g: Seq<char>| #[trigger]
            fair_for(
                b.world,
                cpu as usize,
                state::chosen_in(state::pick_all(b.sched, b.world, cpu).picks),
                t,
                g,
            ) && queued_in(state::pick_all(b.sched, b.world, cpu).sched, t, g),
{
    let s = b.sched;
    let w = b.world;
    let before = state::pick_all(s, w, cpu);
    ready::picks_keep_ready(s, w, cpu);
    picking_keeps_order(s, w, cpu);
    picking_keeps(s, w, cpu);
    later_picks_keep(s, w, cpu, s.cpus as nat);
    pick_is_fair(before.sched, w, cpu as usize, state::chosen_in(before.picks));
}

/// A CPU gets a task with the least virtual runtime in its group, and the group is one with the
/// least, among those that the CPU is open to and that no earlier CPU got. This holds while every
/// runnable task is ready and the queues hold tasks of their own group only.
pub proof fn own_groups_are_served_fairly(b: Both, cpu: nat)
    requires
        b.sched.in_order(),
        ready::all_ready(b),
        homes::at_home(b.sched, b.world),
        cpu < b.sched.cpus,
    ensures
        state::pick_all(b.sched, b.world, b.sched.cpus as nat).picks[cpu as int] matches Some(t)
            ==> fair_for(
            b.world,
            cpu as usize,
            state::chosen_in(state::pick_all(b.sched, b.world, cpu).picks),
            t,
            b.world.tasks[t].group(),
        ),
{
    let w = b.world;
    let before = state::pick_all(b.sched, w, cpu);
    cpus_are_shared_fairly(b, cpu);
    homes::picks_keep_homes(b.sched, w, cpu);
    if let Some(t) = state::pick_all(b.sched, w, b.sched.cpus as nat).picks[cpu as int] {
        let g = choose|g: Seq<char>| #[trigger]
            fair_for(w, cpu as usize, state::chosen_in(before.picks), t, g) && queued_in(
                before.sched,
                t,
                g,
            );
        let e = choose|e: ItemView| #[trigger]
            state::queue_of(before.sched, g).contains(e) && e.id == t;
        assert(w.tasks[e.id].group() == g);
    }
}

/// A task that runs gets ahead of a task that waits in the group that it was taken from, and that
/// could have run in its place, by at most what the quantum cost it.
pub proof fn runner_leads_by_a_quantum(b: Both, cpu: nat, t: Seq<char>, u: Seq<char>, g: Seq<char>)
    requires
        cpu < b.sched.cpus,
        t != IDLE@,
        state::pick_all(b.sched, b.world, b.sched.cpus as nat).picks[cpu as int] == Some(t),
        fair_for(
            b.world,
            cpu as usize,
            state::chosen_in(state::pick_all(b.sched, b.world, cpu).picks),
            t,
            g,
        ),
        tick::runnable(b.world, u),
        u != IDLE@,
        b.world.tasks[u].group() == g,
        open_to(b.world, cpu as usize, u),
        !state::dispatch(b.sched, b.world).schedule.contains(u),
    ensures
        ({
            let after = state::dispatch(b.sched, b.world).world.tasks;
            let cost = state::delta(b.sched.quanta, b.world.tasks[t].weight);
            after[t].vruntime <= state::saturating_sum(
                after[u].vruntime,
                if cost < 0 {
                    0
                } else {
                    cost
                },
            )
        }),
{
    let s = b.sched;
    let w = b.world;
    let n = s.cpus as nat;
    let picks = state::pick_all(s, w, n).picks;
    let early = state::pick_all(s, w, cpu).picks;
    let schedule = state::dispatch(s, w).schedule;
    let seats = state::seats_of(schedule);
    picking_keeps(s, w, n);
    picking_keeps(s, w, cpu);
    picked_tasks_fit(s, w, n);
    if early.contains(Some(u)) {
        let i = early.index_of(Some(u));
        later_picks_keep(s, w, i as nat, n);
        later_picks_keep(s, w, i as nat, cpu);
        assert(schedule[i] == u);
    }
    assert(!state::chosen_in(early).contains(u));
    assert(w.tasks[t].vruntime <= w.tasks[u].vruntime);
    assert(seats[cpu as int] == Some(t));
    if seats.contains(Some(u)) {
        assert(schedule[seats.index_of(Some(u))] == u);
    }
    accounting::running_tasks_are_charged(s, w, t);
    accounting::running_tasks_are_charged(s, w, u);
}

/// A task that runs gets ahead of a task of its own group that waits, and that could have run in
/// its place, by at most what the quantum cost it. This holds while every runnable task is ready
/// and the queues hold tasks of their own group only.
pub proof fn runner_leads_its_group_by_a_quantum(b: Both, cpu: nat, t: Seq<char>, u: Seq<char>)
    requires
        b.sched.in_order(),
        ready::all_ready(b),
        homes::at_home(b.sched, b.world),
        cpu < b.sched.cpus,
        t != IDLE@,
        state::dispatch(b.sched, b.world).schedule[cpu as int] == t,
        tick::runnable(b.world, u),
        u != IDLE@,
        b.world.tasks[u].group() == b.world.tasks[t].group(),
        open_to(b.world, cpu as usize, u),
        !state::dispatch(b.sched, b.world).schedule.contains(u),
    ensures
        ({
            let after = state::dispatch(b.sched, b.world).world.tasks;
            let cost = state::delta(b.sched.quanta, b.world.tasks[t].weight);
            after[t].vruntime <= state::saturating_sum(
                after[u].vruntime,
                if cost < 0 {
                    0
                } else {
                    cost
                },
            )
        }),
{
    let picks = state::pick_all(b.sched, b.world, b.sched.cpus as nat).picks;
    picking_keeps(b.sched, b.world, b.sched.cpus as nat);
    assert(state::names_of(picks)[cpu as int] == state::name_of(picks[cpu as int]));
    own_groups_are_served_fairly(b, cpu);
    runner_leads_by_a_quantum(b, cpu, t, u, b.world.tasks[t].group());
}

/// A scheduler to which nothing has been queued has nothing to be ready for.
pub proof fn new_scheduler_is_ready(cpus: usize, quanta: i64)
    ensures
        ready::all_ready(
            Both { sched: state::new_scheduler(cpus, quanta), world: model::empty_world() },
        ),
{
}

/// A tick leaves every runnable task ready, whether its events are accepted or not, if none of
/// them takes a task out of reach and no task waits for a root group that does not exist.
pub proof fn tick_keeps_ready(b: Both, events: Seq<Result<EventView, EventError>>)
    requires
        ready::all_ready(b),
        b.world.cgroups.contains_key(ROOT_CGROUP@) || !exists|t: Seq<char>| #[trigger]
            tick::runnable(b.world, t) && b.world.tasks[t].group() == ROOT_CGROUP@,
        ready::strands_nothing(Both { world: state::with_root(b.world), ..b }, events),
    ensures
        ready::all_ready(tick::prepared(b, events).both),
        ready::all_ready(
            Both { sched: tick::tick(b, events).sched, world: tick::tick(b, events).world },
        ),
{
    ready::root_keeps_ready(b);
    ready::run_keeps_ready(Both { world: state::with_root(b.world), ..b }, events);
    ready::dispatch_keeps_ready(tick::prepared(b, events).both);
}

/// No task is listed both as runnable and as blocked.
pub proof fn no_task_is_listed_twice(
    runnable: Seq<Seq<char>>,
    blocked: Seq<Seq<char>>,
    tasks: Map<Seq<char>, TaskView>,
)
    requires
        state::lists_state(runnable, tasks, TaskState::Runnable),
        state::lists_state(blocked, tasks, TaskState::Blocked),
    ensures
        forall|id: Seq<char>| !(#[trigger] runnable.contains(id) && blocked.contains(id)),
        runnable.no_duplicates(),
        blocked.no_duplicates(),
{
    idmap::increasing_is_unique(runnable);
    idmap::increasing_is_unique(blocked);
}

} // verus!
