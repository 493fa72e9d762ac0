//! What holds of virtual runtimes, and of the tasks and groups that bear them.

use vstd::prelude::*;

use crate::laws;
use crate::model::{CgroupView, TaskView, WorldView, NICE_0_LOAD};
use crate::placing;
use crate::state;
use crate::state::{Both, SchedulerView};
use crate::tick;

verus! {

// ---------------------------------------------------------------------------
// The cost of a quantum
// ---------------------------------------------------------------------------

/// At the reference load a quantum costs exactly a quantum.
pub proof fn quantum_at_reference_load(quanta: i64)
    ensures
        state::delta(quanta, NICE_0_LOAD) == quanta,
        state::group_delta(quanta, 1024) == quanta,
{
    let a = quanta * 1024;
    assert(a / 1024 == quanta);
    assert((-a) / 1024 == -quanta);
}

/// The heavier a task, the less a quantum costs it, as long as the cost is in range.
pub proof fn cost_falls_with_weight(quanta: i64, light: u32, heavy: u32)
    requires
        0 <= quanta,
        0 < light <= heavy,
        quanta * NICE_0_LOAD / (light as int) <= i64::MAX,
    ensures
        0 <= state::delta(quanta, heavy) <= state::delta(quanta, light),
{
    let a = quanta * 1024;
    vstd::arithmetic::div_mod::lemma_div_is_ordered_by_denominator(a, light as int, heavy as int);
    vstd::arithmetic::div_mod::lemma_div_pos_is_pos(a, heavy as int);
}

/// A charge does not turn a virtual runtime back, as long as the cost is in range.
pub proof fn charges_move_forward(quanta: i64, vruntime: i64, load: u32)
    requires
        0 <= quanta,
        0 < load,
        quanta * NICE_0_LOAD / (load as int) <= i64::MAX,
    ensures
        state::saturating_sum(vruntime, state::delta(quanta, load)) >= vruntime,
{
    cost_falls_with_weight(quanta, load, load);
}

// ---------------------------------------------------------------------------
// Who is charged in a tick
// ---------------------------------------------------------------------------

/// What is left of `task` after a tick in which it has a seat or not.
pub open spec fn task_after(quanta: i64, task: TaskView, seated: bool) -> TaskView {
    if seated && state::counted(task) {
        state::task_charged(quanta, task)
    } else {
        task
    }
}

/// A group after it was charged `k` times.
pub open spec fn charged_times(quanta: i64, group: CgroupView, k: nat) -> CgroupView
    decreases k,
{
    if k == 0 {
        group
    } else {
        state::group_charged(quanta, charged_times(quanta, group, (k - 1) as nat))
    }
}

/// The task that has the seat on `cpu` belongs to group `c`.
pub open spec fn seat_of_group(
    w: WorldView,
    seats: Seq<Option<Seq<char>>>,
    c: Seq<char>,
) -> spec_fn(int) -> bool {
    |cpu: int|
        match seats[cpu] {
            Some(t) => w.tasks[t].group() == c,
            None => false,
        }
}

/// Charging the tasks of the first `n` seats changes these tasks and their groups only.
proof fn charges(b: Both, seats: Seq<Option<Seq<char>>>, n: nat)
    requires
        state::no_repeats(seats),
        n <= seats.len(),
        forall|cpu: int|
            0 <= cpu < seats.len() ==> (#[trigger] seats[cpu] matches Some(t)
                ==> b.world.tasks.contains_key(t)),
    ensures
        ({
            let after = state::charge_all(b, seats, n);
            &&& after.sched.quanta == b.sched.quanta
            &&& after.world.last_schedule == b.world.last_schedule
            &&& after.world.tasks.dom() == b.world.tasks.dom()
            &&& after.world.cgroups.dom() == b.world.cgroups.dom()
            &&& forall|t: Seq<char>| #[trigger]
                b.world.tasks.contains_key(t) ==> after.world.tasks[t] == task_after(
                    b.sched.quanta,
                    b.world.tasks[t],
                    seats.take(n as int).contains(Some(t)),
                )
            &&& forall|c: Seq<char>| #[trigger]
                b.world.cgroups.contains_key(c) ==> after.world.cgroups[c] == charged_times(
                    b.sched.quanta,
                    b.world.cgroups[c],
                    state::count_below(n, seat_of_group(b.world, seats, c)),
                )
        }),
    decreases n,
{
    if n > 0 {
        let m = (n - 1) as nat;
        let before = state::charge_all(b, seats, m);
        let after = state::charge_all(b, seats, n);
        let now = seats.take(n as int);
        let earlier = seats.take(m as int);
        charges(b, seats, m);
        assert(now =~= earlier.push(seats[m as int]));
        assert forall|t: Seq<char>| now.contains(Some(t)) == (earlier.contains(Some(t))
            || seats[m as int] == Some(t)) by {
            if earlier.contains(Some(t)) {
                assert(now[earlier.index_of(Some(t))] == Some(t));
            }
            assert(now[m as int] == seats[m as int]);
            if now.contains(Some(t)) && seats[m as int] != Some(t) {
                assert(earlier[now.index_of(Some(t))] == Some(t));
            }
        }
        if let Some(t) = seats[m as int] {
            if earlier.contains(Some(t)) {
                let i = earlier.index_of(Some(t));
                assert(seats[i] != seats[m as int]);
            }
            assert(before.world.tasks[t] == b.world.tasks[t]);
            assert(after.world.tasks.dom() =~= b.world.tasks.dom());
            assert(after.world.cgroups.dom() =~= b.world.cgroups.dom());
        }
    }
}

/// In a tick the tasks that run are noted to run where they do, and charged, unless their runtime
/// is not counted. No other task changes.
pub proof fn running_tasks_are_charged(s: SchedulerView, w: WorldView, t: Seq<char>)
    requires
        w.tasks.contains_key(t),
    ensures
        ({
            let d = state::dispatch(s, w);
            let seats = state::seats_of(d.schedule);
            &&& d.world.tasks.dom() == w.tasks.dom()
            &&& !seats.contains(Some(t)) ==> d.world.tasks[t] == w.tasks[t]
            &&& forall|cpu: int|
                0 <= cpu < s.cpus && #[trigger] seats[cpu] == Some(t) ==> d.world.tasks[t] == (
                TaskView {
                    last_cpu: Some(cpu as usize),
                    vruntime: if w.tasks[t].burst_mode {
                        w.tasks[t].vruntime
                    } else {
                        state::saturating_sum(
                            w.tasks[t].vruntime,
                            state::delta(s.quanta, w.tasks[t].weight),
                        )
                    },
                    ..w.tasks[t]
                })
        }),
{
    let n = s.cpus as nat;
    let picked = state::pick_all(s, w, n);
    let seats = state::seats_of(state::names_of(picked.picks));
    let start = Both { sched: picked.sched, world: state::placed(w, seats) };
    seats_are_tasks(s, w);
    charges(start, seats, n);
    assert(seats.take(n as int) =~= seats);
    assert(start.world.tasks.contains_key(t));
    assert(start.world.tasks.dom() =~= w.tasks.dom());
    assert forall|cpu: int| 0 <= cpu < s.cpus && #[trigger] seats[cpu] == Some(t) implies
        tick::runnable(w, t) && seats.contains(Some(t)) && seats.index_of(Some(t)) == cpu by {
        let i = seats.index_of(Some(t));
        assert(seats[i] == Some(t));
        if i < cpu {
            assert(seats[i] != seats[cpu]);
        } else if cpu < i {
            assert(seats[cpu] != seats[i]);
        }
        laws::scheduled_tasks_fit(s, w, cpu);
    }
}

/// In a tick a group is charged once for each of its tasks that runs. Nothing else changes of a
/// group, and none comes or goes.
pub proof fn groups_are_charged_per_task(s: SchedulerView, w: WorldView, c: Seq<char>)
    requires
        w.cgroups.contains_key(c),
    ensures
        ({
            let d = state::dispatch(s, w);
            let seats = state::seats_of(d.schedule);
            &&& d.world.cgroups.dom() == w.cgroups.dom()
            &&& d.world.cgroups[c] == charged_times(
                s.quanta,
                w.cgroups[c],
                state::count_below(s.cpus as nat, seat_of_group(w, seats, c)),
            )
        }),
{
    let n = s.cpus as nat;
    let picked = state::pick_all(s, w, n);
    let seats = state::seats_of(state::names_of(picked.picks));
    let v = state::placed(w, seats);
    let start = Both { sched: picked.sched, world: v };
    seats_are_tasks(s, w);
    charges(start, seats, n);
    assert(v.cgroups.contains_key(c));
    same_count(n, seat_of_group(v, seats, c), seat_of_group(w, seats, c));
}

/// Conditions that agree below `n` have the same count there.
proof fn same_count(n: nat, p: spec_fn(int) -> bool, q: spec_fn(int) -> bool)
    requires
        forall|cpu: int| 0 <= cpu < n ==> #[trigger] p(cpu) == q(cpu),
    ensures
        state::count_below(n, p) == state::count_below(n, q),
    decreases n,
{
    if n > 0 {
        same_count((n - 1) as nat, p, q);
    }
}

/// The seats of a tick are taken by different tasks, all of which exist.
proof fn seats_are_tasks(s: SchedulerView, w: WorldView)
    ensures
        ({
            let picked = state::pick_all(s, w, s.cpus as nat);
            let seats = state::seats_of(state::names_of(picked.picks));
            &&& seats.len() == s.cpus
            &&& picked.sched.quanta == s.quanta
            &&& state::no_repeats(seats)
            &&& forall|cpu: int|
                0 <= cpu < seats.len() ==> (#[trigger] seats[cpu] matches Some(t)
                    ==> w.tasks.contains_key(t) && state::placed(w, seats).tasks.contains_key(t))
        }),
{
    let n = s.cpus as nat;
    let picked = state::pick_all(s, w, n);
    laws::picking_keeps(s, w, n);
    laws::picked_tasks_fit(s, w, n);
    laws::picked_tasks_distinct(s, w, n);
    placing::seats_distinct(picked.picks);
    let seats = state::seats_of(state::names_of(picked.picks));
    assert forall|cpu: int| 0 <= cpu < seats.len() implies (#[trigger] seats[cpu] matches Some(t)
        ==> w.tasks.contains_key(t)) by {
        assert(picked.picks[cpu] is Some || seats[cpu] is None);
    }
}

/// In a tick no task and no group comes or goes.
pub proof fn tasks_stay(s: SchedulerView, w: WorldView)
    ensures
        state::dispatch(s, w).world.tasks.dom() == w.tasks.dom(),
        state::dispatch(s, w).world.cgroups.dom() == w.cgroups.dom(),
{
    let n = s.cpus as nat;
    let picked = state::pick_all(s, w, n);
    let seats = state::seats_of(state::names_of(picked.picks));
    let v = state::placed(w, seats);
    seats_are_tasks(s, w);
    charges(Both { sched: picked.sched, world: v }, seats, n);
    assert(v.tasks.dom() =~= w.tasks.dom());
}

/// Charging a group changes its virtual runtime only.
pub proof fn charged_keeps_id(quanta: i64, group: CgroupView, k: nat)
    ensures
        charged_times(quanta, group, k) == (CgroupView {
            vruntime: charged_times(quanta, group, k).vruntime,
            ..group
        }),
    decreases k,
{
    if k > 0 {
        charged_keeps_id(quanta, group, (k - 1) as nat);
    }
}

} // verus!
