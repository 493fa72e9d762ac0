//! What a quantum costs, what a tick charges and what it counts, in plain arithmetic.

use vstd::prelude::*;

use crate::accounting;
use crate::laws;
use crate::model::{CgroupView, TaskState, TaskView, WorldView};
use crate::state;
use crate::state::{Both, SchedulerView};

verus! {

/// `q` is the quotient of `a` and a positive `b`, rounded toward zero.
pub open spec fn rounds_to(a: int, b: int, q: int) -> bool {
    if a >= 0 {
        0 <= q && q * b <= a < (q + 1) * b
    } else {
        q <= 0 && (q - 1) * b < a <= q * b
    }
}

/// `cost` has the low 64 bits of `q`.
pub open spec fn low_bits(q: int, cost: i64) -> bool {
    (cost - q) % 0x1_0000_0000_0000_0000 == 0
}

/// A number and its low 64 bits, read as a signed number, differ by a multiple of 2 to the 64.
proof fn truncation(x: i128)
    ensures
        low_bits(x as int, x as i64),
{
    let y = x as i64;
    assert((y - x) % 0x1_0000_0000_0000_0000 == 0) by (bit_vector)
        requires
            y == x as i64,
    ;
}

/// There is one quotient.
proof fn rounds_to_quotient(a: int, b: int, q: int)
    requires
        b > 0,
        rounds_to(a, b, q),
    ensures
        state::quotient(a, b) == q,
{
    if a >= 0 {
        let r = a - q * b;
        assert((q + 1) * b == q * b + b) by (nonlinear_arith);
        vstd::arithmetic::div_mod::lemma_fundamental_div_mod_converse(a, b, q, r);
    } else {
        let r = -a - (-q) * b;
        assert((q - 1) * b == q * b - b) by (nonlinear_arith);
        assert((-q) * b == -(q * b)) by (nonlinear_arith);
        vstd::arithmetic::div_mod::lemma_fundamental_div_mod_converse(-a, b, -q, r);
    }
}

/// A quotient by a positive number is no further from zero than what is divided.
proof fn quotient_in_range(a: int, b: int)
    requires
        b > 0,
    ensures
        a >= 0 ==> 0 <= state::quotient(a, b) <= a,
        a < 0 ==> a <= state::quotient(a, b) <= 0,
{
    if a >= 0 {
        vstd::arithmetic::div_mod::lemma_div_pos_is_pos(a, b);
        vstd::arithmetic::div_mod::lemma_div_nonincreasing(a, b);
    } else {
        vstd::arithmetic::div_mod::lemma_div_pos_is_pos(-a, b);
        vstd::arithmetic::div_mod::lemma_div_nonincreasing(-a, b);
    }
}

/// A quantum costs a task of any weight the quantum times 1024, divided by the weight and rounded
/// toward zero. Of a cost beyond 64 bits the low ones count.
pub proof fn quantum_is_divided_by_weight(quanta: i64, weight: u32, q: int)
    requires
        weight > 0,
        rounds_to(quanta * 1024, weight as int, q),
    ensures
        low_bits(q, state::delta(quanta, weight)),
        i64::MIN <= q <= i64::MAX ==> state::delta(quanta, weight) == q,
{
    let a = quanta * 1024;
    rounds_to_quotient(a, weight as int, q);
    quotient_in_range(a, weight as int);
    let x = q as i128;
    assert(x == q);
    truncation(x);
}

/// A quantum costs a control group with any shares the quantum times 1024, divided by the shares
/// and rounded toward zero. No shares count as one. Of a cost beyond 64 bits the low ones count.
pub proof fn quantum_is_divided_by_shares(quanta: i64, shares: u32, q: int)
    requires
        rounds_to(
            quanta * 1024,
            if shares == 0 {
                1
            } else {
                shares as int
            },
            q,
        ),
    ensures
        low_bits(q, state::group_delta(quanta, shares)),
        i64::MIN <= q <= i64::MAX ==> state::group_delta(quanta, shares) == q,
{
    if shares == 0 {
        quantum_is_divided_by_weight(quanta, 1, q);
    } else {
        quantum_is_divided_by_weight(quanta, shares, q);
    }
}

/// Two numbers with the low 64 bits of a third are the same.
proof fn low_bits_are_unique(q: int, a: i64, b: i64)
    requires
        low_bits(q, a),
        low_bits(q, b),
    ensures
        a == b,
{
}

/// `v` moved by `by`, or the bound of 64 bits that this would pass.
pub open spec fn moved(v: int, by: int) -> int {
    if v + by > 0x7fff_ffff_ffff_ffff {
        0x7fff_ffff_ffff_ffff
    } else if v + by < -0x8000_0000_0000_0000 {
        -0x8000_0000_0000_0000
    } else {
        v + by
    }
}

/// The task that runs on a CPU for one quantum, and whose runtime is counted, pays for it: its
/// virtual runtime moves by the quantum times 1024 divided by its weight. One in burst mode pays
/// nothing. Nothing else of the task changes but the CPU that it last ran on.
pub proof fn a_running_task_pays(s: SchedulerView, w: WorldView, cpu: int, q: int, cost: i64)
    requires
        0 <= cpu < s.cpus,
        state::dispatch(s, w).schedule[cpu] != "idle"@,
        w.tasks[state::dispatch(s, w).schedule[cpu]].weight > 0,
        rounds_to(
            s.quanta * 1024,
            w.tasks[state::dispatch(s, w).schedule[cpu]].weight as int,
            q,
        ),
        low_bits(q, cost),
    ensures
        ({
            let t = state::dispatch(s, w).schedule[cpu];
            let before = w.tasks[t];
            let after = state::dispatch(s, w).world.tasks[t];
            &&& w.tasks.contains_key(t)
            &&& state::dispatch(s, w).world.tasks.contains_key(t)
            &&& before.state == TaskState::Runnable
            &&& before.burst_mode ==> after.vruntime == before.vruntime
            &&& !before.burst_mode ==> after.vruntime == moved(before.vruntime as int, cost as int)
            &&& after == (TaskView {
                vruntime: after.vruntime,
                last_cpu: Some(cpu as usize),
                ..before
            })
        }),
{
    let d = state::dispatch(s, w);
    let t = d.schedule[cpu];
    let seats = state::seats_of(d.schedule);
    laws::schedule_covers_cpus(s, w);
    laws::scheduled_tasks_fit(s, w, cpu);
    accounting::running_tasks_are_charged(s, w, t);
    assert(seats[cpu] == Some(t));
    quantum_is_divided_by_weight(s.quanta, w.tasks[t].weight, q);
    low_bits_are_unique(q, cost, state::delta(s.quanta, w.tasks[t].weight));
}

/// A task that does not run in a tick is as it was. No task comes or goes.
pub proof fn a_waiting_task_is_as_it_was(s: SchedulerView, w: WorldView, t: Seq<char>)
    requires
        w.tasks.contains_key(t),
        t == "idle"@ || !state::dispatch(s, w).schedule.contains(t),
    ensures
        state::dispatch(s, w).world.tasks.contains_key(t),
        state::dispatch(s, w).world.tasks[t] == w.tasks[t],
        state::dispatch(s, w).world.tasks.dom() == w.tasks.dom(),
{
    let d = state::dispatch(s, w);
    let seats = state::seats_of(d.schedule);
    accounting::running_tasks_are_charged(s, w, t);
    if seats.contains(Some(t)) {
        let i = seats.index_of(Some(t));
        assert(d.schedule[i] == t);
    }
}

// ---------------------------------------------------------------------------
// Counting
// ---------------------------------------------------------------------------

/// A count is the number of the CPUs that it counts.
proof fn count_is_size(n: nat, p: spec_fn(int) -> bool, counted: Set<int>)
    requires
        forall|cpu: int| #[trigger] counted.contains(cpu) <==> 0 <= cpu < n && p(cpu),
    ensures
        counted.finite(),
        counted.len() == state::count_below(n, p),
    decreases n,
{
    if n == 0 {
        assert(counted =~= Set::empty());
    } else {
        let m = (n - 1) as nat;
        let fewer = counted.remove(m as int);
        count_is_size(m, p, fewer);
        if p(m as int) {
            assert(counted =~= fewer.insert(m as int));
        } else {
            assert(counted =~= fewer);
        }
    }
}

/// The preemptions of a tick are the CPUs on which something ran before that does not run there
/// now. If it is not known what ran before on as many CPUs, there are none.
pub proof fn preemptions_are_counted(s: SchedulerView, w: WorldView, counted: Set<int>)
    requires
        forall|cpu: int| #[trigger]
            counted.contains(cpu) <==> 0 <= cpu < s.cpus && w.last_schedule.len() == s.cpus
                && w.last_schedule[cpu] is Some && (state::dispatch(s, w).schedule[cpu]
                == "idle"@ || state::dispatch(s, w).schedule[cpu] != w.last_schedule[cpu]->0),
    ensures
        counted.finite(),
        state::dispatch(s, w).preemptions == counted.len(),
{
    let n = s.cpus as nat;
    let d = state::dispatch(s, w);
    let seats = state::seats_of(d.schedule);
    laws::schedule_covers_cpus(s, w);
    assert forall|cpu: int| #[trigger] counted.contains(cpu) <==> 0 <= cpu < n && state::preempted(
        w,
        seats,
    )(cpu) by {
        if 0 <= cpu < n {
            assert(seats[cpu] == state::seat_of(d.schedule[cpu]));
        }
    }
    count_is_size(n, state::preempted(w, seats), counted);
}

/// The migrations of a tick are the CPUs that run a task that last ran on another CPU.
pub proof fn migrations_are_counted(s: SchedulerView, w: WorldView, counted: Set<int>)
    requires
        forall|cpu: int| #[trigger]
            counted.contains(cpu) <==> 0 <= cpu < s.cpus && state::dispatch(s, w).schedule[cpu]
                != "idle"@ && w.tasks[state::dispatch(s, w).schedule[cpu]].last_cpu is Some
                && w.tasks[state::dispatch(s, w).schedule[cpu]].last_cpu->0 != cpu,
    ensures
        counted.finite(),
        state::dispatch(s, w).migrations == counted.len(),
{
    let n = s.cpus as nat;
    let d = state::dispatch(s, w);
    let seats = state::seats_of(d.schedule);
    laws::schedule_covers_cpus(s, w);
    assert forall|cpu: int| #[trigger] counted.contains(cpu) <==> 0 <= cpu < n && state::migrated(
        w,
        seats,
    )(cpu) by {
        if 0 <= cpu < n {
            assert(seats[cpu] == state::seat_of(d.schedule[cpu]));
        }
    }
    count_is_size(n, state::migrated(w, seats), counted);
}

/// Being charged `k` times moves a virtual runtime by `k` times the cost.
proof fn charges_add_up(quanta: i64, group: CgroupView, k: nat)
    ensures
        ({
            let cost = state::group_delta(quanta, group.cpu_shares);
            let after = accounting::charged_times(quanta, group, k);
            &&& after == (CgroupView { vruntime: after.vruntime, ..group })
            &&& after.vruntime == moved(group.vruntime as int, k * cost)
        }),
    decreases k,
{
    let cost = state::group_delta(quanta, group.cpu_shares);
    if k > 0 {
        let m = (k - 1) as nat;
        charges_add_up(quanta, group, m);
        assert(k * cost == m * cost + cost) by (nonlinear_arith)
            requires
                k == m + 1,
        ;
        assert(cost >= 0 ==> m * cost >= 0) by (nonlinear_arith);
        assert(cost <= 0 ==> m * cost <= 0) by (nonlinear_arith);
    } else {
        assert(k * cost == 0) by (nonlinear_arith)
            requires
                k == 0,
        ;
    }
}

/// A control group pays for each of its tasks that runs: its virtual runtime moves, once for each
/// of them, by the quantum times 1024 divided by its shares. Nothing else of the group changes, and
/// no group comes or goes.
pub proof fn a_group_pays_for_its_tasks(
    s: SchedulerView,
    w: WorldView,
    c: Seq<char>,
    running: Set<int>,
    q: int,
    cost: i64,
)
    requires
        w.cgroups.contains_key(c),
        forall|cpu: int| #[trigger]
            running.contains(cpu) <==> 0 <= cpu < s.cpus && state::dispatch(s, w).schedule[cpu]
                != "idle"@ && (match w.tasks[state::dispatch(s, w).schedule[cpu]].cgroup {
                Some(g) => g,
                None => "__root__"@,
            }) == c,
        rounds_to(
            s.quanta * 1024,
            if w.cgroups[c].cpu_shares == 0 {
                1
            } else {
                w.cgroups[c].cpu_shares as int
            },
            q,
        ),
        low_bits(q, cost),
    ensures
        running.finite(),
        ({
            let before = w.cgroups[c];
            let after = state::dispatch(s, w).world.cgroups[c];
            &&& state::dispatch(s, w).world.cgroups.dom() == w.cgroups.dom()
            &&& after.vruntime == moved(before.vruntime as int, running.len() * cost)
            &&& after.id == before.id
            &&& after.cpu_shares == before.cpu_shares
            &&& after.cpu_mask == before.cpu_mask
        }),
{
    let n = s.cpus as nat;
    let d = state::dispatch(s, w);
    let seats = state::seats_of(d.schedule);
    let p = accounting::seat_of_group(w, seats, c);
    laws::schedule_covers_cpus(s, w);
    assert forall|cpu: int| #[trigger] running.contains(cpu) <==> 0 <= cpu < n && p(cpu) by {
        if 0 <= cpu < n {
            assert(seats[cpu] == state::seat_of(d.schedule[cpu]));
        }
    }
    count_is_size(n, p, running);
    accounting::groups_are_charged_per_task(s, w, c);
    charges_add_up(s.quanta, w.cgroups[c], running.len());
    quantum_is_divided_by_shares(s.quanta, w.cgroups[c].cpu_shares, q);
    low_bits_are_unique(q, cost, state::group_delta(s.quanta, w.cgroups[c].cpu_shares));
}

// ---------------------------------------------------------------------------
// Charging in turn
// ---------------------------------------------------------------------------

/// A task that is charged moves by its cost, unless it cannot run or is in burst mode. Its group
/// moves by its own cost, if it exists. What they moved to is remembered. After that the task is
/// queued, with its group, and the group once more.
pub proof fn a_charged_task_is_queued_again(b: Both, t: Seq<char>)
    ensures
        ({
            let w = b.world;
            let task = w.tasks[t];
            let g = match task.cgroup {
                Some(g) => g,
                None => "__root__"@,
            };
            let pays = task.state == TaskState::Runnable && !task.burst_mode;
            let task_at = state::saturating_sum(
                task.vruntime,
                state::delta(b.sched.quanta, task.weight),
            );
            let group_at = state::saturating_sum(
                w.cgroups[g].vruntime,
                state::group_delta(b.sched.quanta, w.cgroups[g].cpu_shares),
            );
            let v = WorldView {
                tasks: if pays {
                    w.tasks.insert(t, TaskView { vruntime: task_at, ..task })
                } else {
                    w.tasks
                },
                cgroups: if w.cgroups.contains_key(g) {
                    w.cgroups.insert(g, CgroupView { vruntime: group_at, ..w.cgroups[g] })
                } else {
                    w.cgroups
                },
                ..w
            };
            let s = SchedulerView {
                task_last_key: if pays {
                    b.sched.task_last_key.insert(t, task_at)
                } else {
                    b.sched.task_last_key
                },
                cg_last_key: if w.cgroups.contains_key(g) {
                    b.sched.cg_last_key.insert(g, group_at)
                } else {
                    b.sched.cg_last_key
                },
                ..b.sched
            };
            &&& state::charge(b, t).world == v
            &&& state::charge(b, t).sched == state::queue_group(state::queue_task(s, v, t), v, g)
        }),
{
}

/// The sum of two virtual runtimes stops at the bounds of 64 bits.
pub proof fn sums_stop_at_the_bounds(a: i64, b: i64)
    ensures
        state::saturating_sum(a, b) == moved(a as int, b as int),
{
}

/// The tasks of a schedule are charged in the order of their CPUs, after all of them took their
/// seats: each is noted to have run where it does, and the schedule is remembered.
pub proof fn charges_follow_the_cpus(s: SchedulerView, w: WorldView, n: nat)
    requires
        n < s.cpus,
    ensures
        ({
            let d = state::dispatch(s, w);
            let seats = state::seats_of(d.schedule);
            let seated = Both {
                sched: state::pick_all(s, w, s.cpus as nat).sched,
                world: WorldView {
                    tasks: Map::new(
                        |t: Seq<char>| w.tasks.contains_key(t),
                        |t: Seq<char>|
                            if seats.contains(Some(t)) {
                                TaskView {
                                    last_cpu: Some(seats.index_of(Some(t)) as usize),
                                    ..w.tasks[t]
                                }
                            } else {
                                w.tasks[t]
                            },
                    ),
                    last_schedule: seats,
                    ..w
                },
            };
            let before = state::charge_all(seated, seats, n);
            &&& state::charge_all(seated, seats, 0) == seated
            &&& d.schedule[n as int] == "idle"@ ==> state::charge_all(seated, seats, n + 1)
                == before
            &&& d.schedule[n as int] != "idle"@ ==> state::charge_all(seated, seats, n + 1)
                == state::charge(before, d.schedule[n as int])
            &&& d.sched == state::charge_all(seated, seats, s.cpus as nat).sched
            &&& d.world == state::charge_all(seated, seats, s.cpus as nat).world
        }),
{
    let d = state::dispatch(s, w);
    let seats = state::seats_of(d.schedule);
    laws::schedule_covers_cpus(s, w);
    let seated = Both {
        sched: state::pick_all(s, w, s.cpus as nat).sched,
        world: state::placed(w, seats),
    };
    let before = state::charge_all(seated, seats, n);
    assert(seats[n as int] == state::seat_of(d.schedule[n as int]));
    assert(state::charge_all(seated, seats, n + 1) == match seats[n as int] {
        Some(t) => state::charge(before, t),
        None => before,
    });
    let tasks = Map::new(
        |t: Seq<char>| w.tasks.contains_key(t),
        |t: Seq<char>|
            if seats.contains(Some(t)) {
                TaskView { last_cpu: Some(seats.index_of(Some(t)) as usize), ..w.tasks[t] }
            } else {
                w.tasks[t]
            },
    );
    assert(tasks =~= seated.world.tasks);
}

/// After a tick the world remembers for each CPU the task that the schedule names, or nothing for
/// one that idles.
pub proof fn the_schedule_is_remembered(s: SchedulerView, w: WorldView, cpu: int)
    requires
        0 <= cpu < s.cpus,
    ensures
        ({
            let d = state::dispatch(s, w);
            &&& d.world.last_schedule.len() == s.cpus
            &&& d.schedule.len() == s.cpus
            &&& d.schedule[cpu] == "idle"@ ==> d.world.last_schedule[cpu] is None
            &&& d.schedule[cpu] != "idle"@ ==> d.world.last_schedule[cpu] == Some(
                d.schedule[cpu],
            )
        }),
{
    laws::schedule_covers_cpus(s, w);
    let d = state::dispatch(s, w);
    assert(state::seats_of(d.schedule)[cpu] == state::seat_of(d.schedule[cpu]));
}

} // verus!
