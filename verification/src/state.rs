//! What the scheduler does, as functions on the contents of the scheduler and the world.

use vstd::prelude::*;

use crate::idmap;
use crate::model;
use crate::model::{CgroupView, TaskState, TaskView, WorldView, NICE_0_LOAD, ROOT_CGROUP};
use crate::queue;
use crate::queue::ItemView;

verus! {

/// The name under which a CPU without a task appears in a schedule.
pub const IDLE: &'static str = "idle";

/// What a scheduler holds.
pub struct SchedulerView {
    pub cpus: usize,
    pub quanta: i64,
    /// Queued control groups, in the order in which they are considered.
    pub cg_heap: Seq<ItemView>,
    pub cg_seq: u64,
    /// The virtual runtime at which each control group was last queued or charged.
    pub cg_last_key: Map<Seq<char>, i64>,
    /// For each control group its queued tasks, in the order in which they are considered.
    pub rq: Map<Seq<char>, Seq<ItemView>>,
    pub task_seq: u64,
    /// The virtual runtime at which each task was last queued or charged.
    pub task_last_key: Map<Seq<char>, i64>,
}

impl SchedulerView {
    /// All queues are in order.
    pub open spec fn in_order(self) -> bool {
        &&& queue::in_order(self.cg_heap)
        &&& forall|c: Seq<char>| #[trigger] self.rq.contains_key(c) ==> queue::in_order(self.rq[c])
    }
}

/// A scheduler to which nothing has been queued.
pub open spec fn new_scheduler(cpus: usize, quanta: i64) -> SchedulerView {
    SchedulerView {
        cpus,
        quanta,
        cg_heap: Seq::empty(),
        cg_seq: 0,
        cg_last_key: Map::empty(),
        rq: Map::empty(),
        task_seq: 0,
        task_last_key: Map::empty(),
    }
}

// ---------------------------------------------------------------------------
// Arithmetic
// ---------------------------------------------------------------------------

/// The quotient of `a` and a positive `b`, rounded toward zero.
pub open spec fn quotient(a: int, b: int) -> int {
    if a >= 0 {
        a / b
    } else {
        -((-a) / b)
    }
}

/// The virtual runtime that one quantum costs at a given load: the quantum scaled by the
/// reference load, of which the low 64 bits are kept.
pub open spec fn delta(quanta: i64, load: u32) -> i64 {
    quotient(quanta * NICE_0_LOAD, load as int) as i64
}

/// The virtual runtime that one quantum costs a control group with `shares`; no shares count
/// as one.
pub open spec fn group_delta(quanta: i64, shares: u32) -> i64 {
    delta(
        quanta,
        if shares == 0 {
            1
        } else {
            shares
        },
    )
}

/// The sum of `a` and `b`, or the bound of the type that it passes.
pub open spec fn saturating_sum(a: i64, b: i64) -> i64 {
    if a + b > i64::MAX {
        i64::MAX
    } else if a + b < i64::MIN {
        i64::MIN
    } else {
        (a + b) as i64
    }
}

/// The sequence number after `n`; the count starts over when it is used up.
pub open spec fn next_seq(n: u64) -> u64 {
    if n == u64::MAX {
        0
    } else {
        (n + 1) as u64
    }
}

// ---------------------------------------------------------------------------
// Queueing
// ---------------------------------------------------------------------------

/// The world with the root control group in it.
pub open spec fn with_root(w: WorldView) -> WorldView {
    if w.cgroups.contains_key(ROOT_CGROUP@) {
        w
    } else {
        w.with_cgroup(ROOT_CGROUP@, model::new_cgroup(ROOT_CGROUP@))
    }
}

/// The scheduler after control group `c` was queued at its current virtual runtime. A group that
/// does not exist is not queued.
pub open spec fn queue_group(s: SchedulerView, w: WorldView, c: Seq<char>) -> SchedulerView {
    if !w.cgroups.contains_key(c) {
        s
    } else {
        let vruntime = w.cgroups[c].vruntime;
        let seq = next_seq(s.cg_seq);
        SchedulerView {
            cg_seq: seq,
            cg_heap: queue::with_item(s.cg_heap, ItemView { vruntime, seq, id: c }),
            cg_last_key: s.cg_last_key.insert(c, vruntime),
            ..s
        }
    }
}

/// The queue of control group `c`, which is empty if nothing was ever put there.
pub open spec fn queue_of(s: SchedulerView, c: Seq<char>) -> Seq<ItemView> {
    if s.rq.contains_key(c) {
        s.rq[c]
    } else {
        Seq::empty()
    }
}

/// The scheduler after task `t` was queued at its current virtual runtime, in its control group
/// and with it. A task that does not exist or cannot run is not queued.
pub open spec fn queue_task(s: SchedulerView, w: WorldView, t: Seq<char>) -> SchedulerView {
    if !w.tasks.contains_key(t) || w.tasks[t].state != TaskState::Runnable {
        s
    } else {
        let vruntime = w.tasks[t].vruntime;
        let c = w.tasks[t].group();
        let seq = next_seq(s.task_seq);
        let queued = SchedulerView {
            task_seq: seq,
            rq: s.rq.insert(
                c,
                queue::with_item(queue_of(s, c), ItemView { vruntime, seq, id: t }),
            ),
            task_last_key: s.task_last_key.insert(t, vruntime),
            ..s
        };
        queue_group(queued, w, c)
    }
}

// ---------------------------------------------------------------------------
// Picking
// ---------------------------------------------------------------------------

/// The number of leading entries that do not satisfy `p`.
pub open spec fn first_where(items: Seq<ItemView>, p: spec_fn(ItemView) -> bool) -> int
    decreases items.len(),
{
    if items.len() == 0 || p(items[0]) {
        0
    } else {
        1 + first_where(items.skip(1), p)
    }
}

/// A queued control group exists and still has the virtual runtime at which it was queued.
pub open spec fn group_entry_valid(s: SchedulerView, w: WorldView, e: ItemView) -> bool {
    &&& w.cgroups.contains_key(e.id)
    &&& w.cgroups[e.id].vruntime == e.vruntime
    &&& s.cg_last_key.contains_key(e.id) ==> s.cg_last_key[e.id] == e.vruntime
}

/// A queued task exists, can run, and still has the virtual runtime at which it was queued.
pub open spec fn task_entry_valid(
    w: WorldView,
    task_last_key: Map<Seq<char>, i64>,
    e: ItemView,
) -> bool {
    &&& w.tasks.contains_key(e.id)
    &&& w.tasks[e.id].state == TaskState::Runnable
    &&& w.tasks[e.id].vruntime == e.vruntime
    &&& task_last_key.contains_key(e.id) ==> task_last_key[e.id] == e.vruntime
}

/// A queued task is valid, was not yet chosen in this tick, and may run on `cpu`.
pub open spec fn task_entry_fits(
    w: WorldView,
    task_last_key: Map<Seq<char>, i64>,
    cpu: usize,
    chosen: Set<Seq<char>>,
    e: ItemView,
) -> bool {
    &&& task_entry_valid(w, task_last_key, e)
    &&& !chosen.contains(e.id)
    &&& model::mask_allows(w.tasks[e.id].affinity_mask, cpu)
}

/// The valid group entries.
pub open spec fn valid_groups(s: SchedulerView, w: WorldView) -> spec_fn(ItemView) -> bool {
    |e: ItemView| group_entry_valid(s, w, e)
}

/// The valid task entries.
pub open spec fn valid_tasks(w: WorldView, task_last_key: Map<Seq<char>, i64>) -> spec_fn(
    ItemView,
) -> bool {
    |e: ItemView| task_entry_valid(w, task_last_key, e)
}

/// The task entries that fit `cpu`.
pub open spec fn fitting_tasks(
    w: WorldView,
    task_last_key: Map<Seq<char>, i64>,
    cpu: usize,
    chosen: Set<Seq<char>>,
) -> spec_fn(ItemView) -> bool {
    |e: ItemView| task_entry_fits(w, task_last_key, cpu, chosen, e)
}

/// The task that a queue gives to `cpu`: the first one that fits.
pub open spec fn task_from(
    items: Seq<ItemView>,
    w: WorldView,
    task_last_key: Map<Seq<char>, i64>,
    cpu: usize,
    chosen: Set<Seq<char>>,
) -> Option<Seq<char>> {
    let k = first_where(items, fitting_tasks(w, task_last_key, cpu, chosen));
    if k < items.len() {
        Some(items[k].id)
    } else {
        None
    }
}

/// What is left of a queue after it was searched for a task for `cpu`: the entry that was given
/// out is gone, and of the entries before it the invalid ones.
pub open spec fn left_after(
    items: Seq<ItemView>,
    w: WorldView,
    task_last_key: Map<Seq<char>, i64>,
    cpu: usize,
    chosen: Set<Seq<char>>,
) -> Seq<ItemView> {
    let k = first_where(items, fitting_tasks(w, task_last_key, cpu, chosen));
    if k < items.len() {
        items.take(k).filter(valid_tasks(w, task_last_key)) + items.skip(k + 1)
    } else {
        items.filter(valid_tasks(w, task_last_key))
    }
}

/// A queued control group is valid, may run on `cpu`, and has a queue.
pub open spec fn group_entry_searched(
    s: SchedulerView,
    w: WorldView,
    cpu: usize,
    e: ItemView,
) -> bool {
    &&& group_entry_valid(s, w, e)
    &&& model::mask_allows(w.cgroups[e.id].cpu_mask, cpu)
    &&& s.rq.contains_key(e.id)
}

/// A queued control group is searched and has a task for `cpu`.
pub open spec fn group_entry_offers(
    s: SchedulerView,
    w: WorldView,
    cpu: usize,
    chosen: Set<Seq<char>>,
    e: ItemView,
) -> bool {
    &&& group_entry_searched(s, w, cpu, e)
    &&& task_from(s.rq[e.id], w, s.task_last_key, cpu, chosen) is Some
}

/// The group entries that have a task for `cpu`.
pub open spec fn offering_groups(
    s: SchedulerView,
    w: WorldView,
    cpu: usize,
    chosen: Set<Seq<char>>,
) -> spec_fn(ItemView) -> bool {
    |e: ItemView| group_entry_offers(s, w, cpu, chosen, e)
}

/// The position of the group entry that gives `cpu` its task: the first one that offers any.
pub open spec fn group_position(
    s: SchedulerView,
    w: WorldView,
    cpu: usize,
    chosen: Set<Seq<char>>,
) -> int {
    first_where(s.cg_heap, offering_groups(s, w, cpu, chosen))
}

/// One of the first `n` group entries is for `c` and was searched.
pub open spec fn searched_among(
    s: SchedulerView,
    w: WorldView,
    cpu: usize,
    n: int,
    c: Seq<char>,
) -> bool {
    exists|i: int|
        0 <= i < n && (#[trigger] s.cg_heap[i]).id == c && group_entry_searched(
            s,
            w,
            cpu,
            s.cg_heap[i],
        )
}

/// The task queues after the queues of the searched groups among the first `n` were searched.
pub open spec fn queues_after(
    s: SchedulerView,
    w: WorldView,
    cpu: usize,
    chosen: Set<Seq<char>>,
    n: int,
) -> Map<Seq<char>, Seq<ItemView>> {
    Map::new(
        |c: Seq<char>| s.rq.contains_key(c),
        |c: Seq<char>|
            if searched_among(s, w, cpu, n, c) {
                left_after(s.rq[c], w, s.task_last_key, cpu, chosen)
            } else {
                s.rq[c]
            },
    )
}

/// The outcome of looking for a task for a CPU.
pub struct Pick {
    pub sched: SchedulerView,
    pub task: Option<Seq<char>>,
}

/// Looks for a task for `cpu`. The group entries are considered up to the first one that offers
/// a task. Of the entries considered the invalid ones are dropped and the others stay queued.
pub open spec fn pick(
    s: SchedulerView,
    w: WorldView,
    cpu: usize,
    chosen: Set<Seq<char>>,
) -> Pick {
    let k = group_position(s, w, cpu, chosen);
    let found = k < s.cg_heap.len();
    let n = if found {
        k + 1
    } else {
        k
    };
    Pick {
        sched: SchedulerView {
            cg_heap: s.cg_heap.take(n).filter(valid_groups(s, w)) + s.cg_heap.skip(n),
            rq: queues_after(s, w, cpu, chosen, n),
            ..s
        },
        task: if found {
            task_from(s.rq[s.cg_heap[k].id], w, s.task_last_key, cpu, chosen)
        } else {
            None
        },
    }
}

// ---------------------------------------------------------------------------
// Dispatching
// ---------------------------------------------------------------------------

/// The tasks among `picks`.
pub open spec fn chosen_in(picks: Seq<Option<Seq<char>>>) -> Set<Seq<char>> {
    Set::new(|id: Seq<char>| picks.contains(Some(id)))
}

/// The outcome of looking for a task for each CPU in turn.
pub struct Picks {
    pub sched: SchedulerView,
    pub picks: Seq<Option<Seq<char>>>,
}

/// Looks for a task for each of the first `n` CPUs in turn, each time among the tasks that were
/// not chosen before.
pub open spec fn pick_all(s: SchedulerView, w: WorldView, n: nat) -> Picks
    decreases n,
{
    if n == 0 {
        Picks { sched: s, picks: Seq::empty() }
    } else {
        let before = pick_all(s, w, (n - 1) as nat);
        let last = pick(before.sched, w, (n - 1) as usize, chosen_in(before.picks));
        Picks { sched: last.sched, picks: before.picks.push(last.task) }
    }
}

/// The name that stands in the schedule for what was picked.
pub open spec fn name_of(picked: Option<Seq<char>>) -> Seq<char> {
    match picked {
        Some(id) => id,
        None => IDLE@,
    }
}

/// The task that a name in the schedule stands for. The name of an idle CPU stands for none, also
/// where a task bears it.
pub open spec fn seat_of(name: Seq<char>) -> Option<Seq<char>> {
    if name == IDLE@ {
        None
    } else {
        Some(name)
    }
}

/// The schedule of what was picked.
pub open spec fn names_of(picks: Seq<Option<Seq<char>>>) -> Seq<Seq<char>> {
    picks.map_values(|p: Option<Seq<char>>| name_of(p))
}

/// The tasks of a schedule, by CPU.
pub open spec fn seats_of(schedule: Seq<Seq<char>>) -> Seq<Option<Seq<char>>> {
    schedule.map_values(|name: Seq<char>| seat_of(name))
}

/// No task has two seats.
pub open spec fn no_repeats(seats: Seq<Option<Seq<char>>>) -> bool {
    forall|i: int, j: int|
        0 <= i < j < seats.len() && seats[i] is Some ==> #[trigger] seats[i] != #[trigger] seats[j]
}

/// What ran on each of `n` CPUs before. Where this is not known for `n` CPUs, nothing did.
pub open spec fn previous(w: WorldView, n: nat) -> Seq<Option<Seq<char>>> {
    if w.last_schedule.len() == n {
        w.last_schedule
    } else {
        Seq::new(n, |cpu: int| None)
    }
}

/// The number of `cpu` below `n` with `p`.
pub open spec fn count_below(n: nat, p: spec_fn(int) -> bool) -> nat
    decreases n,
{
    if n == 0 {
        0
    } else {
        count_below((n - 1) as nat, p) + if p(n - 1) {
            1nat
        } else {
            0nat
        }
    }
}

/// On `cpu` something ran before that does not run now.
pub open spec fn preempted(w: WorldView, seats: Seq<Option<Seq<char>>>) -> spec_fn(int) -> bool {
    |cpu: int|
        previous(w, seats.len())[cpu] is Some && previous(w, seats.len())[cpu] != seats[cpu]
}

/// The task that runs on `cpu` last ran on another CPU.
pub open spec fn migrated(w: WorldView, seats: Seq<Option<Seq<char>>>) -> spec_fn(int) -> bool {
    |cpu: int|
        match seats[cpu] {
            Some(t) => match w.tasks[t].last_cpu {
                Some(last) => last != cpu,
                None => false,
            },
            None => false,
        }
}

/// The tasks after each one that has a seat was noted to run there.
pub open spec fn tasks_placed(
    tasks: Map<Seq<char>, TaskView>,
    seats: Seq<Option<Seq<char>>>,
) -> Map<Seq<char>, TaskView> {
    Map::new(
        |t: Seq<char>| tasks.contains_key(t),
        |t: Seq<char>|
            if seats.contains(Some(t)) {
                TaskView { last_cpu: Some(seats.index_of(Some(t)) as usize), ..tasks[t] }
            } else {
                tasks[t]
            },
    )
}

/// The world after the tasks took their seats.
pub open spec fn placed(w: WorldView, seats: Seq<Option<Seq<char>>>) -> WorldView {
    WorldView { tasks: tasks_placed(w.tasks, seats), last_schedule: seats, ..w }
}

/// The scheduler and the world together.
pub struct Both {
    pub sched: SchedulerView,
    pub world: WorldView,
}

/// The virtual runtime of a task is counted.
pub open spec fn counted(task: TaskView) -> bool {
    task.state == TaskState::Runnable && !task.burst_mode
}

/// `task` after it ran for a quantum.
pub open spec fn task_charged(quanta: i64, task: TaskView) -> TaskView {
    TaskView { vruntime: saturating_sum(task.vruntime, delta(quanta, task.weight)), ..task }
}

/// `group` after one of its tasks ran for a quantum.
pub open spec fn group_charged(quanta: i64, group: CgroupView) -> CgroupView {
    CgroupView {
        vruntime: saturating_sum(group.vruntime, group_delta(quanta, group.cpu_shares)),
        ..group
    }
}

/// Charges task `t` for the quantum that it ran, if its runtime is counted.
pub open spec fn charge_task(b: Both, t: Seq<char>) -> Both {
    let task = b.world.tasks[t];
    if counted(task) {
        let after = task_charged(b.sched.quanta, task);
        Both {
            sched: SchedulerView {
                task_last_key: b.sched.task_last_key.insert(t, after.vruntime),
                ..b.sched
            },
            world: b.world.with_task(t, after),
        }
    } else {
        b
    }
}

/// Charges control group `c` for a quantum, if it exists.
pub open spec fn charge_group(b: Both, c: Seq<char>) -> Both {
    if b.world.cgroups.contains_key(c) {
        let after = group_charged(b.sched.quanta, b.world.cgroups[c]);
        Both {
            sched: SchedulerView {
                cg_last_key: b.sched.cg_last_key.insert(c, after.vruntime),
                ..b.sched
            },
            world: b.world.with_cgroup(c, after),
        }
    } else {
        b
    }
}

/// Charges task `t` and its control group for a quantum, and queues both again.
pub open spec fn charge(b: Both, t: Seq<char>) -> Both {
    let c = b.world.tasks[t].group();
    let charged = charge_group(charge_task(b, t), c);
    Both {
        sched: queue_group(queue_task(charged.sched, charged.world, t), charged.world, c),
        world: charged.world,
    }
}

/// Charges the tasks of the first `n` seats in turn.
pub open spec fn charge_all(b: Both, seats: Seq<Option<Seq<char>>>, n: nat) -> Both
    decreases n,
{
    if n == 0 {
        b
    } else {
        let before = charge_all(b, seats, (n - 1) as nat);
        match seats[n - 1] {
            Some(t) => charge(before, t),
            None => before,
        }
    }
}

/// The outcome of giving each CPU a task for one quantum.
pub struct Dispatch {
    pub sched: SchedulerView,
    pub world: WorldView,
    pub schedule: Seq<Seq<char>>,
    pub preemptions: nat,
    pub migrations: nat,
}

/// Gives each CPU a task for one quantum.
pub open spec fn dispatch(s: SchedulerView, w: WorldView) -> Dispatch {
    let picked = pick_all(s, w, s.cpus as nat);
    let schedule = names_of(picked.picks);
    let seats = seats_of(schedule);
    let charged = charge_all(
        Both { sched: picked.sched, world: placed(w, seats) },
        seats,
        s.cpus as nat,
    );
    Dispatch {
        sched: charged.sched,
        world: charged.world,
        schedule,
        preemptions: count_below(s.cpus as nat, preempted(w, seats)),
        migrations: count_below(s.cpus as nat, migrated(w, seats)),
    }
}

/// `ids` lists the tasks in state `state`, each once and in increasing order.
pub open spec fn lists_state(
    ids: Seq<Seq<char>>,
    tasks: Map<Seq<char>, TaskView>,
    state: TaskState,
) -> bool {
    &&& idmap::increasing(ids)
    &&& forall|id: Seq<char>| #[trigger]
        ids.contains(id) <==> tasks.contains_key(id) && tasks[id].state == state
}

} // verus!
