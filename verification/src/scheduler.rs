//! The scheduler.

use serde_json::Value;
use vstd::prelude::*;

use crate::event;
use crate::event::{Event, EventError, EventView};
use crate::idmap;
use crate::idmap::IdMap;
use crate::json;
use crate::laws;
use crate::model;
use crate::model::{Cgroup, Task, TaskState, TaskView, World, WorldView, NICE_0_LOAD, ROOT_CGROUP};
use crate::placing;
use crate::queue;
use crate::queue::{EntryQueue, HeapItem, ItemView};
use crate::search;
use crate::state;
use crate::state::{Both, Dispatch, SchedulerView, IDLE};
use crate::text;
use crate::text::same_text;
use crate::tick;

verus! {

/// A scheduler that shares CPUs between control groups, and each group's part between its tasks,
/// by virtual runtime.
pub struct Scheduler {
    cpus: usize,
    quanta: i64,
    cg_heap: EntryQueue,
    cg_seq: u64,
    cg_last_key: IdMap<i64>,
    rq: IdMap<EntryQueue>,
    task_seq: u64,
    task_last_key: IdMap<i64>,
}

impl View for Scheduler {
    type V = SchedulerView;

    closed spec fn view(&self) -> SchedulerView {
        SchedulerView {
            cpus: self.cpus,
            quanta: self.quanta,
            cg_heap: self.cg_heap@,
            cg_seq: self.cg_seq,
            cg_last_key: self.cg_last_key@,
            rq: self.rq@,
            task_seq: self.task_seq,
            task_last_key: self.task_last_key@,
        }
    }
}

/// What a tick reports.
#[derive(Debug)]
pub struct TickResult {
    pub vtime: i64,
    pub schedule: Vec<String>,
    pub preemptions: u64,
    pub migrations: u64,
    pub runnable: Vec<String>,
    pub blocked: Vec<String>,
}

impl TickResult {
    /// The result tells of `d`, for the time `vtime`: who runs where, how many preemptions and
    /// migrations that took, and which tasks are now runnable and blocked.
    pub open spec fn reports(&self, vtime: i64, d: Dispatch) -> bool {
        &&& self.vtime == vtime
        &&& text::texts(self.schedule@) == d.schedule
        &&& self.preemptions == d.preemptions
        &&& self.migrations == d.migrations
        &&& state::lists_state(text::texts(self.runnable@), d.world.tasks, TaskState::Runnable)
        &&& state::lists_state(text::texts(self.blocked@), d.world.tasks, TaskState::Blocked)
    }
}

/// A tick at `vtime` with these events, begun in `b`, ends in `after` with `result`. If no event is
/// refused, the CPUs got their tasks, and the result reports on that. Otherwise the result tells
/// why the first event is refused that is, and nothing was done after that event.
pub open spec fn ended(
    b: Both,
    vtime: i64,
    events: Seq<Result<EventView, EventError>>,
    after: Both,
    result: Result<TickResult, EventError>,
) -> bool {
    let run = tick::prepared(b, events);
    match result {
        Ok(report) => {
            &&& run.refused is None
            &&& after.sched == tick::tick(b, events).sched
            &&& after.world == tick::tick(b, events).world
            &&& report.reports(vtime, tick::tick(b, events))
        },
        Err(e) => {
            &&& run.refused == Some(e)
            &&& after == run.both
        },
    }
}

/// A report gives the time of its tick, a name for each CPU, the counts, and the tasks that can run
/// and those that are blocked: each of them, nobody else, and in the order of their identifiers.
pub proof fn reports_tell_what_happened(r: TickResult, vtime: i64, d: Dispatch)
    requires
        r.reports(vtime, d),
    ensures
        r.vtime == vtime,
        r.schedule@.len() == d.schedule.len(),
        forall|cpu: int|
            0 <= cpu < d.schedule.len() ==> (#[trigger] r.schedule@[cpu])@ == d.schedule[cpu],
        r.preemptions == d.preemptions,
        r.migrations == d.migrations,
        forall|t: Seq<char>| #[trigger]
            d.world.tasks.contains_key(t) && d.world.tasks[t].state == TaskState::Runnable
                ==> exists|i: int|
                0 <= i < r.runnable@.len() && (#[trigger] r.runnable@[i])@ == t,
        forall|i: int|
            0 <= i < r.runnable@.len() ==> d.world.tasks.contains_key((#[trigger] r.runnable@[i])@)
                && d.world.tasks[r.runnable@[i]@].state == TaskState::Runnable,
        forall|i: int, j: int|
            0 <= i < j < r.runnable@.len() ==> text::text_lt(
                (#[trigger] r.runnable@[i])@,
                (#[trigger] r.runnable@[j])@,
            ),
        forall|t: Seq<char>| #[trigger]
            d.world.tasks.contains_key(t) && d.world.tasks[t].state == TaskState::Blocked
                ==> exists|i: int| 0 <= i < r.blocked@.len() && (#[trigger] r.blocked@[i])@ == t,
        forall|i: int|
            0 <= i < r.blocked@.len() ==> d.world.tasks.contains_key((#[trigger] r.blocked@[i])@)
                && d.world.tasks[r.blocked@[i]@].state == TaskState::Blocked,
        forall|i: int, j: int|
            0 <= i < j < r.blocked@.len() ==> text::text_lt(
                (#[trigger] r.blocked@[i])@,
                (#[trigger] r.blocked@[j])@,
            ),
{
    listed(r.runnable@, d.world.tasks, TaskState::Runnable);
    listed(r.blocked@, d.world.tasks, TaskState::Blocked);
    assert(text::texts(r.schedule@).len() == r.schedule@.len());
    assert forall|cpu: int| 0 <= cpu < d.schedule.len() implies (#[trigger] r.schedule@[cpu])@
        == d.schedule[cpu] by {
        assert(text::texts(r.schedule@)[cpu] == r.schedule@[cpu]@);
    }
}

/// A list of the tasks in a state names each of them, nobody else, and in order.
proof fn listed(list: Seq<String>, tasks: Map<Seq<char>, TaskView>, state: TaskState)
    requires
        state::lists_state(text::texts(list), tasks, state),
    ensures
        forall|t: Seq<char>| #[trigger]
            tasks.contains_key(t) && tasks[t].state == state ==> exists|i: int|
                0 <= i < list.len() && (#[trigger] list[i])@ == t,
        forall|i: int|
            0 <= i < list.len() ==> tasks.contains_key((#[trigger] list[i])@)
                && tasks[list[i]@].state == state,
        forall|i: int, j: int|
            0 <= i < j < list.len() ==> text::text_lt(
                (#[trigger] list[i])@,
                (#[trigger] list[j])@,
            ),
{
    let ids = text::texts(list);
    assert forall|t: Seq<char>| #[trigger]
        tasks.contains_key(t) && tasks[t].state == state implies exists|i: int|
        0 <= i < list.len() && (#[trigger] list[i])@ == t by {
        assert(ids.contains(t));
        let i = ids.index_of(t);
        assert(list[i]@ == t);
    }
    assert forall|i: int| 0 <= i < list.len() implies tasks.contains_key((#[trigger] list[i])@)
        && tasks[list[i]@].state == state by {
        assert(ids[i] == list[i]@);
        assert(ids.contains(ids[i]));
    }
    assert forall|i: int, j: int| 0 <= i < j < list.len() implies text::text_lt(
        (#[trigger] list[i])@,
        (#[trigger] list[j])@,
    ) by {
        assert(ids[i] == list[i]@ && ids[j] == list[j]@);
        assert(text::text_lt(ids[i], ids[j]));
    }
}

/// A tick without a refused event succeeds and leaves what its dispatch leaves, of which it reports.
/// A tick with one fails for the reason of the first, and leaves what the events up to that one
/// leave.
pub proof fn ticks_end_as_their_events_say(
    b: Both,
    vtime: i64,
    events: Seq<Result<EventView, EventError>>,
    after: Both,
    result: Result<TickResult, EventError>,
)
    requires
        ended(b, vtime, events, after, result),
    ensures
        tick::prepared(b, events).refused is None ==> result is Ok && after.sched == tick::tick(
            b,
            events,
        ).sched && after.world == tick::tick(b, events).world && result->Ok_0.reports(
            vtime,
            tick::tick(b, events),
        ),
        tick::prepared(b, events).refused matches Some(e) ==> result == Err::<
            TickResult,
            EventError,
        >(e) && after == tick::prepared(b, events).both,
{
}

/// The sum of `a` and `b`, or the bound of the type that it passes.
fn saturating_add(a: i64, b: i64) -> (sum: i64)
    ensures
        sum == state::saturating_sum(a, b),
        i64::MIN <= a + b <= i64::MAX ==> sum == a + b,
        a + b > i64::MAX ==> sum == i64::MAX,
        a + b < i64::MIN ==> sum == i64::MIN,
{
    let sum: i128 = a as i128 + b as i128;
    if sum > i64::MAX as i128 {
        i64::MAX
    } else if sum < i64::MIN as i128 {
        i64::MIN
    } else {
        sum as i64
    }
}

/// What the entries of a vector hold.
spec fn views(items: Seq<HeapItem>) -> Seq<ItemView> {
    items.map_values(|it: HeapItem| it@)
}

/// Puts `skipped` back in front of what is left of the queue.
fn requeue(queue: &mut EntryQueue, skipped: Vec<HeapItem>)
    requires
        queue::in_order(views(skipped@) + old(queue)@),
    ensures
        final(queue)@ == views(skipped@) + old(queue)@,
{
    let ghost all = views(skipped@);
    let ghost rest = queue@;
    let mut skipped = skipped;
    assert(all.take(all.len() as int) =~= all);
    proof {
        assert(all.skip(all.len() as int) + rest =~= rest);
    }
    loop
        invariant
            queue::in_order(all + rest),
            views(skipped@) == all.take(skipped@.len() as int),
            skipped@.len() <= all.len(),
            queue@ == all.skip(skipped@.len() as int) + rest,
        ensures
            queue@ == all + rest,
        decreases skipped@.len(),
    {
        let ghost n = skipped@.len() as int;
        let ghost before = skipped@;
        let ghost now = queue@;
        assert forall|i: int, j: int| 0 <= i < j < now.len() implies
            #[trigger] queue::precedes_or_same(now[i], now[j]) by {
            assert(queue::precedes_or_same((all + rest)[i + n], (all + rest)[j + n]));
        }
        match skipped.pop() {
            None => {
                assert(all.skip(0) + rest =~= all + rest);
                break;
            },
            Some(it) => {
                proof {
                    assert(views(before)[n - 1] == it@);
                    assert(all[n - 1] == it@);
                    if now.len() > 0 {
                        assert(queue::precedes_or_same((all + rest)[n - 1], (all + rest)[n]));
                    }
                    queue::with_item_at(now, it@, 0);
                    assert(now.insert(0, it@) =~= all.skip(n - 1) + rest);
                    assert(views(skipped@) =~= all.take(n - 1)) by {
                        assert(views(skipped@) =~= views(before).take(n - 1));
                        assert(all.take(n).take(n - 1) =~= all.take(n - 1));
                    }
                }
                queue.push(it);
            },
        }
    }
}

impl Scheduler {
    /// The maps and queues are in order.
    pub closed spec fn wf(&self) -> bool {
        &&& self.cg_last_key.wf()
        &&& self.rq.wf()
        &&& self.task_last_key.wf()
        &&& self@.in_order()
    }

    /// A scheduler keeps its queues in order.
    pub proof fn queues_in_order(&self)
        requires
            self.wf(),
        ensures
            self@.in_order(),
    {
    }

    /// A scheduler for `cpus` CPUs and a time slice of `quanta`.
    pub fn new(cpus: usize, quanta: i64) -> (scheduler: Self)
        ensures
            scheduler.wf(),
            scheduler@ == state::new_scheduler(cpus, quanta),
            scheduler@.cpus == cpus,
            scheduler@.quanta == quanta,
            scheduler@.cg_heap.len() == 0,
            scheduler@.cg_seq == 0,
            scheduler@.cg_last_key.dom().is_empty(),
            scheduler@.rq.dom().is_empty(),
            scheduler@.task_seq == 0,
            scheduler@.task_last_key.dom().is_empty(),
    {
        Scheduler {
            cpus,
            quanta,
            cg_heap: EntryQueue::new(),
            cg_seq: 0,
            cg_last_key: IdMap::new(),
            rq: IdMap::new(),
            task_seq: 0,
            task_last_key: IdMap::new(),
        }
    }

    /// The virtual runtime that a quantum costs a task of `weight`.
    fn vruntime_delta_task(&self, weight: u32) -> (delta: i64)
        requires
            weight > 0,
        ensures
            delta == state::delta(self@.quanta, weight),
    {
        ((self.quanta as i128 * NICE_0_LOAD as i128) / weight as i128) as i64
    }

    /// The virtual runtime that a quantum costs a control group with `shares`.
    fn vruntime_delta_cg(&self, shares: u32) -> (delta: i64)
        ensures
            delta == state::group_delta(self@.quanta, shares),
    {
        let shares: u32 = if shares == 0 {
            1
        } else {
            shares
        };
        ((self.quanta as i128 * NICE_0_LOAD as i128) / shares as i128) as i64
    }

    /// Creates the root control group if it is not there. Nothing else changes, and doing it once
    /// more changes nothing.
    pub fn ensure_root_cgroup(world: &mut World)
        requires
            old(world).wf(),
        ensures
            final(world).wf(),
            final(world)@ == state::with_root(old(world)@),
            final(world)@.cgroups.contains_key(ROOT_CGROUP@),
            old(world)@.cgroups.contains_key(ROOT_CGROUP@) ==> final(world)@ == old(world)@,
            state::with_root(final(world)@) == final(world)@,
    {
        if !world.cgroups.contains_key(ROOT_CGROUP) {
            world.cgroups.insert(ROOT_CGROUP.to_owned(), Cgroup::new(ROOT_CGROUP.to_owned()));
        }
    }

    /// The control group that `t` belongs to.
    fn task_cgid(t: &Task) -> (id: String)
        ensures
            id@ == t@.group(),
    {
        match &t.cgroup {
            Some(id) => id.clone(),
            None => ROOT_CGROUP.to_owned(),
        }
    }

    /// Queues the control group `cgid` at its current virtual runtime.
    fn push_cgroup(&mut self, world: &World, cgid: &str)
        requires
            old(self).wf(),
            world.wf(),
        ensures
            final(self).wf(),
            final(self)@ == state::queue_group(old(self)@, world@, cgid@),
    {
        match world.cgroups.get(cgid) {
            None => {},
            Some(cg) => {
                self.cg_seq = self.cg_seq.wrapping_add(1);
                self.cg_heap.push(
                    HeapItem { vruntime: cg.vruntime, seq: self.cg_seq, id: cgid.to_owned() },
                );
                self.cg_last_key.insert(cgid.to_owned(), cg.vruntime);
                assert(self@.rq == old(self)@.rq);
            },
        }
    }

    /// Queues the task `task_id` at its current virtual runtime, and its control group with it.
    fn push_task_into_cg(&mut self, world: &World, task_id: &str)
        requires
            old(self).wf(),
            world.wf(),
        ensures
            final(self).wf(),
            final(self)@ == state::queue_task(old(self)@, world@, task_id@),
    {
        let t = match world.tasks.get(task_id) {
            None => {
                return;
            },
            Some(t) => t,
        };
        if t.state != TaskState::Runnable {
            return;
        }
        let cgid = Self::task_cgid(t);
        let ghost before = self@;
        if !self.rq.contains_key(cgid.as_str()) {
            self.rq.insert(cgid.clone(), EntryQueue::new());
        }
        assert(self@.rq[cgid@] == state::queue_of(before, cgid@));
        assert(queue::in_order(self@.rq[cgid@]));
        self.task_seq = self.task_seq.wrapping_add(1);
        let item = HeapItem { vruntime: t.vruntime, seq: self.task_seq, id: task_id.to_owned() };
        if let Some(heap) = self.rq.get_mut(cgid.as_str()) {
            heap.push(item);
        }
        assert(self@.rq =~= before.rq.insert(
            cgid@,
            queue::with_item(state::queue_of(before, cgid@), item@),
        ));
        self.task_last_key.insert(task_id.to_owned(), t.vruntime);
        self.push_cgroup(world, cgid.as_str());
    }

    /// Whether the queued group `it` still stands for the group as it is now.
    fn is_cg_item_valid(&self, world: &World, it: &HeapItem) -> (valid: bool)
        requires
            self.wf(),
            world.wf(),
        ensures
            valid == state::group_entry_valid(self@, world@, it@),
    {
        match world.cgroups.get(it.id.as_str()) {
            None => false,
            Some(cg) => {
                if cg.vruntime != it.vruntime {
                    return false;
                }
                match self.cg_last_key.get(it.id.as_str()) {
                    None => true,
                    Some(key) => *key == it.vruntime,
                }
            },
        }
    }

    /// Whether the queued task `it` still stands for the task as it is now.
    fn is_task_item_valid_snapshot(
        world: &World,
        task_last_key: &IdMap<i64>,
        it: &HeapItem,
    ) -> (valid: bool)
        requires
            world.wf(),
            task_last_key.wf(),
        ensures
            valid == state::task_entry_valid(world@, task_last_key@, it@),
    {
        match world.tasks.get(it.id.as_str()) {
            None => false,
            Some(t) => {
                if t.state != TaskState::Runnable {
                    return false;
                }
                if t.vruntime != it.vruntime {
                    return false;
                }
                match task_last_key.get(it.id.as_str()) {
                    None => true,
                    Some(key) => *key == it.vruntime,
                }
            },
        }
    }

    /// Takes the first task that fits `cpu` out of `heap`, and drops the invalid entries that
    /// stand before it.
    fn take_task(
        heap: &mut EntryQueue,
        world: &World,
        task_last_key: &IdMap<i64>,
        cpu: usize,
        chosen: &IdMap<usize>,
    ) -> (found: Option<String>)
        requires
            queue::in_order(old(heap)@),
            world.wf(),
            task_last_key.wf(),
            chosen.wf(),
        ensures
            model::text_of(found) == state::task_from(
                old(heap)@,
                world@,
                task_last_key@,
                cpu,
                chosen@.dom(),
            ),
            final(heap)@ == state::left_after(
                old(heap)@,
                world@,
                task_last_key@,
                cpu,
                chosen@.dom(),
            ),
            queue::in_order(final(heap)@),
    {
        let ghost items = heap@;
        let ghost valid = state::valid_tasks(world@, task_last_key@);
        let ghost fits = state::fitting_tasks(world@, task_last_key@, cpu, chosen@.dom());
        let ghost mut n: int = 0;
        let mut skipped: Vec<HeapItem> = Vec::new();
        let mut found: Option<String> = None;
        proof {
            search::filter_none(items, valid);
            assert(items.skip(0) =~= items);
            assert(views(skipped@) =~= Seq::<ItemView>::empty());
        }
        loop
            invariant_except_break
                found is None,
                heap@ == items.skip(n),
                views(skipped@) == items.take(n).filter(valid),
            invariant
                world.wf(),
                task_last_key.wf(),
                chosen.wf(),
                valid == state::valid_tasks(world@, task_last_key@),
                fits == state::fitting_tasks(world@, task_last_key@, cpu, chosen@.dom()),
                0 <= n <= items.len(),
                forall|j: int| 0 <= j < n ==> !fits(#[trigger] items[j]),
            ensures
                match found {
                    None => n == items.len() && views(skipped@) == items.filter(valid)
                        && heap@.len() == 0,
                    Some(id) => {
                        &&& n < items.len()
                        &&& fits(items[n])
                        &&& id@ == items[n].id
                        &&& views(skipped@) == items.take(n).filter(valid)
                        &&& heap@ == items.skip(n + 1)
                    },
                },
            decreases items.len() - n,
        {
            match heap.pop() {
                None => {
                    assert(items.take(n) =~= items);
                    break;
                },
                Some(tit) => {
                    assert(tit@ == items[n]);
                    assert(items.skip(n).skip(1) =~= items.skip(n + 1));
                    let ghost before = views(skipped@);
                    proof {
                        search::filter_step(items, valid, n);
                    }
                    if !Self::is_task_item_valid_snapshot(world, task_last_key, &tit) {
                        proof {
                            n = n + 1;
                        }
                        continue;
                    }
                    let barred = chosen.contains_key(tit.id.as_str()) || match world.tasks.get(
                        tit.id.as_str(),
                    ) {
                        None => true,
                        Some(t) => !t.can_run_on(cpu),
                    };
                    if barred {
                        skipped.push(tit);
                        proof {
                            assert(views(skipped@) =~= before.push(tit@));
                            n = n + 1;
                        }
                        continue;
                    }
                    found = Some(tit.id);
                    break;
                },
            }
        }
        proof {
            search::first_where_is(items, fits, n);
            if found is Some {
                search::filtered_in_order(items, valid, n, n + 1);
            } else {
                search::filtered_in_order(items, valid, items.len() as int, items.len() as int);
                assert(items.take(items.len() as int) =~= items);
                assert(items.filter(valid) + items.skip(items.len() as int) =~= items.filter(
                    valid,
                ));
                assert(items.filter(valid) + heap@ =~= items.filter(valid));
            }
        }
        requeue(heap, skipped);
        found
    }

    /// Finds a task for `cpu` that is not among `chosen`, and takes its entry out of the queue.
    fn pick_for_cpu(
        &mut self,
        world: &World,
        cpu: usize,
        chosen: &IdMap<usize>,
    ) -> (picked: Option<String>)
        requires
            old(self).wf(),
            world.wf(),
            chosen.wf(),
        ensures
            final(self).wf(),
            final(self)@ == state::pick(old(self)@, world@, cpu, chosen@.dom()).sched,
            model::text_of(picked) == state::pick(old(self)@, world@, cpu, chosen@.dom()).task,
    {
        let ghost s = self@;
        let ghost w = world@;
        let ghost taken = chosen@.dom();
        let ghost valid = state::valid_groups(s, w);
        let ghost offers = state::offering_groups(s, w, cpu, taken);
        let ghost mut n: int = 0;
        let mut skipped: Vec<HeapItem> = Vec::new();
        let mut picked: Option<String> = None;
        proof {
            search::filter_none(s.cg_heap, valid);
            search::queues_start(s, w, cpu, taken);
            assert(s.cg_heap.skip(0) =~= s.cg_heap);
            assert(views(skipped@) =~= Seq::<ItemView>::empty());
        }
        loop
            invariant_except_break
                picked is None,
                forall|j: int| 0 <= j < n ==> !offers(#[trigger] s.cg_heap[j]),
            invariant
                self.wf(),
                world.wf(),
                chosen.wf(),
                w == world@,
                taken == chosen@.dom(),
                valid == state::valid_groups(s, w),
                offers == state::offering_groups(s, w, cpu, taken),
                s.in_order(),
                0 <= n <= s.cg_heap.len(),
                self@ == (SchedulerView {
                    cg_heap: s.cg_heap.skip(n),
                    rq: state::queues_after(s, w, cpu, taken, n),
                    ..s
                }),
                views(skipped@) == s.cg_heap.take(n).filter(valid),
            ensures
                match picked {
                    None => n == s.cg_heap.len() && state::group_position(s, w, cpu, taken) == n,
                    Some(id) => {
                        &&& n > 0
                        &&& state::group_position(s, w, cpu, taken) == n - 1
                        &&& Some(id@) == state::task_from(
                            s.rq[s.cg_heap[n - 1].id],
                            w,
                            s.task_last_key,
                            cpu,
                            taken,
                        )
                    },
                },
            decreases s.cg_heap.len() - n,
        {
            let ghost queues = self@.rq;
            assert(forall|c: Seq<char>| #[trigger]
                queues.contains_key(c) ==> queue::in_order(queues[c]));
            match self.cg_heap.pop() {
                None => {
                    proof {
                        search::first_where_is(s.cg_heap, offers, n);
                    }
                    break;
                },
                Some(cgit) => {
                    let ghost e = s.cg_heap[n];
                    let ghost before = views(skipped@);
                    assert(cgit@ == e);
                    proof {
                        assert(s.cg_heap.skip(n).skip(1) =~= s.cg_heap.skip(n + 1));
                        search::filter_step(s.cg_heap, valid, n);
                        search::queues_step(s, w, cpu, taken, n);
                    }
                    assert(queue::in_order(self@.cg_heap)) by {
                        let rest = self@.cg_heap;
                        assert forall|i: int, j: int| 0 <= i < j < rest.len() implies
                            #[trigger] queue::precedes_or_same(rest[i], rest[j]) by {
                            assert(queue::precedes_or_same(
                                s.cg_heap[i + n + 1],
                                s.cg_heap[j + n + 1],
                            ));
                        }
                    }
                    assert(self@.rq == queues);
                    if !self.is_cg_item_valid(world, &cgit) {
                        proof {
                            n = n + 1;
                        }
                        continue;
                    }
                    let barred = match world.cgroups.get(cgit.id.as_str()) {
                        None => true,
                        Some(cg) => !cg.can_run_on(cpu),
                    };
                    if barred || !self.rq.contains_key(cgit.id.as_str()) {
                        skipped.push(cgit);
                        proof {
                            assert(views(skipped@) =~= before.push(e));
                            n = n + 1;
                        }
                        continue;
                    }
                    let ghost items = s.rq[e.id];
                    let mut found: Option<String> = None;
                    proof {
                        assert(queue::in_order(queues[e.id]));
                        if state::searched_among(s, w, cpu, n, e.id) {
                            let i = choose|i: int|
                                0 <= i < n && (#[trigger] s.cg_heap[i]).id == e.id
                                    && state::group_entry_searched(s, w, cpu, s.cg_heap[i]);
                            assert(!offers(s.cg_heap[i]));
                            search::search_again(items, w, s.task_last_key, cpu, taken);
                        }
                    }
                    if let Some(heap) = self.rq.get_mut(cgit.id.as_str()) {
                        found = Self::take_task(heap, world, &self.task_last_key, cpu, chosen);
                    }
                    assert(self@.rq =~= queues.insert(
                        e.id,
                        state::left_after(items, w, s.task_last_key, cpu, taken),
                    ));
                    assert(model::text_of(found) == state::task_from(
                        items,
                        w,
                        s.task_last_key,
                        cpu,
                        taken,
                    ));
                    assert(self.wf());
                    skipped.push(cgit);
                    proof {
                        assert(views(skipped@) =~= before.push(e));
                        n = n + 1;
                    }
                    if let Some(id) = found {
                        proof {
                            search::first_where_is(s.cg_heap, offers, n - 1);
                        }
                        picked = Some(id);
                        break;
                    }
                },
            }
        }
        proof {
            search::filtered_in_order(s.cg_heap, valid, n, n);
        }
        let ghost queues = self@.rq;
        requeue(&mut self.cg_heap, skipped);
        assert(self@.rq == queues);
        picked
    }

    /// Finds a task for each CPU in turn, and returns the schedule.
    fn fill_cpus(&mut self, world: &World) -> (schedule: Vec<String>)
        requires
            old(self).wf(),
            world.wf(),
        ensures
            final(self).wf(),
            final(self)@ == state::pick_all(old(self)@, world@, old(self)@.cpus as nat).sched,
            text::texts(schedule@) == state::names_of(
                state::pick_all(old(self)@, world@, old(self)@.cpus as nat).picks,
            ),
    {
        let ghost s = self@;
        let ghost w = world@;
        let mut schedule: Vec<String> = Vec::new();
        let mut chosen: IdMap<usize> = IdMap::new();
        let mut cpu: usize = 0;
        proof {
            assert(chosen@.dom() =~= state::chosen_in(Seq::empty()));
            assert(text::texts(schedule@) =~= state::names_of(Seq::empty()));
        }
        while cpu < self.cpus
            invariant
                self.wf(),
                world.wf(),
                chosen.wf(),
                w == world@,
                cpu <= self.cpus,
                self.cpus == s.cpus,
                self@ == state::pick_all(s, w, cpu as nat).sched,
                chosen@.dom() == state::chosen_in(state::pick_all(s, w, cpu as nat).picks),
                text::texts(schedule@) == state::names_of(state::pick_all(s, w, cpu as nat).picks),
            decreases self.cpus - cpu,
        {
            let ghost picks = state::pick_all(s, w, cpu as nat).picks;
            let ghost names = text::texts(schedule@);
            let ghost taken = chosen@.dom();
            proof {
                laws::picking_keeps(s, w, cpu as nat);
                laws::picking_keeps(s, w, (cpu + 1) as nat);
            }
            match self.pick_for_cpu(world, cpu, &chosen) {
                Some(id) => {
                    proof {
                        let after = picks.push(Some(id@));
                        assert forall|t: Seq<char>| taken.insert(id@).contains(t)
                            == after.contains(Some(t)) by {
                            if taken.contains(t) {
                                let i = picks.index_of(Some(t));
                                assert(after[i] == Some(t));
                            }
                            if t == id@ {
                                assert(after[picks.len() as int] == Some(t));
                            }
                            if after.contains(Some(t)) && t != id@ {
                                let i = after.index_of(Some(t));
                                assert(picks[i] == Some(t));
                            }
                        }
                        assert(taken.insert(id@) =~= state::chosen_in(after));
                        assert(names.push(id@) =~= state::names_of(after));
                    }
                    chosen.insert(id.clone(), cpu);
                    assert(chosen@.dom() =~= taken.insert(id@));
                    schedule.push(id);
                    assert(text::texts(schedule@) =~= names.push(id@));
                },
                None => {
                    proof {
                        let after = picks.push(None);
                        assert forall|t: Seq<char>| taken.contains(t)
                            == after.contains(Some(t)) by {
                            if taken.contains(t) {
                                let i = picks.index_of(Some(t));
                                assert(after[i] == Some(t));
                            }
                            if after.contains(Some(t)) {
                                let i = after.index_of(Some(t));
                                assert(picks[i] == Some(t));
                            }
                        }
                        assert(taken =~= state::chosen_in(after));
                        assert(names.push(IDLE@) =~= state::names_of(after));
                    }
                    schedule.push(IDLE.to_owned());
                    assert(text::texts(schedule@) =~= names.push(IDLE@));
                },
            }
            cpu = cpu + 1;
        }
        schedule
    }

    /// Notes for each CPU what runs there now, and counts the preemptions and the migrations.
    fn place(world: &mut World, schedule: &Vec<String>) -> (counts: (u64, u64))
        requires
            old(world).wf(),
            state::no_repeats(state::seats_of(text::texts(schedule@))),
            forall|cpu: int|
                0 <= cpu < schedule@.len() ==> (#[trigger] state::seats_of(
                    text::texts(schedule@),
                )[cpu] matches Some(t) ==> old(world)@.tasks.contains_key(t)),
        ensures
            final(world).wf(),
            final(world)@ == state::placed(
                old(world)@,
                state::seats_of(text::texts(schedule@)),
            ),
            counts.0 == state::count_below(
                schedule@.len(),
                state::preempted(old(world)@, state::seats_of(text::texts(schedule@))),
            ),
            counts.1 == state::count_below(
                schedule@.len(),
                state::migrated(old(world)@, state::seats_of(text::texts(schedule@))),
            ),
    {
        let ghost w = world@;
        let ghost seats = state::seats_of(text::texts(schedule@));
        let cpus: usize = schedule.len();
        let ghost prev = state::previous(w, cpus as nat);
        if world.last_schedule.len() != cpus {
            let mut nothing: Vec<Option<String>> = Vec::new();
            while nothing.len() < cpus
                invariant
                    nothing@.len() <= cpus,
                    forall|i: int| 0 <= i < nothing@.len() ==> nothing@[i] is None,
                decreases cpus - nothing@.len(),
            {
                nothing.push(None);
            }
            world.last_schedule = nothing;
        }
        assert(world@.last_schedule =~= prev);
        let mut preemptions: u64 = 0;
        let mut migrations: u64 = 0;
        let mut cpu: usize = 0;
        proof {
            placing::placed_none(w.tasks, seats);
            assert(seats.take(0) + prev.skip(0) =~= prev);
            assert(world@ == WorldView { last_schedule: prev, ..w });
        }
        while cpu < cpus
            invariant
                world.wf(),
                cpus == schedule@.len(),
                cpu <= cpus,
                w.weights_positive(),
                seats == state::seats_of(text::texts(schedule@)),
                prev == state::previous(w, cpus as nat),
                prev.len() == cpus,
                state::no_repeats(seats),
                forall|c: int|
                    0 <= c < cpus ==> (#[trigger] seats[c] matches Some(t) ==> w.tasks.contains_key(
                        t,
                    )),
                world@ == (WorldView {
                    tasks: state::tasks_placed(w.tasks, seats.take(cpu as int)),
                    last_schedule: seats.take(cpu as int) + prev.skip(cpu as int),
                    ..w
                }),
                preemptions == state::count_below(cpu as nat, state::preempted(w, seats)),
                migrations == state::count_below(cpu as nat, state::migrated(w, seats)),
                preemptions <= cpu,
                migrations <= cpu,
            decreases cpus - cpu,
        {
            let now: &String = &schedule[cpu];
            let ghost before = world@;
            proof {
                placing::placed_step(w.tasks, seats, cpu as int);
                placing::count_at_most((cpu + 1) as nat, state::preempted(w, seats));
                placing::count_at_most((cpu + 1) as nat, state::migrated(w, seats));
                assert(before.last_schedule.len() == world.last_schedule@.len());
                assert(before.last_schedule.len() == cpus);
                assert(before.last_schedule[cpu as int] == prev[cpu as int]);
                assert(before.last_schedule[cpu as int] == model::text_of(
                    world.last_schedule@[cpu as int],
                ));
                assert(text::texts(schedule@)[cpu as int] == now@);
                assert(seats[cpu as int] == state::seat_of(now@));
            }
            if !same_text(now.as_str(), IDLE) {
                let ousted = match &world.last_schedule[cpu] {
                    Some(p) => !same_text(p.as_str(), now.as_str()),
                    None => false,
                };
                if ousted {
                    preemptions = preemptions + 1;
                }
                if let Some(t) = world.tasks.get_mut(now.as_str()) {
                    let moved = match t.last_cpu {
                        Some(last) => last != cpu,
                        None => false,
                    };
                    if moved {
                        migrations = migrations + 1;
                    }
                    t.last_cpu = Some(cpu);
                }
                world.last_schedule[cpu] = Some(now.clone());
            } else {
                if world.last_schedule[cpu].is_some() {
                    preemptions = preemptions + 1;
                }
                world.last_schedule[cpu] = None;
            }
            proof {
                assert(world@.last_schedule =~= before.last_schedule.update(
                    cpu as int,
                    seats[cpu as int],
                ));
                assert(world@.last_schedule =~= seats.take(cpu + 1) + prev.skip(cpu + 1));
                assert(world@.tasks == state::tasks_placed(w.tasks, seats.take(cpu + 1)));
            }
            cpu = cpu + 1;
        }
        proof {
            assert(seats.take(cpus as int) =~= seats);
            assert(seats + prev.skip(cpus as int) =~= seats);
        }
        (preemptions, migrations)
    }

    /// Charges the task `tid` and its control group for a quantum, and queues both again.
    fn charge(&mut self, world: &mut World, tid: &str)
        requires
            old(self).wf(),
            old(world).wf(),
            old(world)@.tasks.contains_key(tid@),
        ensures
            final(self).wf(),
            final(world).wf(),
            (Both { sched: final(self)@, world: final(world)@ }) == state::charge(
                Both { sched: old(self)@, world: old(world)@ },
                tid@,
            ),
    {
        let ghost b = Both { sched: self@, world: world@ };
        let mut cgid = ROOT_CGROUP.to_owned();
        if let Some(t) = world.tasks.get_mut(tid) {
            cgid = Self::task_cgid(t);
            if t.state == TaskState::Runnable && !t.burst_mode {
                t.vruntime = saturating_add(t.vruntime, self.vruntime_delta_task(t.weight));
                self.task_last_key.insert(tid.to_owned(), t.vruntime);
            }
        }
        let ghost b1 = Both { sched: self@, world: world@ };
        proof {
            let expected = state::charge_task(b, tid@);
            assert(b1.world.tasks =~= expected.world.tasks);
            assert(b1.sched.rq == b.sched.rq);
            assert(b1 == expected);
        }
        if let Some(cg) = world.cgroups.get_mut(cgid.as_str()) {
            cg.vruntime = saturating_add(cg.vruntime, self.vruntime_delta_cg(cg.cpu_shares));
            self.cg_last_key.insert(cgid.clone(), cg.vruntime);
        }
        proof {
            let expected = state::charge_group(b1, cgid@);
            assert(self@.rq == b1.sched.rq);
            assert(world@.cgroups =~= expected.world.cgroups);
            assert((Both { sched: self@, world: world@ }) == expected);
        }
        self.push_task_into_cg(world, tid);
        self.push_cgroup(world, cgid.as_str());
    }

    /// The identifiers of the tasks in state `state`, in order.
    fn ids_in_state(world: &World, state: TaskState) -> (ids: Vec<String>)
        requires
            world.wf(),
        ensures
            state::lists_state(text::texts(ids@), world@.tasks, state),
    {
        let mut ids: Vec<String> = Vec::new();
        let n: usize = world.tasks.len();
        let ghost keys = world.tasks.keys();
        proof {
            world.tasks.keys_are_domain();
        }
        let mut i: usize = 0;
        while i < n
            invariant
                world.wf(),
                keys == world.tasks.keys(),
                n == keys.len(),
                i <= n,
                idmap::increasing(keys),
                idmap::increasing(text::texts(ids@)),
                forall|id: Seq<char>| #[trigger]
                    text::texts(ids@).contains(id) <==> keys.take(i as int).contains(id)
                        && world@.tasks[id].state == state,
            decreases n - i,
        {
            let (id, t) = world.tasks.at(i);
            let ghost before = text::texts(ids@);
            let ghost some = keys.take(i as int);
            let ghost more = keys.take(i + 1);
            if t.state == state {
                ids.push(id.to_owned());
            }
            proof {
                let after = text::texts(ids@);
                assert(more =~= some.push(id@));
                assert(t.state == state ==> after =~= before.push(id@));
                assert forall|a: int, b: int| 0 <= a < b < after.len() implies
                    #[trigger] text::text_lt(after[a], after[b]) by {
                    if b < before.len() {
                        assert(text::text_lt(before[a], before[b]));
                    } else {
                        assert(before.contains(before[a]));
                        let c = some.index_of(before[a]);
                        assert(text::text_lt(keys[c], keys[i as int]));
                    }
                }
                assert forall|x: Seq<char>| #[trigger]
                    after.contains(x) <==> more.contains(x) && world@.tasks[x].state == state by {
                    if after.contains(x) {
                        let a = after.index_of(x);
                        if a < before.len() {
                            assert(before[a] == x);
                            assert(before.contains(x));
                            let c = some.index_of(x);
                            assert(more[c] == x);
                        } else {
                            assert(more[i as int] == x);
                        }
                    }
                    if more.contains(x) && world@.tasks[x].state == state {
                        let c = more.index_of(x);
                        if c < i {
                            assert(some[c] == x);
                            assert(before.contains(x));
                            let a = before.index_of(x);
                            assert(after[a] == x);
                        } else {
                            assert(after[before.len() as int] == x);
                        }
                    }
                }
            }
            i = i + 1;
        }
        assert(keys.take(n as int) =~= keys);
        ids
    }

    /// Gives each CPU a task for one quantum: the scheduling part of a tick, after its events.
    pub fn dispatch(&mut self, world: &mut World, vtime: i64) -> (result: TickResult)
        requires
            old(self).wf(),
            old(world).wf(),
        ensures
            final(self).wf(),
            final(world).wf(),
            final(self)@ == state::dispatch(old(self)@, old(world)@).sched,
            final(world)@ == state::dispatch(old(self)@, old(world)@).world,
            result.reports(vtime, state::dispatch(old(self)@, old(world)@)),
    {
        let ghost s = self@;
        let ghost w = world@;
        let ghost picked = state::pick_all(s, w, s.cpus as nat);
        let ghost seats = state::seats_of(state::names_of(picked.picks));
        let cpus: usize = self.cpus;
        proof {
            laws::picking_keeps(s, w, s.cpus as nat);
            laws::picked_tasks_distinct(s, w, s.cpus as nat);
            laws::picked_tasks_fit(s, w, s.cpus as nat);
            placing::seats_distinct(picked.picks);
        }
        let schedule = self.fill_cpus(world);
        assert(schedule@.len() == text::texts(schedule@).len());
        assert forall|cpu: int| 0 <= cpu < cpus implies (#[trigger] seats[cpu] matches Some(t)
            ==> w.tasks.contains_key(t)) by {
            assert(picked.picks[cpu] is Some || seats[cpu] is None);
        }
        let (preemptions, migrations) = Self::place(world, &schedule);
        let ghost b = Both { sched: self@, world: world@ };
        let mut cpu: usize = 0;
        while cpu < cpus
            invariant
                self.wf(),
                world.wf(),
                cpu <= cpus,
                schedule@.len() == cpus,
                seats == state::seats_of(text::texts(schedule@)),
                world@.tasks.dom() == w.tasks.dom(),
                forall|c: int|
                    0 <= c < cpus ==> (#[trigger] seats[c] matches Some(t) ==> w.tasks.contains_key(
                        t,
                    )),
                (Both { sched: self@, world: world@ }) == state::charge_all(b, seats, cpu as nat),
            decreases cpus - cpu,
        {
            let tid: &String = &schedule[cpu];
            assert(text::texts(schedule@)[cpu as int] == tid@);
            assert(seats[cpu as int] == state::seat_of(tid@));
            if !same_text(tid.as_str(), IDLE) {
                self.charge(world, tid.as_str());
                assert(world@.tasks.dom() =~= w.tasks.dom());
            }
            cpu = cpu + 1;
        }
        let runnable = Self::ids_in_state(world, TaskState::Runnable);
        let blocked = Self::ids_in_state(world, TaskState::Blocked);
        TickResult { vtime, schedule, preemptions, migrations, runnable, blocked }
    }

    /// The least virtual runtime of the runnable tasks; 0 if there are none.
    fn min_vruntime(world: &World) -> (v: i64)
        requires
            world.wf(),
        ensures
            v == tick::min_vruntime(world@),
    {
        let ghost w = world@;
        let ghost keys = world.tasks.keys();
        let n: usize = world.tasks.len();
        let mut least: Option<i64> = None;
        proof {
            world.tasks.keys_are_domain();
        }
        let mut i: usize = 0;
        while i < n
            invariant
                world.wf(),
                w == world@,
                keys == world.tasks.keys(),
                n == keys.len(),
                i <= n,
                match least {
                    None => forall|j: int| 0 <= j < i ==> !tick::runnable(w, #[trigger] keys[j]),
                    Some(v) => {
                        &&& exists|t: Seq<char>| #[trigger]
                            tick::runnable(w, t) && w.tasks[t].vruntime == v
                        &&& forall|j: int|
                            0 <= j < i && tick::runnable(w, #[trigger] keys[j])
                                ==> w.tasks[keys[j]].vruntime >= v
                    },
                },
            decreases n - i,
        {
            let (id, t) = world.tasks.at(i);
            if t.state == TaskState::Runnable {
                assert(tick::runnable(w, id@));
                least = match least {
                    Some(v) if v <= t.vruntime => Some(v),
                    _ => Some(t.vruntime),
                };
            }
            i = i + 1;
        }
        proof {
            assert forall|t: Seq<char>| #[trigger] tick::runnable(w, t) implies keys.contains(
                t,
            ) by {
                assert(w.tasks.contains_key(t));
            }
            if let Some(v) = least {
                assert(tick::is_min_vruntime(w, v));
                tick::min_vruntime_is(w, v);
            }
        }
        match least {
            Some(v) => v,
            None => 0,
        }
    }

    /// The greatest virtual runtime of the runnable tasks; 0 if there are none.
    fn max_vruntime(world: &World) -> (v: i64)
        requires
            world.wf(),
        ensures
            v == tick::max_vruntime(world@),
    {
        let ghost w = world@;
        let ghost keys = world.tasks.keys();
        let n: usize = world.tasks.len();
        let mut greatest: Option<i64> = None;
        proof {
            world.tasks.keys_are_domain();
        }
        let mut i: usize = 0;
        while i < n
            invariant
                world.wf(),
                w == world@,
                keys == world.tasks.keys(),
                n == keys.len(),
                i <= n,
                match greatest {
                    None => forall|j: int| 0 <= j < i ==> !tick::runnable(w, #[trigger] keys[j]),
                    Some(v) => {
                        &&& exists|t: Seq<char>| #[trigger]
                            tick::runnable(w, t) && w.tasks[t].vruntime == v
                        &&& forall|j: int|
                            0 <= j < i && tick::runnable(w, #[trigger] keys[j])
                                ==> w.tasks[keys[j]].vruntime <= v
                    },
                },
            decreases n - i,
        {
            let (id, t) = world.tasks.at(i);
            if t.state == TaskState::Runnable {
                assert(tick::runnable(w, id@));
                greatest = match greatest {
                    Some(v) if v >= t.vruntime => Some(v),
                    _ => Some(t.vruntime),
                };
            }
            i = i + 1;
        }
        proof {
            assert forall|t: Seq<char>| #[trigger] tick::runnable(w, t) implies keys.contains(
                t,
            ) by {
                assert(w.tasks.contains_key(t));
            }
            if let Some(v) = greatest {
                assert(tick::is_max_vruntime(w, v));
                tick::max_vruntime_is(w, v);
            }
        }
        match greatest {
            Some(v) => v,
            None => 0,
        }
    }

    /// Sends the tasks of the control group `cgid` back to the root group.
    fn free_tasks(world: &mut World, cgid: &str)
        requires
            old(world).wf(),
        ensures
            final(world).wf(),
            final(world)@ == (WorldView {
                tasks: tick::tasks_freed(old(world)@.tasks, cgid@),
                ..old(world)@
            }),
    {
        let ghost w = world@;
        let ghost keys = world.tasks.keys();
        let ghost freed = tick::tasks_freed(w.tasks, cgid@);
        let n: usize = world.tasks.len();
        proof {
            world.tasks.keys_are_domain();
        }
        let mut i: usize = 0;
        while i < n
            invariant
                world.wf(),
                keys == world.tasks.keys(),
                keys.no_duplicates(),
                n == keys.len(),
                i <= n,
                freed == tick::tasks_freed(w.tasks, cgid@),
                forall|j: int| 0 <= j < n ==> w.tasks.contains_key(#[trigger] keys[j]),
                world@ == (WorldView { tasks: world@.tasks, ..w }),
                world@.tasks.dom() == w.tasks.dom(),
                forall|j: int| 0 <= j < i ==> world@.tasks[#[trigger] keys[j]] == freed[keys[j]],
                forall|j: int| i <= j < n ==> world@.tasks[#[trigger] keys[j]] == w.tasks[keys[j]],
            decreases n - i,
        {
            let ghost before = world@.tasks;
            let t = world.tasks.at_mut(i);
            let member = match &t.cgroup {
                Some(id) => same_text(id.as_str(), cgid),
                None => false,
            };
            if member {
                t.cgroup = None;
            }
            proof {
                let k = keys[i as int];
                assert(w.tasks.contains_key(k));
                assert(world@.tasks =~= before.insert(k, freed[k]));
                assert(world@.tasks.dom() =~= w.tasks.dom());
            }
            i = i + 1;
        }
        proof {
            assert forall|t: Seq<char>| #[trigger] w.tasks.contains_key(t) implies world@.tasks[t]
                == freed[t] by {
                assert(keys.contains(t));
                assert(keys[keys.index_of(t)] == t);
            }
            assert(world@.tasks =~= freed);
        }
    }

    /// Puts the task `id` into state `state`, if it exists.
    fn set_state(world: &mut World, id: &str, state: TaskState)
        requires
            old(world).wf(),
        ensures
            final(world).wf(),
            final(world)@ == tick::task_changed(
                old(world)@,
                id@,
                (TaskView { state, ..old(world)@.tasks[id@] }),
            ),
    {
        let ghost w = world@;
        if let Some(t) = world.tasks.get_mut(id) {
            t.state = state;
        }
        proof {
            let after = (TaskView { state, ..w.tasks[id@] });
            assert(world@.tasks =~= tick::task_changed(w, id@, after).tasks);
        }
    }

    /// Lets the task `id` run again, if it exists, at a virtual runtime of at least `least`. In
    /// burst mode its virtual runtime stays.
    fn wake(world: &mut World, id: &str, least: i64)
        requires
            old(world).wf(),
        ensures
            final(world).wf(),
            final(world)@ == tick::task_changed(
                old(world)@,
                id@,
                tick::woken(old(world)@.tasks[id@], least),
            ),
    {
        let ghost w = world@;
        if let Some(t) = world.tasks.get_mut(id) {
            t.state = TaskState::Runnable;
            if !t.burst_mode && t.vruntime < least {
                t.vruntime = least;
            }
        }
        proof {
            let after = tick::woken(w.tasks[id@], least);
            assert(world@.tasks =~= tick::task_changed(w, id@, after).tasks);
        }
    }

    /// Puts the task `id` behind all others, if it exists, by setting its virtual runtime to
    /// `greatest`. In burst mode its virtual runtime stays.
    fn put_last(world: &mut World, id: &str, greatest: i64)
        requires
            old(world).wf(),
        ensures
            final(world).wf(),
            final(world)@ == tick::task_changed(
                old(world)@,
                id@,
                tick::yielded(old(world)@.tasks[id@], greatest),
            ),
    {
        let ghost w = world@;
        if let Some(t) = world.tasks.get_mut(id) {
            if !t.burst_mode {
                t.vruntime = greatest;
            }
        }
        proof {
            let after = tick::yielded(w.tasks[id@], greatest);
            assert(world@.tasks =~= tick::task_changed(w, id@, after).tasks);
        }
    }

    /// Sets the nice value of the task `id`, if it exists.
    fn set_task_nice(world: &mut World, id: &str, nice: i32)
        requires
            old(world).wf(),
        ensures
            final(world).wf(),
            final(world)@ == tick::task_changed(
                old(world)@,
                id@,
                old(world)@.tasks[id@].with_nice(nice),
            ),
    {
        let ghost w = world@;
        if let Some(t) = world.tasks.get_mut(id) {
            t.set_nice(nice);
        }
        proof {
            model::weights_are_positive(model::clamp_nice(nice));
            let after = w.tasks[id@].with_nice(nice);
            assert(world@.tasks =~= tick::task_changed(w, id@, after).tasks);
        }
    }

    /// Sets the affinity of the task `id`, if it exists.
    fn set_affinity(world: &mut World, id: &str, mask: u64)
        requires
            old(world).wf(),
        ensures
            final(world).wf(),
            final(world)@ == tick::task_changed(
                old(world)@,
                id@,
                (TaskView { affinity_mask: mask, ..old(world)@.tasks[id@] }),
            ),
    {
        let ghost w = world@;
        if let Some(t) = world.tasks.get_mut(id) {
            t.affinity_mask = mask;
        }
        proof {
            let after = (TaskView { affinity_mask: mask, ..w.tasks[id@] });
            assert(world@.tasks =~= tick::task_changed(w, id@, after).tasks);
        }
    }

    /// Moves the task `id` to another control group, if it exists.
    fn set_cgroup(world: &mut World, id: &str, cgroup: Option<String>)
        requires
            old(world).wf(),
        ensures
            final(world).wf(),
            final(world)@ == tick::task_changed(
                old(world)@,
                id@,
                (TaskView { cgroup: model::text_of(cgroup), ..old(world)@.tasks[id@] }),
            ),
    {
        let ghost w = world@;
        if let Some(t) = world.tasks.get_mut(id) {
            t.cgroup = cgroup;
        }
        proof {
            let after = (TaskView { cgroup: model::text_of(cgroup), ..w.tasks[id@] });
            assert(world@.tasks =~= tick::task_changed(w, id@, after).tasks);
        }
    }

    /// Stops the count of the virtual runtime of the task `id`, if it exists.
    fn set_burst(world: &mut World, id: &str)
        requires
            old(world).wf(),
        ensures
            final(world).wf(),
            final(world)@ == tick::task_changed(
                old(world)@,
                id@,
                (TaskView { burst_mode: true, ..old(world)@.tasks[id@] }),
            ),
    {
        let ghost w = world@;
        if let Some(t) = world.tasks.get_mut(id) {
            t.burst_mode = true;
        }
        proof {
            let after = (TaskView { burst_mode: true, ..w.tasks[id@] });
            assert(world@.tasks =~= tick::task_changed(w, id@, after).tasks);
        }
    }

    /// Sets the shares and the mask of the control group `id`, as far as they are given; creates
    /// the group if it does not exist.
    fn set_group(world: &mut World, id: &str, shares: Option<u32>, mask: Option<u64>)
        requires
            old(world).wf(),
        ensures
            final(world).wf(),
            final(world)@ == old(world)@.with_cgroup(
                id@,
                tick::group_set(tick::group_or_new(old(world)@, id@), shares, mask),
            ),
    {
        let ghost w = world@;
        if !world.cgroups.contains_key(id) {
            world.cgroups.insert(id.to_owned(), Cgroup::new(id.to_owned()));
        }
        if let Some(cg) = world.cgroups.get_mut(id) {
            if let Some(shares) = shares {
                cg.cpu_shares = shares;
            }
            if let Some(mask) = mask {
                cg.cpu_mask = mask;
            }
        }
        proof {
            let after = tick::group_set(tick::group_or_new(w, id@), shares, mask);
            assert(world@.cgroups =~= w.cgroups.insert(id@, after));
        }
    }

    /// The same text once more.
    fn copied(text: &Option<String>) -> (copy: Option<String>)
        ensures
            model::text_of(copy) == model::text_of(*text),
    {
        match text {
            Some(text) => Some(text.clone()),
            None => None,
        }
    }

    /// Carries out an event.
    pub fn perform(&mut self, world: &mut World, event: &Event) -> (outcome: Result<
        (),
        EventError,
    >)
        requires
            old(self).wf(),
            old(world).wf(),
        ensures
            final(self).wf(),
            final(world).wf(),
            (Both { sched: final(self)@, world: final(world)@ }) == tick::perform(
                Both { sched: old(self)@, world: old(world)@ },
                event@,
            ),
            match outcome {
                Ok(()) => tick::refusal(event@) is None,
                Err(e) => tick::refusal(event@) == Some(e),
            },
    {
        match event {
            Event::TaskCreate { id, nice, vruntime, affinity, cgroup } => {
                proof {
                    model::weights_are_positive(model::clamp_nice(*nice));
                }
                let task = Task::new(
                    id.clone(),
                    *nice,
                    *vruntime,
                    *affinity,
                    Self::copied(cgroup),
                );
                world.tasks.insert(id.clone(), task);
                self.push_task_into_cg(world, id.as_str());
            },
            Event::TaskExit { id } => {
                Self::set_state(world, id.as_str(), TaskState::Exited);
            },
            Event::TaskBlock { id } => {
                Self::set_state(world, id.as_str(), TaskState::Blocked);
            },
            Event::TaskUnblock { id } => {
                let least: i64 = Self::min_vruntime(world);
                Self::wake(world, id.as_str(), least);
                self.push_task_into_cg(world, id.as_str());
            },
            Event::TaskYield { id } => {
                let greatest: i64 = Self::max_vruntime(world);
                Self::put_last(world, id.as_str(), greatest);
                self.push_task_into_cg(world, id.as_str());
            },
            Event::TaskSetNice { id, nice } => {
                Self::set_task_nice(world, id.as_str(), *nice);
                self.push_task_into_cg(world, id.as_str());
            },
            Event::TaskSetAffinity { id, mask } => {
                Self::set_affinity(world, id.as_str(), *mask);
                self.push_task_into_cg(world, id.as_str());
            },
            Event::TaskMoveCgroup { id, cgroup } => {
                Self::set_cgroup(world, id.as_str(), Self::copied(cgroup));
                self.push_task_into_cg(world, id.as_str());
            },
            Event::CgroupCreate { id, shares, mask } => {
                let mut cg = Cgroup::new(id.clone());
                if let Some(shares) = *shares {
                    cg.cpu_shares = shares;
                }
                if let Some(mask) = *mask {
                    cg.cpu_mask = mask;
                }
                world.cgroups.insert(id.clone(), cg);
                self.push_cgroup(world, id.as_str());
            },
            Event::CgroupModify { id, shares, mask } => {
                match *mask {
                    Ok(mask) => {
                        Self::set_group(world, id.as_str(), *shares, mask);
                        self.push_cgroup(world, id.as_str());
                    },
                    Err(e) => {
                        Self::set_group(world, id.as_str(), *shares, None);
                        return Err(e);
                    },
                }
            },
            Event::CgroupDelete { id } => {
                world.cgroups.remove(id.as_str());
                Self::free_tasks(world, id.as_str());
            },
            Event::CpuBurst { id } => {
                Self::set_burst(world, id.as_str());
                self.push_task_into_cg(world, id.as_str());
            },
            Event::Ignored => {},
        }
        Ok(())
    }

    /// Carries out an event, if it could be decoded.
    fn apply_event(
        &mut self,
        world: &mut World,
        event: &Result<Event, EventError>,
    ) -> (outcome: Result<(), EventError>)
        requires
            old(self).wf(),
            old(world).wf(),
        ensures
            final(self).wf(),
            final(world).wf(),
            ({
                let run = tick::run_one(
                    Both { sched: old(self)@, world: old(world)@ },
                    event::decoded(*event),
                );
                &&& (Both { sched: final(self)@, world: final(world)@ }) == run.both
                &&& match outcome {
                    Ok(()) => run.refused is None,
                    Err(e) => run.refused == Some(e),
                }
            }),
    {
        match event {
            Ok(event) => self.perform(world, event),
            Err(e) => Err(*e),
        }
    }

    /// Runs a tick on events that are decoded: carries them out in turn, up to the first one that
    /// is refused, and then gives each CPU a task for one quantum.
    pub fn tick(
        &mut self,
        world: &mut World,
        vtime: i64,
        events: &[Result<Event, EventError>],
    ) -> (result: Result<TickResult, EventError>)
        requires
            old(self).wf(),
            old(world).wf(),
        ensures
            final(self).wf(),
            final(world).wf(),
            ended(
                Both { sched: old(self)@, world: old(world)@ },
                vtime,
                event::all_decoded(events@),
                Both { sched: final(self)@, world: final(world)@ },
                result,
            ),
    {
        let ghost b = Both { sched: self@, world: world@ };
        let ghost list = event::all_decoded(events@);
        Self::ensure_root_cgroup(world);
        let mut i: usize = 0;
        assert(list.take(0) =~= Seq::empty());
        while i < events.len()
            invariant
                self.wf(),
                world.wf(),
                i <= events@.len(),
                b == (Both { sched: old(self)@, world: old(world)@ }),
                list == event::all_decoded(events@),
                (tick::Run {
                    both: Both { sched: self@, world: world@ },
                    refused: None,
                }) == tick::prepared(b, list.take(i as int)),
            decreases events@.len() - i,
        {
            proof {
                let some = list.take(i + 1);
                assert(some.drop_last() =~= list.take(i as int));
                assert(some.last() == event::decoded(events@[i as int]));
            }
            match self.apply_event(world, &events[i]) {
                Ok(()) => {},
                Err(e) => {
                    proof {
                        tick::refusal_is_final(
                            Both { world: state::with_root(b.world), ..b },
                            list,
                            i + 1,
                        );
                    }
                    return Err(e);
                },
            }
            i = i + 1;
        }
        assert(list.take(list.len() as int) =~= list);
        Ok(self.dispatch(world, vtime))
    }

    /// Runs a tick: takes in its events in turn, up to the first one that is refused, and then
    /// gives each CPU a task for one quantum.
    pub fn on_tick(&mut self, world: &mut World, vtime: i64, events: &[Value]) -> (result: Result<
        TickResult,
        EventError,
    >)
        requires
            old(self).wf(),
            old(world).wf(),
        ensures
            final(self).wf(),
            final(world).wf(),
            ended(
                Both { sched: old(self)@, world: old(world)@ },
                vtime,
                json::events_in(events@),
                Both { sched: final(self)@, world: final(world)@ },
                result,
            ),
    {
        let list = json::read_events(events);
        self.tick(world, vtime, list.as_slice())
    }
}

} // verus!
