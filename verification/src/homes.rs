//! Where queued tasks belong: while no task changes its group, every queue holds tasks of its own
//! group only, and the mask of a group holds for its tasks.

use vstd::prelude::*;

use crate::event::{EventError, EventView};
use crate::laws;
use crate::model;
use crate::model::WorldView;
use crate::queue;
use crate::queue::ItemView;
use crate::search;
use crate::state;
use crate::state::{Both, SchedulerView, IDLE};
use crate::tick;

verus! {

/// Every queue holds entries of existing tasks of its own group only.
pub open spec fn at_home(s: SchedulerView, w: WorldView) -> bool {
    forall|c: Seq<char>, e: ItemView| #[trigger]
        state::queue_of(s, c).contains(e) ==> w.tasks.contains_key(e.id) && w.tasks[e.id].group()
            == c
}

/// Every task of `w` is in the same group in `v`.
pub open spec fn same_groups(w: WorldView, v: WorldView) -> bool {
    forall|t: Seq<char>| #[trigger]
        w.tasks.contains_key(t) ==> v.tasks.contains_key(t) && v.tasks[t].group()
            == w.tasks[t].group()
}

/// Queueing a task puts it where it belongs.
proof fn queueing_keeps_homes(s: SchedulerView, w: WorldView, t: Seq<char>)
    requires
        at_home(s, w),
    ensures
        at_home(state::queue_task(s, w, t), w),
{
    let after = state::queue_task(s, w, t);
    if tick::runnable(w, t) {
        let g = w.tasks[t].group();
        let item = ItemView {
            vruntime: w.tasks[t].vruntime,
            seq: state::next_seq(s.task_seq),
            id: t,
        };
        queue::with_item_contains(state::queue_of(s, g), item);
        assert forall|c: Seq<char>, e: ItemView| #[trigger]
            state::queue_of(after, c).contains(e) implies w.tasks.contains_key(e.id)
            && w.tasks[e.id].group() == c by {
            if c != g || e != item {
                assert(state::queue_of(s, c).contains(e));
            }
        }
    }
}

/// A world in which every task is in the same group leaves the queues as right as they were.
proof fn same_groups_keep_homes(s: SchedulerView, w: WorldView, v: WorldView)
    requires
        at_home(s, w),
        same_groups(w, v),
    ensures
        at_home(s, v),
{
}

/// Every event that leaves each task in its group keeps all tasks in the queues where they belong.
pub proof fn events_keep_homes(b: Both, e: EventView)
    requires
        at_home(b.sched, b.world),
        same_groups(b.world, tick::perform(b, e).world),
    ensures
        at_home(tick::perform(b, e).sched, tick::perform(b, e).world),
{
    let after = tick::perform(b, e);
    same_groups_keep_homes(b.sched, b.world, after.world);
    match e {
        EventView::TaskCreate { id, .. }
        | EventView::TaskUnblock { id }
        | EventView::TaskYield { id }
        | EventView::TaskSetNice { id, .. }
        | EventView::TaskSetAffinity { id, .. }
        | EventView::TaskMoveCgroup { id, .. }
        | EventView::CpuBurst { id } => {
            queueing_keeps_homes(b.sched, after.world, id);
        },
        _ => {
            assert(after.sched.rq == b.sched.rq);
            assert forall|c: Seq<char>, x: ItemView| #[trigger]
                state::queue_of(after.sched, c).contains(x) implies state::queue_of(
                b.sched,
                c,
            ).contains(x) by {}
        },
    }
}

/// Searching a queue adds nothing to it.
pub proof fn search_adds_nothing(
    items: Seq<ItemView>,
    w: WorldView,
    task_last_key: Map<Seq<char>, i64>,
    cpu: usize,
    chosen: Set<Seq<char>>,
    e: ItemView,
)
    requires
        state::left_after(items, w, task_last_key, cpu, chosen).contains(e),
    ensures
        items.contains(e),
{
    let fits = state::fitting_tasks(w, task_last_key, cpu, chosen);
    let valid = state::valid_tasks(w, task_last_key);
    let k = state::first_where(items, fits);
    let left = state::left_after(items, w, task_last_key, cpu, chosen);
    search::first_where_properties(items, fits);
    if k < items.len() {
        let front = items.take(k);
        let kept = front.filter(valid);
        search::filter_contains(front, valid);
        let i = left.index_of(e);
        if i < kept.len() {
            assert(kept.contains(kept[i]));
            assert(items[front.index_of(e)] == e);
        } else {
            assert(items[i - kept.len() + k + 1] == e);
        }
    } else {
        search::filter_contains(items, valid);
    }
}

/// Looking for tasks keeps all tasks in the queues where they belong.
pub proof fn picks_keep_homes(s: SchedulerView, w: WorldView, n: nat)
    requires
        at_home(s, w),
    ensures
        at_home(state::pick_all(s, w, n).sched, w),
    decreases n,
{
    if n > 0 {
        let m = (n - 1) as nat;
        picks_keep_homes(s, w, m);
        let before = state::pick_all(s, w, m);
        let chosen = state::chosen_in(before.picks);
        let after = state::pick(before.sched, w, m as usize, chosen).sched;
        assert forall|c: Seq<char>, e: ItemView| #[trigger]
            state::queue_of(after, c).contains(e) implies state::queue_of(
            before.sched,
            c,
        ).contains(e) by {
            assert(before.sched.rq.contains_key(c));
            if !before.sched.rq[c].contains(e) {
                search_adds_nothing(
                    before.sched.rq[c],
                    w,
                    before.sched.task_last_key,
                    m as usize,
                    chosen,
                    e,
                );
            }
        }
    }
}

/// Charging tasks keeps the queues right.
proof fn charges_keep_homes(b: Both, seats: Seq<Option<Seq<char>>>, n: nat)
    requires
        at_home(b.sched, b.world),
        forall|cpu: int|
            0 <= cpu < n ==> (#[trigger] seats[cpu] matches Some(t) ==> b.world.tasks.contains_key(
                t,
            )),
    ensures
        at_home(state::charge_all(b, seats, n).sched, state::charge_all(b, seats, n).world),
        same_groups(b.world, state::charge_all(b, seats, n).world),
    decreases n,
{
    if n > 0 {
        let m = (n - 1) as nat;
        charges_keep_homes(b, seats, m);
        let before = state::charge_all(b, seats, m);
        if let Some(t) = seats[m as int] {
            assert(before.world.tasks.contains_key(t));
            let c = before.world.tasks[t].group();
            let charged = state::charge_group(state::charge_task(before, t), c);
            same_groups_keep_homes(before.sched, before.world, charged.world);
            assert forall|d: Seq<char>, e: ItemView| #[trigger]
                state::queue_of(charged.sched, d).contains(e) implies state::queue_of(
                before.sched,
                d,
            ).contains(e) by {}
            queueing_keeps_homes(charged.sched, charged.world, t);
            let queued = state::queue_task(charged.sched, charged.world, t);
            let last = state::charge(before, t);
            assert forall|d: Seq<char>, e: ItemView| #[trigger]
                state::queue_of(last.sched, d).contains(e) implies state::queue_of(
                queued,
                d,
            ).contains(e) by {}
        }
    }
}

/// Giving the CPUs their tasks keeps all tasks in the queues where they belong.
pub proof fn dispatch_keeps_homes(b: Both)
    requires
        at_home(b.sched, b.world),
    ensures
        at_home(
            state::dispatch(b.sched, b.world).sched,
            state::dispatch(b.sched, b.world).world,
        ),
{
    let n = b.sched.cpus as nat;
    let w = b.world;
    let picked = state::pick_all(b.sched, w, n);
    let seats = state::seats_of(state::names_of(picked.picks));
    let v = state::placed(w, seats);
    laws::picking_keeps(b.sched, w, n);
    laws::picked_tasks_fit(b.sched, w, n);
    picks_keep_homes(b.sched, w, n);
    same_groups_keep_homes(picked.sched, w, v);
    assert forall|cpu: int| 0 <= cpu < n implies (#[trigger] seats[cpu] matches Some(t)
        ==> v.tasks.contains_key(t)) by {
        assert(picked.picks[cpu] is Some || seats[cpu] is None);
    }
    charges_keep_homes(Both { sched: picked.sched, world: v }, seats, n);
}

/// A scheduler to which nothing has been queued has nothing in a wrong place.
pub proof fn new_scheduler_is_at_home(cpus: usize, quanta: i64, w: WorldView)
    ensures
        at_home(state::new_scheduler(cpus, quanta), w),
{
}

/// No event of a tick takes a task to another group.
pub open spec fn regroups_nothing(b: Both, events: Seq<Result<EventView, EventError>>) -> bool {
    forall|i: int|
        0 <= i < events.len() ==> (#[trigger] events[i] matches Ok(e) ==> same_groups(
            tick::run(b, events.take(i)).both.world,
            tick::perform(tick::run(b, events.take(i)).both, e).world,
        ))
}

/// Running events keeps all tasks in the queues where they belong, if none of them takes a task to
/// another group.
proof fn run_keeps_homes(b: Both, events: Seq<Result<EventView, EventError>>)
    requires
        at_home(b.sched, b.world),
        regroups_nothing(b, events),
    ensures
        at_home(tick::run(b, events).both.sched, tick::run(b, events).both.world),
    decreases events.len(),
{
    if events.len() > 0 {
        let front = events.drop_last();
        assert(events.take(events.len() - 1) =~= front);
        assert forall|i: int| 0 <= i < front.len() implies (#[trigger] front[i] matches Ok(e)
            ==> same_groups(
            tick::run(b, front.take(i)).both.world,
            tick::perform(tick::run(b, front.take(i)).both, e).world,
        )) by {
            assert(front.take(i) =~= events.take(i));
            assert(events[i] == front[i]);
        }
        run_keeps_homes(b, front);
        let before = tick::run(b, front);
        if before.refused is None {
            if let Ok(e) = events[events.len() - 1] {
                events_keep_homes(before.both, e);
            }
        }
    }
}

/// A tick keeps all tasks in the queues where they belong, whether its events are accepted or not,
/// if none of them takes a task to another group.
pub proof fn tick_keeps_homes(b: Both, events: Seq<Result<EventView, EventError>>)
    requires
        at_home(b.sched, b.world),
        regroups_nothing(Both { world: state::with_root(b.world), ..b }, events),
    ensures
        at_home(tick::prepared(b, events).both.sched, tick::prepared(b, events).both.world),
        at_home(tick::tick(b, events).sched, tick::tick(b, events).world),
{
    same_groups_keep_homes(b.sched, b.world, state::with_root(b.world));
    run_keeps_homes(Both { world: state::with_root(b.world), ..b }, events);
    dispatch_keeps_homes(tick::prepared(b, events).both);
}

/// A task runs only where its group exists and may run, as long as the queues hold tasks of their
/// own group only.
pub proof fn group_masks_hold(b: Both, cpu: nat)
    requires
        at_home(b.sched, b.world),
        cpu < b.sched.cpus,
    ensures
        state::seat_of(state::dispatch(b.sched, b.world).schedule[cpu as int]) matches Some(t) ==> {
            let g = b.world.tasks[t].group();
            &&& b.world.cgroups.contains_key(g)
            &&& model::mask_allows(b.world.cgroups[g].cpu_mask, cpu as usize)
        },
{
    let s = b.sched;
    let w = b.world;
    let n = s.cpus as nat;
    let before = state::pick_all(s, w, cpu);
    let at = before.sched;
    let chosen = state::chosen_in(before.picks);
    picks_keep_homes(s, w, cpu);
    laws::picking_keeps(s, w, n);
    laws::picking_keeps(s, w, cpu);
    laws::later_picks_keep(s, w, cpu, n);
    let picks = state::pick_all(s, w, n).picks;
    assert(picks[cpu as int] is Some || state::names_of(picks)[cpu as int] == IDLE@);
    if let Some(t) = picks[cpu as int] {
        let offers = state::offering_groups(at, w, cpu as usize, chosen);
        let fits = state::fitting_tasks(w, at.task_last_key, cpu as usize, chosen);
        let k = state::group_position(at, w, cpu as usize, chosen);
        search::first_where_properties(at.cg_heap, offers);
        assert(state::pick_all(s, w, cpu + 1).picks[cpu as int] == Some(t));
        assert(offers(at.cg_heap[k]));
        let g = at.cg_heap[k].id;
        let items = at.rq[g];
        search::first_where_properties(items, fits);
        let f = state::first_where(items, fits);
        assert(state::queue_of(at, g).contains(items[f]));
    }
}

} // verus!
