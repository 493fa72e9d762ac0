//! Which entry a CPU is served from, and what stays queued.

use vstd::prelude::*;

use crate::homes;
use crate::laws;
use crate::model;
use crate::model::{TaskState, WorldView, NICE_TO_WEIGHT};
use crate::queue::ItemView;
use crate::ready;
use crate::search;
use crate::state;
use crate::state::SchedulerView;

verus! {

/// A mask allows exactly the CPUs whose bits are set in it, counted from the lowest, and none from
/// 64 on.
pub proof fn masks_are_read_bit_by_bit(mask: u64, cpu: usize)
    ensures
        cpu >= 64 ==> !model::mask_allows(mask, cpu),
        cpu < 64 ==> (model::mask_allows(mask, cpu) <==> (mask >> cpu) % 2 == 1),
{
    if cpu < 64 {
        model::bit_is_set(mask, cpu);
    }
}

/// The weights are those of the Linux scheduler: 1024 at nice 0, and about a quarter more for each
/// step down.
pub proof fn each_nice_step_is_about_a_quarter(nice: i32)
    requires
        -20 <= nice < 19,
    ensures
        NICE_TO_WEIGHT@.len() == 40,
        NICE_TO_WEIGHT@[20] == 1024,
        NICE_TO_WEIGHT@[nice + 20] * 100 >= NICE_TO_WEIGHT@[nice + 21] * 120,
        NICE_TO_WEIGHT@[nice + 20] * 100 <= NICE_TO_WEIGHT@[nice + 21] * 130,
        NICE_TO_WEIGHT@ == seq![
            88761u32, 71755, 56483, 46273, 36291, 29154, 23254, 18705, 14949, 11916,
            9548, 7620, 6100, 4904, 3906, 3121, 2501, 1991, 1586, 1277,
            1024, 820, 655, 526, 423, 335, 272, 215, 172, 137,
            110, 87, 70, 56, 45, 36, 29, 23, 18, 15,
        ],
{
}

/// Entry `i` of the queue of groups and entry `j` of the queue of that group lead to a task for
/// `cpu`. Both entries are up to date: group and task exist and have the virtual runtime at which
/// they were queued last. The group may run on the CPU. So may the task, which can run and was not
/// chosen yet.
pub open spec fn leads_to_task(
    s: SchedulerView,
    w: WorldView,
    cpu: usize,
    chosen: Set<Seq<char>>,
    i: int,
    j: int,
) -> bool {
    let d = s.cg_heap[i];
    let e = s.rq[d.id][j];
    &&& 0 <= i < s.cg_heap.len()
    &&& w.cgroups.contains_key(d.id)
    &&& w.cgroups[d.id].vruntime == d.vruntime
    &&& s.cg_last_key.contains_key(d.id) ==> s.cg_last_key[d.id] == d.vruntime
    &&& cpu < 64
    &&& (w.cgroups[d.id].cpu_mask >> cpu) % 2 == 1
    &&& s.rq.contains_key(d.id)
    &&& 0 <= j < s.rq[d.id].len()
    &&& w.tasks.contains_key(e.id)
    &&& w.tasks[e.id].state == TaskState::Runnable
    &&& w.tasks[e.id].vruntime == e.vruntime
    &&& s.task_last_key.contains_key(e.id) ==> s.task_last_key[e.id] == e.vruntime
    &&& !chosen.contains(e.id)
    &&& (w.tasks[e.id].affinity_mask >> cpu) % 2 == 1
}

/// An entry that leads to a task is what a search accepts.
proof fn leading_is_offering(
    s: SchedulerView,
    w: WorldView,
    cpu: usize,
    chosen: Set<Seq<char>>,
    i: int,
    j: int,
)
    requires
        0 <= i < s.cg_heap.len(),
        0 <= j < s.rq[s.cg_heap[i].id].len(),
    ensures
        leads_to_task(s, w, cpu, chosen, i, j) <==> state::group_entry_searched(
            s,
            w,
            cpu,
            s.cg_heap[i],
        ) && state::task_entry_fits(w, s.task_last_key, cpu, chosen, s.rq[s.cg_heap[i].id][j]),
{
    let d = s.cg_heap[i];
    let e = s.rq[d.id][j];
    masks_are_read_bit_by_bit(w.cgroups[d.id].cpu_mask, cpu);
    masks_are_read_bit_by_bit(w.tasks[e.id].affinity_mask, cpu);
}

/// A CPU is served from the first entry of the queue of groups that leads to a task, and gets the
/// first task in the queue of that group that it leads to. It gets nothing only if no entry leads to
/// a task.
pub proof fn the_first_entry_serves(
    s: SchedulerView,
    w: WorldView,
    cpu: usize,
    chosen: Set<Seq<char>>,
) -> (place: (int, int))
    ensures
        match state::pick(s, w, cpu, chosen).task {
            Some(t) => {
                &&& leads_to_task(s, w, cpu, chosen, place.0, place.1)
                &&& s.rq[s.cg_heap[place.0].id][place.1].id == t
                &&& forall|i: int, j: int|
                    i < place.0 ==> !#[trigger] leads_to_task(s, w, cpu, chosen, i, j)
                &&& forall|j: int|
                    j < place.1 ==> !#[trigger] leads_to_task(s, w, cpu, chosen, place.0, j)
            },
            None => forall|i: int, j: int| !#[trigger] leads_to_task(s, w, cpu, chosen, i, j),
        },
{
    let offers = state::offering_groups(s, w, cpu, chosen);
    let fits = state::fitting_tasks(w, s.task_last_key, cpu, chosen);
    let k = state::group_position(s, w, cpu, chosen);
    search::first_where_properties(s.cg_heap, offers);
    if k < s.cg_heap.len() {
        assert(offers(s.cg_heap[k]));
    }
    assert forall|i: int, j: int| i < k implies !#[trigger] leads_to_task(
        s,
        w,
        cpu,
        chosen,
        i,
        j,
    ) by {
        if leads_to_task(s, w, cpu, chosen, i, j) {
            leading_is_offering(s, w, cpu, chosen, i, j);
            let items = s.rq[s.cg_heap[i].id];
            search::first_where_properties(items, fits);
            assert(fits(items[j]));
            assert(offers(s.cg_heap[i]));
        }
    }
    if k < s.cg_heap.len() {
        let items = s.rq[s.cg_heap[k].id];
        let f = state::first_where(items, fits);
        search::first_where_properties(items, fits);
        leading_is_offering(s, w, cpu, chosen, k, f);
        assert(fits(items[f]));
        assert forall|j: int| j < f implies !#[trigger] leads_to_task(
            s,
            w,
            cpu,
            chosen,
            k,
            j,
        ) by {
            if leads_to_task(s, w, cpu, chosen, k, j) {
                leading_is_offering(s, w, cpu, chosen, k, j);
                assert(fits(items[j]));
            }
        }
        (k, f)
    } else {
        (0, 0)
    }
}

/// Looking for a task puts nothing into any queue, and takes out no entry that is up to date but one
/// of the task that it finds. It touches nothing but the queues.
pub proof fn only_the_found_task_leaves(
    s: SchedulerView,
    w: WorldView,
    cpu: usize,
    chosen: Set<Seq<char>>,
    c: Seq<char>,
    e: ItemView,
)
    ensures
        ({
            let found = state::pick(s, w, cpu, chosen);
            &&& found.sched == (SchedulerView {
                cg_heap: found.sched.cg_heap,
                rq: found.sched.rq,
                ..s
            })
            &&& found.sched.rq.dom() == s.rq.dom()
            &&& s.rq.contains_key(c) && found.sched.rq[c].contains(e) ==> s.rq[c].contains(e)
            &&& s.rq.contains_key(c) && s.rq[c].contains(e) && w.tasks.contains_key(e.id)
                && w.tasks[e.id].state == TaskState::Runnable && w.tasks[e.id].vruntime
                == e.vruntime && (s.task_last_key.contains_key(e.id) ==> s.task_last_key[e.id]
                == e.vruntime) && found.task != Some(e.id) ==> found.sched.rq[c].contains(e)
            &&& s.cg_heap.contains(e) && w.cgroups.contains_key(e.id)
                && w.cgroups[e.id].vruntime == e.vruntime && (s.cg_last_key.contains_key(e.id)
                ==> s.cg_last_key[e.id] == e.vruntime) ==> found.sched.cg_heap.contains(e)
        }),
{
    let found = state::pick(s, w, cpu, chosen);
    assert(found.sched.rq.dom() =~= s.rq.dom());
    if s.rq.contains_key(c) {
        if found.sched.rq[c].contains(e) && !s.rq[c].contains(e) {
            homes::search_adds_nothing(s.rq[c], w, s.task_last_key, cpu, chosen, e);
        }
        if s.rq[c].contains(e) && state::task_entry_valid(w, s.task_last_key, e) && found.task
            != Some(e.id) {
            ready::pick_keeps_entry(s, w, cpu, chosen, c, e);
        }
    }
    if s.cg_heap.contains(e) && state::group_entry_valid(s, w, e) {
        ready::pick_keeps_group(s, w, cpu, chosen, e);
    }
}

/// A filter keeps at most as many entries as there are.
proof fn filter_shrinks(items: Seq<ItemView>, p: spec_fn(ItemView) -> bool, k: int)
    requires
        0 <= k <= items.len(),
    ensures
        items.take(k).filter(p).len() <= k,
    decreases k,
{
    if k == 0 {
        search::filter_none(items, p);
    } else {
        filter_shrinks(items, p, k - 1);
        search::filter_step(items, p, k - 1);
    }
}

/// The entry that a CPU was served from leaves its queue.
pub proof fn the_entry_that_served_leaves(
    s: SchedulerView,
    w: WorldView,
    cpu: usize,
    chosen: Set<Seq<char>>,
)
    ensures
        state::pick(s, w, cpu, chosen).task matches Some(t) ==> exists|c: Seq<char>| #[trigger]
            s.rq.contains_key(c) && state::pick(s, w, cpu, chosen).sched.rq[c].len()
                < s.rq[c].len() && exists|e: ItemView| #[trigger]
                s.rq[c].contains(e) && e.id == t,
{
    let offers = state::offering_groups(s, w, cpu, chosen);
    let k = state::group_position(s, w, cpu, chosen);
    search::first_where_properties(s.cg_heap, offers);
    if let Some(t) = state::pick(s, w, cpu, chosen).task {
        assert(offers(s.cg_heap[k]));
        let g = s.cg_heap[k].id;
        let items = s.rq[g];
        let fits = state::fitting_tasks(w, s.task_last_key, cpu, chosen);
        let f = state::first_where(items, fits);
        search::first_where_properties(items, fits);
        assert(state::searched_among(s, w, cpu, k + 1, g));
        filter_shrinks(items, state::valid_tasks(w, s.task_last_key), f);
        assert(items.contains(items[f]));
        assert(s.rq.contains_key(g));
    }
}

/// Each CPU is served in turn: the next one from the queues that the ones before left, and without
/// the tasks that those got.
pub proof fn cpus_are_served_in_turn(s: SchedulerView, w: WorldView, cpu: usize)
    requires
        cpu < s.cpus,
    ensures
        ({
            let before = state::pick_all(s, w, cpu as nat);
            let taken = Set::new(
                |t: Seq<char>| exists|i: int| 0 <= i < cpu && before.picks[i] == Some(t),
            );
            let found = state::pick(before.sched, w, cpu, taken);
            &&& state::pick_all(s, w, (cpu + 1) as nat).sched == found.sched
            &&& state::pick_all(s, w, (cpu + 1) as nat).picks == before.picks.push(found.task)
            &&& state::pick_all(s, w, 0).sched == s
            &&& state::dispatch(s, w).schedule[cpu as int] == match found.task {
                Some(t) => t,
                None => "idle"@,
            }
        }),
{
    let before = state::pick_all(s, w, cpu as nat);
    let taken = Set::new(
        |t: Seq<char>| exists|i: int| 0 <= i < cpu && before.picks[i] == Some(t),
    );
    laws::picking_keeps(s, w, cpu as nat);
    laws::picking_keeps(s, w, (cpu + 1) as nat);
    laws::picking_keeps(s, w, s.cpus as nat);
    laws::later_picks_keep(s, w, cpu as nat, s.cpus as nat);
    assert forall|t: Seq<char>| #[trigger] taken.contains(t) <==> state::chosen_in(
        before.picks,
    ).contains(t) by {
        if before.picks.contains(Some(t)) {
            assert(before.picks[before.picks.index_of(Some(t))] == Some(t));
        }
    }
    assert(taken =~= state::chosen_in(before.picks));
}

} // verus!
