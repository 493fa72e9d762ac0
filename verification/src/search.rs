//! Facts about searching a queue and keeping what a search passes over.

use vstd::prelude::*;

use crate::model::WorldView;
use crate::queue;
use crate::queue::ItemView;
use crate::state;
use crate::state::SchedulerView;

verus! {

/// `first_where` is the position before which nothing satisfies `p` and at which something does,
/// if anything does.
pub proof fn first_where_properties(items: Seq<ItemView>, p: spec_fn(ItemView) -> bool)
    ensures
        0 <= state::first_where(items, p) <= items.len(),
        forall|j: int| 0 <= j < state::first_where(items, p) ==> !p(#[trigger] items[j]),
        state::first_where(items, p) < items.len() ==> p(items[state::first_where(items, p)]),
    decreases items.len(),
{
    if items.len() > 0 && !p(items[0]) {
        let rest = items.skip(1);
        first_where_properties(rest, p);
        let k = state::first_where(items, p);
        assert forall|j: int| 0 <= j < k implies !p(#[trigger] items[j]) by {
            if j > 0 {
                assert(items[j] == rest[j - 1]);
            }
        }
        if k < items.len() {
            assert(items[k] == rest[k - 1]);
        }
    }
}

/// A position before which nothing satisfies `p` and at which something does, if it is not the
/// end, is the one that `first_where` gives.
pub proof fn first_where_is(items: Seq<ItemView>, p: spec_fn(ItemView) -> bool, k: int)
    requires
        0 <= k <= items.len(),
        forall|j: int| 0 <= j < k ==> !p(#[trigger] items[j]),
        k < items.len() ==> p(items[k]),
    ensures
        state::first_where(items, p) == k,
{
    first_where_properties(items, p);
    let f = state::first_where(items, p);
    if f < k {
        assert(!p(items[f]));
    } else if k < f {
        assert(!p(items[k]));
    }
}

/// Filtering one entry more adds that entry or nothing.
pub proof fn filter_step(items: Seq<ItemView>, p: spec_fn(ItemView) -> bool, k: int)
    requires
        0 <= k < items.len(),
    ensures
        items.take(k + 1).filter(p) == (if p(items[k]) {
            items.take(k).filter(p).push(items[k])
        } else {
            items.take(k).filter(p)
        }),
{
    reveal(Seq::filter);
    assert(items.take(k + 1).drop_last() =~= items.take(k));
}

/// Filtering no entries gives none.
pub proof fn filter_none(items: Seq<ItemView>, p: spec_fn(ItemView) -> bool)
    ensures
        items.take(0).filter(p) == Seq::<ItemView>::empty(),
{
    reveal(Seq::filter);
}

/// A filter keeps exactly the entries that pass it.
pub proof fn filter_contains(items: Seq<ItemView>, p: spec_fn(ItemView) -> bool)
    ensures
        forall|e: ItemView| #[trigger] items.filter(p).contains(e) <==> items.contains(e) && p(e),
    decreases items.len(),
{
    reveal(Seq::filter);
    let kept = items.filter(p);
    if items.len() > 0 {
        let front = items.drop_last();
        filter_contains(front, p);
        let inner = front.filter(p);
        assert forall|e: ItemView| #[trigger] kept.contains(e) <==> items.contains(e) && p(e) by {
            if items.contains(e) && p(e) {
                let i = items.index_of(e);
                if i < front.len() {
                    assert(front[i] == e);
                    assert(inner.contains(e));
                    let j = inner.index_of(e);
                    assert(kept[j] == e);
                } else {
                    assert(kept[inner.len() as int] == e);
                }
            }
            if kept.contains(e) {
                let j = kept.index_of(e);
                if j < inner.len() {
                    assert(inner[j] == e);
                    assert(inner.contains(e));
                    let i = front.index_of(e);
                    assert(items[i] == e);
                } else {
                    assert(items[items.len() - 1] == e);
                }
            }
        }
    }
}

/// Filtering a filtered queue changes nothing.
pub proof fn filter_twice(items: Seq<ItemView>, p: spec_fn(ItemView) -> bool)
    ensures
        items.filter(p).filter(p) == items.filter(p),
    decreases items.len(),
{
    reveal(Seq::filter);
    if items.len() > 0 {
        let front = items.drop_last();
        filter_twice(front, p);
        let inner = front.filter(p);
        if p(items.last()) {
            assert(inner.push(items.last()).drop_last() =~= inner);
        }
    }
}

/// What passes a filter, followed by the rest of the queue from a later position on, is in order.
pub proof fn filtered_in_order(
    items: Seq<ItemView>,
    p: spec_fn(ItemView) -> bool,
    k: int,
    m: int,
)
    requires
        queue::in_order(items),
        0 <= k <= m <= items.len(),
    ensures
        queue::in_order(items.take(k).filter(p) + items.skip(m)),
    decreases k,
{
    let kept = items.take(k).filter(p);
    let whole = kept + items.skip(m);
    if k == 0 {
        filter_none(items, p);
        assert forall|i: int, j: int| 0 <= i < j < whole.len() implies
            #[trigger] queue::precedes_or_same(whole[i], whole[j]) by {
            assert(queue::precedes_or_same(items[i + m], items[j + m]));
        }
    } else {
        filter_step(items, p, k - 1);
        if p(items[k - 1]) {
            filtered_in_order(items, p, k - 1, k - 1);
            let inner = items.take(k - 1).filter(p);
            let before = inner + items.skip(k - 1);
            assert forall|i: int, j: int| 0 <= i < j < whole.len() implies
                #[trigger] queue::precedes_or_same(whole[i], whole[j]) by {
                let i0 = if i < kept.len() {
                    i
                } else {
                    i - kept.len() + m - (k - 1) + inner.len()
                };
                let j0 = if j < kept.len() {
                    j
                } else {
                    j - kept.len() + m - (k - 1) + inner.len()
                };
                assert(whole[i] == before[i0]);
                assert(whole[j] == before[j0]);
                assert(queue::precedes_or_same(before[i0], before[j0]));
            }
        } else {
            filtered_in_order(items, p, k - 1, m);
        }
    }
}

/// A queue that was searched in vain gives nothing when it is searched again, and stays as the
/// first search left it.
pub proof fn search_again(
    items: Seq<ItemView>,
    w: WorldView,
    task_last_key: Map<Seq<char>, i64>,
    cpu: usize,
    chosen: Set<Seq<char>>,
)
    requires
        state::task_from(items, w, task_last_key, cpu, chosen) is None,
    ensures
        ({
            let left = state::left_after(items, w, task_last_key, cpu, chosen);
            &&& state::task_from(left, w, task_last_key, cpu, chosen) is None
            &&& state::left_after(left, w, task_last_key, cpu, chosen) == left
        }),
{
    let fits = state::fitting_tasks(w, task_last_key, cpu, chosen);
    let valid = state::valid_tasks(w, task_last_key);
    let left = state::left_after(items, w, task_last_key, cpu, chosen);
    first_where_properties(items, fits);
    filter_contains(items, valid);
    assert forall|j: int| 0 <= j < left.len() implies !fits(#[trigger] left[j]) by {
        assert(left.contains(left[j]));
        let i = items.index_of(left[j]);
        assert(!fits(items[i]));
    }
    first_where_is(left, fits, left.len() as int);
    filter_twice(items, valid);
}

/// Considering one group entry more changes the queue of that group if the entry is searched, and
/// nothing otherwise.
pub proof fn queues_step(
    s: SchedulerView,
    w: WorldView,
    cpu: usize,
    chosen: Set<Seq<char>>,
    n: int,
)
    requires
        0 <= n < s.cg_heap.len(),
    ensures
        state::queues_after(s, w, cpu, chosen, n + 1) == (if state::group_entry_searched(
            s,
            w,
            cpu,
            s.cg_heap[n],
        ) {
            state::queues_after(s, w, cpu, chosen, n).insert(
                s.cg_heap[n].id,
                state::left_after(s.rq[s.cg_heap[n].id], w, s.task_last_key, cpu, chosen),
            )
        } else {
            state::queues_after(s, w, cpu, chosen, n)
        }),
{
    let e = s.cg_heap[n];
    assert forall|c: Seq<char>| #[trigger]
        state::searched_among(s, w, cpu, n + 1, c) == (state::searched_among(s, w, cpu, n, c) || (
        e.id == c && state::group_entry_searched(s, w, cpu, e))) by {
        if state::searched_among(s, w, cpu, n, c) {
            let i = choose|i: int|
                0 <= i < n && (#[trigger] s.cg_heap[i]).id == c && state::group_entry_searched(
                    s,
                    w,
                    cpu,
                    s.cg_heap[i],
                );
            assert(s.cg_heap[i].id == c);
        }
    }
    let before = state::queues_after(s, w, cpu, chosen, n);
    let after = state::queues_after(s, w, cpu, chosen, n + 1);
    if state::group_entry_searched(s, w, cpu, e) {
        assert(state::searched_among(s, w, cpu, n + 1, e.id));
        assert(after =~= before.insert(
            e.id,
            state::left_after(s.rq[e.id], w, s.task_last_key, cpu, chosen),
        ));
    } else {
        assert(after =~= before);
    }
}

/// Considering no group entry changes no queue.
pub proof fn queues_start(s: SchedulerView, w: WorldView, cpu: usize, chosen: Set<Seq<char>>)
    ensures
        state::queues_after(s, w, cpu, chosen, 0) == s.rq,
{
    assert(state::queues_after(s, w, cpu, chosen, 0) =~= s.rq);
}

} // verus!
