//! Facts about giving the tasks of a schedule their seats one after the other.

use vstd::prelude::*;

use crate::model::TaskView;
use crate::state;

verus! {

/// Placing nobody changes nothing.
pub proof fn placed_none(tasks: Map<Seq<char>, TaskView>, seats: Seq<Option<Seq<char>>>)
    ensures
        state::tasks_placed(tasks, seats.take(0)) == tasks,
{
    assert(state::tasks_placed(tasks, seats.take(0)) =~= tasks);
}

/// Placing the task of one seat more changes that task only.
pub proof fn placed_step(tasks: Map<Seq<char>, TaskView>, seats: Seq<Option<Seq<char>>>, cpu: int)
    requires
        state::no_repeats(seats),
        0 <= cpu < seats.len(),
        seats[cpu] matches Some(t) ==> tasks.contains_key(t),
    ensures
        state::tasks_placed(tasks, seats.take(cpu + 1)) == (match seats[cpu] {
            None => state::tasks_placed(tasks, seats.take(cpu)),
            Some(t) => state::tasks_placed(tasks, seats.take(cpu)).insert(
                t,
                TaskView { last_cpu: Some(cpu as usize), ..tasks[t] },
            ),
        }),
        seats[cpu] matches Some(t) ==> state::tasks_placed(tasks, seats.take(cpu))[t] == tasks[t],
{
    let few = seats.take(cpu);
    let more = seats.take(cpu + 1);
    assert forall|t: Seq<char>| few.contains(Some(t)) implies {
        &&& more.contains(Some(t))
        &&& seats[cpu] != Some(t)
        &&& more.index_of(Some(t)) == few.index_of(Some(t))
    } by {
        let i = few.index_of(Some(t));
        assert(more[i] == Some(t));
        assert(seats[i] != seats[cpu]);
        let j = more.index_of(Some(t));
        assert(more[j] == Some(t));
        if i < j {
            assert(seats[i] != seats[j]);
        } else if j < i {
            assert(seats[j] != seats[i]);
        }
    }
    assert forall|t: Seq<char>| more.contains(Some(t)) && !few.contains(Some(t)) implies {
        &&& seats[cpu] == Some(t)
        &&& more.index_of(Some(t)) == cpu
    } by {
        let j = more.index_of(Some(t));
        assert(more[j] == Some(t));
        if j < cpu {
            assert(few[j] == Some(t));
        }
    }
    if let Some(t) = seats[cpu] {
        assert(more[cpu] == Some(t));
        assert(more.contains(Some(t)));
        let after = state::tasks_placed(tasks, few).insert(
            t,
            TaskView { last_cpu: Some(cpu as usize), ..tasks[t] },
        );
        assert(state::tasks_placed(tasks, more) =~= after);
    } else {
        assert(state::tasks_placed(tasks, more) =~= state::tasks_placed(tasks, few));
    }
}

/// A count over `n` CPUs is at most `n`.
pub proof fn count_at_most(n: nat, p: spec_fn(int) -> bool)
    ensures
        state::count_below(n, p) <= n,
    decreases n,
{
    if n > 0 {
        count_at_most((n - 1) as nat, p);
    }
}

/// Whoever picks no task twice gives no task two seats.
pub proof fn seats_distinct(picks: Seq<Option<Seq<char>>>)
    requires
        state::no_repeats(picks),
    ensures
        state::no_repeats(state::seats_of(state::names_of(picks))),
{
    let seats = state::seats_of(state::names_of(picks));
    assert forall|i: int, j: int| 0 <= i < j < seats.len() && seats[i] is Some implies
        #[trigger] seats[i] != #[trigger] seats[j] by {
        assert(picks[i] != picks[j]);
    }
}

} // verus!
