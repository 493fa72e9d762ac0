//! What is read from an event, in terms of the names and values that stand in it.

use vstd::prelude::*;

use crate::event;
use crate::event::{Action, Event, EventError, EventFields, EventView, FieldsView};
use crate::json;
use crate::json::JsonView;
use crate::number;

verus! {

/// The member `name` is the text `s`.
pub open spec fn text_at(m: Map<Seq<char>, JsonView>, name: Seq<char>, s: Seq<char>) -> bool {
    m.contains_key(name) && m[name] == JsonView::Text(s)
}

/// The member `name` is the integer `n`.
pub open spec fn int_at(m: Map<Seq<char>, JsonView>, name: Seq<char>, n: int) -> bool {
    m.contains_key(name) && m[name] == JsonView::Int(n)
}

/// Each text field of an event is the member of its name, if that is a text, and absent otherwise.
pub proof fn text_fields_bear_their_names(m: Map<Seq<char>, JsonView>, s: Seq<char>)
    ensures
        ({
            let f = json::fields_in(m);
            &&& f.action == Some(s) <==> text_at(m, "action"@, s)
            &&& f.typ == Some(s) <==> text_at(m, "type"@, s)
            &&& f.event == Some(s) <==> text_at(m, "event"@, s)
            &&& f.task_id == Some(s) <==> text_at(m, "taskId"@, s)
            &&& f.id == Some(s) <==> text_at(m, "id"@, s)
            &&& f.cgroup_id == Some(s) <==> text_at(m, "cgroupId"@, s)
            &&& f.cgroup == Some(s) <==> text_at(m, "cgroup"@, s)
            &&& f.new_cgroup_id == Some(s) <==> text_at(m, "newCgroupId"@, s)
        }),
{
}

/// Each number field of an event is the member of its name, if that is an integer in the range of
/// the field, and absent otherwise.
pub proof fn number_fields_bear_their_names(m: Map<Seq<char>, JsonView>, n: i64, u: u64)
    ensures
        ({
            let f = json::fields_in(m);
            &&& f.nice == Some(n) <==> int_at(m, "nice"@, n as int)
            &&& f.vruntime == Some(n) <==> int_at(m, "vruntime"@, n as int)
            &&& f.cpu_shares == Some(n) <==> int_at(m, "cpuShares"@, n as int)
            &&& f.legacy_shares == Some(n) <==> int_at(m, "cpu_shares"@, n as int)
            &&& f.affinity == Some(u) <==> int_at(m, "affinity"@, u as int)
            &&& f.cpu_mask == Some(u) <==> int_at(m, "cpu_mask"@, u as int)
        }),
{
}

/// The list of CPUs of an event is the member "cpuMask", if that is a list, entry by entry and in
/// its order. An entry that is no integer in the range of `u64` counts as none.
pub proof fn the_cpu_list_bears_its_name(m: Map<Seq<char>, JsonView>, i: int, u: u64)
    ensures
        ({
            let f = json::fields_in(m);
            &&& f.cpu_list is Some <==> m.contains_key("cpuMask"@) && m["cpuMask"@] is List
            &&& f.cpu_list matches Some(list) ==> {
                &&& list.len() == m["cpuMask"@]->List_0.len()
                &&& 0 <= i < list.len() ==> (list[i] == Some(u) <==> m["cpuMask"@]->List_0[i]
                    == JsonView::Int(u as int))
            }
        }),
{
}

/// An event that is not an object is refused for that. Any other is read by its members.
pub proof fn only_objects_are_read(j: JsonView, m: Map<Seq<char>, JsonView>)
    ensures
        !(j is Object) ==> json::event_in(j) == Err::<EventView, EventError>(EventError::NotObject),
        json::event_in(JsonView::Object(m)) == event::decode(json::fields_in(m)),
{
}

/// Events are read one by one and in their order.
pub proof fn events_are_read_one_by_one(list: Seq<serde_json::Value>, i: int)
    ensures
        json::events_in(list).len() == list.len(),
        0 <= i < list.len() ==> json::events_in(list)[i] == json::event_in(json::json_of(list[i])),
{
}

/// Decoded events hold what their fields hold, in their order.
pub proof fn decoded_events_hold_their_fields(list: Seq<Result<Event, EventError>>, i: int)
    requires
        0 <= i < list.len(),
    ensures
        event::all_decoded(list).len() == list.len(),
        match list[i] {
            Err(e) => event::all_decoded(list)[i] == Err::<EventView, EventError>(e),
            Ok(e) => event::all_decoded(list)[i] == Ok::<EventView, EventError>(e@) && match e {
                Event::TaskCreate { id, nice, vruntime, affinity, cgroup } => e@
                    == EventView::TaskCreate {
                    id: id@,
                    nice,
                    vruntime,
                    affinity,
                    cgroup: match cgroup {
                        Some(g) => Some(g@),
                        None => None,
                    },
                },
                Event::TaskExit { id } => e@ == EventView::TaskExit { id: id@ },
                Event::TaskBlock { id } => e@ == EventView::TaskBlock { id: id@ },
                Event::TaskUnblock { id } => e@ == EventView::TaskUnblock { id: id@ },
                Event::TaskYield { id } => e@ == EventView::TaskYield { id: id@ },
                Event::TaskSetNice { id, nice } => e@ == EventView::TaskSetNice { id: id@, nice },
                Event::TaskSetAffinity { id, mask } => e@ == EventView::TaskSetAffinity {
                    id: id@,
                    mask,
                },
                Event::TaskMoveCgroup { id, cgroup } => e@ == EventView::TaskMoveCgroup {
                    id: id@,
                    cgroup: match cgroup {
                        Some(g) => Some(g@),
                        None => None,
                    },
                },
                Event::CgroupCreate { id, shares, mask } => e@ == EventView::CgroupCreate {
                    id: id@,
                    shares,
                    mask,
                },
                Event::CgroupModify { id, shares, mask } => e@ == EventView::CgroupModify {
                    id: id@,
                    shares,
                    mask,
                },
                Event::CgroupDelete { id } => e@ == EventView::CgroupDelete { id: id@ },
                Event::CpuBurst { id } => e@ == EventView::CpuBurst { id: id@ },
                Event::Ignored => e@ == EventView::Ignored,
            },
        },
{
}

/// The fields of an event show what they hold.
pub proof fn fields_show_what_they_hold(f: EventFields)
    ensures
        f.action matches Some(s) ==> f@.action == Some(s@),
        f.typ matches Some(s) ==> f@.typ == Some(s@),
        f.event matches Some(s) ==> f@.event == Some(s@),
        f.task_id matches Some(s) ==> f@.task_id == Some(s@),
        f.id matches Some(s) ==> f@.id == Some(s@),
        f.cgroup_id matches Some(s) ==> f@.cgroup_id == Some(s@),
        f.cgroup matches Some(s) ==> f@.cgroup == Some(s@),
        f.new_cgroup_id matches Some(s) ==> f@.new_cgroup_id == Some(s@),
        f.action is None ==> f@.action is None,
        f.typ is None ==> f@.typ is None,
        f.event is None ==> f@.event is None,
        f.task_id is None ==> f@.task_id is None,
        f.id is None ==> f@.id is None,
        f.cgroup_id is None ==> f@.cgroup_id is None,
        f.cgroup is None ==> f@.cgroup is None,
        f.new_cgroup_id is None ==> f@.new_cgroup_id is None,
        f@.nice == f.nice,
        f@.vruntime == f.vruntime,
        f@.cpu_shares == f.cpu_shares,
        f@.legacy_shares == f.legacy_shares,
        f.cpu_list matches Some(list) ==> f@.cpu_list == Some(list@),
        f.cpu_list is None ==> f@.cpu_list is None,
        f@.affinity == f.affinity,
        f@.cpu_mask == f.cpu_mask,
{
}

// ---------------------------------------------------------------------------
// Masks, shares and nice values
// ---------------------------------------------------------------------------

/// A list whose entries are all below 64 gives the mask with exactly their bits. Otherwise the first
/// entry decides that is not: it is no integer, or out of range.
pub proof fn masks_hold_the_listed_cpus(list: Seq<Option<u64>>, cpu: u64, k: int)
    requires
        cpu < 64,
        0 <= k <= list.len(),
        forall|i: int| 0 <= i < k ==> (#[trigger] list[i] matches Some(c) && c < 64),
        k < list.len() ==> !(list[k] matches Some(c) && c < 64),
    ensures
        match event::mask_of_list(list) {
            Ok(mask) => k == list.len() && ((mask >> cpu) % 2 == 1 <==> list.contains(Some(cpu))),
            Err(e) => k < list.len() && e == match list[k] {
                Some(c) => EventError::CpuOutOfRange(c),
                None => EventError::MaskEntryNotInt,
            },
        },
    decreases list.len(),
{
    if list.len() == 0 {
        assert((0u64 >> cpu) % 2 == 0) by (bit_vector)
            requires
                cpu < 64,
        ;
    } else {
        let front = list.drop_last();
        if k < list.len() - 1 {
            assert(front[k] == list[k]);
            assert forall|i: int| 0 <= i < k implies (#[trigger] front[i] matches Some(c)
                && c < 64) by {
                assert(front[i] == list[i]);
            }
            masks_hold_the_listed_cpus(front, cpu, k);
        } else {
            let n = front.len() as int;
            assert forall|i: int| 0 <= i < n implies (#[trigger] front[i] matches Some(c)
                && c < 64) by {
                assert(front[i] == list[i]);
            }
            masks_hold_the_listed_cpus(front, cpu, n);
            assert(list.last() == list[n]);
            if k == list.len() {
                assert(list[n] matches Some(c) && c < 64);
                let a = event::mask_of_list(front)->Ok_0;
                let x = list.last()->0;
                assert(((a | (1u64 << x)) >> cpu) % 2 == 1 <==> ((a >> cpu) % 2 == 1 || x == cpu))
                    by (bit_vector)
                    requires
                        x < 64,
                        cpu < 64,
                ;
                if list.contains(Some(cpu)) {
                    let i = list.index_of(Some(cpu));
                    if i < n {
                        assert(front[i] == Some(cpu));
                    }
                }
                if front.contains(Some(cpu)) {
                    assert(list[front.index_of(Some(cpu))] == Some(cpu));
                }
            }
        }
    }
}

/// A list of CPUs decides before a bitmask, which decides where there is no list.
pub proof fn a_list_goes_before_a_bitmask(list: Option<Seq<Option<u64>>>, bits: Option<u64>)
    ensures
        list is None ==> event::mask_from(list, bits) == Ok::<Option<u64>, EventError>(bits),
        list matches Some(entries) ==> match event::mask_of_list(entries) {
            Ok(mask) => event::mask_from(list, bits) == Ok::<Option<u64>, EventError>(Some(mask)),
            Err(e) => event::mask_from(list, bits) == Err::<Option<u64>, EventError>(e),
        },
{
}

/// Shares below one count as one. Of larger ones the low 32 bits count.
pub proof fn shares_are_at_least_one(n: i64)
    ensures
        n < 1 ==> event::shares_from(n) == 1,
        1 <= n ==> event::shares_from(n) == n % 0x1_0000_0000,
        1 <= n <= 0xffff_ffff ==> event::shares_from(n) == n,
{
    if 1 <= n {
        let x = n as u64;
        assert(x as u32 == x % 0x1_0000_0000) by (bit_vector);
        assert(n as u32 == x as u32) by (bit_vector)
            requires
                x == n as u64,
        ;
    }
}

/// Of a nice value beyond 32 bits the low ones count.
proof fn nice_bits(n: i64)
    ensures
        -0x8000_0000 <= n <= 0x7fff_ffff ==> n as i32 == n,
        ((n as i32) - n) % 0x1_0000_0000 == 0,
{
    let y = n as i32;
    assert((y - n) % 0x1_0000_0000 == 0) by (bit_vector)
        requires
            y == n as i32,
    ;
}

// ---------------------------------------------------------------------------
// Events
// ---------------------------------------------------------------------------

/// The first of three texts that is there.
pub open spec fn first_of(
    a: Option<Seq<char>>,
    b: Option<Seq<char>>,
    c: Option<Seq<char>>,
) -> Option<Seq<char>> {
    if a is Some {
        a
    } else if b is Some {
        b
    } else {
        c
    }
}

/// The action is what "action" says, or else "type", or else "event". The task is what "taskId" says,
/// or else "id". The group is what "cgroupId" says, or else "cgroup".
pub proof fn names_go_before_others(f: FieldsView)
    ensures
        f.action_name() == first_of(f.action, f.typ, f.event),
        f.task() == first_of(f.task_id, f.id, None),
        f.group() == first_of(f.cgroup_id, f.cgroup, None),
{
}

/// Every action is known by its name.
proof fn names_are_known()
    ensures
        event::action_named("TASK_CREATE"@) == Action::TaskCreate,
        event::action_named("TASK_EXIT"@) == Action::TaskExit,
        event::action_named("TASK_BLOCK"@) == Action::TaskBlock,
        event::action_named("TASK_UNBLOCK"@) == Action::TaskUnblock,
        event::action_named("TASK_YIELD"@) == Action::TaskYield,
        event::action_named("TASK_SETNICE"@) == Action::TaskSetNice,
        event::action_named("TASK_SET_AFFINITY"@) == Action::TaskSetAffinity,
        event::action_named("TASK_MOVE_CGROUP"@) == Action::TaskMoveCgroup,
        event::action_named("CGROUP_CREATE"@) == Action::CgroupCreate,
        event::action_named("CGROUP_MODIFY"@) == Action::CgroupModify,
        event::action_named("CGROUP_DELETE"@) == Action::CgroupDelete,
        event::action_named("CPU_BURST"@) == Action::CpuBurst,
{
    event::names_stand_for_actions(Action::TaskCreate);
    event::names_stand_for_actions(Action::TaskExit);
    event::names_stand_for_actions(Action::TaskBlock);
    event::names_stand_for_actions(Action::TaskUnblock);
    event::names_stand_for_actions(Action::TaskYield);
    event::names_stand_for_actions(Action::TaskSetNice);
    event::names_stand_for_actions(Action::TaskSetAffinity);
    event::names_stand_for_actions(Action::TaskMoveCgroup);
    event::names_stand_for_actions(Action::CgroupCreate);
    event::names_stand_for_actions(Action::CgroupModify);
    event::names_stand_for_actions(Action::CgroupDelete);
    event::names_stand_for_actions(Action::CpuBurst);
}

/// An event whose action needs nothing but a task is about the task that "taskId" names, or else
/// "id". Without either it is refused. The action is what "action" says, or else "type", or else
/// "event".
pub proof fn simple_task_events_are_read(f: FieldsView)
    ensures
        ({
            let name = first_of(f.action, f.typ, f.event);
            let task = first_of(f.task_id, f.id, None);
            let read = event::decode(f);
            &&& name == Some("TASK_EXIT"@) ==> read == match task {
                Some(id) => Ok(EventView::TaskExit { id }),
                None => Err(EventError::MissingTaskId(Action::TaskExit)),
            }
            &&& name == Some("TASK_BLOCK"@) ==> read == match task {
                Some(id) => Ok(EventView::TaskBlock { id }),
                None => Err(EventError::MissingTaskId(Action::TaskBlock)),
            }
            &&& name == Some("TASK_UNBLOCK"@) ==> read == match task {
                Some(id) => Ok(EventView::TaskUnblock { id }),
                None => Err(EventError::MissingTaskId(Action::TaskUnblock)),
            }
            &&& name == Some("TASK_YIELD"@) ==> read == match task {
                Some(id) => Ok(EventView::TaskYield { id }),
                None => Err(EventError::MissingTaskId(Action::TaskYield)),
            }
            &&& name == Some("CPU_BURST"@) ==> read == match task {
                Some(id) => Ok(EventView::CpuBurst { id }),
                None => Err(EventError::MissingTaskId(Action::CpuBurst)),
            }
        }),
{
    names_are_known();
}

/// A creation takes over "nice" and "vruntime", or 0; the CPUs of "cpuMask" or else of "affinity",
/// or all; and the group of "cgroupId" or else of "cgroup", or none. It is refused without a task,
/// and next for a list of CPUs that has no mask.
pub proof fn creations_are_read(f: FieldsView)
    requires
        first_of(f.action, f.typ, f.event) == Some("TASK_CREATE"@),
    ensures
        match first_of(f.task_id, f.id, None) {
            None => event::decode(f) == Err::<EventView, EventError>(
                EventError::MissingTaskId(Action::TaskCreate),
            ),
            Some(task) => match event::mask_from(f.cpu_list, f.affinity) {
                Err(e) => event::decode(f) == Err::<EventView, EventError>(e),
                Ok(mask) => event::decode(f) matches Ok(
                    EventView::TaskCreate { id, nice, vruntime, affinity, cgroup },
                ) && {
                    &&& id == task
                    &&& f.nice is None ==> nice == 0
                    &&& f.nice matches Some(n) ==> (nice - n) % 0x1_0000_0000 == 0
                    &&& f.vruntime is None ==> vruntime == 0
                    &&& f.vruntime matches Some(n) ==> vruntime == n
                    &&& mask is None ==> affinity == 0xffff_ffff_ffff_ffff
                    &&& mask matches Some(bits) ==> affinity == bits
                    &&& cgroup == first_of(f.cgroup_id, f.cgroup, None)
                },
            },
        },
{
    names_are_known();
    if let Some(n) = f.nice {
        nice_bits(n);
    }
}

/// Setting a nice value or an affinity takes it from "nice", and from "cpuMask" or else "affinity".
/// It is refused without a task, and next without the value. A move goes to the group of
/// "newCgroupId", or else of "cgroupId", or else of "cgroup", or else to none.
pub proof fn changes_of_tasks_are_read(f: FieldsView)
    ensures
        ({
            let name = first_of(f.action, f.typ, f.event);
            let task = first_of(f.task_id, f.id, None);
            let read = event::decode(f);
            &&& name == Some("TASK_SETNICE"@) ==> match (task, f.nice) {
                (None, _) => read == Err::<EventView, EventError>(
                    EventError::MissingTaskId(Action::TaskSetNice),
                ),
                (_, None) => read == Err::<EventView, EventError>(EventError::MissingNice),
                (Some(t), Some(n)) => read matches Ok(EventView::TaskSetNice { id, nice }) && id
                    == t && (nice - n) % 0x1_0000_0000 == 0,
            }
            &&& name == Some("TASK_SET_AFFINITY"@) ==> match task {
                None => read == Err::<EventView, EventError>(
                    EventError::MissingTaskId(Action::TaskSetAffinity),
                ),
                Some(id) => match event::mask_from(f.cpu_list, f.affinity) {
                    Err(e) => read == Err::<EventView, EventError>(e),
                    Ok(None) => read == Err::<EventView, EventError>(EventError::MissingCpuMask),
                    Ok(Some(mask)) => read == Ok::<EventView, EventError>(
                        EventView::TaskSetAffinity { id, mask },
                    ),
                },
            }
            &&& name == Some("TASK_MOVE_CGROUP"@) ==> match task {
                None => read == Err::<EventView, EventError>(
                    EventError::MissingTaskId(Action::TaskMoveCgroup),
                ),
                Some(id) => read == Ok::<EventView, EventError>(
                    EventView::TaskMoveCgroup {
                        id,
                        cgroup: first_of(f.new_cgroup_id, f.cgroup_id, f.cgroup),
                    },
                ),
            }
        }),
{
    names_are_known();
    if let Some(n) = f.nice {
        nice_bits(n);
    }
}

/// A group event is about the group that "cgroupId" names, or else "cgroup", and is refused without.
/// Shares come from "cpuShares" or else "cpu_shares", and the CPUs from "cpuMask" or else
/// "cpu_mask". A creation is refused for a list of CPUs that has no mask; a modification carries
/// that fault with it.
pub proof fn group_events_are_read(f: FieldsView)
    ensures
        ({
            let name = first_of(f.action, f.typ, f.event);
            let group = first_of(f.cgroup_id, f.cgroup, None);
            let read = event::decode(f);
            let shares: Option<u32> = match (f.cpu_shares, f.legacy_shares) {
                (Some(n), _) => Some(event::shares_from(n)),
                (None, Some(n)) => Some(event::shares_from(n)),
                (None, None) => None,
            };
            let cpus = event::mask_from(f.cpu_list, f.cpu_mask);
            &&& name == Some("CGROUP_CREATE"@) ==> read == match (group, cpus) {
                (None, _) => Err(EventError::MissingCgroupId(Action::CgroupCreate)),
                (_, Err(e)) => Err(e),
                (Some(id), Ok(mask)) => Ok(EventView::CgroupCreate { id, shares, mask }),
            }
            &&& name == Some("CGROUP_MODIFY"@) ==> read == match group {
                None => Err(EventError::MissingCgroupId(Action::CgroupModify)),
                Some(id) => Ok(EventView::CgroupModify { id, shares, mask: cpus }),
            }
            &&& name == Some("CGROUP_DELETE"@) ==> read == match group {
                None => Err(EventError::MissingCgroupId(Action::CgroupDelete)),
                Some(id) => Ok(EventView::CgroupDelete { id }),
            }
        }),
{
    names_are_known();
}

/// An event with no action, or one that is none of the twelve, is accepted and ignored.
pub proof fn other_events_are_ignored(f: FieldsView)
    requires
        first_of(f.action, f.typ, f.event) matches Some(name) ==> {
            &&& name != "TASK_CREATE"@
            &&& name != "TASK_EXIT"@
            &&& name != "TASK_BLOCK"@
            &&& name != "TASK_UNBLOCK"@
            &&& name != "TASK_YIELD"@
            &&& name != "TASK_SETNICE"@
            &&& name != "TASK_SET_AFFINITY"@
            &&& name != "TASK_MOVE_CGROUP"@
            &&& name != "CGROUP_CREATE"@
            &&& name != "CGROUP_MODIFY"@
            &&& name != "CGROUP_DELETE"@
            &&& name != "CPU_BURST"@
        },
    ensures
        event::decode(f) == Ok::<EventView, EventError>(EventView::Ignored),
{
}

/// An error tells what is missing from which action, or which CPU is out of range.
pub proof fn errors_name_their_cause(action: Action, cpu: u64)
    ensures
        EventError::NotObject.text() == "event not object"@,
        EventError::MissingTaskId(action).text() == action.title() + " missing taskId"@,
        EventError::MissingCgroupId(action).text() == action.title() + " missing cgroupId"@,
        EventError::MissingNice.text() == "TASK_SETNICE missing nice"@,
        EventError::MissingCpuMask.text() == "TASK_SET_AFFINITY missing cpuMask"@,
        EventError::MaskEntryNotInt.text() == "cpuMask entry must be int"@,
        EventError::CpuOutOfRange(cpu).text() == "cpu index out of range: "@ + number::decimal(
            cpu as nat,
        ),
        Action::TaskCreate.title() == "TASK_CREATE"@,
        Action::TaskExit.title() == "TASK_EXIT"@,
        Action::TaskBlock.title() == "TASK_BLOCK"@,
        Action::TaskUnblock.title() == "TASK_UNBLOCK"@,
        Action::TaskYield.title() == "TASK_YIELD"@,
        Action::TaskSetNice.title() == "TASK_SETNICE"@,
        Action::TaskSetAffinity.title() == "TASK_SET_AFFINITY"@,
        Action::TaskMoveCgroup.title() == "TASK_MOVE_CGROUP"@,
        Action::CgroupCreate.title() == "CGROUP_CREATE"@,
        Action::CgroupModify.title() == "CGROUP_MODIFY"@,
        Action::CgroupDelete.title() == "CGROUP_DELETE"@,
        Action::CpuBurst.title() == "CPU_BURST"@,
{
}

} // verus!
