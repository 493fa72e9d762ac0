//! Events: what they ask for, and how they are read from their fields.

use vstd::prelude::*;
use vstd::string::StringExecFns;

use crate::model;
use crate::number;
use crate::text::same_text;

verus! {

/// What an event asks for.
#[derive(Debug, Clone, Copy, PartialEq, Eq, Structural)]
pub enum Action {
    TaskCreate,
    TaskExit,
    TaskBlock,
    TaskUnblock,
    TaskYield,
    TaskSetNice,
    TaskSetAffinity,
    TaskMoveCgroup,
    CgroupCreate,
    CgroupModify,
    CgroupDelete,
    CpuBurst,
    /// Anything else, which is ignored.
    Unknown,
}

/// The action that bears `name`.
pub open spec fn action_named(name: Seq<char>) -> Action {
    if name == "TASK_CREATE"@ {
        Action::TaskCreate
    } else if name == "TASK_EXIT"@ {
        Action::TaskExit
    } else if name == "TASK_BLOCK"@ {
        Action::TaskBlock
    } else if name == "TASK_UNBLOCK"@ {
        Action::TaskUnblock
    } else if name == "TASK_YIELD"@ {
        Action::TaskYield
    } else if name == "TASK_SETNICE"@ {
        Action::TaskSetNice
    } else if name == "TASK_SET_AFFINITY"@ {
        Action::TaskSetAffinity
    } else if name == "TASK_MOVE_CGROUP"@ {
        Action::TaskMoveCgroup
    } else if name == "CGROUP_CREATE"@ {
        Action::CgroupCreate
    } else if name == "CGROUP_MODIFY"@ {
        Action::CgroupModify
    } else if name == "CGROUP_DELETE"@ {
        Action::CgroupDelete
    } else if name == "CPU_BURST"@ {
        Action::CpuBurst
    } else {
        Action::Unknown
    }
}

impl Action {
    /// The name of the action.
    pub open spec fn title(self) -> Seq<char> {
        match self {
            Action::TaskCreate => "TASK_CREATE"@,
            Action::TaskExit => "TASK_EXIT"@,
            Action::TaskBlock => "TASK_BLOCK"@,
            Action::TaskUnblock => "TASK_UNBLOCK"@,
            Action::TaskYield => "TASK_YIELD"@,
            Action::TaskSetNice => "TASK_SETNICE"@,
            Action::TaskSetAffinity => "TASK_SET_AFFINITY"@,
            Action::TaskMoveCgroup => "TASK_MOVE_CGROUP"@,
            Action::CgroupCreate => "CGROUP_CREATE"@,
            Action::CgroupModify => "CGROUP_MODIFY"@,
            Action::CgroupDelete => "CGROUP_DELETE"@,
            Action::CpuBurst => "CPU_BURST"@,
            Action::Unknown => "UNKNOWN"@,
        }
    }

    /// The action that bears `name`.
    pub fn parse(name: &str) -> (action: Action)
        ensures
            action == action_named(name@),
    {
        if same_text(name, "TASK_CREATE") {
            Action::TaskCreate
        } else if same_text(name, "TASK_EXIT") {
            Action::TaskExit
        } else if same_text(name, "TASK_BLOCK") {
            Action::TaskBlock
        } else if same_text(name, "TASK_UNBLOCK") {
            Action::TaskUnblock
        } else if same_text(name, "TASK_YIELD") {
            Action::TaskYield
        } else if same_text(name, "TASK_SETNICE") {
            Action::TaskSetNice
        } else if same_text(name, "TASK_SET_AFFINITY") {
            Action::TaskSetAffinity
        } else if same_text(name, "TASK_MOVE_CGROUP") {
            Action::TaskMoveCgroup
        } else if same_text(name, "CGROUP_CREATE") {
            Action::CgroupCreate
        } else if same_text(name, "CGROUP_MODIFY") {
            Action::CgroupModify
        } else if same_text(name, "CGROUP_DELETE") {
            Action::CgroupDelete
        } else if same_text(name, "CPU_BURST") {
            Action::CpuBurst
        } else {
            Action::Unknown
        }
    }

    /// The name of the action.
    pub fn name(self) -> (name: &'static str)
        ensures
            name@ == self.title(),
    {
        match self {
            Action::TaskCreate => "TASK_CREATE",
            Action::TaskExit => "TASK_EXIT",
            Action::TaskBlock => "TASK_BLOCK",
            Action::TaskUnblock => "TASK_UNBLOCK",
            Action::TaskYield => "TASK_YIELD",
            Action::TaskSetNice => "TASK_SETNICE",
            Action::TaskSetAffinity => "TASK_SET_AFFINITY",
            Action::TaskMoveCgroup => "TASK_MOVE_CGROUP",
            Action::CgroupCreate => "CGROUP_CREATE",
            Action::CgroupModify => "CGROUP_MODIFY",
            Action::CgroupDelete => "CGROUP_DELETE",
            Action::CpuBurst => "CPU_BURST",
            Action::Unknown => "UNKNOWN",
        }
    }
}

/// Why an event is refused.
#[derive(Debug, Clone, Copy, PartialEq, Eq, Structural)]
pub enum EventError {
    /// The event is not a JSON object.
    NotObject,
    /// The action needs a task and the event names none.
    MissingTaskId(Action),
    /// The action needs a control group and the event names none.
    MissingCgroupId(Action),
    /// There is no nice value to set.
    MissingNice,
    /// There is no affinity to set.
    MissingCpuMask,
    /// An entry of a CPU list is not a non-negative integer.
    MaskEntryNotInt,
    /// An entry of a CPU list is beyond the CPUs that a mask covers.
    CpuOutOfRange(u64),
}

impl EventError {
    /// The text of the error.
    pub open spec fn text(self) -> Seq<char> {
        match self {
            EventError::NotObject => "event not object"@,
            EventError::MissingTaskId(action) => action.title() + " missing taskId"@,
            EventError::MissingCgroupId(action) => action.title() + " missing cgroupId"@,
            EventError::MissingNice => "TASK_SETNICE missing nice"@,
            EventError::MissingCpuMask => "TASK_SET_AFFINITY missing cpuMask"@,
            EventError::MaskEntryNotInt => "cpuMask entry must be int"@,
            EventError::CpuOutOfRange(cpu) => "cpu index out of range: "@ + number::decimal(cpu as nat),
        }
    }

    /// The text of the error.
    pub fn message(&self) -> (message: String)
        ensures
            message@ == self.text(),
    {
        match *self {
            EventError::NotObject => "event not object".to_owned(),
            EventError::MissingTaskId(action) => action.name().to_owned().concat(" missing taskId"),
            EventError::MissingCgroupId(action) => action.name().to_owned().concat(
                " missing cgroupId",
            ),
            EventError::MissingNice => "TASK_SETNICE missing nice".to_owned(),
            EventError::MissingCpuMask => "TASK_SET_AFFINITY missing cpuMask".to_owned(),
            EventError::MaskEntryNotInt => "cpuMask entry must be int".to_owned(),
            EventError::CpuOutOfRange(cpu) => "cpu index out of range: ".to_owned().concat(
                number::decimal_text(cpu).as_str(),
            ),
        }
    }
}

/// The fields of an event, as far as any action reads them. A field that is absent or of the
/// wrong type is `None`.
#[derive(Debug, Clone)]
pub struct EventFields {
    /// `action`
    pub action: Option<String>,
    /// `type`
    pub typ: Option<String>,
    /// `event`
    pub event: Option<String>,
    /// `taskId`
    pub task_id: Option<String>,
    /// `id`
    pub id: Option<String>,
    /// `cgroupId`
    pub cgroup_id: Option<String>,
    /// `cgroup`
    pub cgroup: Option<String>,
    /// `newCgroupId`
    pub new_cgroup_id: Option<String>,
    /// `nice`
    pub nice: Option<i64>,
    /// `vruntime`
    pub vruntime: Option<i64>,
    /// `cpuShares`
    pub cpu_shares: Option<i64>,
    /// `cpu_shares`
    pub legacy_shares: Option<i64>,
    /// `cpuMask`, a list of CPUs. An entry that is not a non-negative integer is `None`.
    pub cpu_list: Option<Vec<Option<u64>>>,
    /// `affinity`, a bitmask
    pub affinity: Option<u64>,
    /// `cpu_mask`, a bitmask
    pub cpu_mask: Option<u64>,
}

/// What [`EventFields`] hold.
pub struct FieldsView {
    pub action: Option<Seq<char>>,
    pub typ: Option<Seq<char>>,
    pub event: Option<Seq<char>>,
    pub task_id: Option<Seq<char>>,
    pub id: Option<Seq<char>>,
    pub cgroup_id: Option<Seq<char>>,
    pub cgroup: Option<Seq<char>>,
    pub new_cgroup_id: Option<Seq<char>>,
    pub nice: Option<i64>,
    pub vruntime: Option<i64>,
    pub cpu_shares: Option<i64>,
    pub legacy_shares: Option<i64>,
    pub cpu_list: Option<Seq<Option<u64>>>,
    pub affinity: Option<u64>,
    pub cpu_mask: Option<u64>,
}

/// The entries that an optional list holds.
pub open spec fn list_of(list: Option<Vec<Option<u64>>>) -> Option<Seq<Option<u64>>> {
    match list {
        Some(entries) => Some(entries@),
        None => None,
    }
}

impl View for EventFields {
    type V = FieldsView;

    open spec fn view(&self) -> FieldsView {
        FieldsView {
            action: model::text_of(self.action),
            typ: model::text_of(self.typ),
            event: model::text_of(self.event),
            task_id: model::text_of(self.task_id),
            id: model::text_of(self.id),
            cgroup_id: model::text_of(self.cgroup_id),
            cgroup: model::text_of(self.cgroup),
            new_cgroup_id: model::text_of(self.new_cgroup_id),
            nice: self.nice,
            vruntime: self.vruntime,
            cpu_shares: self.cpu_shares,
            legacy_shares: self.legacy_shares,
            cpu_list: list_of(self.cpu_list),
            affinity: self.affinity,
            cpu_mask: self.cpu_mask,
        }
    }
}

/// `a` if it is there, and otherwise `b`.
pub open spec fn either<T>(a: Option<T>, b: Option<T>) -> Option<T> {
    match a {
        Some(x) => Some(x),
        None => b,
    }
}

/// The mask with the bits of the listed CPUs, or the error that the first bad entry gives: one that
/// is no number, or beyond the CPUs that a mask covers.
pub open spec fn mask_of_list(list: Seq<Option<u64>>) -> Result<u64, EventError>
    decreases list.len(),
{
    if list.len() == 0 {
        Ok(0)
    } else {
        match (mask_of_list(list.drop_last()), list.last()) {
            (Err(e), _) => Err(e),
            (Ok(_), None) => Err(EventError::MaskEntryNotInt),
            (Ok(bits), Some(cpu)) => if cpu < 64 {
                Ok(bits | (1u64 << cpu))
            } else {
                Err(EventError::CpuOutOfRange(cpu))
            },
        }
    }
}

/// The mask that an event gives: the list of CPUs if it has one, and otherwise the bitmask.
pub open spec fn mask_from(list: Option<Seq<Option<u64>>>, bits: Option<u64>) -> Result<
    Option<u64>,
    EventError,
> {
    match list {
        Some(entries) => match mask_of_list(entries) {
            Ok(mask) => Ok(Some(mask)),
            Err(e) => Err(e),
        },
        None => Ok(bits),
    }
}

/// The shares that an event gives: at least one, of which the low 32 bits are kept.
pub open spec fn shares_from(shares: i64) -> u32 {
    (if shares < 1 {
        1
    } else {
        shares
    }) as u32
}

impl FieldsView {
    /// The name of the action.
    pub open spec fn action_name(self) -> Option<Seq<char>> {
        either(self.action, either(self.typ, self.event))
    }

    /// What the event asks for.
    pub open spec fn requested(self) -> Action {
        match self.action_name() {
            Some(name) => action_named(name),
            None => Action::Unknown,
        }
    }

    /// The task that the event is about.
    pub open spec fn task(self) -> Option<Seq<char>> {
        either(self.task_id, self.id)
    }

    /// The control group that the event is about.
    pub open spec fn group(self) -> Option<Seq<char>> {
        either(self.cgroup_id, self.cgroup)
    }

    /// The shares that the event gives.
    pub open spec fn shares(self) -> Option<u32> {
        match either(self.cpu_shares, self.legacy_shares) {
            Some(shares) => Some(shares_from(shares)),
            None => None,
        }
    }
}

/// A change to the tasks and control groups.
#[derive(Debug)]
pub enum Event {
    TaskCreate {
        id: String,
        nice: i32,
        vruntime: i64,
        affinity: u64,
        cgroup: Option<String>,
    },
    TaskExit { id: String },
    TaskBlock { id: String },
    TaskUnblock { id: String },
    TaskYield { id: String },
    TaskSetNice { id: String, nice: i32 },
    TaskSetAffinity { id: String, mask: u64 },
    TaskMoveCgroup { id: String, cgroup: Option<String> },
    CgroupCreate { id: String, shares: Option<u32>, mask: Option<u64> },
    /// The mask of a modification is looked at after its shares took effect.
    CgroupModify { id: String, shares: Option<u32>, mask: Result<Option<u64>, EventError> },
    CgroupDelete { id: String },
    CpuBurst { id: String },
    Ignored,
}

/// What an [`Event`] holds.
pub enum EventView {
    TaskCreate {
        id: Seq<char>,
        nice: i32,
        vruntime: i64,
        affinity: u64,
        cgroup: Option<Seq<char>>,
    },
    TaskExit { id: Seq<char> },
    TaskBlock { id: Seq<char> },
    TaskUnblock { id: Seq<char> },
    TaskYield { id: Seq<char> },
    TaskSetNice { id: Seq<char>, nice: i32 },
    TaskSetAffinity { id: Seq<char>, mask: u64 },
    TaskMoveCgroup { id: Seq<char>, cgroup: Option<Seq<char>> },
    CgroupCreate { id: Seq<char>, shares: Option<u32>, mask: Option<u64> },
    CgroupModify { id: Seq<char>, shares: Option<u32>, mask: Result<Option<u64>, EventError> },
    CgroupDelete { id: Seq<char> },
    CpuBurst { id: Seq<char> },
    Ignored,
}

impl View for Event {
    type V = EventView;

    open spec fn view(&self) -> EventView {
        match *self {
            Event::TaskCreate { id, nice, vruntime, affinity, cgroup } => EventView::TaskCreate {
                id: id@,
                nice,
                vruntime,
                affinity,
                cgroup: model::text_of(cgroup),
            },
            Event::TaskExit { id } => EventView::TaskExit { id: id@ },
            Event::TaskBlock { id } => EventView::TaskBlock { id: id@ },
            Event::TaskUnblock { id } => EventView::TaskUnblock { id: id@ },
            Event::TaskYield { id } => EventView::TaskYield { id: id@ },
            Event::TaskSetNice { id, nice } => EventView::TaskSetNice { id: id@, nice },
            Event::TaskSetAffinity { id, mask } => EventView::TaskSetAffinity { id: id@, mask },
            Event::TaskMoveCgroup { id, cgroup } => EventView::TaskMoveCgroup {
                id: id@,
                cgroup: model::text_of(cgroup),
            },
            Event::CgroupCreate { id, shares, mask } => EventView::CgroupCreate {
                id: id@,
                shares,
                mask,
            },
            Event::CgroupModify { id, shares, mask } => EventView::CgroupModify {
                id: id@,
                shares,
                mask,
            },
            Event::CgroupDelete { id } => EventView::CgroupDelete { id: id@ },
            Event::CpuBurst { id } => EventView::CpuBurst { id: id@ },
            Event::Ignored => EventView::Ignored,
        }
    }
}

/// The event that `f` describes, if its action is about a task.
pub open spec fn decode_for_task(f: FieldsView, id: Seq<char>) -> Result<EventView, EventError> {
    match f.requested() {
        Action::TaskCreate => match mask_from(f.cpu_list, f.affinity) {
            Err(e) => Err(e),
            Ok(mask) => Ok(
                EventView::TaskCreate {
                    id,
                    nice: f.nice.unwrap_or(0) as i32,
                    vruntime: f.vruntime.unwrap_or(0),
                    affinity: mask.unwrap_or(0xffff_ffff_ffff_ffff),
                    cgroup: f.group(),
                },
            ),
        },
        Action::TaskExit => Ok(EventView::TaskExit { id }),
        Action::TaskBlock => Ok(EventView::TaskBlock { id }),
        Action::TaskUnblock => Ok(EventView::TaskUnblock { id }),
        Action::TaskYield => Ok(EventView::TaskYield { id }),
        Action::TaskSetNice => match f.nice {
            Some(nice) => Ok(EventView::TaskSetNice { id, nice: nice as i32 }),
            None => Err(EventError::MissingNice),
        },
        Action::TaskSetAffinity => match mask_from(f.cpu_list, f.affinity) {
            Err(e) => Err(e),
            Ok(None) => Err(EventError::MissingCpuMask),
            Ok(Some(mask)) => Ok(EventView::TaskSetAffinity { id, mask }),
        },
        Action::TaskMoveCgroup => Ok(
            EventView::TaskMoveCgroup { id, cgroup: either(f.new_cgroup_id, f.group()) },
        ),
        _ => Ok(EventView::CpuBurst { id }),
    }
}

/// The event that `f` describes, if its action is about a control group.
pub open spec fn decode_for_group(f: FieldsView, id: Seq<char>) -> Result<EventView, EventError> {
    match f.requested() {
        Action::CgroupCreate => match mask_from(f.cpu_list, f.cpu_mask) {
            Err(e) => Err(e),
            Ok(mask) => Ok(EventView::CgroupCreate { id, shares: f.shares(), mask }),
        },
        Action::CgroupModify => Ok(
            EventView::CgroupModify {
                id,
                shares: f.shares(),
                mask: mask_from(f.cpu_list, f.cpu_mask),
            },
        ),
        _ => Ok(EventView::CgroupDelete { id }),
    }
}

/// The event that `f` describes, or why it is refused.
pub open spec fn decode(f: FieldsView) -> Result<EventView, EventError> {
    match f.requested() {
        Action::Unknown => Ok(EventView::Ignored),
        Action::CgroupCreate | Action::CgroupModify | Action::CgroupDelete => match f.group() {
            Some(id) => decode_for_group(f, id),
            None => Err(EventError::MissingCgroupId(f.requested())),
        },
        _ => match f.task() {
            Some(id) => decode_for_task(f, id),
            None => Err(EventError::MissingTaskId(f.requested())),
        },
    }
}

/// What the result of decoding holds.
pub open spec fn decoded(r: Result<Event, EventError>) -> Result<EventView, EventError> {
    match r {
        Ok(event) => Ok(event@),
        Err(e) => Err(e),
    }
}

/// What the results of decoding hold.
pub open spec fn all_decoded(list: Seq<Result<Event, EventError>>) -> Seq<
    Result<EventView, EventError>,
> {
    list.map_values(|r: Result<Event, EventError>| decoded(r))
}

/// The text that an optional `str` holds.
pub open spec fn str_text(s: Option<&str>) -> Option<Seq<char>> {
    match s {
        Some(t) => Some(t@),
        None => None,
    }
}

/// `a` if it is there, and otherwise `b`.
fn either_text<'a>(a: &'a Option<String>, b: &'a Option<String>) -> (r: Option<&'a str>)
    ensures
        str_text(r) == either(model::text_of(*a), model::text_of(*b)),
{
    match a {
        Some(s) => Some(s.as_str()),
        None => match b {
            Some(s) => Some(s.as_str()),
            None => None,
        },
    }
}

/// A string of one's own from a borrowed one.
fn owned(s: Option<&str>) -> (r: Option<String>)
    ensures
        model::text_of(r) == str_text(s),
{
    match s {
        Some(t) => Some(t.to_owned()),
        None => None,
    }
}

/// The mask of a CPU list.
pub fn parse_cpu_mask_array(list: &[Option<u64>]) -> (mask: Result<u64, EventError>)
    ensures
        mask == mask_of_list(list@),
{
    let mut bits: u64 = 0;
    let mut i: usize = 0;
    assert(list@.take(0) =~= Seq::empty());
    while i < list.len()
        invariant
            i <= list@.len(),
            mask_of_list(list@.take(i as int)) == Ok::<u64, EventError>(bits),
        decreases list@.len() - i,
    {
        assert(list@.take(i + 1).drop_last() =~= list@.take(i as int));
        match list[i] {
            None => {
                proof {
                    bad_entry_decides(list@, i + 1);
                }
                return Err(EventError::MaskEntryNotInt);
            },
            Some(cpu) => {
                if cpu >= 64 {
                    proof {
                        bad_entry_decides(list@, i + 1);
                    }
                    return Err(EventError::CpuOutOfRange(cpu));
                }
                bits = bits | (1u64 << cpu);
            },
        }
        i = i + 1;
    }
    assert(list@.take(list@.len() as int) =~= list@);
    Ok(bits)
}

/// What follows a bad entry of a CPU list does not matter.
proof fn bad_entry_decides(list: Seq<Option<u64>>, n: int)
    requires
        0 <= n <= list.len(),
        mask_of_list(list.take(n)) is Err,
    ensures
        mask_of_list(list) == mask_of_list(list.take(n)),
    decreases list.len() - n,
{
    if n < list.len() {
        assert(list.take(n + 1).drop_last() =~= list.take(n));
        bad_entry_decides(list, n + 1);
    } else {
        assert(list.take(n) =~= list);
    }
}

/// The mask that an event gives: the list of CPUs if it has one, and otherwise the bitmask.
pub fn get_cpu_mask(list: &Option<Vec<Option<u64>>>, bits: Option<u64>) -> (mask: Result<
    Option<u64>,
    EventError,
>)
    ensures
        mask == mask_from(list_of(*list), bits),
{
    match list {
        Some(entries) => match parse_cpu_mask_array(entries.as_slice()) {
            Ok(mask) => Ok(Some(mask)),
            Err(e) => Err(e),
        },
        None => Ok(bits),
    }
}

impl EventFields {
    /// The name of the action.
    pub fn get_action(&self) -> (name: Option<&str>)
        ensures
            str_text(name) == self@.action_name(),
    {
        match &self.action {
            Some(name) => Some(name.as_str()),
            None => either_text(&self.typ, &self.event),
        }
    }

    /// The task that the event is about.
    pub fn get_task_id(&self) -> (id: Option<&str>)
        ensures
            str_text(id) == self@.task(),
    {
        either_text(&self.task_id, &self.id)
    }

    /// The control group that the event is about.
    pub fn get_cgroup_id(&self) -> (id: Option<&str>)
        ensures
            str_text(id) == self@.group(),
    {
        either_text(&self.cgroup_id, &self.cgroup)
    }

    /// The shares that the event gives.
    fn get_shares(&self) -> (shares: Option<u32>)
        ensures
            shares == self@.shares(),
    {
        let shares: Option<i64> = match self.cpu_shares {
            Some(n) => Some(n),
            None => self.legacy_shares,
        };
        match shares {
            Some(n) => {
                let n: i64 = if n < 1 {
                    1
                } else {
                    n
                };
                Some(n as u32)
            },
            None => None,
        }
    }

    /// The event, if its action is about the task `id`.
    fn decode_for_task(&self, action: Action, id: String) -> (event: Result<Event, EventError>)
        requires
            action == self@.requested(),
        ensures
            decoded(event) == decode_for_task(self@, id@),
    {
        match action {
            Action::TaskCreate => match get_cpu_mask(&self.cpu_list, self.affinity) {
                Err(e) => Err(e),
                Ok(mask) => Ok(
                    Event::TaskCreate {
                        id,
                        nice: self.nice.unwrap_or(0) as i32,
                        vruntime: self.vruntime.unwrap_or(0),
                        affinity: mask.unwrap_or(0xffff_ffff_ffff_ffff),
                        cgroup: owned(self.get_cgroup_id()),
                    },
                ),
            },
            Action::TaskExit => Ok(Event::TaskExit { id }),
            Action::TaskBlock => Ok(Event::TaskBlock { id }),
            Action::TaskUnblock => Ok(Event::TaskUnblock { id }),
            Action::TaskYield => Ok(Event::TaskYield { id }),
            Action::TaskSetNice => match self.nice {
                Some(nice) => Ok(Event::TaskSetNice { id, nice: nice as i32 }),
                None => Err(EventError::MissingNice),
            },
            Action::TaskSetAffinity => match get_cpu_mask(&self.cpu_list, self.affinity) {
                Err(e) => Err(e),
                Ok(None) => Err(EventError::MissingCpuMask),
                Ok(Some(mask)) => Ok(Event::TaskSetAffinity { id, mask }),
            },
            Action::TaskMoveCgroup => {
                let cgroup = match &self.new_cgroup_id {
                    Some(group) => Some(group.clone()),
                    None => owned(self.get_cgroup_id()),
                };
                Ok(Event::TaskMoveCgroup { id, cgroup })
            },
            _ => Ok(Event::CpuBurst { id }),
        }
    }

    /// The event, if its action is about the control group `id`.
    fn decode_for_group(&self, action: Action, id: String) -> (event: Result<Event, EventError>)
        requires
            action == self@.requested(),
        ensures
            decoded(event) == decode_for_group(self@, id@),
    {
        let shares = self.get_shares();
        match action {
            Action::CgroupCreate => match get_cpu_mask(&self.cpu_list, self.cpu_mask) {
                Err(e) => Err(e),
                Ok(mask) => Ok(Event::CgroupCreate { id, shares, mask }),
            },
            Action::CgroupModify => {
                let mask = get_cpu_mask(&self.cpu_list, self.cpu_mask);
                Ok(Event::CgroupModify { id, shares, mask })
            },
            _ => Ok(Event::CgroupDelete { id }),
        }
    }

    /// The event that the fields describe, or why it is refused.
    pub fn decode(&self) -> (event: Result<Event, EventError>)
        ensures
            decoded(event) == decode(self@),
    {
        let action = match self.get_action() {
            Some(name) => Action::parse(name),
            None => Action::Unknown,
        };
        match action {
            Action::Unknown => Ok(Event::Ignored),
            Action::CgroupCreate | Action::CgroupModify | Action::CgroupDelete => {
                match self.get_cgroup_id() {
                    Some(id) => self.decode_for_group(action, id.to_owned()),
                    None => Err(EventError::MissingCgroupId(action)),
                }
            },
            _ => match self.get_task_id() {
                Some(id) => self.decode_for_task(action, id.to_owned()),
                None => Err(EventError::MissingTaskId(action)),
            },
        }
    }
}

/// The name of an action stands for that action.
pub proof fn names_stand_for_actions(action: Action)
    ensures
        action_named(action.title()) == action,
{
    reveal_strlit("TASK_CREATE");
    reveal_strlit("TASK_EXIT");
    reveal_strlit("TASK_BLOCK");
    reveal_strlit("TASK_UNBLOCK");
    reveal_strlit("TASK_YIELD");
    reveal_strlit("TASK_SETNICE");
    reveal_strlit("TASK_SET_AFFINITY");
    reveal_strlit("TASK_MOVE_CGROUP");
    reveal_strlit("CGROUP_CREATE");
    reveal_strlit("CGROUP_MODIFY");
    reveal_strlit("CGROUP_DELETE");
    reveal_strlit("CPU_BURST");
    reveal_strlit("UNKNOWN");
    assert("TASK_CREATE"@.len() == 11);
    assert("TASK_EXIT"@.len() == 9);
    assert("TASK_BLOCK"@.len() == 10);
    assert("TASK_UNBLOCK"@.len() == 12);
    assert("TASK_YIELD"@.len() == 10);
    assert("TASK_SETNICE"@.len() == 12);
    assert("TASK_SET_AFFINITY"@.len() == 17);
    assert("TASK_MOVE_CGROUP"@.len() == 16);
    assert("CGROUP_CREATE"@.len() == 13);
    assert("CGROUP_MODIFY"@.len() == 13);
    assert("CGROUP_DELETE"@.len() == 13);
    assert("CPU_BURST"@.len() == 9);
    assert("UNKNOWN"@.len() == 7);
    assert("TASK_EXIT"@[0] != "CPU_BURST"@[0]);
    assert("TASK_BLOCK"@[5] != "TASK_YIELD"@[5]);
    assert("TASK_UNBLOCK"@[5] != "TASK_SETNICE"@[5]);
    assert("CGROUP_CREATE"@[7] != "CGROUP_MODIFY"@[7]);
    assert("CGROUP_CREATE"@[7] != "CGROUP_DELETE"@[7]);
    assert("CGROUP_MODIFY"@[7] != "CGROUP_DELETE"@[7]);
}

/// A list of CPUs has a mask if every entry is a CPU that a mask covers, and not otherwise.
pub proof fn good_lists_have_masks(list: Seq<Option<u64>>)
    ensures
        mask_of_list(list) is Ok <==> forall|i: int|
            0 <= i < list.len() ==> (#[trigger] list[i] matches Some(cpu) && cpu < 64),
    decreases list.len(),
{
    if list.len() > 0 {
        let front = list.drop_last();
        good_lists_have_masks(front);
        if mask_of_list(list) is Ok {
            assert forall|i: int| 0 <= i < list.len() implies (#[trigger] list[i] matches Some(cpu)
                && cpu < 64) by {
                if i < front.len() {
                    assert(front[i] == list[i]);
                }
            }
        } else if forall|i: int|
            0 <= i < list.len() ==> (#[trigger] list[i] matches Some(cpu) && cpu < 64) {
            assert(list[list.len() - 1] == list.last());
            assert forall|i: int| 0 <= i < front.len() implies (#[trigger] front[i] matches Some(
                cpu,
            ) && cpu < 64) by {
                assert(front[i] == list[i]);
            }
        }
    }
}

/// A mask made from a list of CPUs allows exactly the CPUs of the list.
pub proof fn list_mask_allows_listed(list: Seq<Option<u64>>, cpu: usize)
    ensures
        mask_of_list(list) matches Ok(mask) ==> (model::mask_allows(mask, cpu) <==> list.contains(
            Some(cpu as u64),
        )),
    decreases list.len(),
{
    let y = cpu as u64;
    if list.len() == 0 {
        if cpu < 64 {
            assert(0u64 & (1u64 << y) == 0) by (bit_vector);
        }
    } else if let Ok(mask) = mask_of_list(list) {
        let front = list.drop_last();
        let a = mask_of_list(front)->Ok_0;
        let x = list.last()->0;
        list_mask_allows_listed(front, cpu);
        if cpu < 64 {
            assert(((a | (1u64 << x)) & (1u64 << y) != 0) <==> (a & (1u64 << y) != 0 || x == y))
                by (bit_vector)
                requires
                    x < 64,
                    y < 64,
            ;
        }
        if list.contains(Some(y)) {
            let i = list.index_of(Some(y));
            if i < front.len() {
                assert(front[i] == Some(y));
            }
        }
        if front.contains(Some(y)) {
            assert(list[front.index_of(Some(y))] == Some(y));
        }
        assert(list[list.len() - 1] == list.last());
    }
}

} // verus!
