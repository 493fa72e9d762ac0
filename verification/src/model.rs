//! Tasks, control groups and the world they live in.

use vstd::prelude::*;

use crate::idmap::IdMap;

verus! {

/// Linux CFS nice weights table for nice -20..19 (index = nice + 20)
pub const NICE_TO_WEIGHT: [u32; 40] = [
    88761, 71755, 56483, 46273, 36291,
    29154, 23254, 18705, 14949, 11916,
    9548, 7620, 6100, 4904, 3906,
    3121, 2501, 1991, 1586, 1277,
    1024, 820, 655, 526, 423,
    335, 272, 215, 172, 137,
    110, 87, 70, 56, 45,
    36, 29, 23, 18, 15,
];

/// The weight of a task at nice 0.
pub const NICE_0_LOAD: u32 = 1024;

/// Root (no-cgroup) pseudo-id
pub const ROOT_CGROUP: &'static str = "__root__";

/// The nice value nearest to `nice` that the table covers.
pub open spec fn clamp_nice(nice: i32) -> i32 {
    if nice < -20 {
        (-20) as i32
    } else if nice > 19 {
        19
    } else {
        nice
    }
}

/// The weight that the table gives to a nice value in its range.
pub open spec fn weight_of(nice: i32) -> u32 {
    NICE_TO_WEIGHT@[nice + 20]
}

/// Bit `cpu` of `mask` is set; no mask covers a CPU from 64 on.
pub open spec fn mask_allows(mask: u64, cpu: usize) -> bool {
    cpu < 64 && (mask & (1u64 << cpu)) != 0
}

/// A mask with a bit set is odd once it is shifted down to that bit.
pub proof fn bit_is_set(mask: u64, cpu: usize)
    requires
        cpu < 64,
    ensures
        (mask & (1u64 << cpu)) != 0 <==> (mask >> cpu) % 2 == 1,
{
    let y = cpu as u64;
    assert((mask & (1u64 << y)) != 0 <==> (mask >> y) % 2 == 1) by (bit_vector)
        requires
            y < 64,
    ;
}

/// The text that an optional string holds.
pub open spec fn text_of(s: Option<String>) -> Option<Seq<char>> {
    match s {
        Some(t) => Some(t@),
        None => None,
    }
}

/// Whether a task can be scheduled.
#[derive(Debug, Clone, Copy, PartialEq, Eq, Structural)]
pub enum TaskState {
    Runnable,
    Blocked,
    Exited,
}

/// A task.
#[derive(Debug, Clone)]
pub struct Task {
    pub id: String,
    pub nice: i32,
    pub weight: u32,
    pub vruntime: i64,
    pub state: TaskState,
    /// CPU affinity bitmask. bit i => can run on CPU i
    pub affinity_mask: u64,
    /// cgroup id (None => root)
    pub cgroup: Option<String>,
    /// last cpu it ran on (for migrations accounting)
    pub last_cpu: Option<usize>,
    /// If true: after CPU_BURST, task vruntime is no longer tracked/updated
    pub burst_mode: bool,
}

/// What a [`Task`] holds.
pub struct TaskView {
    pub id: Seq<char>,
    pub nice: i32,
    pub weight: u32,
    pub vruntime: i64,
    pub state: TaskState,
    pub affinity_mask: u64,
    pub cgroup: Option<Seq<char>>,
    pub last_cpu: Option<usize>,
    pub burst_mode: bool,
}

impl View for Task {
    type V = TaskView;

    open spec fn view(&self) -> TaskView {
        TaskView {
            id: self.id@,
            nice: self.nice,
            weight: self.weight,
            vruntime: self.vruntime,
            state: self.state,
            affinity_mask: self.affinity_mask,
            cgroup: text_of(self.cgroup),
            last_cpu: self.last_cpu,
            burst_mode: self.burst_mode,
        }
    }
}

impl TaskView {
    /// The task has a nice value of the table and the weight that goes with it.
    pub open spec fn weighted(self) -> bool {
        -20 <= self.nice <= 19 && self.weight == weight_of(self.nice)
    }

    /// The task after its nice value was set to `nice`.
    pub open spec fn with_nice(self, nice: i32) -> TaskView {
        TaskView { nice: clamp_nice(nice), weight: weight_of(clamp_nice(nice)), ..self }
    }

    /// The control group that the task belongs to.
    pub open spec fn group(self) -> Seq<char> {
        match self.cgroup {
            Some(g) => g,
            None => ROOT_CGROUP@,
        }
    }
}

/// A task as it is created.
pub open spec fn new_task(
    id: Seq<char>,
    nice: i32,
    vruntime: i64,
    affinity_mask: u64,
    cgroup: Option<Seq<char>>,
) -> TaskView {
    TaskView {
        id,
        nice: clamp_nice(nice),
        weight: weight_of(clamp_nice(nice)),
        vruntime,
        state: TaskState::Runnable,
        affinity_mask,
        cgroup,
        last_cpu: None,
        burst_mode: false,
    }
}

/// `nice`, brought into the range of the table.
fn clamped(nice: i32) -> (result: i32)
    ensures
        result == clamp_nice(nice),
{
    if nice < -20 {
        -20
    } else if nice > 19 {
        19
    } else {
        nice
    }
}

impl Task {
    /// A runnable task, with its nice value brought into the range of the table.
    pub fn new(
        id: String,
        nice: i32,
        vruntime: i64,
        affinity_mask: u64,
        cgroup: Option<String>,
    ) -> (task: Self)
        ensures
            task@ == new_task(id@, nice, vruntime, affinity_mask, text_of(cgroup)),
            task.id@ == id@,
            -20 <= nice <= 19 ==> task.nice == nice,
            nice < -20 ==> task.nice == -20,
            nice > 19 ==> task.nice == 19,
            task.weight == NICE_TO_WEIGHT@[task.nice + 20],
            task.vruntime == vruntime,
            task.state == TaskState::Runnable,
            task.affinity_mask == affinity_mask,
            task.cgroup == cgroup,
            task.last_cpu is None,
            !task.burst_mode,
    {
        let nice: i32 = clamped(nice);
        let weight: u32 = NICE_TO_WEIGHT[(nice + 20) as usize];
        Task {
            id,
            nice,
            weight,
            vruntime,
            state: TaskState::Runnable,
            affinity_mask,
            cgroup,
            last_cpu: None,
            burst_mode: false,
        }
    }

    /// Sets the nice value, brought into the range of the table, and the weight with it.
    pub fn set_nice(&mut self, nice: i32)
        ensures
            final(self)@ == old(self)@.with_nice(nice),
            -20 <= nice <= 19 ==> final(self).nice == nice,
            nice < -20 ==> final(self).nice == -20,
            nice > 19 ==> final(self).nice == 19,
            final(self).weight == NICE_TO_WEIGHT@[final(self).nice + 20],
            *final(self) == (Task {
                nice: final(self).nice,
                weight: final(self).weight,
                ..*old(self)
            }),
    {
        self.nice = clamped(nice);
        self.weight = NICE_TO_WEIGHT[(self.nice + 20) as usize];
    }

    /// Whether the task may run on `cpu`.
    pub fn can_run_on(&self, cpu: usize) -> (result: bool)
        ensures
            result == mask_allows(self@.affinity_mask, cpu),
            result == (cpu < 64 && (self.affinity_mask >> cpu) % 2 == 1),
    {
        if cpu >= 64 {
            return false;
        }
        proof {
            bit_is_set(self.affinity_mask, cpu);
        }
        (self.affinity_mask & (1u64 << cpu)) != 0
    }
}

/// A control group.
#[derive(Debug, Clone)]
pub struct Cgroup {
    pub id: String,
    pub cpu_shares: u32,
    pub cpu_mask: u64,
    /// group-level virtual runtime (for fairness between cgroups)
    pub vruntime: i64,
}

/// What a [`Cgroup`] holds.
pub struct CgroupView {
    pub id: Seq<char>,
    pub cpu_shares: u32,
    pub cpu_mask: u64,
    pub vruntime: i64,
}

impl View for Cgroup {
    type V = CgroupView;

    open spec fn view(&self) -> CgroupView {
        CgroupView {
            id: self.id@,
            cpu_shares: self.cpu_shares,
            cpu_mask: self.cpu_mask,
            vruntime: self.vruntime,
        }
    }
}

/// A control group as it is created: 1024 shares, every CPU, no runtime yet.
pub open spec fn new_cgroup(id: Seq<char>) -> CgroupView {
    CgroupView { id, cpu_shares: 1024, cpu_mask: 0xffff_ffff_ffff_ffff, vruntime: 0 }
}

impl Cgroup {
    /// A control group with default shares that may run on every CPU.
    pub fn new(id: String) -> (group: Self)
        ensures
            group@ == new_cgroup(id@),
            group.id@ == id@,
            group.cpu_shares == 1024,
            group.cpu_mask == 0xffff_ffff_ffff_ffff,
            group.vruntime == 0,
    {
        Cgroup { id, cpu_shares: 1024, cpu_mask: 0xffff_ffff_ffff_ffff, vruntime: 0 }
    }

    /// Whether the tasks of the group may run on `cpu`.
    pub fn can_run_on(&self, cpu: usize) -> (result: bool)
        ensures
            result == mask_allows(self@.cpu_mask, cpu),
            result == (cpu < 64 && (self.cpu_mask >> cpu) % 2 == 1),
    {
        if cpu >= 64 {
            return false;
        }
        proof {
            bit_is_set(self.cpu_mask, cpu);
        }
        (self.cpu_mask & (1u64 << cpu)) != 0
    }
}

/// All tasks and control groups, and what ran on each CPU in the last tick.
#[derive(Debug)]
pub struct World {
    pub tasks: IdMap<Task>,
    pub cgroups: IdMap<Cgroup>,
    pub last_schedule: Vec<Option<String>>,
}

/// What a [`World`] holds.
pub struct WorldView {
    pub tasks: Map<Seq<char>, TaskView>,
    pub cgroups: Map<Seq<char>, CgroupView>,
    pub last_schedule: Seq<Option<Seq<char>>>,
}

impl View for World {
    type V = WorldView;

    open spec fn view(&self) -> WorldView {
        WorldView {
            tasks: self.tasks@,
            cgroups: self.cgroups@,
            last_schedule: self.last_schedule@.map_values(|s: Option<String>| text_of(s)),
        }
    }
}

impl WorldView {
    /// Every task has a weight to divide by.
    pub open spec fn weights_positive(self) -> bool {
        forall|id: Seq<char>| #[trigger] self.tasks.contains_key(id) ==> self.tasks[id].weight > 0
    }

    /// Every task has a nice value of the table and the weight that goes with it.
    pub open spec fn weighted(self) -> bool {
        forall|id: Seq<char>| #[trigger] self.tasks.contains_key(id) ==> self.tasks[id].weighted()
    }

    /// Tasks and control groups stand under their own identifiers.
    pub open spec fn keyed(self) -> bool {
        &&& forall|id: Seq<char>| #[trigger]
            self.tasks.contains_key(id) ==> self.tasks[id].id == id
        &&& forall|id: Seq<char>| #[trigger]
            self.cgroups.contains_key(id) ==> self.cgroups[id].id == id
    }

    /// The world with `task` under `id`.
    pub open spec fn with_task(self, id: Seq<char>, task: TaskView) -> WorldView {
        WorldView { tasks: self.tasks.insert(id, task), ..self }
    }

    /// The world with `group` under `id`.
    pub open spec fn with_cgroup(self, id: Seq<char>, group: CgroupView) -> WorldView {
        WorldView { cgroups: self.cgroups.insert(id, group), ..self }
    }
}

impl World {
    /// The maps are in order and every task has a weight to divide by.
    pub open spec fn wf(&self) -> bool {
        &&& self.tasks.wf()
        &&& self.cgroups.wf()
        &&& self@.weights_positive()
    }
}

/// A world without tasks or control groups, in which nothing has run.
pub open spec fn empty_world() -> WorldView {
    WorldView { tasks: Map::empty(), cgroups: Map::empty(), last_schedule: Seq::empty() }
}

impl Default for World {
    fn default() -> (world: Self)
        ensures
            world.wf(),
            world@ == empty_world(),
            world@.tasks == Map::<Seq<char>, TaskView>::empty(),
            world@.cgroups == Map::<Seq<char>, CgroupView>::empty(),
            world.last_schedule@.len() == 0,
    {
        let world = World { tasks: IdMap::new(), cgroups: IdMap::new(), last_schedule: Vec::new() };
        assert(world@.last_schedule =~= Seq::<Option<Seq<char>>>::empty());
        world
    }
}

/// A world shows what its tasks, its groups and its last schedule hold.
pub proof fn views_show_every_field(task: Task, group: Cgroup, world: World, cpu: int)
    ensures
        task@.id == task.id@,
        task@.nice == task.nice,
        task@.weight == task.weight,
        task@.vruntime == task.vruntime,
        task@.state == task.state,
        task@.affinity_mask == task.affinity_mask,
        task.cgroup matches Some(g) ==> task@.cgroup == Some(g@),
        task.cgroup is None ==> task@.cgroup is None,
        task@.last_cpu == task.last_cpu,
        task@.burst_mode == task.burst_mode,
        task.cgroup matches Some(g) ==> task@.group() == g@,
        task.cgroup is None ==> task@.group() == "__root__"@,
        group@.id == group.id@,
        group@.cpu_shares == group.cpu_shares,
        group@.cpu_mask == group.cpu_mask,
        group@.vruntime == group.vruntime,
        world@.tasks == world.tasks@,
        world@.cgroups == world.cgroups@,
        world@.last_schedule.len() == world.last_schedule@.len(),
        0 <= cpu < world.last_schedule@.len() ==> match world.last_schedule@[cpu] {
            Some(t) => world@.last_schedule[cpu] == Some(t@),
            None => world@.last_schedule[cpu] is None,
        },
{
}

/// Every weight of the table is positive.
pub proof fn weights_are_positive(nice: i32)
    requires
        -20 <= nice <= 19,
    ensures
        weight_of(nice) > 0,
{
}

/// A task with a lower nice value weighs more.
pub proof fn weight_falls_with_nice(a: i32, b: i32)
    requires
        -20 <= a < b <= 19,
    ensures
        weight_of(a) > weight_of(b),
{
}

/// The weight at nice 0 is the reference load.
pub proof fn weight_at_nice_zero()
    ensures
        weight_of(0) == NICE_0_LOAD,
{
}

} // verus!
