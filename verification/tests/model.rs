use alfs::model::{Cgroup, Task, TaskState, World, NICE_0_LOAD, NICE_TO_WEIGHT, ROOT_CGROUP};

fn task(nice: i32, mask: u64) -> Task {
    Task::new("t".to_string(), nice, 7, mask, None)
}

#[test]
fn new_task_has_the_weight_of_its_nice_value() {
    let t = Task::new("web".to_string(), 0, 42, 0b101, Some("g".to_string()));
    assert_eq!(t.id, "web");
    assert_eq!(t.nice, 0);
    assert_eq!(t.weight, 1024);
    assert_eq!(t.vruntime, 42);
    assert_eq!(t.state, TaskState::Runnable);
    assert_eq!(t.affinity_mask, 0b101);
    assert_eq!(t.cgroup.as_deref(), Some("g"));
    assert_eq!(t.last_cpu, None);
    assert!(!t.burst_mode);
}

#[test]
fn nice_values_are_clamped() {
    assert_eq!((task(-20, 0).nice, task(-20, 0).weight), (-20, 88761));
    assert_eq!((task(-21, 0).nice, task(-21, 0).weight), (-20, 88761));
    assert_eq!((task(19, 0).nice, task(19, 0).weight), (19, 15));
    assert_eq!((task(20, 0).nice, task(20, 0).weight), (19, 15));
    assert_eq!((task(i32::MIN, 0).nice, task(i32::MAX, 0).nice), (-20, 19));
}

#[test]
fn set_nice_changes_nice_and_weight_only() {
    let mut t = task(0, 3);
    t.set_nice(5);
    assert_eq!((t.nice, t.weight, t.vruntime, t.affinity_mask), (5, 335, 7, 3));
    t.set_nice(1000);
    assert_eq!((t.nice, t.weight), (19, 15));
    t.set_nice(-1000);
    assert_eq!((t.nice, t.weight), (-20, 88761));
}

#[test]
fn weights_fall_as_nice_rises() {
    for i in 1..NICE_TO_WEIGHT.len() {
        assert!(NICE_TO_WEIGHT[i - 1] > NICE_TO_WEIGHT[i]);
        assert!(NICE_TO_WEIGHT[i] > 0);
    }
    assert_eq!(NICE_TO_WEIGHT[20], NICE_0_LOAD);
}

#[test]
fn affinity_is_a_bitmask() {
    let t = task(0, 0b1010);
    assert!(!t.can_run_on(0));
    assert!(t.can_run_on(1));
    assert!(!t.can_run_on(2));
    assert!(t.can_run_on(3));
    let everywhere = task(0, !0u64);
    assert!(everywhere.can_run_on(63));
    assert!(!everywhere.can_run_on(64));
    assert!(!everywhere.can_run_on(usize::MAX));
    assert!(!task(0, 0).can_run_on(0));
}

#[test]
fn new_group_has_default_shares_and_every_cpu() {
    let g = Cgroup::new("g".to_string());
    assert_eq!(g.id, "g");
    assert_eq!(g.cpu_shares, 1024);
    assert_eq!(g.cpu_mask, !0u64);
    assert_eq!(g.vruntime, 0);
    assert!(g.can_run_on(0));
    assert!(g.can_run_on(63));
    assert!(!g.can_run_on(64));
}

#[test]
fn group_mask_is_a_bitmask() {
    let mut g = Cgroup::new("g".to_string());
    g.cpu_mask = 0b100;
    assert!(!g.can_run_on(1));
    assert!(g.can_run_on(2));
}

#[test]
fn default_world_is_empty() {
    let w = World::default();
    assert_eq!(w.tasks.len(), 0);
    assert_eq!(w.cgroups.len(), 0);
    assert!(w.last_schedule.is_empty());
    assert_eq!(ROOT_CGROUP, "__root__");
}
