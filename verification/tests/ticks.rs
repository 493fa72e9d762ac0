use alfs::event::{Action, Event, EventError};
use alfs::model::{TaskState, World, NICE_TO_WEIGHT};
use alfs::report::{report, report_text};
use alfs::scheduler::{Scheduler, TickResult};
use serde_json::Value;

struct Sim {
    sched: Scheduler,
    world: World,
    time: i64,
}

fn sim(cpus: usize, quanta: i64) -> Sim {
    Sim { sched: Scheduler::new(cpus, quanta), world: World::default(), time: 0 }
}

impl Sim {
    fn try_tick(&mut self, events: &[&str]) -> Result<TickResult, EventError> {
        let list: Vec<Value> = events.iter().map(|e| serde_json::from_str(e).unwrap()).collect();
        self.time += 1;
        self.sched.on_tick(&mut self.world, self.time, &list)
    }

    fn tick(&mut self, events: &[&str]) -> Vec<String> {
        self.try_tick(events).unwrap().schedule
    }

    fn vruntime(&self, id: &str) -> i64 {
        self.world.tasks.get(id).unwrap().vruntime
    }

    fn group_vruntime(&self, id: &str) -> i64 {
        self.world.cgroups.get(id).unwrap().vruntime
    }
}

const A: &str = "{\"action\":\"TASK_CREATE\",\"taskId\":\"A\"}";
const B: &str = "{\"action\":\"TASK_CREATE\",\"taskId\":\"B\"}";

#[test]
fn an_empty_world_idles() {
    let mut s = sim(2, 10);
    let r = s.try_tick(&[]).unwrap();
    assert_eq!(r.vtime, 1);
    assert_eq!(r.schedule, vec!["idle", "idle"]);
    assert_eq!((r.preemptions, r.migrations), (0, 0));
    assert!(r.runnable.is_empty() && r.blocked.is_empty());
    assert!(s.world.cgroups.contains_key("__root__"));
    assert_eq!(s.world.last_schedule, vec![None, None]);
}

#[test]
fn equal_tasks_take_turns() {
    let mut s = sim(1, 10);
    let r = s.try_tick(&[A, B]).unwrap();
    assert_eq!(r.schedule, vec!["A"]);
    assert_eq!(r.preemptions, 0);
    assert_eq!((s.vruntime("A"), s.vruntime("B")), (10, 0));
    let r = s.try_tick(&[]).unwrap();
    assert_eq!((r.schedule, r.preemptions, r.migrations), (vec!["B".to_string()], 1, 0));
    assert_eq!(s.tick(&[]), vec!["A"]);
    assert_eq!(s.tick(&[]), vec!["B"]);
    assert_eq!((s.vruntime("A"), s.vruntime("B")), (20, 20));
    assert_eq!(s.group_vruntime("__root__"), 40);
    assert_eq!(s.world.last_schedule, vec![Some("B".to_string())]);
    assert_eq!(s.world.tasks.get("A").unwrap().last_cpu, Some(0));
}

#[test]
fn no_task_runs_on_two_cpus() {
    let mut s = sim(3, 10);
    let r = s.try_tick(&[A, B]).unwrap();
    assert_eq!(r.schedule, vec!["A", "B", "idle"]);
    assert_eq!(s.tick(&[]), vec!["A", "B", "idle"]);
}

#[test]
fn heavier_tasks_run_more() {
    let mut s = sim(1, 1000);
    s.tick(&[
        "{\"action\":\"TASK_CREATE\",\"taskId\":\"h\",\"nice\":-20}",
        "{\"action\":\"TASK_CREATE\",\"taskId\":\"l\",\"nice\":19}",
    ]);
    assert_eq!(s.vruntime("h"), 11);
    assert_eq!(s.tick(&[]), vec!["l"]);
    assert_eq!(s.vruntime("l"), 68266);
    for _ in 0..50 {
        assert_eq!(s.tick(&[]), vec!["h"]);
    }
    assert_eq!(s.vruntime("h"), 11 * 51);
}

#[test]
fn costs_are_rounded_toward_zero() {
    let mut s = sim(1, -10);
    s.tick(&["{\"action\":\"TASK_CREATE\",\"taskId\":\"x\",\"nice\":5}"]);
    assert_eq!(s.vruntime("x"), -30);
    assert_eq!(s.group_vruntime("__root__"), -10);
}

#[test]
fn runtimes_stop_at_their_bounds() {
    let mut s = sim(1, 10);
    s.tick(&["{\"action\":\"TASK_CREATE\",\"taskId\":\"x\",\"vruntime\":9223372036854775800}"]);
    assert_eq!(s.vruntime("x"), i64::MAX);
    assert_eq!(s.tick(&[]), vec!["x"]);
    let mut s = sim(1, -10);
    s.tick(&["{\"action\":\"TASK_CREATE\",\"taskId\":\"x\",\"vruntime\":-9223372036854775800}"]);
    assert_eq!(s.vruntime("x"), i64::MIN);
}

#[test]
fn a_cost_beyond_64_bits_keeps_its_low_bits() {
    let mut s = sim(1, i64::MAX);
    s.tick(&["{\"action\":\"TASK_CREATE\",\"taskId\":\"x\",\"nice\":19}"]);
    let cost = (i64::MAX as i128 * 1024) / 15;
    assert_eq!(s.vruntime("x"), cost as i64);
}

#[test]
fn affinity_and_migrations() {
    let mut s = sim(2, 10);
    let r = s.try_tick(&[
        "{\"action\":\"TASK_CREATE\",\"taskId\":\"A\",\"cpuMask\":[1]}",
        "{\"action\":\"TASK_CREATE\",\"taskId\":\"B\",\"affinity\":1}",
    ]);
    assert_eq!(r.unwrap().schedule, vec!["B", "A"]);
    let r = s
        .try_tick(&[
            "{\"action\":\"TASK_SET_AFFINITY\",\"taskId\":\"A\",\"cpuMask\":[0]}",
            "{\"action\":\"TASK_SET_AFFINITY\",\"taskId\":\"B\",\"affinity\":2}",
        ])
        .unwrap();
    assert_eq!(r.schedule, vec!["A", "B"]);
    assert_eq!((r.preemptions, r.migrations), (2, 2));
    let r = s.try_tick(&["{\"action\":\"TASK_SET_AFFINITY\",\"taskId\":\"A\",\"cpuMask\":[]}"]);
    let r = r.unwrap();
    assert_eq!(r.schedule, vec!["idle", "B"]);
    assert_eq!((r.preemptions, r.migrations), (1, 0));
    assert_eq!(r.runnable, vec!["A", "B"]);
}

#[test]
fn blocked_and_exited_tasks_do_not_run() {
    let mut s = sim(1, 10);
    let block = "{\"action\":\"TASK_BLOCK\",\"taskId\":\"A\"}";
    s.tick(&[A]);
    let r = s.try_tick(&[block]).unwrap();
    assert_eq!(r.schedule, vec!["idle"]);
    assert_eq!(r.preemptions, 1);
    assert_eq!((r.runnable, r.blocked), (Vec::<String>::new(), vec!["A".to_string()]));
    assert_eq!(s.tick(&["{\"action\":\"TASK_UNBLOCK\",\"taskId\":\"A\"}"]), vec!["A"]);
    let r = s.try_tick(&["{\"action\":\"TASK_EXIT\",\"taskId\":\"A\"}"]).unwrap();
    assert_eq!(r.schedule, vec!["idle"]);
    assert!(r.runnable.is_empty() && r.blocked.is_empty());
    assert_eq!(s.world.tasks.get("A").unwrap().state, TaskState::Exited);
}

#[test]
fn events_on_missing_tasks_do_nothing() {
    let mut s = sim(1, 10);
    for action in [
        "TASK_EXIT",
        "TASK_BLOCK",
        "TASK_UNBLOCK",
        "TASK_YIELD",
        "TASK_MOVE_CGROUP",
        "CPU_BURST",
    ] {
        let e = format!("{{\"action\":\"{}\",\"taskId\":\"ghost\"}}", action);
        assert_eq!(s.tick(&[&e]), vec!["idle"]);
    }
    assert_eq!(s.tick(&["{\"action\":\"TASK_SETNICE\",\"taskId\":\"ghost\",\"nice\":1}"]), vec!["idle"]);
    assert_eq!(s.world.tasks.len(), 0);
}

#[test]
fn an_unblocked_task_catches_up() {
    let mut s = sim(1, 10);
    s.tick(&[A, B]);
    s.tick(&["{\"action\":\"TASK_BLOCK\",\"taskId\":\"A\"}"]);
    s.tick(&[]);
    s.tick(&[]);
    assert_eq!((s.vruntime("A"), s.vruntime("B")), (10, 30));
    // A wakes at the runtime of B, and B was queued first
    assert_eq!(s.tick(&["{\"action\":\"TASK_UNBLOCK\",\"taskId\":\"A\"}"]), vec!["B"]);
    assert_eq!(s.vruntime("A"), 30);
    assert_eq!(s.tick(&[]), vec!["A"]);
}

#[test]
fn unblocking_never_lowers_a_runtime() {
    let mut s = sim(1, 10);
    s.tick(&[B, "{\"action\":\"TASK_CREATE\",\"taskId\":\"A\",\"vruntime\":500}"]);
    s.tick(&["{\"action\":\"TASK_BLOCK\",\"taskId\":\"A\"}"]);
    s.tick(&["{\"action\":\"TASK_UNBLOCK\",\"taskId\":\"A\"}"]);
    assert_eq!(s.vruntime("A"), 500);
    // with nothing runnable, a task wakes at zero or above
    let mut s = sim(1, 10);
    s.tick(&[
        "{\"action\":\"TASK_CREATE\",\"taskId\":\"A\",\"vruntime\":-50}",
        "{\"action\":\"TASK_BLOCK\",\"taskId\":\"A\"}",
    ]);
    s.tick(&["{\"action\":\"TASK_UNBLOCK\",\"taskId\":\"A\"}"]);
    assert_eq!(s.vruntime("A"), 10);
}

#[test]
fn a_yielding_task_goes_last() {
    let mut s = sim(1, 10);
    s.tick(&[A, "{\"action\":\"TASK_CREATE\",\"taskId\":\"B\",\"vruntime\":70}"]);
    assert_eq!(s.tick(&["{\"action\":\"TASK_YIELD\",\"taskId\":\"A\"}"]), vec!["B"]);
    assert_eq!((s.vruntime("A"), s.vruntime("B")), (70, 80));
    assert_eq!(s.tick(&[]), vec!["A"]);
}

#[test]
fn setting_nice_changes_the_cost() {
    let mut s = sim(1, 1000);
    s.tick(&[A]);
    assert_eq!(s.vruntime("A"), 1000);
    s.tick(&["{\"action\":\"TASK_SETNICE\",\"taskId\":\"A\",\"nice\":-20}"]);
    assert_eq!(s.vruntime("A"), 1011);
    assert_eq!(s.world.tasks.get("A").unwrap().weight, 88761);
}

#[test]
fn a_burst_is_not_charged_to_the_task() {
    let mut s = sim(1, 10);
    assert_eq!(s.tick(&[A, B, "{\"action\":\"CPU_BURST\",\"taskId\":\"A\"}"]), vec!["A"]);
    // at the same runtime the one that was queued first goes first
    assert_eq!(s.tick(&[]), vec!["B"]);
    for _ in 0..3 {
        assert_eq!(s.tick(&[]), vec!["A"]);
    }
    assert_eq!((s.vruntime("A"), s.vruntime("B")), (0, 10));
    assert_eq!(s.group_vruntime("__root__"), 50);
    assert!(s.world.tasks.get("A").unwrap().burst_mode);
}

const B_AT_50: &str = "{\"action\":\"TASK_CREATE\",\"taskId\":\"B\",\"vruntime\":50}";
const BURST_A: &str = "{\"action\":\"CPU_BURST\",\"taskId\":\"A\"}";

#[test]
fn a_burst_task_keeps_its_runtime_when_it_yields() {
    let mut s = sim(1, 10);
    let r = s.tick(&[A, B_AT_50, BURST_A, "{\"action\":\"TASK_YIELD\",\"taskId\":\"A\"}"]);
    assert_eq!(r, vec!["A"]);
    assert_eq!((s.vruntime("A"), s.vruntime("B")), (0, 50));
    assert!(s.world.tasks.get("A").unwrap().burst_mode);
}

#[test]
fn a_burst_task_keeps_its_runtime_when_it_is_unblocked() {
    let mut s = sim(1, 10);
    let block = "{\"action\":\"TASK_BLOCK\",\"taskId\":\"A\"}";
    let unblock = "{\"action\":\"TASK_UNBLOCK\",\"taskId\":\"A\"}";
    assert_eq!(s.tick(&[A, B_AT_50, BURST_A, block]), vec!["B"]);
    assert_eq!(s.tick(&[unblock]), vec!["A"]);
    assert_eq!((s.vruntime("A"), s.vruntime("B")), (0, 60));
    assert_eq!(s.world.tasks.get("A").unwrap().state, TaskState::Runnable);
}

#[test]
fn a_burst_ends_when_the_task_is_created_anew() {
    let mut s = sim(1, 10);
    s.tick(&[A, BURST_A]);
    s.tick(&[A]);
    assert_eq!(s.vruntime("A"), 10);
    assert!(!s.world.tasks.get("A").unwrap().burst_mode);
}

#[test]
fn a_root_group_that_is_there_is_kept() {
    let mut s = sim(1, 10);
    s.tick(&["{\"action\":\"CGROUP_MODIFY\",\"cgroupId\":\"__root__\",\"cpuShares\":512,\"cpuMask\":[0]}"]);
    s.tick(&[A]);
    s.tick(&[]);
    let g = s.world.cgroups.get("__root__").unwrap();
    assert_eq!((g.cpu_shares, g.cpu_mask, g.vruntime), (512, 1, 40));
    assert_eq!(s.world.cgroups.len(), 1);
}

#[test]
fn the_root_group_is_created_once() {
    let mut w = World::default();
    Scheduler::ensure_root_cgroup(&mut w);
    let g = w.cgroups.get_mut("__root__").unwrap();
    assert_eq!((g.id.as_str(), g.cpu_shares, g.cpu_mask, g.vruntime), ("__root__", 1024, u64::MAX, 0));
    g.cpu_shares = 3;
    g.vruntime = 9;
    Scheduler::ensure_root_cgroup(&mut w);
    let g = w.cgroups.get("__root__").unwrap();
    assert_eq!((g.cpu_shares, g.cpu_mask, g.vruntime), (3, u64::MAX, 9));
    assert_eq!((w.cgroups.len(), w.tasks.len(), w.last_schedule.len()), (1, 0, 0));
}

#[test]
fn the_least_task_of_the_least_group_runs() {
    let mut s = sim(1, 10);
    // the root group is empty and decides nothing
    let r = s.tick(&[
        "{\"action\":\"CGROUP_CREATE\",\"cgroupId\":\"g\"}",
        "{\"action\":\"TASK_CREATE\",\"taskId\":\"late\",\"vruntime\":1000,\"cgroupId\":\"g\"}",
        "{\"action\":\"TASK_CREATE\",\"taskId\":\"early\",\"cgroupId\":\"g\"}",
    ]);
    assert_eq!(r, vec!["early"]);
    // a task of the root group goes first now, whatever its own runtime
    assert_eq!(s.tick(&["{\"action\":\"TASK_CREATE\",\"taskId\":\"r\",\"vruntime\":5000}"]), vec!["r"]);
}

#[test]
fn groups_share_by_their_shares() {
    let mut s = sim(1, 10);
    let mut order: Vec<String> = Vec::new();
    order.extend(s.tick(&[
        "{\"action\":\"CGROUP_CREATE\",\"cgroupId\":\"g1\",\"cpuShares\":2048}",
        "{\"action\":\"CGROUP_CREATE\",\"cgroupId\":\"g2\"}",
        "{\"action\":\"TASK_CREATE\",\"taskId\":\"a\",\"cgroupId\":\"g1\"}",
        "{\"action\":\"TASK_CREATE\",\"taskId\":\"b\",\"cgroupId\":\"g2\"}",
    ]));
    assert_eq!(s.group_vruntime("g1"), 5);
    for _ in 0..5 {
        order.extend(s.tick(&[]));
    }
    assert_eq!(order, vec!["a", "b", "a", "b", "a", "a"]);
    assert_eq!((s.group_vruntime("g1"), s.group_vruntime("g2")), (20, 20));
}

#[test]
fn a_group_is_charged_for_each_of_its_tasks() {
    let mut s = sim(2, 10);
    s.tick(&[A, B]);
    assert_eq!(s.group_vruntime("__root__"), 20);
}

#[test]
fn no_shares_count_as_one() {
    let mut s = sim(1, 3);
    s.tick(&[
        "{\"action\":\"CGROUP_CREATE\",\"cgroupId\":\"g\",\"cpuShares\":4294967296}",
        "{\"action\":\"TASK_CREATE\",\"taskId\":\"a\",\"cgroupId\":\"g\"}",
    ]);
    assert_eq!(s.world.cgroups.get("g").unwrap().cpu_shares, 0);
    assert_eq!(s.group_vruntime("g"), 3 * 1024);
}

#[test]
fn a_group_mask_bars_its_tasks() {
    let mut s = sim(2, 10);
    let r = s.tick(&[
        "{\"action\":\"CGROUP_CREATE\",\"cgroupId\":\"g\",\"cpuMask\":[1]}",
        "{\"action\":\"TASK_CREATE\",\"taskId\":\"a\",\"cgroupId\":\"g\"}",
        "{\"action\":\"TASK_CREATE\",\"taskId\":\"b\",\"cgroupId\":\"g\"}",
    ]);
    assert_eq!(r, vec!["idle", "a"]);
    assert_eq!(s.tick(&["{\"action\":\"CGROUP_MODIFY\",\"cgroupId\":\"g\",\"cpu_mask\":1}"]), vec!["b", "idle"]);
}

#[test]
fn a_task_waits_for_its_group() {
    let mut s = sim(1, 10);
    let a = "{\"action\":\"TASK_CREATE\",\"taskId\":\"a\",\"cgroupId\":\"late\"}";
    assert_eq!(s.tick(&[a]), vec!["idle"]);
    assert_eq!(s.tick(&["{\"action\":\"CGROUP_CREATE\",\"cgroupId\":\"late\"}"]), vec!["a"]);
    let mut s = sim(1, 10);
    assert_eq!(s.tick(&[a]), vec!["idle"]);
    assert_eq!(s.tick(&["{\"action\":\"CGROUP_MODIFY\",\"cgroupId\":\"late\"}"]), vec!["a"]);
}

#[test]
fn a_moved_task_belongs_to_its_new_group() {
    let mut s = sim(1, 10);
    s.tick(&[A, "{\"action\":\"CGROUP_CREATE\",\"cgroupId\":\"g\"}"]);
    assert_eq!(
        s.tick(&["{\"action\":\"TASK_MOVE_CGROUP\",\"taskId\":\"A\",\"newCgroupId\":\"g\"}"]),
        vec!["A"]
    );
    assert_eq!(s.world.tasks.get("A").unwrap().cgroup.as_deref(), Some("g"));
    assert_eq!((s.group_vruntime("__root__"), s.group_vruntime("g")), (10, 10));
    s.tick(&["{\"action\":\"TASK_MOVE_CGROUP\",\"taskId\":\"A\"}"]);
    assert_eq!(s.world.tasks.get("A").unwrap().cgroup, None);
}

#[test]
fn a_moved_task_is_still_found_in_its_old_queue() {
    let mut s = sim(1, 10);
    s.tick(&[A, "{\"action\":\"CGROUP_CREATE\",\"cgroupId\":\"g\",\"cpuMask\":[1]}"]);
    let to_g = "{\"action\":\"TASK_MOVE_CGROUP\",\"taskId\":\"A\",\"newCgroupId\":\"g\"}";
    // the entry in the root queue is still valid, whatever the mask of the new group says
    assert_eq!(s.tick(&[to_g]), vec!["A"]);
    assert_eq!((s.vruntime("A"), s.group_vruntime("g")), (20, 10));
    // now the task is queued in its new group only
    assert_eq!(s.tick(&[]), vec!["idle"]);
}

#[test]
fn a_runner_leads_by_at_most_a_quantum() {
    let mut s = sim(1, 100);
    s.tick(&[A, B, "{\"action\":\"TASK_CREATE\",\"taskId\":\"C\",\"nice\":10}"]);
    let cost = 100 * 1024 / 110;
    for _ in 0..200 {
        let (a, b, c) = (s.vruntime("A"), s.vruntime("B"), s.vruntime("C"));
        let least = a.min(b).min(c);
        assert!(a.max(b).max(c) - least <= cost);
        let ran = s.tick(&[]).remove(0);
        let before = match ran.as_str() {
            "A" => a,
            "B" => b,
            _ => c,
        };
        assert_eq!(before, least);
    }
}

#[test]
fn tables_survive_events() {
    let mut s = sim(2, 10);
    s.tick(&[
        A,
        B,
        "{\"action\":\"TASK_SETNICE\",\"taskId\":\"A\",\"nice\":-7}",
        "{\"action\":\"TASK_SETNICE\",\"taskId\":\"B\",\"nice\":99}",
        "{\"action\":\"CGROUP_MODIFY\",\"cgroupId\":\"g\",\"cpuShares\":5}",
        "{\"action\":\"TASK_MOVE_CGROUP\",\"taskId\":\"B\",\"cgroup\":\"g\"}",
    ]);
    for i in 0..s.world.tasks.len() {
        let (id, t) = s.world.tasks.at(i);
        assert_eq!(id, t.id);
        assert_eq!(t.weight, NICE_TO_WEIGHT[(t.nice + 20) as usize]);
    }
    for i in 0..s.world.cgroups.len() {
        let (id, g) = s.world.cgroups.at(i);
        assert_eq!(id, g.id);
    }
    assert_eq!(s.world.tasks.get("A").unwrap().weight, 4904);
}

#[test]
fn deleting_a_group_frees_its_tasks() {
    let mut s = sim(1, 10);
    s.tick(&[
        "{\"action\":\"CGROUP_CREATE\",\"cgroupId\":\"g\"}",
        "{\"action\":\"TASK_CREATE\",\"taskId\":\"a\",\"cgroupId\":\"g\"}",
    ]);
    // the task is still queued in the group that is gone
    assert_eq!(s.tick(&["{\"action\":\"CGROUP_DELETE\",\"cgroupId\":\"g\"}"]), vec!["idle"]);
    assert!(!s.world.cgroups.contains_key("g"));
    assert_eq!(s.world.tasks.get("a").unwrap().cgroup, None);
    // the next event on the task queues it in the root group
    assert_eq!(s.tick(&["{\"action\":\"TASK_SETNICE\",\"taskId\":\"a\",\"nice\":0}"]), vec!["a"]);
}

#[test]
fn the_root_group_comes_back() {
    let mut s = sim(1, 10);
    s.tick(&[A]);
    assert_eq!(s.tick(&["{\"action\":\"CGROUP_DELETE\",\"cgroupId\":\"__root__\"}"]), vec!["idle"]);
    assert!(!s.world.cgroups.contains_key("__root__"));
    assert_eq!(s.tick(&[]), vec!["idle"]);
    assert_eq!(s.group_vruntime("__root__"), 0);
    assert_eq!(s.tick(&["{\"action\":\"TASK_YIELD\",\"taskId\":\"A\"}"]), vec!["A"]);
}

#[test]
fn a_task_named_idle_looks_like_an_idle_cpu() {
    let mut s = sim(1, 10);
    let r = s.try_tick(&["{\"action\":\"TASK_CREATE\",\"taskId\":\"idle\"}"]).unwrap();
    assert_eq!(r.schedule, vec!["idle"]);
    assert_eq!(r.runnable, vec!["idle"]);
    assert_eq!(s.vruntime("idle"), 0);
    assert_eq!(s.world.last_schedule, vec![None]);
}

#[test]
fn creating_a_task_again_replaces_it() {
    let mut s = sim(1, 10);
    s.tick(&[A]);
    s.tick(&["{\"action\":\"TASK_CREATE\",\"taskId\":\"A\",\"vruntime\":100,\"nice\":1}"]);
    let t = s.world.tasks.get("A").unwrap();
    assert_eq!((t.nice, t.weight, t.vruntime), (1, 820, 112));
    assert_eq!(s.world.tasks.len(), 1);
}

#[test]
fn cpus_beyond_the_masks_idle() {
    let mut s = sim(66, 1);
    let events: Vec<String> = (0..70)
        .map(|i| format!("{{\"action\":\"TASK_CREATE\",\"taskId\":\"t{:02}\"}}", i))
        .collect();
    let events: Vec<&str> = events.iter().map(|e| e.as_str()).collect();
    let r = s.tick(&events);
    assert_eq!(r.len(), 66);
    assert_eq!(r[0], "t00");
    assert_eq!(r[63], "t63");
    assert_eq!((r[64].as_str(), r[65].as_str()), ("idle", "idle"));
}

#[test]
fn no_cpus_no_schedule() {
    let mut s = sim(0, 10);
    let r = s.try_tick(&[A]).unwrap();
    assert!(r.schedule.is_empty());
    assert_eq!(r.runnable, vec!["A"]);
}

#[test]
fn lists_are_sorted() {
    let mut s = sim(1, 1);
    let mut events: Vec<String> = Vec::new();
    for id in ["t10", "t9", "T", "b", "a"] {
        events.push(format!("{{\"action\":\"TASK_CREATE\",\"taskId\":\"{}\"}}", id));
    }
    for id in ["b", "T"] {
        events.push(format!("{{\"action\":\"TASK_BLOCK\",\"taskId\":\"{}\"}}", id));
    }
    let events: Vec<&str> = events.iter().map(|e| e.as_str()).collect();
    let r = s.try_tick(&events).unwrap();
    assert_eq!(r.runnable, vec!["a", "t10", "t9"]);
    assert_eq!(r.blocked, vec!["T", "b"]);
}

#[test]
fn a_refused_event_ends_the_tick() {
    let mut s = sim(1, 10);
    let e = s.try_tick(&[A, "{\"action\":\"TASK_EXIT\"}", B]).unwrap_err();
    assert_eq!(e, EventError::MissingTaskId(Action::TaskExit));
    // what went before stays, what follows is not run, and nothing is scheduled
    assert!(s.world.tasks.contains_key("A"));
    assert!(!s.world.tasks.contains_key("B"));
    assert_eq!(s.vruntime("A"), 0);
    assert_eq!(s.tick(&[]), vec!["A"]);
    assert_eq!(s.try_tick(&["[1]"]).unwrap_err(), EventError::NotObject);
}

#[test]
fn a_modification_with_a_bad_mask_keeps_its_shares() {
    let mut s = sim(1, 10);
    let e = s
        .try_tick(&["{\"action\":\"CGROUP_MODIFY\",\"cgroupId\":\"g\",\"cpuShares\":7,\"cpuMask\":[-1]}"])
        .unwrap_err();
    assert_eq!(e, EventError::MaskEntryNotInt);
    let g = s.world.cgroups.get("g").unwrap();
    assert_eq!((g.cpu_shares, g.cpu_mask), (7, u64::MAX));
    let e = s
        .try_tick(&["{\"action\":\"CGROUP_CREATE\",\"cgroupId\":\"h\",\"cpuShares\":7,\"cpuMask\":[99]}"])
        .unwrap_err();
    assert_eq!(e, EventError::CpuOutOfRange(99));
    assert!(!s.world.cgroups.contains_key("h"));
}

#[test]
fn a_schedule_of_another_size_is_forgotten() {
    let mut s = sim(1, 10);
    s.world.last_schedule = vec![Some("x".to_string()), None];
    let r = s.try_tick(&[A]).unwrap();
    assert_eq!((r.schedule, r.preemptions), (vec!["A".to_string()], 0));
    assert_eq!(s.world.last_schedule, vec![Some("A".to_string())]);
}

#[test]
fn events_can_be_performed_directly() {
    let mut s = sim(1, 10);
    let done = s.sched.perform(
        &mut s.world,
        &Event::TaskCreate {
            id: "A".to_string(),
            nice: 0,
            vruntime: 3,
            affinity: 1,
            cgroup: Some("g".to_string()),
        },
    );
    assert_eq!(done, Ok(()));
    let done = s.sched.perform(
        &mut s.world,
        &Event::CgroupCreate { id: "g".to_string(), shares: None, mask: None },
    );
    assert_eq!(done, Ok(()));
    let done = s.sched.perform(
        &mut s.world,
        &Event::CgroupModify {
            id: "g".to_string(),
            shares: Some(512),
            mask: Err(EventError::MaskEntryNotInt),
        },
    );
    assert_eq!(done, Err(EventError::MaskEntryNotInt));
    assert_eq!(s.sched.perform(&mut s.world, &Event::Ignored), Ok(()));
    let r = s.sched.dispatch(&mut s.world, 77);
    assert_eq!((r.vtime, r.schedule), (77, vec!["A".to_string()]));
    assert_eq!((s.vruntime("A"), s.group_vruntime("g")), (13, 20));
}

#[test]
fn decoded_events_make_a_tick() {
    let mut s = sim(1, 10);
    let create = |id: &str| {
        Ok(Event::TaskCreate {
            id: id.to_string(),
            nice: 0,
            vruntime: 0,
            affinity: u64::MAX,
            cgroup: None,
        })
    };
    let r = s.sched.tick(&mut s.world, 4, &[create("A"), create("B")]).unwrap();
    assert_eq!((r.vtime, r.schedule), (4, vec!["A".to_string()]));
    let refused = [create("C"), Err(EventError::NotObject), create("D")];
    assert_eq!(s.sched.tick(&mut s.world, 5, &refused).unwrap_err(), EventError::NotObject);
    assert!(s.world.tasks.contains_key("C") && !s.world.tasks.contains_key("D"));
}

#[test]
fn a_report_tells_of_a_tick() {
    let r = TickResult {
        vtime: -4,
        schedule: vec!["A".to_string(), "idle".to_string()],
        preemptions: 3,
        migrations: u64::MAX,
        runnable: vec!["A".to_string()],
        blocked: vec![],
    };
    assert_eq!(report(&r)["meta"]["preemptions"].as_u64(), Some(3));
    assert_eq!(
        report_text(&r),
        "{\"meta\":{\"blockedTasks\":[],\"migrations\":18446744073709551615,\"preemptions\":3,\
         \"runnableTasks\":[\"A\"]},\"schedule\":[\"A\",\"idle\"],\"vtime\":-4}"
    );
}
