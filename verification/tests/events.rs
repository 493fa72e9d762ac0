use alfs::event::{
    get_cpu_mask, parse_cpu_mask_array, Action, Event, EventError, EventFields,
};
use alfs::json::read_fields;

fn fields(text: &str) -> EventFields {
    read_fields(&serde_json::from_str(text).unwrap()).unwrap()
}

fn decode(text: &str) -> Result<Event, EventError> {
    fields(text).decode()
}

fn refusal(text: &str) -> EventError {
    decode(text).unwrap_err()
}

#[test]
fn fields_are_read_by_name_and_type() {
    let f = fields(
        "{\"action\":\"A\",\"type\":\"B\",\"event\":\"C\",\"taskId\":\"t\",\"id\":\"i\",\
         \"cgroupId\":\"g\",\"cgroup\":\"h\",\"newCgroupId\":\"n\",\"nice\":-3,\"vruntime\":12,\
         \"cpuShares\":5,\"cpu_shares\":6,\"cpuMask\":[0,\"x\",-1,70,1.5],\"affinity\":3,\
         \"cpu_mask\":18446744073709551615}",
    );
    assert_eq!(f.action.as_deref(), Some("A"));
    assert_eq!(f.typ.as_deref(), Some("B"));
    assert_eq!(f.event.as_deref(), Some("C"));
    assert_eq!(f.task_id.as_deref(), Some("t"));
    assert_eq!(f.id.as_deref(), Some("i"));
    assert_eq!(f.cgroup_id.as_deref(), Some("g"));
    assert_eq!(f.cgroup.as_deref(), Some("h"));
    assert_eq!(f.new_cgroup_id.as_deref(), Some("n"));
    assert_eq!((f.nice, f.vruntime), (Some(-3), Some(12)));
    assert_eq!((f.cpu_shares, f.legacy_shares), (Some(5), Some(6)));
    assert_eq!(f.cpu_list, Some(vec![Some(0), None, None, Some(70), None]));
    assert_eq!((f.affinity, f.cpu_mask), (Some(3), Some(u64::MAX)));
}

#[test]
fn fields_of_the_wrong_type_count_as_absent() {
    let f = fields(
        "{\"action\":1,\"taskId\":null,\"nice\":\"3\",\"vruntime\":1.0,\
         \"cpuShares\":9223372036854775808,\"cpuMask\":7,\"affinity\":-1}",
    );
    assert_eq!(f.action, None);
    assert_eq!(f.task_id, None);
    assert_eq!((f.nice, f.vruntime, f.cpu_shares), (None, None, None));
    assert_eq!(f.cpu_list, None);
    assert_eq!(f.affinity, None);
    assert_eq!(f.cpu_mask, None);
}

#[test]
fn only_objects_have_fields() {
    for text in ["1", "\"x\"", "null", "[]", "[{}]", "true"] {
        assert!(read_fields(&serde_json::from_str(text).unwrap()).is_none());
    }
    assert!(read_fields(&serde_json::from_str("{}").unwrap()).is_some());
}

#[test]
fn the_action_has_three_names() {
    assert_eq!(fields("{\"event\":\"C\",\"type\":\"B\",\"action\":\"A\"}").get_action(), Some("A"));
    assert_eq!(fields("{\"event\":\"C\",\"type\":\"B\",\"action\":0}").get_action(), Some("B"));
    assert_eq!(fields("{\"event\":\"C\"}").get_action(), Some("C"));
    assert_eq!(fields("{}").get_action(), None);
}

#[test]
fn tasks_and_groups_have_two_names() {
    assert_eq!(fields("{\"id\":\"b\",\"taskId\":\"a\"}").get_task_id(), Some("a"));
    assert_eq!(fields("{\"id\":\"b\"}").get_task_id(), Some("b"));
    assert_eq!(fields("{\"cgroup\":\"b\",\"cgroupId\":\"a\"}").get_cgroup_id(), Some("a"));
    assert_eq!(fields("{\"cgroup\":\"b\"}").get_cgroup_id(), Some("b"));
    assert_eq!(fields("{}").get_task_id(), None);
    assert_eq!(fields("{}").get_cgroup_id(), None);
}

#[test]
fn actions_bear_names() {
    let all = [
        Action::TaskCreate,
        Action::TaskExit,
        Action::TaskBlock,
        Action::TaskUnblock,
        Action::TaskYield,
        Action::TaskSetNice,
        Action::TaskSetAffinity,
        Action::TaskMoveCgroup,
        Action::CgroupCreate,
        Action::CgroupModify,
        Action::CgroupDelete,
        Action::CpuBurst,
        Action::Unknown,
    ];
    for a in all {
        assert_eq!(Action::parse(a.name()), a);
    }
    assert_eq!(Action::TaskSetNice.name(), "TASK_SETNICE");
    assert_eq!(Action::parse("task_create"), Action::Unknown);
    assert_eq!(Action::parse(""), Action::Unknown);
}

#[test]
fn cpu_lists_become_masks() {
    assert_eq!(parse_cpu_mask_array(&[]), Ok(0));
    assert_eq!(parse_cpu_mask_array(&[Some(0), Some(2), Some(2), Some(63)]), Ok(1 << 63 | 0b101));
    assert_eq!(parse_cpu_mask_array(&[Some(1), Some(64), None]), Err(EventError::CpuOutOfRange(64)));
    assert_eq!(parse_cpu_mask_array(&[Some(1), None, Some(64)]), Err(EventError::MaskEntryNotInt));
}

#[test]
fn a_cpu_list_goes_before_a_bitmask() {
    assert_eq!(get_cpu_mask(&Some(vec![Some(1)]), Some(9)), Ok(Some(2)));
    assert_eq!(get_cpu_mask(&None, Some(9)), Ok(Some(9)));
    assert_eq!(get_cpu_mask(&None, None), Ok(None));
    assert_eq!(get_cpu_mask(&Some(vec![None]), Some(9)), Err(EventError::MaskEntryNotInt));
}

#[test]
fn creation_has_defaults() {
    match decode("{\"action\":\"TASK_CREATE\",\"taskId\":\"a\"}") {
        Ok(Event::TaskCreate { id, nice, vruntime, affinity, cgroup }) => {
            assert_eq!(id, "a");
            assert_eq!((nice, vruntime, affinity), (0, 0, u64::MAX));
            assert_eq!(cgroup, None);
        }
        other => panic!("{:?}", other),
    }
}

#[test]
fn creation_takes_every_field() {
    match decode(
        "{\"type\":\"TASK_CREATE\",\"id\":\"a\",\"nice\":4294967295,\"vruntime\":-8,\
         \"cpuMask\":[3],\"affinity\":1,\"cgroup\":\"g\"}",
    ) {
        Ok(Event::TaskCreate { nice, vruntime, affinity, cgroup, .. }) => {
            // a nice value beyond 32 bits keeps its low bits
            assert_eq!((nice, vruntime, affinity), (-1, -8, 8));
            assert_eq!(cgroup.as_deref(), Some("g"));
        }
        other => panic!("{:?}", other),
    }
}

#[test]
fn simple_task_events_name_their_task() {
    let of = |action: &str| {
        decode(&format!("{{\"action\":\"{}\",\"taskId\":\"t\"}}", action)).unwrap()
    };
    assert!(matches!(of("TASK_EXIT"), Event::TaskExit { id } if id == "t"));
    assert!(matches!(of("TASK_BLOCK"), Event::TaskBlock { id } if id == "t"));
    assert!(matches!(of("TASK_UNBLOCK"), Event::TaskUnblock { id } if id == "t"));
    assert!(matches!(of("TASK_YIELD"), Event::TaskYield { id } if id == "t"));
    assert!(matches!(of("CPU_BURST"), Event::CpuBurst { id } if id == "t"));
    assert!(matches!(of("TASK_MOVE_CGROUP"), Event::TaskMoveCgroup { id, cgroup: None } if id == "t"));
}

#[test]
fn a_move_prefers_the_new_group() {
    let to = |rest: &str| {
        match decode(&format!("{{\"action\":\"TASK_MOVE_CGROUP\",\"taskId\":\"t\",{}}}", rest)) {
            Ok(Event::TaskMoveCgroup { cgroup, .. }) => cgroup.unwrap(),
            other => panic!("{:?}", other),
        }
    };
    assert_eq!(to("\"newCgroupId\":\"n\",\"cgroupId\":\"g\",\"cgroup\":\"h\""), "n");
    assert_eq!(to("\"cgroupId\":\"g\",\"cgroup\":\"h\""), "g");
    assert_eq!(to("\"cgroup\":\"h\""), "h");
}

#[test]
fn group_events_carry_shares_and_masks() {
    let create = |rest: &str| {
        match decode(&format!("{{\"action\":\"CGROUP_CREATE\",\"cgroupId\":\"g\"{}}}", rest)) {
            Ok(Event::CgroupCreate { shares, mask, .. }) => (shares, mask),
            other => panic!("{:?}", other),
        }
    };
    assert_eq!(create(""), (None, None));
    assert_eq!(create(",\"cpuShares\":2048,\"cpu_shares\":1"), (Some(2048), None));
    assert_eq!(create(",\"cpu_shares\":7,\"cpu_mask\":6"), (Some(7), Some(6)));
    assert_eq!(create(",\"cpuShares\":0"), (Some(1), None));
    assert_eq!(create(",\"cpuShares\":-5"), (Some(1), None));
    // shares beyond 32 bits keep their low bits
    assert_eq!(create(",\"cpuShares\":4294967298"), (Some(2), None));
    assert_eq!(create(",\"cpuShares\":4294967296"), (Some(0), None));
    assert_eq!(create(",\"cpuMask\":[1,2],\"cpu_mask\":1"), (None, Some(6)));
    // the bitmask of a task is none of a group
    assert_eq!(create(",\"affinity\":6"), (None, None));
}

#[test]
fn a_modification_carries_the_fault_of_its_mask() {
    match decode("{\"action\":\"CGROUP_MODIFY\",\"cgroupId\":\"g\",\"cpuShares\":3,\"cpuMask\":[64]}") {
        Ok(Event::CgroupModify { id, shares, mask }) => {
            assert_eq!((id.as_str(), shares), ("g", Some(3)));
            assert_eq!(mask, Err(EventError::CpuOutOfRange(64)));
        }
        other => panic!("{:?}", other),
    }
}

#[test]
fn events_without_a_task_are_refused() {
    for (action, kind) in [
        ("TASK_CREATE", Action::TaskCreate),
        ("TASK_EXIT", Action::TaskExit),
        ("TASK_BLOCK", Action::TaskBlock),
        ("TASK_UNBLOCK", Action::TaskUnblock),
        ("TASK_YIELD", Action::TaskYield),
        ("TASK_SETNICE", Action::TaskSetNice),
        ("TASK_SET_AFFINITY", Action::TaskSetAffinity),
        ("TASK_MOVE_CGROUP", Action::TaskMoveCgroup),
        ("CPU_BURST", Action::CpuBurst),
    ] {
        let e = refusal(&format!("{{\"action\":\"{}\",\"cgroupId\":\"g\"}}", action));
        assert_eq!(e, EventError::MissingTaskId(kind));
        assert_eq!(e.message(), format!("{} missing taskId", action));
    }
}

#[test]
fn events_without_a_group_are_refused() {
    for (action, kind) in [
        ("CGROUP_CREATE", Action::CgroupCreate),
        ("CGROUP_MODIFY", Action::CgroupModify),
        ("CGROUP_DELETE", Action::CgroupDelete),
    ] {
        let e = refusal(&format!("{{\"action\":\"{}\",\"taskId\":\"t\"}}", action));
        assert_eq!(e, EventError::MissingCgroupId(kind));
        assert_eq!(e.message(), format!("{} missing cgroupId", action));
    }
}

#[test]
fn events_without_their_value_are_refused() {
    let e = refusal("{\"action\":\"TASK_SETNICE\",\"taskId\":\"t\"}");
    assert_eq!(e, EventError::MissingNice);
    assert_eq!(e.message(), "TASK_SETNICE missing nice");
    let e = refusal("{\"action\":\"TASK_SET_AFFINITY\",\"taskId\":\"t\",\"cpu_mask\":1}");
    assert_eq!(e, EventError::MissingCpuMask);
    assert_eq!(e.message(), "TASK_SET_AFFINITY missing cpuMask");
    let e = refusal("{\"action\":\"TASK_SET_AFFINITY\",\"taskId\":\"t\",\"cpuMask\":[true]}");
    assert_eq!(e, EventError::MaskEntryNotInt);
    assert_eq!(e.message(), "cpuMask entry must be int");
    let e = refusal("{\"action\":\"TASK_CREATE\",\"taskId\":\"t\",\"cpuMask\":[1,1203]}");
    assert_eq!(e, EventError::CpuOutOfRange(1203));
    assert_eq!(e.message(), "cpu index out of range: 1203");
    assert_eq!(
        EventError::CpuOutOfRange(u64::MAX).message(),
        "cpu index out of range: 18446744073709551615"
    );
    assert_eq!(EventError::NotObject.message(), "event not object");
}

#[test]
fn unknown_events_are_ignored() {
    assert!(matches!(decode("{}"), Ok(Event::Ignored)));
    assert!(matches!(decode("{\"action\":\"NOPE\",\"type\":\"TASK_EXIT\"}"), Ok(Event::Ignored)));
    assert!(matches!(decode("{\"action\":\"UNKNOWN\"}"), Ok(Event::Ignored)));
}
