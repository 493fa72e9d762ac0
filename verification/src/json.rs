//! Events as they arrive: JSON values, of which an action reads a few fields.

use serde_json::Value;
use vstd::prelude::*;

use crate::event;
use crate::event::{Event, EventError, EventFields, EventView, FieldsView};
use crate::model;

verus! {

#[verifier::external_type_specification]
#[verifier::external_body]
pub struct ExValue(serde_json::Value);

#[verifier::external_type_specification]
#[verifier::external_body]
#[verifier::reject_recursive_types(K)]
#[verifier::reject_recursive_types(V)]
pub struct ExMap<K, V>(serde_json::Map<K, V>);

/// What a JSON value holds, as far as events use it.
pub enum JsonView {
    /// `null`, a boolean, or a number that is not held as an integer.
    Other,
    Int(int),
    Text(Seq<char>),
    List(Seq<JsonView>),
    Object(Map<Seq<char>, JsonView>),
}

/// What a `serde_json::Value` holds.
pub uninterp spec fn json_of(v: serde_json::Value) -> JsonView;

/// What the members of a `serde_json::Map` hold, by their names.
pub uninterp spec fn fields_of(m: serde_json::Map<String, serde_json::Value>) -> Map<
    Seq<char>,
    JsonView,
>;

/// What the values of a list hold.
pub open spec fn items_of(list: Seq<serde_json::Value>) -> Seq<JsonView> {
    Seq::new(list.len(), |i: int| json_of(list[i]))
}

/// The text that a JSON value is.
pub open spec fn text_in(j: JsonView) -> Option<Seq<char>> {
    match j {
        JsonView::Text(text) => Some(text),
        _ => None,
    }
}

/// The signed integer that a JSON value is, if it is in range.
pub open spec fn int_in(j: JsonView) -> Option<i64> {
    match j {
        JsonView::Int(n) => if i64::MIN <= n <= i64::MAX {
            Some(n as i64)
        } else {
            None
        },
        _ => None,
    }
}

/// The unsigned integer that a JSON value is, if it is in range.
pub open spec fn bits_in(j: JsonView) -> Option<u64> {
    match j {
        JsonView::Int(n) => if 0 <= n <= u64::MAX {
            Some(n as u64)
        } else {
            None
        },
        _ => None,
    }
}

/// The list of CPUs that a JSON value is.
pub open spec fn list_in(j: JsonView) -> Option<Seq<Option<u64>>> {
    match j {
        JsonView::List(items) => Some(Seq::new(items.len(), |i: int| bits_in(items[i]))),
        _ => None,
    }
}

/// `serde_json::Value::as_str` gives the text of a string, and nothing for any other value.
pub assume_specification[ serde_json::Value::as_str ](v: &serde_json::Value) -> (found: Option<&str>)
    ensures
        event::str_text(found) == text_in(json_of(*v)),
;

/// `serde_json::Value::as_i64` gives an integer that is in the range of `i64`, and nothing for
/// any other value.
pub assume_specification[ serde_json::Value::as_i64 ](v: &serde_json::Value) -> (n: Option<i64>)
    ensures
        n == int_in(json_of(*v)),
;

/// `serde_json::Value::as_u64` gives an integer that is in the range of `u64`, and nothing for
/// any other value.
pub assume_specification[ serde_json::Value::as_u64 ](v: &serde_json::Value) -> (n: Option<u64>)
    ensures
        n == bits_in(json_of(*v)),
;

/// `serde_json::Value::as_array` gives the items of a list in their order, and nothing for any
/// other value.
pub assume_specification[ serde_json::Value::as_array ](v: &serde_json::Value) -> (list: Option<
    &Vec<serde_json::Value>,
>)
    ensures
        match list {
            Some(items) => json_of(*v) == JsonView::List(items_of(items@)),
            None => !(json_of(*v) is List),
        },
;

/// `serde_json::Value::as_object` gives the members of an object, and nothing for any other
/// value.
pub assume_specification[ serde_json::Value::as_object ](v: &serde_json::Value) -> (object: Option<
    &serde_json::Map<String, serde_json::Value>,
>)
    ensures
        match object {
            Some(members) => json_of(*v) == JsonView::Object(fields_of(*members)),
            None => !(json_of(*v) is Object),
        },
;

/// `serde_json::Map::get` gives the member of that name, and nothing if there is none.
#[verifier::external_body]
fn get<'a>(members: &'a serde_json::Map<String, Value>, name: &str) -> (member: Option<&'a Value>)
    ensures
        match member {
            Some(v) => fields_of(*members).dom().contains(name@) && json_of(*v) == fields_of(
                *members,
            )[name@],
            None => !fields_of(*members).dom().contains(name@),
        },
{
    members.get(name)
}

/// The member of that name, or a value that is of no use to an event.
pub open spec fn member(fields: Map<Seq<char>, JsonView>, name: Seq<char>) -> JsonView {
    if fields.dom().contains(name) {
        fields[name]
    } else {
        JsonView::Other
    }
}

/// The text of a member.
fn text_field(members: &serde_json::Map<String, Value>, name: &str) -> (text: Option<String>)
    ensures
        model::text_of(text) == text_in(member(fields_of(*members), name@)),
{
    match get(members, name) {
        Some(v) => match v.as_str() {
            Some(text) => Some(text.to_owned()),
            None => None,
        },
        None => None,
    }
}

/// The integer of a member.
fn int_field(members: &serde_json::Map<String, Value>, name: &str) -> (n: Option<i64>)
    ensures
        n == int_in(member(fields_of(*members), name@)),
{
    match get(members, name) {
        Some(v) => v.as_i64(),
        None => None,
    }
}

/// The bitmask of a member.
fn bits_field(members: &serde_json::Map<String, Value>, name: &str) -> (n: Option<u64>)
    ensures
        n == bits_in(member(fields_of(*members), name@)),
{
    match get(members, name) {
        Some(v) => v.as_u64(),
        None => None,
    }
}

/// The entries of a list of CPUs.
fn cpu_entries(list: &Vec<Value>) -> (entries: Vec<Option<u64>>)
    ensures
        Some(entries@) == list_in(JsonView::List(items_of(list@))),
{
    let mut entries: Vec<Option<u64>> = Vec::new();
    let mut i: usize = 0;
    while i < list.len()
        invariant
            i <= list@.len(),
            entries@.len() == i,
            forall|j: int| 0 <= j < i ==> #[trigger] entries@[j] == bits_in(json_of(list@[j])),
        decreases list@.len() - i,
    {
        entries.push(list[i].as_u64());
        i = i + 1;
    }
    proof {
        let items = items_of(list@);
        assert(entries@ =~= Seq::new(items.len(), |j: int| bits_in(items[j])));
    }
    entries
}

/// The list of CPUs of a member.
fn list_field(members: &serde_json::Map<String, Value>, name: &str) -> (list: Option<
    Vec<Option<u64>>,
>)
    ensures
        event::list_of(list) == list_in(member(fields_of(*members), name@)),
{
    match get(members, name) {
        Some(v) => match v.as_array() {
            Some(items) => Some(cpu_entries(items)),
            None => None,
        },
        None => None,
    }
}

/// The fields of an event with these members.
pub open spec fn fields_in(m: Map<Seq<char>, JsonView>) -> FieldsView {
    FieldsView {
        action: text_in(member(m, "action"@)),
        typ: text_in(member(m, "type"@)),
        event: text_in(member(m, "event"@)),
        task_id: text_in(member(m, "taskId"@)),
        id: text_in(member(m, "id"@)),
        cgroup_id: text_in(member(m, "cgroupId"@)),
        cgroup: text_in(member(m, "cgroup"@)),
        new_cgroup_id: text_in(member(m, "newCgroupId"@)),
        nice: int_in(member(m, "nice"@)),
        vruntime: int_in(member(m, "vruntime"@)),
        cpu_shares: int_in(member(m, "cpuShares"@)),
        legacy_shares: int_in(member(m, "cpu_shares"@)),
        cpu_list: list_in(member(m, "cpuMask"@)),
        affinity: bits_in(member(m, "affinity"@)),
        cpu_mask: bits_in(member(m, "cpu_mask"@)),
    }
}

/// The fields of an event; nothing if it is not an object.
pub fn read_fields(ev: &Value) -> (fields: Option<EventFields>)
    ensures
        match fields {
            Some(f) => json_of(*ev) is Object && f@ == fields_in(json_of(*ev)->Object_0),
            None => !(json_of(*ev) is Object),
        },
{
    match ev.as_object() {
        Some(m) => Some(
            EventFields {
                action: text_field(m, "action"),
                typ: text_field(m, "type"),
                event: text_field(m, "event"),
                task_id: text_field(m, "taskId"),
                id: text_field(m, "id"),
                cgroup_id: text_field(m, "cgroupId"),
                cgroup: text_field(m, "cgroup"),
                new_cgroup_id: text_field(m, "newCgroupId"),
                nice: int_field(m, "nice"),
                vruntime: int_field(m, "vruntime"),
                cpu_shares: int_field(m, "cpuShares"),
                legacy_shares: int_field(m, "cpu_shares"),
                cpu_list: list_field(m, "cpuMask"),
                affinity: bits_field(m, "affinity"),
                cpu_mask: bits_field(m, "cpu_mask"),
            },
        ),
        None => None,
    }
}

/// The event that a JSON value describes, or why it is refused.
pub open spec fn event_in(j: JsonView) -> Result<EventView, EventError> {
    match j {
        JsonView::Object(fields) => event::decode(fields_in(fields)),
        _ => Err(EventError::NotObject),
    }
}

/// The events that JSON values describe.
pub open spec fn events_in(list: Seq<serde_json::Value>) -> Seq<Result<EventView, EventError>> {
    Seq::new(list.len(), |i: int| event_in(json_of(list[i])))
}

/// Decodes an event.
pub fn read_event(ev: &Value) -> (event: Result<Event, EventError>)
    ensures
        event::decoded(event) == event_in(json_of(*ev)),
{
    match read_fields(ev) {
        Some(fields) => fields.decode(),
        None => Err(EventError::NotObject),
    }
}

/// Decodes events.
pub fn read_events(list: &[Value]) -> (events: Vec<Result<Event, EventError>>)
    ensures
        event::all_decoded(events@) == events_in(list@),
{
    let mut events: Vec<Result<Event, EventError>> = Vec::new();
    let mut i: usize = 0;
    while i < list.len()
        invariant
            i <= list@.len(),
            events@.len() == i,
            forall|j: int|
                0 <= j < i ==> event::decoded(#[trigger] events@[j]) == event_in(json_of(list@[j])),
        decreases list@.len() - i,
    {
        events.push(read_event(&list[i]));
        i = i + 1;
    }
    assert(event::all_decoded(events@) =~= events_in(list@));
    events
}

} // verus!
