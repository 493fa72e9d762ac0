//! The report of a tick as a JSON value and as text.

use serde_json::Value;
use vstd::prelude::*;

use crate::json;
use crate::json::JsonView;
use crate::scheduler::TickResult;
use crate::text;

verus! {

/// `serde_json::Value::from` makes an integer of an `i64`.
#[verifier::external_body]
fn int_value(n: i64) -> (v: Value)
    ensures
        json::json_of(v) == JsonView::Int(n as int),
{
    Value::from(n)
}

/// `serde_json::Value::from` makes an integer of a `u64`.
#[verifier::external_body]
fn count_value(n: u64) -> (v: Value)
    ensures
        json::json_of(v) == JsonView::Int(n as int),
{
    Value::from(n)
}

/// `serde_json::Value::from` makes a string of a `str`.
#[verifier::external_body]
fn text_value(s: &str) -> (v: Value)
    ensures
        json::json_of(v) == JsonView::Text(s@),
{
    Value::from(s)
}

/// `serde_json::Value::from` makes a list of a vector of values.
#[verifier::external_body]
fn list_value(items: Vec<Value>) -> (v: Value)
    ensures
        json::json_of(v) == JsonView::List(json::items_of(items@)),
{
    Value::from(items)
}

/// `serde_json::Value::from` makes an object of its members.
#[verifier::external_body]
fn object_value(members: serde_json::Map<String, Value>) -> (v: Value)
    ensures
        json::json_of(v) == JsonView::Object(json::fields_of(members)),
{
    Value::from(members)
}

/// No members.
pub open spec fn nothing() -> Map<Seq<char>, JsonView> {
    Map::empty()
}

/// `serde_json::Map::new` makes a map without members.
#[verifier::external_body]
fn no_members() -> (members: serde_json::Map<String, Value>)
    ensures
        json::fields_of(members) == nothing(),
{
    serde_json::Map::new()
}

/// `serde_json::Map::insert` puts a value under a name, in place of one that stood there.
#[verifier::external_body]
fn put(members: &mut serde_json::Map<String, Value>, name: &str, v: Value)
    ensures
        json::fields_of(*final(members)) == json::fields_of(*old(members)).insert(
            name@,
            json::json_of(v),
        ),
{
    members.insert(name.to_owned(), v);
}

/// A list of texts.
pub open spec fn text_list(list: Seq<Seq<char>>) -> JsonView {
    JsonView::List(list.map_values(|s: Seq<char>| JsonView::Text(s)))
}

/// The report of a tick: its time and schedule, and under "meta" what there is to know about it.
pub open spec fn report_of(
    vtime: i64,
    schedule: Seq<Seq<char>>,
    preemptions: u64,
    migrations: u64,
    runnable: Seq<Seq<char>>,
    blocked: Seq<Seq<char>>,
) -> JsonView {
    JsonView::Object(
        map![
            "vtime"@ => JsonView::Int(vtime as int),
            "schedule"@ => text_list(schedule),
            "meta"@ => JsonView::Object(map![
                "preemptions"@ => JsonView::Int(preemptions as int),
                "migrations"@ => JsonView::Int(migrations as int),
                "runnableTasks"@ => text_list(runnable),
                "blockedTasks"@ => text_list(blocked),
            ]),
        ],
    )
}

/// The texts as a JSON list.
fn texts_value(list: &Vec<String>) -> (v: Value)
    ensures
        json::json_of(v) == text_list(text::texts(list@)),
{
    let mut items: Vec<Value> = Vec::new();
    let mut i: usize = 0;
    while i < list.len()
        invariant
            i <= list@.len(),
            items@.len() == i,
            forall|j: int|
                0 <= j < i ==> json::json_of(#[trigger] items@[j]) == JsonView::Text(list@[j]@),
        decreases list@.len() - i,
    {
        items.push(text_value(list[i].as_str()));
        i = i + 1;
    }
    assert(json::items_of(items@) =~= text::texts(list@).map_values(
        |s: Seq<char>| JsonView::Text(s),
    ));
    list_value(items)
}

/// The report of a tick.
pub fn report(result: &TickResult) -> (v: Value)
    ensures
        json::json_of(v) == report_of(
            result.vtime,
            text::texts(result.schedule@),
            result.preemptions,
            result.migrations,
            text::texts(result.runnable@),
            text::texts(result.blocked@),
        ),
        json::json_of(v) matches JsonView::Object(members) && {
            &&& forall|name: Seq<char>| #[trigger]
                members.contains_key(name) <==> name == "vtime"@ || name == "schedule"@ || name
                    == "meta"@
            &&& members["vtime"@] == JsonView::Int(result.vtime as int)
            &&& members["schedule"@] matches JsonView::List(list) && list.len()
                == result.schedule@.len() && forall|i: int|
                0 <= i < list.len() ==> #[trigger] list[i] == JsonView::Text(result.schedule@[i]@)
            &&& members["meta"@] matches JsonView::Object(meta) && {
                &&& forall|name: Seq<char>| #[trigger]
                    meta.contains_key(name) <==> name == "preemptions"@ || name == "migrations"@
                        || name == "runnableTasks"@ || name == "blockedTasks"@
                &&& meta["preemptions"@] == JsonView::Int(result.preemptions as int)
                &&& meta["migrations"@] == JsonView::Int(result.migrations as int)
                &&& meta["runnableTasks"@] matches JsonView::List(list) && list.len()
                    == result.runnable@.len() && forall|i: int|
                    0 <= i < list.len() ==> #[trigger] list[i] == JsonView::Text(
                        result.runnable@[i]@,
                    )
                &&& meta["blockedTasks"@] matches JsonView::List(list) && list.len()
                    == result.blocked@.len() && forall|i: int|
                    0 <= i < list.len() ==> #[trigger] list[i] == JsonView::Text(
                        result.blocked@[i]@,
                    )
            }
        },
{
    proof {
        distinct_names();
    }
    let mut meta = no_members();
    put(&mut meta, "preemptions", count_value(result.preemptions));
    put(&mut meta, "migrations", count_value(result.migrations));
    put(&mut meta, "runnableTasks", texts_value(&result.runnable));
    put(&mut meta, "blockedTasks", texts_value(&result.blocked));
    let mut members = no_members();
    put(&mut members, "vtime", int_value(result.vtime));
    put(&mut members, "schedule", texts_value(&result.schedule));
    put(&mut members, "meta", object_value(meta));
    object_value(members)
}

/// The members of a report have different names.
proof fn distinct_names()
    ensures
        "vtime"@ != "schedule"@,
        "vtime"@ != "meta"@,
        "schedule"@ != "meta"@,
        "preemptions"@ != "migrations"@,
        "preemptions"@ != "runnableTasks"@,
        "preemptions"@ != "blockedTasks"@,
        "migrations"@ != "runnableTasks"@,
        "migrations"@ != "blockedTasks"@,
        "runnableTasks"@ != "blockedTasks"@,
{
    reveal_strlit("vtime");
    reveal_strlit("schedule");
    reveal_strlit("meta");
    reveal_strlit("preemptions");
    reveal_strlit("migrations");
    reveal_strlit("runnableTasks");
    reveal_strlit("blockedTasks");
    assert("vtime"@.len() == 5);
    assert("schedule"@.len() == 8);
    assert("meta"@.len() == 4);
    assert("preemptions"@.len() == 11);
    assert("migrations"@.len() == 10);
    assert("runnableTasks"@.len() == 13);
    assert("blockedTasks"@.len() == 12);
}

/// The report of some tick.
pub open spec fn is_report(j: JsonView) -> bool {
    exists|
        vtime: i64,
        schedule: Seq<Seq<char>>,
        preemptions: u64,
        migrations: u64,
        runnable: Seq<Seq<char>>,
        blocked: Seq<Seq<char>>,
    |
        j == #[trigger] report_of(vtime, schedule, preemptions, migrations, runnable, blocked)
}

/// The text that `serde_json` writes for a JSON value.
pub uninterp spec fn json_text(j: JsonView) -> Seq<char>;

/// `serde_json::Value`, turned into text by `to_string`, gives the compact JSON of what it holds.
/// The text is named for reports only: they consist of integers, texts, lists and objects, which
/// are written alike wherever they hold the same.
#[verifier::external_body]
fn value_text(v: &Value) -> (written: String)
    requires
        is_report(json::json_of(*v)),
    ensures
        written@ == json_text(json::json_of(*v)),
{
    v.to_string()
}

/// The report of a tick as text.
pub fn report_text(result: &TickResult) -> (written: String)
    ensures
        written@ == json_text(
            report_of(
                result.vtime,
                text::texts(result.schedule@),
                result.preemptions,
                result.migrations,
                text::texts(result.runnable@),
                text::texts(result.blocked@),
            ),
        ),
{
    value_text(&report(result))
}

} // verus!
