use alfs::idmap::IdMap;
use alfs::model::Cgroup;
use alfs::queue::{EntryQueue, HeapItem};
use alfs::text::{order_text, same_text, TextOrder};

fn item(vruntime: i64, seq: u64, id: &str) -> HeapItem {
    HeapItem { vruntime, seq, id: id.to_string() }
}

fn group(shares: u32) -> Cgroup {
    let mut g = Cgroup::new("g".to_string());
    g.cpu_shares = shares;
    g
}

fn shares(m: &IdMap<Cgroup>, k: &str) -> Option<u32> {
    m.get(k).map(|g| g.cpu_shares)
}

#[test]
fn map_binds_and_unbinds() {
    let mut m: IdMap<Cgroup> = IdMap::new();
    assert!(!m.contains_key("a"));
    m.insert("b".to_string(), group(2));
    m.insert("a".to_string(), group(1));
    m.insert("c".to_string(), group(3));
    m.insert("b".to_string(), group(20));
    assert_eq!(m.len(), 3);
    assert_eq!(shares(&m, "a"), Some(1));
    assert_eq!(shares(&m, "b"), Some(20));
    assert_eq!(shares(&m, "d"), None);
    m.remove("b");
    m.remove("nothing");
    assert_eq!(m.len(), 2);
    assert_eq!(shares(&m, "b"), None);
    assert_eq!(shares(&m, "c"), Some(3));
}

#[test]
fn map_is_walked_in_order() {
    let mut m: IdMap<Cgroup> = IdMap::new();
    for (i, k) in ["task10", "task2", "", "Z", "a", "\u{e9}"].iter().enumerate() {
        m.insert(k.to_string(), group(i as u32));
    }
    let keys: Vec<&str> = (0..m.len()).map(|i| m.at(i).0).collect();
    assert_eq!(keys, vec!["", "Z", "a", "task10", "task2", "\u{e9}"]);
    assert_eq!(m.at(1).1.cpu_shares, 3);
}

#[test]
fn map_values_can_be_changed_in_place() {
    let mut m: IdMap<Cgroup> = IdMap::new();
    m.insert("a".to_string(), group(1));
    m.insert("b".to_string(), group(2));
    m.get_mut("b").unwrap().cpu_shares = 9;
    assert!(m.get_mut("c").is_none());
    m.at_mut(0).cpu_shares = 8;
    assert_eq!((shares(&m, "a"), shares(&m, "b")), (Some(8), Some(9)));
}

#[test]
fn queue_gives_the_least_first() {
    let mut q = EntryQueue::new();
    q.push(item(5, 1, "a"));
    q.push(item(-3, 9, "b"));
    q.push(item(5, 0, "c"));
    q.push(item(-3, 9, "aa"));
    q.push(item(7, 2, "d"));
    let mut out: Vec<String> = Vec::new();
    while let Some(it) = q.pop() {
        out.push(it.id);
    }
    assert_eq!(out, vec!["aa", "b", "c", "a", "d"]);
    assert!(q.pop().is_none());
}

#[test]
fn texts_are_ordered_by_code_points() {
    assert_eq!(order_text("abc", "abd"), TextOrder::Before);
    assert_eq!(order_text("abc", "ab"), TextOrder::After);
    assert_eq!(order_text("", ""), TextOrder::Same);
    assert_eq!(order_text("Z", "a"), TextOrder::Before);
    assert_eq!(order_text("\u{ffff}", "\u{10000}"), TextOrder::Before);
    assert!(same_text("idle", "idle"));
    assert!(!same_text("idle", "Idle"));
    assert!(!same_text("idle", "idle "));
}
