//! Run queues: entries that leave in the order of their virtual runtime.

use vstd::prelude::*;

use crate::text;
use crate::text::{order_text, TextOrder};

verus! {

/// A queued task or control group, with the virtual runtime it had when it was queued.
#[derive(Debug, Clone)]
pub struct HeapItem {
    pub vruntime: i64,
    pub seq: u64,
    pub id: String,
}

/// What a [`HeapItem`] holds.
pub struct ItemView {
    pub vruntime: i64,
    pub seq: u64,
    pub id: Seq<char>,
}

impl View for HeapItem {
    type V = ItemView;

    open spec fn view(&self) -> ItemView {
        ItemView { vruntime: self.vruntime, seq: self.seq, id: self.id@ }
    }
}

/// `a` leaves a queue before `b`: it has the smaller virtual runtime, or at the same virtual
/// runtime the smaller sequence number, or with both the same the smaller identifier.
pub open spec fn precedes(a: ItemView, b: ItemView) -> bool {
    ||| a.vruntime < b.vruntime
    ||| a.vruntime == b.vruntime && a.seq < b.seq
    ||| a.vruntime == b.vruntime && a.seq == b.seq && text::text_lt(a.id, b.id)
}

/// `a` leaves a queue before `b`, or the two are the same.
pub open spec fn precedes_or_same(a: ItemView, b: ItemView) -> bool {
    a == b || precedes(a, b)
}

/// The order of entries is transitive.
pub proof fn precedes_transitive(a: ItemView, b: ItemView, c: ItemView)
    requires
        precedes_or_same(a, b),
        precedes_or_same(b, c),
    ensures
        precedes_or_same(a, c),
        precedes(a, b) || precedes(b, c) ==> precedes(a, c),
{
    if text::text_lt(a.id, b.id) && text::text_lt(b.id, c.id) {
        text::text_lt_transitive(a.id, b.id, c.id);
    }
}

/// Of two entries exactly one precedes the other, unless they are the same.
pub proof fn precedes_total(a: ItemView, b: ItemView)
    ensures
        precedes(a, b) || a == b || precedes(b, a),
        !(precedes(a, b) && precedes(b, a)),
        !precedes(a, a),
{
    text::text_lt_total(a.id, b.id);
    text::text_lt_irreflexive(a.id);
    if text::text_lt(a.id, b.id) && text::text_lt(b.id, a.id) {
        text::text_lt_transitive(a.id, b.id, a.id);
    }
}

/// The entries stand in the order in which they leave.
pub open spec fn in_order(items: Seq<ItemView>) -> bool {
    forall|i: int, j: int|
        0 <= i < j < items.len() ==> #[trigger] precedes_or_same(items[i], items[j])
}

/// `items` with `item` put behind everything that does not leave after it.
pub open spec fn with_item(items: Seq<ItemView>, item: ItemView) -> Seq<ItemView>
    decreases items.len(),
{
    if items.len() == 0 || precedes_or_same(items.last(), item) {
        items.push(item)
    } else {
        with_item(items.drop_last(), item).push(items.last())
    }
}

/// Putting an entry into a queue adds that entry and nothing else.
pub proof fn with_item_contains(items: Seq<ItemView>, item: ItemView)
    ensures
        with_item(items, item).len() == items.len() + 1,
        forall|x: ItemView| #[trigger]
            with_item(items, item).contains(x) <==> items.contains(x) || x == item,
    decreases items.len(),
{
    let after = with_item(items, item);
    if items.len() == 0 || precedes_or_same(items.last(), item) {
        assert forall|x: ItemView| #[trigger] after.contains(x) <==> items.contains(x) || x
            == item by {
            if items.contains(x) {
                assert(after[items.index_of(x)] == x);
            }
            assert(after[items.len() as int] == item);
        }
    } else {
        let front = items.drop_last();
        let inner = with_item(front, item);
        with_item_contains(front, item);
        assert(after == inner.push(items.last()));
        assert forall|x: ItemView| #[trigger] after.contains(x) <==> items.contains(x) || x
            == item by {
            if items.contains(x) {
                let i = items.index_of(x);
                if i < front.len() {
                    assert(front[i] == x);
                }
            }
            if front.contains(x) {
                assert(items[front.index_of(x)] == x);
            }
            if inner.contains(x) {
                assert(after[inner.index_of(x)] == x);
            }
            assert(after[inner.len() as int] == items.last());
            assert(inner.contains(item));
        }
    }
}

/// An entry goes to any position at which it is in order.
pub proof fn with_item_at(items: Seq<ItemView>, item: ItemView, k: int)
    requires
        in_order(items),
        0 <= k <= items.len(),
        k > 0 ==> precedes_or_same(items[k - 1], item),
        k < items.len() ==> precedes_or_same(item, items[k]),
    ensures
        with_item(items, item) == items.insert(k, item),
    decreases items.len(),
{
    if items.len() == 0 {
        assert(items.push(item) =~= items.insert(k, item));
    } else if k == items.len() {
        assert(items.push(item) =~= items.insert(k, item));
    } else {
        let last = items.last();
        assert(precedes_or_same(item, last)) by {
            if k < items.len() - 1 {
                assert(precedes_or_same(items[k], items[items.len() - 1]));
                precedes_transitive(item, items[k], last);
            }
        }
        precedes_total(item, last);
        let front = items.drop_last();
        if precedes_or_same(last, item) {
            // `item` equals `last`, and with it everything from `k` on.
            assert forall|j: int| k <= j < items.len() implies items[j] == item by {
                if k < j {
                    assert(precedes_or_same(items[k], items[j]));
                    precedes_transitive(item, items[k], items[j]);
                }
                if j < items.len() - 1 {
                    assert(precedes_or_same(items[j], items[items.len() - 1]));
                }
                precedes_total(item, items[j]);
            }
            assert(items.push(item) =~= items.insert(k, item));
        } else {
            assert(in_order(front)) by {
                assert forall|i: int, j: int| 0 <= i < j < front.len() implies
                    #[trigger] precedes_or_same(front[i], front[j]) by {
                    assert(precedes_or_same(items[i], items[j]));
                }
            }
            with_item_at(front, item, k);
            assert(front.insert(k, item).push(last) =~= items.insert(k, item));
        }
    }
}

/// Adding an entry keeps the order.
pub proof fn with_item_in_order(items: Seq<ItemView>, item: ItemView)
    requires
        in_order(items),
    ensures
        in_order(with_item(items, item)),
    decreases items.len(),
{
    let after = with_item(items, item);
    if items.len() == 0 || precedes_or_same(items.last(), item) {
        assert forall|i: int, j: int| 0 <= i < j < after.len() implies #[trigger] precedes_or_same(
            after[i],
            after[j],
        ) by {
            if j < items.len() {
                assert(precedes_or_same(items[i], items[j]));
            } else if i < items.len() - 1 {
                assert(precedes_or_same(items[i], items[items.len() - 1]));
                precedes_transitive(items[i], items.last(), item);
            }
        }
    } else {
        let front = items.drop_last();
        precedes_total(items.last(), item);
        assert(in_order(front)) by {
            assert forall|i: int, j: int| 0 <= i < j < front.len() implies
                #[trigger] precedes_or_same(front[i], front[j]) by {
                assert(precedes_or_same(items[i], items[j]));
            }
        }
        with_item_in_order(front, item);
        with_item_contains(front, item);
        let inner = with_item(front, item);
        assert forall|i: int, j: int| 0 <= i < j < after.len() implies #[trigger] precedes_or_same(
            after[i],
            after[j],
        ) by {
            if j < inner.len() {
                assert(precedes_or_same(inner[i], inner[j]));
            } else {
                assert(inner.contains(inner[i]));
                if inner[i] != item {
                    let k = front.index_of(inner[i]);
                    assert(precedes_or_same(items[k], items[items.len() - 1]));
                }
            }
        }
    }
}

impl HeapItem {
    /// Whether `self` leaves a queue before `other`.
    pub fn before(&self, other: &HeapItem) -> (result: bool)
        ensures
            result == precedes(self@, other@),
    {
        if self.vruntime != other.vruntime {
            self.vruntime < other.vruntime
        } else if self.seq != other.seq {
            self.seq < other.seq
        } else {
            match order_text(self.id.as_str(), other.id.as_str()) {
                TextOrder::Before => true,
                _ => false,
            }
        }
    }
}

/// A queue of entries. The next one to leave stands at the end of the vector.
#[derive(Debug)]
pub struct EntryQueue {
    items: Vec<HeapItem>,
}

impl View for EntryQueue {
    type V = Seq<ItemView>;

    /// The entries in the order in which they leave.
    closed spec fn view(&self) -> Seq<ItemView> {
        Seq::new(self.items@.len(), |i: int| self.items@[self.items@.len() - 1 - i]@)
    }
}

impl EntryQueue {
    /// A queue without entries.
    pub fn new() -> (queue: Self)
        ensures
            queue@ == Seq::<ItemView>::empty(),
    {
        let queue = EntryQueue { items: Vec::new() };
        assert(queue@ =~= Seq::<ItemView>::empty());
        queue
    }

    /// Adds `item`.
    pub fn push(&mut self, item: HeapItem)
        requires
            in_order(old(self)@),
        ensures
            final(self)@ == with_item(old(self)@, item@),
            in_order(final(self)@),
    {
        let ghost before = self@;
        let n: usize = self.items.len();
        let mut low: usize = 0;
        let mut high: usize = n;
        // Everything below `low` leaves after `item`, nothing from `high` on does.
        while low < high
            invariant
                n == self.items@.len(),
                before == self@,
                before.len() == n,
                in_order(before),
                low <= high <= n,
                low > 0 ==> precedes(item@, before[n - low]),
                high < n ==> precedes_or_same(before[n - 1 - high], item@),
            decreases high - low,
        {
            let middle: usize = low + (high - low) / 2;
            assert(self.items@[middle as int]@ == before[n - 1 - middle]);
            proof {
                precedes_total(item@, before[n - 1 - middle]);
            }
            if item.before(&self.items[middle]) {
                low = middle + 1;
            } else {
                high = middle;
            }
        }
        proof {
            with_item_at(before, item@, n - low);
            with_item_in_order(before, item@);
        }
        self.items.insert(low, item);
        assert(self@ =~= before.insert(n - low, item@));
    }

    /// Takes out the entry that leaves next.
    pub fn pop(&mut self) -> (item: Option<HeapItem>)
        ensures
            match item {
                Some(it) => old(self)@.len() > 0 && it@ == old(self)@[0] && final(self)@ == old(
                    self,
                )@.skip(1),
                None => old(self)@.len() == 0 && final(self)@ == old(self)@,
            },
    {
        let ghost before = self@;
        let item = self.items.pop();
        proof {
            if item is Some {
                assert(self@ =~= before.skip(1));
            }
        }
        item
    }
}

} // verus!
