//! The order of identifiers: text compared character by character.

use vstd::prelude::*;

verus! {

/// Position `i` is where `a` and `b` part, and `a` is the smaller there: everything before `i`
/// agrees, and `a` either ends at `i` or holds a smaller character.
pub open spec fn parts_below(a: Seq<char>, b: Seq<char>, i: int) -> bool {
    &&& 0 <= i <= a.len()
    &&& i < b.len()
    &&& forall|j: int| 0 <= j < i ==> a[j] == b[j]
    &&& i == a.len() || (a[i] as int) < (b[i] as int)
}

/// `a` comes strictly before `b` in the lexicographic order of code points, which is the order
/// that `str` and `String` have.
pub open spec fn text_lt(a: Seq<char>, b: Seq<char>) -> bool {
    exists|i: int| #[trigger] parts_below(a, b, i)
}

/// No text comes before itself.
pub proof fn text_lt_irreflexive(a: Seq<char>)
    ensures
        !text_lt(a, a),
{
}

/// The order of texts is transitive.
pub proof fn text_lt_transitive(a: Seq<char>, b: Seq<char>, c: Seq<char>)
    requires
        text_lt(a, b),
        text_lt(b, c),
    ensures
        text_lt(a, c),
{
    let i = choose|i: int| parts_below(a, b, i);
    let j = choose|j: int| parts_below(b, c, j);
    let k = if i < j {
        i
    } else {
        j
    };
    assert(parts_below(a, c, k));
}

/// Two texts are equal or one of them comes first.
pub proof fn text_lt_total(a: Seq<char>, b: Seq<char>)
    ensures
        text_lt(a, b) || a == b || text_lt(b, a),
{
    text_agree_then_ordered(a, b, 0);
}

/// Texts that agree up to `n` are equal or ordered, whatever follows.
proof fn text_agree_then_ordered(a: Seq<char>, b: Seq<char>, n: int)
    requires
        0 <= n <= a.len(),
        n <= b.len(),
        forall|j: int| 0 <= j < n ==> a[j] == b[j],
    ensures
        text_lt(a, b) || a == b || text_lt(b, a),
    decreases a.len() - n,
{
    if n == a.len() && n == b.len() {
        assert(a =~= b);
    } else if n == a.len() {
        assert(parts_below(a, b, n));
    } else if n == b.len() {
        assert(parts_below(b, a, n));
    } else if a[n] == b[n] {
        text_agree_then_ordered(a, b, n + 1);
    } else if (a[n] as int) < (b[n] as int) {
        assert(parts_below(a, b, n));
    } else {
        assert(parts_below(b, a, n));
    }
}

/// Where two texts part, the one with the smaller character comes first, whatever follows. A text
/// comes before every longer text that starts with it.
pub proof fn the_first_difference_decides(
    start: Seq<char>,
    x: char,
    y: char,
    a: Seq<char>,
    b: Seq<char>,
)
    ensures
        (x as int) < (y as int) ==> text_lt(start.push(x) + a, start.push(y) + b),
        text_lt(start, start.push(y) + b),
{
    let n = start.len() as int;
    if (x as int) < (y as int) {
        let p = start.push(x) + a;
        let q = start.push(y) + b;
        assert(p[n] == x && q[n] == y);
        assert forall|j: int| 0 <= j < n implies p[j] == q[j] by {
            assert(p[j] == start[j] && q[j] == start[j]);
        }
        assert(parts_below(p, q, n));
    }
    let q = start.push(y) + b;
    assert forall|j: int| 0 <= j < n implies start[j] == q[j] by {}
    assert(parts_below(start, q, n));
}

/// How one text stands to another.
#[derive(Debug, Clone, Copy, PartialEq, Eq, Structural)]
pub enum TextOrder {
    Before,
    Same,
    After,
}

/// Compares two texts.
pub fn order_text(a: &str, b: &str) -> (order: TextOrder)
    ensures
        order == TextOrder::Before <==> text_lt(a@, b@),
        order == TextOrder::Same <==> a@ == b@,
        order == TextOrder::After <==> text_lt(b@, a@),
{
    let mut left = a.chars();
    let mut right = b.chars();
    let ghost mut n: int = 0;
    loop
        invariant
            0 <= n <= a@.len(),
            n <= b@.len(),
            vstd::std_specs::iter::IteratorSpec::remaining(&left) == a@.skip(n),
            vstd::std_specs::iter::IteratorSpec::remaining(&right) == b@.skip(n),
            vstd::std_specs::iter::IteratorSpec::obeys_prophetic_iter_laws(&left),
            vstd::std_specs::iter::IteratorSpec::obeys_prophetic_iter_laws(&right),
            forall|j: int| 0 <= j < n ==> a@[j] == b@[j],
        decreases a@.len() - n,
    {
        proof {
            text_lt_irreflexive(a@);
            if text_lt(a@, b@) && text_lt(b@, a@) {
                text_lt_transitive(a@, b@, a@);
            }
        }
        let x = left.next();
        let y = right.next();
        match (x, y) {
            (None, None) => {
                assert(a@ =~= b@);
                return TextOrder::Same;
            },
            (None, Some(_)) => {
                assert(parts_below(a@, b@, n));
                return TextOrder::Before;
            },
            (Some(_), None) => {
                assert(parts_below(b@, a@, n));
                return TextOrder::After;
            },
            (Some(c), Some(d)) => {
                assert(a@.skip(n)[0] == a@[n]);
                assert(b@.skip(n)[0] == b@[n]);
                if c < d {
                    assert(parts_below(a@, b@, n));
                    return TextOrder::Before;
                }
                if d < c {
                    assert(parts_below(b@, a@, n));
                    return TextOrder::After;
                }
                proof {
                    assert(a@.skip(n).drop_first() =~= a@.skip(n + 1));
                    assert(b@.skip(n).drop_first() =~= b@.skip(n + 1));
                    n = n + 1;
                }
            },
        }
    }
}

/// Whether two texts are the same.
pub fn same_text(a: &str, b: &str) -> (same: bool)
    ensures
        same == (a@ == b@),
{
    order_text(a, b) == TextOrder::Same
}

/// The texts of a list of strings.
pub open spec fn texts(list: Seq<String>) -> Seq<Seq<char>> {
    list.map_values(|s: String| s@)
}

} // verus!
