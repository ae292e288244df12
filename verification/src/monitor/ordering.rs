//! Sorting that keeps the order of what has equal keys.

use vstd::prelude::*;

verus! {

/// One key stands before another: at the first place at which they differ it
/// holds the smaller number, or it ends there.
pub open spec fn before(a: Seq<u64>, b: Seq<u64>) -> bool
    decreases a.len(),
{
    if b.len() == 0 {
        false
    } else if a.len() == 0 {
        true
    } else if a[0] != b[0] {
        a[0] < b[0]
    } else {
        before(a.drop_first(), b.drop_first())
    }
}

/// The key of a number.
pub open spec fn number_key(n: u64) -> Seq<u64> {
    seq![n]
}

/// The key of a text: its characters by their number.
pub open spec fn text_key(text: Seq<char>) -> Seq<u64> {
    text.map_values(|c: char| c as u64)
}

/// No key stands before itself.
pub proof fn before_is_irreflexive(a: Seq<u64>)
    ensures
        !before(a, a),
    decreases a.len(),
{
    if a.len() > 0 {
        before_is_irreflexive(a.drop_first());
    }
}

/// What stands before something stands before all that it stands before.
pub proof fn before_is_transitive(a: Seq<u64>, b: Seq<u64>, c: Seq<u64>)
    requires
        before(a, b),
        before(b, c),
    ensures
        before(a, c),
    decreases a.len(),
{
    if a.len() > 0 && a[0] == b[0] && b[0] == c[0] {
        before_is_transitive(a.drop_first(), b.drop_first(), c.drop_first());
    }
}

/// Of two different keys one stands before the other.
pub proof fn before_is_total(a: Seq<u64>, b: Seq<u64>)
    ensures
        a == b || before(a, b) || before(b, a),
    decreases a.len(),
{
    if a.len() > 0 && b.len() > 0 && a[0] == b[0] {
        before_is_total(a.drop_first(), b.drop_first());
        if a.drop_first() == b.drop_first() {
            assert(a =~= seq![a[0]] + a.drop_first());
            assert(b =~= seq![b[0]] + b.drop_first());
        }
    } else if a.len() == 0 && b.len() == 0 {
        assert(a =~= b);
    }
}

/// The item at `i` comes before the item at `j`: by their keys, or, where these
/// are equal, because it did so before.
pub open spec fn precedes(keys: Seq<Seq<u64>>, descending: bool, i: int, j: int) -> bool {
    if keys[i] == keys[j] {
        i < j
    } else if descending {
        before(keys[j], keys[i])
    } else {
        before(keys[i], keys[j])
    }
}

/// `order` lists positions, each before all that it precedes.
pub open spec fn in_sequence(keys: Seq<Seq<u64>>, descending: bool, order: Seq<int>) -> bool {
    forall|a: int, b: int|
        0 <= a < b < order.len() ==> precedes(keys, descending, #[trigger] order[a], #[trigger] order[b])
}

/// `order` lists all positions, in the order in which the items come.
pub open spec fn is_order(keys: Seq<Seq<u64>>, descending: bool, order: Seq<int>) -> bool {
    &&& order.len() == keys.len()
    &&& forall|i: int| 0 <= i < keys.len() <==> #[trigger] order.contains(i)
    &&& in_sequence(keys, descending, order)
}

/// The order in which the items come.
pub open spec fn sorted_order(keys: Seq<Seq<u64>>, descending: bool) -> Seq<int> {
    choose|order: Seq<int>| is_order(keys, descending, order)
}

/// The items in the given order.
pub open spec fn arranged<T>(items: Seq<T>, order: Seq<int>) -> Seq<T> {
    order.map_values(|i: int| items[i])
}

/// The items sorted by their keys.
pub open spec fn sorted_by<T>(items: Seq<T>, keys: Seq<Seq<u64>>, descending: bool) -> Seq<T> {
    arranged(items, sorted_order(keys, descending))
}

proof fn precedes_is_transitive(keys: Seq<Seq<u64>>, descending: bool, i: int, j: int, k: int)
    requires
        precedes(keys, descending, i, j),
        precedes(keys, descending, j, k),
    ensures
        precedes(keys, descending, i, k),
{
    before_is_irreflexive(keys[i]);
    before_is_irreflexive(keys[k]);
    if keys[i] != keys[j] && keys[j] != keys[k] {
        if descending {
            before_is_transitive(keys[k], keys[j], keys[i]);
        } else {
            before_is_transitive(keys[i], keys[j], keys[k]);
        }
    }
}

proof fn precedes_one_way(keys: Seq<Seq<u64>>, descending: bool, i: int, j: int)
    requires
        precedes(keys, descending, i, j),
    ensures
        !precedes(keys, descending, j, i),
        i != j,
{
    if keys[i] != keys[j] && precedes(keys, descending, j, i) {
        before_is_transitive(keys[i], keys[j], keys[i]);
        before_is_irreflexive(keys[i]);
    }
}

proof fn precedes_either_way(keys: Seq<Seq<u64>>, descending: bool, i: int, j: int)
    requires
        i != j,
    ensures
        precedes(keys, descending, i, j) || precedes(keys, descending, j, i),
{
    before_is_total(keys[i], keys[j]);
}

proof fn same_positions_same_order(
    keys: Seq<Seq<u64>>,
    descending: bool,
    a: Seq<int>,
    b: Seq<int>,
)
    requires
        in_sequence(keys, descending, a),
        in_sequence(keys, descending, b),
        forall|i: int| #[trigger] a.contains(i) <==> b.contains(i),
    ensures
        a == b,
    decreases a.len(),
{
    if a.len() == 0 {
        if b.len() > 0 {
            assert(b.contains(b[0]));
            assert(a.contains(b[0]));
        }
        assert(a =~= b);
    } else {
        assert(a.contains(a.last()));
        assert(b.contains(a.last()));
        let j = choose|j: int| 0 <= j < b.len() && b[j] == a.last();
        assert(b.contains(b.last()));
        assert(a.contains(b.last()));
        let i = choose|i: int| 0 <= i < a.len() && a[i] == b.last();
        if a.last() != b.last() {
            assert(precedes(keys, descending, b[j], b[b.len() - 1]));
            assert(precedes(keys, descending, a[i], a[a.len() - 1]));
            precedes_one_way(keys, descending, a.last(), b.last());
        }
        let c = a.drop_last();
        let d = b.drop_last();
        assert forall|p: int| #[trigger] c.contains(p) <==> d.contains(p) by {
            if c.contains(p) {
                let k = choose|k: int| 0 <= k < c.len() && c[k] == p;
                assert(a[k] == p);
                precedes_one_way(keys, descending, a[k], a[a.len() - 1]);
                assert(a.contains(p));
                assert(b.contains(p));
                let m = choose|m: int| 0 <= m < b.len() && b[m] == p;
                assert(d[m] == p);
            }
            if d.contains(p) {
                let k = choose|k: int| 0 <= k < d.len() && d[k] == p;
                assert(b[k] == p);
                precedes_one_way(keys, descending, b[k], b[b.len() - 1]);
                assert(b.contains(p));
                assert(a.contains(p));
                let m = choose|m: int| 0 <= m < a.len() && a[m] == p;
                assert(c[m] == p);
            }
        }
        same_positions_same_order(keys, descending, c, d);
        assert(a =~= c.push(a.last()));
        assert(b =~= d.push(b.last()));
    }
}

/// There is only one order in which items with given keys can come.
pub proof fn order_is_unique(keys: Seq<Seq<u64>>, descending: bool, order: Seq<int>)
    requires
        is_order(keys, descending, order),
    ensures
        sorted_order(keys, descending) == order,
{
    let other = sorted_order(keys, descending);
    assert forall|i: int| #[trigger] other.contains(i) <==> order.contains(i) by {
        assert(order.contains(i) <==> 0 <= i < keys.len());
        assert(other.contains(i) <==> 0 <= i < keys.len());
    }
    same_positions_same_order(keys, descending, other, order);
}

spec fn inserted(keys: Seq<Seq<u64>>, descending: bool, order: Seq<int>, x: int) -> Seq<int>
    decreases order.len(),
{
    if order.len() == 0 {
        seq![x]
    } else if precedes(keys, descending, order.last(), x) {
        order.push(x)
    } else {
        inserted(keys, descending, order.drop_last(), x).push(order.last())
    }
}

proof fn insertion_keeps_sequence(
    keys: Seq<Seq<u64>>,
    descending: bool,
    order: Seq<int>,
    x: int,
)
    requires
        in_sequence(keys, descending, order),
        !order.contains(x),
    ensures
        in_sequence(keys, descending, inserted(keys, descending, order, x)),
        inserted(keys, descending, order, x).len() == order.len() + 1,
        forall|p: int| #[trigger]
            inserted(keys, descending, order, x).contains(p) <==> order.contains(p) || p == x,
    decreases order.len(),
{
    let result = inserted(keys, descending, order, x);
    if order.len() == 0 {
        assert forall|p: int| #[trigger] result.contains(p) <==> order.contains(p) || p == x by {
            contains_push(order, x, p);
            assert(result =~= order.push(x));
        }
    } else if precedes(keys, descending, order.last(), x) {
        assert forall|p: int| #[trigger] result.contains(p) <==> order.contains(p) || p == x by {
            contains_push(order, x, p);
        }
        assert forall|a: int, b: int| 0 <= a < b < result.len() implies precedes(
            keys,
            descending,
            #[trigger] result[a],
            #[trigger] result[b],
        ) by {
            if b == order.len() && a < order.len() - 1 {
                precedes_is_transitive(keys, descending, order[a], order[order.len() - 1], x);
            }
        }
    } else {
        let front = order.drop_last();
        let last = order.last();
        assert(order.contains(order[order.len() - 1]));
        assert(!front.contains(x)) by {
            if front.contains(x) {
                let k = choose|k: int| 0 <= k < front.len() && front[k] == x;
                assert(order[k] == x);
            }
        }
        insertion_keeps_sequence(keys, descending, front, x);
        precedes_either_way(keys, descending, last, x);
        let inner = inserted(keys, descending, front, x);
        assert(order =~= front.push(last));
        assert forall|p: int| #[trigger] result.contains(p) <==> order.contains(p) || p == x by {
            contains_push(inner, last, p);
            contains_push(front, last, p);
            assert(inner.contains(p) <==> front.contains(p) || p == x);
        }
        assert forall|a: int, b: int| 0 <= a < b < result.len() implies precedes(
            keys,
            descending,
            #[trigger] result[a],
            #[trigger] result[b],
        ) by {
            if b == inner.len() {
                assert(inner.contains(inner[a]));
                if inner[a] != x {
                    assert(front.contains(inner[a]));
                    let k = choose|k: int| 0 <= k < front.len() && front[k] == inner[a];
                    assert(order[k] == inner[a]);
                    assert(precedes(keys, descending, order[k], order[order.len() - 1]));
                }
            }
        }
    }
}

proof fn some_order(keys: Seq<Seq<u64>>, descending: bool) -> (order: Seq<int>)
    ensures
        is_order(keys, descending, order),
    decreases keys.len(),
{
    if keys.len() == 0 {
        Seq::empty()
    } else {
        let front = keys.drop_last();
        let size = front.len() as int;
        let earlier = some_order(front, descending);
        assert forall|a: int, b: int| 0 <= a < b < earlier.len() implies precedes(
            keys,
            descending,
            #[trigger] earlier[a],
            #[trigger] earlier[b],
        ) by {
            assert(earlier.contains(earlier[a]));
            assert(earlier.contains(earlier[b]));
            assert(precedes(front, descending, earlier[a], earlier[b]));
        }
        assert(!earlier.contains(size));
        insertion_keeps_sequence(keys, descending, earlier, size);
        let order = inserted(keys, descending, earlier, size);
        assert forall|i: int| 0 <= i < keys.len() <==> #[trigger] order.contains(i) by {
            assert(earlier.contains(i) <==> 0 <= i < front.len());
        }
        order
    }
}

/// Items with any keys can be put in order.
pub proof fn order_exists(keys: Seq<Seq<u64>>, descending: bool)
    ensures
        is_order(keys, descending, sorted_order(keys, descending)),
{
    let order = some_order(keys, descending);
    order_is_unique(keys, descending, order);
}

/// The numbers of keys.
pub open spec fn key_rows(keys: Seq<Vec<u64>>) -> Seq<Seq<u64>> {
    keys.map_values(|key: Vec<u64>| key@)
}

/// The positions in a vector.
pub open spec fn positions(order: Seq<usize>) -> Seq<int> {
    order.map_values(|i: usize| i as int)
}

/// Whether one key stands before another.
pub fn key_before(a: &Vec<u64>, b: &Vec<u64>) -> (yes: bool)
    ensures
        yes == before(a@, b@),
{
    let mut i: usize = 0;
    assert(a@.skip(0) =~= a@);
    assert(b@.skip(0) =~= b@);
    while i < a.len() && i < b.len() && a[i] == b[i]
        invariant
            i <= a@.len(),
            i <= b@.len(),
            before(a@.skip(i as int), b@.skip(i as int)) == before(a@, b@),
        decreases a@.len() - i,
    {
        assert(a@.skip(i as int).drop_first() =~= a@.skip(i + 1));
        assert(b@.skip(i as int).drop_first() =~= b@.skip(i + 1));
        i += 1;
    }
    if i >= b.len() {
        false
    } else if i >= a.len() {
        true
    } else {
        a[i] < b[i]
    }
}

fn comes_first(keys: &Vec<Vec<u64>>, descending: bool, i: usize, j: usize) -> (yes: bool)
    requires
        i < keys@.len(),
        j < keys@.len(),
    ensures
        yes == precedes(key_rows(keys@), descending, i as int, j as int),
{
    proof {
        assert(key_rows(keys@)[i as int] == keys@[i as int]@);
        assert(key_rows(keys@)[j as int] == keys@[j as int]@);
        before_is_total(keys@[i as int]@, keys@[j as int]@);
        before_is_irreflexive(keys@[i as int]@);
        if before(keys@[i as int]@, keys@[j as int]@) && before(keys@[j as int]@, keys@[i as int]@) {
            before_is_transitive(keys@[i as int]@, keys@[j as int]@, keys@[i as int]@);
        }
    }
    if key_before(&keys[i], &keys[j]) {
        !descending
    } else if key_before(&keys[j], &keys[i]) {
        descending
    } else {
        i < j
    }
}

spec fn within(order: Seq<int>, low: int, high: int) -> bool {
    forall|i: int| low <= i < high <==> #[trigger] order.contains(i)
}

fn merge(
    keys: &Vec<Vec<u64>>,
    descending: bool,
    left: &Vec<usize>,
    right: &Vec<usize>,
    low: usize,
    middle: usize,
    high: usize,
) -> (order: Vec<usize>)
    requires
        low <= middle <= high <= keys@.len(),
        left@.len() == middle - low,
        right@.len() == high - middle,
        within(positions(left@), low as int, middle as int),
        within(positions(right@), middle as int, high as int),
        in_sequence(key_rows(keys@), descending, positions(left@)),
        in_sequence(key_rows(keys@), descending, positions(right@)),
    ensures
        order@.len() == high - low,
        within(positions(order@), low as int, high as int),
        in_sequence(key_rows(keys@), descending, positions(order@)),
{
    let ghost all = key_rows(keys@);
    let ghost l = positions(left@);
    let ghost r = positions(right@);
    let mut order: Vec<usize> = Vec::new();
    let mut i: usize = 0;
    let mut j: usize = 0;
    while i < left.len() || j < right.len()
        invariant
            low <= middle <= high <= keys@.len(),
            left@.len() == middle - low,
            right@.len() == high - middle,
            i <= left@.len(),
            j <= right@.len(),
            order@.len() == i + j,
            all == key_rows(keys@),
            l == positions(left@),
            r == positions(right@),
            within(l, low as int, middle as int),
            within(r, middle as int, high as int),
            in_sequence(all, descending, l),
            in_sequence(all, descending, r),
            in_sequence(all, descending, positions(order@)),
            forall|p: int| #[trigger]
                positions(order@).contains(p) <==> l.take(i as int).contains(p) || r.take(
                    j as int,
                ).contains(p),
            forall|a: int, b: int|
                0 <= a < order@.len() && i <= b < l.len() ==> precedes(
                    all,
                    descending,
                    #[trigger] positions(order@)[a],
                    #[trigger] l[b],
                ),
            forall|a: int, b: int|
                0 <= a < order@.len() && j <= b < r.len() ==> precedes(
                    all,
                    descending,
                    #[trigger] positions(order@)[a],
                    #[trigger] r[b],
                ),
        decreases left@.len() + right@.len() - i - j,
    {
        let ghost done = positions(order@);
        proof {
            if i < left@.len() {
                assert(l.contains(l[i as int]));
                assert(l[i as int] == left@[i as int]);
            }
            if j < right@.len() {
                assert(r.contains(r[j as int]));
                assert(r[j as int] == right@[j as int]);
            }
        }
        let from_left = j >= right.len() || (i < left.len() && comes_first(
            keys,
            descending,
            left[i],
            right[j],
        ));
        if from_left {
            order.push(left[i]);
            proof {
                assert(positions(order@) =~= done.push(l[i as int]));
                assert(l.take(i + 1) =~= l.take(i as int).push(l[i as int]));
                assert forall|p: int| #[trigger]
                    positions(order@).contains(p) <==> l.take(i + 1).contains(p) || r.take(
                        j as int,
                    ).contains(p) by {
                    contains_push(done, l[i as int], p);
                    contains_push(l.take(i as int), l[i as int], p);
                }
                assert forall|a: int, b: int|
                    0 <= a < order@.len() && j <= b < r.len() implies precedes(
                    all,
                    descending,
                    #[trigger] positions(order@)[a],
                    #[trigger] r[b],
                ) by {
                    if a == done.len() && b > j {
                        precedes_is_transitive(all, descending, l[i as int], r[j as int], r[b]);
                    }
                }
            }
            i += 1;
        } else {
            proof {
                if i < left@.len() {
                    precedes_either_way(all, descending, l[i as int], r[j as int]);
                }
            }
            order.push(right[j]);
            proof {
                assert(positions(order@) =~= done.push(r[j as int]));
                assert(r.take(j + 1) =~= r.take(j as int).push(r[j as int]));
                assert forall|p: int| #[trigger]
                    positions(order@).contains(p) <==> l.take(i as int).contains(p) || r.take(
                        j + 1,
                    ).contains(p) by {
                    contains_push(done, r[j as int], p);
                    contains_push(r.take(j as int), r[j as int], p);
                }
                assert forall|a: int, b: int|
                    0 <= a < order@.len() && i <= b < l.len() implies precedes(
                    all,
                    descending,
                    #[trigger] positions(order@)[a],
                    #[trigger] l[b],
                ) by {
                    if a == done.len() && b > i {
                        precedes_is_transitive(all, descending, r[j as int], l[i as int], l[b]);
                    }
                }
            }
            j += 1;
        }
    }
    proof {
        assert(l.take(i as int) =~= l);
        assert(r.take(j as int) =~= r);
        assert forall|p: int| low <= p < high <==> #[trigger] positions(order@).contains(p) by {
            assert(l.contains(p) <==> low <= p < middle);
            assert(r.contains(p) <==> middle <= p < high);
        }
    }
    order
}

proof fn contains_push(list: Seq<int>, x: int, p: int)
    ensures
        list.push(x).contains(p) <==> list.contains(p) || p == x,
{
    if list.contains(p) {
        let k = choose|k: int| 0 <= k < list.len() && list[k] == p;
        assert(list.push(x)[k] == p);
    }
    assert(list.push(x)[list.len() as int] == x);
}

fn order_between(keys: &Vec<Vec<u64>>, descending: bool, low: usize, high: usize) -> (order: Vec<
    usize,
>)
    requires
        low <= high <= keys@.len(),
    ensures
        order@.len() == high - low,
        within(positions(order@), low as int, high as int),
        in_sequence(key_rows(keys@), descending, positions(order@)),
    decreases high - low,
{
    if high - low <= 1 {
        let mut order: Vec<usize> = Vec::new();
        if low < high {
            order.push(low);
            assert(positions(order@)[0] == low);
        }
        assert forall|p: int| low <= p < high <==> #[trigger] positions(order@).contains(p) by {
            if low < high {
                assert(positions(order@)[0] == low);
            }
        }
        return order;
    }
    let middle: usize = low + (high - low) / 2;
    let left = order_between(keys, descending, low, middle);
    let right = order_between(keys, descending, middle, high);
    merge(keys, descending, &left, &right, low, middle, high)
}

/// The order in which the items with the given keys come.
pub fn stable_order(keys: &Vec<Vec<u64>>, descending: bool) -> (order: Vec<usize>)
    ensures
        positions(order@) == sorted_order(key_rows(keys@), descending),
        is_order(key_rows(keys@), descending, positions(order@)),
{
    let order = order_between(keys, descending, 0, keys.len());
    proof {
        assert(is_order(key_rows(keys@), descending, positions(order@)));
        order_is_unique(key_rows(keys@), descending, positions(order@));
    }
    order
}

/// The items sorted by their keys.
pub fn stable_sort<T>(items: Vec<T>, keys: &Vec<Vec<u64>>, descending: bool) -> (sorted: Vec<T>)
    requires
        items@.len() == keys@.len(),
    ensures
        sorted@ == sorted_by(items@, key_rows(keys@), descending),
        sorted@.len() == items@.len(),
{
    let order = stable_order(keys, descending);
    let ghost all = items@;
    let ghost places = positions(order@);
    let mut slots: Vec<Option<T>> = Vec::new();
    for item in it: items
        invariant
            slots@.len() == it.index(),
            it.seq() == all,
            forall|k: int| 0 <= k < slots@.len() ==> #[trigger] slots@[k] == Some(all[k]),
    {
        slots.push(Some(item));
    }
    let mut sorted: Vec<T> = Vec::new();
    let mut i: usize = 0;
    assert forall|k: int| 0 <= k < places.len() implies slots@[#[trigger] places[k]] == Some(
        all[places[k]],
    ) by {
        assert(places.contains(places[k]));
    }
    while i < order.len()
        invariant
            i <= order@.len(),
            places == positions(order@),
            slots@.len() == all.len(),
            all.len() == keys@.len(),
            is_order(key_rows(keys@), descending, places),
            sorted@ == arranged(all, places).take(i as int),
            forall|k: int|
                i <= k < places.len() ==> slots@[#[trigger] places[k]] == Some(all[places[k]]),
        decreases order@.len() - i,
    {
        assert(places.contains(places[i as int]));
        assert(places[i as int] == order@[i as int]);
        let item = slots[order[i]].take();
        if let Some(value) = item {
            sorted.push(value);
        }
        proof {
            assert(sorted@ =~= arranged(all, places).take(i + 1));
            assert forall|k: int| i + 1 <= k < places.len() implies slots@[#[trigger] places[k]]
                == Some(all[places[k]]) by {
                precedes_one_way(key_rows(keys@), descending, places[i as int], places[k]);
                assert(places.contains(places[k]));
            }
        }
        i += 1;
    }
    assert(sorted@ =~= arranged(all, places));
    sorted
}

/// A key that comes first is not later than one that follows.
pub open spec fn keys_in_order(first: Seq<u64>, later: Seq<u64>, descending: bool) -> bool {
    if descending {
        !before(first, later)
    } else {
        !before(later, first)
    }
}

/// Sorting is a rearrangement by key that keeps the order of equals: the item
/// that stood at place `i` comes at exactly one place of the result; of two
/// items of the result the first has no later key, and where their keys are
/// equal it was the first before.
pub proof fn sorting_rearranges<T>(
    items: Seq<T>,
    keys: Seq<Seq<u64>>,
    descending: bool,
    i: int,
    a: int,
    b: int,
)
    requires
        items.len() == keys.len(),
        0 <= i < items.len(),
        0 <= a < b < items.len(),
    ensures
        ({
            let order = sorted_order(keys, descending);
            let sorted = sorted_by(items, keys, descending);
            &&& sorted.len() == items.len()
            &&& exists|k: int| 0 <= k < items.len() && #[trigger] order[k] == i && sorted[k] == items[i]
            &&& sorted[a] == items[order[a]]
            &&& sorted[b] == items[order[b]]
            &&& 0 <= order[a] < items.len()
            &&& 0 <= order[b] < items.len()
            &&& order[a] != order[b]
            &&& keys_in_order(keys[order[a]], keys[order[b]], descending)
            &&& keys[order[a]] == keys[order[b]] ==> order[a] < order[b]
        }),
{
    let order = sorted_order(keys, descending);
    order_exists(keys, descending);
    assert(order.contains(i));
    let k = choose|k: int| 0 <= k < order.len() && order[k] == i;
    assert(sorted_by(items, keys, descending)[k] == items[i]);
    let first = order[a];
    let later = order[b];
    assert(order.contains(first));
    assert(order.contains(later));
    assert(precedes(keys, descending, first, later));
    precedes_one_way(keys, descending, first, later);
    before_is_irreflexive(keys[first]);
    if keys[first] != keys[later] && before(keys[first], keys[later]) && before(
        keys[later],
        keys[first],
    ) {
        before_is_transitive(keys[first], keys[later], keys[first]);
    }
}

/// One text comes before another in the order of the dictionary: at the first
/// place at which they differ it has the smaller character, or it ends there.
pub open spec fn text_before(a: Seq<char>, b: Seq<char>) -> bool {
    exists|k: int|
        0 <= k <= a.len() && k < b.len() && #[trigger] a.take(k) == b.take(k) && (k == a.len()
            || a[k] < b[k])
}

/// Numbers come by size, and texts in the order of the dictionary.
pub proof fn keys_mean_what_they_are_made_of(m: u64, n: u64, a: Seq<char>, b: Seq<char>)
    ensures
        before(number_key(m), number_key(n)) <==> m < n,
        number_key(m) == number_key(n) <==> m == n,
        before(text_key(a), text_key(b)) ==> text_before(a, b),
        text_key(a) == text_key(b) <==> a == b,
{
    reveal_with_fuel(before, 2);
    assert(number_key(m)[0] == m && number_key(n)[0] == n);
    assert(number_key(m).drop_first() =~= Seq::empty());
    assert(number_key(n).drop_first() =~= Seq::empty());
    if before(text_key(a), text_key(b)) {
        texts_differ_somewhere(a, b);
    }
    if text_key(a) == text_key(b) {
        assert(text_key(a).len() == text_key(b).len());
        assert forall|i: int| 0 <= i < a.len() implies a[i] == b[i] by {
            assert(text_key(a)[i] == text_key(b)[i]);
            characters_have_numbers(a[i], b[i]);
        }
        assert(a =~= b);
    }
}

proof fn characters_have_numbers(x: char, y: char)
    ensures
        x as u64 == x as int,
        y as u64 == y as int,
        (x as u64) < (y as u64) <==> x < y,
        x as u64 == y as u64 <==> x == y,
{
}

proof fn texts_differ_somewhere(a: Seq<char>, b: Seq<char>)
    requires
        before(text_key(a), text_key(b)),
    ensures
        text_before(a, b),
    decreases a.len(),
{
    let none: int = 0;
    if a.len() > 0 {
        characters_have_numbers(a[0], b[0]);
    }
    if a.len() == 0 {
        assert(a.take(none) =~= b.take(none));
    } else if a[0] != b[0] {
        assert(text_key(a)[0] == a[0] as u64);
        assert(text_key(b)[0] == b[0] as u64);
        assert(a.take(none) =~= b.take(none));
    } else {
        assert(text_key(a)[0] == a[0] as u64);
        assert(text_key(b)[0] == b[0] as u64);
        let c = a.drop_first();
        let d = b.drop_first();
        assert(text_key(a).drop_first() =~= text_key(c));
        assert(text_key(b).drop_first() =~= text_key(d));
        texts_differ_somewhere(c, d);
        let k = choose|k: int|
            0 <= k <= c.len() && k < d.len() && #[trigger] c.take(k) == d.take(k) && (k == c.len()
                || c[k] < d[k]);
        assert forall|i: int| 0 <= i < k + 1 implies a[i] == b[i] by {
            if i > 0 {
                assert(c.take(k)[i - 1] == d.take(k)[i - 1]);
            }
        }
        assert(a.take(k + 1) =~= b.take(k + 1));
        assert(k + 1 < a.len() ==> a[k + 1] == c[k]);
        assert(b[k + 1] == d[k]);
    }
}

/// The list holds items from the places that `places` names, no place twice.
pub open spec fn is_drawn_from<T>(list: Seq<T>, items: Seq<T>, places: Seq<int>) -> bool {
    &&& list.len() == places.len()
    &&& places.no_duplicates()
    &&& forall|k: int|
        0 <= k < places.len() ==> 0 <= #[trigger] places[k] < items.len() && list[k]
            == items[places[k]]
}

/// The list is the best of the items by the measure, the most first; of equal
/// ones it has the one that came first, before the others.
pub open spec fn is_top_by<T>(
    list: Seq<T>,
    items: Seq<T>,
    measure: spec_fn(T) -> int,
    places: Seq<int>,
) -> bool {
    &&& is_drawn_from(list, items, places)
    &&& forall|a: int, b: int|
        0 <= a < b < list.len() ==> {
            let first = measure(items[#[trigger] places[a]]);
            let later = measure(items[#[trigger] places[b]]);
            first > later || (first == later && places[a] < places[b])
        }
    &&& forall|k: int, j: int|
        0 <= k < list.len() && 0 <= j < items.len() && !#[trigger] places.contains(j) ==> {
            let first = measure(items[#[trigger] places[k]]);
            first > measure(items[j]) || (first == measure(items[j]) && places[k] < j)
        }
}

/// Sorting by falling numbers and keeping the first `n` gives the `n` items
/// with the largest numbers.
pub proof fn fronts_are_the_best<T>(
    items: Seq<T>,
    keys: Seq<Seq<u64>>,
    measure: spec_fn(T) -> int,
    n: int,
)
    requires
        items.len() == keys.len(),
        0 <= n <= items.len(),
        forall|i: int|
            0 <= i < items.len() ==> 0 <= measure(#[trigger] items[i]) <= u64::MAX && keys[i]
                == number_key(measure(items[i]) as u64),
    ensures
        is_top_by(
            sorted_by(items, keys, true).take(n),
            items,
            measure,
            sorted_order(keys, true).take(n),
        ),
{
    let order = sorted_order(keys, true);
    let sorted = sorted_by(items, keys, true);
    let places = order.take(n);
    order_exists(keys, true);
    orders_have_no_doubles(keys, true, order);
    let list = sorted.take(n);
    assert forall|k: int| 0 <= k < places.len() implies 0 <= #[trigger] places[k] < items.len()
        && list[k] == items[places[k]] by {
        assert(order.contains(order[k]));
    }
    assert(places.no_duplicates()) by {
        assert forall|i: int, j: int|
            0 <= i < places.len() && 0 <= j < places.len() && i != j implies places[i]
            != places[j] by {
            assert(order[i] != order[j]);
        }
    }
    assert forall|a: int, b: int| 0 <= a < b < list.len() implies ({
        let first = measure(items[#[trigger] places[a]]);
        let later = measure(items[#[trigger] places[b]]);
        first > later || (first == later && places[a] < places[b])
    }) by {
        assert(order.contains(order[a]));
        assert(order.contains(order[b]));
        precedence_by_number(items, keys, measure, order[a], order[b]);
    }
    assert forall|k: int, j: int|
        0 <= k < list.len() && 0 <= j < items.len() && !#[trigger] places.contains(j) implies ({
        let first = measure(items[#[trigger] places[k]]);
        first > measure(items[j]) || (first == measure(items[j]) && places[k] < j)
    }) by {
        assert(order.contains(j));
        let m = choose|m: int| 0 <= m < order.len() && order[m] == j;
        if m < n {
            assert(places[m] == j);
        }
        assert(order.contains(order[k]));
        precedence_by_number(items, keys, measure, order[k], order[m]);
    }
}

proof fn precedence_by_number<T>(
    items: Seq<T>,
    keys: Seq<Seq<u64>>,
    measure: spec_fn(T) -> int,
    i: int,
    j: int,
)
    requires
        items.len() == keys.len(),
        0 <= i < items.len(),
        0 <= j < items.len(),
        precedes(keys, true, i, j),
        forall|k: int|
            0 <= k < items.len() ==> 0 <= measure(#[trigger] items[k]) <= u64::MAX && keys[k]
                == number_key(measure(items[k]) as u64),
    ensures
        measure(items[i]) > measure(items[j]) || (measure(items[i]) == measure(items[j]) && i < j),
{
    let none = Seq::<char>::empty();
    keys_mean_what_they_are_made_of(
        measure(items[j]) as u64,
        measure(items[i]) as u64,
        none,
        none,
    );
}

/// No place is listed twice in an order.
pub proof fn orders_have_no_doubles(keys: Seq<Seq<u64>>, descending: bool, order: Seq<int>)
    requires
        is_order(keys, descending, order),
    ensures
        order.no_duplicates(),
{
    assert forall|i: int, j: int|
        0 <= i < order.len() && 0 <= j < order.len() && i != j implies order[i] != order[j] by {
        if i < j {
            precedes_one_way(keys, descending, order[i], order[j]);
        } else {
            precedes_one_way(keys, descending, order[j], order[i]);
        }
    }
}

/// Sorting loses nothing and adds nothing: the sorted list is drawn from the
/// items, and has as many.
pub proof fn sorting_loses_nothing<T>(items: Seq<T>, keys: Seq<Seq<u64>>, descending: bool)
    requires
        items.len() == keys.len(),
    ensures
        is_drawn_from(
            sorted_by(items, keys, descending),
            items,
            sorted_order(keys, descending),
        ),
        sorted_by(items, keys, descending).len() == items.len(),
        in_sequence(keys, descending, sorted_order(keys, descending)),
{
    let order = sorted_order(keys, descending);
    order_exists(keys, descending);
    orders_have_no_doubles(keys, descending, order);
    assert forall|k: int| 0 <= k < order.len() implies 0 <= #[trigger] order[k] < items.len()
        && sorted_by(items, keys, descending)[k] == items[order[k]] by {
        assert(order.contains(order[k]));
    }
}

} // verus!
