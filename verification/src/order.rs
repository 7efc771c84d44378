//! Putting things in the order of their dates.

use crate::time;
use crate::time::Timestamp;
use vstd::prelude::*;

verus! {

/// What may have a date.
pub trait Dated: Sized {
    /// The date.
    spec fn date(self) -> Option<Timestamp>;
}

/// Those of `items` with a given date.
pub open spec fn dated<V: Dated>(items: Seq<V>, date: Option<Timestamp>) -> Seq<V>
    decreases items.len(),
{
    if items.len() == 0 {
        Seq::empty()
    } else if items.last().date() == date {
        dated(items.drop_last(), date).push(items.last())
    } else {
        dated(items.drop_last(), date)
    }
}

/// Whether `a` stands before `b`. What has no date counts as earlier than what has one.
pub open spec fn goes_before(
    a: Option<Timestamp>,
    b: Option<Timestamp>,
    latest_first: bool,
) -> bool {
    if latest_first {
        time::is_before_opt(b, a)
    } else {
        time::is_before_opt(a, b)
    }
}

/// Whether no item stands after one that it goes before.
pub open spec fn in_order<V: Dated>(items: Seq<V>, latest_first: bool) -> bool {
    forall|i: int, j: int|
        0 <= i < j < items.len() ==> !goes_before(
            (#[trigger] items[j]).date(),
            (#[trigger] items[i]).date(),
            latest_first,
        )
}

/// Whether `ordered` is `items` in the order of their dates, those of one date as they stand in
/// `items`.
pub open spec fn is_ordered<V: Dated>(
    items: Seq<V>,
    ordered: Seq<V>,
    latest_first: bool,
) -> bool {
    &&& in_order(ordered, latest_first)
    &&& forall|date: Option<Timestamp>| #[trigger] dated(ordered, date) == dated(items, date)
}

/// The items of a date in two sequences in a row.
proof fn lemma_dated_concat<V: Dated>(a: Seq<V>, b: Seq<V>, date: Option<Timestamp>)
    ensures
        dated(a + b, date) == dated(a, date) + dated(b, date),
    decreases b.len(),
{
    if b.len() == 0 {
        assert(a + b == a);
        assert(dated(a, date) + dated(b, date) == dated(a, date));
    } else {
        lemma_dated_concat(a, b.drop_last(), date);
        assert((a + b).drop_last() == a + b.drop_last());
        assert((a + b).last() == b.last());
        if b.last().date() == date {
            assert(dated(a, date) + dated(b.drop_last(), date).push(b.last()) == (dated(a, date)
                + dated(b.drop_last(), date)).push(b.last()));
        }
    }
}

/// Items none of which has a date.
proof fn lemma_dated_none<V: Dated>(items: Seq<V>, date: Option<Timestamp>)
    requires
        forall|i: int| 0 <= i < items.len() ==> (#[trigger] items[i]).date() != date,
    ensures
        dated(items, date) == Seq::<V>::empty(),
    decreases items.len(),
{
    if items.len() > 0 {
        assert forall|i: int| 0 <= i < items.drop_last().len() implies (
        #[trigger] items.drop_last()[i]).date() != date by {
            assert(items.drop_last()[i] == items[i]);
        }
        lemma_dated_none(items.drop_last(), date);
        assert(items[items.len() - 1].date() != date);
    }
}

/// An item that is inserted before all that it goes before, and after the others, keeps the order.
pub proof fn lemma_insert_in_order<V: Dated>(
    items: Seq<V>,
    ordered: Seq<V>,
    item: V,
    at: int,
    latest_first: bool,
)
    requires
        is_ordered(items, ordered, latest_first),
        0 <= at <= ordered.len(),
        at > 0 ==> !goes_before(item.date(), ordered[at - 1].date(), latest_first),
        forall|j: int|
            at <= j < ordered.len() ==> goes_before(
                item.date(),
                (#[trigger] ordered[j]).date(),
                latest_first,
            ),
    ensures
        is_ordered(items.push(item), ordered.insert(at, item), latest_first),
{
    let after = ordered.insert(at, item);
    let head = ordered.take(at);
    let tail = ordered.skip(at);
    assert(after == head + seq![item] + tail);
    assert forall|d: Option<Timestamp>| #[trigger] dated(after, d) == dated(
        items.push(item),
        d,
    ) by {
        lemma_dated_concat(head + seq![item], tail, d);
        lemma_dated_concat(head, seq![item], d);
        assert(ordered == head + tail);
        lemma_dated_concat(head, tail, d);
        assert(dated(ordered, d) == dated(items, d));
        assert(items.push(item).drop_last() == items);
        if d == item.date() {
            assert forall|i: int| 0 <= i < tail.len() implies (#[trigger] tail[i]).date() != d by {
                assert(tail[i] == ordered[at + i]);
            }
            lemma_dated_none(tail, d);
        }
        reveal_with_fuel(dated, 2);
        assert(seq![item].drop_last() == Seq::<V>::empty());
        assert(dated(after, d) =~= dated(items.push(item), d));
    }
    assert(in_order(after, latest_first));
}

/// There is only one way to put items in the order of their dates.
pub proof fn order_is_unique<V: Dated>(
    items: Seq<V>,
    first: Seq<V>,
    second: Seq<V>,
    latest_first: bool,
)
    requires
        is_ordered(items, first, latest_first),
        is_ordered(items, second, latest_first),
    ensures
        first == second,
    decreases first.len(),
{
    assert forall|d: Option<Timestamp>| #[trigger] dated(first, d) == dated(second, d) by {
        assert(dated(first, d) == dated(items, d));
    }
    if first.len() == 0 {
        if second.len() > 0 {
            let d = second.last().date();
            assert(dated(second, d).len() > 0);
            assert(dated(first, d).len() == 0);
        }
        assert(first == second);
    } else {
        let d = first.last().date();
        assert(dated(first, d).len() > 0);
        assert(dated(second, d).len() > 0);
        assert(second.len() > 0);
        let e = second.last().date();
        assert(dated(second, e).len() > 0);
        assert(dated(first, e).len() > 0);
        if d != e {
            lemma_has_date(first, e);
            lemma_has_date(second, d);
            let i = choose|i: int| 0 <= i < first.len() && (#[trigger] first[i]).date() == e;
            let j = choose|j: int| 0 <= j < second.len() && (#[trigger] second[j]).date() == d;
            assert(!goes_before(first[first.len() - 1].date(), first[i].date(), latest_first));
            assert(!goes_before(second[second.len() - 1].date(), second[j].date(), latest_first));
            assert(false);
        }
        assert(dated(first, d).last() == first.last());
        assert(dated(second, d).last() == second.last());
        assert forall|date: Option<Timestamp>| #[trigger]
            dated(second.drop_last(), date) == dated(first.drop_last(), date) by {
            assert(dated(first, date) == dated(second, date));
            if date == d {
                assert(dated(first, date).drop_last() == dated(first.drop_last(), date));
                assert(dated(second, date).drop_last() == dated(second.drop_last(), date));
            }
        }
        assert(in_order(first.drop_last(), latest_first)) by {
            assert forall|i: int, j: int| 0 <= i < j < first.len() - 1 implies !goes_before(
                (#[trigger] first.drop_last()[j]).date(),
                (#[trigger] first.drop_last()[i]).date(),
                latest_first,
            ) by {
                assert(first.drop_last()[i] == first[i] && first.drop_last()[j] == first[j]);
            }
        }
        assert(in_order(second.drop_last(), latest_first)) by {
            assert forall|i: int, j: int| 0 <= i < j < second.len() - 1 implies !goes_before(
                (#[trigger] second.drop_last()[j]).date(),
                (#[trigger] second.drop_last()[i]).date(),
                latest_first,
            ) by {
                assert(second.drop_last()[i] == second[i] && second.drop_last()[j] == second[j]);
            }
        }
        order_is_unique(first.drop_last(), first.drop_last(), second.drop_last(), latest_first);
        assert(first == first.drop_last().push(first.last()));
        assert(second == second.drop_last().push(second.last()));
    }
}

/// Where there are items of a date, one of the items has it.
proof fn lemma_has_date<V: Dated>(items: Seq<V>, date: Option<Timestamp>)
    requires
        dated(items, date).len() > 0,
    ensures
        exists|i: int| 0 <= i < items.len() && (#[trigger] items[i]).date() == date,
{
    if forall|i: int| 0 <= i < items.len() ==> (#[trigger] items[i]).date() != date {
        lemma_dated_none(items, date);
    }
}

/// An item occurs as often among those of its date as among all.
proof fn lemma_dated_count<V: Dated>(items: Seq<V>, item: V)
    ensures
        items.to_multiset().count(item) == dated(items, item.date()).to_multiset().count(item),
    decreases items.len(),
{
    broadcast use vstd::seq_lib::group_to_multiset_ensures;

    if items.len() > 0 {
        lemma_dated_count(items.drop_last(), item);
        assert(items == items.drop_last().push(items.last()));
    }
}

/// Putting items in order neither adds nor loses any.
pub proof fn order_keeps_all<V: Dated>(items: Seq<V>, ordered: Seq<V>, latest_first: bool)
    requires
        is_ordered(items, ordered, latest_first),
    ensures
        ordered.to_multiset() == items.to_multiset(),
        ordered.len() == items.len(),
{
    broadcast use vstd::seq_lib::group_to_multiset_ensures;

    assert forall|item: V| #[trigger]
        ordered.to_multiset().count(item) == items.to_multiset().count(item) by {
        lemma_dated_count(items, item);
        lemma_dated_count(ordered, item);
        assert(dated(ordered, item.date()) == dated(items, item.date()));
    }
    assert(ordered.to_multiset() =~= items.to_multiset());
    assert(ordered.to_multiset().len() == ordered.len());
    assert(items.to_multiset().len() == items.len());
}

/// Whether `at` are indices into a sequence of `len` items, each after the one before it.
pub open spec fn indices_in_order(at: Seq<int>, len: nat) -> bool {
    &&& forall|k: int| 0 <= k < at.len() ==> 0 <= #[trigger] at[k] < len
    &&& forall|j: int, k: int| 0 <= j < k < at.len() ==> #[trigger] at[j] < #[trigger] at[k]
}

/// Indices in order stay so where the sequence gets one more item, whose index may join them.
pub proof fn lemma_one_more_index(at: Seq<int>, len: nat)
    requires
        indices_in_order(at, len),
    ensures
        indices_in_order(at, len + 1),
        indices_in_order(at.push(len as int), len + 1),
        forall|i: int| #[trigger]
            at.push(len as int).contains(i) <==> at.contains(i) || i == len as int,
{
    let more = at.push(len as int);
    assert forall|i: int| #[trigger] more.contains(i) <==> at.contains(i) || i == len as int by {
        if at.contains(i) {
            let k = choose|k: int| 0 <= k < at.len() && at[k] == i;
            assert(more[k] == i);
        }
        assert(more[at.len() as int] == len as int);
        if more.contains(i) && i != len as int {
            let k = choose|k: int| 0 <= k < more.len() && more[k] == i;
            assert(at[k] == i);
        }
    }
}

/// Whether a date comes first is a matter of the times: the later one does where the latest comes
/// first, and the earlier one elsewhere. What has no date is earlier than what has one.
pub proof fn dates_decide(a: Option<Timestamp>, b: Option<Timestamp>)
    ensures
        goes_before(a, b, false) == match (a, b) {
            (Some(x), Some(y)) => x.secs < y.secs || (x.secs == y.secs && x.nanos < y.nanos),
            (None, Some(_)) => true,
            (_, None) => false,
        },
        goes_before(a, b, true) == goes_before(b, a, false),
{
}

/// An item stands among those of its date, after those before it and before those after it, and
/// not among those of another date.
pub proof fn dated_item_by_item<V: Dated>(
    before: Seq<V>,
    item: V,
    after: Seq<V>,
    date: Option<Timestamp>,
)
    ensures
        dated(before + seq![item] + after, date) == dated(before, date) + (if item.date() == date {
            seq![item]
        } else {
            Seq::empty()
        }) + dated(after, date),
{
    lemma_dated_concat(before + seq![item], after, date);
    lemma_dated_concat(before, seq![item], date);
    reveal_with_fuel(dated, 2);
    assert(seq![item].drop_last() == Seq::<V>::empty());
    assert(dated(seq![item], date) =~= if item.date() == date {
        seq![item]
    } else {
        Seq::empty()
    });
}

} // verus!
