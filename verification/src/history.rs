//! The mathematical model of the bounded history: what a batch of candidate
//! items does to a recency-ordered sequence of records, and the laws that
//! follow.
//!
//! A history is a `Seq<HnItemView>` with the most recently added record at
//! index 0. Two records are the same item when their GUIDs are equal.

use crate::models::HnItemView;
use vstd::prelude::*;

verus! {

/// The most records a history keeps once a batch has been absorbed.
pub const CAPACITY: usize = 100;

/// Some record of `order` carries the identity `guid`.
pub open spec fn remembers(order: Seq<HnItemView>, guid: Seq<char>) -> bool {
    exists|i: int| 0 <= i < order.len() && (#[trigger] order[i]).guid == guid
}

/// The identities that `order` holds, as a set.
pub open spec fn seen(order: Seq<HnItemView>) -> Set<Seq<char>> {
    Set::new(|guid: Seq<char>| remembers(order, guid))
}

/// No identity occurs twice in `order`.
pub open spec fn distinct(order: Seq<HnItemView>) -> bool {
    forall|i: int, j: int|
        0 <= i < j < order.len() ==> (#[trigger] order[i]).guid != (#[trigger] order[j]).guid
}

/// The history after one record has been offered: a known identity changes
/// nothing, an unknown one goes to the front.
pub open spec fn offered(order: Seq<HnItemView>, item: HnItemView) -> Seq<HnItemView> {
    if remembers(order, item.guid) {
        order
    } else {
        seq![item] + order
    }
}

/// The record at position `i` of `batch` is new to a history `order`: its
/// identity is neither in `order` nor earlier in the batch.
pub open spec fn first_sighting(order: Seq<HnItemView>, batch: Seq<HnItemView>, i: int) -> bool {
    &&& 0 <= i < batch.len()
    &&& !remembers(order, batch[i].guid)
    &&& forall|j: int| 0 <= j < i ==> (#[trigger] batch[j]).guid != batch[i].guid
}

/// The new records among the first `n` of `batch`, in batch order.
pub open spec fn fresh_prefix(order: Seq<HnItemView>, batch: Seq<HnItemView>, n: int) -> Seq<
    HnItemView,
>
    decreases n,
{
    if n <= 0 {
        Seq::empty()
    } else if first_sighting(order, batch, n - 1) {
        fresh_prefix(order, batch, n - 1).push(batch[n - 1])
    } else {
        fresh_prefix(order, batch, n - 1)
    }
}

/// The new records of `batch`, in batch order.
pub open spec fn fresh(order: Seq<HnItemView>, batch: Seq<HnItemView>) -> Seq<HnItemView> {
    fresh_prefix(order, batch, batch.len() as int)
}

/// The history once `batch` has been taken in and before the capacity is
/// enforced: the new records, last one first, in front of what was there.
pub open spec fn absorbed(order: Seq<HnItemView>, batch: Seq<HnItemView>) -> Seq<HnItemView> {
    fresh(order, batch).reverse() + order
}

/// The history cut back to its capacity: the oldest records leave.
pub open spec fn truncated(order: Seq<HnItemView>) -> Seq<HnItemView> {
    if order.len() > CAPACITY {
        order.take(CAPACITY as int)
    } else {
        order
    }
}

/// The history after a whole batch: taken in, then cut back.
pub open spec fn after_batch(order: Seq<HnItemView>, batch: Seq<HnItemView>) -> Seq<HnItemView> {
    truncated(absorbed(order, batch))
}

/// The history once the first `n` records of `batch` have been taken in.
pub open spec fn absorbed_prefix(order: Seq<HnItemView>, batch: Seq<HnItemView>, n: int) -> Seq<
    HnItemView,
> {
    fresh_prefix(order, batch, n).reverse() + order
}

/// Some record among the first `n` of `batch` carries the identity `guid`.
pub open spec fn mentions(batch: Seq<HnItemView>, n: int, guid: Seq<char>) -> bool {
    exists|j: int| 0 <= j < n && j < batch.len() && (#[trigger] batch[j]).guid == guid
}

/// A record put in front is remembered, and nothing else changes.
pub proof fn lemma_front_remembers(order: Seq<HnItemView>, item: HnItemView, guid: Seq<char>)
    ensures
        remembers(seq![item] + order, guid) == (guid == item.guid || remembers(order, guid)),
{
    let longer = seq![item] + order;
    if guid == item.guid {
        assert(longer[0].guid == guid);
    }
    if remembers(order, guid) {
        let i = choose|i: int| 0 <= i < order.len() && (#[trigger] order[i]).guid == guid;
        assert(longer[i + 1] == order[i]);
    }
    if remembers(longer, guid) && guid != item.guid {
        let k = choose|k: int| 0 <= k < longer.len() && (#[trigger] longer[k]).guid == guid;
        assert(longer[k] == order[k - 1]);
    }
}

/// Putting a record in front adds its identity to the set of those seen.
pub proof fn lemma_seen_front(order: Seq<HnItemView>, item: HnItemView)
    ensures
        seen(seq![item] + order) == seen(order).insert(item.guid),
{
    assert forall|guid: Seq<char>|
        seen(seq![item] + order).contains(guid) == seen(order).insert(item.guid).contains(
            guid,
        ) by {
        lemma_front_remembers(order, item, guid);
    }
    assert(seen(seq![item] + order) =~= seen(order).insert(item.guid));
}

/// A record of unknown identity put in front keeps the identities distinct.
pub proof fn lemma_distinct_front(order: Seq<HnItemView>, item: HnItemView)
    requires
        distinct(order),
        !remembers(order, item.guid),
    ensures
        distinct(seq![item] + order),
{
    let longer = seq![item] + order;
    assert forall|i: int, j: int| 0 <= i < j < longer.len() implies (#[trigger] longer[i]).guid != (
    #[trigger] longer[j]).guid by {
        assert(longer[j] == order[j - 1]);
        if i > 0 {
            assert(longer[i] == order[i - 1]);
        }
    }
}

/// Taking the oldest record away removes its identity, and no other.
pub proof fn lemma_seen_drop_last(order: Seq<HnItemView>)
    requires
        distinct(order),
        order.len() > 0,
    ensures
        distinct(order.drop_last()),
        seen(order.drop_last()) == seen(order).remove(order.last().guid),
{
    let shorter = order.drop_last();
    let gone = order.last().guid;
    assert forall|i: int, j: int| 0 <= i < j < shorter.len() implies (#[trigger] shorter[i]).guid
        != (#[trigger] shorter[j]).guid by {
        assert(shorter[i] == order[i]);
        assert(shorter[j] == order[j]);
    }
    assert forall|guid: Seq<char>|
        seen(shorter).contains(guid) == seen(order).remove(gone).contains(guid) by {
        if remembers(shorter, guid) {
            let i = choose|i: int| 0 <= i < shorter.len() && (#[trigger] shorter[i]).guid == guid;
            assert(order[i] == shorter[i]);
            assert(order[order.len() - 1].guid == gone);
        }
        if remembers(order, guid) && guid != gone {
            let i = choose|i: int| 0 <= i < order.len() && (#[trigger] order[i]).guid == guid;
            assert(shorter[i] == order[i]);
        }
    }
    assert(seen(shorter) =~= seen(order).remove(gone));
}

/// With distinct identities there are as many identities as records.
pub proof fn lemma_seen_counts(order: Seq<HnItemView>)
    requires
        distinct(order),
    ensures
        seen(order).finite(),
        seen(order).len() == order.len(),
    decreases order.len(),
{
    if order.len() == 0 {
        assert(seen(order) =~= Set::empty());
    } else {
        let shorter = order.drop_last();
        let gone = order.last().guid;
        lemma_seen_drop_last(order);
        lemma_seen_counts(shorter);
        assert(remembers(order, gone)) by {
            assert(order[order.len() - 1].guid == gone);
        }
        assert(seen(order) =~= seen(shorter).insert(gone));
    }
}

/// Taking in one more record of a batch is offering it to the history so far;
/// it is new exactly when that history does not remember it.
pub proof fn lemma_absorbed_prefix_step(order: Seq<HnItemView>, batch: Seq<HnItemView>, n: int)
    requires
        0 < n <= batch.len(),
    ensures
        first_sighting(order, batch, n - 1) == !remembers(
            absorbed_prefix(order, batch, n - 1),
            batch[n - 1].guid,
        ),
        absorbed_prefix(order, batch, n) == offered(
            absorbed_prefix(order, batch, n - 1),
            batch[n - 1],
        ),
{
    let item = batch[n - 1];
    let before = fresh_prefix(order, batch, n - 1);
    lemma_absorbed_prefix_remembers(order, batch, n - 1, item.guid);
    if first_sighting(order, batch, n - 1) {
        assert(before.push(item).reverse() =~= seq![item] + before.reverse());
        assert(absorbed_prefix(order, batch, n) =~= seq![item] + absorbed_prefix(
            order,
            batch,
            n - 1,
        ));
    }
}

/// What the history remembers once the first `n` records of a batch are in:
/// what it remembered before, and every identity among those records.
pub proof fn lemma_absorbed_prefix_remembers(
    order: Seq<HnItemView>,
    batch: Seq<HnItemView>,
    n: int,
    guid: Seq<char>,
)
    requires
        0 <= n <= batch.len(),
    ensures
        remembers(absorbed_prefix(order, batch, n), guid) == (remembers(order, guid) || mentions(
            batch,
            n,
            guid,
        )),
    decreases n,
{
    if n == 0 {
        assert(absorbed_prefix(order, batch, 0) =~= order);
    } else {
        let item = batch[n - 1];
        let before = fresh_prefix(order, batch, n - 1);
        let so_far = absorbed_prefix(order, batch, n - 1);
        lemma_absorbed_prefix_remembers(order, batch, n - 1, guid);
        lemma_absorbed_prefix_remembers(order, batch, n - 1, item.guid);
        assert(mentions(batch, n, guid) == (mentions(batch, n - 1, guid) || item.guid == guid)) by {
            if mentions(batch, n, guid) {
                let j = choose|j: int|
                    0 <= j < n && j < batch.len() && (#[trigger] batch[j]).guid == guid;
                if j < n - 1 {
                    assert(batch[j].guid == guid);
                }
            }
            if mentions(batch, n - 1, guid) {
                let j = choose|j: int|
                    0 <= j < n - 1 && j < batch.len() && (#[trigger] batch[j]).guid == guid;
                assert(batch[j].guid == guid);
            }
            if item.guid == guid {
                assert(batch[n - 1].guid == guid);
            }
        }
        if first_sighting(order, batch, n - 1) {
            assert(before.push(item).reverse() =~= seq![item] + before.reverse());
            assert(absorbed_prefix(order, batch, n) =~= seq![item] + so_far);
            lemma_front_remembers(so_far, item, guid);
        } else {
            assert(remembers(order, item.guid) || mentions(batch, n - 1, item.guid)) by {
                if !remembers(order, item.guid) {
                    let j = choose|j: int| 0 <= j < n - 1 && (#[trigger] batch[j]).guid == item.guid;
                    assert(batch[j].guid == item.guid);
                }
            }
        }
    }
}

/// The history after a sequence of batches, each handled by one call.
pub open spec fn after_batches(order: Seq<HnItemView>, batches: Seq<Seq<HnItemView>>) -> Seq<
    HnItemView,
>
    decreases batches.len(),
{
    if batches.len() == 0 {
        order
    } else {
        after_batch(after_batches(order, batches.drop_last()), batches.last())
    }
}

/// Every record that a sequence of calls reported as new, the latest first.
pub open spec fn reported(order: Seq<HnItemView>, batches: Seq<Seq<HnItemView>>) -> Seq<
    HnItemView,
>
    decreases batches.len(),
{
    if batches.len() == 0 {
        Seq::empty()
    } else {
        fresh(after_batches(order, batches.drop_last()), batches.last()).reverse() + reported(
            order,
            batches.drop_last(),
        )
    }
}

/// Taking in part of a batch keeps the identities distinct.
proof fn lemma_absorbed_prefix_distinct(order: Seq<HnItemView>, batch: Seq<HnItemView>, n: int)
    requires
        distinct(order),
        0 <= n <= batch.len(),
    ensures
        distinct(absorbed_prefix(order, batch, n)),
    decreases n,
{
    if n == 0 {
        assert(absorbed_prefix(order, batch, 0) =~= order);
    } else {
        lemma_absorbed_prefix_distinct(order, batch, n - 1);
        lemma_absorbed_prefix_step(order, batch, n);
        if first_sighting(order, batch, n - 1) {
            lemma_distinct_front(absorbed_prefix(order, batch, n - 1), batch[n - 1]);
        }
    }
}

/// Cutting back keeps the identities distinct and leaves at most `CAPACITY`
/// records.
pub proof fn lemma_truncated_valid(order: Seq<HnItemView>)
    requires
        distinct(order),
    ensures
        distinct(truncated(order)),
        truncated(order).len() <= CAPACITY,
{
    let cut = truncated(order);
    assert forall|i: int, j: int| 0 <= i < j < cut.len() implies (#[trigger] cut[i]).guid != (
    #[trigger] cut[j]).guid by {
        assert(cut[i] == order[i]);
        assert(cut[j] == order[j]);
    }
}

/// One call keeps a history valid, whatever the batch: afterwards no identity
/// occurs twice, there are as many identities as records, and at most
/// `CAPACITY` of them.
pub proof fn lemma_after_batch_valid(order: Seq<HnItemView>, batch: Seq<HnItemView>)
    requires
        distinct(order),
    ensures
        distinct(after_batch(order, batch)),
        seen(after_batch(order, batch)).len() == after_batch(order, batch).len(),
        after_batch(order, batch).len() <= CAPACITY,
{
    lemma_absorbed_prefix_distinct(order, batch, batch.len() as int);
    lemma_truncated_valid(absorbed(order, batch));
    lemma_seen_counts(after_batch(order, batch));
}

/// Any sequence of calls keeps a history valid: at every point no identity
/// occurs twice and there are as many identities as records; after each call
/// there are at most `CAPACITY` records.
pub proof fn lemma_after_batches_valid(order: Seq<HnItemView>, batches: Seq<Seq<HnItemView>>)
    requires
        distinct(order),
    ensures
        distinct(after_batches(order, batches)),
        seen(after_batches(order, batches)).len() == after_batches(order, batches).len(),
        batches.len() > 0 ==> after_batches(order, batches).len() <= CAPACITY,
    decreases batches.len(),
{
    if batches.len() == 0 {
        lemma_seen_counts(order);
    } else {
        lemma_after_batches_valid(order, batches.drop_last());
        lemma_after_batch_valid(after_batches(order, batches.drop_last()), batches.last());
    }
}

/// Cutting back twice is cutting back once: what was cut from the older part
/// would have been cut anyway.
proof fn lemma_truncated_front(newer: Seq<HnItemView>, older: Seq<HnItemView>)
    ensures
        truncated(newer + truncated(older)) == truncated(newer + older),
{
    if older.len() > CAPACITY {
        if newer.len() == 0 {
            assert(newer + truncated(older) =~= truncated(older));
            assert(newer + older =~= older);
        } else {
            assert((newer + truncated(older)).take(CAPACITY as int) =~= (newer + older).take(
                CAPACITY as int,
            ));
        }
    }
}

/// Eviction order: after any sequence of calls, the history is the records
/// reported as new, latest first, in front of those it began with, cut back
/// to `CAPACITY`. Once `CAPACITY` or more records have been reported, it is
/// exactly the `CAPACITY` latest of them, most recent first. (With no call
/// at all, a history is what it began with: the law then asks that this is
/// within the capacity.)
pub proof fn lemma_history_is_latest_reports(
    order: Seq<HnItemView>,
    batches: Seq<Seq<HnItemView>>,
)
    requires
        order.len() <= CAPACITY || batches.len() > 0,
    ensures
        after_batches(order, batches) == truncated(reported(order, batches) + order),
        reported(order, batches).len() >= CAPACITY ==> after_batches(order, batches) == reported(
            order,
            batches,
        ).take(CAPACITY as int),
    decreases batches.len(),
{
    let latest = reported(order, batches);
    if batches.len() == 0 {
        assert(latest + order =~= order);
    } else {
        let earlier = reported(order, batches.drop_last());
        let before = after_batches(order, batches.drop_last());
        let found = fresh(before, batches.last()).reverse();
        if batches.len() == 1 {
            assert(earlier + order =~= order);
        } else {
            lemma_history_is_latest_reports(order, batches.drop_last());
            lemma_truncated_front(found, earlier + order);
        }
        assert(found + (earlier + order) =~= latest + order);
    }
    if latest.len() >= CAPACITY {
        assert((latest + order).take(CAPACITY as int) =~= latest.take(CAPACITY as int));
        if (latest + order).len() == CAPACITY {
            assert(latest + order =~= latest.take(CAPACITY as int));
        }
    }
}

/// Every record reported as new is in the history once the batch is in, and
/// still there after the call unless the batch took the history beyond its
/// capacity.
pub proof fn lemma_fresh_is_remembered(order: Seq<HnItemView>, batch: Seq<HnItemView>, i: int)
    requires
        0 <= i < fresh(order, batch).len(),
    ensures
        absorbed(order, batch).contains(fresh(order, batch)[i]),
        absorbed(order, batch).len() <= CAPACITY ==> after_batch(order, batch).contains(
            fresh(order, batch)[i],
        ),
{
    let found = fresh(order, batch);
    let position = found.len() - 1 - i;
    assert(absorbed(order, batch)[position] == found[i]);
}

/// A record whose identity the history remembers is never new.
proof fn lemma_known_batch_has_nothing_fresh(
    order: Seq<HnItemView>,
    batch: Seq<HnItemView>,
    n: int,
)
    requires
        0 <= n <= batch.len(),
        forall|i: int| 0 <= i < n ==> remembers(order, (#[trigger] batch[i]).guid),
    ensures
        fresh_prefix(order, batch, n) == Seq::<HnItemView>::empty(),
    decreases n,
{
    if n > 0 {
        lemma_known_batch_has_nothing_fresh(order, batch, n - 1);
        assert(remembers(order, batch[n - 1].guid));
    }
}

/// Idempotent rejection: a batch handed in twice in a row yields nothing the
/// second time, provided the first call did not exceed the capacity.
pub proof fn lemma_repeated_batch_is_rejected(order: Seq<HnItemView>, batch: Seq<HnItemView>)
    requires
        absorbed(order, batch).len() <= CAPACITY,
    ensures
        fresh(after_batch(order, batch), batch) == Seq::<HnItemView>::empty(),
{
    let after = after_batch(order, batch);
    assert forall|i: int| 0 <= i < batch.len() implies remembers(
        after,
        (#[trigger] batch[i]).guid,
    ) by {
        lemma_absorbed_prefix_remembers(order, batch, batch.len() as int, batch[i].guid);
    }
    lemma_known_batch_has_nothing_fresh(after, batch, batch.len() as int);
}

/// Idempotent rejection of one record: offered to a history within its
/// capacity, it is reported if and only if its identity is unknown; offered
/// again at once, it is not reported.
pub proof fn lemma_repeated_record_is_rejected(order: Seq<HnItemView>, item: HnItemView)
    requires
        order.len() <= CAPACITY,
    ensures
        fresh(order, seq![item]) == if remembers(order, item.guid) {
            Seq::<HnItemView>::empty()
        } else {
            seq![item]
        },
        fresh(after_batch(order, seq![item]), seq![item]) == Seq::<HnItemView>::empty(),
{
    let batch = seq![item];
    let after = after_batch(order, batch);
    reveal_with_fuel(fresh_prefix, 2);
    assert(batch[0] == item);
    assert(fresh(order, batch) =~= if remembers(order, item.guid) {
        Seq::<HnItemView>::empty()
    } else {
        seq![item]
    });
    assert(remembers(after, item.guid)) by {
        if remembers(order, item.guid) {
            assert(absorbed(order, batch) =~= order);
        } else {
            assert(absorbed(order, batch) =~= seq![item] + order);
            assert(after[0] == item);
        }
    }
    lemma_known_batch_has_nothing_fresh(after, batch, 1);
}

/// Within-batch dedup: of two records of one identity in one batch, only the
/// first can be new, and it is new if and only if the history does not
/// remember the identity.
pub proof fn lemma_twin_is_rejected(order: Seq<HnItemView>, first: HnItemView, twin: HnItemView)
    requires
        first.guid == twin.guid,
    ensures
        fresh(order, seq![first, twin]) == if remembers(order, first.guid) {
            Seq::<HnItemView>::empty()
        } else {
            seq![first]
        },
{
    let batch = seq![first, twin];
    reveal_with_fuel(fresh_prefix, 3);
    assert(batch[0] == first && batch[1] == twin);
    assert(!first_sighting(order, batch, 1));
    assert(fresh(order, batch) =~= if remembers(order, first.guid) {
        Seq::<HnItemView>::empty()
    } else {
        seq![first]
    });
}

/// Every new record of a batch is the first of its identity: the new
/// records are unknown to the history and distinct among themselves.
pub proof fn lemma_fresh_is_distinct(order: Seq<HnItemView>, batch: Seq<HnItemView>)
    ensures
        distinct(fresh(order, batch)),
        forall|i: int|
            0 <= i < fresh(order, batch).len() ==> !remembers(
                order,
                (#[trigger] fresh(order, batch)[i]).guid,
            ),
{
    lemma_fresh_prefix_is_distinct(order, batch, batch.len() as int);
}

/// The new records among the first `n` of a batch are unknown to the
/// history, distinct, and each is mentioned among those `n`.
proof fn lemma_fresh_prefix_is_distinct(order: Seq<HnItemView>, batch: Seq<HnItemView>, n: int)
    requires
        n <= batch.len(),
    ensures
        distinct(fresh_prefix(order, batch, n)),
        forall|i: int|
            0 <= i < fresh_prefix(order, batch, n).len() ==> {
                &&& !remembers(order, (#[trigger] fresh_prefix(order, batch, n)[i]).guid)
                &&& mentions(batch, n, fresh_prefix(order, batch, n)[i].guid)
            },
    decreases n,
{
    if n > 0 {
        let before = fresh_prefix(order, batch, n - 1);
        let now = fresh_prefix(order, batch, n);
        let item = batch[n - 1];
        lemma_fresh_prefix_is_distinct(order, batch, n - 1);
        assert forall|i: int| 0 <= i < before.len() implies mentions(
            batch,
            n,
            (#[trigger] before[i]).guid,
        ) by {
            let j = choose|j: int|
                0 <= j < n - 1 && j < batch.len() && (#[trigger] batch[j]).guid == before[i].guid;
            assert(batch[j].guid == before[i].guid);
        }
        if first_sighting(order, batch, n - 1) {
            assert(mentions(batch, n, item.guid)) by {
                assert(batch[n - 1].guid == item.guid);
            }
            assert forall|i: int| 0 <= i < before.len() implies (#[trigger] before[i]).guid
                != item.guid by {
                let j = choose|j: int|
                    0 <= j < n - 1 && j < batch.len() && (#[trigger] batch[j]).guid
                        == before[i].guid;
                assert(batch[j].guid != item.guid);
            }
            assert forall|i: int, j: int| 0 <= i < j < now.len() implies (#[trigger] now[i]).guid
                != (#[trigger] now[j]).guid by {
                assert(now[i] == before[i]);
                if j < before.len() {
                    assert(now[j] == before[j]);
                }
            }
            assert forall|i: int| 0 <= i < now.len() implies {
                &&& !remembers(order, (#[trigger] now[i]).guid)
                &&& mentions(batch, n, now[i].guid)
            } by {
                if i < before.len() {
                    assert(now[i] == before[i]);
                }
            }
        }
    }
}

} // verus!
