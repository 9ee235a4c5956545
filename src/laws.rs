//! What holds of every sequence of heap events seen by a measurement scope.
//!
//! A workload is described by the allocations and deallocations it makes,
//! in order; the laws below speak of the records that the tracker's own
//! operations produce for such a sequence.

use vstd::prelude::*;
use vstd::seq_lib::group_to_multiset_ensures;

use crate::record::AccountingRecord;
use crate::stack::with_top;
use crate::tracker::TrackerView;

verus! {

/// One heap operation seen by the allocation hook.
pub enum HeapEvent {
    Allocate(u64),
    Deallocate(u64),
}

/// The record after one event.
pub open spec fn apply_event(r: AccountingRecord, e: HeapEvent) -> AccountingRecord {
    match e {
        HeapEvent::Allocate(size) => r.allocate(size as int),
        HeapEvent::Deallocate(size) => r.deallocate(size as int),
    }
}

/// The record after the events `evs`, in order.
pub open spec fn replay(r: AccountingRecord, evs: Seq<HeapEvent>) -> AccountingRecord
    decreases evs.len(),
{
    if evs.len() == 0 {
        r
    } else {
        apply_event(replay(r, evs.drop_last()), evs.last())
    }
}

/// The tracker after one event reaches the allocation hook.
pub open spec fn hook_event(t: TrackerView, e: HeapEvent) -> TrackerView {
    match e {
        HeapEvent::Allocate(size) => t.allocate(size as int),
        HeapEvent::Deallocate(size) => t.deallocate(size as int),
    }
}

/// The tracker after the events `evs` reach the allocation hook, in order.
pub open spec fn hook_events(t: TrackerView, evs: Seq<HeapEvent>) -> TrackerView
    decreases evs.len(),
{
    if evs.len() == 0 {
        t
    } else {
        hook_event(hook_events(t, evs.drop_last()), evs.last())
    }
}

/// What a measurement scope opened on `t` has recorded once `evs` happened
/// inside it.
pub open spec fn scope_record(t: TrackerView, evs: Seq<HeapEvent>) -> AccountingRecord {
    hook_events(t.begin_measure(), evs).top()
}

/// The sizes of the allocations among `evs`, in order.
pub open spec fn allocated_sizes(evs: Seq<HeapEvent>) -> Seq<u64>
    decreases evs.len(),
{
    if evs.len() == 0 {
        seq![]
    } else {
        let earlier = allocated_sizes(evs.drop_last());
        match evs.last() {
            HeapEvent::Allocate(size) => earlier.push(size),
            HeapEvent::Deallocate(_) => earlier,
        }
    }
}

/// The sizes of the deallocations among `evs`, in order.
pub open spec fn freed_sizes(evs: Seq<HeapEvent>) -> Seq<u64>
    decreases evs.len(),
{
    if evs.len() == 0 {
        seq![]
    } else {
        let earlier = freed_sizes(evs.drop_last());
        match evs.last() {
            HeapEvent::Allocate(_) => earlier,
            HeapEvent::Deallocate(size) => earlier.push(size),
        }
    }
}

/// The sum of `sizes`.
pub open spec fn total_size(sizes: Seq<u64>) -> int
    decreases sizes.len(),
{
    if sizes.len() == 0 {
        0
    } else {
        total_size(sizes.drop_last()) + sizes.last()
    }
}

/// One allocation of each of `sizes`, in order.
pub open spec fn allocations(sizes: Seq<u64>) -> Seq<HeapEvent> {
    sizes.map_values(|size: u64| HeapEvent::Allocate(size))
}

/// Events reach the innermost scope's record while counting, and change
/// nothing while an opt-out region is active.
pub proof fn lemma_hook_events(t: TrackerView, evs: Seq<HeapEvent>)
    requires
        t.frames.len() >= 1,
    ensures
        hook_events(t, evs) == (if t.counting() {
            TrackerView { frames: with_top(t.frames, replay(t.top(), evs)), ..t }
        } else {
            t
        }),
    decreases evs.len(),
{
    if evs.len() > 0 {
        lemma_hook_events(t, evs.drop_last());
        if t.counting() {
            let before = hook_events(t, evs.drop_last());
            assert(with_top(before.frames, apply_event(before.top(), evs.last())) =~= with_top(
                t.frames,
                replay(t.top(), evs),
            ));
        }
    } else if t.counting() {
        assert(with_top(t.frames, t.top()) =~= t.frames);
    }
}

/// A scope opened on a counting tracker records exactly the replay of its
/// events from zero; one opened inside an opt-out region records nothing.
pub proof fn lemma_scope_record(t: TrackerView, evs: Seq<HeapEvent>)
    requires
        t.frames.len() >= 1,
    ensures
        scope_record(t, evs) == (if t.counting() {
            replay(AccountingRecord::zero(), evs)
        } else {
            AccountingRecord::zero()
        }),
{
    lemma_hook_events(t.begin_measure(), evs);
}

/// Totals and outstanding amounts after a replay, in terms of the sizes
/// that were allocated and freed.
pub proof fn lemma_replay_sums(r: AccountingRecord, evs: Seq<HeapEvent>)
    ensures
        replay(r, evs).count_total == r.count_total + allocated_sizes(evs).len(),
        replay(r, evs).count_current == r.count_current + allocated_sizes(evs).len()
            - freed_sizes(evs).len(),
        replay(r, evs).bytes_total == r.bytes_total + total_size(allocated_sizes(evs)),
        replay(r, evs).bytes_current == r.bytes_current + total_size(allocated_sizes(evs))
            - total_size(freed_sizes(evs)),
    decreases evs.len(),
{
    if evs.len() > 0 {
        lemma_replay_sums(r, evs.drop_last());
        let earlier = allocated_sizes(evs.drop_last());
        match evs.last() {
            HeapEvent::Allocate(size) => {
                assert(earlier.push(size).drop_last() =~= earlier);
            },
            HeapEvent::Deallocate(size) => {
                let freed = freed_sizes(evs.drop_last());
                assert(freed.push(size).drop_last() =~= freed);
            },
        }
    }
}

/// Only allocations: the allocated sizes are `sizes` and nothing is freed.
proof fn lemma_allocations_sizes(sizes: Seq<u64>)
    ensures
        allocated_sizes(allocations(sizes)) == sizes,
        freed_sizes(allocations(sizes)).len() == 0,
    decreases sizes.len(),
{
    if sizes.len() > 0 {
        lemma_allocations_sizes(sizes.drop_last());
        assert(allocations(sizes).drop_last() =~= allocations(sizes.drop_last()));
        assert(sizes.drop_last().push(sizes.last()) =~= sizes);
    } else {
        assert(allocations(sizes).len() == 0);
    }
}

/// N allocations of sizes `s_1..s_N` and no deallocations inside a
/// measurement scope leave it with N allocations, in total and outstanding,
/// and the sum of the sizes in bytes, in total and outstanding.
pub proof fn law_allocations_without_frees(t: TrackerView, sizes: Seq<u64>)
    requires
        t.frames.len() >= 1,
        t.counting(),
    ensures
        scope_record(t, allocations(sizes)).count_total == sizes.len(),
        scope_record(t, allocations(sizes)).count_current == sizes.len(),
        scope_record(t, allocations(sizes)).bytes_total == total_size(sizes),
        scope_record(t, allocations(sizes)).bytes_current == total_size(sizes),
{
    lemma_scope_record(t, allocations(sizes));
    lemma_replay_sums(AccountingRecord::zero(), allocations(sizes));
    lemma_allocations_sizes(sizes);
}

/// Removing one element from a sequence lowers its sum by that element.
proof fn lemma_total_size_remove(sizes: Seq<u64>, i: int)
    requires
        0 <= i < sizes.len(),
    ensures
        total_size(sizes) == total_size(sizes.remove(i)) + sizes[i],
    decreases sizes.len(),
{
    if i < sizes.len() - 1 {
        lemma_total_size_remove(sizes.drop_last(), i);
        assert(sizes.remove(i).drop_last() =~= sizes.drop_last().remove(i));
    } else {
        assert(sizes.remove(i) =~= sizes.drop_last());
    }
}

/// Two sequences with the same elements, counted with multiplicity, have
/// the same sum.
proof fn lemma_total_size_permutation(a: Seq<u64>, b: Seq<u64>)
    requires
        a.to_multiset() == b.to_multiset(),
    ensures
        total_size(a) == total_size(b),
    decreases a.len(),
{
    broadcast use group_to_multiset_ensures;

    if a.len() == 0 {
        assert(b.to_multiset().len() == 0);
    } else {
        let x = a.last();
        let rest = a.drop_last();
        assert(rest.push(x) =~= a);
        assert(a.to_multiset().count(x) > 0);
        assert(b.contains(x));
        let i = choose|i: int| 0 <= i < b.len() && b[i] == x;
        assert(rest.to_multiset() =~= a.to_multiset().remove(x));
        assert(b.remove(i).to_multiset() =~= b.to_multiset().remove(x));
        lemma_total_size_permutation(rest, b.remove(i));
        lemma_total_size_remove(b, i);
    }
}

/// When every allocation made inside a measurement scope is freed inside
/// it (the freed sizes are the allocated sizes, in any order), nothing is
/// left outstanding, whatever the totals.
pub proof fn law_all_freed(t: TrackerView, evs: Seq<HeapEvent>)
    requires
        t.frames.len() >= 1,
        t.counting(),
        allocated_sizes(evs).to_multiset() == freed_sizes(evs).to_multiset(),
    ensures
        scope_record(t, evs).count_current == 0,
        scope_record(t, evs).bytes_current == 0,
{
    broadcast use group_to_multiset_ensures;

    lemma_scope_record(t, evs);
    lemma_replay_sums(AccountingRecord::zero(), evs);
    lemma_total_size_permutation(allocated_sizes(evs), freed_sizes(evs));
    assert(allocated_sizes(evs).len() == allocated_sizes(evs).to_multiset().len());
}

/// Replaying from zero, each peak is the highest positive outstanding
/// amount reached after any prefix of the events.
proof fn lemma_replay_peak(evs: Seq<HeapEvent>)
    ensures
        forall|i: int|
            0 <= i <= evs.len() ==> #[trigger] replay(AccountingRecord::zero(), evs.take(i)).count_current
                <= replay(AccountingRecord::zero(), evs).count_max,
        forall|i: int|
            0 <= i <= evs.len() ==> #[trigger] replay(AccountingRecord::zero(), evs.take(i)).bytes_current
                <= replay(AccountingRecord::zero(), evs).bytes_max,
        replay(AccountingRecord::zero(), evs).count_max == 0 || exists|i: int|
            0 <= i <= evs.len() && #[trigger] replay(AccountingRecord::zero(), evs.take(i)).count_current
                == replay(AccountingRecord::zero(), evs).count_max,
        replay(AccountingRecord::zero(), evs).bytes_max == 0 || exists|i: int|
            0 <= i <= evs.len() && #[trigger] replay(AccountingRecord::zero(), evs.take(i)).bytes_current
                == replay(AccountingRecord::zero(), evs).bytes_max,
    decreases evs.len(),
{
    let z = AccountingRecord::zero();
    if evs.len() == 0 {
        assert forall|i: int| 0 <= i <= evs.len() implies evs.take(i) =~= evs by {}
    } else {
        let earlier = evs.drop_last();
        lemma_replay_peak(earlier);
        let n = evs.len() as int;
        assert(evs.take(n) =~= evs);
        assert forall|i: int| 0 <= i < n implies evs.take(i) =~= earlier.take(i) by {}
        let before = replay(z, earlier);
        let after = replay(z, evs);
        assert(earlier.take(0) =~= seq![]);
        assert(earlier.take(n - 1) =~= earlier);
        assert(replay(z, earlier.take(0)).count_current <= before.count_max);
        assert(replay(z, earlier.take(0)).bytes_current <= before.bytes_max);
        assert(replay(z, earlier.take(n - 1)).count_current <= before.count_max);
        assert(replay(z, earlier.take(n - 1)).bytes_current <= before.bytes_max);
        assert forall|i: int| 0 <= i <= n implies #[trigger] replay(z, evs.take(i)).count_current
            <= after.count_max && replay(z, evs.take(i)).bytes_current <= after.bytes_max by {
            if i < n {
                assert(evs.take(i) =~= earlier.take(i));
            } else {
                assert(evs.take(i) =~= evs);
                assert(after == apply_event(before, evs.last()));
            }
        }
        if after.count_max != 0 {
            if after.count_max == before.count_max {
                let i = choose|i: int|
                    0 <= i <= earlier.len() && #[trigger] replay(z, earlier.take(i)).count_current
                        == before.count_max;
                assert(evs.take(i) =~= earlier.take(i));
                assert(replay(z, evs.take(i)).count_current == after.count_max);
            } else {
                assert(replay(z, evs.take(n)).count_current == after.count_max);
            }
        }
        if after.bytes_max != 0 {
            if after.bytes_max == before.bytes_max {
                let i = choose|i: int|
                    0 <= i <= earlier.len() && #[trigger] replay(z, earlier.take(i)).bytes_current
                        == before.bytes_max;
                assert(evs.take(i) =~= earlier.take(i));
                assert(replay(z, evs.take(i)).bytes_current == after.bytes_max);
            } else {
                assert(replay(z, evs.take(n)).bytes_current == after.bytes_max);
            }
        }
    }
}

/// The peaks of a measurement scope are the highest positive outstanding
/// count and byte amounts it reached after any prefix of its events, not
/// merely the final ones.
pub proof fn law_peak(t: TrackerView, evs: Seq<HeapEvent>)
    requires
        t.frames.len() >= 1,
        t.counting(),
    ensures
        forall|i: int|
            0 <= i <= evs.len() ==> #[trigger] scope_record(t, evs.take(i)).count_current
                <= scope_record(t, evs).count_max,
        forall|i: int|
            0 <= i <= evs.len() ==> #[trigger] scope_record(t, evs.take(i)).bytes_current
                <= scope_record(t, evs).bytes_max,
        scope_record(t, evs).count_max == 0 || exists|i: int|
            0 <= i <= evs.len() && #[trigger] scope_record(t, evs.take(i)).count_current
                == scope_record(t, evs).count_max,
        scope_record(t, evs).bytes_max == 0 || exists|i: int|
            0 <= i <= evs.len() && #[trigger] scope_record(t, evs.take(i)).bytes_current
                == scope_record(t, evs).bytes_max,
{
    let z = AccountingRecord::zero();
    lemma_replay_peak(evs);
    lemma_scope_record(t, evs);
    assert forall|i: int| 0 <= i <= evs.len() implies #[trigger] scope_record(t, evs.take(i))
        == replay(z, evs.take(i)) by {
        lemma_scope_record(t, evs.take(i));
    }
    if scope_record(t, evs).count_max != 0 {
        let i = choose|i: int|
            0 <= i <= evs.len() && #[trigger] replay(z, evs.take(i)).count_current == replay(
                z,
                evs,
            ).count_max;
        assert(scope_record(t, evs.take(i)) == replay(z, evs.take(i)));
    }
    if scope_record(t, evs).bytes_max != 0 {
        let i = choose|i: int|
            0 <= i <= evs.len() && #[trigger] replay(z, evs.take(i)).bytes_current == replay(
                z,
                evs,
            ).bytes_max;
        assert(scope_record(t, evs.take(i)) == replay(z, evs.take(i)));
    }
}

/// A measurement scope around a nested one: the outer scope's totals and
/// outstanding amounts are the inner scope's plus those of the events made
/// in the outer scope before and after the inner one.
pub proof fn law_nested(
    t: TrackerView,
    before: Seq<HeapEvent>,
    inner: Seq<HeapEvent>,
    after: Seq<HeapEvent>,
)
    requires
        t.frames.len() >= 1,
        t.counting(),
    ensures
        ({
            let outer_open = hook_events(t.begin_measure(), before);
            let inner_done = hook_events(outer_open.begin_measure(), inner);
            let inner_record = inner_done.top();
            let outer_record = hook_events(inner_done.end_measure(), after).top();
            &&& outer_record.count_total == inner_record.count_total + allocated_sizes(
                before,
            ).len() + allocated_sizes(after).len()
            &&& outer_record.bytes_total == inner_record.bytes_total + total_size(
                allocated_sizes(before),
            ) + total_size(allocated_sizes(after))
            &&& outer_record.count_current == inner_record.count_current + allocated_sizes(
                before,
            ).len() - freed_sizes(before).len() + allocated_sizes(after).len() - freed_sizes(
                after,
            ).len()
            &&& outer_record.bytes_current == inner_record.bytes_current + total_size(
                allocated_sizes(before),
            ) - total_size(freed_sizes(before)) + total_size(allocated_sizes(after))
                - total_size(freed_sizes(after))
        }),
{
    let z = AccountingRecord::zero();
    let outer_open = hook_events(t.begin_measure(), before);
    lemma_hook_events(t.begin_measure(), before);
    let inner_done = hook_events(outer_open.begin_measure(), inner);
    lemma_hook_events(outer_open.begin_measure(), inner);
    let inner_record = inner_done.top();
    let closed = inner_done.end_measure();
    let rolled_up = replay(z, before).merge(inner_record);
    assert(closed.top() == rolled_up);
    lemma_hook_events(closed, after);
    lemma_replay_sums(z, before);
    lemma_replay_sums(z, inner);
    lemma_replay_sums(rolled_up, after);
}

/// Allocations and deallocations inside an opt-out region within a
/// measurement scope are invisible: the scope records nothing, and closing
/// it leaves the tracker as it was.
pub proof fn law_opt_out(t: TrackerView, evs: Seq<HeapEvent>)
    requires
        t.frames.len() >= 1,
    ensures
        ({
            let left = hook_events(t.begin_measure().begin_avoid_counting(), evs).end_avoid_counting();
            &&& left.top() == AccountingRecord::zero()
            &&& left.end_measure() == t
        }),
{
    let entered = t.begin_measure().begin_avoid_counting();
    lemma_hook_events(entered, evs);
    let left = entered.end_avoid_counting();
    assert(left == t.begin_measure());
    assert(left.end_measure().frames =~= t.frames);
}

/// Measuring the same events twice in a row gives the same record both
/// times.
pub proof fn law_repeatable(t: TrackerView, evs: Seq<HeapEvent>)
    requires
        t.frames.len() >= 1,
    ensures
        ({
            let first = hook_events(t.begin_measure(), evs);
            first.top() == scope_record(first.end_measure(), evs)
        }),
{
    let first = hook_events(t.begin_measure(), evs);
    lemma_hook_events(t.begin_measure(), evs);
    lemma_scope_record(t, evs);
    lemma_scope_record(first.end_measure(), evs);
}

} // verus!
