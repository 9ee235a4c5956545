//! Running a unit of work inside a measurement scope or an opt-out region.
//!
//! The work receives the tracker, hands every allocation and deallocation it
//! makes to it, and gives it back with the same scopes open.

use vstd::prelude::*;

use crate::record::{AccountingRecord, AllocationInfo};
use crate::stack::MAX_DEPTH;
use crate::tracker::{AllocationTracker, TrackerView};

verus! {

/// `work` may be run on any well-formed tracker whose value is `start`, and
/// gives back a well-formed tracker with the same scopes open and the same
/// opt-out regions entered.
pub open spec fn runs_from<F: FnOnce(AllocationTracker) -> AllocationTracker>(
    work: F,
    start: TrackerView,
) -> bool {
    &&& forall|t: AllocationTracker| t.wf() && t@ == start ==> #[trigger] work.requires((t,))
    &&& forall|t: AllocationTracker, u: AllocationTracker|
        t.wf() && t@ == start && #[trigger] work.ensures((t,), u) ==> {
            &&& u.wf()
            &&& u@.frames.len() == start.frames.len()
            &&& u@.suppressed == start.suppressed
        }
}

/// `work` may be run inside a measurement scope opened on `start`, and the
/// scope can then be closed.
pub open spec fn measurable<F: FnOnce(AllocationTracker) -> AllocationTracker>(
    work: F,
    start: TrackerView,
) -> bool {
    &&& runs_from(work, start.begin_measure())
    &&& forall|t: AllocationTracker, u: AllocationTracker|
        t.wf() && t@ == start.begin_measure() && #[trigger] work.ensures((t,), u)
            ==> u@.can_end_measure()
}

/// One possible run of `work` in a measurement scope opened on `start`: the
/// scope recorded `info`, and after it was closed the tracker was `end`.
pub open spec fn measured_run<F: FnOnce(AllocationTracker) -> AllocationTracker>(
    work: F,
    start: TrackerView,
    end: TrackerView,
    info: AccountingRecord,
) -> bool {
    exists|t: AllocationTracker, u: AllocationTracker|
        {
            &&& t.wf()
            &&& t@ == start.begin_measure()
            &&& #[trigger] work.ensures((t,), u)
            &&& info == u@.top()
            &&& end == u@.end_measure()
        }
}

/// Runs `run_while_counting` in a new measurement scope and returns the
/// tracker with that scope closed, together with what the scope recorded.
/// The record is also added to the enclosing scope.
pub fn measure<F: FnOnce(AllocationTracker) -> AllocationTracker>(
    tracker: AllocationTracker,
    run_while_counting: F,
) -> (r: (AllocationTracker, AllocationInfo))
    requires
        tracker.wf(),
        tracker@.frames.len() < MAX_DEPTH,
        measurable(run_while_counting, tracker@),
    ensures
        r.0.wf(),
        measured_run(run_while_counting, tracker@, r.0@, r.1@),
{
    let mut tracker = tracker;
    tracker.begin_measure();
    let ghost opened = tracker;
    let mut tracker = run_while_counting(tracker);
    let ghost worked = tracker;
    let info = tracker.end_measure();
    assert(run_while_counting.ensures((opened,), worked));
    (tracker, info)
}

/// Runs `run_while_counting` in a new measurement scope and returns the
/// tracker with that scope closed, together with the number of allocations
/// the scope recorded.
pub fn count<F: FnOnce(AllocationTracker) -> AllocationTracker>(
    tracker: AllocationTracker,
    run_while_counting: F,
) -> (r: (AllocationTracker, u64))
    requires
        tracker.wf(),
        tracker@.frames.len() < MAX_DEPTH,
        measurable(run_while_counting, tracker@),
    ensures
        r.0.wf(),
        exists|info: AccountingRecord|
            measured_run(run_while_counting, tracker@, r.0@, info) && info.count_total == r.1,
{
    let (tracker, info) = measure(tracker, run_while_counting);
    (tracker, info.num_allocations())
}

/// Runs `run_while_not_counting` with recording suspended, and returns the
/// tracker with recording restored to what it was.
pub fn avoid_counting<F: FnOnce(AllocationTracker) -> AllocationTracker>(
    tracker: AllocationTracker,
    run_while_not_counting: F,
) -> (r: AllocationTracker)
    requires
        tracker.wf(),
        tracker@.suppressed < u32::MAX,
        runs_from(run_while_not_counting, tracker@.begin_avoid_counting()),
    ensures
        r.wf(),
        exists|t: AllocationTracker, u: AllocationTracker|
            {
                &&& t.wf()
                &&& t@ == tracker@.begin_avoid_counting()
                &&& #[trigger] run_while_not_counting.ensures((t,), u)
                &&& r@ == u@.end_avoid_counting()
            },
{
    let mut tracker = tracker;
    tracker.begin_avoid_counting();
    let ghost entered = tracker;
    let mut tracker = run_while_not_counting(tracker);
    let ghost worked = tracker;
    tracker.end_avoid_counting();
    assert(run_while_not_counting.ensures((entered,), worked));
    tracker
}

/// A measured unit of work allocated more often than allowed.
#[derive(Clone, Copy, Debug, PartialEq, Eq)]
pub enum AllocationLimitError {
    /// More than `limit` allocations were made; `observed` were.
    MoreThan { limit: u64, observed: u64 },
    /// The number of allocations, `observed`, lies outside `start..end`.
    OutsideRange { start: u64, end: u64, observed: u64 },
}

/// The verdict on `observed` allocations against an upper limit.
pub open spec fn max_verdict(limit: u64, observed: int) -> Result<(), AllocationLimitError> {
    if observed <= limit {
        Ok(())
    } else {
        Err(AllocationLimitError::MoreThan { limit, observed: observed as u64 })
    }
}

/// The verdict on `observed` allocations against the range `start..end`.
pub open spec fn range_verdict(start: u64, end: u64, observed: int) -> Result<
    (),
    AllocationLimitError,
> {
    if start <= observed < end {
        Ok(())
    } else {
        Err(AllocationLimitError::OutsideRange { start, end, observed: observed as u64 })
    }
}

/// Compares `observed` allocations with an upper limit.
pub fn check_max_allocations(limit: u64, observed: u64) -> (r: Result<(), AllocationLimitError>)
    ensures
        r == max_verdict(limit, observed as int),
{
    if observed <= limit {
        Ok(())
    } else {
        Err(AllocationLimitError::MoreThan { limit, observed })
    }
}

/// Compares `observed` allocations with the range `allowed`.
pub fn check_num_allocations(allowed: &std::ops::Range<u64>, observed: u64) -> (r: Result<
    (),
    AllocationLimitError,
>)
    ensures
        r == range_verdict(allowed.start, allowed.end, observed as int),
{
    if allowed.start <= observed && observed < allowed.end {
        Ok(())
    } else {
        Err(AllocationLimitError::OutsideRange { start: allowed.start, end: allowed.end, observed })
    }
}

/// Measures `run_while_counting` and fails, with the limit and the observed
/// number, if it made more than `max_allocations` allocations.
pub fn assert_max_allocations<F: FnOnce(AllocationTracker) -> AllocationTracker>(
    tracker: AllocationTracker,
    max_allocations: u64,
    run_while_counting: F,
) -> (r: (AllocationTracker, Result<(), AllocationLimitError>))
    requires
        tracker.wf(),
        tracker@.frames.len() < MAX_DEPTH,
        measurable(run_while_counting, tracker@),
    ensures
        r.0.wf(),
        exists|info: AccountingRecord|
            measured_run(run_while_counting, tracker@, r.0@, info) && r.1 == max_verdict(
                max_allocations,
                info.count_total,
            ),
{
    let (tracker, num_allocations) = count(tracker, run_while_counting);
    (tracker, check_max_allocations(max_allocations, num_allocations))
}

/// Measures `run_while_counting` and fails, with the observed number, if it
/// made any allocation.
pub fn assert_no_allocations<F: FnOnce(AllocationTracker) -> AllocationTracker>(
    tracker: AllocationTracker,
    run_while_counting: F,
) -> (r: (AllocationTracker, Result<(), AllocationLimitError>))
    requires
        tracker.wf(),
        tracker@.frames.len() < MAX_DEPTH,
        measurable(run_while_counting, tracker@),
    ensures
        r.0.wf(),
        exists|info: AccountingRecord|
            measured_run(run_while_counting, tracker@, r.0@, info) && r.1 == max_verdict(
                0,
                info.count_total,
            ),
{
    assert_max_allocations(tracker, 0, run_while_counting)
}

/// Measures `run_while_counting` and fails, with the range and the observed
/// number, if the number of allocations lies outside `allowed_allocations`.
pub fn assert_num_allocations<F: FnOnce(AllocationTracker) -> AllocationTracker>(
    tracker: AllocationTracker,
    allowed_allocations: std::ops::Range<u64>,
    run_while_counting: F,
) -> (r: (AllocationTracker, Result<(), AllocationLimitError>))
    requires
        tracker.wf(),
        tracker@.frames.len() < MAX_DEPTH,
        measurable(run_while_counting, tracker@),
    ensures
        r.0.wf(),
        exists|info: AccountingRecord|
            measured_run(run_while_counting, tracker@, r.0@, info) && r.1 == range_verdict(
                allowed_allocations.start,
                allowed_allocations.end,
                info.count_total,
            ),
{
    let (tracker, num_allocations) = count(tracker, run_while_counting);
    (tracker, check_num_allocations(&allowed_allocations, num_allocations))
}

} // verus!
