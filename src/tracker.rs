//! The per-thread tracker that an allocation hook feeds: the measurement
//! stack together with the suppression counter.

use vstd::prelude::*;

use crate::record::{AccountingRecord, AllocationInfo};
use crate::stack::{closed_frames, opened_frames, with_top, AllocationInfoStack, MAX_DEPTH};

verus! {

/// The mathematical value of an [`AllocationTracker`].
pub struct TrackerView {
    /// Active frames, root first, innermost open scope last.
    pub frames: Seq<AccountingRecord>,
    /// Number of opt-out regions currently entered; nonzero means that
    /// allocations and deallocations are not recorded.
    pub suppressed: nat,
}

impl TrackerView {
    /// Whether allocations and deallocations are currently recorded.
    pub open spec fn counting(self) -> bool {
        self.suppressed == 0
    }

    /// The record of the innermost open scope.
    pub open spec fn top(self) -> AccountingRecord {
        self.frames.last()
    }

    /// The state after an allocation of `size` bytes.
    pub open spec fn allocate(self, size: int) -> TrackerView {
        if self.counting() {
            TrackerView { frames: with_top(self.frames, self.top().allocate(size)), ..self }
        } else {
            self
        }
    }

    /// The state after a deallocation of `size` bytes.
    pub open spec fn deallocate(self, size: int) -> TrackerView {
        if self.counting() {
            TrackerView { frames: with_top(self.frames, self.top().deallocate(size)), ..self }
        } else {
            self
        }
    }

    /// The state after a measurement scope is opened.
    pub open spec fn begin_measure(self) -> TrackerView {
        TrackerView { frames: opened_frames(self.frames), ..self }
    }

    /// The state after the innermost measurement scope is closed.
    pub open spec fn end_measure(self) -> TrackerView {
        TrackerView { frames: closed_frames(self.frames), ..self }
    }

    /// The state after an opt-out region is entered.
    pub open spec fn begin_avoid_counting(self) -> TrackerView {
        TrackerView { suppressed: self.suppressed + 1, ..self }
    }

    /// The state after an opt-out region is left.
    pub open spec fn end_avoid_counting(self) -> TrackerView {
        TrackerView { suppressed: (self.suppressed - 1) as nat, ..self }
    }

    /// An allocation of `size` bytes can be recorded without overflow.
    pub open spec fn can_allocate(self, size: int) -> bool {
        !self.counting() || self.top().allocate(size).fits()
    }

    /// A deallocation of `size` bytes can be recorded without overflow.
    pub open spec fn can_deallocate(self, size: int) -> bool {
        !self.counting() || self.top().deallocate(size).fits()
    }

    /// A measurement scope is open and can be rolled up without overflow.
    pub open spec fn can_end_measure(self) -> bool {
        self.frames.len() >= 2 && closed_frames(self.frames).last().fits()
    }
}

/// The accounting state of one thread: a measurement stack and a
/// suppression counter.
pub struct AllocationTracker {
    frames: AllocationInfoStack,
    suppressed: u32,
}

impl View for AllocationTracker {
    type V = TrackerView;

    closed spec fn view(&self) -> TrackerView {
        TrackerView { frames: self.frames@, suppressed: self.suppressed as nat }
    }
}

impl AllocationTracker {
    /// The stack is well formed.
    pub closed spec fn wf(&self) -> bool {
        self.frames.wf()
    }

    /// A well-formed tracker holds between one and `MAX_DEPTH` frames, and
    /// its suppression counter fits a `u32`.
    pub proof fn lemma_wf(&self)
        requires
            self.wf(),
        ensures
            1 <= self@.frames.len() <= MAX_DEPTH,
            self@.suppressed <= u32::MAX,
    {
        self.frames.lemma_view_len();
    }

    /// A tracker with only the zero root frame, counting.
    pub fn new() -> (r: AllocationTracker)
        ensures
            r.wf(),
            r@ == (TrackerView { frames: seq![AccountingRecord::zero()], suppressed: 0 }),
    {
        AllocationTracker { frames: AllocationInfoStack::new(), suppressed: 0 }
    }

    /// Number of open measurement scopes.
    pub fn depth(&self) -> (r: u32)
        requires
            self.wf(),
        ensures
            r == self@.frames.len() - 1,
    {
        self.frames.depth()
    }

    /// Number of opt-out regions currently entered.
    pub fn suppression(&self) -> (r: u32)
        ensures
            r == self@.suppressed,
    {
        self.suppressed
    }

    /// The record of the innermost open scope.
    pub fn current(&self) -> (r: AllocationInfo)
        requires
            self.wf(),
        ensures
            r@ == self@.top(),
    {
        self.frames.top()
    }

    /// Whether [`Self::on_allocate`] may be called with `size`.
    pub fn can_record_allocation(&self, size: u64) -> (r: bool)
        requires
            self.wf(),
        ensures
            r == self@.can_allocate(size as int),
    {
        self.suppressed != 0 || self.frames.top().can_record_allocation(size)
    }

    /// Accounts for an allocation of `size` bytes: the innermost scope
    /// records it unless an opt-out region is active.
    pub fn on_allocate(&mut self, size: u64)
        requires
            old(self).wf(),
            old(self)@.can_allocate(size as int),
        ensures
            final(self).wf(),
            final(self)@ == old(self)@.allocate(size as int),
    {
        if self.suppressed == 0 {
            let mut top = self.frames.top();
            top.record_allocation(size);
            self.frames.set_top(top);
        }
    }

    /// Whether [`Self::on_deallocate`] may be called with `size`.
    pub fn can_record_deallocation(&self, size: u64) -> (r: bool)
        requires
            self.wf(),
        ensures
            r == self@.can_deallocate(size as int),
    {
        self.suppressed != 0 || self.frames.top().can_record_deallocation(size)
    }

    /// Accounts for a deallocation of `size` bytes: the innermost scope
    /// records it unless an opt-out region is active.
    pub fn on_deallocate(&mut self, size: u64)
        requires
            old(self).wf(),
            old(self)@.can_deallocate(size as int),
        ensures
            final(self).wf(),
            final(self)@ == old(self)@.deallocate(size as int),
    {
        if self.suppressed == 0 {
            let mut top = self.frames.top();
            top.record_deallocation(size);
            self.frames.set_top(top);
        }
    }

    /// Whether another measurement scope fits on the stack.
    pub fn can_begin_measure(&self) -> (r: bool)
        requires
            self.wf(),
        ensures
            r == (self@.frames.len() < MAX_DEPTH),
    {
        proof {
            self.lemma_wf();
        }
        (self.frames.depth() as usize) + 1 < MAX_DEPTH
    }

    /// Opens a measurement scope with a zero record.
    pub fn begin_measure(&mut self)
        requires
            old(self).wf(),
            old(self)@.frames.len() < MAX_DEPTH,
        ensures
            final(self).wf(),
            final(self)@ == old(self)@.begin_measure(),
    {
        self.frames.open_frame();
    }

    /// Whether [`Self::end_measure`] may be called.
    pub fn can_end_measure(&self) -> (r: bool)
        requires
            self.wf(),
        ensures
            r == self@.can_end_measure(),
    {
        proof {
            self.lemma_wf();
        }
        if self.frames.depth() == 0 {
            false
        } else {
            let below = self.frames.below_top();
            below.can_merge(&self.frames.top())
        }
    }

    /// Closes the innermost measurement scope, rolls its record up into the
    /// scope below and returns it.
    pub fn end_measure(&mut self) -> (r: AllocationInfo)
        requires
            old(self).wf(),
            old(self)@.can_end_measure(),
        ensures
            final(self).wf(),
            r@ == old(self)@.top(),
            final(self)@ == old(self)@.end_measure(),
    {
        self.frames.close_frame()
    }

    /// Enters an opt-out region.
    pub fn begin_avoid_counting(&mut self)
        requires
            old(self)@.suppressed < u32::MAX,
        ensures
            final(self).wf() == old(self).wf(),
            final(self)@ == old(self)@.begin_avoid_counting(),
    {
        self.suppressed = self.suppressed + 1;
    }

    /// Leaves an opt-out region.
    pub fn end_avoid_counting(&mut self)
        requires
            old(self)@.suppressed > 0,
        ensures
            final(self).wf() == old(self).wf(),
            final(self)@ == old(self)@.end_avoid_counting(),
    {
        self.suppressed = self.suppressed - 1;
    }
}

} // verus!
