//! The measurement stack: one accounting record per open scope.

use vstd::prelude::*;

use crate::record::{AccountingRecord, AllocationInfo};

verus! {

/// Capacity of the measurement stack. Frame 0 is the implicit root, so at
/// most `MAX_DEPTH - 1` measurements can be open at once.
pub const MAX_DEPTH: usize = 64;

/// The frames after a new scope is opened: a zero record on top.
pub open spec fn opened_frames(fs: Seq<AccountingRecord>) -> Seq<AccountingRecord> {
    fs.push(AccountingRecord::zero())
}

/// The frames after the top scope is closed: it is removed and its record is
/// added to the frame below.
pub open spec fn closed_frames(fs: Seq<AccountingRecord>) -> Seq<AccountingRecord>
    recommends
        fs.len() >= 2,
{
    let below = fs.drop_last();
    below.update(below.len() - 1, below.last().merge(fs.last()))
}

/// The frames with the top record replaced by `r`.
pub open spec fn with_top(fs: Seq<AccountingRecord>, r: AccountingRecord) -> Seq<
    AccountingRecord,
>
    recommends
        fs.len() >= 1,
{
    fs.update(fs.len() - 1, r)
}

/// A fixed-capacity stack of accounting records with a depth cursor.
///
/// Its view is the sequence of active frames, from the root (index 0) to the
/// innermost open scope (the last one).
pub struct AllocationInfoStack {
    depth: u32,
    elements: [AllocationInfo; MAX_DEPTH],
}

impl View for AllocationInfoStack {
    type V = Seq<AccountingRecord>;

    closed spec fn view(&self) -> Seq<AccountingRecord> {
        self.elements@.take(self.depth + 1).map_values(|r: AllocationInfo| r@)
    }
}

impl AllocationInfoStack {
    /// The depth cursor stays below the capacity.
    pub closed spec fn wf(&self) -> bool {
        self.depth < MAX_DEPTH
    }

    /// A well-formed stack holds between one and `MAX_DEPTH` frames.
    pub proof fn lemma_view_len(&self)
        requires
            self.wf(),
        ensures
            1 <= self@.len() <= MAX_DEPTH,
    {
    }

    /// A stack that holds only the zero root frame.
    pub fn new() -> (r: AllocationInfoStack)
        ensures
            r.wf(),
            r@ == seq![AccountingRecord::zero()],
    {
        let r = AllocationInfoStack {
            depth: 0,
            elements: [AllocationInfo::default();MAX_DEPTH],
        };
        assert(r@ =~= seq![AccountingRecord::zero()]);
        r
    }

    /// Number of open scopes above the root.
    pub fn depth(&self) -> (r: u32)
        requires
            self.wf(),
        ensures
            r == self@.len() - 1,
    {
        self.depth
    }

    /// The record of the innermost open scope.
    pub fn top(&self) -> (r: AllocationInfo)
        requires
            self.wf(),
        ensures
            r@ == self@.last(),
    {
        self.elements[self.depth as usize]
    }

    /// The record of the scope below the innermost one.
    pub fn below_top(&self) -> (r: AllocationInfo)
        requires
            self.wf(),
            self@.len() >= 2,
        ensures
            r@ == self@[self@.len() - 2],
    {
        self.elements[(self.depth - 1) as usize]
    }

    /// Opens a scope with a zero record.
    pub fn open_frame(&mut self)
        requires
            old(self).wf(),
            old(self)@.len() < MAX_DEPTH,
        ensures
            final(self).wf(),
            final(self)@ == opened_frames(old(self)@),
    {
        self.depth = self.depth + 1;
        self.elements[self.depth as usize] = AllocationInfo::default();
        assert(self@ =~= opened_frames(old(self)@));
    }

    /// Closes the innermost scope, adds its record to the scope below and
    /// returns it.
    pub fn close_frame(&mut self) -> (r: AllocationInfo)
        requires
            old(self).wf(),
            old(self)@.len() >= 2,
            closed_frames(old(self)@).last().fits(),
        ensures
            final(self).wf(),
            r@ == old(self)@.last(),
            final(self)@ == closed_frames(old(self)@),
    {
        let popped = self.elements[self.depth as usize];
        self.depth = self.depth - 1;
        let d = self.depth as usize;
        let mut below = self.elements[d];
        below.merge(&popped);
        self.elements[d] = below;
        assert(self@ =~= closed_frames(old(self)@));
        popped
    }

    /// Replaces the record of the innermost scope.
    pub fn set_top(&mut self, r: AllocationInfo)
        requires
            old(self).wf(),
        ensures
            final(self).wf(),
            final(self)@ == with_top(old(self)@, r@),
    {
        self.elements[self.depth as usize] = r;
        assert(self@ =~= with_top(old(self)@, r@));
    }
}

} // verus!
