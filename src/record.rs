//! The accounting record: what one measurement scope has seen.

use vstd::prelude::*;

verus! {

/// The mathematical value of an [`AllocationInfo`], over unbounded integers.
pub struct AccountingRecord {
    pub count_total: int,
    pub count_current: int,
    pub count_max: int,
    pub bytes_total: int,
    pub bytes_current: int,
    pub bytes_max: int,
}

/// The peak after the outstanding amount became `current`: raised only while
/// that amount is positive.
pub open spec fn raised_peak(peak: int, current: int) -> int {
    if current > 0 && current > peak {
        current
    } else {
        peak
    }
}

impl AccountingRecord {
    /// The record of a scope that has seen nothing yet.
    pub open spec fn zero() -> AccountingRecord {
        AccountingRecord {
            count_total: 0,
            count_current: 0,
            count_max: 0,
            bytes_total: 0,
            bytes_current: 0,
            bytes_max: 0,
        }
    }

    /// The record after one allocation of `size` bytes.
    pub open spec fn allocate(self, size: int) -> AccountingRecord {
        AccountingRecord {
            count_total: self.count_total + 1,
            count_current: self.count_current + 1,
            count_max: raised_peak(self.count_max, self.count_current + 1),
            bytes_total: self.bytes_total + size,
            bytes_current: self.bytes_current + size,
            bytes_max: raised_peak(self.bytes_max, self.bytes_current + size),
        }
    }

    /// The record after one deallocation of `size` bytes.
    pub open spec fn deallocate(self, size: int) -> AccountingRecord {
        AccountingRecord {
            count_current: self.count_current - 1,
            bytes_current: self.bytes_current - size,
            ..self
        }
    }

    /// Pointwise sum of all six fields: how a finished scope is rolled up
    /// into the scope around it.
    pub open spec fn merge(self, other: AccountingRecord) -> AccountingRecord {
        AccountingRecord {
            count_total: self.count_total + other.count_total,
            count_current: self.count_current + other.count_current,
            count_max: self.count_max + other.count_max,
            bytes_total: self.bytes_total + other.bytes_total,
            bytes_current: self.bytes_current + other.bytes_current,
            bytes_max: self.bytes_max + other.bytes_max,
        }
    }

    /// Every field fits the machine type that holds it in an [`AllocationInfo`].
    pub open spec fn fits(self) -> bool {
        &&& 0 <= self.count_total <= u64::MAX
        &&& i64::MIN <= self.count_current <= i64::MAX
        &&& 0 <= self.count_max <= u64::MAX
        &&& 0 <= self.bytes_total <= u64::MAX
        &&& i64::MIN <= self.bytes_current <= i64::MAX
        &&& 0 <= self.bytes_max <= u64::MAX
    }
}

/// Allocation totals, outstanding amounts and peaks of one measurement scope.
///
/// `count_*` fields count allocations, `bytes_*` fields count the bytes that
/// were requested. The `*_current` fields are allocations minus
/// deallocations and may go negative when a scope frees memory that was
/// allocated elsewhere.
#[derive(Clone, Copy, Debug, PartialEq, Eq)]
pub struct AllocationInfo {
    pub count_total: u64,
    pub count_current: i64,
    pub count_max: u64,
    pub bytes_total: u64,
    pub bytes_current: i64,
    pub bytes_max: u64,
}

impl View for AllocationInfo {
    type V = AccountingRecord;

    open spec fn view(&self) -> AccountingRecord {
        AccountingRecord {
            count_total: self.count_total as int,
            count_current: self.count_current as int,
            count_max: self.count_max as int,
            bytes_total: self.bytes_total as int,
            bytes_current: self.bytes_current as int,
            bytes_max: self.bytes_max as int,
        }
    }
}

impl Default for AllocationInfo {
    fn default() -> (r: AllocationInfo)
        ensures
            r@ == AccountingRecord::zero(),
    {
        AllocationInfo {
            count_total: 0,
            count_current: 0,
            count_max: 0,
            bytes_total: 0,
            bytes_current: 0,
            bytes_max: 0,
        }
    }
}

impl AllocationInfo {
    /// Number of allocations made in the scope.
    pub fn num_allocations(&self) -> (r: u64)
        ensures
            r == self.count_total,
    {
        self.count_total
    }

    /// Bytes requested by all allocations made in the scope.
    pub fn total_bytes_allocated(&self) -> (r: u64)
        ensures
            r == self.bytes_total,
    {
        self.bytes_total
    }

    /// Bytes allocated and not yet freed.
    pub fn current_bytes_allocated(&self) -> (r: i64)
        ensures
            r == self.bytes_current,
    {
        self.bytes_current
    }

    /// The highest positive number of outstanding bytes seen.
    pub fn max_bytes_allocated(&self) -> (r: u64)
        ensures
            r == self.bytes_max,
    {
        self.bytes_max
    }

    /// Whether one more allocation of `size` bytes can be recorded without
    /// leaving the range of a field.
    pub fn can_record_allocation(&self, size: u64) -> (r: bool)
        ensures
            r == self@.allocate(size as int).fits(),
    {
        self.count_total < u64::MAX && self.count_current < i64::MAX && self.bytes_total <= u64::MAX
            - size && (size as i128) + (self.bytes_current as i128) <= (i64::MAX as i128)
    }

    /// Records one allocation of `size` bytes.
    pub fn record_allocation(&mut self, size: u64)
        requires
            old(self)@.allocate(size as int).fits(),
        ensures
            final(self)@ == old(self)@.allocate(size as int),
    {
        self.count_total = self.count_total + 1;
        self.count_current = self.count_current + 1;
        if self.count_current > 0 && self.count_current as u64 > self.count_max {
            self.count_max = self.count_current as u64;
        }
        self.bytes_total = self.bytes_total + size;
        self.bytes_current = (self.bytes_current as i128 + size as i128) as i64;
        if self.bytes_current > 0 && self.bytes_current as u64 > self.bytes_max {
            self.bytes_max = self.bytes_current as u64;
        }
    }

    /// Whether one more deallocation of `size` bytes can be recorded without
    /// leaving the range of a field.
    pub fn can_record_deallocation(&self, size: u64) -> (r: bool)
        ensures
            r == self@.deallocate(size as int).fits(),
    {
        self.count_current > i64::MIN && (self.bytes_current as i128) - (size as i128)
            >= (i64::MIN as i128)
    }

    /// Records one deallocation of `size` bytes.
    pub fn record_deallocation(&mut self, size: u64)
        requires
            old(self)@.deallocate(size as int).fits(),
        ensures
            final(self)@ == old(self)@.deallocate(size as int),
    {
        self.count_current = self.count_current - 1;
        self.bytes_current = (self.bytes_current as i128 - size as i128) as i64;
    }

    /// Whether `other` can be added to this record without leaving the range
    /// of a field.
    pub fn can_merge(&self, other: &AllocationInfo) -> (r: bool)
        ensures
            r == self@.merge(other@).fits(),
    {
        self.count_total <= u64::MAX - other.count_total && (self.count_current as i128)
            + (other.count_current as i128) >= (i64::MIN as i128) && (self.count_current as i128)
            + (other.count_current as i128) <= (i64::MAX as i128) && self.count_max <= u64::MAX
            - other.count_max && self.bytes_total <= u64::MAX - other.bytes_total && (
        self.bytes_current as i128) + (other.bytes_current as i128) >= (i64::MIN as i128) && (
        self.bytes_current as i128) + (other.bytes_current as i128) <= (i64::MAX as i128)
            && self.bytes_max <= u64::MAX - other.bytes_max
    }

    /// Adds every field of `other` to this record.
    pub fn merge(&mut self, other: &AllocationInfo)
        requires
            old(self)@.merge(other@).fits(),
        ensures
            final(self)@ == old(self)@.merge(other@),
    {
        self.count_total = self.count_total + other.count_total;
        self.count_current = self.count_current + other.count_current;
        self.count_max = self.count_max + other.count_max;
        self.bytes_total = self.bytes_total + other.bytes_total;
        self.bytes_current = self.bytes_current + other.bytes_current;
        self.bytes_max = self.bytes_max + other.bytes_max;
    }
}

} // verus!
