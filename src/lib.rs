//! Per-thread accounting of heap allocations: totals, outstanding amounts and
//! peaks, attributed to nested measurement scopes, with regions that can opt
//! out of being counted.

pub mod laws;
pub mod record;
pub mod scope;
pub mod stack;
pub mod tracker;

pub use laws::HeapEvent;
pub use record::{AccountingRecord, AllocationInfo};
pub use scope::{
    assert_max_allocations, assert_no_allocations, assert_num_allocations, avoid_counting,
    check_max_allocations, check_num_allocations, count, measure, AllocationLimitError,
};
pub use stack::{AllocationInfoStack, MAX_DEPTH};
pub use tracker::{AllocationTracker, TrackerView};
