use allocation_counter::{
    assert_max_allocations, assert_no_allocations, assert_num_allocations, avoid_counting, count,
    measure, AllocationInfo, AllocationLimitError, AllocationTracker, MAX_DEPTH,
};

fn allocate(mut t: AllocationTracker, sizes: &[u64]) -> AllocationTracker {
    for &size in sizes {
        t.on_allocate(size);
    }
    t
}

fn zero() -> AllocationInfo {
    AllocationInfo::default()
}

fn two_allocations(mut t: AllocationTracker) -> AllocationTracker {
    t.on_allocate(4);
    t.on_deallocate(4);
    t.on_allocate(4);
    t.on_deallocate(4);
    t
}

#[test]
fn allocations_without_frees_add_up() {
    let (_t, info) = measure(AllocationTracker::new(), |t| allocate(t, &[3, 5, 7]));
    assert_eq!(info.count_total, 3);
    assert_eq!(info.count_current, 3);
    assert_eq!(info.bytes_total, 15);
    assert_eq!(info.bytes_current, 15);
    assert_eq!(info.count_max, 3);
    assert_eq!(info.bytes_max, 15);
}

#[test]
fn freeing_everything_leaves_nothing_outstanding() {
    let (_t, info) = measure(AllocationTracker::new(), |mut t| {
        t.on_allocate(8);
        t.on_allocate(16);
        t.on_deallocate(8);
        t.on_allocate(32);
        t.on_deallocate(32);
        t.on_deallocate(16);
        t
    });
    assert_eq!(info.count_total, 3);
    assert_eq!(info.bytes_total, 56);
    assert_eq!(info.count_current, 0);
    assert_eq!(info.bytes_current, 0);
    assert_eq!(info.count_max, 2);
    assert_eq!(info.bytes_max, 48);
}

#[test]
fn peak_is_the_highest_not_the_final_amount() {
    let (_t, info) = measure(AllocationTracker::new(), |mut t| {
        t.on_allocate(4);
        t.on_allocate(4);
        t.on_deallocate(4);
        t
    });
    assert_eq!(info.count_max, 2);
    assert_eq!(info.count_current, 1);
    assert_eq!(info.bytes_max, 8);
    assert_eq!(info.bytes_current, 4);
}

#[test]
fn freeing_what_was_allocated_elsewhere_goes_negative() {
    let (_t, info) = measure(AllocationTracker::new(), |mut t| {
        t.on_deallocate(24);
        t
    });
    assert_eq!(info.count_total, 0);
    assert_eq!(info.count_current, -1);
    assert_eq!(info.bytes_current, -24);
    assert_eq!(info.count_max, 0);
    assert_eq!(info.bytes_max, 0);
}

#[test]
fn nested_scope_totals_add_up() {
    let (t, outer) = measure(AllocationTracker::new(), |mut t| {
        t.on_allocate(10);
        let (t, inner) = measure(t, |t| allocate(t, &[4, 6]));
        assert_eq!(inner.count_total, 2);
        assert_eq!(inner.bytes_total, 10);
        assert_eq!(inner.bytes_max, 10);
        allocate(t, &[1])
    });
    assert_eq!(outer.count_total, 4);
    assert_eq!(outer.bytes_total, 21);
    assert_eq!(outer.count_current, 4);
    assert_eq!(outer.bytes_current, 21);
    // The inner peak is added to the outer one when the inner scope closes.
    assert_eq!(outer.count_max, 4);
    assert_eq!(outer.bytes_max, 21);
    // The closed scope is rolled up into the root frame.
    assert_eq!(t.depth(), 0);
    assert_eq!(t.current(), outer);
}

#[test]
fn peaks_are_added_on_rollup() {
    let (_t, outer) = measure(AllocationTracker::new(), |mut t| {
        t.on_allocate(10);
        t.on_deallocate(10);
        let (t, inner) = measure(t, |mut t| {
            t.on_allocate(6);
            t.on_deallocate(6);
            t
        });
        assert_eq!(inner.bytes_max, 6);
        t
    });
    assert_eq!(outer.bytes_max, 16);
    assert_eq!(outer.count_max, 2);
    assert_eq!(outer.bytes_current, 0);
}

#[test]
fn opted_out_allocations_are_invisible() {
    let start = AllocationTracker::new();
    let (t, info) = measure(start, |t| {
        avoid_counting(t, |mut t| {
            assert_eq!(t.suppression(), 1);
            t.on_allocate(4);
            t.on_deallocate(8);
            t
        })
    });
    assert_eq!(info.count_total, 0);
    assert_eq!(info, zero());
    assert_eq!(t.suppression(), 0);
    assert_eq!(t.depth(), 0);
    assert_eq!(t.current(), zero());
}

#[test]
fn nested_opt_out_stays_suppressed() {
    let (_t, info) = measure(AllocationTracker::new(), |t| {
        let mut t = avoid_counting(t, |t| {
            let mut t = avoid_counting(t, |mut t| {
                assert_eq!(t.suppression(), 2);
                t.on_allocate(4);
                t
            });
            assert_eq!(t.suppression(), 1);
            t.on_allocate(4);
            t
        });
        t.on_allocate(2);
        t
    });
    assert_eq!(info.count_total, 1);
    assert_eq!(info.bytes_total, 2);
}

#[test]
fn repeated_measurement_gives_the_same_record() {
    let work = |t: AllocationTracker| {
        let mut t = allocate(t, &[16, 4]);
        t.on_deallocate(16);
        t
    };
    let (t, first) = measure(AllocationTracker::new(), work);
    let (_t, second) = measure(t, work);
    assert_eq!(first, second);
    assert_eq!(first.count_total, 2);
    assert_eq!(first.bytes_max, 20);
}

#[test]
fn single_four_byte_allocation() {
    let (_t, info) = measure(AllocationTracker::new(), |mut t| {
        t.on_allocate(4);
        t
    });
    assert_eq!(info.count_total, 1);
    assert_eq!(info.count_current, 1);
    assert_eq!(info.count_max, 1);
    assert_eq!(info.bytes_total, 4);
    assert_eq!(info.bytes_current, 4);
    assert_eq!(info.bytes_max, 4);
}

#[test]
fn freed_then_allocated_again() {
    let (_t, info) = measure(AllocationTracker::new(), |mut t| {
        t.on_allocate(4);
        t.on_deallocate(4);
        t.on_allocate(4);
        t
    });
    assert_eq!(info.count_total, 2);
    assert_eq!(info.count_current, 1);
    assert_eq!(info.count_max, 1);
    assert_eq!(info.bytes_total, 8);
    assert_eq!(info.bytes_current, 4);
    assert_eq!(info.bytes_max, 4);
}

#[test]
fn count_returns_the_number_of_allocations() {
    let (_t, n) = count(AllocationTracker::new(), |t| allocate(t, &[1, 2, 3, 4, 5]));
    assert_eq!(n, 5);
}

#[test]
fn assert_no_allocations_reports_the_observed_count() {
    let (_t, verdict) = assert_no_allocations(AllocationTracker::new(), |t| allocate(t, &[4]));
    assert_eq!(verdict, Err(AllocationLimitError::MoreThan { limit: 0, observed: 1 }));
}

#[test]
fn assert_max_allocations_reports_limit_and_count() {
    let (_t, verdict) = assert_max_allocations(AllocationTracker::new(), 1, two_allocations);
    assert_eq!(verdict, Err(AllocationLimitError::MoreThan { limit: 1, observed: 2 }));
}

#[test]
fn assert_num_allocations_reports_range_and_count() {
    let (t, verdict) = assert_num_allocations(AllocationTracker::new(), 10..12, two_allocations);
    assert_eq!(
        verdict,
        Err(AllocationLimitError::OutsideRange { start: 10, end: 12, observed: 2 })
    );
    // The end of the range is excluded.
    let (_t, verdict) = assert_num_allocations(t, 0..2, two_allocations);
    assert_eq!(
        verdict,
        Err(AllocationLimitError::OutsideRange { start: 0, end: 2, observed: 2 })
    );
}

#[test]
fn stack_holds_up_to_its_capacity() {
    let mut t = AllocationTracker::new();
    let mut opened = 0;
    while t.can_begin_measure() {
        t.begin_measure();
        opened += 1;
    }
    assert_eq!(opened, MAX_DEPTH - 1);
    assert_eq!(t.depth() as usize, MAX_DEPTH - 1);
    t.on_allocate(4);
    while t.can_end_measure() {
        let info = t.end_measure();
        assert_eq!(info.count_total, 1);
    }
    assert_eq!(t.depth(), 0);
    assert_eq!(t.current().count_total, 1);
    assert!(!t.can_end_measure());
}

#[test]
fn allocation_that_would_overflow_is_refused() {
    let mut info = AllocationInfo::default();
    assert!(info.can_record_allocation(4));
    info.count_total = u64::MAX;
    assert!(!info.can_record_allocation(4));

    let mut info = AllocationInfo::default();
    info.bytes_current = i64::MAX - 3;
    assert!(info.can_record_allocation(3));
    assert!(!info.can_record_allocation(4));

    let mut info = AllocationInfo::default();
    info.bytes_current = i64::MIN + 3;
    assert!(info.can_record_deallocation(3));
    assert!(!info.can_record_deallocation(4));

    let mut a = AllocationInfo::default();
    let mut b = AllocationInfo::default();
    a.bytes_max = u64::MAX - 1;
    b.bytes_max = 1;
    assert!(a.can_merge(&b));
    b.bytes_max = 2;
    assert!(!a.can_merge(&b));
}

#[test]
fn tracker_refuses_only_while_counting() {
    let mut t = AllocationTracker::new();
    t.on_allocate(u64::MAX >> 1);
    assert!(!t.can_record_allocation(1));
    t.begin_avoid_counting();
    assert!(t.can_record_allocation(1));
    t.end_avoid_counting();
    assert!(t.can_record_deallocation(1));
}

#[test]
fn record_operations_update_every_field() {
    let mut info = AllocationInfo::default();
    info.record_allocation(100);
    info.record_allocation(50);
    info.record_deallocation(100);
    assert_eq!(info.count_total, 2);
    assert_eq!(info.count_current, 1);
    assert_eq!(info.count_max, 2);
    assert_eq!(info.bytes_total, 150);
    assert_eq!(info.bytes_current, 50);
    assert_eq!(info.bytes_max, 150);
    assert_eq!(info.num_allocations(), 2);
    assert_eq!(info.total_bytes_allocated(), 150);
    assert_eq!(info.current_bytes_allocated(), 50);
    assert_eq!(info.max_bytes_allocated(), 150);

    let mut total = info;
    total.merge(&info);
    assert_eq!(total.count_total, 4);
    assert_eq!(total.count_current, 2);
    assert_eq!(total.count_max, 4);
    assert_eq!(total.bytes_total, 300);
    assert_eq!(total.bytes_current, 100);
    assert_eq!(total.bytes_max, 300);
}
