use alpha::capacity::{BufferCapacity, INITIAL_RECT_COUNT};

#[test]
fn initial_capacity_holds_one_rect() {
    let cap = BufferCapacity::new();
    assert_eq!(INITIAL_RECT_COUNT, 1);
    assert_eq!(cap.max_vertices(), 4);
    assert_eq!(cap.max_indices(), 6);
}

#[test]
fn a_batch_that_fits_does_not_grow() {
    let mut cap = BufferCapacity::new();
    let plan = cap.plan_upload(4, 6);
    assert!(plan.grow_to.is_none());
    assert!(plan.copy_vertices && plan.copy_indices);
    assert_eq!(plan.draw_count, 6);
}

#[test]
fn a_larger_batch_grows_both_buffers() {
    let mut cap = BufferCapacity::new();
    let plan = cap.plan_upload(12, 18);
    assert_eq!(plan.grow_to, Some((12, 18)));
    assert_eq!((cap.max_vertices(), cap.max_indices()), (12, 18));
    // The same batch again fits.
    assert!(cap.plan_upload(12, 18).grow_to.is_none());
}

#[test]
fn growth_never_shrinks_the_other_buffer() {
    let mut cap = BufferCapacity::new();
    cap.plan_upload(40, 6);
    let plan = cap.plan_upload(4, 60);
    assert_eq!(plan.grow_to, Some((40, 60)));
}

#[test]
fn an_empty_batch_copies_nothing_and_draws_nothing() {
    let mut cap = BufferCapacity::new();
    let plan = cap.plan_upload(0, 0);
    assert!(plan.grow_to.is_none());
    assert!(!plan.copy_vertices);
    assert!(!plan.copy_indices);
    assert_eq!(plan.draw_count, 0);
}
