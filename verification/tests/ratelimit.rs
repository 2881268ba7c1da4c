use openrdc_host::ratelimit::rate_hit;

#[test]
fn at_most_max_within_window() {
    let mut slot = Vec::new();
    for i in 0..10u64 {
        assert!(rate_hit(&mut slot, 1000 + i, 10, 1000), "request {i} should pass");
    }
    assert!(!rate_hit(&mut slot, 1500, 10, 1000));
    assert_eq!(slot.len(), 10);
    // 999 ms after the first hit it is still inside the window.
    assert!(!rate_hit(&mut slot, 1999, 10, 1000));
    // At 1000 ms the first hit has left the window.
    assert!(rate_hit(&mut slot, 2000, 10, 1000));
    assert_eq!(slot.len(), 10);
}

#[test]
fn refused_requests_are_not_recorded() {
    let mut slot = Vec::new();
    assert!(rate_hit(&mut slot, 0, 1, 1000));
    assert!(!rate_hit(&mut slot, 10, 1, 1000));
    assert!(!rate_hit(&mut slot, 20, 1, 1000));
    assert_eq!(slot, vec![0]);
    assert!(rate_hit(&mut slot, 1000, 1, 1000));
    assert_eq!(slot, vec![1000]);
}

#[test]
fn clock_going_back_counts_as_no_time() {
    let mut slot = vec![5000];
    assert!(!rate_hit(&mut slot, 10, 1, 1000));
    assert_eq!(slot, vec![5000]);
}
