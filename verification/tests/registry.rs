use basalto::registry::{record_execution, HeuristicRegistry};

#[test]
fn fast_kernels_leave_the_layout_alone() {
    let mut r = HeuristicRegistry::new();
    assert!(!r.record_time("1_3", 100));
    assert!(!r.record_time("1_3", 300));
    assert_eq!(r.history("1_3").unwrap(), &vec![100u128, 300]);
    assert!(r.layout("1_3").is_none());
    assert!(r.history("other").is_none());
}

#[test]
fn slow_kernels_force_tile_alignment() {
    let mut r = HeuristicRegistry::new();
    assert!(r.record_time("8_8", 9000));
    assert_eq!(r.layout("8_8").unwrap(), "FORCE_TILE_ALIGNMENT_32");
    assert!(r.layout("1_3").is_none());
}

#[test]
fn history_keeps_the_latest_hundred() {
    let mut r = HeuristicRegistry::new();
    for i in 0..150u128 {
        r.record_time("s", i);
    }
    let h = r.history("s").unwrap();
    assert_eq!(h.len(), 100);
    assert_eq!(h[0], 50);
    assert_eq!(h[99], 149);
}

#[test]
fn recording_an_execution() {
    let mut r = HeuristicRegistry::new();
    record_execution(&mut r, &[], &[vec![1, 3, 224, 224]]);
    assert!(r.history("1_3_224_224").is_none());
    record_execution(&mut r, &[1, 2], &[]);
    assert!(r.history("").is_none());
    record_execution(&mut r, &[1, 2], &[vec![1, 3, 224, 224]]);
    record_execution(&mut r, &[1, 2], &[vec![1, 3, 224, 224]]);
    assert_eq!(r.history("1_3_224_224").unwrap(), &vec![4200u128, 4200]);
    assert!(r.layout("1_3_224_224").is_none());
}

#[test]
fn overflow_is_detected_before_recording() {
    let mut r = HeuristicRegistry::new();
    assert!(r.can_record("s", u128::MAX));
    r.record_time("s", u128::MAX - 1);
    assert!(r.can_record("s", 1));
    assert!(!r.can_record("s", 2));
    assert!(r.can_record("t", 2));
}
