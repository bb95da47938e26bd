use basalto::tuning::{
    block_candidate, capture_gpu_hardware_time, flir_tiling, grid_too_small, record_sample, BlockChange,
};

#[test]
fn slow_kernel_gets_a_larger_block() {
    assert_eq!(block_candidate(256, 1, 1024, true, false), Some((512, BlockChange::Increase)));
    assert_eq!(block_candidate(16, 16, 1024, true, false), Some((512, BlockChange::Increase)));
}

#[test]
fn fast_kernel_gets_a_smaller_block() {
    assert_eq!(block_candidate(256, 1, 1024, false, true), Some((128, BlockChange::Decrease)));
}

#[test]
fn no_candidate_beyond_the_device_limit() {
    assert_eq!(block_candidate(512, 1, 512, true, false), None);
    assert_eq!(block_candidate(128, 1, 1024, false, true), None);
    assert_eq!(block_candidate(256, 1, 1024, false, false), None);
}

#[test]
fn small_grids() {
    assert!(grid_too_small(10, 1, 80));
    assert!(!grid_too_small(160, 1, 80));
    assert!(!grid_too_small(0, 5, 80));
}

#[test]
fn history_keeps_the_last_hundred() {
    let mut h: Vec<u128> = Vec::new();
    for i in 0..100u128 {
        assert!(!record_sample(&mut h, i));
    }
    assert_eq!(h.len(), 100);
    assert!(!record_sample(&mut h, 1000));
    assert_eq!(h.len(), 100);
    assert_eq!(h[0], 1);
    assert_eq!(h[99], 1000);
}

#[test]
fn slow_history_forces_alignment() {
    let mut h: Vec<u128> = Vec::new();
    assert!(!record_sample(&mut h, 5000));
    assert!(record_sample(&mut h, 5002));
    assert_eq!(h, vec![5000, 5002]);
}

#[test]
fn hardware_time_placeholder() {
    assert_eq!(capture_gpu_hardware_time(&[1, 2, 3]), 4200);
}

#[test]
fn tiling_of_a_stencil() {
    assert_eq!(flir_tiling(None, "f32"), (128, 520));
    assert_eq!(flir_tiling(Some(1024), "f64"), (1024, 8208));
}
