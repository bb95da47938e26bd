use basalto::kernel_hash::DeviceCapabilities;
use basalto::stencil_ir::{shared_alignment, target_cpu, Stencil1D, Stencil2D, StencilError};

#[test]
fn one_dimensional_offsets() {
    assert_eq!(Stencil1D.neighbor_offsets(3, 1), vec![-1, 0, 1]);
    assert_eq!(Stencil1D.neighbor_offsets(5, 2), vec![-2, -1, 0, 1, 2]);
    assert_eq!(Stencil1D.neighbor_offsets(1, 1), vec![-1]);
    assert!(Stencil1D.neighbor_offsets(0, 1).is_empty());
    assert_eq!(Stencil1D.kernel_name(), "basalto_kernel");
}

#[test]
fn two_dimensional_window() {
    assert_eq!(
        Stencil2D.neighbor_offsets(9),
        vec![(-1, -1), (-1, 0), (-1, 1), (0, -1), (0, 0), (0, 1), (1, -1), (1, 0), (1, 1)]
    );
    assert_eq!(Stencil2D.kernel_name(), "basalto_kernel_2d");
}

#[test]
fn two_dimensional_radius() {
    assert_eq!(Stencil2D.check_radius(1), Ok(()));
    assert_eq!(Stencil2D.check_radius(2), Err(StencilError::UnsupportedRadius(2)));
}

#[test]
fn alignment_and_target() {
    assert_eq!(shared_alignment("f32"), 4);
    assert_eq!(shared_alignment("f64"), 8);
    assert_eq!(target_cpu(None), "sm_70");
    let caps = DeviceCapabilities {
        compute_capability_major: 8,
        compute_capability_minor: 6,
        max_threads_per_block: 1024,
        max_shared_memory_per_block: 49152,
        max_registers_per_block: 65536,
        warp_size: 32,
        multi_processor_count: 84,
    };
    assert_eq!(target_cpu(Some(caps)), "sm_86");
}
