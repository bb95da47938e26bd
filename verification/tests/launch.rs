use basalto::launch::{cublas_plan, GemmError, GemmRoutine};
use basalto::launch::{
    check_buffers, element_size, gemm_element_size, halo_extents, kernel_int_args, launch_geometry, HaloExtents,
    LaunchError, LaunchGeometry,
};

#[test]
fn geometry_of_a_1d_stencil() {
    let g = launch_geometry(&[1000], 256, 1).unwrap();
    assert_eq!(g, LaunchGeometry { grid: (4, 1, 1), block: (256, 1, 1) });
}

#[test]
fn geometry_of_a_2d_and_3d_stencil() {
    let g = launch_geometry(&[100, 50], 16, 16).unwrap();
    assert_eq!(g, LaunchGeometry { grid: (7, 4, 1), block: (16, 16, 1) });
    let g3 = launch_geometry(&[64, 64, 8], 32, 8).unwrap();
    assert_eq!(g3, LaunchGeometry { grid: (2, 8, 1), block: (32, 8, 1) });
}

#[test]
fn block_is_capped_at_1024() {
    let g = launch_geometry(&[5000], 4096, 1).unwrap();
    assert_eq!(g.block, (1024, 1, 1));
    assert_eq!(g.grid, (5, 1, 1));
}

#[test]
fn geometry_refuses_other_ranks() {
    assert_eq!(launch_geometry(&[], 16, 16), Err(LaunchError::UnsupportedDims(0)));
    assert_eq!(launch_geometry(&[2, 2, 2, 2], 16, 16), Err(LaunchError::UnsupportedDims(4)));
}

#[test]
fn int_args_pad_strides_with_one() {
    assert_eq!(kernel_int_args(&[10, 20], &[20, 1]), vec![10, 20, 20, 1, 1]);
    assert_eq!(kernel_int_args(&[7], &[1]), vec![7, 1, 1, 1]);
    assert_eq!(kernel_int_args(&[2, 3, 4], &[12, 4, 1]), vec![2, 3, 4, 12, 4, 1]);
}

#[test]
fn buffers_are_required() {
    assert_eq!(check_buffers(1, 1), Ok(()));
    assert_eq!(check_buffers(0, 1), Err(LaunchError::MissingBuffers));
    assert_eq!(check_buffers(1, 0), Err(LaunchError::MissingBuffers));
}

#[test]
fn element_sizes() {
    assert_eq!(element_size("f32"), 4);
    assert_eq!(element_size("f16"), 2);
    assert_eq!(element_size("bf16"), 2);
    assert_eq!(element_size("f64"), 8);
    assert_eq!(gemm_element_size("f32"), 4);
    assert_eq!(gemm_element_size("f16"), 8);
}

#[test]
fn halo_extents_by_rank() {
    assert_eq!(
        halo_extents(&[64], 2),
        HaloExtents { nx: 64, ny: 1, nz: 1, halo_x: 2, halo_y: 0, halo_z: 0 }
    );
    assert_eq!(
        halo_extents(&[8, 9, 10], 3),
        HaloExtents { nx: 8, ny: 9, nz: 10, halo_x: 3, halo_y: 3, halo_z: 3 }
    );
}

#[test]
fn cublas_plan_of_a_batched_sgemm() {
    let p = cublas_plan(2, 3, 4, true, false, 3, "f32").unwrap();
    assert_eq!(p.routine, GemmRoutine::Sgemm);
    assert_eq!((p.op_a, p.op_b), (1, 0));
    assert_eq!((p.m, p.n, p.k, p.lda, p.ldb, p.ldc), (2, 3, 4, 2, 4, 2));
    assert_eq!(p.offsets, vec![(0, 0, 0), (32, 48, 24), (64, 96, 48)]);
}

#[test]
fn cublas_plan_of_a_dgemm_and_errors() {
    let p = cublas_plan(2, 2, 2, false, true, 2, "f64").unwrap();
    assert_eq!(p.routine, GemmRoutine::Dgemm);
    assert_eq!(p.offsets, vec![(0, 0, 0), (32, 32, 32)]);
    assert!(cublas_plan(2, 2, 2, false, false, 0, "f32").unwrap().offsets.is_empty());
    assert_eq!(cublas_plan(2, 2, 2, false, false, 1, "f16"), Err(GemmError::UnsupportedDtype));
}

#[test]
fn launch_fits_exactly_when_geometry_can_be_asked() {
    assert!(basalto::launch::fits_launch(&[1024], 128, 0));
    assert!(!basalto::launch::fits_launch(&[1024], 0, 0));
    assert!(!basalto::launch::fits_launch(&[u32::MAX as usize], 128, 1));
    assert!(!basalto::launch::fits_launch(&[16, 16], 32, 0));
    assert!(basalto::launch::fits_launch(&[16, 16], 32, 8));
    assert!(basalto::launch::fits_launch(&[1, 2, 3, 4], 0, 0));
}
