use basalto::kernel_hash::KernelMetadata;
use basalto::recompile::{optimized_metadata, recompile_plan};

fn original() -> KernelMetadata {
    KernelMetadata {
        operation: "stencil_2d".to_string(),
        dtype: "f64".to_string(),
        shape: vec![300, 200],
        strides: vec![200, 1],
        radius: 1,
        matmul_m: None,
        matmul_n: None,
        matmul_k: None,
        matmul_trans_a: None,
        matmul_trans_b: None,
        matmul_batch: None,
        vendor: "NVIDIA".to_string(),
        arch: "sm_80".to_string(),
        driver_version: "535".to_string(),
        job_id: Some("j".to_string()),
        node_id: Some("n".to_string()),
        capabilities: None,
    }
}

#[test]
fn plan_without_overrides() {
    let p = recompile_plan(&original(), 2048, None, None, None, None);
    assert_eq!(p.op, "stencil_2d");
    assert_eq!(p.dtype, "f64");
    assert_eq!(p.dims, 2);
    assert_eq!((p.tile_x, p.tile_y, p.shared_mem_bytes), (300, 1, 2048));
    assert_eq!((p.stride_x, p.stride_y, p.stride_z), (200, 1, 1));
}

#[test]
fn plan_with_overrides() {
    let p = recompile_plan(&original(), 2048, Some("f32"), Some(32), Some(8), Some(4096));
    assert_eq!(p.dtype, "f32");
    assert_eq!((p.tile_x, p.tile_y, p.shared_mem_bytes), (32, 8, 4096));
}

#[test]
fn plan_of_a_shapeless_kernel() {
    let mut m = original();
    m.shape = vec![];
    m.strides = vec![];
    let p = recompile_plan(&m, 0, None, None, None, None);
    assert_eq!(p.op, "stencil_0d");
    assert_eq!((p.tile_x, p.stride_x, p.stride_y, p.stride_z), (128, 1, 1, 1));
}

#[test]
fn rebuilt_metadata() {
    let m = optimized_metadata(&original(), "f32");
    assert_eq!(m.operation, "stencil_2d");
    assert_eq!(m.dtype, "f32");
    assert_eq!(m.shape, vec![300, 200]);
    assert_eq!(m.strides, vec![200, 1]);
    assert_eq!(m.radius, 1);
    assert!(m.job_id.is_none() && m.node_id.is_none());
    assert_eq!((m.vendor.as_str(), m.arch.as_str(), m.driver_version.as_str()), ("NVIDIA", "sm_80", "535"));
}
