use basalto::hardware::GpuIdentity;
use basalto::interceptor::{
    audit_metadata, cached_tiles, check_request, effective_job_id, stencil_metadata, InterceptError,
};

fn gpu() -> GpuIdentity {
    GpuIdentity {
        vendor: "NVIDIA".to_string(),
        arch: "sm_90".to_string(),
        driver_version: "550.54".to_string(),
        node_id: "node-7".to_string(),
        capabilities: None,
    }
}

#[test]
fn request_checks_in_order() {
    assert_eq!(check_request(0, 0, false, false), Err(InterceptError::UnsupportedRank(0)));
    assert_eq!(check_request(4, 3, true, true), Err(InterceptError::UnsupportedRank(4)));
    assert_eq!(check_request(2, 1, true, false), Err(InterceptError::StrideCountMismatch));
    assert_eq!(check_request(2, 2, false, true), Err(InterceptError::NullDevicePointer));
    assert_eq!(check_request(3, 3, false, false), Ok(()));
}

#[test]
fn metadata_of_a_request() {
    let m = stencil_metadata("stencil_3d_r4", "f64", &[8, 8, 8], &[64, 8, 1], &gpu());
    assert_eq!(m.operation, "stencil_3d_r4");
    assert_eq!(m.dtype, "f64");
    assert_eq!(m.shape, vec![8, 8, 8]);
    assert_eq!(m.strides, vec![64, 8, 1]);
    assert_eq!(m.radius, 4);
    assert_eq!(m.vendor, "NVIDIA");
    assert_eq!(m.arch, "sm_90");
    assert_eq!(m.driver_version, "550.54");
    assert!(m.job_id.is_none() && m.node_id.is_none() && m.matmul_m.is_none());
}

#[test]
fn audit_record_names_job_and_node() {
    let m = audit_metadata("heat_order_8", "f32", &[16], &[1], &gpu(), Some("job-1".to_string()));
    assert_eq!(m.radius, 4);
    assert_eq!(m.job_id, Some("job-1".to_string()));
    assert_eq!(m.node_id, Some("node-7".to_string()));
}

#[test]
fn job_id_fallbacks() {
    let s = |x: &str| Some(x.to_string());
    assert_eq!(effective_job_id(s("given"), s("slurm"), s("pbs"), s("lsf")), s("given"));
    assert_eq!(effective_job_id(None, s("slurm"), s("pbs"), s("lsf")), s("slurm"));
    assert_eq!(effective_job_id(None, None, s("pbs"), s("lsf")), s("pbs"));
    assert_eq!(effective_job_id(None, None, None, s("lsf")), s("lsf"));
    assert_eq!(effective_job_id(None, None, None, None), None);
}

#[test]
fn tiles_of_a_cached_kernel() {
    assert_eq!(cached_tiles(None, None), (128, 1));
    assert_eq!(cached_tiles(Some(64), Some(4)), (64, 4));
}
