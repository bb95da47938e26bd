//! The decisions of the kernel interceptor around one stencil request: which
//! requests it accepts, the metadata that names the kernel (and the audit
//! record of it), the job a run is billed to, and the launch tiles of a
//! cached kernel.
use vstd::prelude::*;
use vstd::slice::slice_to_vec;
use vstd::utf8::encode_utf8;

use crate::hardware::GpuIdentity;
use crate::kernel_hash::KernelMetadata;
use crate::kernel_text::{extract_radius, op_radius};

verus! {

/// Why the interceptor refused a request.
#[derive(Debug, PartialEq, Eq, Structural)]
pub enum InterceptError {
    /// Only 1-, 2- and 3-dimensional stencils are supported; holds the rank given.
    UnsupportedRank(usize),
    /// The shape and the strides differ in length.
    StrideCountMismatch,
    /// A device pointer is null.
    NullDevicePointer,
}

/// The verdict on a request: the rank is checked first, then the strides,
/// then the device pointers.
pub open spec fn request_verdict(rank: usize, stride_count: usize, x_is_null: bool, y_is_null: bool) -> Result<
    (),
    InterceptError,
> {
    if rank == 0 || rank > 3 {
        Err(InterceptError::UnsupportedRank(rank))
    } else if rank != stride_count {
        Err(InterceptError::StrideCountMismatch)
    } else if x_is_null || y_is_null {
        Err(InterceptError::NullDevicePointer)
    } else {
        Ok(())
    }
}

/// Checks a stencil request before any work is done.
pub fn check_request(rank: usize, stride_count: usize, x_is_null: bool, y_is_null: bool) -> (r: Result<
    (),
    InterceptError,
>)
    ensures
        r == request_verdict(rank, stride_count, x_is_null, y_is_null),
{
    if rank == 0 || rank > 3 {
        return Err(InterceptError::UnsupportedRank(rank));
    }
    if rank != stride_count {
        return Err(InterceptError::StrideCountMismatch);
    }
    if x_is_null || y_is_null {
        return Err(InterceptError::NullDevicePointer);
    }
    Ok(())
}

/// The metadata of a stencil kernel: the request, its radius, the GPU's
/// identity and capabilities, no GEMM block; `job` and `node` go into the
/// job and node fields.
pub open spec fn stencil_metadata_is(
    m: KernelMetadata,
    op: Seq<char>,
    dtype: Seq<char>,
    shape: Seq<usize>,
    strides: Seq<isize>,
    gpu: GpuIdentity,
) -> bool {
    &&& m.operation@ == op
    &&& m.dtype@ == dtype
    &&& m.shape@ == shape
    &&& m.strides@ == strides
    &&& m.radius == op_radius(encode_utf8(op))
    &&& m.matmul_m is None
    &&& m.matmul_n is None
    &&& m.matmul_k is None
    &&& m.matmul_trans_a is None
    &&& m.matmul_trans_b is None
    &&& m.matmul_batch is None
    &&& m.vendor@ == gpu.vendor@
    &&& m.arch@ == gpu.arch@
    &&& m.driver_version@ == gpu.driver_version@
    &&& m.capabilities == gpu.capabilities
}

/// The metadata the cache key of a stencil request is computed from; it
/// names no job and no node.
pub fn stencil_metadata(op: &str, dtype: &str, shape: &[usize], strides: &[isize], gpu: &GpuIdentity) -> (r:
    KernelMetadata)
    ensures
        stencil_metadata_is(r, op@, dtype@, shape@, strides@, *gpu),
        r.job_id is None,
        r.node_id is None,
{
    KernelMetadata {
        operation: op.to_string(),
        dtype: dtype.to_string(),
        shape: slice_to_vec(shape),
        strides: slice_to_vec(strides),
        radius: extract_radius(op),
        matmul_m: None,
        matmul_n: None,
        matmul_k: None,
        matmul_trans_a: None,
        matmul_trans_b: None,
        matmul_batch: None,
        vendor: gpu.vendor.clone(),
        arch: gpu.arch.clone(),
        driver_version: gpu.driver_version.clone(),
        job_id: None,
        node_id: None,
        capabilities: gpu.capabilities,
    }
}

/// The metadata of the audit record of a run: as for the cache key, with
/// the job the run is billed to and the GPU's node.
pub fn audit_metadata(
    op: &str,
    dtype: &str,
    shape: &[usize],
    strides: &[isize],
    gpu: &GpuIdentity,
    job_id: Option<String>,
) -> (r: KernelMetadata)
    ensures
        stencil_metadata_is(r, op@, dtype@, shape@, strides@, *gpu),
        r.job_id == job_id,
        r.node_id matches Some(n) && n@ == gpu.node_id@,
{
    let mut m = stencil_metadata(op, dtype, shape, strides, gpu);
    m.job_id = job_id;
    m.node_id = Some(gpu.node_id.clone());
    m
}

/// The job a run is billed to: the one given, else the first of the
/// Slurm, PBS and LSF job ids that is set.
pub fn effective_job_id(
    job_id: Option<String>,
    slurm_job_id: Option<String>,
    pbs_job_id: Option<String>,
    lsb_job_id: Option<String>,
) -> (r: Option<String>)
    ensures
        r == (if job_id is Some {
            job_id
        } else if slurm_job_id is Some {
            slurm_job_id
        } else if pbs_job_id is Some {
            pbs_job_id
        } else {
            lsb_job_id
        }),
{
    if job_id.is_some() {
        job_id
    } else if slurm_job_id.is_some() {
        slurm_job_id
    } else if pbs_job_id.is_some() {
        pbs_job_id
    } else {
        lsb_job_id
    }
}

/// The launch tiles of a cached kernel: those it was compiled with, else
/// 128 by 1.
pub fn cached_tiles(tile_x: Option<u32>, tile_y: Option<u32>) -> (r: (u32, u32))
    ensures
        r.0 == (match tile_x {
            Some(t) => t,
            None => 128,
        }),
        r.1 == (match tile_y {
            Some(t) => t,
            None => 1,
        }),
{
    let x = match tile_x {
        Some(t) => t,
        None => 128,
    };
    let y = match tile_y {
        Some(t) => t,
        None => 1,
    };
    (x, y)
}

} // verus!
