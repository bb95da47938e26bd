//! How the SiliconForge compiler rebuilds a cached kernel when the
//! optimizer suggests new parameters: the stencil to generate and the
//! metadata the rebuilt kernel is stored with, under the original key.
use vstd::prelude::*;
use vstd::string::StringExecFns;

use crate::kernel_hash::KernelMetadata;
use crate::kernel_text::{append_decimal, decimal};

verus! {

/// The stencil a suggestion rebuilds: generated as `stencil_{dims}d` of
/// radius 1, with the chosen dtype, tiles, shared memory and the original
/// strides (1 for each missing axis).
pub struct RecompilePlan {
    pub op: String,
    pub dtype: String,
    pub dims: usize,
    pub tile_x: u32,
    pub tile_y: u32,
    pub shared_mem_bytes: u32,
    pub stride_x: isize,
    pub stride_y: isize,
    pub stride_z: isize,
}

/// The stride of an axis, 1 when the axis is missing.
pub open spec fn stride_or_one(s: Seq<isize>, i: int) -> isize {
    if i < s.len() {
        s[i]
    } else {
        1
    }
}

/// The plan for a cached kernel of metadata `original` (compiled with
/// `cached_shared` bytes of shared memory) under a suggestion: the
/// suggested precision, else the original dtype; the suggested X tile, else
/// the first extent taken modulo 2^32 (128 without one); the suggested Y
/// tile, else 1; the suggested shared memory, else the cached amount.
pub open spec fn plan_is(
    p: RecompilePlan,
    original: KernelMetadata,
    cached_shared: u32,
    new_precision: Option<Seq<char>>,
    new_tile_x: Option<u32>,
    new_tile_y: Option<u32>,
    new_shared_mem: Option<u32>,
) -> bool {
    let dims = original.shape@.len();
    &&& p.op@ == "stencil_"@ + decimal(dims) + "d"@
    &&& p.dtype@ == (match new_precision {
        Some(d) => d,
        None => original.dtype@,
    })
    &&& p.dims == dims
    &&& p.tile_x == (match new_tile_x {
        Some(t) => t,
        None => if dims > 0 {
            original.shape@[0] as u32
        } else {
            128
        },
    })
    &&& p.tile_y == (match new_tile_y {
        Some(t) => t,
        None => 1,
    })
    &&& p.shared_mem_bytes == (match new_shared_mem {
        Some(s) => s,
        None => cached_shared,
    })
    &&& p.stride_x == stride_or_one(original.strides@, 0)
    &&& p.stride_y == stride_or_one(original.strides@, 1)
    &&& p.stride_z == stride_or_one(original.strides@, 2)
}

/// The stride a plan gives axis `i` (0 for X, 1 for Y, 2 for Z).
pub open spec fn plan_axis_stride(p: RecompilePlan, i: int) -> isize {
    if i == 0 {
        p.stride_x
    } else if i == 1 {
        p.stride_y
    } else {
        p.stride_z
    }
}

/// A rebuilt kernel walks memory as the cached one did: each axis the
/// cached kernel has keeps its own stride, and each missing axis (up to
/// three) gets stride 1, whatever the suggestion.
pub proof fn law_rebuild_keeps_each_axis_stride(
    p: RecompilePlan,
    original: KernelMetadata,
    cached_shared: u32,
    new_precision: Option<Seq<char>>,
    new_tile_x: Option<u32>,
    new_tile_y: Option<u32>,
    new_shared_mem: Option<u32>,
    i: int,
)
    requires
        plan_is(p, original, cached_shared, new_precision, new_tile_x, new_tile_y, new_shared_mem),
        0 <= i < 3,
    ensures
        i < original.strides@.len() ==> plan_axis_stride(p, i) == original.strides@[i],
        i >= original.strides@.len() ==> plan_axis_stride(p, i) == 1,
{
}

/// The optional text of an optional string slice.
pub open spec fn opt_str(o: Option<&str>) -> Option<Seq<char>> {
    match o {
        Some(s) => Some(s@),
        None => None,
    }
}

/// The rebuild a suggestion asks for.
pub fn recompile_plan(
    original: &KernelMetadata,
    cached_shared: u32,
    new_precision: Option<&str>,
    new_tile_x: Option<u32>,
    new_tile_y: Option<u32>,
    new_shared_mem: Option<u32>,
) -> (r: RecompilePlan)
    ensures
        plan_is(r, *original, cached_shared, opt_str(new_precision), new_tile_x, new_tile_y, new_shared_mem),
{
    let dims = original.shape.len();
    let dtype = match new_precision {
        Some(d) => String::from_str(d),
        None => original.dtype.clone(),
    };
    let mut op = String::from_str("stencil_");
    append_decimal(&mut op, dims as u64);
    op.append("d");
    let tile_x: u32 = match new_tile_x {
        Some(t) => t,
        None => if dims > 0 {
            #[verifier::truncate] (original.shape[0] as u32)
        } else {
            128
        },
    };
    let tile_y: u32 = match new_tile_y {
        Some(t) => t,
        None => 1,
    };
    let shared_mem_bytes: u32 = match new_shared_mem {
        Some(s) => s,
        None => cached_shared,
    };
    let n = original.strides.len();
    let stride_x: isize = if n > 0 {
        original.strides[0]
    } else {
        1
    };
    let stride_y: isize = if n > 1 {
        original.strides[1]
    } else {
        1
    };
    let stride_z: isize = if n > 2 {
        original.strides[2]
    } else {
        1
    };
    RecompilePlan { op, dtype, dims, tile_x, tile_y, shared_mem_bytes, stride_x, stride_y, stride_z }
}

/// The metadata a rebuilt kernel is stored with: the original's, with the
/// new dtype, radius 1, no GEMM block and no job or node.
pub fn optimized_metadata(original: &KernelMetadata, dtype: &str) -> (r: KernelMetadata)
    ensures
        r.operation@ == original.operation@,
        r.dtype@ == dtype@,
        r.shape@ == original.shape@,
        r.strides@ == original.strides@,
        r.radius == 1,
        r.matmul_m is None && r.matmul_n is None && r.matmul_k is None,
        r.matmul_trans_a is None && r.matmul_trans_b is None && r.matmul_batch is None,
        r.vendor@ == original.vendor@,
        r.arch@ == original.arch@,
        r.driver_version@ == original.driver_version@,
        r.job_id is None,
        r.node_id is None,
        r.capabilities == original.capabilities,
{
    let shape = original.shape.clone();
    let strides = original.strides.clone();
    proof {
        assert(shape@ =~= original.shape@);
        assert(strides@ =~= original.strides@);
    }
    KernelMetadata {
        operation: original.operation.clone(),
        dtype: String::from_str(dtype),
        shape,
        strides,
        radius: 1,
        matmul_m: None,
        matmul_n: None,
        matmul_k: None,
        matmul_trans_a: None,
        matmul_trans_b: None,
        matmul_batch: None,
        vendor: original.vendor.clone(),
        arch: original.arch.clone(),
        driver_version: original.driver_version.clone(),
        job_id: None,
        node_id: None,
        capabilities: original.capabilities,
    }
}

} // verus!
