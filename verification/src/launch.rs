//! Launch decisions of the executor: grid and block sizes for a stencil,
//! the integer kernel arguments, element sizes and halo extents.
use vstd::prelude::*;

use crate::hardware::GpuIdentity;
use crate::text::str_eq;

verus! {

/// Why a launch could not be planned.
#[derive(Debug, PartialEq, Eq)]
pub enum LaunchError {
    /// Only 1-, 2- and 3-dimensional stencils are supported; holds the rank given.
    UnsupportedDims(usize),
    /// No input or no output buffer was given.
    MissingBuffers,
}

/// Grid and block dimensions of a launch.
#[derive(Debug, Clone, Copy, PartialEq, Eq)]
pub struct LaunchGeometry {
    pub grid: (u32, u32, u32),
    pub block: (u32, u32, u32),
}

/// Threads per block along an axis: the tile, capped at 1024.
pub open spec fn block_extent(tile: u32) -> u32 {
    if tile < 1024 {
        tile
    } else {
        1024
    }
}

/// Blocks needed to cover `n` elements with blocks of `b`: `ceil(n / b)`,
/// computed as `(n + b - 1) / b`.
pub open spec fn blocks_for(n: u32, b: u32) -> u32 {
    ((n + b - 1) / (b as int)) as u32
}

/// The launch geometry of a stencil over `shape` with tiles `tile_x` by
/// `tile_y`; the extents are taken modulo 2^32 as `u32`. A third axis is
/// not split across the grid.
pub open spec fn geometry(shape: Seq<usize>, tile_x: u32, tile_y: u32) -> Result<LaunchGeometry, LaunchError> {
    let dims = shape.len();
    if dims == 1 {
        let bx = block_extent(tile_x);
        Ok(LaunchGeometry { grid: (blocks_for(shape[0] as u32, bx), 1, 1), block: (bx, 1, 1) })
    } else if dims == 2 || dims == 3 {
        let bx = block_extent(tile_x);
        let by = block_extent(tile_y);
        Ok(
            LaunchGeometry {
                grid: (blocks_for(shape[0] as u32, bx), blocks_for(shape[1] as u32, by), 1),
                block: (bx, by, 1),
            },
        )
    } else {
        Err(LaunchError::UnsupportedDims(dims as usize))
    }
}

/// The tiles are nonzero and each extent plus its block size is a `u32`.
pub open spec fn geometry_fits(shape: Seq<usize>, tile_x: u32, tile_y: u32) -> bool {
    &&& 1 <= shape.len() <= 3 ==> tile_x > 0 && (shape[0] as u32) + block_extent(tile_x) <= u32::MAX
    &&& 2 <= shape.len() <= 3 ==> tile_y > 0 && (shape[1] as u32) + block_extent(tile_y) <= u32::MAX
}

/// Whether [`launch_geometry`] can be asked for this shape and these tiles.
pub fn fits_launch(shape: &[usize], tile_x: u32, tile_y: u32) -> (r: bool)
    ensures
        r == geometry_fits(shape@, tile_x, tile_y),
{
    let d = shape.len();
    let fx = if 1 <= d && d <= 3 {
        let n = #[verifier::truncate] (shape[0] as u32);
        tile_x > 0 && n <= u32::MAX - cap_block(tile_x)
    } else {
        true
    };
    let fy = if 2 <= d && d <= 3 {
        let n = #[verifier::truncate] (shape[1] as u32);
        tile_y > 0 && n <= u32::MAX - cap_block(tile_y)
    } else {
        true
    };
    fx && fy
}

fn cap_block(tile: u32) -> (r: u32)
    ensures
        r == block_extent(tile),
{
    if tile < 1024 {
        tile
    } else {
        1024
    }
}

/// Grid and block sizes for a 1-, 2- or 3-dimensional stencil.
pub fn launch_geometry(shape: &[usize], tile_x: u32, tile_y: u32) -> (r: Result<LaunchGeometry, LaunchError>)
    requires
        geometry_fits(shape@, tile_x, tile_y),
    ensures
        r == geometry(shape@, tile_x, tile_y),
{
    let dims = shape.len();
    if dims == 1 {
        let n = #[verifier::truncate] (shape[0] as u32);
        let bx = cap_block(tile_x);
        let gx = (n + bx - 1) / bx;
        Ok(LaunchGeometry { grid: (gx, 1, 1), block: (bx, 1, 1) })
    } else if dims == 2 || dims == 3 {
        let nx = #[verifier::truncate] (shape[0] as u32);
        let ny = #[verifier::truncate] (shape[1] as u32);
        let bx = cap_block(tile_x);
        let by = cap_block(tile_y);
        let gx = (nx + bx - 1) / bx;
        let gy = (ny + by - 1) / by;
        Ok(LaunchGeometry { grid: (gx, gy, 1), block: (bx, by, 1) })
    } else {
        Err(LaunchError::UnsupportedDims(dims))
    }
}

/// The integer kernel arguments after the two buffers: one extent per axis,
/// then three strides, 1 standing in for each missing axis; each value
/// taken modulo 2^32 as an `i32`.
pub open spec fn int_args(shape: Seq<usize>, strides: Seq<isize>) -> Seq<i32> {
    let d = shape.len();
    Seq::new(d, |i: int| shape[i] as i32) + Seq::new(
        3,
        |i: int| if i < d { strides[i] as i32 } else { 1i32 },
    )
}

/// The integer arguments of a stencil kernel over `shape` and `strides`.
pub fn kernel_int_args(shape: &[usize], strides: &[isize]) -> (r: Vec<i32>)
    requires
        shape.len() <= 3,
        strides.len() >= shape.len(),
    ensures
        r@ == int_args(shape@, strides@),
{
    let d = shape.len();
    let mut r: Vec<i32> = Vec::new();
    let mut i: usize = 0;
    while i < d
        invariant
            i <= d,
            d == shape.len(),
            r@ == Seq::new(i as nat, |k: int| shape@[k] as i32),
        decreases d - i,
    {
        r.push(#[verifier::truncate] (shape[i] as i32));
        proof {
            assert(r@ =~= Seq::new((i + 1) as nat, |k: int| shape@[k] as i32));
        }
        i += 1;
    }
    let ghost head = r@;
    let mut j: usize = 0;
    while j < 3
        invariant
            j <= 3,
            d == shape.len(),
            d <= 3,
            strides.len() >= d,
            r@ == head + Seq::new(j as nat, |k: int| if k < d { strides@[k] as i32 } else { 1i32 }),
        decreases 3 - j,
    {
        let v: i32 = if j < d {
            #[verifier::truncate] (strides[j] as i32)
        } else {
            1
        };
        r.push(v);
        proof {
            assert(r@ =~= head + Seq::new((j + 1) as nat, |k: int| if k < d { strides@[k] as i32 } else { 1i32 }));
        }
        j += 1;
    }
    proof {
        assert(r@ =~= int_args(shape@, strides@));
    }
    r
}

/// The kernel needs an input and an output buffer: an error when either list is empty.
pub fn check_buffers(inputs: usize, outputs: usize) -> (r: Result<(), LaunchError>)
    ensures
        r == (if inputs == 0 || outputs == 0 {
            Err::<(), LaunchError>(LaunchError::MissingBuffers)
        } else {
            Ok(())
        }),
{
    if inputs == 0 || outputs == 0 {
        Err(LaunchError::MissingBuffers)
    } else {
        Ok(())
    }
}

/// Bytes per element of a stencil operand: 2 for the half-precision types
/// `f16` and `bf16`, 4 for `f32`, 8 otherwise.
pub open spec fn stencil_elem_size(dtype: Seq<char>) -> usize {
    if dtype == "f16"@ || dtype == "bf16"@ {
        2
    } else if dtype == "f32"@ {
        4
    } else {
        8
    }
}

/// Bytes per element of a stencil operand.
pub fn element_size(dtype: &str) -> (r: usize)
    ensures
        r == stencil_elem_size(dtype@),
{
    if str_eq(dtype, "f16") || str_eq(dtype, "bf16") {
        2
    } else if str_eq(dtype, "f32") {
        4
    } else {
        8
    }
}

/// Bytes per element of a GEMM operand: 4 for `f32`, 8 otherwise.
pub open spec fn gemm_elem_size(dtype: Seq<char>) -> usize {
    if dtype == "f32"@ {
        4
    } else {
        8
    }
}

/// Bytes per element of a GEMM operand.
pub fn gemm_element_size(dtype: &str) -> (r: usize)
    ensures
        r == gemm_elem_size(dtype@),
{
    if str_eq(dtype, "f32") {
        4
    } else {
        8
    }
}

/// The box and halo widths of the exchange before a stencil launch.
#[derive(Debug, Clone, Copy, PartialEq, Eq)]
pub struct HaloExtents {
    pub nx: usize,
    pub ny: usize,
    pub nz: usize,
    pub halo_x: usize,
    pub halo_y: usize,
    pub halo_z: usize,
}

/// Missing axes count as extent 1 with no halo; every present axis gets `radius`.
pub open spec fn halo_extents_of(shape: Seq<usize>, radius: usize) -> HaloExtents {
    let d = shape.len();
    HaloExtents {
        nx: shape[0],
        ny: if d >= 2 { shape[1] } else { 1 },
        nz: if d >= 3 { shape[2] } else { 1 },
        halo_x: radius,
        halo_y: if d >= 2 { radius } else { 0 },
        halo_z: if d >= 3 { radius } else { 0 },
    }
}

/// The extent of axis `i` (0 for X, 1 for Y, 2 for Z) in a halo box.
pub open spec fn extent_of_axis(e: HaloExtents, i: int) -> usize {
    if i == 0 {
        e.nx
    } else if i == 1 {
        e.ny
    } else {
        e.nz
    }
}

/// The halo width of axis `i` (0 for X, 1 for Y, 2 for Z) in a halo box.
pub open spec fn halo_of_axis(e: HaloExtents, i: int) -> usize {
    if i == 0 {
        e.halo_x
    } else if i == 1 {
        e.halo_y
    } else {
        e.halo_z
    }
}

/// Every axis the stencil has gets a halo as wide as the radius and keeps
/// its extent; every axis it lacks (up to three) has extent 1 and no halo.
pub proof fn law_every_present_axis_gets_the_radius(shape: Seq<usize>, radius: usize, i: int)
    requires
        1 <= shape.len(),
        0 <= i < 3,
    ensures
        i < shape.len() ==> halo_of_axis(halo_extents_of(shape, radius), i) == radius && extent_of_axis(
            halo_extents_of(shape, radius),
            i,
        ) == shape[i],
        i >= shape.len() ==> halo_of_axis(halo_extents_of(shape, radius), i) == 0 && extent_of_axis(
            halo_extents_of(shape, radius),
            i,
        ) == 1,
{
}

/// The box and halo widths for a stencil of the given radius.
pub fn halo_extents(shape: &[usize], radius: usize) -> (r: HaloExtents)
    requires
        shape.len() >= 1,
    ensures
        r == halo_extents_of(shape@, radius),
{
    let d = shape.len();
    HaloExtents {
        nx: shape[0],
        ny: if d >= 2 { shape[1] } else { 1 },
        nz: if d >= 3 { shape[2] } else { 1 },
        halo_x: radius,
        halo_y: if d >= 2 { radius } else { 0 },
        halo_z: if d >= 3 { radius } else { 0 },
    }
}

/// cuBLAS operation codes: `CUBLAS_OP_T` for a transposed operand, `CUBLAS_OP_N` otherwise.
pub open spec fn cublas_op(trans: bool) -> i32 {
    if trans {
        1
    } else {
        0
    }
}

/// The arithmetic of a batched cuBLAS GEMM: `sgemm` for `f32`, `dgemm` for
/// `f64`.
#[derive(Debug, Clone, Copy, PartialEq, Eq)]
pub enum GemmRoutine {
    Sgemm,
    Dgemm,
}

/// A batched GEMM as cuBLAS runs it, one call per batch entry: the routine,
/// the operation codes, the sizes and leading dimensions (column-major, as
/// `i32`), and the byte offsets of A, B and C for each entry.
#[derive(Debug, PartialEq, Eq)]
pub struct CublasPlan {
    pub routine: GemmRoutine,
    pub op_a: i32,
    pub op_b: i32,
    pub m: i32,
    pub n: i32,
    pub k: i32,
    pub lda: i32,
    pub ldb: i32,
    pub ldc: i32,
    pub offsets: Vec<(usize, usize, usize)>,
}

/// Why no cuBLAS plan was made.
#[derive(Debug, PartialEq, Eq, Structural)]
pub enum GemmError {
    /// cuBLAS is only driven for `f32` and `f64`.
    UnsupportedDtype,
}

/// The byte offsets of batch entry `i`: whole `m` by `k`, `k` by `n` and
/// `m` by `n` matrices of `elem`-byte elements before it.
pub open spec fn batch_offsets(m: usize, n: usize, k: usize, elem: usize, count: nat) -> Seq<(usize, usize, usize)> {
    Seq::new(
        count,
        |i: int| ((i * (m * k) * elem) as usize, (i * (k * n) * elem) as usize, (i * (m * n) * elem) as usize),
    )
}

/// The sizes fit: each matrix size is a `usize` and, for a supported
/// dtype, so is the offset of the last batch entry.
pub open spec fn cublas_fits(m: usize, n: usize, k: usize, batch: usize, dtype: Seq<char>) -> bool {
    &&& m * k <= usize::MAX
    &&& k * n <= usize::MAX
    &&& m * n <= usize::MAX
    &&& (dtype == "f32"@ || dtype == "f64"@) && batch > 0 ==> {
        let e = gemm_elem_size(dtype);
        &&& (batch - 1) * (m * k) * e <= usize::MAX
        &&& (batch - 1) * (k * n) * e <= usize::MAX
        &&& (batch - 1) * (m * n) * e <= usize::MAX
    }
}

proof fn lemma_offset_bound(i: int, last: int, s: int, e: int)
    requires
        0 <= i <= last,
        0 <= s,
        1 <= e,
        last * s * e <= usize::MAX,
    ensures
        0 <= i * s <= usize::MAX,
        0 <= i * s * e <= usize::MAX,
{
    assert(0 <= i * s <= last * s) by (nonlinear_arith)
        requires 0 <= i <= last, 0 <= s;
    assert(i * s <= i * s * e <= last * s * e) by (nonlinear_arith)
        requires 0 <= i * s <= last * s, 1 <= e;
}

/// The cuBLAS plan of a batched GEMM.
pub fn cublas_plan(m: usize, n: usize, k: usize, trans_a: bool, trans_b: bool, batch: usize, dtype: &str) -> (r:
    Result<CublasPlan, GemmError>)
    requires
        cublas_fits(m, n, k, batch, dtype@),
    ensures
        !(dtype@ == "f32"@ || dtype@ == "f64"@) ==> r == Err::<CublasPlan, GemmError>(GemmError::UnsupportedDtype),
        (dtype@ == "f32"@ || dtype@ == "f64"@) ==> (r matches Ok(p) && {
            &&& p.routine == (if dtype@ == "f32"@ {
                GemmRoutine::Sgemm
            } else {
                GemmRoutine::Dgemm
            })
            &&& p.op_a == cublas_op(trans_a)
            &&& p.op_b == cublas_op(trans_b)
            &&& p.m == m as i32
            &&& p.n == n as i32
            &&& p.k == k as i32
            &&& p.lda == m as i32
            &&& p.ldb == k as i32
            &&& p.ldc == m as i32
            &&& p.offsets@ == batch_offsets(m, n, k, gemm_elem_size(dtype@), batch as nat)
        }),
{
    let a_stride = m * k;
    let b_stride = k * n;
    let c_stride = m * n;
    let elem_size = gemm_element_size(dtype);
    let routine = if str_eq(dtype, "f32") {
        GemmRoutine::Sgemm
    } else if str_eq(dtype, "f64") {
        GemmRoutine::Dgemm
    } else {
        return Err(GemmError::UnsupportedDtype);
    };
    let mut offsets: Vec<(usize, usize, usize)> = Vec::new();
    let mut i: usize = 0;
    while i < batch
        invariant
            i <= batch,
            a_stride == m * k,
            b_stride == k * n,
            c_stride == m * n,
            elem_size == gemm_elem_size(dtype@),
            dtype@ == "f32"@ || dtype@ == "f64"@,
            cublas_fits(m, n, k, batch, dtype@),
            offsets@ == batch_offsets(m, n, k, elem_size, i as nat),
        decreases batch - i,
    {
        proof {
            lemma_offset_bound(i as int, batch - 1, a_stride as int, elem_size as int);
            lemma_offset_bound(i as int, batch - 1, b_stride as int, elem_size as int);
            lemma_offset_bound(i as int, batch - 1, c_stride as int, elem_size as int);
        }
        offsets.push((i * a_stride * elem_size, i * b_stride * elem_size, i * c_stride * elem_size));
        proof {
            assert(offsets@ =~= batch_offsets(m, n, k, elem_size, i as nat + 1));
        }
        i += 1;
    }
    Ok(
        CublasPlan {
            routine,
            op_a: if trans_a { 1 } else { 0 },
            op_b: if trans_b { 1 } else { 0 },
            m: #[verifier::truncate] (m as i32),
            n: #[verifier::truncate] (n as i32),
            k: #[verifier::truncate] (k as i32),
            lda: #[verifier::truncate] (m as i32),
            ldb: #[verifier::truncate] (k as i32),
            ldc: #[verifier::truncate] (m as i32),
            offsets,
        },
    )
}

/// What the executor reports after a kernel ran: its cache key, how long
/// it took, its launch geometry and the GPU it ran on.
#[derive(Debug)]
pub struct KernelExecutionReport {
    pub kernel_hash: String,
    pub duration_micros: u64,
    pub grid: (u32, u32, u32),
    pub block: (u32, u32, u32),
    pub shared_mem_bytes: u32,
    pub gpu_identity: GpuIdentity,
}

} // verus!
