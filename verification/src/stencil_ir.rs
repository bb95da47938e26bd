//! The integer decisions of the NVPTX stencil generators, made when a
//! kernel is generated: entry names, which neighbour each coefficient
//! weighs, the supported radius, the shared-memory alignment and the
//! target processor.
use vstd::prelude::*;
use vstd::string::StringExecFns;

use crate::kernel_hash::DeviceCapabilities;
use crate::kernel_text::{append_decimal, decimal};
use crate::text::str_eq;

verus! {

/// Generator of 1-D stencil kernels over a shared-memory tile.
pub struct Stencil1D;

/// Generator of 2-D stencil kernels over a shared-memory tile.
pub struct Stencil2D;

/// Why a stencil kernel was not generated.
#[derive(Debug, PartialEq, Eq, Structural)]
pub enum StencilError {
    /// The 2-D generator supports radius 1 only; holds the radius asked for.
    UnsupportedRadius(i64),
}

/// The neighbour offsets of a 1-D stencil: coefficient `i` weighs the
/// element `i - radius` away from the centre.
pub open spec fn offsets_1d(coeff_count: nat, radius: i64) -> Seq<i64> {
    Seq::new(coeff_count, |i: int| (i - radius) as i64)
}

/// The neighbour offsets `(dy, dx)` of a radius-1 2-D stencil: the
/// coefficients walk the 3 by 3 window row by row.
pub open spec fn offsets_2d(coeff_count: nat) -> Seq<(i64, i64)> {
    Seq::new(coeff_count, |i: int| ((i / 3 - 1) as i64, (i % 3 - 1) as i64))
}

impl Stencil1D {
    /// Name of the generated kernel entry point.
    pub fn kernel_name(&self) -> (r: &'static str)
        ensures
            r@ == "basalto_kernel"@,
    {
        "basalto_kernel"
    }

    /// Which neighbour each of `coeff_count` coefficients weighs.
    pub fn neighbor_offsets(&self, coeff_count: usize, radius: i64) -> (r: Vec<i64>)
        requires
            coeff_count <= i64::MAX,
            coeff_count - 1 - radius <= i64::MAX,
        ensures
            r@ == offsets_1d(coeff_count as nat, radius),
    {
        let mut r: Vec<i64> = Vec::new();
        let mut i: usize = 0;
        while i < coeff_count
            invariant
                i <= coeff_count,
                coeff_count <= i64::MAX,
                coeff_count - 1 - radius <= i64::MAX,
                r@ == offsets_1d(i as nat, radius),
            decreases coeff_count - i,
        {
            let off: i64 = (i as i64) - radius;
            r.push(off);
            proof {
                assert(r@ =~= offsets_1d(i as nat + 1, radius));
            }
            i += 1;
        }
        r
    }
}

impl Stencil2D {
    /// Name of the generated kernel entry point.
    pub fn kernel_name(&self) -> (r: &'static str)
        ensures
            r@ == "basalto_kernel_2d"@,
    {
        "basalto_kernel_2d"
    }

    /// The 2-D generator supports radius 1 only.
    pub fn check_radius(&self, radius: i64) -> (r: Result<(), StencilError>)
        ensures
            r == (if radius == 1 {
                Ok::<(), StencilError>(())
            } else {
                Err(StencilError::UnsupportedRadius(radius))
            }),
    {
        if radius != 1 {
            return Err(StencilError::UnsupportedRadius(radius));
        }
        Ok(())
    }

    /// Which neighbour each of `coeff_count` coefficients weighs.
    pub fn neighbor_offsets(&self, coeff_count: usize) -> (r: Vec<(i64, i64)>)
        requires
            coeff_count <= i64::MAX,
        ensures
            r@ == offsets_2d(coeff_count as nat),
    {
        let mut r: Vec<(i64, i64)> = Vec::new();
        let mut i: usize = 0;
        while i < coeff_count
            invariant
                i <= coeff_count,
                coeff_count <= i64::MAX,
                r@ == offsets_2d(i as nat),
            decreases coeff_count - i,
        {
            let k = i as i64;
            let dy: i64 = k / 3 - 1;
            let dx: i64 = k % 3 - 1;
            r.push((dy, dx));
            proof {
                assert(r@ =~= offsets_2d(i as nat + 1));
            }
            i += 1;
        }
        r
    }
}

/// With nine coefficients, the 2-D stencil weighs each neighbour of the
/// 3 by 3 window exactly once: `(dy, dx)` at coefficient `3 (dy + 1) + dx + 1`.
pub proof fn law_window_covered_once(dy: int, dx: int, i: int)
    requires
        -1 <= dy <= 1,
        -1 <= dx <= 1,
        0 <= i < 9,
    ensures
        offsets_2d(9)[3 * (dy + 1) + dx + 1] == ((dy as i64), (dx as i64)),
        offsets_2d(9)[i] == ((dy as i64), (dx as i64)) <==> i == 3 * (dy + 1) + dx + 1,
{
    let j = 3 * (dy + 1) + dx + 1;
    assert(j / 3 == dy + 1 && j % 3 == dx + 1);
}

/// With `2 radius + 1` coefficients, the 1-D stencil weighs the neighbours
/// from `-radius` to `radius` in order, each once.
pub proof fn law_line_covered_once(radius: i64, d: int)
    requires
        0 <= radius,
        -radius <= d <= radius,
    ensures
        offsets_1d((2 * radius + 1) as nat, radius)[d + radius] == d,
        forall|i: int| 0 <= i < 2 * radius + 1 && #[trigger] offsets_1d((2 * radius + 1) as nat, radius)[i] == d ==> i == d + radius,
{
}

/// Alignment of the shared-memory tile: 4 bytes for `f32`, 8 otherwise.
pub open spec fn shared_align(dtype: Seq<char>) -> u32 {
    if dtype == "f32"@ {
        4
    } else {
        8
    }
}

/// Alignment of the shared-memory tile of a kernel over `dtype`.
pub fn shared_alignment(dtype: &str) -> (r: u32)
    ensures
        r == shared_align(dtype@),
{
    if str_eq(dtype, "f32") {
        4
    } else {
        8
    }
}

/// The processor PTX is emitted for: `sm_` followed by the major and minor
/// compute capability, `sm_70` without capabilities.
pub open spec fn target_cpu_text(caps: Option<DeviceCapabilities>) -> Seq<char> {
    match caps {
        Some(c) => "sm_"@ + decimal(c.compute_capability_major as nat) + decimal(c.compute_capability_minor as nat),
        None => "sm_70"@,
    }
}

/// The processor PTX is emitted for.
pub fn target_cpu(caps: Option<DeviceCapabilities>) -> (r: String)
    ensures
        r@ == target_cpu_text(caps),
{
    match caps {
        Some(c) => {
            let mut s = String::from_str("sm_");
            append_decimal(&mut s, c.compute_capability_major);
            append_decimal(&mut s, c.compute_capability_minor);
            s
        },
        None => String::from_str("sm_70"),
    }
}

} // verus!
