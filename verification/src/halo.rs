//! Halo exchange planning between neighbouring ranks of a 3-D domain
//! decomposition. The plan lists, axis by axis, the two halo slabs to trade
//! with the ring neighbours; [`exchanged`] says what a rank's buffer holds
//! after one axis is carried out.
use vstd::prelude::*;

use crate::text::str_eq;
use vstd::arithmetic::div_mod::lemma_fundamental_div_mod_converse;

verus! {

/// A halo slab in the device buffer: `runs` runs of `run_bytes` bytes, the
/// first at byte `offset` and each next one `stride` bytes further. A slab
/// across X is one run per row, across Y one run per plane, across Z a
/// single run.
#[derive(Debug, Clone, Copy, PartialEq, Eq)]
pub struct Slab {
    pub offset: usize,
    pub run_bytes: usize,
    pub runs: usize,
    pub stride: usize,
}

/// One axis of the exchange. Both slabs are gathered from the buffer
/// first; then the `high` slab goes to rank `up` while `bytes` bytes come
/// from rank `down`, and the `low` slab goes to rank `down` while as many
/// bytes come from rank `up`; last, what came from `down` is scattered over
/// `low` and what came from `up` over `high`.
#[derive(Debug, Clone, Copy, PartialEq, Eq)]
pub struct AxisExchange {
    pub low: Slab,
    pub high: Slab,
    pub up: i32,
    pub down: i32,
    pub bytes: usize,
}

/// The box, the halo widths and the element size of an exchange.
#[derive(Debug, Clone, Copy, PartialEq, Eq)]
pub struct HaloBox {
    pub nx: usize,
    pub ny: usize,
    pub nz: usize,
    pub halo_x: usize,
    pub halo_y: usize,
    pub halo_z: usize,
    pub elem_size: usize,
}

/// Rust's `%` for a positive divisor: the remainder takes the sign of `a`.
pub open spec fn trunc_rem(a: int, d: int) -> int {
    if a >= 0 {
        a % d
    } else {
        -((-a) % d)
    }
}

/// The previous rank on the ring, `(rank - 1 + size) % size`.
pub open spec fn prev_rank(rank: i32, size: i32) -> i32 {
    trunc_rem(rank - 1 + size, size as int) as i32
}

/// The next rank on the ring, `(rank + 1) % size`.
pub open spec fn next_rank(rank: i32, size: i32) -> i32 {
    trunc_rem(rank + 1, size as int) as i32
}

/// Byte offset of voxel `(x, y, z)` in an `nx` by `ny` by any box.
pub open spec fn voxel_offset(b: HaloBox, x: int, y: int, z: int) -> int {
    (z * b.ny * b.nx + y * b.nx + x) * b.elem_size
}

/// The halo width and extent of an axis (0 for X, 1 for Y, 2 for Z).
pub open spec fn axis_halo(b: HaloBox, axis: int) -> (usize, usize) {
    if axis == 0 {
        (b.halo_x, b.nx)
    } else if axis == 1 {
        (b.halo_y, b.ny)
    } else {
        (b.halo_z, b.nz)
    }
}

/// The slab of an axis's halo width whose cells start at coordinate `start`
/// along that axis and span the whole box along the others: across X one
/// run of `halo_x` cells per row, across Y one run of `halo_y` rows per
/// plane, across Z one run of `halo_z` planes.
pub open spec fn slab_at(b: HaloBox, axis: int, start: int) -> Slab {
    if axis == 0 {
        Slab {
            offset: voxel_offset(b, start, 0, 0) as usize,
            run_bytes: (b.halo_x * b.elem_size) as usize,
            runs: (b.ny * b.nz) as usize,
            stride: (b.nx * b.elem_size) as usize,
        }
    } else if axis == 1 {
        Slab {
            offset: voxel_offset(b, 0, start, 0) as usize,
            run_bytes: (b.halo_y * b.nx * b.elem_size) as usize,
            runs: b.nz,
            stride: (b.ny * b.nx * b.elem_size) as usize,
        }
    } else {
        Slab {
            offset: voxel_offset(b, 0, 0, start) as usize,
            run_bytes: (b.halo_z * b.ny * b.nx * b.elem_size) as usize,
            runs: 1,
            stride: (b.nz * b.ny * b.nx * b.elem_size) as usize,
        }
    }
}

/// The bytes of a slab, all runs together.
pub open spec fn slab_bytes(s: Slab) -> int {
    s.runs * s.run_bytes
}

/// Every run of the slab lies within the first `total` bytes.
pub open spec fn slab_within(s: Slab, total: int) -> bool {
    s.runs == 0 || s.offset + (s.runs - 1) * s.stride + s.run_bytes <= total
}

/// The exchange along one axis: none when its halo is zero, else the slab
/// of the first `h` layers and the slab of the last `h` layers.
pub open spec fn axis_exchange(b: HaloBox, up: i32, down: i32, axis: int) -> Seq<AxisExchange> {
    let (h, n) = axis_halo(b, axis);
    let high = slab_at(b, axis, n - h);
    let low = slab_at(b, axis, 0);
    if h == 0 {
        Seq::empty()
    } else {
        seq![AxisExchange { low, high, up, down, bytes: slab_bytes(high) as usize }]
    }
}

/// The whole exchange: nothing on a single rank, else X, then Y, then Z.
pub open spec fn halo_plan_of(rank: i32, size: i32, b: HaloBox) -> Seq<AxisExchange> {
    if size <= 1 {
        Seq::empty()
    } else {
        let up = next_rank(rank, size);
        let down = prev_rank(rank, size);
        axis_exchange(b, up, down, 0) + axis_exchange(b, up, down, 1) + axis_exchange(b, up, down, 2)
    }
}

/// The bytes of a slab, run after run.
pub open spec fn gather(buf: Seq<u8>, s: Slab) -> Seq<u8> {
    Seq::new(
        (s.runs * s.run_bytes) as nat,
        |i: int| buf[s.offset + (i / (s.run_bytes as int)) * s.stride + i % (s.run_bytes as int)],
    )
}

/// Byte `p` of the buffer lies in a run of the slab.
pub open spec fn in_slab(s: Slab, p: int) -> bool {
    &&& s.stride > 0
    &&& p >= s.offset
    &&& (p - s.offset) / (s.stride as int) < s.runs
    &&& (p - s.offset) % (s.stride as int) < s.run_bytes
}

/// Where byte `p` of a slab comes in the slab's gathered bytes.
pub open spec fn slab_index(s: Slab, p: int) -> int {
    ((p - s.offset) / (s.stride as int)) * s.run_bytes + (p - s.offset) % (s.stride as int)
}

/// The buffer with the slab's bytes replaced, run after run, by `data`.
pub open spec fn scatter(buf: Seq<u8>, s: Slab, data: Seq<u8>) -> Seq<u8> {
    Seq::new(buf.len(), |p: int| if in_slab(s, p) { data[slab_index(s, p)] } else { buf[p] })
}

/// A rank's buffer after one axis of the exchange, from its own buffer and
/// those of the ranks below and above it before that axis: both slabs of
/// every rank are gathered before anything is scattered.
pub open spec fn exchanged(ex: AxisExchange, mine: Seq<u8>, below: Seq<u8>, above: Seq<u8>) -> Seq<u8> {
    scatter(scatter(mine, ex.low, gather(below, ex.high)), ex.high, gather(above, ex.low))
}

/// An extent counted as 1 when it is zero.
pub open spec fn at_least_one(x: usize) -> int {
    if x == 0 {
        1
    } else {
        x as int
    }
}

/// Some axis has a halo to exchange.
pub open spec fn any_halo(b: HaloBox) -> bool {
    b.halo_x > 0 || b.halo_y > 0 || b.halo_z > 0
}

/// The ring neighbours are `i32`s, each nonzero halo is no wider than its
/// axis, and, when some halo is exchanged, the box in bytes (empty axes
/// counted as 1) is a `usize`.
pub open spec fn halo_fits(rank: i32, size: i32, b: HaloBox) -> bool {
    size > 1 ==> {
        &&& i32::MIN <= rank - 1
        &&& rank - 1 + size <= i32::MAX
        &&& rank + 1 <= i32::MAX
        &&& b.halo_x > 0 ==> b.halo_x <= b.nx
        &&& b.halo_y > 0 ==> b.halo_y <= b.ny
        &&& b.halo_z > 0 ==> b.halo_z <= b.nz
        &&& any_halo(b) ==> box_bound(b) <= usize::MAX
    }
}

/// Whether [`halo_plan`] can be asked for this rank, ring size and box.
pub fn plan_fits(rank: i32, size: i32, b: HaloBox) -> (r: bool)
    ensures
        r == halo_fits(rank, size, b),
{
    if size <= 1 {
        return true;
    }
    let ring = rank > i32::MIN && rank - 1 <= i32::MAX - size && rank < i32::MAX;
    let halos = (b.halo_x == 0 || b.halo_x <= b.nx) && (b.halo_y == 0 || b.halo_y <= b.ny) && (b.halo_z == 0
        || b.halo_z <= b.nz);
    let any = b.halo_x > 0 || b.halo_y > 0 || b.halo_z > 0;
    let bound = if any {
        let gx: usize = if b.nx == 0 { 1 } else { b.nx };
        let gy: usize = if b.ny == 0 { 1 } else { b.ny };
        let gz: usize = if b.nz == 0 { 1 } else { b.nz };
        let ge: usize = if b.elem_size == 0 { 1 } else { b.elem_size };
        proof {
            assert(gx as int == at_least_one(b.nx) && gy as int == at_least_one(b.ny));
            assert(gz as int == at_least_one(b.nz) && ge as int == at_least_one(b.elem_size));
        }
        match gx.checked_mul(gy) {
            None => {
                proof {
                    lemma_grows(gx as int * gy as int, gz as int, ge as int);
                }
                false
            },
            Some(p2) => match p2.checked_mul(gz) {
                None => {
                    proof {
                        lemma_grows(p2 as int * gz as int, ge as int, 1);
                    }
                    false
                },
                Some(p3) => match p3.checked_mul(ge) {
                    None => false,
                    Some(_) => true,
                },
            },
        }
    } else {
        true
    };
    ring && halos && bound
}

/// Multiplying by factors of at least 1 never shrinks a product.
proof fn lemma_grows(p: int, a: int, c: int)
    requires
        p >= 0,
        a >= 1,
        c >= 1,
    ensures
        p * a * c >= p,
{
    assert(p * a >= p && p * a * c >= p * a) by (nonlinear_arith)
        requires p >= 0, a >= 1, c >= 1;
}

fn rem_i32(a: i32, d: i32) -> (r: i32)
    requires
        d > 0,
        a > i32::MIN,
    ensures
        r as int == trunc_rem(a as int, d as int),
{
    if a >= 0 {
        a % d
    } else {
        -((-a) % d)
    }
}

/// Every left-to-right partial product of factors bounded by `y1..y4`
/// (each at least 1) is bounded by `y1 * y2 * y3 * y4`.
proof fn lemma_partial_products(x1: int, x2: int, x3: int, x4: int, y1: int, y2: int, y3: int, y4: int)
    requires
        0 <= x1 <= y1,
        0 <= x2 <= y2,
        0 <= x3 <= y3,
        0 <= x4 <= y4,
        1 <= y1,
        1 <= y2,
        1 <= y3,
        1 <= y4,
    ensures
        0 <= x1 <= y1 * y2 * y3 * y4,
        0 <= x1 * x2 <= y1 * y2 * y3 * y4,
        0 <= x1 * x2 * x3 <= y1 * y2 * y3 * y4,
        0 <= x1 * x2 * x3 * x4 <= y1 * y2 * y3 * y4,
{
    assert(y1 <= y1 * y2 && y1 * y2 <= y1 * y2 * y3 && y1 * y2 * y3 <= y1 * y2 * y3 * y4) by (nonlinear_arith)
        requires 1 <= y1, 1 <= y2, 1 <= y3, 1 <= y4;
    assert(0 <= x1 * x2 <= y1 * y2) by (nonlinear_arith)
        requires 0 <= x1 <= y1, 0 <= x2 <= y2;
    assert(0 <= x1 * x2 * x3 <= y1 * y2 * y3) by (nonlinear_arith)
        requires 0 <= x1 * x2 <= y1 * y2, 0 <= x3 <= y3;
    assert(0 <= x1 * x2 * x3 * x4 <= y1 * y2 * y3 * y4) by (nonlinear_arith)
        requires 0 <= x1 * x2 * x3 <= y1 * y2 * y3, 0 <= x4 <= y4;
}

/// The box with empty axes counted as 1, in bytes.
pub open spec fn box_bound(b: HaloBox) -> int {
    at_least_one(b.nx) * at_least_one(b.ny) * at_least_one(b.nz) * at_least_one(b.elem_size)
}

/// The box in bytes.
pub open spec fn box_bytes(b: HaloBox) -> int {
    b.nx * b.ny * b.nz * b.elem_size
}

/// An axis exchange moves as many bytes as each of its slabs holds, and
/// both slabs lie inside the box.
pub open spec fn step_in_box(st: AxisExchange, b: HaloBox) -> bool {
    &&& st.bytes == slab_bytes(st.low)
    &&& st.bytes == slab_bytes(st.high)
    &&& slab_within(st.low, box_bytes(b))
    &&& slab_within(st.high, box_bytes(b))
}

/// Products of the box's factors, each no larger than its counterpart in
/// `box_bound`, are bounded by it; the slab ends meet the box's end.
proof fn lemma_slab_arith(n: int, h: int, p: int, q: int, e: int, gn: int, gp: int, gq: int, ge: int)
    requires
        0 <= h <= n,
        0 <= n <= gn,
        0 <= p <= gp,
        0 <= q <= gq,
        0 <= e <= ge,
        1 <= gn,
        1 <= gp,
        1 <= gq,
        1 <= ge,
    ensures
        0 <= (n - h) * e <= gn * gp * gq * ge,
        0 <= h * e <= gn * gp * gq * ge,
        0 <= n * e <= gn * gp * gq * ge,
        0 <= p * q <= gn * gp * gq * ge,
        0 <= (p * q) * (h * e) <= gn * gp * gq * ge,
        0 <= (p * q) * (n * e) <= gn * gp * gq * ge,
        (n - h) * e + (p * q - 1) * (n * e) + h * e == (p * q) * (n * e),
        0 + (p * q - 1) * (n * e) + h * e <= (p * q) * (n * e),
{
    lemma_partial_products(n - h, e, 0, 0, gn, ge, gp, gq);
    lemma_partial_products(h, e, 0, 0, gn, ge, gp, gq);
    lemma_partial_products(n, e, 0, 0, gn, ge, gp, gq);
    lemma_partial_products(p, q, 0, 0, gp, gq, gn, ge);
    lemma_partial_products(p, q, h, e, gp, gq, gn, ge);
    lemma_partial_products(p, q, n, e, gp, gq, gn, ge);
    assert(gn * ge * gp * gq == gn * gp * gq * ge && gp * gq * gn * ge == gn * gp * gq * ge) by (nonlinear_arith);
    assert((p * q) * (h * e) == p * q * h * e && (p * q) * (n * e) == p * q * n * e) by (nonlinear_arith);
    assert((n - h) * e + (p * q - 1) * (n * e) + h * e == (p * q) * (n * e)) by (nonlinear_arith);
    assert(0 + (p * q - 1) * (n * e) + h * e <= (p * q) * (n * e)) by (nonlinear_arith)
        requires 0 <= h <= n, 0 <= e, p * q >= 0;
}

/// Appends the two exchanges along one axis.
fn push_axis(plan: &mut Vec<AxisExchange>, b: HaloBox, up: i32, down: i32, axis: usize)
    requires
        axis < 3,
        b.halo_x > 0 ==> b.halo_x <= b.nx,
        b.halo_y > 0 ==> b.halo_y <= b.ny,
        b.halo_z > 0 ==> b.halo_z <= b.nz,
        any_halo(b) ==> box_bound(b) <= usize::MAX,
    ensures
        final(plan)@ == old(plan)@ + axis_exchange(b, up, down, axis as int),
        forall|i: int| 0 <= i < final(plan)@.len() - old(plan)@.len() ==> #[trigger] step_in_box(
            final(plan)@[old(plan)@.len() + i],
            b,
        ),
{
    let ghost gx = at_least_one(b.nx);
    let ghost gy = at_least_one(b.ny);
    let ghost gz = at_least_one(b.nz);
    let ghost ge = at_least_one(b.elem_size);
    let h: usize = if axis == 0 {
        b.halo_x
    } else if axis == 1 {
        b.halo_y
    } else {
        b.halo_z
    };
    if h == 0 {
        proof {
            assert(axis_exchange(b, up, down, axis as int) =~= Seq::<AxisExchange>::empty());
            assert(plan@ =~= old(plan)@ + axis_exchange(b, up, down, axis as int));
        }
        return;
    }
    let e = b.elem_size;
    let high: Slab;
    let low: Slab;
    if axis == 0 {
        let n = b.nx;
        proof {
            lemma_slab_arith(n as int, h as int, b.ny as int, b.nz as int, e as int, gx, gy, gz, ge);
            assert(gx * gy * gz * ge == box_bound(b));
        }
        let runs = b.ny * b.nz;
        let stride = n * e;
        let run_bytes = h * e;
        high = Slab { offset: (n - h) * e, run_bytes, runs, stride };
        low = Slab { offset: 0, run_bytes, runs, stride };
        proof {
            assert(voxel_offset(b, n - h, 0, 0) == (n - h) * e);
            assert(voxel_offset(b, 0, 0, 0) == 0) by (nonlinear_arith);
            assert(box_bytes(b) == (b.ny * b.nz) * (n * e)) by (nonlinear_arith)
                requires box_bytes(b) == b.nx * b.ny * b.nz * b.elem_size, n == b.nx, e == b.elem_size;
        }
    } else if axis == 1 {
        let n = b.ny;
        proof {
            assert(1 <= gx * ge) by (nonlinear_arith)
                requires 1 <= gx, 1 <= ge;
            assert(0 <= b.nx * e <= gx * ge) by (nonlinear_arith)
                requires 0 <= b.nx <= gx, 0 <= e <= ge;
            lemma_slab_arith(n as int, h as int, b.nz as int, 1, (b.nx * e) as int, gy, gz, 1, gx * ge);
            lemma_partial_products(b.nx as int, e as int, 0, 0, gx, ge, gy, gz);
            assert(gy * gz * 1 * (gx * ge) == box_bound(b) && gx * ge * gy * gz == box_bound(b)) by (nonlinear_arith)
                requires box_bound(b) == gx * gy * gz * ge;
        }
        let row = b.nx * e;
        let runs = b.nz;
        let stride = n * row;
        let run_bytes = h * row;
        high = Slab { offset: (n - h) * row, run_bytes, runs, stride };
        low = Slab { offset: 0, run_bytes, runs, stride };
        proof {
            assert(voxel_offset(b, 0, n - h, 0) == (n - h) * row) by (nonlinear_arith)
                requires row == b.nx * b.elem_size, n == b.ny, h <= n;
            assert(voxel_offset(b, 0, 0, 0) == 0) by (nonlinear_arith);
            assert(run_bytes == b.halo_y * b.nx * b.elem_size) by (nonlinear_arith)
                requires run_bytes == h * row, row == b.nx * b.elem_size, h == b.halo_y;
            assert(stride == b.ny * b.nx * b.elem_size) by (nonlinear_arith)
                requires stride == n * row, row == b.nx * b.elem_size, n == b.ny;
            assert(runs * 1 == runs);
            assert(box_bytes(b) == (runs * 1) * (n * row)) by (nonlinear_arith)
                requires box_bytes(b) == b.nx * b.ny * b.nz * b.elem_size, n == b.ny, row == b.nx * b.elem_size,
                    runs == b.nz;
        }
    } else {
        let n = b.nz;
        proof {
            lemma_partial_products(b.ny as int, b.nx as int, e as int, 0, gy, gx, ge, gz);
            assert(gy * gx * ge * gz == gx * gy * gz * ge) by (nonlinear_arith);
            assert(1 <= gy * gx * ge) by (nonlinear_arith)
                requires 1 <= gx, 1 <= ge, 1 <= gy;
            assert(0 <= b.ny * b.nx * e <= gy * gx * ge) by (nonlinear_arith)
                requires 0 <= b.nx <= gx, 0 <= e <= ge, 0 <= b.ny <= gy;
            lemma_slab_arith(n as int, h as int, 1, 1, (b.ny * b.nx * e) as int, gz, 1, 1, gy * gx * ge);
            assert(gz * 1 * 1 * (gy * gx * ge) == box_bound(b)) by (nonlinear_arith)
                requires box_bound(b) == gx * gy * gz * ge;
            assert(b.ny * b.nx * e == (b.ny * b.nx) * e) by (nonlinear_arith);
        }
        let plane = b.ny * b.nx * e;
        let stride = n * plane;
        let run_bytes = h * plane;
        high = Slab { offset: (n - h) * plane, run_bytes, runs: 1, stride };
        low = Slab { offset: 0, run_bytes, runs: 1, stride };
        proof {
            assert(voxel_offset(b, 0, 0, n - h) == (n - h) * plane) by (nonlinear_arith)
                requires plane == b.ny * b.nx * b.elem_size, n == b.nz, h <= n;
            assert(voxel_offset(b, 0, 0, 0) == 0) by (nonlinear_arith);
            assert(run_bytes == b.halo_z * b.ny * b.nx * b.elem_size) by (nonlinear_arith)
                requires run_bytes == h * plane, plane == b.ny * b.nx * b.elem_size, h == b.halo_z;
            assert(stride == b.nz * b.ny * b.nx * b.elem_size) by (nonlinear_arith)
                requires stride == n * plane, plane == b.ny * b.nx * b.elem_size, n == b.nz;
            assert(box_bytes(b) == (1 * 1) * (n * plane)) by (nonlinear_arith)
                requires box_bytes(b) == b.nx * b.ny * b.nz * b.elem_size, n == b.nz,
                    plane == b.ny * b.nx * b.elem_size;
        }
    }
    let bytes = high.runs * high.run_bytes;
    let st = AxisExchange { low, high, up, down, bytes };
    proof {
        assert(high == slab_at(b, axis as int, axis_halo(b, axis as int).1 - h));
        assert(low == slab_at(b, axis as int, 0));
        assert(step_in_box(st, b));
    }
    plan.push(st);
    proof {
        assert(plan@ =~= old(plan)@ + axis_exchange(b, up, down, axis as int));
        assert forall|i: int| 0 <= i < plan@.len() - old(plan)@.len() implies #[trigger] step_in_box(
            plan@[old(plan)@.len() + i],
            b,
        ) by {
            assert(plan@[old(plan)@.len() + i] == st);
        }
    }
}

/// The exchange plan of one rank: for each axis with a nonzero halo, the
/// exchange of its two slabs with the ring neighbours; nothing on a single
/// rank. Every slab lies inside the box and each exchange moves exactly its
/// bytes; what each halo receives is stated by the `law_*_exchange_*` laws.
pub fn halo_plan(rank: i32, size: i32, b: HaloBox) -> (r: Vec<AxisExchange>)
    requires
        halo_fits(rank, size, b),
    ensures
        r@ == halo_plan_of(rank, size, b),
        forall|i: int| 0 <= i < r@.len() ==> #[trigger] step_in_box(r@[i], b),
{
    let mut plan: Vec<AxisExchange> = Vec::new();
    if size <= 1 {
        return plan;
    }
    let down: i32 = rem_i32(rank - 1 + size, size);
    let up: i32 = rem_i32(rank + 1, size);
    push_axis(&mut plan, b, up, down, 0);
    let ghost p0 = plan@;
    push_axis(&mut plan, b, up, down, 1);
    let ghost p1 = plan@;
    push_axis(&mut plan, b, up, down, 2);
    proof {
        assert(plan@ =~= halo_plan_of(rank, size, b));
        assert forall|i: int| 0 <= i < plan@.len() implies #[trigger] step_in_box(plan@[i], b) by {
            if i < p0.len() {
                assert(plan@[i] == p0[i]);
                assert(step_in_box(p0[0 + i], b));
            } else if i < p1.len() {
                assert(plan@[i] == p1[i]);
                assert(step_in_box(p1[p0.len() + (i - p0.len())], b));
            } else {
                assert(step_in_box(plan@[p1.len() + (i - p1.len())], b));
            }
        }
    }
    plan
}

/// Across X, run `z * ny + y` of a slab starting at column `start` begins
/// at cell `(start, y, z)` and holds the `halo_x` cells that follow it along
/// that row: the halo columns of every row, not one contiguous block.
pub proof fn law_x_slab_runs_are_row_segments(b: HaloBox, start: int, y: int, z: int)
    requires
        box_bound(b) <= usize::MAX,
        0 <= start,
        start + b.halo_x <= b.nx,
        0 <= y < b.ny,
        0 <= z < b.nz,
    ensures
        z * b.ny + y < slab_at(b, 0, start).runs,
        slab_at(b, 0, start).offset + (z * b.ny + y) * slab_at(b, 0, start).stride == voxel_offset(b, start, y, z),
        slab_at(b, 0, start).run_bytes == voxel_offset(b, start + b.halo_x, y, z) - voxel_offset(b, start, y, z),
{
    let (gx, gy, gz, ge) = (at_least_one(b.nx), at_least_one(b.ny), at_least_one(b.nz), at_least_one(b.elem_size));
    let (nx, ny, nz, e, h) = (b.nx as int, b.ny as int, b.nz as int, b.elem_size as int, b.halo_x as int);
    lemma_partial_products(start, e, 0, 0, gx, ge, gy, gz);
    lemma_partial_products(h, e, 0, 0, gx, ge, gy, gz);
    lemma_partial_products(nx, e, 0, 0, gx, ge, gy, gz);
    lemma_partial_products(ny, nz, 0, 0, gy, gz, gx, ge);
    assert(gx * ge * gy * gz == box_bound(b) && gy * gz * gx * ge == box_bound(b)) by (nonlinear_arith)
        requires box_bound(b) == gx * gy * gz * ge;
    assert(voxel_offset(b, start, 0, 0) == start * e) by (nonlinear_arith)
        requires e == b.elem_size;
    assert(z * ny + y < ny * nz) by (nonlinear_arith)
        requires 0 <= y < ny, 0 <= z < nz;
    assert(start * e + (z * ny + y) * (nx * e) == voxel_offset(b, start, y, z)) by (nonlinear_arith)
        requires nx == b.nx, ny == b.ny, e == b.elem_size;
    assert(h * e == voxel_offset(b, start + h, y, z) - voxel_offset(b, start, y, z)) by (nonlinear_arith)
        requires nx == b.nx, ny == b.ny, e == b.elem_size;
}

/// Across Y, run `z` of a slab starting at row `start` begins at cell
/// `(0, start, z)` and holds the `halo_y` whole rows that follow it in that
/// plane.
pub proof fn law_y_slab_runs_are_plane_bands(b: HaloBox, start: int, z: int)
    requires
        box_bound(b) <= usize::MAX,
        0 <= start,
        start + b.halo_y <= b.ny,
        0 <= z < b.nz,
    ensures
        z < slab_at(b, 1, start).runs,
        slab_at(b, 1, start).offset + z * slab_at(b, 1, start).stride == voxel_offset(b, 0, start, z),
        slab_at(b, 1, start).run_bytes == voxel_offset(b, 0, start + b.halo_y, z) - voxel_offset(b, 0, start, z),
{
    let (gx, gy, gz, ge) = (at_least_one(b.nx), at_least_one(b.ny), at_least_one(b.nz), at_least_one(b.elem_size));
    let (nx, ny, e, h) = (b.nx as int, b.ny as int, b.elem_size as int, b.halo_y as int);
    lemma_partial_products(start, nx, e, 0, gy, gx, ge, gz);
    lemma_partial_products(h, nx, e, 0, gy, gx, ge, gz);
    lemma_partial_products(ny, nx, e, 0, gy, gx, ge, gz);
    assert(gy * gx * ge * gz == box_bound(b)) by (nonlinear_arith)
        requires box_bound(b) == gx * gy * gz * ge;
    assert(voxel_offset(b, 0, start, 0) == start * nx * e) by (nonlinear_arith)
        requires e == b.elem_size, nx == b.nx;
    assert(start * nx * e + z * (ny * nx * e) == voxel_offset(b, 0, start, z)) by (nonlinear_arith)
        requires nx == b.nx, ny == b.ny, e == b.elem_size;
    assert(h * nx * e == voxel_offset(b, 0, start + h, z) - voxel_offset(b, 0, start, z)) by (nonlinear_arith)
        requires nx == b.nx, ny == b.ny, e == b.elem_size;
    assert(ny * nx * e == (ny * nx) * e) by (nonlinear_arith);
}

/// Across Z, the one run of a slab starting at plane `start` begins at cell
/// `(0, 0, start)` and holds the `halo_z` whole planes that follow it.
pub proof fn law_z_slab_is_plane_block(b: HaloBox, start: int)
    requires
        box_bound(b) <= usize::MAX,
        0 <= start,
        start + b.halo_z <= b.nz,
    ensures
        slab_at(b, 2, start).runs == 1,
        slab_at(b, 2, start).offset == voxel_offset(b, 0, 0, start),
        slab_at(b, 2, start).run_bytes == voxel_offset(b, 0, 0, start + b.halo_z) - voxel_offset(b, 0, 0, start),
{
    let (gx, gy, gz, ge) = (at_least_one(b.nx), at_least_one(b.ny), at_least_one(b.nz), at_least_one(b.elem_size));
    let (nx, ny, e, h) = (b.nx as int, b.ny as int, b.elem_size as int, b.halo_z as int);
    lemma_partial_products(start, ny, nx, e, gz, gy, gx, ge);
    lemma_partial_products(h, ny, nx, e, gz, gy, gx, ge);
    assert(gz * gy * gx * ge == box_bound(b)) by (nonlinear_arith)
        requires box_bound(b) == gx * gy * gz * ge;
    assert(voxel_offset(b, 0, 0, start) == start * ny * nx * e) by (nonlinear_arith)
        requires e == b.elem_size, nx == b.nx, ny == b.ny;
    assert(h * ny * nx * e == voxel_offset(b, 0, 0, start + h) - voxel_offset(b, 0, 0, start)) by (nonlinear_arith)
        requires nx == b.nx, ny == b.ny, e == b.elem_size;
}

/// One axis of the exchange on a buffer of `runs` blocks of `n` layers of
/// `unit` bytes, with `h` halo layers at each end: byte `w` of layer `layer`
/// of block `k` ends up holding the matching byte of the lower rank's last
/// `h` layers (low halo), of the upper rank's first `h` layers (high halo),
/// or keeps its own value (interior).
proof fn lemma_band_exchange(
    ex: AxisExchange,
    mine: Seq<u8>,
    below: Seq<u8>,
    above: Seq<u8>,
    n: int,
    h: int,
    unit: int,
    runs: int,
    k: int,
    layer: int,
    w: int,
)
    requires
        1 <= h,
        2 * h <= n,
        1 <= unit,
        0 <= k < runs,
        0 <= layer < n,
        0 <= w < unit,
        ex.low.offset == 0,
        ex.low.run_bytes == h * unit,
        ex.low.runs == runs,
        ex.low.stride == n * unit,
        ex.high.offset == (n - h) * unit,
        ex.high.run_bytes == h * unit,
        ex.high.runs == runs,
        ex.high.stride == n * unit,
        mine.len() == runs * (n * unit),
    ensures
        layer < h ==> exchanged(ex, mine, below, above)[k * (n * unit) + layer * unit + w] == below[k * (n * unit)
            + (n - h + layer) * unit + w],
        layer >= n - h ==> exchanged(ex, mine, below, above)[k * (n * unit) + layer * unit + w] == above[k * (n
            * unit) + (layer - (n - h)) * unit + w],
        h <= layer < n - h ==> exchanged(ex, mine, below, above)[k * (n * unit) + layer * unit + w] == mine[k * (n
            * unit) + layer * unit + w],
{
    let sz = n * unit;
    let bb = h * unit;
    let a = layer * unit + w;
    let p = k * sz + a;
    assert(0 <= a < sz && 1 <= bb <= sz && (n - h) * unit >= bb) by (nonlinear_arith)
        requires 0 <= layer < n, 0 <= w < unit, 1 <= unit, 1 <= h, 2 * h <= n, a == layer * unit + w, sz == n * unit,
            bb == h * unit;
    assert(0 <= p < runs * sz) by (nonlinear_arith)
        requires 0 <= k < runs, 0 <= a < sz, p == k * sz + a;
    assert(layer < h <==> a < bb) by (nonlinear_arith)
        requires a == layer * unit + w, 0 <= w < unit, bb == h * unit, 0 <= layer;
    assert(layer < n - h <==> a < (n - h) * unit) by (nonlinear_arith)
        requires a == layer * unit + w, 0 <= w < unit, 0 <= layer;
    let g1 = gather(below, ex.high);
    let g2 = gather(above, ex.low);
    let inner = scatter(mine, ex.low, g1);
    // the low slab
    lemma_fundamental_div_mod_converse(p, sz, k, a);
    assert(in_slab(ex.low, p) <==> a < bb);
    if a < bb {
        let i = k * bb + a;
        assert(slab_index(ex.low, p) == i);
        assert(0 <= i < runs * bb) by (nonlinear_arith)
            requires 0 <= k < runs, 0 <= a < bb, i == k * bb + a;
        lemma_fundamental_div_mod_converse(i, bb, k, a);
        assert(g1[i] == below[(n - h) * unit + k * sz + a]);
        assert((n - h) * unit + k * sz + a == k * sz + (n - h + layer) * unit + w) by (nonlinear_arith)
            requires a == layer * unit + w;
        assert(inner[p] == g1[i]);
    } else {
        assert(inner[p] == mine[p]);
    }
    // the high slab
    let q = p - (n - h) * unit;
    if layer >= n - h {
        let a2 = (layer - (n - h)) * unit + w;
        assert(q == k * sz + a2 && 0 <= a2 < bb) by (nonlinear_arith)
            requires q == p - (n - h) * unit, p == k * sz + a, a == layer * unit + w, a2 == (layer - (n - h)) * unit
                + w, n - h <= layer < n, 0 <= w < unit, bb == h * unit, sz == n * unit;
        lemma_fundamental_div_mod_converse(q, sz, k, a2);
        assert(in_slab(ex.high, p));
        let i2 = k * bb + a2;
        assert(slab_index(ex.high, p) == i2);
        assert(0 <= i2 < runs * bb) by (nonlinear_arith)
            requires 0 <= k < runs, 0 <= a2 < bb, i2 == k * bb + a2;
        lemma_fundamental_div_mod_converse(i2, bb, k, a2);
        assert(g2[i2] == above[0 + k * sz + a2]);
    } else {
        if k == 0 {
            assert(q < 0);
        } else {
            let r = sz + a - (n - h) * unit;
            assert(q == (k - 1) * sz + r && bb <= r < sz) by (nonlinear_arith)
                requires q == p - (n - h) * unit, p == k * sz + a, r == sz + a - (n - h) * unit, sz == n * unit,
                    bb == h * unit, a < (n - h) * unit, 0 <= a;
            lemma_fundamental_div_mod_converse(q, sz, k - 1, r);
        }
        assert(!in_slab(ex.high, p));
    }
}

/// The halo exchange across X, on any rank with neighbours below and above
/// it: afterwards the low halo column `x < halo_x` of every row holds the
/// lower rank's column `nx - halo_x + x` of that row, the high halo column
/// `nx - halo_x + x` holds the upper rank's column `x`, and every other
/// column keeps its bytes. Both halos must fit side by side in the row.
pub proof fn law_x_exchange_fills_halos(
    b: HaloBox,
    up: i32,
    down: i32,
    mine: Seq<u8>,
    below: Seq<u8>,
    above: Seq<u8>,
    x: int,
    y: int,
    z: int,
    t: int,
)
    requires
        box_bound(b) <= usize::MAX,
        b.halo_x > 0,
        2 * b.halo_x <= b.nx,
        0 <= x < b.nx,
        0 <= y < b.ny,
        0 <= z < b.nz,
        0 <= t < b.elem_size,
        mine.len() == box_bytes(b),
    ensures
        axis_exchange(b, up, down, 0).len() == 1,
        ({
            let after = exchanged(axis_exchange(b, up, down, 0)[0], mine, below, above);
            let h = b.halo_x as int;
            let n = b.nx as int;
            &&& x < h ==> after[voxel_offset(b, x, y, z) + t] == below[voxel_offset(b, n - h + x, y, z) + t]
            &&& x >= n - h ==> after[voxel_offset(b, x, y, z) + t] == above[voxel_offset(b, x - (n - h), y, z) + t]
            &&& h <= x < n - h ==> after[voxel_offset(b, x, y, z) + t] == mine[voxel_offset(b, x, y, z) + t]
        }),
{
    let (nx, ny, nz, e, h) = (b.nx as int, b.ny as int, b.nz as int, b.elem_size as int, b.halo_x as int);
    let ex = axis_exchange(b, up, down, 0)[0];
    let k = z * ny + y;
    law_x_slab_runs_are_row_segments(b, 0, y, z);
    law_x_slab_runs_are_row_segments(b, nx - h, y, z);
    let (gx, gy, gz, ge) = (at_least_one(b.nx), at_least_one(b.ny), at_least_one(b.nz), at_least_one(b.elem_size));
    lemma_partial_products(h, e, 0, 0, gx, ge, gy, gz);
    lemma_partial_products(nx, e, 0, 0, gx, ge, gy, gz);
    lemma_partial_products(ny, nz, 0, 0, gy, gz, gx, ge);
    lemma_partial_products(nx - h, e, 0, 0, gx, ge, gy, gz);
    assert(gx * ge * gy * gz == box_bound(b) && gy * gz * gx * ge == box_bound(b)) by (nonlinear_arith)
        requires box_bound(b) == gx * gy * gz * ge;
    assert(voxel_offset(b, nx - h, 0, 0) == (nx - h) * e && voxel_offset(b, 0, 0, 0) == 0) by (nonlinear_arith)
        requires e == b.elem_size;
    assert(ex.low.offset == 0 && ex.low.run_bytes == h * e && ex.low.stride == nx * e && ex.low.runs == ny * nz);
    assert(ex.high.offset == (nx - h) * e && ex.high.run_bytes == h * e && ex.high.stride == nx * e);
    assert(box_bytes(b) == (ny * nz) * (nx * e)) by (nonlinear_arith)
        requires box_bytes(b) == b.nx * b.ny * b.nz * b.elem_size, nx == b.nx, ny == b.ny, nz == b.nz,
            e == b.elem_size;
    assert(0 <= k < ny * nz) by (nonlinear_arith)
        requires 0 <= y < ny, 0 <= z < nz, k == z * ny + y;
    lemma_band_exchange(ex, mine, below, above, nx, h, e, ny * nz, k, x, t);
    assert forall|c: int| 0 <= c < nx implies #[trigger] voxel_offset(b, c, y, z) + t == k * (nx * e) + c * e + t by {
        assert(voxel_offset(b, c, y, z) == k * (nx * e) + c * e) by (nonlinear_arith)
            requires k == z * ny + y, nx == b.nx, ny == b.ny, e == b.elem_size;
    }
    assert(voxel_offset(b, nx - h + x, y, z) + t == k * (nx * e) + (nx - h + x) * e + t) by (nonlinear_arith)
        requires k == z * ny + y, nx == b.nx, ny == b.ny, e == b.elem_size;
    assert(voxel_offset(b, x - (nx - h), y, z) + t == k * (nx * e) + (x - (nx - h)) * e + t) by (nonlinear_arith)
        requires k == z * ny + y, nx == b.nx, ny == b.ny, e == b.elem_size;
}

/// The halo exchange across Y, on any rank with neighbours below and above
/// it: afterwards the low halo rows `y < halo_y` of every plane hold the
/// lower rank's rows `ny - halo_y + y`, the high halo rows
/// `ny - halo_y + y` hold the upper rank's rows `y`, and every other row
/// keeps its bytes. Both halos must fit side by side in the plane.
pub proof fn law_y_exchange_fills_halos(
    b: HaloBox,
    up: i32,
    down: i32,
    mine: Seq<u8>,
    below: Seq<u8>,
    above: Seq<u8>,
    x: int,
    y: int,
    z: int,
    t: int,
)
    requires
        box_bound(b) <= usize::MAX,
        b.halo_y > 0,
        2 * b.halo_y <= b.ny,
        0 <= x < b.nx,
        0 <= y < b.ny,
        0 <= z < b.nz,
        0 <= t < b.elem_size,
        mine.len() == box_bytes(b),
    ensures
        axis_exchange(b, up, down, 1).len() == 1,
        ({
            let after = exchanged(axis_exchange(b, up, down, 1)[0], mine, below, above);
            let h = b.halo_y as int;
            let n = b.ny as int;
            &&& y < h ==> after[voxel_offset(b, x, y, z) + t] == below[voxel_offset(b, x, n - h + y, z) + t]
            &&& y >= n - h ==> after[voxel_offset(b, x, y, z) + t] == above[voxel_offset(b, x, y - (n - h), z) + t]
            &&& h <= y < n - h ==> after[voxel_offset(b, x, y, z) + t] == mine[voxel_offset(b, x, y, z) + t]
        }),
{
    let (nx, ny, nz, e, h) = (b.nx as int, b.ny as int, b.nz as int, b.elem_size as int, b.halo_y as int);
    let ex = axis_exchange(b, up, down, 1)[0];
    let u = nx * e;
    let (gx, gy, gz, ge) = (at_least_one(b.nx), at_least_one(b.ny), at_least_one(b.nz), at_least_one(b.elem_size));
    lemma_partial_products(h, nx, e, 0, gy, gx, ge, gz);
    lemma_partial_products(ny, nx, e, 0, gy, gx, ge, gz);
    lemma_partial_products(ny - h, nx, e, 0, gy, gx, ge, gz);
    assert(gy * gx * ge * gz == box_bound(b)) by (nonlinear_arith)
        requires box_bound(b) == gx * gy * gz * ge;
    assert(voxel_offset(b, 0, ny - h, 0) == (ny - h) * u && voxel_offset(b, 0, 0, 0) == 0) by (nonlinear_arith)
        requires e == b.elem_size, nx == b.nx, u == nx * e;
    assert(h * nx * e == h * u && ny * nx * e == ny * u && (ny - h) * nx * e == (ny - h) * u) by (nonlinear_arith)
        requires u == nx * e;
    assert(ex.low.offset == 0 && ex.low.run_bytes == h * u && ex.low.stride == ny * u && ex.low.runs == nz);
    assert(ex.high.offset == (ny - h) * u && ex.high.run_bytes == h * u && ex.high.stride == ny * u);
    assert(box_bytes(b) == nz * (ny * u)) by (nonlinear_arith)
        requires box_bytes(b) == b.nx * b.ny * b.nz * b.elem_size, nx == b.nx, ny == b.ny, nz == b.nz,
            e == b.elem_size, u == nx * e;
    assert(1 <= u && 0 <= x * e + t < u) by (nonlinear_arith)
        requires 0 <= x < nx, 0 <= t < e, u == nx * e;
    lemma_band_exchange(ex, mine, below, above, ny, h, u, nz, z, y, x * e + t);
    assert forall|c: int| 0 <= c < ny implies #[trigger] voxel_offset(b, x, c, z) + t == z * (ny * u) + c * u + (x
        * e + t) by {
        assert(voxel_offset(b, x, c, z) == (z * ny * nx + c * nx + x) * e);
        assert((z * ny * nx + c * nx + x) * e + t == z * (ny * u) + c * u + (x * e + t)) by (nonlinear_arith)
            requires u == nx * e;
    }
    assert(voxel_offset(b, x, ny - h + y, z) + t == z * (ny * u) + (ny - h + y) * u + (x * e + t)) by (nonlinear_arith)
        requires nx == b.nx, ny == b.ny, e == b.elem_size, u == nx * e;
    assert(voxel_offset(b, x, y - (ny - h), z) + t == z * (ny * u) + (y - (ny - h)) * u + (x * e + t))
        by (nonlinear_arith)
        requires nx == b.nx, ny == b.ny, e == b.elem_size, u == nx * e;
}

/// The halo exchange across Z, on any rank with neighbours below and above
/// it: afterwards the low halo planes `z < halo_z` hold the lower rank's
/// planes `nz - halo_z + z`, the high halo planes `nz - halo_z + z` hold the
/// upper rank's planes `z`, and every other plane keeps its bytes. Both
/// halos must fit side by side in the box.
pub proof fn law_z_exchange_fills_halos(
    b: HaloBox,
    up: i32,
    down: i32,
    mine: Seq<u8>,
    below: Seq<u8>,
    above: Seq<u8>,
    x: int,
    y: int,
    z: int,
    t: int,
)
    requires
        box_bound(b) <= usize::MAX,
        b.halo_z > 0,
        2 * b.halo_z <= b.nz,
        0 <= x < b.nx,
        0 <= y < b.ny,
        0 <= z < b.nz,
        0 <= t < b.elem_size,
        mine.len() == box_bytes(b),
    ensures
        axis_exchange(b, up, down, 2).len() == 1,
        ({
            let after = exchanged(axis_exchange(b, up, down, 2)[0], mine, below, above);
            let h = b.halo_z as int;
            let n = b.nz as int;
            &&& z < h ==> after[voxel_offset(b, x, y, z) + t] == below[voxel_offset(b, x, y, n - h + z) + t]
            &&& z >= n - h ==> after[voxel_offset(b, x, y, z) + t] == above[voxel_offset(b, x, y, z - (n - h)) + t]
            &&& h <= z < n - h ==> after[voxel_offset(b, x, y, z) + t] == mine[voxel_offset(b, x, y, z) + t]
        }),
{
    let (nx, ny, nz, e, h) = (b.nx as int, b.ny as int, b.nz as int, b.elem_size as int, b.halo_z as int);
    let ex = axis_exchange(b, up, down, 2)[0];
    let u = ny * nx * e;
    let (gx, gy, gz, ge) = (at_least_one(b.nx), at_least_one(b.ny), at_least_one(b.nz), at_least_one(b.elem_size));
    lemma_partial_products(h, ny, nx, e, gz, gy, gx, ge);
    lemma_partial_products(nz, ny, nx, e, gz, gy, gx, ge);
    lemma_partial_products(nz - h, ny, nx, e, gz, gy, gx, ge);
    assert(gz * gy * gx * ge == box_bound(b)) by (nonlinear_arith)
        requires box_bound(b) == gx * gy * gz * ge;
    assert(voxel_offset(b, 0, 0, nz - h) == (nz - h) * u && voxel_offset(b, 0, 0, 0) == 0) by (nonlinear_arith)
        requires e == b.elem_size, nx == b.nx, ny == b.ny, u == ny * nx * e;
    assert(h * ny * nx * e == h * u && nz * ny * nx * e == nz * u && (nz - h) * ny * nx * e == (nz - h) * u)
        by (nonlinear_arith)
        requires u == ny * nx * e;
    assert(ex.low.offset == 0 && ex.low.run_bytes == h * u && ex.low.stride == nz * u && ex.low.runs == 1);
    assert(ex.high.offset == (nz - h) * u && ex.high.run_bytes == h * u && ex.high.stride == nz * u);
    assert(box_bytes(b) == 1 * (nz * u)) by (nonlinear_arith)
        requires box_bytes(b) == b.nx * b.ny * b.nz * b.elem_size, nx == b.nx, ny == b.ny, nz == b.nz,
            e == b.elem_size, u == ny * nx * e;
    let w = y * nx * e + x * e + t;
    assert(1 <= u && 0 <= w < u) by (nonlinear_arith)
        requires 0 <= x < nx, 0 <= y < ny, 0 <= t < e, u == ny * nx * e, w == y * nx * e + x * e + t;
    lemma_band_exchange(ex, mine, below, above, nz, h, u, 1, 0, z, w);
    assert forall|c: int| 0 <= c < nz implies #[trigger] voxel_offset(b, x, y, c) + t == 0 * (nz * u) + c * u + w by {
        assert(voxel_offset(b, x, y, c) + t == 0 * (nz * u) + c * u + w) by (nonlinear_arith)
            requires nx == b.nx, ny == b.ny, e == b.elem_size, u == ny * nx * e, w == y * nx * e + x * e + t;
    }
    assert(voxel_offset(b, x, y, nz - h + z) + t == 0 * (nz * u) + (nz - h + z) * u + w) by (nonlinear_arith)
        requires nx == b.nx, ny == b.ny, e == b.elem_size, u == ny * nx * e, w == y * nx * e + x * e + t;
    assert(voxel_offset(b, x, y, z - (nz - h)) + t == 0 * (nz * u) + (z - (nz - h)) * u + w) by (nonlinear_arith)
        requires nx == b.nx, ny == b.ny, e == b.elem_size, u == ny * nx * e, w == y * nx * e + x * e + t;
}

/// Neighbours on the ring undo each other: the rank below the one above
/// `rank` is `rank`, and so is the rank above the one below.
pub proof fn law_ring_neighbours_inverse(rank: i32, size: i32)
    requires
        0 <= rank < size,
        size > 1,
    ensures
        prev_rank(next_rank(rank, size), size) == rank,
        next_rank(prev_rank(rank, size), size) == rank,
{
    let r = rank as int;
    let s = size as int;
    if r + 1 < s {
        assert((r + 1) % s == r + 1) by (nonlinear_arith)
            requires 0 <= r + 1 < s;
    } else {
        assert((r + 1) % s == 0) by (nonlinear_arith)
            requires r + 1 == s, s > 0;
    }
    let n = next_rank(rank, size) as int;
    assert(n - 1 + s >= 0);
    if n == 0 {
        assert((s - 1) % s == s - 1) by (nonlinear_arith)
            requires 0 <= s - 1 < s;
    } else {
        assert((n - 1 + s) % s == n - 1) by (nonlinear_arith)
            requires 1 <= n < s;
    }
    if r == 0 {
        assert((s - 1) % s == s - 1) by (nonlinear_arith)
            requires 0 <= s - 1 < s;
        assert(((s - 1) + 1) % s == 0) by (nonlinear_arith)
            requires s > 0;
    } else {
        assert((r - 1 + s) % s == r - 1) by (nonlinear_arith)
            requires 1 <= r < s;
        assert((r - 1 + 1) % s == r) by (nonlinear_arith)
            requires 0 <= r < s;
    }
}

/// An MPI setting that switches CUDA support on: present and exactly `1`.
pub open spec fn setting_on(v: Option<Seq<char>>) -> bool {
    v == Some("1"@)
}

/// Whether the MPI library moves device memory itself, from the MVAPICH2,
/// Open MPI and MPICH settings (`MV2_USE_CUDA`, `OMPI_MCA_mpi_cuda_support`,
/// `MPICH_GPU_SUPPORT_ENABLED`): any of them set to `1`.
pub fn gpu_aware_mpi(mv2_use_cuda: Option<&str>, ompi_cuda_support: Option<&str>, mpich_gpu_support: Option<&str>) -> (r:
    bool)
    ensures
        r == (setting_on(
            match mv2_use_cuda {
                Some(v) => Some(v@),
                None => None,
            },
        ) || setting_on(
            match ompi_cuda_support {
                Some(v) => Some(v@),
                None => None,
            },
        ) || setting_on(
            match mpich_gpu_support {
                Some(v) => Some(v@),
                None => None,
            },
        )),
{
    let a = match mv2_use_cuda {
        Some(v) => str_eq(v, "1"),
        None => false,
    };
    let b = match ompi_cuda_support {
        Some(v) => str_eq(v, "1"),
        None => false,
    };
    let c = match mpich_gpu_support {
        Some(v) => str_eq(v, "1"),
        None => false,
    };
    a || b || c
}

} // verus!
