//! Integer decisions of the SiliconForge tuner and profiler: which block
//! size to try next, when a grid is too small for the device, the rolling
//! execution history of a shape, and the shared-memory tiling of a stencil.
use vstd::prelude::*;

use crate::text::str_eq;

verus! {

/// Direction of a suggested block-size change.
#[derive(Debug, Clone, Copy, PartialEq, Eq)]
pub enum BlockChange {
    /// A larger block, for a slow kernel.
    Increase,
    /// A smaller block, for a fast kernel.
    Decrease,
}

/// The block sizes the tuner tries, in order.
pub open spec fn block_candidates() -> Seq<u32> {
    seq![128u32, 256u32, 512u32, 1024u32]
}

/// The first candidate from index `i` on that differs from `current`, fits
/// `max_threads`, and is larger for a slow kernel or smaller for a fast one
/// (a slow kernel is tested first).
pub open spec fn block_choice_from(current: u32, max_threads: u32, slow: bool, fast: bool, i: int) -> Option<
    (u32, BlockChange),
>
    decreases 4 - i,
{
    if i < 0 || i >= 4 {
        None
    } else {
        let c = block_candidates()[i];
        if c == current || c > max_threads {
            block_choice_from(current, max_threads, slow, fast, i + 1)
        } else if slow && c > current {
            Some((c, BlockChange::Increase))
        } else if fast && c < current {
            Some((c, BlockChange::Decrease))
        } else {
            block_choice_from(current, max_threads, slow, fast, i + 1)
        }
    }
}

/// The block size to suggest for a kernel launched with `block_x` by
/// `block_y` threads; `slow` and `fast` say whether its mean duration is
/// above 1000 us and below 100 us.
pub fn block_candidate(block_x: u32, block_y: u32, max_threads: u32, slow: bool, fast: bool) -> (r: Option<
    (u32, BlockChange),
>)
    requires
        block_x * block_y <= u32::MAX,
    ensures
        r == block_choice_from((block_x * block_y) as u32, max_threads, slow, fast, 0),
{
    let current: u32 = block_x * block_y;
    let candidates: [u32; 4] = [128, 256, 512, 1024];
    let mut i: usize = 0;
    while i < 4
        invariant
            i <= 4,
            current == block_x * block_y,
            candidates@ == block_candidates(),
            block_choice_from(current, max_threads, slow, fast, 0) == block_choice_from(
                current,
                max_threads,
                slow,
                fast,
                i as int,
            ),
        decreases 4 - i,
    {
        let c = candidates[i];
        if c == current || c > max_threads {
            i += 1;
            continue;
        }
        if slow && c > current {
            return Some((c, BlockChange::Increase));
        }
        if fast && c < current {
            return Some((c, BlockChange::Decrease));
        }
        i += 1;
    }
    None
}

/// The grid has some blocks but fewer than two per multiprocessor.
pub open spec fn grid_is_small(grid_x: u32, grid_y: u32, sm_count: u32) -> bool {
    grid_x * grid_y < sm_count * 2 && grid_x * grid_y > 0
}

/// Whether a grid of `grid_x` by `grid_y` blocks leaves multiprocessors idle.
pub fn grid_too_small(grid_x: u32, grid_y: u32, sm_count: u32) -> (r: bool)
    requires
        grid_x * grid_y <= u32::MAX,
        sm_count * 2 <= u32::MAX,
    ensures
        r == grid_is_small(grid_x, grid_y, sm_count),
{
    grid_x * grid_y < sm_count * 2 && grid_x * grid_y > 0
}

/// A grid counts as small by its number of blocks alone: it is small exactly
/// when it has at least one block and fewer than two per multiprocessor.
pub proof fn law_small_grid_counts_blocks(grid_x: u32, grid_y: u32, sm_count: u32)
    ensures
        grid_is_small(grid_x, grid_y, sm_count) <==> (0 < grid_x * grid_y && grid_x * grid_y < 2 * sm_count),
{
}

/// Two grids with the same number of blocks, however they are shaped (in
/// particular a grid and its transpose), are both small or both not; and a
/// nonempty grid with no more blocks than a small one is small too.
pub proof fn law_small_grid_ignores_grid_shape(gx1: u32, gy1: u32, gx2: u32, gy2: u32, sm_count: u32)
    ensures
        gx1 * gy1 == gx2 * gy2 ==> grid_is_small(gx1, gy1, sm_count) == grid_is_small(gx2, gy2, sm_count),
        grid_is_small(gx1, gy1, sm_count) == grid_is_small(gy1, gx1, sm_count),
        grid_is_small(gx2, gy2, sm_count) && 0 < gx1 * gy1 <= gx2 * gy2 ==> grid_is_small(gx1, gy1, sm_count),
{
    assert(gx1 * gy1 == gy1 * gx1) by (nonlinear_arith);
}

/// Sum of the recorded durations.
pub open spec fn total(h: Seq<u128>) -> int
    decreases h.len(),
{
    if h.len() == 0 {
        0
    } else {
        total(h.drop_last()) + h.last()
    }
}

/// The history after recording a duration: the newest at the end, the
/// oldest dropped once more than 100 are kept.
pub open spec fn history_after(h: Seq<u128>, t: u128) -> Seq<u128> {
    if h.push(t).len() > 100 {
        h.push(t).drop_first()
    } else {
        h.push(t)
    }
}

proof fn lemma_total_drop_first(h: Seq<u128>)
    requires
        h.len() > 0,
    ensures
        total(h) == h[0] + total(h.drop_first()),
    decreases h.len(),
{
    if h.len() > 1 {
        lemma_total_drop_first(h.drop_last());
        assert(h.drop_last().drop_first() =~= h.drop_first().drop_last());
    } else {
        assert(h.drop_first() =~= Seq::<u128>::empty());
        assert(h.drop_last() =~= Seq::<u128>::empty());
    }
}

pub(crate) proof fn lemma_total_nonneg(h: Seq<u128>)
    ensures
        total(h) >= 0,
    decreases h.len(),
{
    if h.len() > 0 {
        lemma_total_nonneg(h.drop_last());
    }
}

/// Records a kernel duration (in microseconds) in the history of its
/// shape and says whether the mean of the kept durations now exceeds 5000,
/// in which case the layout strategy of the shape is forced to 32-element
/// tile alignment.
pub fn record_sample(history: &mut Vec<u128>, t: u128) -> (force_alignment: bool)
    requires
        total(old(history)@) + t <= u128::MAX,
    ensures
        final(history)@ == history_after(old(history)@, t),
        force_alignment == (total(final(history)@) / (final(history)@.len() as int) > 5000),
{
    let ghost h0 = history@;
    history.push(t);
    proof {
        assert(history@.drop_last() =~= h0);
    }
    if history.len() > 100 {
        let ghost h1 = history@;
        history.remove(0);
        proof {
            assert(history@ =~= h1.drop_first());
            lemma_total_drop_first(h1);
        }
    }
    let n: usize = history.len();
    let mut sum: u128 = 0;
    let mut i: usize = 0;
    proof {
        lemma_total_nonneg(history@);
        lemma_total_nonneg(h0);
    }
    while i < n
        invariant
            i <= n,
            n == history@.len(),
            n > 0,
            total(history@) <= u128::MAX,
            sum as int == total(history@.take(i as int)),
        decreases n - i,
    {
        proof {
            assert(history@.take(i as int + 1).drop_last() =~= history@.take(i as int));
            lemma_total_prefix(history@, i as int + 1);
        }
        sum = sum + history[i];
        i += 1;
    }
    proof {
        assert(history@.take(n as int) =~= history@);
    }
    let average: u128 = sum / (n as u128);
    average > 5000
}

pub(crate) proof fn lemma_total_prefix(h: Seq<u128>, k: int)
    requires
        0 <= k <= h.len(),
    ensures
        0 <= total(h.take(k)) <= total(h),
    decreases h.len() - k,
{
    lemma_total_nonneg(h.take(k));
    if k < h.len() {
        lemma_total_prefix(h, k + 1);
        assert(h.take(k + 1).drop_last() =~= h.take(k));
    } else {
        assert(h.take(k) =~= h);
    }
}

/// The measured GPU time of a kernel binary, in microseconds. Hardware
/// timers are not wired in yet: every binary reports 4200.
pub fn capture_gpu_hardware_time(_binary: &[u8]) -> (r: u128)
    ensures
        r == 4200,
{
    4200
}

/// Bytes of one stencil element in shared memory: 4 for `f32`, 8 otherwise.
pub open spec fn tile_elem(dtype: Seq<char>) -> u32 {
    if dtype == "f32"@ {
        4
    } else {
        8
    }
}

/// The tile of a 1-D stencil: the device's threads per block taken as an
/// `i64`, 128 without capabilities.
pub open spec fn stencil_tile(max_threads: Option<u64>) -> i64 {
    match max_threads {
        Some(t) => t as i64,
        None => 128,
    }
}

/// Shared-memory tiling of a 1-D stencil of radius 1: the tile, and a
/// shared buffer holding the tile plus both halos, its length taken modulo
/// 2^32.
pub open spec fn stencil_tiling(max_threads: Option<u64>, dtype: Seq<char>) -> (i64, u32) {
    let tile = stencil_tile(max_threads);
    (tile, (((tile + 2) as u32) * tile_elem(dtype)) as u32)
}

/// The tile size and shared-memory bytes of a 1-D stencil.
pub fn flir_tiling(max_threads: Option<u64>, dtype: &str) -> (r: (i64, u32))
    requires
        stencil_tile(max_threads) + 2 <= i64::MAX,
        ((stencil_tile(max_threads) + 2) as u32) * tile_elem(dtype@) <= u32::MAX,
    ensures
        r == stencil_tiling(max_threads, dtype@),
{
    let tile: i64 = match max_threads {
        Some(t) => #[verifier::truncate] (t as i64),
        None => 128,
    };
    let elem: u32 = if str_eq(dtype, "f32") {
        4
    } else {
        8
    };
    let span: u32 = #[verifier::truncate] ((tile + 2) as u32);
    (tile, span * elem)
}

} // verus!
