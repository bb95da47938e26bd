use basalto::halo::{gpu_aware_mpi, halo_plan, plan_fits, AxisExchange, HaloBox, Slab};

fn sample_box() -> HaloBox {
    HaloBox { nx: 4, ny: 3, nz: 2, halo_x: 1, halo_y: 0, halo_z: 1, elem_size: 4 }
}

#[test]
fn single_rank_exchanges_nothing() {
    assert!(halo_plan(0, 1, sample_box()).is_empty());
}

#[test]
fn plan_on_two_ranks() {
    let plan = halo_plan(0, 2, sample_box());
    let x_high = Slab { offset: 12, run_bytes: 4, runs: 6, stride: 16 };
    let x_low = Slab { offset: 0, run_bytes: 4, runs: 6, stride: 16 };
    let z_high = Slab { offset: 48, run_bytes: 48, runs: 1, stride: 96 };
    let z_low = Slab { offset: 0, run_bytes: 48, runs: 1, stride: 96 };
    assert_eq!(
        plan,
        vec![
            AxisExchange { low: x_low, high: x_high, up: 1, down: 1, bytes: 24 },
            AxisExchange { low: z_low, high: z_high, up: 1, down: 1, bytes: 48 },
        ]
    );
}

#[test]
fn x_slab_is_one_run_per_row() {
    // A 4 x 2 x 1 box of single bytes: the last column is bytes 3 and 7.
    let b = HaloBox { nx: 4, ny: 2, nz: 1, halo_x: 1, halo_y: 0, halo_z: 0, elem_size: 1 };
    let plan = halo_plan(1, 3, b);
    assert_eq!(plan.len(), 1);
    let high = plan[0].high;
    let starts: Vec<usize> = (0..high.runs).map(|r| high.offset + r * high.stride).collect();
    assert_eq!(starts, vec![3, 7]);
    assert_eq!(high.run_bytes, 1);
    assert_eq!(plan[0].low, Slab { offset: 0, run_bytes: 1, runs: 2, stride: 4 });
    assert_eq!((plan[0].up, plan[0].down), (2, 0));
}

#[test]
fn y_slab_is_one_band_per_plane() {
    let b = HaloBox { nx: 2, ny: 3, nz: 2, halo_x: 0, halo_y: 1, halo_z: 0, elem_size: 2 };
    let plan = halo_plan(0, 2, b);
    assert_eq!(plan.len(), 1);
    assert_eq!(plan[0].high, Slab { offset: 8, run_bytes: 4, runs: 2, stride: 12 });
    assert_eq!(plan[0].bytes, 8);
}

/// Runs one axis of a plan on a set of host buffers, one per rank, as the
/// exchanger does on device buffers: gather both slabs, trade, scatter.
fn run_axis(bufs: &[Vec<u8>], b: HaloBox, axis: usize) -> Vec<Vec<u8>> {
    let size = bufs.len() as i32;
    let gather = |buf: &Vec<u8>, s: &Slab| {
        let mut out = Vec::new();
        for r in 0..s.runs {
            out.extend_from_slice(&buf[s.offset + r * s.stride..s.offset + r * s.stride + s.run_bytes]);
        }
        out
    };
    let scatter = |buf: &mut Vec<u8>, s: &Slab, data: &[u8]| {
        for r in 0..s.runs {
            let d = s.offset + r * s.stride;
            buf[d..d + s.run_bytes].copy_from_slice(&data[r * s.run_bytes..(r + 1) * s.run_bytes]);
        }
    };
    let plans: Vec<AxisExchange> = (0..size).map(|r| halo_plan(r, size, b)[axis]).collect();
    let highs: Vec<Vec<u8>> = (0..bufs.len()).map(|r| gather(&bufs[r], &plans[r].high)).collect();
    let lows: Vec<Vec<u8>> = (0..bufs.len()).map(|r| gather(&bufs[r], &plans[r].low)).collect();
    let mut out = bufs.to_vec();
    for r in 0..bufs.len() {
        let ex = plans[r];
        scatter(&mut out[r], &ex.low, &highs[ex.down as usize]);
        scatter(&mut out[r], &ex.high, &lows[ex.up as usize]);
    }
    out
}

#[test]
fn x_exchange_fills_both_halos_from_the_neighbours() {
    // 4 x 2 x 1 cells of one byte on three ranks; byte = 10 * rank + cell
    let b = HaloBox { nx: 4, ny: 2, nz: 1, halo_x: 1, halo_y: 0, halo_z: 0, elem_size: 1 };
    let bufs: Vec<Vec<u8>> = (0..3u8).map(|r| (0..8u8).map(|c| 10 * r + c).collect()).collect();
    let out = run_axis(&bufs, b, 0);
    // rank 1: low halo (x = 0) gets rank 0's x = 3, high halo (x = 3) gets rank 2's x = 0
    assert_eq!(out[1], vec![3, 11, 12, 20, 7, 15, 16, 24]);
    // rank 0 wraps around to rank 2 below
    assert_eq!(out[0], vec![23, 1, 2, 10, 27, 5, 6, 14]);
}

#[test]
fn plan_fits_matches_the_plan_requirements() {
    let b = HaloBox { nx: usize::MAX, ny: 2, nz: 1, halo_x: 1, halo_y: 0, halo_z: 0, elem_size: 8 };
    assert!(!plan_fits(0, 2, b));
    assert!(plan_fits(0, 1, b));
    let quiet = HaloBox { halo_x: 0, ..b };
    assert!(plan_fits(0, 2, quiet));
    assert!(!plan_fits(0, 2, HaloBox { nx: 2, halo_x: 3, ..sample_box() }));
    assert!(plan_fits(0, 2, sample_box()));
}

#[test]
fn no_halo_no_plan_even_for_a_huge_box() {
    let b = HaloBox { nx: usize::MAX, ny: usize::MAX, nz: 2, halo_x: 0, halo_y: 0, halo_z: 0, elem_size: 8 };
    assert!(halo_plan(0, 4, b).is_empty());
}

#[test]
fn ring_neighbours_wrap_around() {
    let b = HaloBox { nx: 8, ny: 1, nz: 1, halo_x: 2, halo_y: 0, halo_z: 0, elem_size: 8 };
    let first = halo_plan(0, 4, b);
    assert_eq!(first[0].up, 1);
    assert_eq!(first[0].down, 3);
    let last = halo_plan(3, 4, b);
    assert_eq!(last[0].up, 0);
    assert_eq!(last[0].down, 2);
    assert_eq!(last[0].high.offset, 48);
    assert_eq!(last[0].bytes, 16);
}

#[test]
fn gpu_aware_mpi_settings() {
    assert!(gpu_aware_mpi(Some("1"), None, None));
    assert!(gpu_aware_mpi(None, Some("1"), Some("0")));
    assert!(gpu_aware_mpi(None, None, Some("1")));
    assert!(!gpu_aware_mpi(Some("true"), Some("0"), None));
    assert!(!gpu_aware_mpi(None, None, None));
}
