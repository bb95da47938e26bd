use basalto::stride_view::{coalesce_strides, is_contiguous, optimal_strides, StrideView};

#[test]
fn optimal_strides_are_row_major() {
    assert_eq!(optimal_strides(&[2, 3, 4]), vec![12, 4, 1]);
    assert_eq!(optimal_strides(&[5]), vec![1]);
    assert_eq!(optimal_strides(&[]), Vec::<isize>::new());
    assert_eq!(optimal_strides(&[3, 0, 2]), vec![0, 2, 1]);
}

#[test]
fn contiguity_checks() {
    assert!(is_contiguous(&[2, 3], &[3, 1]));
    assert!(!is_contiguous(&[2, 3], &[1, 2]));
    assert!(!is_contiguous(&[2, 3], &[3]));
    assert!(is_contiguous(&[], &[]));
    let shape = [4, 5, 6];
    assert!(is_contiguous(&shape, &optimal_strides(&shape)));
}

#[test]
fn new_rejects_mismatched_lengths() {
    assert!(StrideView::new(vec![2, 3], vec![1]).is_none());
    let v = StrideView::new(vec![2, 3], vec![1, 2]).unwrap();
    assert_eq!(v.len(), 6);
    assert!(!v.is_empty());
    assert_eq!(v.shape(), &[2, 3]);
    assert_eq!(v.strides(), &[1, 2]);
    let e = StrideView::new(vec![0, 3], vec![3, 1]).unwrap();
    assert!(e.is_empty());
}

#[test]
fn from_slice_is_dense() {
    let data = [0u8; 24];
    let v = StrideView::from_slice(&data, vec![2, 3, 4]).unwrap();
    assert_eq!(v.strides(), &[12, 4, 1]);
    assert!(v.is_contiguous());
    assert_eq!(v.len(), 24);
}

#[test]
fn linear_indexing() {
    let data = [0u8; 6];
    let v = StrideView::from_slice(&data, vec![2, 3]).unwrap();
    assert_eq!(v.index_linear(&[1, 2]), Some(5));
    assert_eq!(v.index_linear(&[0, 0]), Some(0));
    assert_eq!(v.index_linear(&[2, 0]), None);
    assert_eq!(v.index_linear(&[0, 3]), None);
    assert_eq!(v.index_linear(&[1]), None);
    let neg = StrideView::new(vec![3], vec![-1]).unwrap();
    assert_eq!(neg.index_linear(&[0]), Some(0));
    assert_eq!(neg.index_linear(&[1]), None);
}

#[test]
fn dense_offsets_stay_in_range() {
    let data = [0u8; 60];
    let v = StrideView::from_slice(&data, vec![3, 4, 5]).unwrap();
    let mut seen = vec![false; 60];
    for i in 0..3 {
        for j in 0..4 {
            for k in 0..5 {
                let off = v.index_linear(&[i, j, k]).unwrap();
                assert!(off < 60);
                assert!(!seen[off]);
                seen[off] = true;
            }
        }
    }
}

#[test]
fn get_and_get_mut() {
    let mut data = vec![10, 11, 12, 13, 14, 15];
    let v = StrideView::from_slice(&data, vec![2, 3]).unwrap();
    assert_eq!(v.get(&data, &[1, 0]), Some(&13));
    assert_eq!(v.get(&data, &[1, 3]), None);
    *v.get_mut(&mut data, &[0, 2]).unwrap() = 99;
    assert_eq!(data[2], 99);
    let short = [1, 2];
    assert_eq!(v.get(&short, &[1, 1]), None);
}

#[test]
fn transpose_reverses_axes() {
    let v = StrideView::new(vec![2, 3, 4], vec![12, 4, 1]).unwrap();
    let t = v.transpose();
    assert_eq!(t.shape(), &[4, 3, 2]);
    assert_eq!(t.strides(), &[1, 4, 12]);
    assert_eq!(t.len(), 24);
    let back = t.transpose();
    assert_eq!(back.shape(), v.shape());
    assert_eq!(back.strides(), v.strides());
}

#[test]
fn slicing_an_axis() {
    let data = [0u8; 12];
    let v = StrideView::from_slice(&data, vec![3, 4]).unwrap();
    let s = v.slice(1, 1, 3).unwrap();
    assert_eq!(s.shape(), &[3, 2]);
    assert_eq!(s.strides(), &[4, 1]);
    assert_eq!(s.index_linear(&[0, 0]), Some(1));
    assert_eq!(s.index_linear(&[2, 1]), Some(10));
    assert_eq!(s.len(), 12);
    let r = v.slice(0, 1, 3).unwrap();
    assert_eq!(r.index_linear(&[0, 0]), Some(4));
    assert!(v.slice(2, 0, 1).is_none());
    assert!(v.slice(0, 2, 1).is_none());
    assert!(v.slice(0, 0, 4).is_none());
}

#[test]
fn gpu_strides() {
    let v = StrideView::new(vec![2, 3], vec![1, 2]).unwrap();
    let g = v.optimize_for_gpu(32);
    assert_eq!(g.strides(), &[1, 32]);
    assert_eq!(g.shape(), &[2, 3]);
    let n = StrideView::new(vec![2, 3], vec![-3, 40]).unwrap();
    assert_eq!(n.optimize_for_gpu(32).strides(), &[3, 64]);
    let d = StrideView::new(vec![2, 3], vec![3, 1]).unwrap();
    assert_eq!(d.optimize_for_gpu(32).strides(), &[3, 1]);
}

#[test]
fn coalescing_sorts_axes_by_stride() {
    let (s, t) = coalesce_strides(&[2, 3, 4], &[1, 12, 3]).unwrap();
    assert_eq!(s, vec![2, 4, 3]);
    assert_eq!(t, vec![12, 3, 1]);
    let (s, t) = coalesce_strides(&[5, 7], &[2, -2]).unwrap();
    assert_eq!(s, vec![5, 7]);
    assert_eq!(t, vec![7, 1]);
    assert!(coalesce_strides(&[5], &[1, 2]).is_none());
    let v = StrideView::new(vec![2, 3, 4], vec![1, 12, 3]).unwrap();
    let c = v.coalesce().unwrap();
    assert_eq!(c.shape(), &[2, 4, 3]);
    assert!(c.is_contiguous());
    let dense = StrideView::new(vec![2, 3], vec![3, 1]).unwrap().coalesce().unwrap();
    assert_eq!(dense.shape(), &[2, 3]);
}

#[test]
fn iteration_is_row_major() {
    let data = vec![10, 11, 12, 13, 14, 15];
    let v = StrideView::from_slice(&data, vec![2, 3]).unwrap();
    let mut it = v.iter(&data);
    let mut seen = Vec::new();
    while let Some(x) = it.next() {
        seen.push(*x);
    }
    assert_eq!(seen, data);
    assert!(it.next().is_none());
    let t = v.transpose();
    let mut it = t.iter(&data);
    let mut seen = Vec::new();
    while let Some(x) = it.next() {
        seen.push(*x);
    }
    assert_eq!(seen, vec![10, 13, 11, 14, 12, 15]);
}

#[test]
fn iteration_over_empty_axis_yields_nothing() {
    let data: Vec<i32> = Vec::new();
    let v = StrideView::from_slice(&data, vec![0]).unwrap();
    let mut it = v.iter(&data);
    assert!(it.next().is_none());
}

#[test]
fn clone_keeps_the_view() {
    let v = StrideView::new(vec![2, 3], vec![1, 2]).unwrap();
    let c = v.clone();
    assert_eq!(c.shape(), v.shape());
    assert_eq!(c.strides(), v.strides());
    assert_eq!(c.len(), v.len());
}

#[test]
fn huge_extents_next_to_an_empty_axis() {
    let big: usize = 1 << 40;
    let v = StrideView::new(vec![0, big, big], vec![1, 1, 1]).unwrap();
    assert_eq!(v.len(), 0);
    assert!(v.is_empty());
    assert_eq!(optimal_strides(&[big, big, 0]), vec![0, 0, 1]);
    assert!(is_contiguous(&[big, big, 0], &[0, 0, 1]));
    assert!(!is_contiguous(&[big, big, 2], &[0, 2, 1]));
}

#[test]
fn contiguity_when_products_leave_usize() {
    let big: usize = 1 << 40;
    // the product of all extents overflows only after the last comparison
    assert!(is_contiguous(&[big, big], &[big as isize, 1]));
    // here axis 0 would need a stride of 2^80
    assert!(!is_contiguous(&[2, big, big], &[0, big as isize, 1]));
}

#[test]
fn transposed_view_reads_reversed_coordinates() {
    let v = StrideView::new(vec![2, 3, 4], vec![12, 4, 1]).unwrap();
    let t = v.transpose();
    assert_eq!(t.index_linear(&[3, 2, 1]), v.index_linear(&[1, 2, 3]));
    assert_eq!(t.index_linear(&[3, 2, 1]), Some(23));
    assert_eq!(t.len(), v.shape().iter().product::<usize>());
}

#[test]
fn coalesced_shape_is_a_permutation() {
    let v = StrideView::new(vec![2, 3, 4], vec![1, 12, 3]).unwrap();
    let c = v.coalesce().unwrap();
    let mut a = c.shape().to_vec();
    let mut b = v.shape().to_vec();
    a.sort();
    b.sort();
    assert_eq!(a, b);
    assert_eq!(c.len(), c.shape().iter().product::<usize>());
    assert_eq!(c.strides(), optimal_strides(c.shape()).as_slice());
}
