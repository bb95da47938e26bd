//! Strided views over flat tensor storage.
use vstd::prelude::*;
use vstd::relations::injective_on;
use vstd::set_lib::{lemma_int_range, lemma_map_size, lemma_subset_equality, set_int_range};

verus! {

/// Product of all extents of a shape.
pub open spec fn prod(s: Seq<usize>) -> int
    decreases s.len(),
{
    if s.len() == 0 {
        1
    } else {
        s[0] as int * prod(s.drop_first())
    }
}

/// Every suffix product of the extents, `shape[i] * .. * shape[n - 1]`, is
/// an `isize`: the row-major strides and the element count are addressable.
/// A zero extent makes every product to its left zero.
pub open spec fn suffixes_fit(s: Seq<usize>) -> bool {
    forall|i: int| 0 <= i <= s.len() ==> #[trigger] prod(s.subrange(i, s.len() as int)) <= isize::MAX
}

/// Every prefix product of the extents, `shape[0] * .. * shape[k - 1]`, is a
/// `usize`: the element count is computed left to right without overflow.
pub open spec fn prefixes_fit(s: Seq<usize>) -> bool {
    forall|k: int| 0 <= k <= s.len() ==> #[trigger] prod(s.take(k)) <= usize::MAX
}

/// The row-major (C order) stride of axis `i`: the product of the extents after it.
pub open spec fn row_major_stride(shape: Seq<usize>, i: int) -> int {
    prod(shape.subrange(i + 1, shape.len() as int))
}

/// The row-major strides of a shape, one per axis.
pub open spec fn row_major_strides(shape: Seq<usize>) -> Seq<isize> {
    Seq::new(shape.len(), |i: int| row_major_stride(shape, i) as isize)
}

/// Strides describe a dense row-major layout of the shape.
pub open spec fn contiguous(shape: Seq<usize>, strides: Seq<isize>) -> bool {
    &&& shape.len() == strides.len()
    &&& forall|i: int| 0 <= i < shape.len() ==> strides[i] as int == #[trigger] row_major_stride(shape, i)
}

proof fn lemma_prod_nonneg(s: Seq<usize>)
    ensures
        0 <= prod(s),
    decreases s.len(),
{
    if s.len() > 0 {
        lemma_prod_nonneg(s.drop_first());
        let a = s[0] as int;
        let p = prod(s.drop_first());
        assert(0 <= a * p) by (nonlinear_arith)
            requires 0 <= a, 0 <= p;
    }
}

/// A shape with no empty axis has a positive product.
proof fn lemma_prod_pos(s: Seq<usize>)
    requires
        forall|i: int| 0 <= i < s.len() ==> s[i] >= 1,
    ensures
        prod(s) >= 1,
    decreases s.len(),
{
    if s.len() > 0 {
        lemma_prod_pos(s.drop_first());
        let a = s[0] as int;
        let p = prod(s.drop_first());
        assert(1 <= a * p) by (nonlinear_arith)
            requires 1 <= a, 1 <= p;
    }
}

/// Stepping one axis to the left multiplies the suffix product by that extent.
proof fn lemma_suffix_step(s: Seq<usize>, i: int)
    requires
        0 <= i < s.len(),
    ensures
        prod(s.subrange(i, s.len() as int)) == s[i] as int * prod(s.subrange(i + 1, s.len() as int)),
{
    assert(s.subrange(i, s.len() as int).drop_first() =~= s.subrange(i + 1, s.len() as int));
}

/// Row-major strides of `shape`: `result[i]` is the product of the extents after axis `i`.
pub fn optimal_strides(shape: &[usize]) -> (strides: Vec<isize>)
    requires
        suffixes_fit(shape@),
    ensures
        strides.len() == shape.len(),
        forall|i: int| 0 <= i < shape.len() ==> strides[i] as int == #[trigger] row_major_stride(shape@, i),
        contiguous(shape@, strides@),
        strides@ == row_major_strides(shape@),
{
    let n: usize = shape.len();
    // rev[t] holds the stride of axis n - 1 - t
    let mut rev: Vec<isize> = Vec::new();
    let mut acc: isize = 1;
    let mut i: usize = n;
    proof {
        assert(shape@.subrange(n as int, n as int) =~= Seq::<usize>::empty());
    }
    while i > 0
        invariant
            i <= n,
            n == shape.len(),
            suffixes_fit(shape@),
            rev.len() == n - i,
            acc as int == prod(shape@.subrange(i as int, n as int)),
            forall|t: int| 0 <= t < rev.len() ==> rev[t] as int == row_major_stride(shape@, n - 1 - t),
        decreases i,
    {
        i -= 1;
        rev.push(acc);
        proof {
            lemma_suffix_step(shape@, i as int);
            lemma_prod_nonneg(shape@.subrange(i as int + 1, n as int));
            assert(prod(shape@.subrange(i as int, n as int)) <= isize::MAX);
        }
        if acc != 0 {
            proof {
                let a = acc as int;
                let d = shape[i as int] as int;
                assert(d <= d * a && a * d == d * a) by (nonlinear_arith)
                    requires 1 <= a, 0 <= d;
            }
            acc = acc * (shape[i] as isize);
        } else {
            proof {
                let d = shape[i as int] as int;
                assert(d * 0 == 0) by (nonlinear_arith);
            }
        }
    }
    let mut strides: Vec<isize> = Vec::new();
    let mut j: usize = 0;
    while j < n
        invariant
            j <= n,
            n == shape.len(),
            rev.len() == n,
            strides.len() == j,
            forall|t: int| 0 <= t < rev.len() ==> rev[t] as int == row_major_stride(shape@, n - 1 - t),
            forall|k: int| 0 <= k < j ==> strides[k] as int == #[trigger] row_major_stride(shape@, k),
        decreases n - j,
    {
        strides.push(rev[n - 1 - j]);
        j += 1;
    }
    proof {
        assert(strides@ =~= row_major_strides(shape@));
    }
    strides
}

/// Whether `strides` describe a dense row-major layout of `shape`. A stride
/// would have to exceed `isize::MAX` where a suffix product does, so such a
/// layout is never dense.
pub fn is_contiguous(shape: &[usize], strides: &[isize]) -> (r: bool)
    ensures
        r == contiguous(shape@, strides@),
{
    if shape.len() != strides.len() {
        return false;
    }
    let n: usize = shape.len();
    let mut expected: usize = 1;
    let mut i: usize = n;
    proof {
        assert(shape@.subrange(n as int, n as int) =~= Seq::<usize>::empty());
    }
    while i > 0
        invariant
            i <= n,
            n == shape.len(),
            n == strides.len(),
            expected as int == prod(shape@.subrange(i as int, n as int)),
            forall|k: int| i <= k < n ==> strides[k] as int == #[trigger] row_major_stride(shape@, k),
        decreases i,
    {
        i -= 1;
        if strides[i] < 0 || strides[i] as usize != expected {
            assert(strides@[i as int] as int != row_major_stride(shape@, i as int));
            return false;
        }
        proof {
            lemma_suffix_step(shape@, i as int);
            let a = expected as int;
            let d = shape[i as int] as int;
            assert(a * d == d * a) by (nonlinear_arith);
        }
        match expected.checked_mul(shape[i]) {
            Some(e) => {
                expected = e;
            },
            None => {
                if i == 0 {
                    return true;
                }
                // the stride of axis i - 1 would be this product, beyond any isize
                assert(row_major_stride(shape@, i as int - 1) > usize::MAX);
                assert(strides@[i as int - 1] as int != row_major_stride(shape@, i as int - 1));
                return false;
            },
        }
    }
    true
}


/// Multiplying out a prefix and the rest of a shape gives the whole product.
proof fn lemma_prod_split(s: Seq<usize>, k: int)
    requires
        0 <= k <= s.len(),
    ensures
        prod(s) == prod(s.take(k)) * prod(s.skip(k)),
    decreases k,
{
    if k == 0 {
        assert(s.take(0) =~= Seq::<usize>::empty());
        assert(s.skip(0) =~= s);
    } else {
        let t = s.drop_first();
        lemma_prod_split(t, k - 1);
        assert(s.take(k).drop_first() =~= t.take(k - 1));
        assert(s.skip(k) =~= t.skip(k - 1));
        let a = s[0] as int;
        let p1 = prod(t.take(k - 1));
        let p2 = prod(t.skip(k - 1));
        assert(a * (p1 * p2) == (a * p1) * p2) by (nonlinear_arith);
    }
}

/// Appending an extent multiplies the product by it.
proof fn lemma_prod_prefix_step(s: Seq<usize>, k: int)
    requires
        0 <= k < s.len(),
    ensures
        prod(s.take(k + 1)) == prod(s.take(k)) * s[k] as int,
{
    let t = s.take(k + 1);
    lemma_prod_split(t, k);
    assert(t.take(k) =~= s.take(k));
    assert(t.skip(k) =~= seq![s[k]]);
    assert(seq![s[k]].drop_first() =~= Seq::<usize>::empty());
    assert(prod(seq![s[k]]) == s[k] as int * prod(Seq::<usize>::empty()));
}

/// The abstract content of a [`StrideView`].
pub struct StrideViewModel {
    pub shape: Seq<usize>,
    pub strides: Seq<isize>,
    pub offset: usize,
    pub len: usize,
}

/// The view's recorded element count is the product of its extents.
pub open spec fn counts_elements(v: StrideViewModel) -> bool {
    v.len == prod(v.shape)
}

/// A strided view over flat storage: element `(i0, .., ik)` lives at
/// `offset + i0 * strides[0] + .. + ik * strides[k]`.
pub struct StrideView {
    shape: Vec<usize>,
    strides: Vec<isize>,
    offset: usize,
    len: usize,
}

impl View for StrideView {
    type V = StrideViewModel;

    closed spec fn view(&self) -> StrideViewModel {
        StrideViewModel { shape: self.shape@, strides: self.strides@, offset: self.offset, len: self.len }
    }
}

impl StrideView {
    /// Shape and strides always have one entry per axis.
    #[verifier::type_invariant]
    closed spec fn well_formed(self) -> bool {
        self.shape.len() == self.strides.len()
    }

    /// Builds a view at offset 0; `None` when shape and strides disagree in
    /// length. The element count is the product of the extents.
    pub fn new(shape: Vec<usize>, strides: Vec<isize>) -> (r: Option<StrideView>)
        requires
            shape.len() == strides.len() ==> prefixes_fit(shape@),
        ensures
            r is None <==> shape.len() != strides.len(),
            r matches Some(v) ==> v@ == (StrideViewModel {
                shape: shape@,
                strides: strides@,
                offset: 0,
                len: prod(shape@) as usize,
            }),
            r matches Some(v) ==> counts_elements(v@),
    {
        if shape.len() != strides.len() {
            return None;
        }
        let n: usize = shape.len();
        let mut len: usize = 1;
        let mut k: usize = 0;
        proof {
            assert(shape@.take(0) =~= Seq::<usize>::empty());
        }
        while k < n
            invariant
                k <= n,
                n == shape.len(),
                prefixes_fit(shape@),
                len as int == prod(shape@.take(k as int)),
            decreases n - k,
        {
            proof {
                lemma_prod_prefix_step(shape@, k as int);
                assert(prod(shape@.take(k as int + 1)) <= usize::MAX);
            }
            len = len * shape[k];
            k += 1;
        }
        proof {
            assert(shape@.take(n as int) =~= shape@);
        }
        Some(StrideView { shape, strides, offset: 0, len })
    }

    /// A dense row-major view over `data` with the given shape.
    pub fn from_slice<T>(_data: &[T], shape: Vec<usize>) -> (r: Option<StrideView>)
        requires
            suffixes_fit(shape@),
            prefixes_fit(shape@),
        ensures
            r matches Some(v) && v@.shape == shape@ && contiguous(shape@, v@.strides) && v@.offset == 0
                && v@.len == prod(shape@) && counts_elements(v@),
    {
        let strides = optimal_strides(shape.as_slice());
        proof {
            lemma_prod_nonneg(shape@);
            assert(shape@.take(shape@.len() as int) =~= shape@);
            assert(prod(shape@.take(shape@.len() as int)) <= usize::MAX);
        }
        Self::new(shape, strides)
    }

    /// The extents of the view.
    pub fn shape(&self) -> (r: &[usize])
        ensures
            r@ == self@.shape,
    {
        self.shape.as_slice()
    }

    /// The strides of the view, in elements.
    pub fn strides(&self) -> (r: &[isize])
        ensures
            r@ == self@.strides,
    {
        self.strides.as_slice()
    }

    /// The element count recorded for the view.
    pub fn len(&self) -> (r: usize)
        ensures
            r == self@.len,
    {
        self.len
    }

    /// Whether the recorded element count is zero.
    pub fn is_empty(&self) -> (r: bool)
        ensures
            r == (self@.len == 0),
    {
        self.len == 0
    }

    /// Whether the view is a dense row-major layout of its shape.
    pub fn is_contiguous(&self) -> (r: bool)
        ensures
            r == contiguous(self@.shape, self@.strides),
    {
        proof {
            use_type_invariant(self);
        }
        is_contiguous(self.shape.as_slice(), self.strides.as_slice())
    }

    /// Storage offset of the element at `indices`; `None` when the index has
    /// the wrong number of axes, leaves an axis, or lands before the storage.
    pub fn index_linear(&self, indices: &[usize]) -> (r: Option<usize>)
        requires
            indices.len() == self@.shape.len() ==> walk_fits(self@, indices@),
        ensures
            r == linear_index(self@, indices@),
    {
        proof {
            use_type_invariant(self);
        }
        if indices.len() != self.shape.len() {
            return None;
        }
        let n: usize = indices.len();
        let mut idx: isize = self.offset as isize;
        let mut i: usize = 0;
        while i < n
            invariant
                i <= n,
                n == indices.len(),
                n == self.shape.len(),
                n == self.strides.len(),
                walk_fits(self@, indices@),
                in_bounds_upto(indices@, self@.shape, i as int),
                idx as int == walk(self@, indices@, i as int),
            decreases n - i,
        {
            if indices[i] >= self.shape[i] {
                return None;
            }
            proof {
                assert(in_bounds_upto(indices@, self@.shape, i as int + 1));
            }
            idx = idx + indices[i] as isize * self.strides[i];
            i += 1;
        }
        if idx < 0 {
            return None;
        }
        Some(idx as usize)
    }

    /// The element of `data` at `indices`, when the view maps them inside `data`.
    pub fn get<'a, T>(&self, data: &'a [T], indices: &[usize]) -> (r: Option<&'a T>)
        requires
            indices.len() == self@.shape.len() ==> walk_fits(self@, indices@),
        ensures
            r == element_at(self@, data, indices@),
    {
        match self.index_linear(indices) {
            Some(k) => if k < data.len() {
                Some(&data[k])
            } else {
                None
            },
            None => None,
        }
    }

    /// Mutable access to the element of `data` at `indices`, when the view maps
    /// them inside `data`.
    pub fn get_mut<'a, T>(&self, data: &'a mut [T], indices: &[usize]) -> (r: Option<&'a mut T>)
        requires
            indices.len() == self@.shape.len() ==> walk_fits(self@, indices@),
        ensures
            match linear_index(self@, indices@) {
                Some(k) => if k < old(data)@.len() {
                    r matches Some(e) && *e == old(data)@[k as int]
                        && final(data)@ == old(data)@.update(k as int, *final(e))
                } else {
                    r is None && final(data)@ == old(data)@
                },
                None => r is None && final(data)@ == old(data)@,
            },
    {
        match self.index_linear(indices) {
            Some(k) => if k < data.len() {
                Some(&mut data[k])
            } else {
                None
            },
            None => None,
        }
    }

    /// The view with its axes in reverse order.
    pub fn transpose(&self) -> (r: StrideView)
        ensures
            r@ == transposed(self@),
            counts_elements(self@) ==> counts_elements(r@),
    {
        proof {
            use_type_invariant(self);
            if counts_elements(self@) {
                law_element_count_survives_reordering(self@);
            }
        }
        let new_shape = reversed(&self.shape);
        let new_strides = reversed(&self.strides);
        StrideView { shape: new_shape, strides: new_strides, offset: self.offset, len: self.len }
    }

    /// Restricts axis `dim` to `start..end`; `None` when `dim` is not an axis
    /// or the range is empty-reversed or leaves the axis. The recorded
    /// element count is carried over unchanged.
    pub fn slice(&self, dim: usize, start: usize, end: usize) -> (r: Option<StrideView>)
        requires
            dim < self@.shape.len() && start <= end && end <= self@.shape[dim as int] ==> slice_fits(
                self@,
                dim,
                start,
            ),
        ensures
            model_of(r) == slice_model(self@, dim, start, end),
    {
        proof {
            use_type_invariant(self);
        }
        if dim >= self.shape.len() {
            return None;
        }
        if start > end || end > self.shape[dim] {
            return None;
        }
        let mut new_shape = self.shape.clone();
        proof {
            assert(new_shape@ =~= self.shape@);
        }
        new_shape.set(dim, end - start);
        let offset = self.offset + start * self.strides[dim] as usize;
        let new_strides = self.strides.clone();
        proof {
            assert(new_strides@ =~= self.strides@);
        }
        Some(StrideView { shape: new_shape, strides: new_strides, offset, len: self.len })
    }
}

impl StrideView {
    /// Strides tuned for coalesced GPU access: a non-contiguous view gets every
    /// stride made non-negative and its last stride rounded up past the next
    /// multiple of `warp_size`; a contiguous view is returned as it is.
    pub fn optimize_for_gpu(&self, warp_size: usize) -> (r: StrideView)
        requires
            !contiguous(self@.shape, self@.strides) ==> gpu_fits(self@.strides, warp_size),
        ensures
            r@ == (if contiguous(self@.shape, self@.strides) {
                self@
            } else {
                StrideViewModel { strides: gpu_strides(self@.strides, warp_size as isize), ..self@ }
            }),
            counts_elements(self@) ==> counts_elements(r@),
    {
        proof {
            use_type_invariant(self);
        }
        if self.is_contiguous() {
            return self.clone();
        }
        let n: usize = self.strides.len();
        let ws: isize = warp_size as isize;
        let mut new_strides: Vec<isize> = Vec::new();
        let mut i: usize = 0;
        while i < n
            invariant
                i <= n,
                n == self.strides.len(),
                n == self.shape.len(),
                ws == warp_size as isize,
                gpu_fits(self@.strides, warp_size),
                new_strides.len() == i,
                forall|k: int| 0 <= k < i ==> new_strides@[k] as int == #[trigger] gpu_stride(self@.strides, k, ws),
            decreases n - i,
        {
            let mut st: isize = self.strides[i];
            if st < 0 {
                st = -st;
            }
            assert(st as int == abs_stride(self@.strides[i as int]));
            if i == n - 1 {
                assert(st >= 0);
                let ghost a = abs_stride(self@.strides[self@.strides.len() - 1]);
                assert(a == st as int);
                // Rust's `/` truncates toward zero; the dividend is non-negative here.
                let q: isize = if ws > 0 {
                    st / ws
                } else if ws == isize::MIN {
                    assert(a / (-(ws as int)) == 0) by (nonlinear_arith)
                        requires 0 <= a <= isize::MAX, -(ws as int) == isize::MAX + 1;
                    0
                } else {
                    -(st / (-ws))
                };
                assert(q as int == trunc_div(a, ws as int));
                let q1: isize = q + 1;
                st = q1 * ws;
            }
            new_strides.push(st);
            i += 1;
        }
        proof {
            assert(new_strides@ =~= gpu_strides(self@.strides, ws));
        }
        StrideView { shape: self.shape.clone(), strides: new_strides, offset: self.offset, len: self.len }
    }
}

impl Clone for StrideView {
    fn clone(&self) -> (r: StrideView)
        ensures
            r@ == self@,
    {
        proof {
            use_type_invariant(self);
        }
        let shape = self.shape.clone();
        let strides = self.strides.clone();
        proof {
            assert(shape@ =~= self.shape@);
            assert(strides@ =~= self.strides@);
        }
        StrideView { shape, strides, offset: self.offset, len: self.len }
    }
}

/// A copy of `v` in reverse order.
fn reversed<T: Copy>(v: &Vec<T>) -> (r: Vec<T>)
    ensures
        r@ == v@.reverse(),
{
    let n: usize = v.len();
    let mut r: Vec<T> = Vec::new();
    let mut i: usize = n;
    while i > 0
        invariant
            i <= n,
            n == v.len(),
            r.len() == n - i,
            forall|k: int| 0 <= k < r.len() ==> r@[k] == v@[n - 1 - k],
        decreases i,
    {
        i -= 1;
        r.push(v[i]);
    }
    proof {
        assert(r@ =~= v@.reverse());
    }
    r
}

/// A view with its axes in reverse order.
pub open spec fn transposed(v: StrideViewModel) -> StrideViewModel {
    StrideViewModel { shape: v.shape.reverse(), strides: v.strides.reverse(), offset: v.offset, len: v.len }
}

/// Transposing twice gives back the original view.
pub proof fn law_transpose_involution(v: StrideViewModel)
    ensures
        transposed(transposed(v)) == v,
{
    assert(v.shape.reverse().reverse() =~= v.shape);
    assert(v.strides.reverse().reverse() =~= v.strides);
}

/// Dense row-major strides are exactly the ones `optimal_strides` gives:
/// where every suffix product is an `isize`, strides are contiguous for a
/// shape iff they equal its row-major strides.
pub proof fn law_contiguous_iff_row_major(shape: Seq<usize>, strides: Seq<isize>)
    requires
        suffixes_fit(shape),
    ensures
        contiguous(shape, strides) <==> strides == row_major_strides(shape),
{
    let n = shape.len() as int;
    assert forall|i: int| 0 <= i < n implies 0 <= #[trigger] row_major_stride(shape, i) <= isize::MAX by {
        assert(prod(shape.subrange(i + 1, n)) <= isize::MAX);
        lemma_prod_nonneg(shape.subrange(i + 1, n));
    }
    if contiguous(shape, strides) {
        assert(strides =~= row_major_strides(shape));
    }
    if strides == row_major_strides(shape) {
        assert forall|i: int| 0 <= i < n implies strides[i] as int == #[trigger] row_major_stride(shape, i) by {
            assert(strides[i] == row_major_strides(shape)[i]);
        }
    }
}

/// The walk of a transposed view over reversed coordinates after `k` axes
/// has taken the last `k` steps of the original walk.
proof fn lemma_transposed_walk(v: StrideViewModel, indices: Seq<usize>, k: int)
    requires
        v.shape.len() == v.strides.len(),
        indices.len() == v.shape.len(),
        0 <= k <= indices.len(),
    ensures
        walk(transposed(v), indices.reverse(), k) - walk(transposed(v), indices.reverse(), 0) == walk(
            v,
            indices,
            indices.len() as int,
        ) - walk(v, indices, indices.len() - k),
    decreases k,
{
    let n = indices.len() as int;
    if k > 0 {
        lemma_transposed_walk(v, indices, k - 1);
        assert(indices.reverse()[k - 1] == indices[n - k]);
        assert(transposed(v).strides[k - 1] == v.strides[n - k]);
        assert(walk_term(transposed(v), indices.reverse(), k - 1) == walk_term(v, indices, n - k));
    }
}

/// Transposing reverses the coordinates: the transposed view sends the
/// reversed coordinates to the storage offset the view sends the
/// coordinates to (or refuses both).
pub proof fn law_transpose_reverses_coordinates(v: StrideViewModel, indices: Seq<usize>)
    requires
        v.shape.len() == v.strides.len(),
    ensures
        linear_index(transposed(v), indices.reverse()) == linear_index(v, indices),
{
    let t = transposed(v);
    let r = indices.reverse();
    let n = indices.len() as int;
    if indices.len() == v.shape.len() {
        lemma_transposed_walk(v, indices, n);
        assert(in_bounds_upto(r, t.shape, n) == in_bounds_upto(indices, v.shape, n)) by {
            if in_bounds_upto(indices, v.shape, n) {
                assert forall|j: int| 0 <= j < n implies r[j] < #[trigger] t.shape[j] by {
                    assert(indices[n - 1 - j] < v.shape[n - 1 - j]);
                }
            }
            if in_bounds_upto(r, t.shape, n) {
                assert forall|j: int| 0 <= j < n implies indices[j] < #[trigger] v.shape[j] by {
                    assert(r[n - 1 - j] < t.shape[n - 1 - j]);
                }
            }
        }
    }
}

/// The abstract content of an optional view.
pub open spec fn model_of(r: Option<StrideView>) -> Option<StrideViewModel> {
    match r {
        Some(v) => Some(v@),
        None => None,
    }
}

/// Magnitude of a stride.
pub open spec fn abs_stride(s: isize) -> int {
    if s < 0 {
        -(s as int)
    } else {
        s as int
    }
}

/// Rust's `/` on a non-negative dividend: the quotient truncated toward zero.
pub open spec fn trunc_div(a: int, d: int) -> int {
    if d > 0 {
        a / d
    } else {
        -(a / (-d))
    }
}

/// The GPU-tuned stride of axis `i`.
pub open spec fn gpu_stride(strides: Seq<isize>, i: int, ws: isize) -> int {
    if i == strides.len() - 1 {
        (trunc_div(abs_stride(strides[i]), ws as int) + 1) * (ws as int)
    } else {
        abs_stride(strides[i])
    }
}

/// All GPU-tuned strides.
pub open spec fn gpu_strides(strides: Seq<isize>, ws: isize) -> Seq<isize> {
    Seq::new(strides.len(), |i: int| gpu_stride(strides, i, ws) as isize)
}

/// The warp size is a nonzero `isize`, no stride is `isize::MIN`, and the
/// rounded last stride is an `isize`.
pub open spec fn gpu_fits(strides: Seq<isize>, warp_size: usize) -> bool {
    let ws = warp_size as isize;
    &&& ws != 0
    &&& forall|i: int| 0 <= i < strides.len() ==> #[trigger] strides[i] != isize::MIN
    &&& strides.len() > 0 ==> {
        let a = abs_stride(strides[strides.len() - 1]);
        &&& trunc_div(a, ws as int) + 1 <= isize::MAX
        &&& isize::MIN <= (trunc_div(a, ws as int) + 1) * (ws as int) <= isize::MAX
    }
}

/// All coordinates before axis `k` lie inside their extents.
pub open spec fn in_bounds_upto(indices: Seq<usize>, shape: Seq<usize>, k: int) -> bool {
    forall|j: int| 0 <= j < k ==> indices[j] < #[trigger] shape[j]
}

/// One step of the offset walk: coordinate `k` (as an `isize`) times stride `k`.
pub open spec fn walk_term(v: StrideViewModel, indices: Seq<usize>, k: int) -> int {
    (indices[k] as isize) as int * v.strides[k] as int
}

/// The offset reached after the first `k` axes, starting from the view's offset.
pub open spec fn walk(v: StrideViewModel, indices: Seq<usize>, k: int) -> int
    decreases k,
{
    if k <= 0 {
        (v.offset as isize) as int
    } else {
        walk(v, indices, k - 1) + walk_term(v, indices, k - 1)
    }
}

/// Every product and partial sum of the walk over in-bounds coordinates is an `isize`.
pub open spec fn walk_fits(v: StrideViewModel, indices: Seq<usize>) -> bool {
    forall|k: int|
        0 <= k < indices.len() && #[trigger] in_bounds_upto(indices, v.shape, k + 1) ==> {
            &&& isize::MIN <= walk_term(v, indices, k) <= isize::MAX
            &&& isize::MIN <= walk(v, indices, k + 1) <= isize::MAX
        }
}

/// The storage offset that a view gives to `indices`.
pub open spec fn linear_index(v: StrideViewModel, indices: Seq<usize>) -> Option<usize> {
    if indices.len() != v.shape.len() {
        None
    } else if !in_bounds_upto(indices, v.shape, indices.len() as int) {
        None
    } else if walk(v, indices, indices.len() as int) < 0 {
        None
    } else {
        Some(walk(v, indices, indices.len() as int) as usize)
    }
}

/// The start of a slice along `dim` moves the offset without overflow.
pub open spec fn slice_fits(v: StrideViewModel, dim: usize, start: usize) -> bool {
    &&& start * (v.strides[dim as int] as usize) <= usize::MAX
    &&& v.offset + start * (v.strides[dim as int] as usize) <= usize::MAX
}

/// The view restricted to `start..end` along `dim`.
pub open spec fn slice_model(v: StrideViewModel, dim: usize, start: usize, end: usize) -> Option<
    StrideViewModel,
> {
    if dim >= v.shape.len() || start > end || end > v.shape[dim as int] {
        None
    } else {
        Some(
            StrideViewModel {
                shape: v.shape.update(dim as int, (end - start) as usize),
                strides: v.strides,
                offset: (v.offset + start * (v.strides[dim as int] as usize)) as usize,
                len: v.len,
            },
        )
    }
}


/// Axis `a` comes before axis `b` when sorting axes by stride magnitude,
/// ties kept in axis order (a stable sort).
pub open spec fn precedes(strides: Seq<isize>, a: int, b: int) -> bool {
    ||| abs_stride(strides[a]) < abs_stride(strides[b])
    ||| abs_stride(strides[a]) == abs_stride(strides[b]) && a < b
}

/// How many of the axes before `m` come before axis `i`.
pub open spec fn rank_upto(strides: Seq<isize>, i: int, m: int) -> int
    decreases m,
{
    if m <= 0 {
        0
    } else {
        rank_upto(strides, i, m - 1) + if precedes(strides, m - 1, i) {
            1int
        } else {
            0int
        }
    }
}

/// Position of axis `i` once the axes are sorted by stride magnitude.
pub open spec fn rank(strides: Seq<isize>, i: int) -> int {
    rank_upto(strides, i, strides.len() as int)
}

/// The axis that lands at position `j` of the sorted order.
pub open spec fn axis_at_rank(strides: Seq<isize>, j: int) -> int {
    choose|i: int| 0 <= i < strides.len() && rank(strides, i) == j
}

/// The shape with its axes sorted by stride magnitude (stable).
pub open spec fn coalesced_shape(shape: Seq<usize>, strides: Seq<isize>) -> Seq<usize> {
    Seq::new(shape.len(), |j: int| shape[axis_at_rank(strides, j)])
}

/// `perm` rearranges the positions of `b` into `a`: `a[j] == b[perm[j]]`,
/// each position of `b` used at most once.
pub open spec fn reorders(perm: Seq<int>, a: Seq<usize>, b: Seq<usize>) -> bool {
    &&& perm.len() == a.len()
    &&& forall|j: int| 0 <= j < perm.len() ==> 0 <= #[trigger] perm[j] < b.len() && a[j] == b[perm[j]]
    &&& forall|j: int, k: int| 0 <= j < k < perm.len() ==> #[trigger] perm[j] != #[trigger] perm[k]
}

/// `a` holds the extents of `b` in some order.
pub open spec fn is_permutation_of(a: Seq<usize>, b: Seq<usize>) -> bool {
    &&& a.len() == b.len()
    &&& exists|perm: Seq<int>| #[trigger] reorders(perm, a, b)
}

/// Sorting the axes by stride magnitude only reorders the extents.
proof fn lemma_coalesced_is_permutation(shape: Seq<usize>, strides: Seq<isize>)
    requires
        shape.len() == strides.len(),
    ensures
        is_permutation_of(coalesced_shape(shape, strides), shape),
{
    let n = shape.len() as int;
    let a = coalesced_shape(shape, strides);
    let perm = Seq::new(n as nat, |j: int| axis_at_rank(strides, j));
    assert forall|j: int| 0 <= j < perm.len() implies 0 <= #[trigger] perm[j] < shape.len() && a[j] == shape[perm[j]] by {
        lemma_rank_onto(strides, j);
    }
    assert forall|j: int, k: int| 0 <= j < k < perm.len() implies #[trigger] perm[j] != #[trigger] perm[k] by {
        lemma_rank_onto(strides, j);
        lemma_rank_onto(strides, k);
    }
    assert(reorders(perm, a, shape));
}

/// Dropping position `q` divides the product by that extent.
proof fn lemma_prod_remove(b: Seq<usize>, q: int)
    requires
        0 <= q < b.len(),
    ensures
        prod(b) == prod(b.remove(q)) * b[q] as int,
{
    lemma_prod_split(b, q);
    let rest = b.skip(q);
    assert(rest.drop_first() =~= b.skip(q + 1));
    assert(prod(rest) == b[q] as int * prod(b.skip(q + 1)));
    let r = b.remove(q);
    lemma_prod_split(r, q);
    assert(r.take(q) =~= b.take(q));
    assert(r.skip(q) =~= b.skip(q + 1));
    let x = prod(b.take(q));
    let y = prod(b.skip(q + 1));
    let d = b[q] as int;
    assert(x * (d * y) == (x * y) * d) by (nonlinear_arith);
}

/// The product of the extents does not depend on their order.
pub proof fn law_prod_of_permutation(a: Seq<usize>, b: Seq<usize>)
    requires
        is_permutation_of(a, b),
    ensures
        prod(a) == prod(b),
    decreases a.len(),
{
    let perm = choose|perm: Seq<int>| #[trigger] reorders(perm, a, b);
    let n = a.len() as int;
    if n == 0 {
        assert(a =~= Seq::<usize>::empty());
        assert(b =~= Seq::<usize>::empty());
    } else {
        let q = perm[n - 1];
        let a2 = a.drop_last();
        let b2 = b.remove(q);
        let perm2 = Seq::new((n - 1) as nat, |j: int| if perm[j] < q { perm[j] } else { perm[j] - 1 });
        assert forall|j: int| 0 <= j < perm2.len() implies 0 <= #[trigger] perm2[j] < b2.len() && a2[j] == b2[perm2[j]] by {
            assert(perm[j] != perm[n - 1]);
        }
        assert forall|j: int, k: int| 0 <= j < k < perm2.len() implies #[trigger] perm2[j] != #[trigger] perm2[k] by {
            assert(perm[j] != perm[k]);
            assert(perm[j] != perm[n - 1]);
            assert(perm[k] != perm[n - 1]);
        }
        assert(reorders(perm2, a2, b2));
        law_prod_of_permutation(a2, b2);
        lemma_prod_remove(b, q);
        lemma_prod_prefix_step(a, n - 1);
        assert(a.take(n) =~= a);
        assert(a.take(n - 1) =~= a2);
    }
}

/// Reversing the axes is one way of reordering them.
proof fn lemma_reverse_is_permutation(s: Seq<usize>)
    ensures
        is_permutation_of(s.reverse(), s),
{
    let n = s.len() as int;
    let perm = Seq::new(n as nat, |j: int| n - 1 - j);
    assert(reorders(perm, s.reverse(), s));
}

/// A view's element count stays the product of its extents when its axes
/// are reordered: transposing keeps the count and reverses the shape, and
/// coalescing keeps the count and permutes the shape.
pub proof fn law_element_count_survives_reordering(v: StrideViewModel)
    requires
        v.len == prod(v.shape),
    ensures
        transposed(v).len == prod(transposed(v).shape),
        v.shape.len() == v.strides.len() ==> v.len == prod(coalesced_shape(v.shape, v.strides)),
{
    lemma_reverse_is_permutation(v.shape);
    law_prod_of_permutation(v.shape.reverse(), v.shape);
    if v.shape.len() == v.strides.len() {
        lemma_coalesced_is_permutation(v.shape, v.strides);
        law_prod_of_permutation(coalesced_shape(v.shape, v.strides), v.shape);
    }
}

/// The stride magnitudes can be compared without overflow and the sorted
/// shape is addressable.
pub open spec fn coalesce_fits(shape: Seq<usize>, strides: Seq<isize>) -> bool {
    &&& forall|i: int| 0 <= i < strides.len() ==> #[trigger] strides[i] != isize::MIN
    &&& suffixes_fit(coalesced_shape(shape, strides))
}

proof fn lemma_rank_bounds(strides: Seq<isize>, i: int, m: int)
    requires
        0 <= m,
    ensures
        0 <= rank_upto(strides, i, m) <= m,
        0 <= i < m ==> rank_upto(strides, i, m) < m,
    decreases m,
{
    if m > 0 {
        lemma_rank_bounds(strides, i, m - 1);
    }
}

/// If axis `i` precedes axis `k`, fewer axes precede `i` than `k`.
proof fn lemma_rank_order(strides: Seq<isize>, i: int, k: int, m: int)
    requires
        0 <= m,
        precedes(strides, i, k),
    ensures
        rank_upto(strides, i, m) <= rank_upto(strides, k, m),
        0 <= i < m ==> rank_upto(strides, i, m) < rank_upto(strides, k, m),
    decreases m,
{
    if m > 0 {
        lemma_rank_order(strides, i, k, m - 1);
    }
}

/// Distinct axes get distinct positions.
proof fn lemma_rank_injective(strides: Seq<isize>, i: int, k: int)
    requires
        0 <= i < strides.len(),
        0 <= k < strides.len(),
        i != k,
    ensures
        rank(strides, i) != rank(strides, k),
{
    if precedes(strides, i, k) {
        lemma_rank_order(strides, i, k, strides.len() as int);
    } else {
        lemma_rank_order(strides, k, i, strides.len() as int);
    }
}

/// Every position of the sorted order is taken by some axis.
proof fn lemma_rank_onto(strides: Seq<isize>, j: int)
    requires
        0 <= j < strides.len(),
    ensures
        0 <= axis_at_rank(strides, j) < strides.len(),
        rank(strides, axis_at_rank(strides, j)) == j,
{
    let n = strides.len() as int;
    let dom = set_int_range(0, n);
    let f = |i: int| rank(strides, i);
    lemma_int_range(0, n);
    assert forall|a: int, b: int| dom.contains(a) && dom.contains(b) && #[trigger] f(a) == #[trigger] f(b) implies a == b by {
        if a != b {
            lemma_rank_injective(strides, a, b);
        }
    }
    assert(injective_on(f, dom));
    let img = dom.map(f);
    lemma_map_size(dom, img, f);
    assert forall|x: int| img.contains(x) implies dom.contains(x) by {
        let i = choose|i: int| dom.contains(i) && f(i) == x;
        lemma_rank_bounds(strides, i, n);
    }
    lemma_subset_equality(img, dom);
    assert(img.contains(j));
    let w = choose|i: int| dom.contains(i) && f(i) == j;
    assert(0 <= w < n && rank(strides, w) == j);
}

/// The stable sort order of the axes by stride magnitude, as exec values.
fn axis_rank(strides: &[isize], i: usize) -> (r: usize)
    requires
        i < strides.len(),
        forall|k: int| 0 <= k < strides.len() ==> #[trigger] strides@[k] != isize::MIN,
    ensures
        r as int == rank(strides@, i as int),
{
    let n: usize = strides.len();
    let key_i: isize = if strides[i] < 0 {
        -strides[i]
    } else {
        strides[i]
    };
    let mut count: usize = 0;
    let mut k: usize = 0;
    while k < n
        invariant
            k <= n,
            i < n,
            n == strides.len(),
            forall|t: int| 0 <= t < strides.len() ==> #[trigger] strides@[t] != isize::MIN,
            key_i as int == abs_stride(strides@[i as int]),
            count as int == rank_upto(strides@, i as int, k as int),
        decreases n - k,
    {
        proof {
            lemma_rank_bounds(strides@, i as int, k as int);
        }
        let key_k: isize = if strides[k] < 0 {
            -strides[k]
        } else {
            strides[k]
        };
        if key_k < key_i || (key_k == key_i && k < i) {
            count += 1;
        }
        k += 1;
    }
    count
}

/// The shape sorted by stride magnitude, each extent at the sorted position of its axis.
fn sorted_shape(shape: &[usize], strides: &[isize]) -> (r: Vec<usize>)
    requires
        shape.len() == strides.len(),
        forall|k: int| 0 <= k < strides.len() ==> #[trigger] strides@[k] != isize::MIN,
    ensures
        r@ == coalesced_shape(shape@, strides@),
{
    let n: usize = shape.len();
    let mut r: Vec<usize> = Vec::new();
    let mut t: usize = 0;
    while t < n
        invariant
            t <= n,
            r.len() == t,
        decreases n - t,
    {
        r.push(0);
        t += 1;
    }
    let mut i: usize = 0;
    while i < n
        invariant
            i <= n,
            n == shape.len(),
            n == strides.len(),
            r.len() == n,
            forall|k: int| 0 <= k < strides.len() ==> #[trigger] strides@[k] != isize::MIN,
            forall|k: int| 0 <= k < i ==> r@[#[trigger] rank(strides@, k)] == shape@[k],
        decreases n - i,
    {
        let pos = axis_rank(strides, i);
        proof {
            lemma_rank_bounds(strides@, i as int, n as int);
            assert forall|k: int| 0 <= k < i implies #[trigger] rank(strides@, k) != pos as int by {
                lemma_rank_injective(strides@, k, i as int);
            }
        }
        let ghost old_r = r@;
        r.set(pos, shape[i]);
        proof {
            assert forall|k: int| 0 <= k < i + 1 implies r@[#[trigger] rank(strides@, k)] == shape@[k] by {
                if k < i {
                    lemma_rank_bounds(strides@, k, n as int);
                    assert(rank(strides@, k) != pos as int);
                    assert(r@[rank(strides@, k)] == old_r[rank(strides@, k)]);
                }
            }
        }
        i += 1;
    }
    proof {
        assert forall|j: int| 0 <= j < n implies r@[j] == #[trigger] coalesced_shape(shape@, strides@)[j] by {
            lemma_rank_onto(strides@, j);
        }
        assert(r@ =~= coalesced_shape(shape@, strides@));
    }
    r
}

/// The shape sorted by stride magnitude together with dense row-major
/// strides for it; `None` when shape and strides disagree in length.
pub fn coalesce_strides(shape: &[usize], strides: &[isize]) -> (r: Option<(Vec<usize>, Vec<isize>)>)
    requires
        shape.len() == strides.len() ==> coalesce_fits(shape@, strides@),
    ensures
        r is None <==> shape.len() != strides.len(),
        r matches Some((s, t)) ==> s@ == coalesced_shape(shape@, strides@) && contiguous(s@, t@)
            && is_permutation_of(s@, shape@) && t@ == row_major_strides(s@),
{
    if shape.len() != strides.len() {
        return None;
    }
    proof {
        lemma_coalesced_is_permutation(shape@, strides@);
    }
    let new_shape = sorted_shape(shape, strides);
    let new_strides = optimal_strides(new_shape.as_slice());
    Some((new_shape, new_strides))
}

impl StrideView {
    /// A contiguous view is returned as it is; otherwise the axes are
    /// reordered by stride magnitude and given dense row-major strides.
    pub fn coalesce(&self) -> (r: Option<StrideView>)
        requires
            !contiguous(self@.shape, self@.strides) ==> coalesce_fits(self@.shape, self@.strides),
        ensures
            r matches Some(v) && v@ == (if contiguous(self@.shape, self@.strides) {
                self@
            } else {
                StrideViewModel {
                    shape: coalesced_shape(self@.shape, self@.strides),
                    strides: v@.strides,
                    ..self@
                }
            }) && contiguous(v@.shape, v@.strides) && is_permutation_of(v@.shape, self@.shape),
            r matches Some(v) && (counts_elements(self@) ==> counts_elements(v@)),
    {
        proof {
            use_type_invariant(self);
            if counts_elements(self@) {
                law_element_count_survives_reordering(self@);
            }
            lemma_coalesced_is_permutation(self@.shape, self@.strides);
            let n = self@.shape.len() as int;
            let id = Seq::new(n as nat, |j: int| j);
            assert(reorders(id, self@.shape, self@.shape));
        }
        if self.is_contiguous() {
            return Some(self.clone());
        }
        let new_shape = sorted_shape(self.shape.as_slice(), self.strides.as_slice());
        let new_strides = optimal_strides(new_shape.as_slice());
        Some(StrideView { shape: new_shape, strides: new_strides, offset: self.offset, len: self.len })
    }
}


/// The element of `data` that a view maps `indices` to, if it lies inside `data`.
pub open spec fn element_at<'a, T>(v: StrideViewModel, data: &'a [T], indices: Seq<usize>) -> Option<&'a T> {
    match linear_index(v, indices) {
        Some(k) => if k < data@.len() {
            Some(&data@[k as int])
        } else {
            None
        },
        None => None,
    }
}

/// Every coordinate vector of the right length walks without overflow.
pub open spec fn walks_fit(v: StrideViewModel) -> bool {
    forall|indices: Seq<usize>| indices.len() == v.shape.len() ==> #[trigger] walk_fits(v, indices)
}

/// Row-major odometer step over the axes before `i`: the last of them is
/// incremented, wrapping to 0 and carrying left when it reaches its extent.
/// The flag is set when the carry leaves axis 0.
pub open spec fn advance(indices: Seq<usize>, shape: Seq<usize>, i: int) -> (Seq<usize>, bool)
    decreases i,
{
    if i <= 0 {
        (indices, true)
    } else if indices[i - 1] + 1 < shape[i - 1] {
        (indices.update(i - 1, (indices[i - 1] + 1) as usize), false)
    } else {
        advance(indices.update(i - 1, 0), shape, i - 1)
    }
}

/// Every coordinate lies in its extent, or is 0 on an empty axis.
pub open spec fn odometer_bounded(indices: Seq<usize>, shape: Seq<usize>) -> bool {
    &&& indices.len() == shape.len()
    &&& forall|j: int| 0 <= j < indices.len() ==> #[trigger] indices[j] == 0 || indices[j] < shape[j]
}

proof fn lemma_advance_bounded(indices: Seq<usize>, shape: Seq<usize>, i: int)
    requires
        odometer_bounded(indices, shape),
        0 <= i <= shape.len(),
    ensures
        odometer_bounded(advance(indices, shape, i).0, shape),
    decreases i,
{
    if i > 0 && indices[i - 1] + 1 >= shape[i - 1] {
        lemma_advance_bounded(indices.update(i - 1, 0), shape, i - 1);
    }
}

/// Walks a view's elements in row-major order.
pub struct StrideViewIterator<'a, T> {
    view: &'a StrideView,
    data: &'a [T],
    indices: Vec<usize>,
    done: bool,
}

impl<'a, T> StrideViewIterator<'a, T> {
    /// The view being walked.
    pub closed spec fn target(&self) -> StrideViewModel {
        self.view@
    }

    /// The storage the view maps into.
    pub closed spec fn storage(&self) -> &'a [T] {
        self.data
    }

    /// The coordinates of the next element.
    pub closed spec fn position(&self) -> Seq<usize> {
        self.indices@
    }

    /// Whether the walk has finished.
    pub closed spec fn finished(&self) -> bool {
        self.done
    }

    /// The walk is over a view whose offsets never overflow, with one bounded
    /// coordinate per axis.
    pub open spec fn well_formed(&self) -> bool {
        &&& walks_fit(self.target())
        &&& odometer_bounded(self.position(), self.target().shape)
    }

    /// The element at the current coordinates, then one odometer step;
    /// `None` once the walk has finished.
    pub fn next(&mut self) -> (r: Option<&'a T>)
        requires
            old(self).well_formed(),
        ensures
            final(self).well_formed(),
            final(self).target() == old(self).target(),
            final(self).storage() == old(self).storage(),
            old(self).finished() ==> r is None && final(self).position() == old(self).position()
                && final(self).finished(),
            !old(self).finished() ==> {
                &&& r == element_at(old(self).target(), old(self).storage(), old(self).position())
                &&& (final(self).position(), final(self).finished()) == advance(
                    old(self).position(),
                    old(self).target().shape,
                    old(self).target().shape.len() as int,
                )
            },
    {
        if self.done {
            return None;
        }
        proof {
            assert(walk_fits(self.view@, self.indices@));
        }
        let result = self.view.get(self.data, self.indices.as_slice());
        let n: usize = self.indices.len();
        let ghost start = self.indices@;
        let mut i: usize = n;
        while i > 0
            invariant
                i <= n,
                n == self.indices.len(),
                n == self.view@.shape.len(),
                walks_fit(self.view@),
                odometer_bounded(self.indices@, self.view@.shape),
                advance(self.indices@, self.view@.shape, i as int) == advance(start, self.view@.shape, n as int),
                self.view == old(self).view,
                self.data == old(self).data,
                !self.done,
                !old(self).done,
                start == old(self).indices@,
                result == element_at(old(self).view@, old(self).data, start),
            decreases i,
        {
            i -= 1;
            proof {
                use_type_invariant(self.view);
            }
            if self.indices[i] + 1 < self.view.shape[i] {
                let v = self.indices[i] + 1;
                self.indices.set(i, v);
                proof {
                    assert(odometer_bounded(self.indices@, self.view@.shape));
                }
                return result;
            }
            self.indices.set(i, 0);
        }
        self.done = true;
        result
    }
}

impl StrideView {
    /// Starts a row-major walk over the view's elements in `data`.
    pub fn iter<'a, T>(&'a self, data: &'a [T]) -> (r: StrideViewIterator<'a, T>)
        requires
            walks_fit(self@),
        ensures
            r.well_formed(),
            r.target() == self@,
            r.storage() == data,
            r.position() == Seq::new(self@.shape.len(), |i: int| 0usize),
            !r.finished(),
    {
        proof {
            use_type_invariant(self);
        }
        let n: usize = self.shape.len();
        let mut indices: Vec<usize> = Vec::new();
        let mut t: usize = 0;
        while t < n
            invariant
                t <= n,
                indices.len() == t,
                forall|j: int| 0 <= j < t ==> indices@[j] == 0usize,
            decreases n - t,
        {
            indices.push(0);
            t += 1;
        }
        proof {
            assert(indices@ =~= Seq::new(self@.shape.len(), |i: int| 0usize));
        }
        StrideViewIterator { view: self, data, indices, done: false }
    }
}


/// Sum of the first `k` terms of a dense row-major offset.
proof fn lemma_dense_walk(v: StrideViewModel, indices: Seq<usize>, k: int)
    requires
        contiguous(v.shape, v.strides),
        v.offset == 0,
        suffixes_fit(v.shape),
        indices.len() == v.shape.len(),
        in_bounds_upto(indices, v.shape, indices.len() as int),
        0 <= k <= v.shape.len(),
    ensures
        0 <= walk(v, indices, k),
        walk(v, indices, k) + prod(v.shape.subrange(k, v.shape.len() as int)) <= prod(v.shape),
    decreases k,
{
    let n = v.shape.len() as int;
    if k == 0 {
        assert(v.shape.subrange(0, n) =~= v.shape);
    } else {
        lemma_dense_walk(v, indices, k - 1);
        let j = k - 1;
        lemma_suffix_step(v.shape, j);
        let rest = v.shape.subrange(k, n);
        assert forall|m: int| 0 <= m < rest.len() implies rest[m] >= 1 by {
            assert(indices[k + m] < v.shape[k + m]);
        }
        lemma_prod_pos(rest);
        assert(row_major_stride(v.shape, j) == prod(rest));
        let x = indices[j] as int;
        let d = v.shape[j] as int;
        let p = prod(rest);
        assert(x < d);
        assert(prod(v.shape.subrange(j, n)) <= isize::MAX);
        assert(d <= d * p) by (nonlinear_arith)
            requires 1 <= p, 0 <= d;
        assert((indices[j] as isize) as int == x);
        assert(walk_term(v, indices, j) == x * p);
        assert(0 <= x * p && x * p + p <= d * p) by (nonlinear_arith)
            requires 0 <= x < d, 0 <= p;
    }
}

/// A dense row-major view at offset 0 sends every in-bounds coordinate
/// vector to an offset inside its element count.
pub proof fn law_dense_offsets_in_range(v: StrideViewModel, indices: Seq<usize>)
    requires
        contiguous(v.shape, v.strides),
        v.offset == 0,
        suffixes_fit(v.shape),
        indices.len() == v.shape.len(),
        in_bounds_upto(indices, v.shape, indices.len() as int),
    ensures
        0 <= walk(v, indices, indices.len() as int) < prod(v.shape),
{
    let n = v.shape.len() as int;
    lemma_dense_walk(v, indices, n);
    assert(v.shape.subrange(n, n) =~= Seq::<usize>::empty());
}

} // verus!
