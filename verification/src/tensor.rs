//! Dense three-axis tensors of 32-bit scalars, stored by bit pattern.

use vstd::arithmetic::div_mod::{
    lemma_fundamental_div_mod, lemma_fundamental_div_mod_converse, lemma_multiply_divide_lt,
};
use vstd::prelude::*;

verus! {

/// The mathematical content of a tensor: the extent of its three axes, and the
/// scalar stored at every index inside them.
pub struct TensorView {
    pub dims: (usize, usize, usize),
    pub cells: Map<(int, int, int), u32>,
}

/// The length of an axis, with an empty axis counted as one.
pub open spec fn axis_weight(len: usize) -> int {
    if len == 0 {
        1
    } else {
        len as int
    }
}

/// A shape can be allocated when the product of its non-empty axis lengths
/// does not exceed `isize::MAX`.
pub open spec fn shape_fits(dims: (usize, usize, usize)) -> bool {
    axis_weight(dims.0) * axis_weight(dims.1) * axis_weight(dims.2) <= isize::MAX
}

/// The number of scalars in a tensor of the given shape.
pub open spec fn shape_size(dims: (usize, usize, usize)) -> int {
    dims.0 * dims.1 * dims.2
}

/// The position of index `(i, j, k)` when the scalars are laid out with the
/// last axis varying fastest.
pub open spec fn flat_offset(dims: (usize, usize, usize), i: int, j: int, k: int) -> int {
    (i * dims.1 + j) * dims.2 + k
}

/// The index that lies at position `n` of the layout of `flat_offset`.
pub open spec fn unflatten(dims: (usize, usize, usize), n: int) -> (int, int, int) {
    ((n / (dims.2 as int)) / (dims.1 as int), (n / (dims.2 as int)) % (dims.1 as int), n % (dims.2 as int))
}

/// Whether `(i, j, k)` is an index inside a shape.
pub open spec fn inside(dims: (usize, usize, usize), i: int, j: int, k: int) -> bool {
    0 <= i < dims.0 && 0 <= j < dims.1 && 0 <= k < dims.2
}

impl TensorView {
    pub open spec fn at(self, i: int, j: int, k: int) -> u32 {
        self.cells[(i, j, k)]
    }

    /// The domain of `cells` is exactly the set of indices inside `dims`.
    pub open spec fn well_formed(self) -> bool {
        forall|i: int, j: int, k: int|
            self.cells.dom().contains((i, j, k)) <==> inside(self.dims, i, j, k)
    }

    /// The scalars in logical order, last axis varying fastest.
    pub open spec fn flat(self) -> Seq<u32> {
        Seq::new(
            shape_size(self.dims) as nat,
            |n: int|
                {
                    let idx = unflatten(self.dims, n);
                    self.cells[idx]
                },
        )
    }

    /// The tensor of the given shape whose scalars in logical order are `data`.
    pub open spec fn from_flat(dims: (usize, usize, usize), data: Seq<u32>) -> TensorView {
        TensorView {
            dims,
            cells: Map::new(
                |idx: (int, int, int)| inside(dims, idx.0, idx.1, idx.2),
                |idx: (int, int, int)| data[flat_offset(dims, idx.0, idx.1, idx.2)],
            ),
        }
    }

    /// The tensor of the given shape that holds zero everywhere.
    pub open spec fn zeros(dims: (usize, usize, usize)) -> TensorView {
        TensorView {
            dims,
            cells: Map::new(
                |idx: (int, int, int)| inside(dims, idx.0, idx.1, idx.2),
                |idx: (int, int, int)| 0u32,
            ),
        }
    }

    /// The block of `self` between index `from` (inclusive) and index `to`
    /// (exclusive) along every axis, re-indexed from zero.
    pub open spec fn window(self, from: (usize, usize, usize), to: (usize, usize, usize)) -> TensorView {
        let dims = ((to.0 - from.0) as usize, (to.1 - from.1) as usize, (to.2 - from.2) as usize);
        TensorView {
            dims,
            cells: Map::new(
                |idx: (int, int, int)| inside(dims, idx.0, idx.1, idx.2),
                |idx: (int, int, int)| self.cells[(from.0 + idx.0, from.1 + idx.1, from.2 + idx.2)],
            ),
        }
    }

    /// `self` with the scalar at `(i, j, k)` replaced by `value`.
    pub open spec fn with(self, i: int, j: int, k: int, value: u32) -> TensorView {
        TensorView { dims: self.dims, cells: self.cells.insert((i, j, k), value) }
    }

    /// `self` with the block that starts at index `from` and has the shape
    /// of `source` replaced by `source`.
    pub open spec fn overlaid(self, from: (usize, usize, usize), source: TensorView) -> TensorView {
        TensorView {
            dims: self.dims,
            cells: Map::new(
                |idx: (int, int, int)| self.cells.dom().contains(idx),
                |idx: (int, int, int)|
                    if inside(source.dims, idx.0 - from.0, idx.1 - from.1, idx.2 - from.2) {
                        source.cells[(idx.0 - from.0, idx.1 - from.1, idx.2 - from.2)]
                    } else {
                        self.cells[idx]
                    },
            ),
        }
    }
}

/// A dense three-axis array of 32-bit scalars. Every scalar is stored as its
/// bit pattern; the all-zero pattern is the scalar zero.
///
/// The scalars are kept in an `ndarray::Array3<u32>`. The verifier does not
/// look inside it: what it holds is named by `tensor_dims` and
/// `tensor_cells`, and the methods of this type that touch it state what
/// the methods of the array do to those two.
#[verifier::external_body]
pub struct Tensor {
    inner: ndarray::Array3<u32>,
}

/// The axis lengths of a tensor.
pub uninterp spec fn tensor_dims(t: Tensor) -> (usize, usize, usize);

/// The scalar at each index of a tensor.
pub uninterp spec fn tensor_cells(t: Tensor) -> Map<(int, int, int), u32>;

impl View for Tensor {
    type V = TensorView;

    open spec fn view(&self) -> TensorView {
        TensorView { dims: tensor_dims(*self), cells: tensor_cells(*self) }
    }
}

/// `ndarray::ShapeError`, handed on without a look inside.
#[verifier::external_type_specification]
#[verifier::external_body]
pub struct ExShapeError(ndarray::ShapeError);

impl Tensor {
    /// `ndarray::ArrayBase::dim`: the three axis lengths. Every array keeps the
    /// product of its non-empty axis lengths within `isize::MAX`.
    #[verifier::external_body]
    pub(crate) fn axis_lengths(&self) -> (r: (usize, usize, usize))
        ensures
            r == tensor_dims(*self),
            shape_fits(r),
    {
        self.inner.dim()
    }

    /// `ndarray::ArrayBase::index`: the scalar at an index inside the shape.
    #[verifier::external_body]
    pub(crate) fn read(&self, i: usize, j: usize, k: usize) -> (r: u32)
        requires
            inside(self@.dims, i as int, j as int, k as int),
        ensures
            r == tensor_cells(*self)[(i as int, j as int, k as int)],
    {
        self.inner[[i, j, k]]
    }

    /// `ndarray::ArrayBase::index_mut`: replaces the scalar at an index inside
    /// the shape and leaves every other scalar and the shape as they were.
    #[verifier::external_body]
    pub(crate) fn write(&mut self, i: usize, j: usize, k: usize, value: u32)
        requires
            inside(old(self)@.dims, i as int, j as int, k as int),
        ensures
            final(self)@ == old(self)@.with(i as int, j as int, k as int, value),
    {
        self.inner[[i, j, k]] = value;
    }

    /// `ndarray::ArrayBase::zeros`: a tensor of the given shape filled with
    /// zero. The shape must be one that can be allocated.
    #[verifier::external_body]
    pub(crate) fn filled_with_zero(dims: (usize, usize, usize)) -> (r: Tensor)
        requires
            shape_fits(dims),
        ensures
            r@ == TensorView::zeros(dims),
    {
        Tensor { inner: ndarray::Array3::zeros(dims) }
    }

    /// `ndarray::ArrayBase::from_shape_vec` with a row-major shape: succeeds
    /// exactly when the shape can be allocated and has as many indices as
    /// `data` has scalars, and then lays `data` out with the last axis
    /// varying fastest.
    #[verifier::external_body]
    pub(crate) fn shaped(dims: (usize, usize, usize), data: Vec<u32>) -> (r: Result<Tensor, ndarray::ShapeError>)
        ensures
            r.is_ok() == (shape_fits(dims) && shape_size(dims) == data@.len()),
            r.is_ok() ==> r.unwrap()@ == TensorView::from_flat(dims, data@),
    {
        match ndarray::Array3::from_shape_vec(dims, data) {
            Ok(inner) => Ok(Tensor { inner }),
            Err(e) => Err(e),
        }
    }

    /// `ndarray::ArrayBase::iter`: the scalars in logical order, last axis
    /// varying fastest.
    #[verifier::external_body]
    pub(crate) fn scalars(&self) -> (r: Vec<u32>)
        ensures
            r@ == self@.flat(),
    {
        self.inner.iter().copied().collect()
    }

    /// `ndarray::ArrayBase::slice` followed by `to_owned`: a copy of the block
    /// between `from` and `to`.
    #[verifier::external_body]
    pub(crate) fn block(&self, from: (usize, usize, usize), to: (usize, usize, usize)) -> (r: Tensor)
        requires
            from.0 <= to.0 <= self@.dims.0,
            from.1 <= to.1 <= self@.dims.1,
            from.2 <= to.2 <= self@.dims.2,
        ensures
            r@ == self@.window(from, to),
    {
        let rows = ndarray::SliceInfoElem::from(from.0..to.0);
        let columns = ndarray::SliceInfoElem::from(from.1..to.1);
        let layers = ndarray::SliceInfoElem::from(from.2..to.2);
        let info = ndarray::SliceInfo::<_, ndarray::Ix3, ndarray::Ix3>::try_from(
            [rows, columns, layers],
        ).unwrap();
        Tensor { inner: self.inner.slice(info).to_owned() }
    }

    /// `ndarray::ArrayBase::slice_mut` followed by `assign`: copies `source`
    /// over the block between `from` and `to`, which has the shape of
    /// `source`, and leaves every other scalar and the shape as they were.
    #[verifier::external_body]
    pub(crate) fn overlay(&mut self, from: (usize, usize, usize), to: (usize, usize, usize), source: &Tensor)
        requires
            from.0 <= to.0 <= old(self)@.dims.0,
            from.1 <= to.1 <= old(self)@.dims.1,
            from.2 <= to.2 <= old(self)@.dims.2,
            source@.dims == ((to.0 - from.0) as usize, (to.1 - from.1) as usize, (to.2 - from.2) as usize),
        ensures
            final(self)@ == old(self)@.overlaid(from, source@),
    {
        let rows = ndarray::SliceInfoElem::from(from.0..to.0);
        let columns = ndarray::SliceInfoElem::from(from.1..to.1);
        let layers = ndarray::SliceInfoElem::from(from.2..to.2);
        let info = ndarray::SliceInfo::<_, ndarray::Ix3, ndarray::Ix3>::try_from(
            [rows, columns, layers],
        ).unwrap();
        self.inner.slice_mut(info).assign(&source.inner);
    }

    /// `Clone::clone` of the array: a tensor with the same shape and scalars.
    #[verifier::external_body]
    pub(crate) fn duplicate(&self) -> (r: Tensor)
        ensures
            r@ == self@,
    {
        Tensor { inner: self.inner.clone() }
    }
}

/// An index inside a shape lies at a position inside the layout, and
/// `unflatten` finds the index again from that position.
pub proof fn lemma_unflatten_offset(dims: (usize, usize, usize), i: int, j: int, k: int)
    requires
        inside(dims, i, j, k),
    ensures
        0 <= flat_offset(dims, i, j, k) < shape_size(dims),
        unflatten(dims, flat_offset(dims, i, j, k)) == (i, j, k),
{
    let d1 = dims.1 as int;
    let d2 = dims.2 as int;
    let m = i * d1 + j;
    let n = m * d2 + k;
    lemma_fundamental_div_mod_converse(n, d2, m, k);
    lemma_fundamental_div_mod_converse(m, d1, i, j);
    assert(0 <= m) by (nonlinear_arith)
        requires
            0 <= i,
            0 <= j,
            0 < d1,
            m == i * d1 + j,
    ;
    assert(m + 1 <= dims.0 * d1) by (nonlinear_arith)
        requires
            0 <= i < dims.0,
            0 <= j < d1,
            m == i * d1 + j,
    ;
    assert(0 <= n && n < dims.0 * d1 * d2) by (nonlinear_arith)
        requires
            0 <= m,
            m + 1 <= dims.0 * d1,
            0 <= k < d2,
            n == m * d2 + k,
    ;
}

/// A position inside the layout belongs to an index inside the shape, and
/// `flat_offset` finds the position again from that index.
pub proof fn lemma_offset_unflatten(dims: (usize, usize, usize), n: int)
    requires
        0 <= n < shape_size(dims),
    ensures
        inside(dims, unflatten(dims, n).0, unflatten(dims, n).1, unflatten(dims, n).2),
        flat_offset(dims, unflatten(dims, n).0, unflatten(dims, n).1, unflatten(dims, n).2) == n,
{
    let d0 = dims.0 as int;
    let d1 = dims.1 as int;
    let d2 = dims.2 as int;
    assert(d1 > 0 && d2 > 0 && d0 > 0) by (nonlinear_arith)
        requires
            0 <= n < d0 * d1 * d2,
            d0 >= 0,
            d1 >= 0,
            d2 >= 0,
    ;
    let m = n / d2;
    let k = n % d2;
    let i = m / d1;
    let j = m % d1;
    lemma_fundamental_div_mod(n, d2);
    lemma_fundamental_div_mod(m, d1);
    assert(d0 * d1 * d2 == d2 * (d0 * d1)) by (nonlinear_arith);
    lemma_multiply_divide_lt(n, d2, d0 * d1);
    assert(0 <= m) by (nonlinear_arith)
        requires
            0 <= n,
            0 < d2,
            n == d2 * m + k,
            0 <= k < d2,
    ;
    assert(d0 * d1 == d1 * d0) by (nonlinear_arith);
    lemma_multiply_divide_lt(m, d1, d0);
    assert(0 <= i) by (nonlinear_arith)
        requires
            0 <= m,
            0 < d1,
            m == d1 * i + j,
            0 <= j < d1,
    ;
    assert((i * d1 + j) * d2 + k == n) by (nonlinear_arith)
        requires
            n == d2 * m + k,
            m == d1 * i + j,
    ;
}

/// Laying a tensor out and shaping the layout again gives the tensor back.
pub proof fn lemma_from_flat_of_flat(t: TensorView)
    requires
        t.well_formed(),
    ensures
        TensorView::from_flat(t.dims, t.flat()) == t,
{
    let u = TensorView::from_flat(t.dims, t.flat());
    assert forall|idx: (int, int, int)| u.cells.dom().contains(idx) <==> t.cells.dom().contains(
        idx,
    ) by {
        assert(t.cells.dom().contains((idx.0, idx.1, idx.2)) <==> inside(
            t.dims,
            idx.0,
            idx.1,
            idx.2,
        ));
    }
    assert forall|idx: (int, int, int)| u.cells.dom().contains(idx) implies u.cells[idx]
        == t.cells[idx] by {
        lemma_unflatten_offset(t.dims, idx.0, idx.1, idx.2);
    }
    assert(u.cells =~= t.cells);
}

/// Shaping a layout and laying the tensor out again gives the layout back.
pub proof fn lemma_flat_of_from_flat(dims: (usize, usize, usize), data: Seq<u32>)
    requires
        data.len() == shape_size(dims),
    ensures
        TensorView::from_flat(dims, data).flat() == data,
{
    let t = TensorView::from_flat(dims, data);
    assert forall|n: int| 0 <= n < data.len() implies t.flat()[n] == data[n] by {
        lemma_offset_unflatten(dims, n);
    }
    assert(t.flat() =~= data);
}

/// The scalar at an index inside the shape stands in the layout at the
/// position of that index.
pub proof fn lemma_flat_at_index(t: TensorView, i: int, j: int, k: int)
    requires
        inside(t.dims, i, j, k),
    ensures
        0 <= flat_offset(t.dims, i, j, k) < t.flat().len(),
        t.flat()[flat_offset(t.dims, i, j, k)] == t.at(i, j, k),
{
    lemma_unflatten_offset(t.dims, i, j, k);
}

/// The scalar at a position of the layout is the scalar at the index of that
/// position, which lies inside the shape.
pub proof fn lemma_flat_at_position(t: TensorView, n: int)
    requires
        0 <= n < t.flat().len(),
    ensures
        inside(t.dims, unflatten(t.dims, n).0, unflatten(t.dims, n).1, unflatten(t.dims, n).2),
        t.flat()[n] == t.at(unflatten(t.dims, n).0, unflatten(t.dims, n).1, unflatten(t.dims, n).2),
{
    lemma_offset_unflatten(t.dims, n);
}

/// A shape no larger than one that can be allocated can be allocated.
pub proof fn lemma_smaller_shape_fits(small: (usize, usize, usize), large: (usize, usize, usize))
    requires
        shape_fits(large),
        small.0 <= large.0,
        small.1 <= large.1,
        small.2 <= large.2,
    ensures
        shape_fits(small),
{
    let a = axis_weight(small.0);
    let b = axis_weight(small.1);
    let c = axis_weight(small.2);
    let x = axis_weight(large.0);
    let y = axis_weight(large.1);
    let z = axis_weight(large.2);
    assert(a * b * c <= x * y * z) by (nonlinear_arith)
        requires
            1 <= a <= x,
            1 <= b <= y,
            1 <= c <= z,
    ;
}

/// A shape that can be allocated has a size within `isize::MAX`.
pub proof fn lemma_size_within_fit(dims: (usize, usize, usize))
    requires
        shape_fits(dims),
    ensures
        0 <= shape_size(dims) <= isize::MAX,
        dims.0 * dims.1 <= isize::MAX,
{
    let a = axis_weight(dims.0);
    let b = axis_weight(dims.1);
    let c = axis_weight(dims.2);
    assert(0 <= dims.0 * dims.1 * dims.2 <= a * b * c && dims.0 * dims.1 <= a * b * c)
        by (nonlinear_arith)
        requires
            0 <= dims.0 <= a,
            0 <= dims.1 <= b,
            0 <= dims.2 <= c,
            1 <= c,
    ;
}

/// Whether a shape can be allocated.
pub fn can_allocate(dims: (usize, usize, usize)) -> (r: bool)
    ensures
        r == shape_fits(dims),
{
    let a: usize = if dims.0 == 0 { 1 } else { dims.0 };
    let b: usize = if dims.1 == 0 { 1 } else { dims.1 };
    let c: usize = if dims.2 == 0 { 1 } else { dims.2 };
    let limit: usize = isize::MAX as usize;
    match a.checked_mul(b) {
        None => {
            assert(a * b * c > isize::MAX) by (nonlinear_arith)
                requires
                    a * b > usize::MAX,
                    c >= 1,
                    usize::MAX >= isize::MAX,
            ;
            false
        },
        Some(ab) => match ab.checked_mul(c) {
            None => false,
            Some(abc) => abc <= limit,
        },
    }
}

impl Tensor {
    /// The tensor of shape `dims` whose scalars, last axis varying fastest,
    /// are `data`. There is one exactly when the shape can be allocated and
    /// has as many indices as `data` has scalars.
    pub fn from_shape_vec(dims: (usize, usize, usize), data: Vec<u32>) -> (r: Option<Tensor>)
        ensures
            r is Some <==> shape_fits(dims) && shape_size(dims) == data@.len(),
            r is Some ==> r->Some_0@ == TensorView::from_flat(dims, data@),
            r is Some ==> r->Some_0@.well_formed(),
            r is Some ==> r->Some_0@.flat() == data@,
    {
        let ghost content = data@;
        match Tensor::shaped(dims, data) {
            Ok(t) => {
                proof {
                    lemma_flat_of_from_flat(dims, content);
                }
                Some(t)
            },
            Err(_) => None,
        }
    }

    /// The tensor of shape `dims` that holds zero everywhere, where that
    /// shape can be allocated.
    pub fn zeros(dims: (usize, usize, usize)) -> (r: Option<Tensor>)
        ensures
            r is Some <==> shape_fits(dims),
            r is Some ==> r->Some_0@ == TensorView::zeros(dims),
    {
        if can_allocate(dims) {
            Some(Tensor::filled_with_zero(dims))
        } else {
            None
        }
    }

    /// The lengths of the three axes.
    pub fn dim(&self) -> (r: (usize, usize, usize))
        ensures
            r == self@.dims,
            shape_fits(r),
    {
        self.axis_lengths()
    }

    /// The scalar at index `(i, j, k)`.
    pub fn get(&self, i: usize, j: usize, k: usize) -> (r: u32)
        requires
            inside(self@.dims, i as int, j as int, k as int),
        ensures
            r == self@.at(i as int, j as int, k as int),
    {
        self.read(i, j, k)
    }

    /// The scalars in logical order, last axis varying fastest.
    pub fn to_vec(&self) -> (r: Vec<u32>)
        ensures
            r@ == self@.flat(),
            r@.len() == shape_size(self@.dims),
    {
        self.scalars()
    }
}

} // verus!
