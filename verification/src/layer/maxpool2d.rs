//! Two-dimensional max pooling.

use crate::activation::ActivationFunctionType;
use crate::layer::util::{can_pad_plane, pad_plane, plane_padded, plane_padded_shape};
use crate::layer::{outcome_of, LayerError};
use crate::layer::dense::InvalidDimensionsError;
use crate::scalar::{is_nan, order_key, sort_key};
use crate::tensor::{
    flat_offset, inside, lemma_flat_at_index, lemma_flat_at_position, lemma_smaller_shape_fits,
    unflatten, Tensor, TensorView,
};
use ndarray_stats::QuantileExt;
use vstd::pervasive::unreached;
use vstd::prelude::*;

verus! {

/// `ndarray_stats::errors::MinMaxError`, handed on without a look inside.
#[verifier::external_type_specification]
#[verifier::external_body]
pub struct ExMinMaxError(ndarray_stats::errors::MinMaxError);

/// `ndarray_stats::QuantileExt::max` on a one-axis view of the keys: the
/// largest of them, which is one of them; an error exactly when there is no
/// key at all.
#[verifier::external_body]
fn largest_key(keys: &Vec<i64>) -> (r: Result<i64, ndarray_stats::errors::MinMaxError>)
    ensures
        r.is_ok() == (keys@.len() > 0),
        r.is_ok() ==> keys@.contains(r.unwrap()),
        r.is_ok() ==> forall|n: int| 0 <= n < keys@.len() ==> keys@[n] <= r.unwrap(),
{
    ndarray::ArrayView1::from(keys.as_slice()).max().copied()
}

/// Some scalar of `values` is not a number.
pub open spec fn has_nan(values: Seq<u32>) -> bool {
    exists|n: int| 0 <= n < values.len() && is_nan(#[trigger] values[n])
}

/// `m` is the largest scalar of `values`: all of them are numbers, none of
/// them is larger than `m`, and `m` stands among them before any other
/// scalar that is as large. So of several equal scalars that are largest,
/// among them the two zeros, `m` is the first.
pub open spec fn is_maximum(values: Seq<u32>, m: u32) -> bool {
    &&& exists|n: int|
        0 <= n < values.len() && #[trigger] values[n] == m && forall|k: int|
            0 <= k < n ==> order_key(#[trigger] values[k]) < order_key(m)
    &&& forall|n: int|
        0 <= n < values.len() ==> !is_nan(#[trigger] values[n]) && order_key(values[n])
            <= order_key(m)
}

/// The largest scalar of `values`, or `None` where one of them is not a
/// number.
pub fn window_maximum(values: &Vec<u32>) -> (r: Option<u32>)
    requires
        values@.len() > 0,
    ensures
        r is None <==> has_nan(values@),
        r is Some ==> is_maximum(values@, r->Some_0),
{
    let mut keys: Vec<i64> = Vec::new();
    let mut n: usize = 0;
    while n < values.len()
        invariant
            n <= values.len(),
            keys.len() == n,
            forall|m: int|
                #![trigger keys[m]]
                #![trigger values[m]]
                0 <= m < n ==> !is_nan(values[m]) && keys[m] == order_key(values[m]),
        decreases values.len() - n,
    {
        match sort_key(values[n]) {
            None => {
                return None;
            },
            Some(key) => {
                keys.push(key);
            },
        }
        n += 1;
    }
    let top = match largest_key(&keys) {
        Ok(top) => top,
        Err(_) => unreached(),
    };
    let ghost at = choose|m: int| 0 <= m < keys@.len() && keys@[m] == top;
    let mut found: usize = 0;
    while keys[found] != top
        invariant
            found <= at < keys.len(),
            keys@[at] == top,
            forall|k: int| 0 <= k < found ==> #[trigger] keys@[k] != top,
        decreases keys.len() - found,
    {
        found += 1;
    }
    let largest = values[found];
    assert(values@[found as int] == largest);
    assert(keys@[found as int] == order_key(largest));
    assert forall|k: int| 0 <= k < found implies order_key(#[trigger] values@[k]) < order_key(
        largest,
    ) by {
        assert(keys@[k] == order_key(values@[k]));
        assert(keys@[k] != top);
        assert(keys@[k] <= top);
    }
    assert forall|m: int| 0 <= m < values@.len() implies !is_nan(#[trigger] values@[m])
        && order_key(values@[m]) <= order_key(largest) by {
        assert(keys@[m] == order_key(values@[m]));
    }
    Some(largest)
}

/// For an axis of length `len` cut into windows of length `pool`, the
/// window of every index below `len / pool` lies inside the axis.
pub proof fn lemma_window_inside(len: usize, pool: usize, index: usize)
    requires
        pool > 0,
        index < len / pool,
    ensures
        index * pool + pool <= len,
{
    let count = len as int / pool as int;
    assert(count * pool <= len) by {
        vstd::arithmetic::div_mod::lemma_fundamental_div_mod(len as int, pool as int);
        vstd::arithmetic::div_mod::lemma_mod_bound(len as int, pool as int);
        assert(pool * count == count * pool) by (nonlinear_arith);
    }
    assert(index * pool + pool <= count * pool) by (nonlinear_arith)
        requires
            index + 1 <= count,
            pool > 0,
    ;
}

/// A max-pooling layer: the largest scalar of every window of `pool_size`,
/// windows side by side along the first two axes, for each index of the
/// third axis on its own.
pub struct MaxPool2dLayer {
    pub pool_size: (usize, usize),
    /// Kept as configuration. Windows always advance by `pool_size`.
    pub strides: (usize, usize),
    pub padding: (usize, usize),
}

impl MaxPool2dLayer {
    /// The shape that pooling makes of a padded input of shape `dims`.
    pub open spec fn output_shape(self, dims: (usize, usize, usize)) -> (usize, usize, usize) {
        (dims.0 / self.pool_size.0, dims.1 / self.pool_size.1, dims.2)
    }

    /// The shape of input that the layer expects: the smallest that holds a
    /// window, which is one window of one channel.
    pub open spec fn expected_input(self) -> (usize, usize, usize) {
        (self.pool_size.0, self.pool_size.1, 1usize)
    }

    /// Whether the layer can pool an input of shape `dims`: the input can be
    /// padded, and the window has an extent along both of its axes.
    pub open spec fn accepts(self, dims: (usize, usize, usize)) -> bool {
        can_pad_plane(dims, self.padding) && self.pool_size.0 > 0 && self.pool_size.1 > 0
    }

    /// The window of the padded input that output index `(row, col, feature)`
    /// is taken from.
    pub open spec fn window_of(self, padded: TensorView, row: int, col: int, feature: int) -> TensorView {
        padded.window(
            (
                (row * self.pool_size.0) as usize,
                (col * self.pool_size.1) as usize,
                feature as usize,
            ),
            (
                (row * self.pool_size.0 + self.pool_size.0) as usize,
                (col * self.pool_size.1 + self.pool_size.1) as usize,
                (feature + 1) as usize,
            ),
        )
    }

    /// What a forward pass on `input` may return.
    ///
    /// It fails with `IncorrectDimensions` exactly when the layer does not
    /// accept the shape of `input`, naming one window of one channel as the
    /// expected shape, and with `UndefinedOrder` exactly when it
    /// does and some window holds a scalar that is not a number. Otherwise
    /// every scalar of the output is a largest scalar of its window.
    pub open spec fn outcome(self, input: TensorView, result: Result<TensorView, LayerError>) -> bool {
        let source = plane_padded(input, self.padding);
        let dims = self.output_shape(source.dims);
        match result {
            Err(LayerError::IncorrectDimensions(e)) => e.expected == self.expected_input()
                && !self.accepts(input.dims),
            Err(LayerError::UndefinedOrder) => self.accepts(input.dims) && exists|
                row: int,
                col: int,
                feature: int,
            |
                inside(dims, row, col, feature) && has_nan(
                    #[trigger] self.window_of(source, row, col, feature).flat(),
                ),
            Ok(out) => {
                &&& self.accepts(input.dims)
                &&& out.dims == dims
                &&& out.well_formed()
                &&& forall|row: int, col: int, feature: int|
                    inside(dims, row, col, feature) ==> is_maximum(
                        self.window_of(source, row, col, feature).flat(),
                        #[trigger] out.at(row, col, feature),
                    )
            },
        }
    }

    /// A layer with the given window. Strides default to `(1, 1)` and
    /// padding to `(0, 0)`.
    pub fn new(
        pool_size: (usize, usize),
        strides: Option<(usize, usize)>,
        padding: Option<(usize, usize)>,
    ) -> (r: Self)
        ensures
            r.pool_size == pool_size,
            r.strides == match strides {
                Some(s) => s,
                None => (1usize, 1usize),
            },
            r.padding == match padding {
                Some(p) => p,
                None => (0usize, 0usize),
            },
    {
        let strides = match strides {
            Some(s) => s,
            None => (1, 1),
        };
        let padding = match padding {
            Some(p) => p,
            None => (0, 0),
        };
        Self { pool_size, strides, padding }
    }

    /// The output shape for a padded input of shape `input_dim`: the first
    /// two axes divided by the window, rounded down; the third unchanged.
    pub fn output_dim(&self, input_dim: (usize, usize, usize)) -> (r: (usize, usize, usize))
        requires
            self.pool_size.0 > 0,
            self.pool_size.1 > 0,
        ensures
            r == self.output_shape(input_dim),
            r.0 == input_dim.0 as int / self.pool_size.0 as int,
            r.1 == input_dim.1 as int / self.pool_size.1 as int,
            r.2 == input_dim.2,
    {
        let (input_height, input_width, input_feature_size) = input_dim;
        (input_height / self.pool_size.0, input_width / self.pool_size.1, input_feature_size)
    }

    /// Whether the layer can pool an input of shape `input_dim`.
    pub fn can_take(&self, input_dim: (usize, usize, usize)) -> (r: bool)
        ensures
            r == self.accepts(input_dim),
    {
        plane_padded_shape(input_dim, &self.padding).is_some() && self.pool_size.0 != 0
            && self.pool_size.1 != 0
    }

    /// Pooling applies no activation.
    pub fn activation_function(&self) -> (r: ActivationFunctionType)
        ensures
            r == ActivationFunctionType::Identity,
    {
        ActivationFunctionType::Identity
    }

    /// Pads `input` and takes the largest scalar of every window.
    pub fn forward(&self, input: &Tensor) -> (r: Result<Tensor, LayerError>)
        ensures
            self.outcome(input@, outcome_of(r)),
    {
        if !self.can_take(input.dim()) {
            return Err(
                LayerError::IncorrectDimensions(
                    InvalidDimensionsError { expected: (self.pool_size.0, self.pool_size.1, 1) },
                ),
            );
        }
        let input_padded = pad_plane(input, &self.padding);
        let ghost source = input_padded@;
        let padded_dims = input_padded.dim();
        let (pool_height, pool_width) = self.pool_size;
        let (output_height, output_width, output_feature_size) = self.output_dim(padded_dims);
        let ghost dims = (output_height, output_width, output_feature_size);
        proof {
            lemma_smaller_shape_fits(dims, padded_dims);
        }
        let mut output = Tensor::filled_with_zero(
            (output_height, output_width, output_feature_size),
        );
        let mut output_row: usize = 0;
        while output_row < output_height
            invariant
                self.pool_size == (pool_height, pool_width),
                pool_height > 0,
                pool_width > 0,
                input_padded@ == source,
                source == plane_padded(input@, self.padding),
                self.accepts(input@.dims),
                source.dims == padded_dims,
                dims == (output_height, output_width, output_feature_size),
                dims == self.output_shape(padded_dims),
                output@.dims == dims,
                output@.well_formed(),
                output_row <= output_height,
                forall|row: int, col: int, feature: int|
                    inside(dims, row, col, feature) && row < output_row ==> is_maximum(
                        self.window_of(source, row, col, feature).flat(),
                        #[trigger] output@.at(row, col, feature),
                    ),
            decreases output_height - output_row,
        {
            proof {
                lemma_window_inside(padded_dims.0, pool_height, output_row);
            }
            let row = output_row * pool_height;
            let max_row = row + pool_height;
            let mut output_col: usize = 0;
            while output_col < output_width
                invariant
                    self.pool_size == (pool_height, pool_width),
                    pool_height > 0,
                    pool_width > 0,
                    input_padded@ == source,
                    source == plane_padded(input@, self.padding),
                    self.accepts(input@.dims),
                    source.dims == padded_dims,
                    dims == (output_height, output_width, output_feature_size),
                    dims == self.output_shape(padded_dims),
                    output@.dims == dims,
                    output@.well_formed(),
                    output_row < output_height,
                    row == output_row * pool_height,
                    max_row == row + pool_height,
                    max_row <= padded_dims.0,
                    output_col <= output_width,
                    forall|row: int, col: int, feature: int|
                        inside(dims, row, col, feature) && (row < output_row || (row == output_row
                            && col < output_col)) ==> is_maximum(
                            self.window_of(source, row, col, feature).flat(),
                            #[trigger] output@.at(row, col, feature),
                        ),
                decreases output_width - output_col,
            {
                proof {
                    lemma_window_inside(padded_dims.1, pool_width, output_col);
                }
                let col = output_col * pool_width;
                let max_col = col + pool_width;
                let mut feature: usize = 0;
                while feature < output_feature_size
                    invariant
                        self.pool_size == (pool_height, pool_width),
                        pool_height > 0,
                        pool_width > 0,
                        input_padded@ == source,
                        source == plane_padded(input@, self.padding),
                        self.accepts(input@.dims),
                        source.dims == padded_dims,
                        dims == (output_height, output_width, output_feature_size),
                        dims == self.output_shape(padded_dims),
                        output@.dims == dims,
                        output@.well_formed(),
                        output_row < output_height,
                        output_col < output_width,
                        row == output_row * pool_height,
                        max_row == row + pool_height,
                        max_row <= padded_dims.0,
                        col == output_col * pool_width,
                        max_col == col + pool_width,
                        max_col <= padded_dims.1,
                        feature <= output_feature_size,
                        forall|r: int, c: int, f: int|
                            inside(dims, r, c, f) && (r < output_row || (r == output_row && (c
                                < output_col || (c == output_col && f < feature)))) ==> is_maximum(
                                self.window_of(source, r, c, f).flat(),
                                #[trigger] output@.at(r, c, f),
                            ),
                    decreases output_feature_size - feature,
                {
                    let max_feature = feature + 1;
                    let input_slice = input_padded.block(
                        (row, col, feature),
                        (max_row, max_col, max_feature),
                    );
                    assert(input_slice@ == self.window_of(
                        source,
                        output_row as int,
                        output_col as int,
                        feature as int,
                    ));
                    let values = input_slice.to_vec();
                    assert(values@.len() > 0) by (nonlinear_arith)
                        requires
                            values@.len() == pool_height * pool_width * 1,
                            pool_height > 0,
                            pool_width > 0,
                    ;
                    match window_maximum(&values) {
                        None => {
                            assert(inside(
                                dims,
                                output_row as int,
                                output_col as int,
                                feature as int,
                            ));
                            return Err(LayerError::UndefinedOrder);
                        },
                        Some(largest) => {
                            let ghost before = output@;
                            output.write(output_row, output_col, feature, largest);
                            assert forall|r: int, c: int, f: int|
                                inside(dims, r, c, f) && (r < output_row || (r == output_row && (c
                                    < output_col || (c == output_col && f < feature + 1)))) implies is_maximum(
                                self.window_of(source, r, c, f).flat(),
                                #[trigger] output@.at(r, c, f),
                            ) by {
                                if r == output_row && c == output_col && f == feature {
                                    assert(output@.at(r, c, f) == largest);
                                } else {
                                    assert(output@.at(r, c, f) == before.at(r, c, f));
                                }
                            }
                        },
                    }
                    feature += 1;
                }
                output_col += 1;
            }
            output_row += 1;
        }
        Ok(output)
    }
}

/// A list of scalars has one largest scalar.
pub proof fn lemma_maximum_is_unique(values: Seq<u32>, first: u32, second: u32)
    requires
        is_maximum(values, first),
        is_maximum(values, second),
    ensures
        first == second,
{
    let m = choose|n: int|
        0 <= n < values.len() && #[trigger] values[n] == first && forall|k: int|
            0 <= k < n ==> order_key(#[trigger] values[k]) < order_key(first);
    let n = choose|n: int|
        0 <= n < values.len() && #[trigger] values[n] == second && forall|k: int|
            0 <= k < n ==> order_key(#[trigger] values[k]) < order_key(second);
    if m < n {
        assert(order_key(values[m]) < order_key(second));
        assert(order_key(values[n]) <= order_key(first));
    } else if n < m {
        assert(order_key(values[n]) < order_key(first));
        assert(order_key(values[m]) <= order_key(second));
    }
}

/// A forward pass of a pooling layer has one result.
pub proof fn lemma_pooling_is_unique(
    layer: MaxPool2dLayer,
    input: TensorView,
    first: Result<TensorView, LayerError>,
    second: Result<TensorView, LayerError>,
)
    requires
        layer.outcome(input, first),
        layer.outcome(input, second),
    ensures
        first == second,
{
    let source = plane_padded(input, layer.padding);
    let dims = layer.output_shape(source.dims);
    if first is Ok && second is Ok {
        let a = first->Ok_0;
        let b = second->Ok_0;
        assert forall|idx: (int, int, int)| a.cells.dom().contains(idx) implies a.cells[idx]
            == b.cells[idx] by {
            let (row, col, feature) = idx;
            assert(inside(dims, row, col, feature));
            lemma_maximum_is_unique(
                layer.window_of(source, row, col, feature).flat(),
                a.at(row, col, feature),
                b.at(row, col, feature),
            );
        }
        assert forall|idx: (int, int, int)| a.cells.dom().contains(idx) <==> b.cells.dom().contains(
            idx,
        ) by {
            assert(a.cells.dom().contains((idx.0, idx.1, idx.2)) <==> inside(
                a.dims,
                idx.0,
                idx.1,
                idx.2,
            ));
            assert(b.cells.dom().contains((idx.0, idx.1, idx.2)) <==> inside(
                b.dims,
                idx.0,
                idx.1,
                idx.2,
            ));
        }
        assert(a.cells =~= b.cells);
    } else if first is Ok {
        lemma_no_window_fails(layer, input, first->Ok_0);
    } else if second is Ok {
        lemma_no_window_fails(layer, input, second->Ok_0);
    }
}

/// Where a forward pass of a pooling layer returns a tensor, every scalar
/// of every window is a number.
pub proof fn lemma_no_window_fails(layer: MaxPool2dLayer, input: TensorView, out: TensorView)
    requires
        layer.outcome(input, Ok(out)),
    ensures
        forall|e: LayerError| !layer.outcome(input, Err(e)),
{
    let source = plane_padded(input, layer.padding);
    let dims = layer.output_shape(source.dims);
    assert forall|row: int, col: int, feature: int| inside(dims, row, col, feature) implies !has_nan(
        #[trigger] layer.window_of(source, row, col, feature).flat(),
    ) by {
        assert(is_maximum(
            layer.window_of(source, row, col, feature).flat(),
            out.at(row, col, feature),
        ));
    }
}

/// Pooling by index: a scalar of the output is the scalar at some index of
/// its window of the padded input, and no scalar at an index of that window
/// is larger or fails to be a number. The window of output index
/// `(row, col, feature)` holds the indices `(row * h + a, col * w + b,
/// feature)` with `a` below the height `h` and `b` below the width `w` of
/// the pool.
pub proof fn lemma_pooled_is_largest(
    layer: MaxPool2dLayer,
    input: TensorView,
    out: TensorView,
    row: int,
    col: int,
    feature: int,
)
    requires
        layer.outcome(input, Ok(out)),
        inside(out.dims, row, col, feature),
    ensures
        exists|a: int, b: int|
            0 <= a < layer.pool_size.0 && 0 <= b < layer.pool_size.1 && out.at(row, col, feature)
                == #[trigger] plane_padded(input, layer.padding).at(
                row * layer.pool_size.0 + a,
                col * layer.pool_size.1 + b,
                feature,
            ),
        forall|a: int, b: int|
            0 <= a < layer.pool_size.0 && 0 <= b < layer.pool_size.1 ==> {
                let x = #[trigger] plane_padded(input, layer.padding).at(
                    row * layer.pool_size.0 + a,
                    col * layer.pool_size.1 + b,
                    feature,
                );
                !is_nan(x) && order_key(x) <= order_key(out.at(row, col, feature))
            },
{
    let source = plane_padded(input, layer.padding);
    let window = layer.window_of(source, row, col, feature);
    let values = window.flat();
    let height = layer.pool_size.0;
    let width = layer.pool_size.1;
    let top = row * height;
    let left = col * width;
    lemma_window_inside(source.dims.0, height, row as usize);
    lemma_window_inside(source.dims.1, width, col as usize);
    assert(window.dims == (height, width, 1usize));
    assert(is_maximum(values, out.at(row, col, feature)));
    let n = choose|n: int|
        0 <= n < values.len() && #[trigger] values[n] == out.at(row, col, feature) && forall|k: int|
            0 <= k < n ==> order_key(#[trigger] values[k]) < order_key(out.at(row, col, feature));
    lemma_flat_at_position(window, n);
    let at = unflatten(window.dims, n);
    assert(window.at(at.0, at.1, at.2) == source.at(top + at.0, left + at.1, feature + at.2));
    assert(out.at(row, col, feature) == source.at(top + at.0, left + at.1, feature));
    assert forall|a: int, b: int| 0 <= a < height && 0 <= b < width implies ({
        let x = #[trigger] source.at(top + a, left + b, feature);
        !is_nan(x) && order_key(x) <= order_key(out.at(row, col, feature))
    }) by {
        lemma_flat_at_index(window, a, b, 0);
        let m = flat_offset(window.dims, a, b, 0);
        assert(values[m] == window.at(a, b, 0));
        assert(window.at(a, b, 0) == source.at(top + a, left + b, feature + 0));
    }
}

} // verus!
