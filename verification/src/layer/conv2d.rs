//! Two-dimensional convolution.

use crate::activation::{activate, is_activated, lemma_activated_is_unique, ActivationFunctionType};
use crate::arithmetic::{
    deterministic, dot, is_dot_product, lemma_dot_product_is_unique, total, Operation,
};
use crate::layer::dense::InvalidDimensionsError;
use crate::layer::util::{
    can_pad_plane, pad_plane, plane_padded, plane_padded_dims, plane_padded_shape,
};
use crate::layer::{incorrect_dimensions, outcome_of, LayerError};
use crate::tensor::{can_allocate, inside, shape_fits, Tensor, TensorView};
use vstd::prelude::*;

verus! {

/// Why a convolution layer could not be made.
#[derive(Debug, PartialEq, Eq, Structural, Copy, Clone)]
pub enum Conv2dError {
    /// The kernel has no extent.
    KernelSizeError,
    /// The output shape cannot be computed from the configuration.
    OutputShapeError,
    /// The kernels are not as many as the filters, or one of them does not
    /// have the shape of the kernel.
    KernelShapeError,
}

impl Conv2dError {
    /// The text that describes the error.
    pub fn message(&self) -> (r: String)
        ensures
            r@ == match *self {
                Conv2dError::KernelSizeError => "invalid kernel size"@,
                Conv2dError::OutputShapeError => "invalid output shape"@,
                Conv2dError::KernelShapeError => "invalid kernel shape"@,
            },
    {
        match self {
            Conv2dError::KernelSizeError => "invalid kernel size".to_owned(),
            Conv2dError::OutputShapeError => "invalid output shape".to_owned(),
            Conv2dError::KernelShapeError => "invalid kernel shape".to_owned(),
        }
    }
}

/// Whether the output length along one axis can be computed: kernel,
/// dilation and stride are at least one, the padded length is representable,
/// and the dilated kernel is no longer than the padded axis.
pub open spec fn extent_defined(len: usize, pad: usize, kernel: usize, dilation: usize, stride: usize) -> bool {
    &&& kernel >= 1
    &&& dilation >= 1
    &&& stride >= 1
    &&& len + 2 * pad <= usize::MAX
    &&& kernel + (kernel - 1) * (dilation - 1) <= len + 2 * pad
}

/// The output length along one axis:
/// `1 + (len + 2 * pad - kernel - (kernel - 1) * (dilation - 1)) / stride`,
/// the division rounded down.
pub open spec fn output_extent(len: usize, pad: usize, kernel: usize, dilation: usize, stride: usize) -> int {
    1 + (len + 2 * pad - kernel - (kernel - 1) * (dilation - 1)) / (stride as int)
}

/// Whether the output shape of a convolution can be computed.
pub open spec fn output_dim_defined(
    input_dim: (usize, usize, usize),
    padding: (usize, usize),
    kernel_size: usize,
    dilatation_rate: (usize, usize),
    strides: (usize, usize),
) -> bool {
    &&& extent_defined(input_dim.0, padding.0, kernel_size, dilatation_rate.0, strides.0)
    &&& extent_defined(input_dim.1, padding.1, kernel_size, dilatation_rate.1, strides.1)
}

/// The output shape of a convolution: the output length along the first two
/// axes, and one layer for each filter.
pub open spec fn output_dim_of(
    input_dim: (usize, usize, usize),
    padding: (usize, usize),
    kernel_size: usize,
    dilatation_rate: (usize, usize),
    strides: (usize, usize),
    filters: usize,
) -> (int, int, int) {
    (
        output_extent(input_dim.0, padding.0, kernel_size, dilatation_rate.0, strides.0),
        output_extent(input_dim.1, padding.1, kernel_size, dilatation_rate.1, strides.1),
        filters as int,
    )
}

/// The output length along one axis is at least one, and the last window, of
/// the length of the kernel, ends inside the padded axis.
pub proof fn lemma_output_extent_bounds(len: usize, pad: usize, kernel: usize, dilation: usize, stride: usize)
    requires
        extent_defined(len, pad, kernel, dilation, stride),
    ensures
        0 <= (kernel - 1) * (dilation - 1) <= len + 2 * pad - kernel,
        1 <= output_extent(len, pad, kernel, dilation, stride),
        output_extent(len, pad, kernel, dilation, stride) - 1 + kernel <= len + 2 * pad,
{
    let rest = len + 2 * pad - kernel - (kernel - 1) * (dilation - 1);
    let s = stride as int;
    assert(0 <= rest / s <= rest) by (nonlinear_arith)
        requires
            0 <= rest,
            1 <= s,
    ;
    assert((kernel - 1) * (dilation - 1) >= 0) by (nonlinear_arith)
        requires
            kernel >= 1,
            dilation >= 1,
    ;
}

fn extent_is_defined(len: usize, pad: usize, kernel: usize, dilation: usize, stride: usize) -> (r: bool)
    ensures
        r == extent_defined(len, pad, kernel, dilation, stride),
{
    if kernel < 1 || dilation < 1 || stride < 1 {
        return false;
    }
    let twice = match pad.checked_mul(2) {
        Some(twice) => twice,
        None => {
            return false;
        },
    };
    let padded_len = match len.checked_add(twice) {
        Some(padded_len) => padded_len,
        None => {
            return false;
        },
    };
    if padded_len < kernel {
        assert((kernel - 1) * (dilation - 1) >= 0) by (nonlinear_arith)
            requires
                kernel >= 1,
                dilation >= 1,
        ;
        return false;
    }
    match (kernel - 1).checked_mul(dilation - 1) {
        Some(spread) => spread <= padded_len - kernel,
        None => false,
    }
}

/// Whether the output shape of a convolution can be computed.
pub fn output_dim_is_defined(
    input_dim: (usize, usize, usize),
    padding: (usize, usize),
    kernel_size: usize,
    dilatation_rate: (usize, usize),
    strides: (usize, usize),
) -> (r: bool)
    ensures
        r == output_dim_defined(input_dim, padding, kernel_size, dilatation_rate, strides),
{
    extent_is_defined(input_dim.0, padding.0, kernel_size, dilatation_rate.0, strides.0)
        && extent_is_defined(input_dim.1, padding.1, kernel_size, dilatation_rate.1, strides.1)
}

/// The output shape of a convolution. Along each of the first two axes it is
/// `1 + (len + 2 * pad - kernel - (kernel - 1) * (dilation - 1)) / stride`;
/// the third axis has one layer for each filter.
pub fn get_output_dim(
    input_dim: (usize, usize, usize),
    padding: (usize, usize),
    kernel_size: usize,
    dilatation_rate: (usize, usize),
    strides: (usize, usize),
    filters: usize,
) -> (r: (usize, usize, usize))
    requires
        output_dim_defined(input_dim, padding, kernel_size, dilatation_rate, strides),
    ensures
        (r.0 as int, r.1 as int, r.2 as int) == output_dim_of(
            input_dim,
            padding,
            kernel_size,
            dilatation_rate,
            strides,
            filters,
        ),
{
    let (input_height, input_width, _) = input_dim;
    let (padding_height, padding_width) = padding;
    let (dilatation_height, dilatation_width) = dilatation_rate;
    let (stride_height, stride_width) = strides;
    proof {
        lemma_output_extent_bounds(
            input_height,
            padding_height,
            kernel_size,
            dilatation_height,
            stride_height,
        );
        lemma_output_extent_bounds(
            input_width,
            padding_width,
            kernel_size,
            dilatation_width,
            stride_width,
        );
    }
    let spread_height = (kernel_size - 1) * (dilatation_height - 1);
    let spread_width = (kernel_size - 1) * (dilatation_width - 1);
    let height = 1 + (input_height + 2 * padding_height - kernel_size - spread_height)
        / stride_height;
    let width = 1 + (input_width + 2 * padding_width - kernel_size - spread_width) / stride_width;
    (height, width, filters)
}

/// The mathematical content of a convolution layer.
pub struct Conv2dView {
    pub filters: usize,
    pub kernel_size: usize,
    pub kernels: Seq<TensorView>,
    pub padding: (usize, usize),
    pub input_dim: (usize, usize, usize),
    pub output_dim: (usize, usize, usize),
    pub strides: (usize, usize),
    pub dilatation_rate: (usize, usize),
    pub activation_function: ActivationFunctionType,
}

/// The contents of a list of tensors.
pub open spec fn views_of(tensors: Seq<Tensor>) -> Seq<TensorView> {
    Seq::new(tensors.len(), |i: int| tensors[i]@)
}

/// There are `filters` kernels, each of shape
/// `(kernel_size, kernel_size, channels)`.
pub open spec fn kernels_match(
    kernels: Seq<TensorView>,
    filters: usize,
    kernel_size: usize,
    channels: usize,
) -> bool {
    &&& kernels.len() == filters
    &&& forall|f: int|
        0 <= f < kernels.len() ==> (#[trigger] kernels[f]).dims == (
            kernel_size,
            kernel_size,
            channels,
        )
}

impl Conv2dView {
    /// The shape of input that the layer expects: the one it was made for.
    pub open spec fn expected_input(self) -> (usize, usize, usize) {
        self.input_dim
    }

    /// The output has no scalar at all.
    pub open spec fn output_is_empty(self) -> bool {
        self.output_dim.0 == 0 || self.output_dim.1 == 0 || self.output_dim.2 == 0
    }

    /// Whether the layer can convolve an input of shape `dims`: the input
    /// can be padded and the output allocated; and, unless the output is
    /// empty, the window of every output index lies inside the padded
    /// input, and every filter has a kernel as deep as the padded input.
    pub open spec fn accepts(self, dims: (usize, usize, usize)) -> bool {
        let source = plane_padded_dims(dims, self.padding);
        &&& can_pad_plane(dims, self.padding)
        &&& shape_fits(self.output_dim)
        &&& !self.output_is_empty() ==> {
            &&& self.output_dim.0 - 1 + self.kernel_size <= source.0
            &&& self.output_dim.1 - 1 + self.kernel_size <= source.1
            &&& self.output_dim.2 <= self.kernels.len()
            &&& forall|f: int|
                0 <= f < self.output_dim.2 ==> (#[trigger] self.kernels[f]).dims == (
                    self.kernel_size,
                    self.kernel_size,
                    source.2,
                )
        }
    }

    /// The window of the padded input that output indices `(row, col, _)`
    /// are taken from. It starts at `(row, col, 0)`: the window advances by
    /// one index for each output index, whatever the stride, and covers
    /// adjacent indices, whatever the dilation.
    pub open spec fn window_of(self, source: TensorView, row: int, col: int) -> TensorView {
        source.window(
            (row as usize, col as usize, 0usize),
            ((row + self.kernel_size) as usize, (col + self.kernel_size) as usize, source.dims.2),
        )
    }

    /// `value` is the output at `(row, col, filter)`: the activation of the
    /// dot product of the kernel of `filter` with the window.
    pub open spec fn is_cell<F: Fn(Operation) -> u32>(
        self,
        eval: &F,
        source: TensorView,
        row: int,
        col: int,
        filter: int,
        value: u32,
    ) -> bool {
        exists|raw: u32| #[trigger]
            is_dot_product(
                eval,
                self.kernels[filter].flat(),
                self.window_of(source, row, col).flat(),
                raw,
            ) && is_activated(eval, self.activation_function, raw, value)
    }

    /// What a forward pass on `input` may return.
    ///
    /// It fails, with `IncorrectDimensions`, exactly when the layer does not
    /// accept the shape of `input`; the error names `input_dim` as the
    /// expected shape. Otherwise the output has the shape `output_dim`, and every scalar of it is the activation of the dot
    /// product of a kernel with a window of the padded input.
    pub open spec fn outcome<F: Fn(Operation) -> u32>(
        self,
        eval: &F,
        input: TensorView,
        result: Result<TensorView, LayerError>,
    ) -> bool {
        match result {
            Err(e) => e == incorrect_dimensions(self.expected_input()) && !self.accepts(input.dims),
            Ok(out) => {
                &&& self.accepts(input.dims)
                &&& out.dims == self.output_dim
                &&& out.well_formed()
                &&& forall|row: int, col: int, filter: int|
                    inside(self.output_dim, row, col, filter) ==> self.is_cell(
                        eval,
                        plane_padded(input, self.padding),
                        row,
                        col,
                        filter,
                        #[trigger] out.at(row, col, filter),
                    )
            },
        }
    }
}

/// A layer without padding takes the inputs that it was made for: where the
/// output shape is the one that the configuration gives and the kernels
/// match the filters, every window lies inside an input of shape
/// `input_dim`, whatever the strides and the dilation.
pub proof fn lemma_unpadded_layer_accepts_its_input(layer: Conv2dView)
    requires
        layer.padding == (0usize, 0usize),
        output_dim_defined(
            layer.input_dim,
            layer.padding,
            layer.kernel_size,
            layer.dilatation_rate,
            layer.strides,
        ),
        (layer.output_dim.0 as int, layer.output_dim.1 as int, layer.output_dim.2 as int)
            == output_dim_of(
            layer.input_dim,
            layer.padding,
            layer.kernel_size,
            layer.dilatation_rate,
            layer.strides,
            layer.filters,
        ),
        kernels_match(layer.kernels, layer.filters, layer.kernel_size, layer.input_dim.2),
        shape_fits(layer.input_dim),
        shape_fits(layer.output_dim),
    ensures
        layer.accepts(layer.input_dim),
{
    lemma_output_extent_bounds(
        layer.input_dim.0,
        0,
        layer.kernel_size,
        layer.dilatation_rate.0,
        layer.strides.0,
    );
    lemma_output_extent_bounds(
        layer.input_dim.1,
        0,
        layer.kernel_size,
        layer.dilatation_rate.1,
        layer.strides.1,
    );
}

/// With an arithmetic function that is a function, a forward pass of a
/// convolution layer has one result.
pub proof fn lemma_convolution_is_unique<F: Fn(Operation) -> u32>(
    layer: Conv2dView,
    eval: &F,
    input: TensorView,
    first: Result<TensorView, LayerError>,
    second: Result<TensorView, LayerError>,
)
    requires
        deterministic(eval),
        layer.outcome(eval, input, first),
        layer.outcome(eval, input, second),
    ensures
        first == second,
{
    if first is Ok && second is Ok {
        let a = first->Ok_0;
        let b = second->Ok_0;
        let source = plane_padded(input, layer.padding);
        assert forall|idx: (int, int, int)| a.cells.dom().contains(idx) implies a.cells[idx]
            == b.cells[idx] by {
            let (row, col, filter) = idx;
            assert(inside(layer.output_dim, row, col, filter));
            assert(layer.is_cell(eval, source, row, col, filter, a.at(row, col, filter)));
            assert(layer.is_cell(eval, source, row, col, filter, b.at(row, col, filter)));
            let kernel = layer.kernels[filter].flat();
            let window = layer.window_of(source, row, col).flat();
            let r = choose|raw: u32| #[trigger]
                is_dot_product(eval, kernel, window, raw) && is_activated(
                    eval,
                    layer.activation_function,
                    raw,
                    a.at(row, col, filter),
                );
            let s = choose|raw: u32| #[trigger]
                is_dot_product(eval, kernel, window, raw) && is_activated(
                    eval,
                    layer.activation_function,
                    raw,
                    b.at(row, col, filter),
                );
            lemma_dot_product_is_unique(eval, kernel, window, r, s);
            lemma_activated_is_unique(
                eval,
                layer.activation_function,
                r,
                a.at(row, col, filter),
                b.at(row, col, filter),
            );
        }
        assert forall|idx: (int, int, int)| a.cells.dom().contains(idx) <==> b.cells.dom().contains(
            idx,
        ) by {
            assert(a.cells.dom().contains((idx.0, idx.1, idx.2)) <==> inside(
                a.dims,
                idx.0,
                idx.1,
                idx.2,
            ));
            assert(b.cells.dom().contains((idx.0, idx.1, idx.2)) <==> inside(
                b.dims,
                idx.0,
                idx.1,
                idx.2,
            ));
        }
        assert(a.cells =~= b.cells);
    }
}

/// A convolution layer: `filters` square kernels, slid over the first two
/// axes of the padded input.
///
/// The output shape follows the strides and the dilation, but the window
/// itself does not: it advances by one index for each output index and
/// covers adjacent indices. With a stride or a dilation other than one the
/// output is therefore that of a unit-stride, undilated convolution, cut to
/// the smaller shape.
pub struct Conv2dLayer {
    pub filters: usize,
    pub kernel_size: usize,
    pub kernels: Vec<Tensor>,
    pub padding: (usize, usize),
    pub input_dim: (usize, usize, usize),
    pub output_dim: (usize, usize, usize),
    pub strides: (usize, usize),
    pub dilatation_rate: (usize, usize),
    pub activation_function: ActivationFunctionType,
}

impl View for Conv2dLayer {
    type V = Conv2dView;

    open spec fn view(&self) -> Conv2dView {
        Conv2dView {
            filters: self.filters,
            kernel_size: self.kernel_size,
            kernels: views_of(self.kernels@),
            padding: self.padding,
            input_dim: self.input_dim,
            output_dim: self.output_dim,
            strides: self.strides,
            dilatation_rate: self.dilatation_rate,
            activation_function: self.activation_function,
        }
    }
}

/// Whether there are `filters` kernels, each of shape
/// `(kernel_size, kernel_size, channels)`.
fn check_kernels(kernels: &Vec<Tensor>, filters: usize, kernel_size: usize, channels: usize) -> (r: bool)
    ensures
        r == kernels_match(views_of(kernels@), filters, kernel_size, channels),
{
    if kernels.len() != filters {
        return false;
    }
    let mut f: usize = 0;
    while f < kernels.len()
        invariant
            f <= kernels.len(),
            kernels.len() == filters,
            forall|g: int|
                0 <= g < f ==> (#[trigger] views_of(kernels@)[g]).dims == (
                    kernel_size,
                    kernel_size,
                    channels,
                ),
        decreases kernels.len() - f,
    {
        let (a, b, c) = kernels[f].dim();
        if a != kernel_size || b != kernel_size || c != channels {
            assert(views_of(kernels@)[f as int].dims != (kernel_size, kernel_size, channels));
            return false;
        }
        f += 1;
    }
    true
}

impl Conv2dLayer {
    /// A layer of `filters` kernels of side `kernel_size` for inputs of
    /// shape `input_dim`. Padding defaults to `(0, 0)`, strides and dilation
    /// to `(1, 1)`, the activation to the identity. `kernels` holds the
    /// kernel of each filter.
    ///
    /// The layer is refused where the kernel has no extent; else where the
    /// output shape cannot be computed; else where the kernels do not match
    /// the filters.
    pub fn new(
        filters: usize,
        kernel_size: usize,
        input_dim: (usize, usize, usize),
        padding: Option<(usize, usize)>,
        strides: Option<(usize, usize)>,
        dilation_rate: Option<(usize, usize)>,
        activation_function_type: Option<ActivationFunctionType>,
        kernels: Vec<Tensor>,
    ) -> (r: Result<Self, Conv2dError>)
        ensures
            ({
                let padding = match padding {
                    Some(p) => p,
                    None => (0usize, 0usize),
                };
                let dilatation_rate = match dilation_rate {
                    Some(d) => d,
                    None => (1usize, 1usize),
                };
                let strides = match strides {
                    Some(s) => s,
                    None => (1usize, 1usize),
                };
                let activation_function = match activation_function_type {
                    Some(a) => a,
                    None => ActivationFunctionType::Identity,
                };
                let defined = output_dim_defined(
                    input_dim,
                    padding,
                    kernel_size,
                    dilatation_rate,
                    strides,
                );
                let matching = kernels_match(views_of(kernels@), filters, kernel_size, input_dim.2);
                match r {
                    Err(Conv2dError::KernelSizeError) => kernel_size < 1,
                    Err(Conv2dError::OutputShapeError) => kernel_size >= 1 && !defined,
                    Err(Conv2dError::KernelShapeError) => kernel_size >= 1 && defined && !matching,
                    Ok(layer) => {
                        &&& kernel_size >= 1
                        &&& defined
                        &&& matching
                        &&& (
                            layer.output_dim.0 as int,
                            layer.output_dim.1 as int,
                            layer.output_dim.2 as int,
                        ) == output_dim_of(
                            input_dim,
                            padding,
                            kernel_size,
                            dilatation_rate,
                            strides,
                            filters,
                        )
                        &&& layer@ == (Conv2dView {
                            filters,
                            kernel_size,
                            kernels: views_of(kernels@),
                            padding,
                            input_dim,
                            output_dim: layer.output_dim,
                            strides,
                            dilatation_rate,
                            activation_function,
                        })
                    },
                }
            }),
    {
        if kernel_size < 1 {
            return Err(Conv2dError::KernelSizeError);
        }
        let padding = match padding {
            Some(p) => p,
            None => (0, 0),
        };
        let dilatation_rate = match dilation_rate {
            Some(d) => d,
            None => (1, 1),
        };
        let strides = match strides {
            Some(s) => s,
            None => (1, 1),
        };
        let activation_function = match activation_function_type {
            Some(a) => a,
            None => ActivationFunctionType::Identity,
        };
        if !output_dim_is_defined(input_dim, padding, kernel_size, dilatation_rate, strides) {
            return Err(Conv2dError::OutputShapeError);
        }
        if !check_kernels(&kernels, filters, kernel_size, input_dim.2) {
            return Err(Conv2dError::KernelShapeError);
        }
        Ok(
            Self {
                filters,
                kernel_size,
                kernels,
                padding,
                input_dim,
                output_dim: get_output_dim(
                    input_dim,
                    padding,
                    kernel_size,
                    dilatation_rate,
                    strides,
                    filters,
                ),
                strides,
                dilatation_rate,
                activation_function,
            },
        )
    }

    /// The activation that the layer applies to every dot product.
    pub fn activation_function(&self) -> (r: ActivationFunctionType)
        ensures
            r == self@.activation_function,
    {
        self.activation_function
    }

    /// Whether the layer can convolve an input of shape `input_dim`.
    #[verifier::loop_isolation(false)]
    pub fn can_take(&self, input_dim: (usize, usize, usize)) -> (r: bool)
        ensures
            r == self@.accepts(input_dim),
    {
        let source_dims = match plane_padded_shape(input_dim, &self.padding) {
            Some(dims) => dims,
            None => {
                return false;
            },
        };
        if !can_allocate(self.output_dim) {
            return false;
        }
        let (output_height, output_width, output_filters) = self.output_dim;
        if output_height == 0 || output_width == 0 || output_filters == 0 {
            return true;
        }
        let kernel_size = self.kernel_size;
        if kernel_size > source_dims.0 || output_height - 1 > source_dims.0 - kernel_size
            || kernel_size > source_dims.1 || output_width - 1 > source_dims.1 - kernel_size
            || output_filters > self.kernels.len() {
            return false;
        }
        let mut f: usize = 0;
        while f < output_filters
            invariant
                f <= output_filters <= self.kernels.len(),
                forall|g: int|
                    0 <= g < f ==> (#[trigger] self@.kernels[g]).dims == (
                        kernel_size,
                        kernel_size,
                        source_dims.2,
                    ),
            decreases output_filters - f,
        {
            let (a, b, c) = self.kernels[f].dim();
            if a != kernel_size || b != kernel_size || c != source_dims.2 {
                assert(self@.kernels[f as int].dims != (kernel_size, kernel_size, source_dims.2));
                return false;
            }
            f += 1;
        }
        true
    }

    /// The scalars of the kernels of the first `count` filters.
    fn kernel_scalars(&self, count: usize) -> (r: Vec<Vec<u32>>)
        requires
            count <= self@.kernels.len(),
        ensures
            r@.len() == count,
            forall|f: int| 0 <= f < count ==> (#[trigger] r@[f])@ == self@.kernels[f].flat(),
    {
        let mut all: Vec<Vec<u32>> = Vec::new();
        let mut f: usize = 0;
        while f < count
            invariant
                f <= count <= self.kernels.len(),
                all.len() == f,
                forall|g: int| 0 <= g < f ==> (#[trigger] all@[g])@ == self@.kernels[g].flat(),
            decreases count - f,
        {
            let scalars = self.kernels[f].to_vec();
            all.push(scalars);
            f += 1;
        }
        all
    }

    /// Pads `input`, and for every output index takes the dot product of a
    /// kernel with a window of the padded input, and then the activation of
    /// it.
    pub fn forward<F: Fn(Operation) -> u32>(&self, input: &Tensor, eval: &F) -> (r: Result<Tensor, LayerError>)
        requires
            total(eval),
        ensures
            self@.outcome(eval, input@, outcome_of(r)),
    {
        let input_dim = input.dim();
        if !self.can_take(input_dim) {
            return Err(
                LayerError::IncorrectDimensions(InvalidDimensionsError { expected: self.input_dim }),
            );
        }
        let input_padded = pad_plane(input, &self.padding);
        let ghost source = input_padded@;
        let source_dims = input_padded.dim();
        let mut output = Tensor::filled_with_zero(self.output_dim);
        let (output_height, output_width, output_filters) = self.output_dim;
        if output_height == 0 || output_width == 0 || output_filters == 0 {
            return Ok(output);
        }
        let kernel_size = self.kernel_size;
        let kernels = self.kernel_scalars(output_filters);
        let mut row: usize = 0;
        while row < output_height
            invariant
                total(eval),
                self@.accepts(input@.dims),
                !self@.output_is_empty(),
                source == plane_padded(input@, self@.padding),
                input_padded@ == source,
                source.dims == source_dims,
                kernel_size == self@.kernel_size,
                self@.output_dim == (output_height, output_width, output_filters),
                output@.dims == self@.output_dim,
                output@.well_formed(),
                kernels@.len() == output_filters,
                forall|f: int|
                    0 <= f < output_filters ==> (#[trigger] kernels@[f])@
                        == self@.kernels[f].flat(),
                row <= output_height,
                forall|r: int, c: int, f: int|
                    inside(self@.output_dim, r, c, f) && r < row ==> self@.is_cell(
                        eval,
                        source,
                        r,
                        c,
                        f,
                        #[trigger] output@.at(r, c, f),
                    ),
            decreases output_height - row,
        {
            let max_row = row + kernel_size;
            let mut col: usize = 0;
            while col < output_width
                invariant
                    total(eval),
                    self@.accepts(input@.dims),
                    !self@.output_is_empty(),
                    source == plane_padded(input@, self@.padding),
                    input_padded@ == source,
                    source.dims == source_dims,
                    kernel_size == self@.kernel_size,
                    self@.output_dim == (output_height, output_width, output_filters),
                    output@.dims == self@.output_dim,
                    output@.well_formed(),
                    kernels@.len() == output_filters,
                    forall|f: int|
                        0 <= f < output_filters ==> (#[trigger] kernels@[f])@
                            == self@.kernels[f].flat(),
                    row < output_height,
                    max_row == row + kernel_size,
                    col <= output_width,
                    forall|r: int, c: int, f: int|
                        inside(self@.output_dim, r, c, f) && (r < row || (r == row && c < col))
                            ==> self@.is_cell(eval, source, r, c, f, #[trigger] output@.at(r, c, f)),
                decreases output_width - col,
            {
                let max_col = col + kernel_size;
                let input_slice = input_padded.block(
                    (row, col, 0),
                    (max_row, max_col, source_dims.2),
                );
                assert(input_slice@ == self@.window_of(source, row as int, col as int));
                let window = input_slice.to_vec();
                let mut feature: usize = 0;
                while feature < output_filters
                    invariant
                        total(eval),
                        self@.accepts(input@.dims),
                        !self@.output_is_empty(),
                        source == plane_padded(input@, self@.padding),
                        source.dims == source_dims,
                        kernel_size == self@.kernel_size,
                        self@.output_dim == (output_height, output_width, output_filters),
                        output@.dims == self@.output_dim,
                        output@.well_formed(),
                        kernels@.len() == output_filters,
                        forall|f: int|
                            0 <= f < output_filters ==> (#[trigger] kernels@[f])@
                                == self@.kernels[f].flat(),
                        row < output_height,
                        col < output_width,
                        window@ == self@.window_of(source, row as int, col as int).flat(),
                        window@.len() == kernel_size * kernel_size * source_dims.2,
                        feature <= output_filters,
                        forall|r: int, c: int, f: int|
                            inside(self@.output_dim, r, c, f) && (r < row || (r == row && (c < col
                                || (c == col && f < feature)))) ==> self@.is_cell(
                                eval,
                                source,
                                r,
                                c,
                                f,
                                #[trigger] output@.at(r, c, f),
                            ),
                    decreases output_filters - feature,
                {
                    let kernel = &kernels[feature];
                    assert(kernel@ == self@.kernels[feature as int].flat());
                    assert(self@.kernels[feature as int].dims == (
                        kernel_size,
                        kernel_size,
                        source_dims.2,
                    ));
                    let output_cel = dot(kernel, &window, eval);
                    let value = activate(self.activation_function, output_cel, eval);
                    let ghost before = output@;
                    output.write(row, col, feature, value);
                    assert(self@.is_cell(
                        eval,
                        source,
                        row as int,
                        col as int,
                        feature as int,
                        value,
                    ));
                    assert forall|r: int, c: int, f: int|
                        inside(self@.output_dim, r, c, f) && (r < row || (r == row && (c < col || (c
                            == col && f < feature + 1)))) implies self@.is_cell(
                        eval,
                        source,
                        r,
                        c,
                        f,
                        #[trigger] output@.at(r, c, f),
                    ) by {
                        if r == row && c == col && f == feature {
                            assert(output@.at(r, c, f) == value);
                        } else {
                            assert(output@.at(r, c, f) == before.at(r, c, f));
                        }
                    }
                    feature += 1;
                }
                col += 1;
            }
            row += 1;
        }
        Ok(output)
    }
}

} // verus!
