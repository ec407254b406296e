//! The layers of a network, and what can go wrong in one.

use crate::activation::ActivationFunctionType;
use crate::arithmetic::{deterministic, total, Operation};
use crate::layer::conv2d::{lemma_convolution_is_unique, Conv2dLayer};
use crate::layer::dense::{lemma_dense_is_unique, DenseLayer, InvalidDimensionsError};
use crate::layer::flatten::FlattenLayer;
use crate::layer::maxpool2d::{lemma_pooling_is_unique, MaxPool2dLayer};
use crate::layer::util::{plane_padded_dims, plane_padded_shape};
use crate::tensor::{
    axis_weight, can_allocate, lemma_size_within_fit, lemma_smaller_shape_fits, shape_fits, Tensor,
    TensorView,
};
use vstd::prelude::*;

pub mod conv2d;
pub mod dense;
pub mod flatten;
pub mod maxpool2d;
pub mod util;

verus! {

/// Why a forward pass through a layer gave no tensor.
#[derive(Debug, PartialEq, Eq, Copy, Clone)]
pub enum LayerError {
    /// The input does not have the dimensions that the layer needs.
    IncorrectDimensions(InvalidDimensionsError),
    /// A pooling window holds a scalar that is not a number, so that it has
    /// no largest scalar.
    UndefinedOrder,
}

/// The error of a layer whose input has the wrong dimensions, where the
/// layer expects an input of shape `expected`.
pub open spec fn incorrect_dimensions(expected: (usize, usize, usize)) -> LayerError {
    LayerError::IncorrectDimensions(InvalidDimensionsError { expected })
}

/// What a forward pass returned, with the tensor taken by its content.
pub open spec fn outcome_of(r: Result<Tensor, LayerError>) -> Result<TensorView, LayerError> {
    match r {
        Ok(t) => Ok(t@),
        Err(e) => Err(e),
    }
}

/// A layer of one of the four kinds.
pub enum Layer {
    Dense(DenseLayer),
    Conv2d(Conv2dLayer),
    MaxPool2d(MaxPool2dLayer),
    Flatten(FlattenLayer),
}

impl Layer {
    /// What a forward pass of the layer on `input` may return: what its kind
    /// says.
    pub open spec fn outcome<F: Fn(Operation) -> u32>(
        self,
        eval: &F,
        input: TensorView,
        result: Result<TensorView, LayerError>,
    ) -> bool {
        match self {
            Layer::Dense(dense) => dense.outcome(eval, input, result),
            Layer::Conv2d(conv) => conv@.outcome(eval, input, result),
            Layer::MaxPool2d(max_pool) => max_pool.outcome(input, result),
            Layer::Flatten(flatten) => flatten.outcome(input, result),
        }
    }

    /// Whether the layer takes an input of shape `dims`.
    pub open spec fn accepts(self, dims: (usize, usize, usize)) -> bool {
        match self {
            Layer::Dense(dense) => dense.accepts(dims),
            Layer::Conv2d(conv) => conv@.accepts(dims),
            Layer::MaxPool2d(max_pool) => max_pool.accepts(dims),
            Layer::Flatten(_) => true,
        }
    }

    /// The shape of input that the layer expects, which its error names.
    pub open spec fn expected_input(self) -> (usize, usize, usize) {
        match self {
            Layer::Dense(dense) => dense.expected_input(),
            Layer::Conv2d(conv) => conv@.expected_input(),
            Layer::MaxPool2d(max_pool) => max_pool.expected_input(),
            Layer::Flatten(_) => (0usize, 0usize, 0usize),
        }
    }

    /// The shape of what the layer makes of an input of shape `dims` that it
    /// takes.
    pub open spec fn output_shape(self, dims: (usize, usize, usize)) -> (usize, usize, usize) {
        match self {
            Layer::Dense(dense) => (1usize, dense.output_size, 1usize),
            Layer::Conv2d(conv) => conv.output_dim,
            Layer::MaxPool2d(max_pool) => max_pool.output_shape(
                plane_padded_dims(dims, max_pool.padding),
            ),
            Layer::Flatten(_) => FlattenLayer::output_shape(dims),
        }
    }

    /// The activation of the layer.
    pub fn activation_function(&self) -> (r: ActivationFunctionType)
        ensures
            r == match *self {
                Layer::Dense(dense) => dense.activation_function,
                Layer::Conv2d(conv) => conv.activation_function,
                Layer::MaxPool2d(_) => ActivationFunctionType::Identity,
                Layer::Flatten(_) => ActivationFunctionType::Identity,
            },
    {
        match &self {
            Layer::Dense(dense) => dense.activation_function(),
            Layer::Conv2d(conv) => conv.activation_function(),
            Layer::MaxPool2d(max_pool) => max_pool.activation_function(),
            Layer::Flatten(flatten) => flatten.activation_function(),
        }
    }

    /// The shape of what the layer makes of an input of shape `input_dim`,
    /// where there can be an input of that shape and the layer takes it.
    pub fn output_dim(&self, input_dim: (usize, usize, usize)) -> (r: Option<(usize, usize, usize)>)
        ensures
            r is Some <==> shape_fits(input_dim) && self.accepts(input_dim),
            r is Some ==> r->Some_0 == self.output_shape(input_dim),
            r is Some ==> shape_fits(r->Some_0),
    {
        if !can_allocate(input_dim) {
            return None;
        }
        match &self {
            Layer::Dense(dense) => {
                if dense.can_take(input_dim) {
                    Some(dense.bias.dim())
                } else {
                    None
                }
            },
            Layer::Conv2d(conv) => {
                if conv.can_take(input_dim) {
                    Some(conv.output_dim)
                } else {
                    None
                }
            },
            Layer::MaxPool2d(max_pool) => {
                if max_pool.can_take(input_dim) {
                    match plane_padded_shape(input_dim, &max_pool.padding) {
                        Some(source_dim) => {
                            let output_dim = max_pool.output_dim(source_dim);
                            proof {
                                lemma_smaller_shape_fits(output_dim, source_dim);
                            }
                            Some(output_dim)
                        },
                        None => None,
                    }
                } else {
                    None
                }
            },
            Layer::Flatten(_) => {
                proof {
                    lemma_size_within_fit(input_dim);
                }
                let size = input_dim.0 * input_dim.1 * input_dim.2;
                proof {
                    let weight = axis_weight(size);
                    assert(1 * weight * 1 == weight) by (nonlinear_arith);
                }
                Some((1, size, 1))
            },
        }
    }

    /// A forward pass of the layer.
    pub fn forward<F: Fn(Operation) -> u32>(&self, input: &Tensor, eval: &F) -> (r: Result<Tensor, LayerError>)
        requires
            total(eval),
        ensures
            self.outcome(eval, input@, outcome_of(r)),
    {
        match &self {
            Layer::Dense(dense) => dense.forward(input, eval),
            Layer::Conv2d(conv) => conv.forward(input, eval),
            Layer::MaxPool2d(max_pool) => max_pool.forward(input),
            Layer::Flatten(flatten) => flatten.forward(input),
        }
    }
}

/// Whether a layer succeeds depends on the shape of its input alone, but
/// for pooling, and so does the shape of what it returns: a layer that
/// succeeds has taken the shape of its input and returns a tensor of its
/// output shape; one that fails with `IncorrectDimensions` has not taken
/// the shape of its input, and the error names the shape that the layer
/// expects; and only pooling fails in any other way.
pub proof fn lemma_outcome_follows_shape<F: Fn(Operation) -> u32>(
    layer: Layer,
    eval: &F,
    input: TensorView,
    result: Result<TensorView, LayerError>,
)
    requires
        layer.outcome(eval, input, result),
    ensures
        result is Ok ==> layer.accepts(input.dims) && result->Ok_0.dims == layer.output_shape(
            input.dims,
        ),
        result is Err && result->Err_0 is IncorrectDimensions ==> !layer.accepts(input.dims)
            && result->Err_0 == incorrect_dimensions(layer.expected_input()),
        result is Err && result->Err_0 is UndefinedOrder ==> layer is MaxPool2d && layer.accepts(
            input.dims,
        ),
{
}

/// With an arithmetic function that is a function, a forward pass of a layer
/// has one result: the contract of the pass leaves nothing open.
pub proof fn lemma_outcome_is_unique<F: Fn(Operation) -> u32>(
    layer: Layer,
    eval: &F,
    input: TensorView,
    first: Result<TensorView, LayerError>,
    second: Result<TensorView, LayerError>,
)
    requires
        deterministic(eval),
        layer.outcome(eval, input, first),
        layer.outcome(eval, input, second),
    ensures
        first == second,
{
    match layer {
        Layer::Dense(dense) => lemma_dense_is_unique(dense, eval, input, first, second),
        Layer::Conv2d(conv) => lemma_convolution_is_unique(conv@, eval, input, first, second),
        Layer::MaxPool2d(max_pool) => lemma_pooling_is_unique(max_pool, input, first, second),
        Layer::Flatten(_) => {},
    }
}

} // verus!
