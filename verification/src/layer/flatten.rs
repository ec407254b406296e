//! Flattening.

use crate::activation::ActivationFunctionType;
use crate::layer::{outcome_of, LayerError};
use crate::tensor::{
    flat_offset, inside, lemma_offset_unflatten, lemma_size_within_fit, lemma_unflatten_offset,
    shape_fits, shape_size, unflatten, Tensor, TensorView,
};
use vstd::pervasive::unreached;
use vstd::prelude::*;

verus! {

/// A layer that lays all scalars of its input out along one axis.
#[derive(Debug)]
pub struct FlattenLayer;

impl Default for FlattenLayer {
    fn default() -> (r: Self)
        ensures
            r == FlattenLayer,
    {
        FlattenLayer
    }
}

impl FlattenLayer {
    /// The shape of the flattened tensor: all scalars along the second axis.
    pub open spec fn output_shape(dims: (usize, usize, usize)) -> (usize, usize, usize) {
        (1usize, shape_size(dims) as usize, 1usize)
    }

    /// What a forward pass on `input` returns: the tensor of shape
    /// `(1, n, 1)` that holds the `n` scalars of `input` in their logical
    /// order, last axis varying fastest. The pass never fails.
    pub open spec fn outcome(self, input: TensorView, result: Result<TensorView, LayerError>) -> bool {
        result == Ok::<TensorView, LayerError>(
            TensorView::from_flat(Self::output_shape(input.dims), input.flat()),
        )
    }

    pub fn new() -> (r: Self)
        ensures
            r == FlattenLayer,
    {
        Self
    }

    /// Flattening applies no activation.
    pub fn activation_function(&self) -> (r: ActivationFunctionType)
        ensures
            r == ActivationFunctionType::Identity,
    {
        ActivationFunctionType::Identity
    }

    /// Lays the scalars of `input` out along the second axis, in their
    /// logical order.
    pub fn forward(&self, input: &Tensor) -> (r: Result<Tensor, LayerError>)
        ensures
            self.outcome(input@, outcome_of(r)),
            r is Ok,
            r->Ok_0@.dims == (1usize, shape_size(input@.dims) as usize, 1usize),
            r->Ok_0@.flat() == input@.flat(),
    {
        let dims = input.dim();
        let flatten_input = input.to_vec();
        let flatten_input_size = flatten_input.len();
        proof {
            lemma_size_within_fit(dims);
            assert(1 * flatten_input_size * 1 == flatten_input_size) by (nonlinear_arith);
        }
        match Tensor::from_shape_vec((1, flatten_input_size, 1), flatten_input) {
            Some(output) => Ok(output),
            None => unreached(),
        }
    }
}

/// Flattening is a bijection that keeps the order of the scalars: the scalar
/// at index `(i, j, k)` of the input stands at index `(0, n, 0)` of the
/// output, where `n` is the position of `(i, j, k)` in the logical order of
/// the input; and every index `(0, n, 0)` of the output holds the scalar of
/// exactly one index of the input.
pub proof fn lemma_flatten_keeps_order(input: TensorView, out: TensorView)
    requires
        shape_fits(input.dims),
        FlattenLayer.outcome(input, Ok(out)),
    ensures
        out.dims == (1usize, shape_size(input.dims) as usize, 1usize),
        out.dims.1 == shape_size(input.dims),
        forall|i: int, j: int, k: int|
            inside(input.dims, i, j, k) ==> 0 <= #[trigger] flat_offset(input.dims, i, j, k)
                < out.dims.1 && out.at(0, flat_offset(input.dims, i, j, k), 0) == input.at(i, j, k),
        forall|n: int|
            #![trigger unflatten(input.dims, n)]
            0 <= n < out.dims.1 ==> inside(
                input.dims,
                unflatten(input.dims, n).0,
                unflatten(input.dims, n).1,
                unflatten(input.dims, n).2,
            ) && out.at(0, n, 0) == input.at(
                unflatten(input.dims, n).0,
                unflatten(input.dims, n).1,
                unflatten(input.dims, n).2,
            ),
{
    lemma_size_within_fit(input.dims);
    let size = shape_size(input.dims);
    assert forall|n: int| 0 <= n < size implies #[trigger] out.at(0, n, 0) == input.flat()[n] by {
        assert(inside(out.dims, 0, n, 0));
        assert(flat_offset(out.dims, 0, n, 0) == n) by (nonlinear_arith)
            requires
                out.dims.2 == 1,
        ;
    }
    assert forall|i: int, j: int, k: int| inside(input.dims, i, j, k) implies 0 <= #[trigger] flat_offset(
        input.dims,
        i,
        j,
        k,
    ) < out.dims.1 && out.at(0, flat_offset(input.dims, i, j, k), 0) == input.at(i, j, k) by {
        lemma_unflatten_offset(input.dims, i, j, k);
    }
    assert forall|n: int| #![trigger unflatten(input.dims, n)] 0 <= n < out.dims.1 implies inside(
        input.dims,
        unflatten(input.dims, n).0,
        unflatten(input.dims, n).1,
        unflatten(input.dims, n).2,
    ) && out.at(0, n, 0) == input.at(
        unflatten(input.dims, n).0,
        unflatten(input.dims, n).1,
        unflatten(input.dims, n).2,
    ) by {
        lemma_offset_unflatten(input.dims, n);
        assert(out.at(0, n, 0) == input.flat()[n]);
    };
}

} // verus!
