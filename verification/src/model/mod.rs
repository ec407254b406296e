//! Networks made of layers.

use crate::arithmetic::{total, Operation};
use crate::layer::{outcome_of, LayerError};
use crate::model::sequential::{pipeline_outcome, SequentialModel};
use crate::tensor::Tensor;
use vstd::prelude::*;

pub mod sequential;

verus! {

/// A network of one of the kinds that the engine has.
pub enum Model {
    Sequential(SequentialModel),
}

impl Model {
    /// A forward pass through the network.
    pub fn predict<F: Fn(Operation) -> u32>(&self, input: &Tensor, eval: &F) -> (r: Result<Tensor, LayerError>)
        requires
            total(eval),
        ensures
            match *self {
                Model::Sequential(sequential) => pipeline_outcome(
                    sequential.layers(),
                    eval,
                    input@,
                    outcome_of(r),
                ),
            },
    {
        match &self {
            Model::Sequential(sequential) => sequential.predict(input, eval),
        }
    }

    /// A forward pass through the network.
    pub fn forward<F: Fn(Operation) -> u32>(&self, input: &Tensor, eval: &F) -> (r: Result<Tensor, LayerError>)
        requires
            total(eval),
        ensures
            match *self {
                Model::Sequential(sequential) => pipeline_outcome(
                    sequential.layers(),
                    eval,
                    input@,
                    outcome_of(r),
                ),
            },
    {
        match &self {
            Model::Sequential(sequential) => sequential.predict(input, eval),
        }
    }
}

} // verus!
