//! A small inference engine for feed-forward and convolutional networks.
//!
//! A tensor holds 32-bit scalars by their bit patterns. The engine decides
//! shapes, windows, orderings and the sequence of scalar operations; the
//! scalar operations themselves are carried out by an arithmetic function
//! that the caller hands to every forward pass.

pub mod activation;
pub mod arithmetic;
pub mod layer;
pub mod model;
pub mod scalar;
pub mod tensor;
