//! The tensors of `candle_core`, as far as the library looks into them.

use candle_core::{Error, Tensor};
use vstd::prelude::*;

verus! {

/// A tensor of `candle_core`, opaque but for its shape.
#[verifier::external_type_specification]
#[verifier::external_body]
pub struct ExTensor(candle_core::Tensor);

/// The error type of `candle_core`, opaque.
#[verifier::external_type_specification]
#[verifier::external_body]
pub struct ExError(candle_core::Error);

/// The sizes of a tensor's axes, outermost first.
pub uninterp spec fn tensor_dims(tensor: Tensor) -> Seq<usize>;

/// Calls `candle_core::Tensor::dim` with an axis index.
///
/// Claimed of it: the result is the size of that axis, or an error exactly where
/// the tensor has no such axis. What the error says is left unsaid.
#[verifier::external_body]
pub(crate) fn tensor_dim(tensor: &Tensor, axis: usize) -> (size: Result<usize, Error>)
    ensures
        match size {
            Ok(n) => axis < tensor_dims(*tensor).len() && n == tensor_dims(*tensor)[axis as int],
            Err(_) => axis >= tensor_dims(*tensor).len(),
        },
{
    tensor.dim(axis)
}

} // verus!
