//! Validation for the index-of-maximum reduction.
//!
//! As with the maximum itself, the comparison runs over a caller-chosen
//! partial order and stays outside the verified library; the argument
//! validation is verified here for its callers.

use crate::tensor::size_of_shape;
use vstd::prelude::*;

verus! {

/// Why an index-of-maximum cannot be taken.
#[derive(Debug, Clone, PartialEq, Eq)]
pub enum ArgmaxError {
    /// The input array is empty and no axis was named.
    EmptyInput,
    /// The reduced axis has extent zero.
    ZeroDimSize(usize),
    /// The axis index is out of bounds.
    InvalidAxis(usize),
}

/// The checks an index-of-maximum makes, in order. Without an axis the
/// array is reduced whole and must be non-empty; with an axis, the axis
/// must exist and have non-zero extent (an empty array with non-empty
/// lanes reduces to an empty result and is not an error).
pub open spec fn argmax_check_post(
    shape: Seq<usize>,
    dim: Option<usize>,
    r: Result<(), ArgmaxError>,
) -> bool {
    match dim {
        None => if size_of_shape(shape) == 0 {
            r == Err::<(), ArgmaxError>(ArgmaxError::EmptyInput)
        } else {
            r is Ok
        },
        Some(axis) => if axis >= shape.len() {
            r == Err::<(), ArgmaxError>(ArgmaxError::InvalidAxis(axis))
        } else if shape[axis as int] == 0 {
            r == Err::<(), ArgmaxError>(ArgmaxError::ZeroDimSize(axis))
        } else {
            r is Ok
        },
    }
}

/// Validate the arguments of an index-of-maximum over an array with the
/// given shape, reduced whole (`dim` is `None`) or along one axis.
pub fn validate_argmax_axis(shape: &Vec<usize>, dim: Option<usize>) -> (r: Result<(), ArgmaxError>)
    ensures
        argmax_check_post(shape@, dim, r),
{
    match dim {
        None => {
            if crate::tensor::has_zero_extent(shape) {
                Err(ArgmaxError::EmptyInput)
            } else {
                Ok(())
            }
        },
        Some(axis) => {
            if axis >= shape.len() {
                Err(ArgmaxError::InvalidAxis(axis))
            } else if shape[axis] == 0 {
                Err(ArgmaxError::ZeroDimSize(axis))
            } else {
                Ok(())
            }
        },
    }
}

} // verus!
