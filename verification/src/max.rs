//! Validation for the axis-reduction maximum.
//!
//! The reduction itself compares elements with a caller-chosen partial
//! order (floating-point values in practice) and so lives outside the
//! verified library; the argument validation it performs is exact integer
//! logic and is verified here for its callers.

use crate::tensor::{lemma_size_zero, size_of_shape};
use vstd::prelude::*;

verus! {

/// Why a maximum along an axis cannot be taken.
#[derive(Debug, Clone, PartialEq, Eq)]
pub enum MaxError {
    /// The input array has no elements.
    EmptyInput,
    /// The reduced axis has extent zero.
    ZeroDimSize(usize),
    /// The axis index is out of bounds.
    InvalidAxis(usize),
}

/// The checks a maximum along `dim` makes, in order: the axis must exist,
/// its extent must be non-zero, and the array must hold elements.
pub open spec fn max_check_post(shape: Seq<usize>, dim: usize, r: Result<(), MaxError>) -> bool {
    if dim >= shape.len() {
        r == Err::<(), MaxError>(MaxError::InvalidAxis(dim))
    } else if shape[dim as int] == 0 {
        r == Err::<(), MaxError>(MaxError::ZeroDimSize(dim))
    } else if size_of_shape(shape) == 0 {
        r == Err::<(), MaxError>(MaxError::EmptyInput)
    } else {
        r is Ok
    }
}

/// Validate the arguments of a maximum along `dim` over an array with the
/// given shape.
pub fn validate_max_axis(shape: &Vec<usize>, dim: usize) -> (r: Result<(), MaxError>)
    ensures
        max_check_post(shape@, dim, r),
{
    let ndim = shape.len();
    if dim >= ndim {
        return Err(MaxError::InvalidAxis(dim));
    }
    if shape[dim] == 0 {
        return Err(MaxError::ZeroDimSize(dim));
    }
    if crate::tensor::has_zero_extent(shape) {
        return Err(MaxError::EmptyInput);
    }
    proof {
        lemma_size_zero(shape@);
    }
    Ok(())
}

} // verus!
