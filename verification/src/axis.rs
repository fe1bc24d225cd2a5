//! Resolution of signed axis selectors.
//!
//! An axis selector is a signed integer naming one axis of an array of a
//! given rank. Non-negative selectors are absolute positions; negative
//! selectors count from the end (`-1` is the last axis).

use vstd::prelude::*;

verus! {

/// The axis named by the selector `dim` in an array of rank `ndim`:
/// `dim` itself when `0 <= dim < ndim`, `ndim + dim` when
/// `-ndim <= dim < 0`, and nothing otherwise.
pub open spec fn resolved_axis(dim: int, ndim: int) -> Option<int> {
    if 0 <= dim {
        if dim < ndim {
            Some(dim)
        } else {
            None
        }
    } else {
        if ndim + dim >= 0 {
            Some(ndim + dim)
        } else {
            None
        }
    }
}

/// Resolve a signed axis selector against a rank, returning the in-range
/// unsigned axis or `None` when the selector does not name an axis.
pub fn resolve_axis(dim: isize, ndim: usize) -> (r: Option<usize>)
    ensures
        match r {
            Some(a) => resolved_axis(dim as int, ndim as int) == Some(a as int),
            None => resolved_axis(dim as int, ndim as int) is None,
        },
{
    if dim >= 0 {
        let d = dim as usize;
        if d < ndim {
            Some(d)
        } else {
            None
        }
    } else {
        let resolved: i128 = ndim as i128 + dim as i128;
        if resolved >= 0 {
            Some(resolved as usize)
        } else {
            None
        }
    }
}

} // verus!
