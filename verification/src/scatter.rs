//! The scatter engine.
//!
//! `scatter(target, dim, index, source)` writes, for every coordinate `c`
//! of the index array, the source element at `c` into the target at `c`
//! with its component along the resolved axis replaced by the index value
//! found at `c`. The index and source arrays must have identical shapes;
//! validation otherwise mirrors gather's. Writes happen in place, one
//! coordinate at a time in row-major order, and when two coordinates name
//! the same target position the later one wins. On a per-element failure
//! the traversal stops at the first bad index value and earlier writes are
//! kept: scatter is deliberately not atomic, matching the in-place
//! semantics it models; callers that need atomicity must validate the
//! index array up front or scatter into a scratch copy.

use crate::axis::{resolve_axis, resolved_axis};
use crate::coords::{
    advance_from, copy_coord, lemma_flat_index_zero, shapes_equal, zero_coord,
};
use crate::gather::{first_bad_index, index_ok};
use crate::tensor::{
    coord_of, flat_index, in_bounds, lemma_coord_of_flat, lemma_flat_index_bound, lemma_size_zero,
    size_of_shape, Tensor,
};
use vstd::prelude::*;

verus! {

/// Why a scatter failed. Coordinates in the payloads locate the offending
/// index value inside the index array.
#[derive(Debug, Clone, PartialEq, Eq)]
pub enum ScatterError {
    /// Target, index and source arrays do not all have the same rank.
    DimensionMismatch { target_ndim: usize, index_ndim: usize, source_ndim: usize },
    /// The axis selector names no axis of the target array.
    InvalidDimension { dim: isize, ndim: usize },
    /// Index and source arrays do not have identical shapes.
    IndexSourceShapeMismatch { index_shape: Vec<usize>, source_shape: Vec<usize> },
    /// Along a non-scattered axis, the index array is larger than the target.
    TargetTooSmall { axis: usize, target_size: usize, index_size: usize },
    /// An index value is at or past the extent of the scattered axis.
    IndexOutOfBounds { coords: Vec<usize>, index_value: i128, dim: usize, dim_size: usize },
    /// An index value does not fit in a machine index.
    IndexCastError { coords: Vec<usize>, index_value: i128 },
    /// An index value is negative.
    NegativeIndex { coords: Vec<usize>, index_value: i128 },
    /// Reserved for engine invariant violations; never produced by a
    /// successful validation pass.
    InternalError(String),
}

/// The error that rejects index value `v`, found at flat position `j` of
/// an index array with shape `shape`, against the scattered axis `axis` of
/// extent `dim_size`: negativity is reported first, then failure to fit in
/// a machine index, then being out of range.
pub open spec fn scatter_elem_error(
    e: ScatterError,
    shape: Seq<usize>,
    v: i128,
    j: int,
    axis: usize,
    dim_size: usize,
) -> bool {
    match e {
        ScatterError::NegativeIndex { coords, index_value } => {
            &&& v < 0
            &&& index_value == v
            &&& in_bounds(shape, coords@)
            &&& flat_index(shape, coords@) == j
        },
        ScatterError::IndexCastError { coords, index_value } => {
            &&& v >= 0
            &&& v > usize::MAX
            &&& index_value == v
            &&& in_bounds(shape, coords@)
            &&& flat_index(shape, coords@) == j
        },
        ScatterError::IndexOutOfBounds { coords, index_value, dim, dim_size: reported } => {
            &&& 0 <= v <= usize::MAX
            &&& v >= dim_size
            &&& index_value == v
            &&& dim == axis
            &&& reported == dim_size
            &&& in_bounds(shape, coords@)
            &&& flat_index(shape, coords@) == j
        },
        _ => false,
    }
}

/// The target data after scattering the first `upto` elements of the
/// source, in row-major order of the index array: each step writes the
/// source element at index-coordinate `c` to the target position `c` with
/// its `axis` component replaced by the index value at `c`. Later writes
/// overwrite earlier ones.
pub open spec fn scatter_data<T>(
    target_shape: Seq<usize>,
    data0: Seq<T>,
    axis: usize,
    index: Tensor<i128>,
    src: Seq<T>,
    upto: int,
) -> Seq<T>
    decreases upto,
{
    if upto <= 0 {
        data0
    } else {
        let prev = scatter_data(target_shape, data0, axis, index, src, upto - 1);
        let c = coord_of(index.shape@, upto - 1);
        let t = c.update(axis as int, index.data@[upto - 1] as usize);
        prev.update(flat_index(target_shape, t) as int, src[upto - 1])
    }
}

/// Everything `scatter` promises: which validation failure is reported for
/// which inputs, in the order the checks run; the exact final target data
/// on success; and the exact partially-written target data when a bad
/// index value stops the traversal.
pub open spec fn scatter_post<T>(
    target0: Tensor<T>,
    dim: isize,
    index: Tensor<i128>,
    source: Tensor<T>,
    target1: Tensor<T>,
    r: Result<(), ScatterError>,
) -> bool {
    let ndim = target0.shape@.len() as int;
    &&& target1.shape@ == target0.shape@
    &&& if !(index.shape@.len() == target0.shape@.len() && source.shape@.len()
        == target0.shape@.len()) {
        r matches Err(ScatterError::DimensionMismatch { target_ndim, index_ndim, source_ndim })
            && target_ndim == target0.shape@.len() && index_ndim == index.shape@.len()
            && source_ndim == source.shape@.len() && target1.data@ == target0.data@
    } else if ndim == 0 {
        scalar_scatter_post(target0, index, source, target1, r)
    } else if resolved_axis(dim as int, ndim) is None {
        r matches Err(ScatterError::InvalidDimension { dim: d, ndim: n }) && d == dim && n
            == target0.shape@.len() && target1.data@ == target0.data@
    } else {
        let axis = resolved_axis(dim as int, ndim)->Some_0 as usize;
        let dim_size = target0.shape@[axis as int];
        if index.shape@ != source.shape@ {
            r matches Err(ScatterError::IndexSourceShapeMismatch { index_shape, source_shape })
                && index_shape@ == index.shape@ && source_shape@ == source.shape@ && target1.data@
                == target0.data@
        } else if exists|k: int| 0 <= k < ndim && k != axis && target0.shape@[k]
            < index.shape@[k] {
            exists|k: int|
                {
                    &&& 0 <= k < ndim && k != axis
                    &&& #[trigger] target0.shape@[k] < index.shape@[k]
                    &&& forall|k2: int|
                        0 <= k2 < k && k2 != axis ==> #[trigger] target0.shape@[k2]
                            >= index.shape@[k2]
                    &&& r matches Err(ScatterError::TargetTooSmall {
                        axis: a,
                        target_size,
                        index_size,
                    }) && a == k && target_size == target0.shape@[k] && index_size
                        == index.shape@[k]
                    &&& target1.data@ == target0.data@
                }
        } else if dim_size == 0 && index.data@.len() > 0 {
            &&& target1.data@ == target0.data@
            &&& if index.data@[0] < 0 {
                r matches Err(ScatterError::NegativeIndex { coords, index_value }) && in_bounds(
                    index.shape@,
                    coords@,
                ) && flat_index(index.shape@, coords@) == 0 && index_value == index.data@[0]
            } else {
                r matches Err(ScatterError::IndexOutOfBounds {
                    coords,
                    index_value,
                    dim: d,
                    dim_size: z,
                }) && in_bounds(index.shape@, coords@) && flat_index(index.shape@, coords@) == 0
                    && index_value == index.data@[0] && d == axis && z == 0
            }
        } else if exists|j: int| 0 <= j < index.data@.len() && !index_ok(
            index.data@[j],
            dim_size,
        ) {
            exists|j: int|
                #[trigger] first_bad_index(index.data@, dim_size, j) && (r matches Err(e)
                    && scatter_elem_error(e, index.shape@, index.data@[j], j, axis, dim_size))
                    && target1.data@ == scatter_data(
                    target0.shape@,
                    target0.data@,
                    axis,
                    index,
                    source.data@,
                    j,
                )
        } else {
            r is Ok && target1.data@ == scatter_data(
                target0.shape@,
                target0.data@,
                axis,
                index,
                source.data@,
                index.data@.len() as int,
            )
        }
    }
}

/// The rank-0 outcome: all three arrays are scalars, the sole index value
/// must name position zero of a one-element axis, and on success the
/// source scalar replaces the target scalar.
pub open spec fn scalar_scatter_post<T>(
    target0: Tensor<T>,
    index: Tensor<i128>,
    source: Tensor<T>,
    target1: Tensor<T>,
    r: Result<(), ScatterError>,
) -> bool {
    let v = index.data@[0];
    if v < 0 {
        r matches Err(ScatterError::NegativeIndex { coords, index_value }) && coords@.len() == 0
            && index_value == v && target1.data@ == target0.data@
    } else if v > usize::MAX {
        r matches Err(ScatterError::IndexCastError { coords, index_value }) && coords@.len() == 0
            && index_value == v && target1.data@ == target0.data@
    } else if v != 0 {
        r matches Err(ScatterError::IndexOutOfBounds { coords, index_value, dim, dim_size })
            && coords@.len() == 0 && index_value == v && dim == 0 && dim_size == 1
            && target1.data@ == target0.data@
    } else {
        r is Ok && target1.data@ == target0.data@.update(0, source.data@[0])
    }
}

/// Scatter the elements of `source` into `target` along the axis named by
/// `dim`, at the positions held in `index`. Writes happen in place in
/// row-major order of the index array; on the first bad index value the
/// traversal stops, the error is returned, and earlier writes are kept.
pub fn scatter<T: Copy>(
    target: &mut Tensor<T>,
    dim: isize,
    index: &Tensor<i128>,
    source: &Tensor<T>,
) -> (r: Result<(), ScatterError>)
    requires
        old(target).wf(),
        index.wf(),
        source.wf(),
    ensures
        final(target).wf(),
        scatter_post(*old(target), dim, *index, *source, *final(target), r),
{
    let target_ndim = target.shape.len();
    let index_ndim = index.shape.len();
    let source_ndim = source.shape.len();
    if !(target_ndim == index_ndim && index_ndim == source_ndim) {
        return Err(
            ScatterError::DimensionMismatch { target_ndim, index_ndim, source_ndim },
        );
    }
    if target_ndim == 0 {
        let v = index.data[0];
        if v < 0 {
            return Err(ScatterError::NegativeIndex { coords: Vec::new(), index_value: v });
        }
        if v > usize::MAX as i128 {
            return Err(ScatterError::IndexCastError { coords: Vec::new(), index_value: v });
        }
        let vu = v as usize;
        if vu != 0 {
            return Err(
                ScatterError::IndexOutOfBounds {
                    coords: Vec::new(),
                    index_value: v,
                    dim: 0,
                    dim_size: 1,
                },
            );
        }
        let sv = source.data[0];
        target.data.set(0, sv);
        return Ok(());
    }
    let axis = match resolve_axis(dim, target_ndim) {
        Some(a) => a,
        None => {
            return Err(ScatterError::InvalidDimension { dim, ndim: target_ndim });
        },
    };
    if !shapes_equal(&index.shape, &source.shape) {
        return Err(
            ScatterError::IndexSourceShapeMismatch {
                index_shape: copy_coord(&index.shape),
                source_shape: copy_coord(&source.shape),
            },
        );
    }
    let mut k: usize = 0;
    while k < target_ndim
        invariant
            old(target).wf(),
            target == old(target),
            index.wf(),
            k <= target_ndim,
            target_ndim == target.shape@.len(),
            target_ndim == index.shape@.len(),
            target_ndim > 0,
            axis < target_ndim,
            resolved_axis(dim as int, target_ndim as int) == Some(axis as int),
            index.shape@ == source.shape@,
            forall|k2: int|
                0 <= k2 < k && k2 != axis ==> #[trigger] target.shape@[k2] >= index.shape@[k2],
        decreases target_ndim - k,
    {
        if k != axis && target.shape[k] < index.shape[k] {
            return Err(
                ScatterError::TargetTooSmall {
                    axis: k,
                    target_size: target.shape[k],
                    index_size: index.shape[k],
                },
            );
        }
        k = k + 1;
    }
    let dim_size = target.shape[axis];
    let total = index.data.len();
    if dim_size == 0 && total > 0 {
        let coords = zero_coord(index_ndim);
        proof {
            lemma_size_zero(index.shape@);
            lemma_flat_index_zero(index.shape@, coords@);
        }
        let v = index.data[0];
        if v < 0 {
            return Err(ScatterError::NegativeIndex { coords, index_value: v });
        }
        return Err(
            ScatterError::IndexOutOfBounds { coords, index_value: v, dim: axis, dim_size: 0 },
        );
    }
    let mut c = zero_coord(index_ndim);
    let mut i: usize = 0;
    proof {
        if total > 0 {
            lemma_size_zero(index.shape@);
            lemma_flat_index_zero(index.shape@, c@);
        }
    }
    while i < total
        invariant
            old(target).wf(),
            target.wf(),
            index.wf(),
            source.wf(),
            total == index.data@.len(),
            total == source.data@.len(),
            target_ndim == target.shape@.len(),
            target_ndim == index.shape@.len(),
            target_ndim > 0,
            axis < target_ndim,
            resolved_axis(dim as int, target_ndim as int) == Some(axis as int),
            index.shape@ == source.shape@,
            forall|k2: int|
                0 <= k2 < target_ndim && k2 != axis ==> #[trigger] target.shape@[k2]
                    >= index.shape@[k2],
            dim_size == target.shape@[axis as int],
            total > 0 ==> dim_size > 0,
            i <= total,
            c@.len() == index.shape@.len(),
            i < total ==> in_bounds(index.shape@, c@) && flat_index(index.shape@, c@) == i,
            forall|j: int| 0 <= j < i ==> index_ok(#[trigger] index.data@[j], dim_size),
            target.shape@ == old(target).shape@,
            target.data@ == scatter_data(
                old(target).shape@,
                old(target).data@,
                axis,
                *index,
                source.data@,
                i as int,
            ),
        decreases total - i,
    {
        let v = index.data[i];
        if v < 0 {
            proof {
                assert(first_bad_index(index.data@, dim_size, i as int));
            }
            return Err(ScatterError::NegativeIndex { coords: c, index_value: v });
        }
        if v > usize::MAX as i128 {
            proof {
                assert(first_bad_index(index.data@, dim_size, i as int));
            }
            return Err(ScatterError::IndexCastError { coords: c, index_value: v });
        }
        let vu = v as usize;
        if vu >= dim_size {
            proof {
                assert(first_bad_index(index.data@, dim_size, i as int));
            }
            return Err(
                ScatterError::IndexOutOfBounds { coords: c, index_value: v, dim: axis, dim_size },
            );
        }
        let mut tc = copy_coord(&c);
        tc.set(axis, vu);
        proof {
            assert(in_bounds(target.shape@, tc@)) by {
                assert forall|k2: int| 0 <= k2 < tc@.len() implies tc@[k2] < target.shape@[k2] by {
                    if k2 != axis {
                        assert(tc@[k2] == c@[k2]);
                        assert(c@[k2] < index.shape@[k2]);
                        assert(target.shape@[k2] >= index.shape@[k2]);
                    }
                }
            }
        }
        let sv = source.data[i];
        let ghost data_prev = target.data@;
        proof {
            lemma_flat_index_bound(target.shape@, tc@);
        }
        target.set(&tc, sv);
        proof {
            lemma_coord_of_flat(index.shape@, c@);
            assert(coord_of(index.shape@, i as int) == c@);
            assert(tc@ =~= c@.update(axis as int, index.data@[i as int] as usize));
            assert(target.data@ == scatter_data(
                old(target).shape@,
                old(target).data@,
                axis,
                *index,
                source.data@,
                i as int + 1,
            ));
        }
        i = i + 1;
        if i < total {
            let ghost cprev = c@;
            let wrapped = advance_from(&index.shape, &mut c, 0);
            proof {
                assert(index.shape@.skip(0) =~= index.shape@);
                assert(cprev.skip(0) =~= cprev);
                assert(c@.skip(0) =~= c@);
                if wrapped {
                    lemma_flat_index_bound(index.shape@, cprev);
                    assert(flat_index(index.shape@, cprev) == size_of_shape(index.shape@) - 1);
                    assert(false);
                }
            }
        }
    }
    Ok(())
}

} // verus!
