//! The gather engine.
//!
//! `gather(input, dim, index)` produces a fresh tensor shaped like `index`:
//! for every coordinate `c` of the index array, the output holds the input
//! element at `c` with its component along the resolved axis replaced by
//! the index value found at `c`. Validation runs before any element moves:
//! ranks must agree, the index array must fit inside the input along every
//! non-gathered axis, and every index value must name a position along the
//! gathered axis. The first failure, in row-major traversal order, is
//! reported and no output is produced.

use crate::axis::{resolve_axis, resolved_axis};
use crate::coords::{advance_from, copy_coord, lemma_flat_index_zero, zero_coord};
use crate::tensor::{
    flat_index, in_bounds, lemma_flat_index_bound, lemma_flat_index_injective, lemma_size_zero,
    size_of_shape, Tensor,
};
use vstd::prelude::*;

verus! {

/// Why a gather failed. Coordinates in the payloads locate the offending
/// index value inside the index array.
#[derive(Debug, Clone, PartialEq, Eq)]
pub enum GatherError {
    /// Input and index arrays have different ranks.
    DimensionMismatch { input_ndim: usize, index_ndim: usize },
    /// The axis selector names no axis of the input array.
    InvalidDimension { dim: isize, ndim: usize },
    /// Along a non-gathered axis, the index array is larger than the input.
    ShapeMismatch { axis: usize, input_size: usize, index_size: usize },
    /// An index value is at or past the extent of the gathered axis.
    IndexOutOfBounds { coords: Vec<usize>, index_value: i128, dim: usize, dim_size: usize },
    /// An index value does not fit in a machine index.
    IndexCastError { coords: Vec<usize>, index_value: i128 },
    /// An index value is negative.
    NegativeIndex { coords: Vec<usize>, index_value: i128 },
    /// Reserved for engine invariant violations; never produced by a
    /// successful validation pass.
    InternalShapeError(String),
}

/// An index value usable against an axis of extent `dim_size`:
/// non-negative, representable as a machine index, and within the extent.
pub open spec fn index_ok(v: i128, dim_size: usize) -> bool {
    0 <= v && v <= usize::MAX && v < dim_size
}

/// `j` is the first row-major position of the index data whose value is
/// rejected against an axis of extent `dim_size`.
pub open spec fn first_bad_index(data: Seq<i128>, dim_size: usize, j: int) -> bool {
    &&& 0 <= j < data.len()
    &&& !index_ok(data[j], dim_size)
    &&& forall|i: int| 0 <= i < j ==> index_ok(data[i], dim_size)
}

/// The error that rejects index value `v`, found at flat position `j` of
/// an index array with shape `shape`, against the gathered axis `axis` of
/// extent `dim_size`: negativity is reported first, then failure to fit in
/// a machine index, then being out of range.
pub open spec fn elem_error(
    e: GatherError,
    shape: Seq<usize>,
    v: i128,
    j: int,
    axis: usize,
    dim_size: usize,
) -> bool {
    match e {
        GatherError::NegativeIndex { coords, index_value } => {
            &&& v < 0
            &&& index_value == v
            &&& in_bounds(shape, coords@)
            &&& flat_index(shape, coords@) == j
        },
        GatherError::IndexCastError { coords, index_value } => {
            &&& v >= 0
            &&& v > usize::MAX
            &&& index_value == v
            &&& in_bounds(shape, coords@)
            &&& flat_index(shape, coords@) == j
        },
        GatherError::IndexOutOfBounds { coords, index_value, dim, dim_size: reported } => {
            &&& 0 <= v <= usize::MAX
            &&& v >= dim_size
            &&& index_value == v
            &&& dim == axis
            &&& reported == dim_size
            &&& in_bounds(shape, coords@)
            &&& flat_index(shape, coords@) == j
        },
        _ => false,
    }
}

/// The element of `input` that gather reads for index-array coordinate
/// `c`: the input element at `c` with its component along `axis` replaced
/// by the index value found at `c`.
pub open spec fn gathered_at<T>(
    input: Tensor<T>,
    axis: usize,
    index: Tensor<i128>,
    c: Seq<usize>,
) -> T {
    input.at(c.update(axis as int, index.at(c) as usize))
}

/// Everything `gather` promises: which validation failure is reported for
/// which inputs, in the order the checks run, and the exact contents of
/// the output on success.
pub open spec fn gather_post<T>(
    input: Tensor<T>,
    dim: isize,
    index: Tensor<i128>,
    r: Result<Tensor<T>, GatherError>,
) -> bool {
    let ndim = input.shape@.len() as int;
    if index.shape@.len() != input.shape@.len() {
        r matches Err(GatherError::DimensionMismatch { input_ndim, index_ndim })
            && input_ndim == input.shape@.len() && index_ndim == index.shape@.len()
    } else if ndim == 0 {
        scalar_gather_post(input, index, r)
    } else if resolved_axis(dim as int, ndim) is None {
        r matches Err(GatherError::InvalidDimension { dim: d, ndim: n }) && d == dim && n
            == input.shape@.len()
    } else {
        let axis = resolved_axis(dim as int, ndim)->Some_0 as usize;
        let dim_size = input.shape@[axis as int];
        if exists|k: int| 0 <= k < ndim && k != axis && input.shape@[k] < index.shape@[k] {
            exists|k: int|
                {
                    &&& 0 <= k < ndim && k != axis
                    &&& #[trigger] input.shape@[k] < index.shape@[k]
                    &&& forall|k2: int|
                        0 <= k2 < k && k2 != axis ==> #[trigger] input.shape@[k2]
                            >= index.shape@[k2]
                    &&& r matches Err(GatherError::ShapeMismatch {
                        axis: a,
                        input_size,
                        index_size,
                    }) && a == k && input_size == input.shape@[k] && index_size == index.shape@[k]
                }
        } else if dim_size == 0 && index.data@.len() > 0 {
            r matches Err(GatherError::IndexOutOfBounds { coords, index_value, dim: d, dim_size: z })
                && in_bounds(index.shape@, coords@) && flat_index(index.shape@, coords@) == 0
                && index_value == index.data@[0] && d == axis && z == 0
        } else if exists|j: int| 0 <= j < index.data@.len() && !index_ok(index.data@[j], dim_size) {
            exists|j: int|
                #[trigger] first_bad_index(index.data@, dim_size, j) && (r matches Err(e)
                    && elem_error(e, index.shape@, index.data@[j], j, axis, dim_size))
        } else {
            r matches Ok(out) && gather_ok(input, axis, index, out)
        }
    }
}

/// The successful outcome for arrays of rank at least one: the output is
/// shaped like the index array and holds, at every coordinate of that
/// shape, the gathered input element.
pub open spec fn gather_ok<T>(
    input: Tensor<T>,
    axis: usize,
    index: Tensor<i128>,
    out: Tensor<T>,
) -> bool {
    &&& out.wf()
    &&& out.shape@ == index.shape@
    &&& forall|c: Seq<usize>|
        in_bounds(index.shape@, c) ==> #[trigger] out.at(c) == gathered_at(input, axis, index, c)
}

/// The rank-0 outcome: both arrays are scalars, the sole index value must
/// name position zero of a one-element axis, and the output is the input
/// scalar.
pub open spec fn scalar_gather_post<T>(
    input: Tensor<T>,
    index: Tensor<i128>,
    r: Result<Tensor<T>, GatherError>,
) -> bool {
    let v = index.data@[0];
    if v < 0 {
        r matches Err(GatherError::NegativeIndex { coords, index_value }) && coords@.len() == 0
            && index_value == v
    } else if v > usize::MAX {
        r matches Err(GatherError::IndexCastError { coords, index_value }) && coords@.len() == 0
            && index_value == v
    } else if v != 0 {
        r matches Err(GatherError::IndexOutOfBounds { coords, index_value, dim, dim_size })
            && coords@.len() == 0 && index_value == v && dim == 0 && dim_size == 1
    } else {
        r matches Ok(out) && out.shape@.len() == 0 && out.data@.len() == 1 && out.data@[0]
            == input.data@[0]
    }
}

/// Gather values from `input` along the axis named by `dim`, at the
/// positions held in `index`. On success the result is a fresh tensor
/// shaped exactly like `index`; on any failure no output is produced and
/// the arguments are untouched.
pub fn gather<T: Copy>(input: &Tensor<T>, dim: isize, index: &Tensor<i128>) -> (r: Result<
    Tensor<T>,
    GatherError,
>)
    requires
        input.wf(),
        index.wf(),
    ensures
        gather_post(*input, dim, *index, r),
{
    let input_ndim = input.shape.len();
    let index_ndim = index.shape.len();
    if input_ndim != index_ndim {
        return Err(GatherError::DimensionMismatch { input_ndim, index_ndim });
    }
    if input_ndim == 0 {
        let v = index.data[0];
        if v < 0 {
            return Err(GatherError::NegativeIndex { coords: Vec::new(), index_value: v });
        }
        if v > usize::MAX as i128 {
            return Err(GatherError::IndexCastError { coords: Vec::new(), index_value: v });
        }
        let vu = v as usize;
        if vu != 0 {
            return Err(
                GatherError::IndexOutOfBounds {
                    coords: Vec::new(),
                    index_value: v,
                    dim: 0,
                    dim_size: 1,
                },
            );
        }
        let mut data: Vec<T> = Vec::new();
        data.push(input.data[0]);
        return Ok(Tensor { shape: Vec::new(), data });
    }
    let axis = match resolve_axis(dim, input_ndim) {
        Some(a) => a,
        None => {
            return Err(GatherError::InvalidDimension { dim, ndim: input_ndim });
        },
    };
    let mut k: usize = 0;
    while k < input_ndim
        invariant
            input.wf(),
            index.wf(),
            k <= input_ndim,
            input_ndim == input.shape@.len(),
            input_ndim == index.shape@.len(),
            input_ndim > 0,
            axis < input_ndim,
            resolved_axis(dim as int, input_ndim as int) == Some(axis as int),
            forall|k2: int|
                0 <= k2 < k && k2 != axis ==> #[trigger] input.shape@[k2] >= index.shape@[k2],
        decreases input_ndim - k,
    {
        if k != axis && input.shape[k] < index.shape[k] {
            return Err(
                GatherError::ShapeMismatch {
                    axis: k,
                    input_size: input.shape[k],
                    index_size: index.shape[k],
                },
            );
        }
        k = k + 1;
    }
    let dim_size = input.shape[axis];
    let total = index.data.len();
    if dim_size == 0 && total > 0 {
        let coords = zero_coord(index_ndim);
        proof {
            lemma_size_zero(index.shape@);
            lemma_flat_index_zero(index.shape@, coords@);
        }
        return Err(
            GatherError::IndexOutOfBounds {
                coords,
                index_value: index.data[0],
                dim: axis,
                dim_size: 0,
            },
        );
    }
    let mut out_data: Vec<T> = Vec::new();
    let mut c = zero_coord(index_ndim);
    let mut i: usize = 0;
    proof {
        if total > 0 {
            lemma_size_zero(index.shape@);
            lemma_flat_index_zero(index.shape@, c@);
        }
    }
    while i < total
        invariant
            input.wf(),
            index.wf(),
            total == index.data@.len(),
            input_ndim == input.shape@.len(),
            input_ndim == index.shape@.len(),
            input_ndim > 0,
            axis < input_ndim,
            resolved_axis(dim as int, input_ndim as int) == Some(axis as int),
            forall|k2: int|
                0 <= k2 < input_ndim && k2 != axis ==> #[trigger] input.shape@[k2]
                    >= index.shape@[k2],
            dim_size == input.shape@[axis as int],
            total > 0 ==> dim_size > 0,
            i <= total,
            out_data@.len() == i,
            c@.len() == index.shape@.len(),
            i < total ==> in_bounds(index.shape@, c@) && flat_index(index.shape@, c@) == i,
            forall|j: int| 0 <= j < i ==> index_ok(#[trigger] index.data@[j], dim_size),
            forall|d: Seq<usize>|
                in_bounds(index.shape@, d) && flat_index(index.shape@, d) < i
                    ==> #[trigger] out_data@[flat_index(index.shape@, d) as int] == gathered_at(
                    *input,
                    axis,
                    *index,
                    d,
                ),
        decreases total - i,
    {
        let v = index.data[i];
        proof {
            assert(index.at(c@) == v);
        }
        if v < 0 {
            proof {
                assert(first_bad_index(index.data@, dim_size, i as int));
            }
            return Err(GatherError::NegativeIndex { coords: c, index_value: v });
        }
        if v > usize::MAX as i128 {
            proof {
                assert(first_bad_index(index.data@, dim_size, i as int));
            }
            return Err(GatherError::IndexCastError { coords: c, index_value: v });
        }
        let vu = v as usize;
        if vu >= dim_size {
            proof {
                assert(first_bad_index(index.data@, dim_size, i as int));
            }
            return Err(
                GatherError::IndexOutOfBounds { coords: c, index_value: v, dim: axis, dim_size },
            );
        }
        let mut ic = copy_coord(&c);
        ic.set(axis, vu);
        proof {
            assert(in_bounds(input.shape@, ic@)) by {
                assert forall|k2: int| 0 <= k2 < ic@.len() implies ic@[k2] < input.shape@[k2] by {
                    if k2 != axis {
                        assert(ic@[k2] == c@[k2]);
                        assert(c@[k2] < index.shape@[k2]);
                        assert(input.shape@[k2] >= index.shape@[k2]);
                    }
                }
            }
        }
        let val = *input.get(&ic);
        out_data.push(val);
        proof {
            assert(ic@ =~= c@.update(axis as int, vu));
            assert(val == gathered_at(*input, axis, *index, c@));
            assert forall|d: Seq<usize>|
                in_bounds(index.shape@, d) && flat_index(index.shape@, d)
                    < i + 1 implies #[trigger] out_data@[flat_index(index.shape@, d) as int]
                == gathered_at(*input, axis, *index, d) by {
                if flat_index(index.shape@, d) == i {
                    lemma_flat_index_injective(index.shape@, d, c@);
                }
            }
        }
        i = i + 1;
        if i < total {
            let ghost cprev = c@;
            let wrapped = advance_from(&index.shape, &mut c, 0);
            proof {
                assert(index.shape@.skip(0) =~= index.shape@);
                assert(cprev.skip(0) =~= cprev);
                assert(c@.skip(0) =~= c@);
                if wrapped {
                    lemma_flat_index_bound(index.shape@, cprev);
                    assert(flat_index(index.shape@, cprev) == size_of_shape(index.shape@) - 1);
                    assert(false);
                }
            }
        }
    }
    let out_shape = copy_coord(&index.shape);
    let out = Tensor { shape: out_shape, data: out_data };
    proof {
        assert forall|d: Seq<usize>| in_bounds(index.shape@, d) implies #[trigger] out.at(d)
            == gathered_at(*input, axis, *index, d) by {
            lemma_flat_index_bound(index.shape@, d);
            assert(out_data@[flat_index(index.shape@, d) as int] == gathered_at(
                *input,
                axis,
                *index,
                d,
            ));
        }
        assert(gather_ok(*input, axis, *index, out));
    }
    Ok(out)
}

} // verus!
