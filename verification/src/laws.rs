//! Laws relating gather and scatter.
//!
//! Each proof function here states a fact that holds of every result the
//! two engines can return, over the same postconditions that the engines
//! themselves are verified against.

use crate::axis::resolved_axis;
use crate::gather::{
    first_bad_index, gather_ok, gather_post, gathered_at, index_ok, GatherError,
};
use crate::scatter::{scatter_data, scatter_post, ScatterError};
use crate::tensor::{
    coord_of, flat_index, in_bounds, lemma_coord_of, lemma_flat_index_bound, size_of_shape, Tensor,
};
use vstd::prelude::*;

verus! {

/// Shape law: a successful gather returns an output shaped exactly like
/// the index array.
pub proof fn lemma_gather_shape_law<T>(
    input: Tensor<T>,
    dim: isize,
    index: Tensor<i128>,
    out: Tensor<T>,
)
    requires
        gather_post(input, dim, index, Ok(out)),
    ensures
        out.shape@ == index.shape@,
{
    if input.shape@.len() == index.shape@.len() && input.shape@.len() == 0 {
        assert(out.shape@ =~= index.shape@);
    }
}

/// Identity law: when every index value is one constant `kv`, a successful
/// gather reads, at every coordinate, the input element whose component
/// along the resolved axis is pinned to `kv`.
pub proof fn lemma_gather_identity_law<T>(
    input: Tensor<T>,
    dim: isize,
    index: Tensor<i128>,
    out: Tensor<T>,
    kv: i128,
    axis: usize,
)
    requires
        index.wf(),
        input.shape@.len() > 0,
        resolved_axis(dim as int, input.shape@.len() as int) == Some(axis as int),
        forall|j: int| 0 <= j < index.data@.len() ==> index.data@[j] == kv,
        gather_post(input, dim, index, Ok(out)),
    ensures
        forall|c: Seq<usize>|
            in_bounds(index.shape@, c) ==> #[trigger] out.at(c) == input.at(
                c.update(axis as int, kv as usize),
            ),
{
    assert(gather_ok(input, axis, index, out));
    assert forall|c: Seq<usize>| in_bounds(index.shape@, c) implies #[trigger] out.at(c)
        == input.at(c.update(axis as int, kv as usize)) by {
        lemma_flat_index_bound(index.shape@, c);
        assert(index.at(c) == kv);
        assert(out.at(c) == gathered_at(input, axis, index, c));
    }
}

/// The inductive heart of the round-trip law: scattering back, one element
/// at a time, values that gather read from the target writes each element
/// over itself, leaving the data untouched.
proof fn lemma_scatter_data_roundtrip<T>(
    target0: Tensor<T>,
    axis: usize,
    index: Tensor<i128>,
    mid: Tensor<T>,
    upto: int,
)
    requires
        target0.wf(),
        index.wf(),
        index.shape@.len() == target0.shape@.len(),
        axis < target0.shape@.len(),
        forall|k: int|
            0 <= k < target0.shape@.len() && k != axis ==> #[trigger] target0.shape@[k]
                >= index.shape@[k],
        forall|j: int|
            0 <= j < index.data@.len() ==> index_ok(
                #[trigger] index.data@[j],
                target0.shape@[axis as int],
            ),
        gather_ok(target0, axis, index, mid),
        0 <= upto <= index.data@.len(),
    ensures
        scatter_data(target0.shape@, target0.data@, axis, index, mid.data@, upto)
            == target0.data@,
    decreases upto,
{
    if upto > 0 {
        lemma_scatter_data_roundtrip(target0, axis, index, mid, upto - 1);
        let j = upto - 1;
        lemma_coord_of(index.shape@, j);
        let c = coord_of(index.shape@, j);
        let t = c.update(axis as int, index.data@[j] as usize);
        assert(in_bounds(target0.shape@, t)) by {
            assert forall|k: int| 0 <= k < t.len() implies t[k] < target0.shape@[k] by {
                if k != axis {
                    assert(t[k] == c[k]);
                    assert(c[k] < index.shape@[k]);
                }
            }
        }
        lemma_flat_index_bound(target0.shape@, t);
        assert(index.at(c) == index.data@[j]);
        assert(mid.at(c) == gathered_at(target0, axis, index, c));
        assert(mid.at(c) == target0.data@[flat_index(target0.shape@, t) as int]);
        assert(mid.data@[j] == mid.at(c)) by {
            assert(mid.shape@ == index.shape@);
        }
        assert(target0.data@.update(
            flat_index(target0.shape@, t) as int,
            target0.data@[flat_index(target0.shape@, t) as int],
        ) =~= target0.data@);
    }
}

/// Round-trip law: scattering what gather just read from the target writes
/// every touched position back to its own value, so the target is left
/// exactly as it was — whether or not the index array repeats positions.
pub proof fn lemma_gather_scatter_roundtrip<T>(
    target0: Tensor<T>,
    dim: isize,
    index: Tensor<i128>,
    mid: Tensor<T>,
    target1: Tensor<T>,
)
    requires
        target0.wf(),
        index.wf(),
        gather_post(target0, dim, index, Ok(mid)),
        scatter_post(target0, dim, index, mid, target1, Ok(())),
    ensures
        target1.shape@ == target0.shape@,
        target1.data@ == target0.data@,
{
    let ndim = target0.shape@.len() as int;
    if index.shape@.len() != target0.shape@.len() {
        // gather would have failed; contradiction with Ok
    } else if ndim == 0 {
        assert(mid.data@[0] == target0.data@[0]);
        assert(target0.data@.len() == 1);
        assert(target0.data@.update(0, target0.data@[0]) =~= target0.data@);
    } else {
        let axis = resolved_axis(dim as int, ndim)->Some_0 as usize;
        assert(gather_ok(target0, axis, index, mid));
        assert(mid.shape@ == index.shape@);
        lemma_scatter_data_roundtrip(target0, axis, index, mid, index.data@.len() as int);
    }
}

/// Bounds law for gather: once the shape checks pass and the gathered axis
/// is non-empty, the first rejected index value decides the outcome — a
/// negative value fails with `NegativeIndex`, a value at or past the axis
/// extent (but within machine range) fails with `IndexOutOfBounds`, and in
/// either case no output is produced.
pub proof fn lemma_gather_bounds_law<T>(
    input: Tensor<T>,
    dim: isize,
    index: Tensor<i128>,
    r: Result<Tensor<T>, GatherError>,
    axis: usize,
    j: int,
)
    requires
        input.shape@.len() == index.shape@.len(),
        input.shape@.len() > 0,
        resolved_axis(dim as int, input.shape@.len() as int) == Some(axis as int),
        forall|k: int|
            0 <= k < input.shape@.len() && k != axis ==> #[trigger] input.shape@[k]
                >= index.shape@[k],
        input.shape@[axis as int] > 0,
        first_bad_index(index.data@, input.shape@[axis as int], j),
        gather_post(input, dim, index, r),
    ensures
        r is Err,
        index.data@[j] < 0 ==> (r matches Err(GatherError::NegativeIndex { coords, index_value })
            && flat_index(index.shape@, coords@) == j && index_value == index.data@[j]),
        0 <= index.data@[j] <= usize::MAX && index.data@[j] >= input.shape@[axis as int] ==> (
        r matches Err(GatherError::IndexOutOfBounds { coords, index_value, dim: d, dim_size })
            && flat_index(index.shape@, coords@) == j && index_value == index.data@[j] && d == axis
            && dim_size == input.shape@[axis as int]),
{
    let dim_size = input.shape@[axis as int];
    let j2 = choose|j2: int|
        #[trigger] first_bad_index(index.data@, dim_size, j2) && (r matches Err(e)
            && crate::gather::elem_error(e, index.shape@, index.data@[j2], j2, axis, dim_size));
    if j2 < j {
        assert(index_ok(index.data@[j2], dim_size));
        assert(false);
    } else if j < j2 {
        assert(index_ok(index.data@[j], dim_size));
        assert(false);
    }
}

/// Bounds law for scatter: identical to gather's — the first rejected
/// index value decides which error is reported.
pub proof fn lemma_scatter_bounds_law<T>(
    target0: Tensor<T>,
    dim: isize,
    index: Tensor<i128>,
    source: Tensor<T>,
    target1: Tensor<T>,
    r: Result<(), ScatterError>,
    axis: usize,
    j: int,
)
    requires
        index.shape@.len() == target0.shape@.len(),
        source.shape@.len() == target0.shape@.len(),
        target0.shape@.len() > 0,
        resolved_axis(dim as int, target0.shape@.len() as int) == Some(axis as int),
        index.shape@ == source.shape@,
        forall|k: int|
            0 <= k < target0.shape@.len() && k != axis ==> #[trigger] target0.shape@[k]
                >= index.shape@[k],
        target0.shape@[axis as int] > 0,
        first_bad_index(index.data@, target0.shape@[axis as int], j),
        scatter_post(target0, dim, index, source, target1, r),
    ensures
        r is Err,
        index.data@[j] < 0 ==> (r matches Err(ScatterError::NegativeIndex { coords, index_value })
            && flat_index(index.shape@, coords@) == j && index_value == index.data@[j]),
        0 <= index.data@[j] <= usize::MAX && index.data@[j] >= target0.shape@[axis as int] ==> (
        r matches Err(ScatterError::IndexOutOfBounds {
            coords,
            index_value,
            dim: d,
            dim_size,
        }) && flat_index(index.shape@, coords@) == j && index_value == index.data@[j] && d == axis
            && dim_size == target0.shape@[axis as int]),
{
    let dim_size = target0.shape@[axis as int];
    let j2 = choose|j2: int|
        #[trigger] first_bad_index(index.data@, dim_size, j2) && (r matches Err(e)
            && crate::scatter::scatter_elem_error(
            e,
            index.shape@,
            index.data@[j2],
            j2,
            axis,
            dim_size,
        )) && target1.data@ == scatter_data(
            target0.shape@,
            target0.data@,
            axis,
            index,
            source.data@,
            j2,
        );
    if j2 < j {
        assert(index_ok(index.data@[j2], dim_size));
        assert(false);
    } else if j < j2 {
        assert(index_ok(index.data@[j], dim_size));
        assert(false);
    }
}

/// Axis-resolution law, first half: the selector -1 names the last axis,
/// so any result of gathering along -1 also satisfies gather's contract
/// for the explicit selector rank - 1. Together with
/// [`lemma_gather_deterministic`] this says the two calls agree.
pub proof fn lemma_gather_axis_law<T>(
    input: Tensor<T>,
    index: Tensor<i128>,
    r: Result<Tensor<T>, GatherError>,
    dim2: isize,
)
    requires
        input.shape@.len() >= 1,
        dim2 == input.shape@.len() - 1,
        gather_post(input, -1isize, index, r),
    ensures
        gather_post(input, dim2, index, r),
{
    let ndim = input.shape@.len() as int;
    assert(resolved_axis(-1, ndim) == Some(ndim - 1));
    assert(resolved_axis(dim2 as int, ndim) == Some(ndim - 1));
}

/// Axis-resolution law, second half: a selector outside `[-rank, rank-1]`
/// is rejected with `InvalidDimension` before anything else is looked at.
pub proof fn lemma_gather_invalid_axis_law<T>(
    input: Tensor<T>,
    dim: isize,
    index: Tensor<i128>,
    r: Result<Tensor<T>, GatherError>,
)
    requires
        input.shape@.len() == index.shape@.len(),
        input.shape@.len() >= 1,
        dim >= input.shape@.len() || dim < -(input.shape@.len() as int),
        gather_post(input, dim, index, r),
    ensures
        r matches Err(GatherError::InvalidDimension { dim: d, ndim }) && d == dim && ndim
            == input.shape@.len(),
{
}

/// Gather's contract pins its outcome: two results that both satisfy it,
/// for the same arguments, agree — equal output shape and data on success,
/// and the same error with the same payload on failure.
pub proof fn lemma_gather_deterministic<T>(
    input: Tensor<T>,
    dim: isize,
    index: Tensor<i128>,
    r1: Result<Tensor<T>, GatherError>,
    r2: Result<Tensor<T>, GatherError>,
)
    requires
        input.wf(),
        index.wf(),
        gather_post(input, dim, index, r1),
        gather_post(input, dim, index, r2),
    ensures
        gather_outcome_eq(r1, r2),
{
    let ndim = input.shape@.len() as int;
    if index.shape@.len() != input.shape@.len() {
    } else if ndim == 0 {
        let v = index.data@[0];
        if v == 0 {
            let out1 = r1->Ok_0;
            let out2 = r2->Ok_0;
            assert(out1.shape@ =~= out2.shape@);
            assert(out1.data@ =~= out2.data@);
        } else {
            match (r1->Err_0, r2->Err_0) {
                (
                    GatherError::NegativeIndex { coords: c1, .. },
                    GatherError::NegativeIndex { coords: c2, .. },
                ) => {
                    assert(c1@ =~= c2@);
                },
                (
                    GatherError::IndexCastError { coords: c1, .. },
                    GatherError::IndexCastError { coords: c2, .. },
                ) => {
                    assert(c1@ =~= c2@);
                },
                (
                    GatherError::IndexOutOfBounds { coords: c1, .. },
                    GatherError::IndexOutOfBounds { coords: c2, .. },
                ) => {
                    assert(c1@ =~= c2@);
                },
                _ => {},
            }
        }
    } else if resolved_axis(dim as int, ndim) is None {
    } else {
        let axis = resolved_axis(dim as int, ndim)->Some_0 as usize;
        let dim_size = input.shape@[axis as int];
        if exists|k: int| 0 <= k < ndim && k != axis && input.shape@[k] < index.shape@[k] {
            let k1 = choose|k1: int|
                {
                    &&& 0 <= k1 < ndim && k1 != axis
                    &&& #[trigger] input.shape@[k1] < index.shape@[k1]
                    &&& forall|k2: int|
                        0 <= k2 < k1 && k2 != axis ==> #[trigger] input.shape@[k2]
                            >= index.shape@[k2]
                    &&& r1 matches Err(GatherError::ShapeMismatch { axis: a, input_size, index_size })
                        && a == k1 && input_size == input.shape@[k1] && index_size
                        == index.shape@[k1]
                };
            let k2 = choose|k2: int|
                {
                    &&& 0 <= k2 < ndim && k2 != axis
                    &&& #[trigger] input.shape@[k2] < index.shape@[k2]
                    &&& forall|k3: int|
                        0 <= k3 < k2 && k3 != axis ==> #[trigger] input.shape@[k3]
                            >= index.shape@[k3]
                    &&& r2 matches Err(GatherError::ShapeMismatch { axis: a, input_size, index_size })
                        && a == k2 && input_size == input.shape@[k2] && index_size
                        == index.shape@[k2]
                };
            assert(k1 == k2);
        } else if dim_size == 0 && index.data@.len() > 0 {
            let e1 = r1->Err_0;
            let e2 = r2->Err_0;
            match (e1, e2) {
                (
                    GatherError::IndexOutOfBounds { coords: c1, .. },
                    GatherError::IndexOutOfBounds { coords: c2, .. },
                ) => {
                    crate::tensor::lemma_flat_index_injective(index.shape@, c1@, c2@);
                },
                _ => {},
            }
        } else if exists|j: int| 0 <= j < index.data@.len() && !index_ok(
            index.data@[j],
            dim_size,
        ) {
            let j1 = choose|j1: int|
                #[trigger] first_bad_index(index.data@, dim_size, j1) && (r1 matches Err(e)
                    && crate::gather::elem_error(
                    e,
                    index.shape@,
                    index.data@[j1],
                    j1,
                    axis,
                    dim_size,
                ));
            let j2 = choose|j2: int|
                #[trigger] first_bad_index(index.data@, dim_size, j2) && (r2 matches Err(e)
                    && crate::gather::elem_error(
                    e,
                    index.shape@,
                    index.data@[j2],
                    j2,
                    axis,
                    dim_size,
                ));
            assert(j1 == j2) by {
                if j1 < j2 {
                    assert(index_ok(index.data@[j1], dim_size));
                } else if j2 < j1 {
                    assert(index_ok(index.data@[j2], dim_size));
                }
            }
            let e1 = r1->Err_0;
            let e2 = r2->Err_0;
            gather_elem_error_deterministic(e1, e2, index.shape@, index.data@[j1], j1, axis,
                dim_size);
        } else {
            let out1 = r1->Ok_0;
            let out2 = r2->Ok_0;
            assert(out1.shape@ == index.shape@ && out2.shape@ == index.shape@);
            assert(out1.data@.len() == size_of_shape(index.shape@));
            assert(out2.data@.len() == size_of_shape(index.shape@));
            assert forall|p: int| 0 <= p < out1.data@.len() implies out1.data@[p]
                == out2.data@[p] by {
                lemma_coord_of(index.shape@, p);
                let c = coord_of(index.shape@, p);
                assert(out1.at(c) == gathered_at(input, axis, index, c));
                assert(out2.at(c) == gathered_at(input, axis, index, c));
            }
            assert(out1.data@ =~= out2.data@);
        }
    }
}

/// Two per-element errors for the same offending value and position carry
/// the same variant and payload.
proof fn gather_elem_error_deterministic(
    e1: GatherError,
    e2: GatherError,
    shape: Seq<usize>,
    v: i128,
    j: int,
    axis: usize,
    dim_size: usize,
)
    requires
        crate::gather::elem_error(e1, shape, v, j, axis, dim_size),
        crate::gather::elem_error(e2, shape, v, j, axis, dim_size),
    ensures
        gather_err_eq(e1, e2),
{
    match (e1, e2) {
        (
            GatherError::NegativeIndex { coords: c1, .. },
            GatherError::NegativeIndex { coords: c2, .. },
        ) => {
            crate::tensor::lemma_flat_index_injective(shape, c1@, c2@);
        },
        (
            GatherError::IndexCastError { coords: c1, .. },
            GatherError::IndexCastError { coords: c2, .. },
        ) => {
            crate::tensor::lemma_flat_index_injective(shape, c1@, c2@);
        },
        (
            GatherError::IndexOutOfBounds { coords: c1, .. },
            GatherError::IndexOutOfBounds { coords: c2, .. },
        ) => {
            crate::tensor::lemma_flat_index_injective(shape, c1@, c2@);
        },
        _ => {},
    }
}

/// Two gather outcomes are the same result: both successful with equal
/// shape and data, or both the same error with equal payloads.
pub open spec fn gather_outcome_eq<T>(
    r1: Result<Tensor<T>, GatherError>,
    r2: Result<Tensor<T>, GatherError>,
) -> bool {
    match (r1, r2) {
        (Ok(a), Ok(b)) => a.shape@ == b.shape@ && a.data@ == b.data@,
        (Err(e1), Err(e2)) => gather_err_eq(e1, e2),
        _ => false,
    }
}

/// Two gather errors are the same failure: one variant, equal payloads.
pub open spec fn gather_err_eq(e1: GatherError, e2: GatherError) -> bool {
    match (e1, e2) {
        (
            GatherError::DimensionMismatch { input_ndim: a1, index_ndim: b1 },
            GatherError::DimensionMismatch { input_ndim: a2, index_ndim: b2 },
        ) => a1 == a2 && b1 == b2,
        (
            GatherError::InvalidDimension { dim: d1, ndim: n1 },
            GatherError::InvalidDimension { dim: d2, ndim: n2 },
        ) => d1 == d2 && n1 == n2,
        (
            GatherError::ShapeMismatch { axis: a1, input_size: i1, index_size: x1 },
            GatherError::ShapeMismatch { axis: a2, input_size: i2, index_size: x2 },
        ) => a1 == a2 && i1 == i2 && x1 == x2,
        (
            GatherError::IndexOutOfBounds { coords: c1, index_value: v1, dim: d1, dim_size: s1 },
            GatherError::IndexOutOfBounds { coords: c2, index_value: v2, dim: d2, dim_size: s2 },
        ) => c1@ == c2@ && v1 == v2 && d1 == d2 && s1 == s2,
        (
            GatherError::IndexCastError { coords: c1, index_value: v1 },
            GatherError::IndexCastError { coords: c2, index_value: v2 },
        ) => c1@ == c2@ && v1 == v2,
        (
            GatherError::NegativeIndex { coords: c1, index_value: v1 },
            GatherError::NegativeIndex { coords: c2, index_value: v2 },
        ) => c1@ == c2@ && v1 == v2,
        (
            GatherError::InternalShapeError(m1),
            GatherError::InternalShapeError(m2),
        ) => m1@ == m2@,
        _ => false,
    }
}

} // verus!
