//! Slicing along fixed axes.
//!
//! Two slice shapes cover the library's needs: keeping only the last
//! position along the last axis (while preserving rank), and keeping a
//! leading run of positions along the second axis.

use crate::coords::{advance_from, copy_coord, lemma_flat_index_zero, zero_coord};
use crate::tensor::{
    checked_size_of, flat_index, in_bounds, lemma_flat_index_bound, lemma_flat_index_injective,
    lemma_size_monotone, lemma_size_zero, size_of_shape, Tensor,
};
use vstd::prelude::*;

verus! {

/// What `slice_last_dim` promises: rank at least three is required, and on
/// success the output keeps every axis but reduces the last one to its
/// final position (or to nothing when it was empty).
pub open spec fn slice_last_post<T>(input: Tensor<T>, r: Result<Tensor<T>, &'static str>) -> bool {
    let ndim = input.shape@.len() as int;
    if ndim < 3 {
        r matches Err(m) && m@ == "Input tensor must have at least 3 dimensions for slice '[:, :, -1:]'"@
    } else {
        let last = input.shape@[ndim - 1];
        let kept: usize = if last == 0 {
            0
        } else {
            1
        };
        r matches Ok(out) && out.wf() && out.shape@ == input.shape@.update(ndim - 1, kept)
            && forall|c: Seq<usize>|
            in_bounds(out.shape@, c) ==> #[trigger] out.at(c) == input.at(
                c.update(ndim - 1, (last - 1) as usize),
            )
    }
}

/// Keep, along the last axis, only the last position: the slice
/// `[:, :, -1:]` of an array of rank at least three. Rank is preserved;
/// an empty last axis yields an empty result.
pub fn slice_last_dim<T: Copy>(input: &Tensor<T>) -> (r: Result<Tensor<T>, &'static str>)
    requires
        input.wf(),
    ensures
        slice_last_post(*input, r),
{
    let ndim = input.shape.len();
    if ndim < 3 {
        return Err("Input tensor must have at least 3 dimensions for slice '[:, :, -1:]'");
    }
    let last = input.shape[ndim - 1];
    let kept: usize = if last == 0 {
        0
    } else {
        1
    };
    let mut out_shape = copy_coord(&input.shape);
    out_shape.set(ndim - 1, kept);
    proof {
        assert forall|k: int| 0 <= k < out_shape@.len() implies #[trigger] out_shape@[k]
            <= input.shape@[k] by {}
        lemma_size_monotone(out_shape@, input.shape@);
    }
    // the length call witnesses that the input's element count, an upper
    // bound on the output's, fits in a machine index
    let _n: usize = input.data.len();
    let out_total = match checked_size_of(&out_shape) {
        Some(s) => s,
        None => {
            proof {
                assert(false);
            }
            0
        },
    };
    let mut out_data: Vec<T> = Vec::new();
    let mut c = zero_coord(ndim);
    let mut i: usize = 0;
    proof {
        if out_total > 0 {
            lemma_size_zero(out_shape@);
            lemma_flat_index_zero(out_shape@, c@);
        }
    }
    while i < out_total
        invariant
            input.wf(),
            ndim == input.shape@.len(),
            ndim >= 3,
            last == input.shape@[ndim - 1],
            kept == (if last == 0 {
                0usize
            } else {
                1usize
            }),
            out_shape@ == input.shape@.update(ndim - 1, kept),
            out_total == size_of_shape(out_shape@),
            i <= out_total,
            out_data@.len() == i,
            c@.len() == ndim,
            i < out_total ==> in_bounds(out_shape@, c@) && flat_index(out_shape@, c@) == i,
            forall|d: Seq<usize>|
                in_bounds(out_shape@, d) && flat_index(out_shape@, d) < i
                    ==> #[trigger] out_data@[flat_index(out_shape@, d) as int] == input.at(
                    d.update(ndim - 1, (last - 1) as usize),
                ),
        decreases out_total - i,
    {
        proof {
            assert(c@[ndim - 1] < out_shape@[ndim - 1]);
            assert(last >= 1);
        }
        let mut ic = copy_coord(&c);
        ic.set(ndim - 1, last - 1);
        proof {
            assert(in_bounds(input.shape@, ic@)) by {
                assert forall|k: int| 0 <= k < ic@.len() implies ic@[k] < input.shape@[k] by {
                    if k != ndim - 1 {
                        assert(ic@[k] == c@[k]);
                        assert(c@[k] < out_shape@[k]);
                    }
                }
            }
        }
        let val = *input.get(&ic);
        out_data.push(val);
        proof {
            assert(ic@ =~= c@.update(ndim - 1, (last - 1) as usize));
            assert forall|d: Seq<usize>|
                in_bounds(out_shape@, d) && flat_index(out_shape@, d)
                    < i + 1 implies #[trigger] out_data@[flat_index(out_shape@, d) as int]
                == input.at(d.update(ndim - 1, (last - 1) as usize)) by {
                if flat_index(out_shape@, d) == i {
                    lemma_flat_index_injective(out_shape@, d, c@);
                }
            }
        }
        i = i + 1;
        if i < out_total {
            let ghost cprev = c@;
            let wrapped = advance_from(&out_shape, &mut c, 0);
            proof {
                assert(out_shape@.skip(0) =~= out_shape@);
                assert(cprev.skip(0) =~= cprev);
                assert(c@.skip(0) =~= c@);
                if wrapped {
                    assert(false);
                }
            }
        }
    }
    let out = Tensor { shape: out_shape, data: out_data };
    proof {
        assert forall|d: Seq<usize>| in_bounds(out.shape@, d) implies #[trigger] out.at(d)
            == input.at(d.update(ndim - 1, (last - 1) as usize)) by {
            lemma_flat_index_bound(out.shape@, d);
            assert(out_data@[flat_index(out.shape@, d) as int] == input.at(
                d.update(ndim - 1, (last - 1) as usize),
            ));
        }
    }
    Ok(out)
}

/// What `slice_second_dim` promises: rank at least two is required, and on
/// success the output keeps every axis but clips the second one to at most
/// `amount` leading positions; the kept elements are unchanged and sit at
/// their own coordinates.
pub open spec fn slice_second_post<T>(
    input: Tensor<T>,
    amount: usize,
    r: Result<Tensor<T>, &'static str>,
) -> bool {
    let ndim = input.shape@.len() as int;
    if ndim < 2 {
        r matches Err(m) && m@ == "Input tensor must have at least 2 dimensions for slice '[:, :amount]'"@
    } else {
        let eff: usize = if amount <= input.shape@[1] {
            amount
        } else {
            input.shape@[1]
        };
        r matches Ok(out) && out.wf() && out.shape@ == input.shape@.update(1, eff)
            && forall|c: Seq<usize>|
            in_bounds(out.shape@, c) ==> #[trigger] out.at(c) == input.at(c)
    }
}

/// Keep the first `amount` positions along the second axis: the slice
/// `[:, :amount]` of an array of rank at least two. An `amount` past the
/// axis's extent is clipped to it.
pub fn slice_second_dim<T: Copy>(input: &Tensor<T>, amount: usize) -> (r: Result<
    Tensor<T>,
    &'static str,
>)
    requires
        input.wf(),
    ensures
        slice_second_post(*input, amount, r),
{
    let ndim = input.shape.len();
    if ndim < 2 {
        return Err("Input tensor must have at least 2 dimensions for slice '[:, :amount]'");
    }
    let dim1 = input.shape[1];
    let eff: usize = if amount <= dim1 {
        amount
    } else {
        dim1
    };
    let mut out_shape = copy_coord(&input.shape);
    out_shape.set(1, eff);
    proof {
        assert forall|k: int| 0 <= k < out_shape@.len() implies #[trigger] out_shape@[k]
            <= input.shape@[k] by {}
        lemma_size_monotone(out_shape@, input.shape@);
    }
    let _n: usize = input.data.len();
    let out_total = match checked_size_of(&out_shape) {
        Some(s) => s,
        None => {
            proof {
                assert(false);
            }
            0
        },
    };
    let mut out_data: Vec<T> = Vec::new();
    let mut c = zero_coord(ndim);
    let mut i: usize = 0;
    proof {
        if out_total > 0 {
            lemma_size_zero(out_shape@);
            lemma_flat_index_zero(out_shape@, c@);
        }
    }
    while i < out_total
        invariant
            input.wf(),
            ndim == input.shape@.len(),
            ndim >= 2,
            out_shape@ == input.shape@.update(1, eff),
            eff <= input.shape@[1],
            out_total == size_of_shape(out_shape@),
            i <= out_total,
            out_data@.len() == i,
            c@.len() == ndim,
            i < out_total ==> in_bounds(out_shape@, c@) && flat_index(out_shape@, c@) == i,
            forall|d: Seq<usize>|
                in_bounds(out_shape@, d) && flat_index(out_shape@, d) < i
                    ==> #[trigger] out_data@[flat_index(out_shape@, d) as int] == input.at(d),
        decreases out_total - i,
    {
        proof {
            assert(in_bounds(input.shape@, c@)) by {
                assert forall|k: int| 0 <= k < c@.len() implies c@[k] < input.shape@[k] by {
                    assert(c@[k] < out_shape@[k]);
                    assert(out_shape@[k] <= input.shape@[k]);
                }
            }
        }
        let val = *input.get(&c);
        out_data.push(val);
        proof {
            assert forall|d: Seq<usize>|
                in_bounds(out_shape@, d) && flat_index(out_shape@, d)
                    < i + 1 implies #[trigger] out_data@[flat_index(out_shape@, d) as int]
                == input.at(d) by {
                if flat_index(out_shape@, d) == i {
                    lemma_flat_index_injective(out_shape@, d, c@);
                }
            }
        }
        i = i + 1;
        if i < out_total {
            let ghost cprev = c@;
            let wrapped = advance_from(&out_shape, &mut c, 0);
            proof {
                assert(out_shape@.skip(0) =~= out_shape@);
                assert(cprev.skip(0) =~= cprev);
                assert(c@.skip(0) =~= c@);
                if wrapped {
                    assert(false);
                }
            }
        }
    }
    let out = Tensor { shape: out_shape, data: out_data };
    proof {
        assert forall|d: Seq<usize>| in_bounds(out.shape@, d) implies #[trigger] out.at(d)
            == input.at(d) by {
            lemma_flat_index_bound(out.shape@, d);
            assert(out_data@[flat_index(out.shape@, d) as int] == input.at(d));
        }
    }
    Ok(out)
}

} // verus!
