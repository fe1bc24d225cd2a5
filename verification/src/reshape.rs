//! Reshaping: the same elements under a new shape.
//!
//! A requested shape is a sequence of signed extents in which at most one
//! entry may be `-1`, a placeholder whose extent is inferred so that the
//! element count is preserved. Because a tensor stores its elements in
//! row-major order, reshaping never moves data: it only validates the
//! requested extents and swaps the shape.

use crate::tensor::{copy_vec, size_of_shape, Tensor};
use vstd::arithmetic::div_mod::{
    lemma_basic_div, lemma_div_nonincreasing, lemma_fundamental_div_mod, lemma_small_mod,
};
use vstd::arithmetic::mul::{lemma_mul_is_associative, lemma_mul_is_commutative};
use vstd::prelude::*;

verus! {

/// Why a reshape failed.
#[derive(Debug, Clone, PartialEq, Eq)]
pub enum ReshapeError {
    /// The requested extents cannot hold exactly the input's elements, or
    /// an extent is negative (other than the `-1` placeholder) or too
    /// large for a machine index.
    IncompatibleShape,
    /// The `-1` placeholder appears more than once.
    MultipleInferredDimensions,
}

/// The entry at position `p` of a requested shape is rejected: below `-1`,
/// too large for a machine index, or a second `-1` placeholder.
pub open spec fn dim_bad_at(dims: Seq<i64>, p: int) -> bool {
    ||| dims[p] < -1
    ||| dims[p] > usize::MAX
    ||| (dims[p] == -1 && exists|q: int| 0 <= q < p && dims[q] == -1)
}

/// `p` is the first rejected position of the requested shape.
pub open spec fn first_bad_dim(dims: Seq<i64>, p: int) -> bool {
    &&& 0 <= p < dims.len()
    &&& dim_bad_at(dims, p)
    &&& forall|q: int| 0 <= q < p ==> !dim_bad_at(dims, q)
}

/// Product of the requested extents, the `-1` placeholder excluded.
pub open spec fn known_product(dims: Seq<i64>) -> int
    decreases dims.len(),
{
    if dims.len() == 0 {
        1
    } else if dims[0] == -1 {
        known_product(dims.skip(1))
    } else {
        dims[0] * known_product(dims.skip(1))
    }
}

/// Whether the requested shape holds the `-1` placeholder.
pub open spec fn has_inferred(dims: Seq<i64>) -> bool {
    exists|p: int| 0 <= p < dims.len() && dims[p] == -1
}

/// The shape the request names, with `fill` in place of the placeholder.
pub open spec fn reshaped_dims(dims: Seq<i64>, fill: usize) -> Seq<usize> {
    Seq::new(dims.len(), |p: int| if dims[p] == -1 { fill } else { dims[p] as usize })
}

/// Everything `reshape` promises: the first rejected extent decides the
/// error; with a placeholder, the element count must divide by the known
/// extents and the quotient fills the placeholder; without one, the
/// extents must multiply to exactly the element count; and on success the
/// data is carried over unchanged under the new shape.
pub open spec fn reshape_post<T>(
    input: Tensor<T>,
    dims: Seq<i64>,
    r: Result<Tensor<T>, ReshapeError>,
) -> bool {
    let n = input.data@.len() as int;
    let known = known_product(dims);
    if exists|p: int| first_bad_dim(dims, p) {
        exists|p: int|
            #[trigger] first_bad_dim(dims, p) && r == Err::<Tensor<T>, ReshapeError>(
                if dims[p] == -1 {
                    ReshapeError::MultipleInferredDimensions
                } else {
                    ReshapeError::IncompatibleShape
                },
            )
    } else if has_inferred(dims) {
        if known == 0 {
            r == Err::<Tensor<T>, ReshapeError>(ReshapeError::IncompatibleShape)
        } else if n % known != 0 {
            r == Err::<Tensor<T>, ReshapeError>(ReshapeError::IncompatibleShape)
        } else {
            r matches Ok(out) && out.wf() && out.data@ == input.data@ && out.shape@
                == reshaped_dims(dims, (n / known) as usize)
        }
    } else {
        if known != n {
            r == Err::<Tensor<T>, ReshapeError>(ReshapeError::IncompatibleShape)
        } else {
            r matches Ok(out) && out.wf() && out.data@ == input.data@ && out.shape@
                == reshaped_dims(dims, 0)
        }
    }
}

/// Appending one extent multiplies the known product by it (placeholders
/// excluded).
proof fn lemma_known_product_push(dims: Seq<i64>, x: i64)
    ensures
        known_product(dims.push(x)) == if x == -1 {
            known_product(dims)
        } else {
            known_product(dims) * x
        },
    decreases dims.len(),
{
    if dims.len() == 0 {
        assert(dims.push(x).skip(1) =~= Seq::<i64>::empty());
        assert(dims.push(x)[0] == x);
        assert(known_product(Seq::<i64>::empty()) == 1);
        assert(dims =~= Seq::<i64>::empty());
        if x != -1 {
            assert(known_product(dims.push(x)) == x * 1);
            lemma_mul_is_commutative(x as int, 1);
        }
    } else {
        lemma_known_product_push(dims.skip(1), x);
        assert(dims.push(x).skip(1) =~= dims.skip(1).push(x));
        assert(dims.push(x)[0] == dims[0]);
        if dims[0] == -1 {
            assert(known_product(dims.push(x)) == known_product(dims.skip(1).push(x)));
            assert(known_product(dims) == known_product(dims.skip(1)));
        } else if x == -1 {
            assert(known_product(dims.push(x)) == dims[0] * known_product(dims.skip(1).push(x)));
            assert(known_product(dims.skip(1).push(x)) == known_product(dims.skip(1)));
        } else {
            assert(known_product(dims.push(x)) == dims[0] * (known_product(dims.skip(1))
                * x));
            lemma_mul_is_associative(dims[0] as int, known_product(dims.skip(1)), x as int);
        }
    }
}

/// The size of the shape a request names: the product of its known
/// extents, times the placeholder's fill when there is one.
proof fn lemma_reshaped_size(dims: Seq<i64>, fill: usize)
    requires
        forall|p: int| 0 <= p < dims.len() ==> -1 <= #[trigger] dims[p] <= usize::MAX,
        forall|p: int, q: int|
            0 <= p < dims.len() && 0 <= q < dims.len() && #[trigger] dims[p] == -1
                && #[trigger] dims[q] == -1 ==> p == q,
    ensures
        size_of_shape(reshaped_dims(dims, fill)) == known_product(dims) * (
        if has_inferred(dims) {
            fill as int
        } else {
            1
        }),
    decreases dims.len(),
{
    let rd = reshaped_dims(dims, fill);
    if dims.len() == 0 {
        assert(!has_inferred(dims));
        assert(rd.len() == 0);
    } else {
        let tail = dims.skip(1);
        assert(forall|p: int| 0 <= p < tail.len() ==> #[trigger] tail[p] == dims[p + 1]);
        lemma_reshaped_size(tail, fill);
        assert(rd.skip(1) =~= reshaped_dims(tail, fill));
        let kt = known_product(tail);
        if dims[0] == -1 {
            assert(!has_inferred(tail)) by {
                if exists|p: int| 0 <= p < tail.len() && tail[p] == -1 {
                    let p = choose|p: int| 0 <= p < tail.len() && tail[p] == -1;
                    assert(dims[p + 1] == -1);
                    assert(dims[0] == -1);
                }
            }
            assert(size_of_shape(rd) == fill as nat * (kt * 1));
            assert(has_inferred(dims));
            assert(known_product(dims) == kt);
            assert(fill as int * (kt * 1) == kt * fill as int) by (nonlinear_arith);
        } else {
            let d0 = dims[0] as int;
            assert(rd[0] == dims[0] as usize);
            assert(dims[0] <= usize::MAX);
            assert(rd[0] as int == d0);
            if has_inferred(tail) {
                assert(has_inferred(dims)) by {
                    let p = choose|p: int| 0 <= p < tail.len() && tail[p] == -1;
                    assert(dims[p + 1] == -1);
                }
                assert(size_of_shape(rd) == d0 * (kt * fill as int));
                lemma_mul_is_associative(d0, kt, fill as int);
                assert(known_product(dims) == d0 * kt);
            } else {
                assert(!has_inferred(dims)) by {
                    if exists|p: int| 0 <= p < dims.len() && dims[p] == -1 {
                        let p = choose|p: int| 0 <= p < dims.len() && dims[p] == -1;
                        assert(p > 0);
                        assert(tail[p - 1] == -1);
                    }
                }
                assert(size_of_shape(rd) == d0 * (kt * 1));
            }
        }
    }
}

/// What `infer_shape` promises: the resolved extents of a request against
/// an element count, with the placeholder filled in, or the error that
/// `reshape` itself would report.
pub open spec fn infer_post(n: int, dims: Seq<i64>, r: Result<Vec<usize>, ReshapeError>) -> bool {
    let known = known_product(dims);
    if exists|p: int| first_bad_dim(dims, p) {
        exists|p: int|
            #[trigger] first_bad_dim(dims, p) && r == Err::<Vec<usize>, ReshapeError>(
                if dims[p] == -1 {
                    ReshapeError::MultipleInferredDimensions
                } else {
                    ReshapeError::IncompatibleShape
                },
            )
    } else if has_inferred(dims) {
        if known == 0 {
            r == Err::<Vec<usize>, ReshapeError>(ReshapeError::IncompatibleShape)
        } else if n % known != 0 {
            r == Err::<Vec<usize>, ReshapeError>(ReshapeError::IncompatibleShape)
        } else {
            r matches Ok(v) && v@ == reshaped_dims(dims, (n / known) as usize)
                && size_of_shape(v@) == n
        }
    } else {
        if known != n {
            r == Err::<Vec<usize>, ReshapeError>(ReshapeError::IncompatibleShape)
        } else {
            r matches Ok(v) && v@ == reshaped_dims(dims, 0) && size_of_shape(v@) == n
        }
    }
}

/// Resolve a requested shape against an element count `n`: validate the
/// extents, fill the `-1` placeholder so the extents multiply to `n`, and
/// return the extents as machine indices.
pub fn infer_shape(n: usize, shape: &Vec<i64>) -> (r: Result<Vec<usize>, ReshapeError>)
    ensures
        infer_post(n as int, shape@, r),
{
    let n_dims = shape.len();
    let cap: u128 = usize::MAX as u128 + 1;
    let mut new_shape: Vec<usize> = Vec::new();
    let mut inferred: Option<usize> = None;
    let mut known: u128 = 1;
    let mut p: usize = 0;
    while p < n_dims
        invariant
            p <= n_dims,
            n_dims == shape@.len(),
            cap == usize::MAX as u128 + 1,
            new_shape@.len() == p,
            forall|q: int| 0 <= q < p ==> !dim_bad_at(shape@, q),
            forall|q: int|
                0 <= q < p ==> new_shape@[q] == (if shape@[q] == -1 {
                    0usize
                } else {
                    shape@[q] as usize
                }),
            match inferred {
                Some(ix) => ix < p && shape@[ix as int] == -1 && (forall|q: int|
                    0 <= q < p && q != ix ==> shape@[q] != -1),
                None => forall|q: int| 0 <= q < p ==> shape@[q] != -1,
            },
            known_product(shape@.take(p as int)) >= 0,
            known == (if known_product(shape@.take(p as int)) > usize::MAX {
                cap as int
            } else {
                known_product(shape@.take(p as int))
            }),
        decreases n_dims - p,
    {
        let d = shape[p];
        proof {
            assert(shape@.take(p as int + 1) =~= shape@.take(p as int).push(shape@[p as int]));
            lemma_known_product_push(shape@.take(p as int), d);
        }
        if d == -1 {
            if inferred.is_some() {
                proof {
                    assert(first_bad_dim(shape@, p as int));
                }
                return Err(ReshapeError::MultipleInferredDimensions);
            }
            inferred = Some(p);
            new_shape.push(0);
        } else if d < -1 {
            proof {
                assert(first_bad_dim(shape@, p as int));
            }
            return Err(ReshapeError::IncompatibleShape);
        } else if d as i128 > usize::MAX as i128 {
            proof {
                assert(first_bad_dim(shape@, p as int));
            }
            return Err(ReshapeError::IncompatibleShape);
        } else {
            new_shape.push(d as usize);
            let ghost kp = known_product(shape@.take(p as int));
            let ghost kp1 = known_product(shape@.take(p as int + 1));
            proof {
                assert(known <= cap);
                assert(known * (d as u128) <= u128::MAX) by (nonlinear_arith)
                    requires
                        known <= 0x1_0000_0000_0000_0000u128,
                        0 <= d as u128 <= 0x8000_0000_0000_0000u128,
                ;
            }
            let prod = known * (d as u128);
            proof {
                assert(kp1 == kp * d as int);
                if kp > usize::MAX {
                    if d == 0 {
                        assert(kp * 0 == 0) by (nonlinear_arith);
                        assert(prod == 0);
                    } else {
                        assert(kp1 > usize::MAX) by (nonlinear_arith)
                            requires
                                kp > usize::MAX as int,
                                d >= 1,
                                kp1 == kp * d as int,
                        ;
                        assert(prod >= cap) by (nonlinear_arith)
                            requires
                                known == cap,
                                d >= 1,
                                prod == known * d as u128,
                        ;
                    }
                } else {
                    assert(prod == kp1);
                }
            }
            if prod > usize::MAX as u128 {
                known = cap;
            } else {
                known = prod;
            }
        }
        p = p + 1;
    }
    proof {
        assert(shape@.take(n_dims as int) =~= shape@);
        assert forall|q: int| 0 <= q < shape@.len() implies -1 <= #[trigger] shape@[q]
            <= usize::MAX by {
            assert(!dim_bad_at(shape@, q));
        }
        assert(forall|q1: int, q2: int|
            0 <= q1 < shape@.len() && 0 <= q2 < shape@.len() && #[trigger] shape@[q1] == -1
                && #[trigger] shape@[q2] == -1 ==> q1 == q2) by {
            assert forall|q1: int, q2: int|
                0 <= q1 < shape@.len() && 0 <= q2 < shape@.len() && #[trigger] shape@[q1] == -1
                    && #[trigger] shape@[q2] == -1 implies q1 == q2 by {
                if q1 < q2 {
                    assert(dim_bad_at(shape@, q2));
                } else if q2 < q1 {
                    assert(dim_bad_at(shape@, q1));
                }
            }
        }
    }
    let ghost kp = known_product(shape@);
    match inferred {
        Some(ix) => {
            if known == 0 {
                return Err(ReshapeError::IncompatibleShape);
            }
            proof {
                assert(kp > 0);
                if kp > usize::MAX {
                    lemma_small_mod(n as nat, kp as nat);
                }
            }
            let nu = n as u128;
            if nu % known != 0 {
                proof {
                    if kp > usize::MAX {
                        lemma_small_mod(n as nat, (usize::MAX as nat) + 1);
                        assert(nu % known == n as int % kp);
                    }
                }
                return Err(ReshapeError::IncompatibleShape);
            }
            let fill_wide = nu / known;
            proof {
                lemma_div_nonincreasing(nu as int, known as int);
                if kp > usize::MAX {
                    lemma_basic_div(n as int, kp);
                    lemma_basic_div(nu as int, known as int);
                }
            }
            let fill = fill_wide as usize;
            new_shape.set(ix, fill);
            proof {
                assert(fill as int == n as int / kp);
                assert(new_shape@ =~= reshaped_dims(shape@, fill));
                lemma_reshaped_size(shape@, fill);
                assert(has_inferred(shape@));
                lemma_fundamental_div_mod(n as int, kp);
                assert(size_of_shape(reshaped_dims(shape@, fill)) == n);
            }
            Ok(new_shape)
        },
        None => {
            if known != n as u128 {
                proof {
                    if kp > usize::MAX {
                        assert(kp != n as int);
                    }
                }
                return Err(ReshapeError::IncompatibleShape);
            }
            proof {
                assert(kp == n as int);
                assert(new_shape@ =~= reshaped_dims(shape@, 0));
                lemma_reshaped_size(shape@, 0);
                assert(size_of_shape(reshaped_dims(shape@, 0)) == kp * 1);
            }
            Ok(new_shape)
        },
    }
}

/// Reshape a tensor: validate the requested extents, infer the `-1`
/// placeholder when present, and return the same elements under the new
/// shape. The input is untouched.
pub fn reshape<T: Copy>(input: &Tensor<T>, shape: &Vec<i64>) -> (r: Result<
    Tensor<T>,
    ReshapeError,
>)
    requires
        input.wf(),
    ensures
        reshape_post(*input, shape@, r),
{
    match infer_shape(input.data.len(), shape) {
        Ok(new_shape) => Ok(Tensor { shape: new_shape, data: copy_vec(&input.data) }),
        Err(e) => Err(e),
    }
}

} // verus!
