//! The dynamic-rank array model.
//!
//! A [`Tensor`] owns a shape (one extent per axis) and its elements in
//! row-major order. A coordinate is one unsigned offset per axis; the
//! element at a coordinate sits at its row-major flat position in `data`.
//! This module defines the coordinate space mathematically — the size of a
//! shape, bounds checking, flattening and unflattening of coordinates —
//! and proves the facts the operation modules build on: a flat position is
//! below the size, distinct coordinates have distinct flat positions, and
//! flattening inverts unflattening.

use vstd::arithmetic::div_mod::{
    lemma_div_pos_is_pos, lemma_fundamental_div_mod, lemma_mod_bound, lemma_multiply_divide_lt,
};
use vstd::arithmetic::mul::{
    lemma_mul_inequality, lemma_mul_is_associative, lemma_mul_is_commutative,
};
use vstd::prelude::*;

verus! {

/// Number of elements of an array with the given shape: the product of the
/// axis extents. The empty shape (a scalar) has exactly one element.
pub open spec fn size_of_shape(shape: Seq<usize>) -> nat
    decreases shape.len(),
{
    if shape.len() == 0 {
        1
    } else {
        shape[0] as nat * size_of_shape(shape.skip(1))
    }
}

/// `c` is a valid coordinate of an array with shape `shape`: one offset per
/// axis, each strictly below that axis's extent.
pub open spec fn in_bounds(shape: Seq<usize>, c: Seq<usize>) -> bool {
    c.len() == shape.len() && (forall|k: int| 0 <= k < c.len() ==> c[k] < shape[k])
}

/// Row-major flat position of coordinate `c` in an array with shape
/// `shape`: the last axis varies fastest.
pub open spec fn flat_index(shape: Seq<usize>, c: Seq<usize>) -> nat
    decreases c.len(),
{
    if c.len() == 0 {
        0
    } else {
        c[0] as nat * size_of_shape(shape.skip(1)) + flat_index(shape.skip(1), c.skip(1))
    }
}

/// The coordinate whose row-major flat position in shape `shape` is `j`.
pub open spec fn coord_of(shape: Seq<usize>, j: int) -> Seq<usize>
    decreases shape.len(),
{
    if shape.len() == 0 {
        Seq::empty()
    } else {
        let stride = size_of_shape(shape.skip(1)) as int;
        seq![(j / stride) as usize] + coord_of(shape.skip(1), j % stride)
    }
}

/// A shape has no elements exactly when some axis has extent zero.
pub proof fn lemma_size_zero(shape: Seq<usize>)
    ensures
        size_of_shape(shape) == 0 <==> exists|k: int| 0 <= k < shape.len() && shape[k] == 0,
    decreases shape.len(),
{
    if shape.len() > 0 {
        lemma_size_zero(shape.skip(1));
        let s = size_of_shape(shape.skip(1)) as int;
        if shape[0] == 0 {
            assert(size_of_shape(shape) == 0);
        } else if s == 0 {
            let k = choose|k: int| 0 <= k < shape.skip(1).len() && shape.skip(1)[k] == 0;
            assert(shape[k + 1] == 0);
            assert(size_of_shape(shape) == 0) by (nonlinear_arith)
                requires
                    size_of_shape(shape) == shape[0] as nat * size_of_shape(shape.skip(1)),
                    size_of_shape(shape.skip(1)) == 0,
            ;
        } else {
            assert(size_of_shape(shape) != 0) by (nonlinear_arith)
                requires
                    size_of_shape(shape) == shape[0] as nat * size_of_shape(shape.skip(1)),
                    shape[0] as int >= 1,
                    size_of_shape(shape.skip(1)) as int >= 1,
            ;
            assert forall|k: int| 0 <= k < shape.len() implies shape[k] != 0 by {
                if k >= 1 {
                    assert(shape.skip(1)[k - 1] == shape[k]);
                    assert(shape.skip(1)[k - 1] != 0);
                }
            }
        }
    }
}

/// The size of a shape splits at any axis into the product of the sizes of
/// the leading and trailing parts.
pub proof fn lemma_size_split(shape: Seq<usize>, k: int)
    requires
        0 <= k <= shape.len(),
    ensures
        size_of_shape(shape) == size_of_shape(shape.take(k)) * size_of_shape(shape.skip(k)),
    decreases k,
{
    if k == 0 {
        assert(shape.take(0) =~= Seq::<usize>::empty());
        assert(shape.skip(0) =~= shape);
        assert(size_of_shape(shape.take(0)) == 1);
        assert(size_of_shape(shape) == 1 * size_of_shape(shape.skip(0)));
    } else {
        lemma_size_split(shape.skip(1), k - 1);
        assert(shape.skip(1).take(k - 1) =~= shape.take(k).skip(1));
        assert(shape.skip(1).skip(k - 1) =~= shape.skip(k));
        let a = shape[0] as int;
        let b = size_of_shape(shape.take(k).skip(1)) as int;
        let c = size_of_shape(shape.skip(k)) as int;
        assert(size_of_shape(shape.skip(1)) == b * c);
        assert(size_of_shape(shape) == a * (b * c));
        assert(shape.take(k)[0] == shape[0]);
        assert(shape.take(k).len() == k);
        assert(size_of_shape(shape.take(k)) == a * b);
        lemma_mul_is_associative(a, b, c);
        assert(size_of_shape(shape) == (a * b) * c);
    }
}

/// A valid coordinate's flat position lies below the shape's size.
pub proof fn lemma_flat_index_bound(shape: Seq<usize>, c: Seq<usize>)
    requires
        in_bounds(shape, c),
    ensures
        flat_index(shape, c) < size_of_shape(shape),
    decreases c.len(),
{
    if c.len() > 0 {
        assert(in_bounds(shape.skip(1), c.skip(1))) by {
            assert(forall|k: int|
                0 <= k < c.skip(1).len() ==> c.skip(1)[k] == #[trigger] c[k + 1]
                    && shape.skip(1)[k] == shape[k + 1]);
        }
        lemma_flat_index_bound(shape.skip(1), c.skip(1));
        let s = size_of_shape(shape.skip(1)) as int;
        assert(c[0] as int * s + flat_index(shape.skip(1), c.skip(1)) < shape[0] as int * s)
            by (nonlinear_arith)
            requires
                (c[0] as int) < (shape[0] as int),
                flat_index(shape.skip(1), c.skip(1)) < s,
        ;
    }
}

/// Distinct valid coordinates of one shape have distinct flat positions.
pub proof fn lemma_flat_index_injective(shape: Seq<usize>, c1: Seq<usize>, c2: Seq<usize>)
    requires
        in_bounds(shape, c1),
        in_bounds(shape, c2),
        flat_index(shape, c1) == flat_index(shape, c2),
    ensures
        c1 == c2,
    decreases c1.len(),
{
    if c1.len() == 0 {
        assert(c1 =~= c2);
    } else {
        assert(in_bounds(shape.skip(1), c1.skip(1)) && in_bounds(shape.skip(1), c2.skip(1))) by {
            assert(forall|k: int|
                0 <= k < c1.skip(1).len() ==> c1.skip(1)[k] == #[trigger] c1[k + 1]
                    && c2.skip(1)[k] == c2[k + 1] && shape.skip(1)[k] == shape[k + 1]);
        }
        lemma_flat_index_bound(shape.skip(1), c1.skip(1));
        lemma_flat_index_bound(shape.skip(1), c2.skip(1));
        let s = size_of_shape(shape.skip(1)) as int;
        if c1[0] < c2[0] {
            assert(c1[0] as int * s + flat_index(shape.skip(1), c1.skip(1)) < c2[0] as int * s
                + flat_index(shape.skip(1), c2.skip(1))) by (nonlinear_arith)
                requires
                    (c1[0] as int) < (c2[0] as int),
                    flat_index(shape.skip(1), c1.skip(1)) < s,
            ;
            assert(false);
        } else if c2[0] < c1[0] {
            assert(c2[0] as int * s + flat_index(shape.skip(1), c2.skip(1)) < c1[0] as int * s
                + flat_index(shape.skip(1), c1.skip(1))) by (nonlinear_arith)
                requires
                    (c2[0] as int) < (c1[0] as int),
                    flat_index(shape.skip(1), c2.skip(1)) < s,
            ;
            assert(false);
        } else {
            lemma_flat_index_injective(shape.skip(1), c1.skip(1), c2.skip(1));
            assert forall|i: int| 0 <= i < c1.len() implies c1[i] == c2[i] by {
                if i >= 1 {
                    assert(c1.skip(1)[i - 1] == c2.skip(1)[i - 1]);
                }
            }
            assert(c1 =~= c2);
        }
    }
}

/// Unflattening a position below the shape's size yields a valid
/// coordinate, and flattening it gives the position back.
pub proof fn lemma_coord_of(shape: Seq<usize>, j: int)
    requires
        0 <= j < size_of_shape(shape),
    ensures
        in_bounds(shape, coord_of(shape, j)),
        flat_index(shape, coord_of(shape, j)) == j,
    decreases shape.len(),
{
    if shape.len() == 0 {
        assert(coord_of(shape, j) =~= Seq::<usize>::empty());
    } else {
        let s = size_of_shape(shape.skip(1)) as int;
        assert(s > 0) by {
            lemma_size_zero(shape.skip(1));
            if s == 0 {
                assert(size_of_shape(shape) == shape[0] * 0);
                lemma_mul_is_commutative(shape[0] as int, 0);
            }
        }
        let q = j / s;
        let r = j % s;
        lemma_fundamental_div_mod(j, s);
        lemma_mod_bound(j, s);
        lemma_div_pos_is_pos(j, s);
        assert(q < shape[0]) by {
            lemma_mul_is_commutative(shape[0] as int, s);
            assert(j < s * shape[0]);
            lemma_multiply_divide_lt(j, s, shape[0] as int);
        }
        lemma_coord_of(shape.skip(1), r);
        let tail = coord_of(shape.skip(1), r);
        let c = seq![(q as usize)] + tail;
        assert(coord_of(shape, j) == c);
        assert(c.skip(1) =~= tail);
        assert(in_bounds(shape, c)) by {
            assert(forall|k: int|
                1 <= k < c.len() ==> c[k] == #[trigger] tail[k - 1] && shape[k] == shape.skip(
                    1,
                )[k - 1]);
        }
        assert(flat_index(shape, c) == q * s + r);
        lemma_mul_is_commutative(q, s);
    }
}

/// Unflattening inverts flattening: a valid coordinate is recovered from
/// its own flat position.
pub proof fn lemma_coord_of_flat(shape: Seq<usize>, c: Seq<usize>)
    requires
        in_bounds(shape, c),
    ensures
        coord_of(shape, flat_index(shape, c) as int) == c,
{
    lemma_flat_index_bound(shape, c);
    lemma_coord_of(shape, flat_index(shape, c) as int);
    lemma_flat_index_injective(shape, coord_of(shape, flat_index(shape, c) as int), c);
}

/// An N-dimensional array of runtime rank: the extent of each axis, and
/// the elements laid out in row-major order (the last axis varies
/// fastest). A well-formed tensor holds exactly one element per point of
/// its coordinate space; a rank-0 tensor holds a single scalar.
#[derive(Debug, Clone, PartialEq, Eq)]
pub struct Tensor<T> {
    pub shape: Vec<usize>,
    pub data: Vec<T>,
}

impl<T> Tensor<T> {
    /// The element count matches the shape.
    pub open spec fn wf(&self) -> bool {
        self.data@.len() == size_of_shape(self.shape@)
    }

    /// Number of axes.
    pub open spec fn rank(&self) -> nat {
        self.shape@.len()
    }

    /// The element at coordinate `c` (meaningful when `c` is in bounds).
    pub open spec fn at(&self, c: Seq<usize>) -> T {
        self.data@[flat_index(self.shape@, c) as int]
    }

    /// Rank of the tensor: the number of axes.
    pub fn ndim(&self) -> (r: usize)
        ensures
            r == self.rank(),
    {
        self.shape.len()
    }

    /// Total number of elements.
    pub fn len(&self) -> (r: usize)
        ensures
            r == self.data@.len(),
    {
        self.data.len()
    }

    /// Assemble a tensor from a shape and row-major elements; refused when
    /// the element count does not match the shape.
    pub fn from_parts(shape: Vec<usize>, data: Vec<T>) -> (r: Option<Tensor<T>>)
        ensures
            match r {
                Some(t) => t.wf() && t.shape@ == shape@ && t.data@ == data@,
                None => size_of_shape(shape@) != data@.len(),
            },
    {
        let n = data.len();
        match checked_size_of(&shape) {
            Some(s) => {
                if s == n {
                    Some(Tensor { shape, data })
                } else {
                    None
                }
            },
            None => None,
        }
    }

    /// Read the element at a valid coordinate.
    pub fn get(&self, c: &Vec<usize>) -> (r: &T)
        requires
            self.wf(),
            in_bounds(self.shape@, c@),
        ensures
            *r == self.at(c@),
    {
        // the length call witnesses that the element count, and with it the
        // shape's size, fits in a machine index
        let _n: usize = self.data.len();
        proof {
            lemma_flat_index_bound(self.shape@, c@);
        }
        let i = flat_of(&self.shape, c);
        &self.data[i]
    }

    /// Overwrite the element at a valid coordinate.
    pub fn set(&mut self, c: &Vec<usize>, value: T)
        requires
            old(self).wf(),
            in_bounds(old(self).shape@, c@),
        ensures
            final(self).shape@ == old(self).shape@,
            final(self).data@ == old(self).data@.update(
                flat_index(old(self).shape@, c@) as int,
                value,
            ),
    {
        let _n: usize = self.data.len();
        proof {
            lemma_flat_index_bound(self.shape@, c@);
        }
        let i = flat_of(&self.shape, c);
        self.data.set(i, value);
    }
}

/// Appending one extent multiplies the size by it.
pub proof fn lemma_size_push(shape: Seq<usize>, x: usize)
    ensures
        size_of_shape(shape.push(x)) == size_of_shape(shape) * x,
    decreases shape.len(),
{
    if shape.len() == 0 {
        assert(shape.push(x).skip(1) =~= Seq::<usize>::empty());
        assert(shape.push(x)[0] == x);
        assert(size_of_shape(Seq::<usize>::empty()) == 1);
        assert(shape =~= Seq::<usize>::empty());
        assert(size_of_shape(shape.push(x)) == x * 1);
        lemma_mul_is_commutative(x as int, 1);
    } else {
        lemma_size_push(shape.skip(1), x);
        assert(shape.push(x).skip(1) =~= shape.skip(1).push(x));
        assert(shape.push(x)[0] == shape[0]);
        assert(size_of_shape(shape.push(x)) == shape[0] * (size_of_shape(shape.skip(1))
            * x));
        lemma_mul_is_associative(shape[0] as int, size_of_shape(shape.skip(1)) as int, x as int);
    }
}

/// A shape no larger than another along every axis has no more elements.
pub proof fn lemma_size_monotone(a: Seq<usize>, b: Seq<usize>)
    requires
        a.len() == b.len(),
        forall|k: int| 0 <= k < a.len() ==> #[trigger] a[k] <= b[k],
    ensures
        size_of_shape(a) <= size_of_shape(b),
    decreases a.len(),
{
    if a.len() > 0 {
        assert(forall|k: int|
            0 <= k < a.skip(1).len() ==> #[trigger] a.skip(1)[k] == a[k + 1] && b.skip(1)[k] == b[
                k + 1
            ]);
        lemma_size_monotone(a.skip(1), b.skip(1));
        assert(a[0] as int * size_of_shape(a.skip(1)) <= b[0] as int * size_of_shape(b.skip(1)))
            by (nonlinear_arith)
            requires
                0 <= a[0] as int <= b[0] as int,
                0 <= size_of_shape(a.skip(1)) <= size_of_shape(b.skip(1)),
        ;
    }
}

/// Number of elements of a shape, or `None` when it exceeds the machine's
/// index range.
pub fn checked_size_of(shape: &Vec<usize>) -> (r: Option<usize>)
    ensures
        match r {
            Some(s) => s == size_of_shape(shape@),
            None => size_of_shape(shape@) > usize::MAX,
        },
{
    let n = shape.len();
    let cap: u128 = usize::MAX as u128 + 1;
    let mut acc: u128 = 1;
    let mut k: usize = 0;
    while k < n
        invariant
            k <= n,
            n == shape@.len(),
            cap == usize::MAX as u128 + 1,
            acc == (if size_of_shape(shape@.take(k as int)) > usize::MAX {
                cap as int
            } else {
                size_of_shape(shape@.take(k as int)) as int
            }),
        decreases n - k,
    {
        let d = shape[k];
        let ghost sp = size_of_shape(shape@.take(k as int));
        let ghost sp1 = size_of_shape(shape@.take(k as int + 1));
        proof {
            assert(shape@.take(k as int + 1) =~= shape@.take(k as int).push(shape@[k as int]));
            lemma_size_push(shape@.take(k as int), d);
            assert(acc <= cap);
            assert(acc * (d as u128) <= u128::MAX) by (nonlinear_arith)
                requires
                    acc <= 0x1_0000_0000_0000_0000u128,
                    d as u128 <= 0xffff_ffff_ffff_ffffu128,
            ;
            if sp > usize::MAX {
                if d == 0 {
                    assert(sp * 0 == 0) by (nonlinear_arith);
                } else {
                    assert(sp1 > usize::MAX) by (nonlinear_arith)
                        requires
                            sp > usize::MAX as int,
                            d >= 1,
                            sp1 == sp * d as int,
                    ;
                    assert(acc * (d as u128) >= cap) by (nonlinear_arith)
                        requires
                            acc == cap,
                            d >= 1,
                    ;
                }
            }
        }
        let prod = acc * (d as u128);
        if prod > usize::MAX as u128 {
            acc = cap;
        } else {
            acc = prod;
        }
        k = k + 1;
    }
    proof {
        assert(shape@.take(n as int) =~= shape@);
    }
    if acc > usize::MAX as u128 {
        None
    } else {
        Some(acc as usize)
    }
}

/// Whether some axis of the shape has extent zero, which is exactly when
/// the shape holds no elements.
pub fn has_zero_extent(shape: &Vec<usize>) -> (r: bool)
    ensures
        r <==> size_of_shape(shape@) == 0,
{
    let n = shape.len();
    let mut k: usize = 0;
    while k < n
        invariant
            k <= n,
            n == shape@.len(),
            forall|q: int| 0 <= q < k ==> shape@[q] != 0,
        decreases n - k,
    {
        if shape[k] == 0 {
            proof {
                lemma_size_zero(shape@);
            }
            return true;
        }
        k = k + 1;
    }
    proof {
        lemma_size_zero(shape@);
    }
    false
}

/// An owned copy of an element vector.
pub fn copy_vec<T: Copy>(v: &Vec<T>) -> (r: Vec<T>)
    ensures
        r@ == v@,
{
    let mut out: Vec<T> = Vec::new();
    let mut i: usize = 0;
    while i < v.len()
        invariant
            i <= v@.len(),
            out@ =~= v@.take(i as int),
        decreases v@.len() - i,
    {
        out.push(v[i]);
        proof {
            assert(out@ =~= v@.take(i as int + 1));
        }
        i = i + 1;
    }
    proof {
        assert(v@.take(v@.len() as int) =~= v@);
    }
    out
}

/// Compute the row-major flat position of a valid coordinate.
pub fn flat_of(shape: &Vec<usize>, c: &Vec<usize>) -> (r: usize)
    requires
        in_bounds(shape@, c@),
        size_of_shape(shape@) <= usize::MAX,
    ensures
        r == flat_index(shape@, c@),
{
    let n = c.len();
    let mut k = n;
    let mut stride: usize = 1;
    let mut acc: usize = 0;
    while k > 0
        invariant
            0 <= k <= n,
            n == c@.len() == shape@.len(),
            in_bounds(shape@, c@),
            size_of_shape(shape@) <= usize::MAX,
            stride == size_of_shape(shape@.skip(k as int)),
            acc == flat_index(shape@.skip(k as int), c@.skip(k as int)),
        decreases k,
    {
        let ghost old_k = k as int;
        proof {
            lemma_suffix_step(shape@, c@, old_k - 1);
            lemma_size_split(shape@, old_k - 1);
            assert(size_of_shape(shape@.take(old_k - 1)) >= 1) by {
                lemma_size_zero(shape@.take(old_k - 1));
            }
            lemma_mul_inequality(
                1,
                size_of_shape(shape@.take(old_k - 1)) as int,
                size_of_shape(shape@.skip(old_k - 1)) as int,
            );
            lemma_flat_index_bound(shape@.skip(old_k - 1), c@.skip(old_k - 1));
        }
        k = k - 1;
        acc = c[k] * stride + acc;
        stride = shape[k] * stride;
    }
    proof {
        assert(shape@.skip(0) =~= shape@);
        assert(c@.skip(0) =~= c@);
    }
    acc
}

/// One step of suffix recursion: the size and the flat position over the
/// suffix starting at `k` unfold into the axis at `k` and the suffix
/// starting at `k + 1`.
pub proof fn lemma_suffix_step(shape: Seq<usize>, c: Seq<usize>, k: int)
    requires
        in_bounds(shape, c),
        0 <= k < shape.len(),
    ensures
        in_bounds(shape.skip(k), c.skip(k)),
        in_bounds(shape.skip(k + 1), c.skip(k + 1)),
        size_of_shape(shape.skip(k)) == shape[k] * size_of_shape(shape.skip(k + 1)),
        flat_index(shape.skip(k), c.skip(k)) == c[k] * size_of_shape(shape.skip(k + 1))
            + flat_index(shape.skip(k + 1), c.skip(k + 1)),
{
    assert(shape.skip(k).skip(1) =~= shape.skip(k + 1));
    assert(c.skip(k).skip(1) =~= c.skip(k + 1));
    assert(shape.skip(k)[0] == shape[k]);
    assert(c.skip(k)[0] == c[k]);
    assert(forall|i: int|
        0 <= i < c.skip(k).len() ==> c.skip(k)[i] == #[trigger] c[k + i] && shape.skip(k)[i]
            == shape[k + i]);
    assert(forall|i: int|
        0 <= i < c.skip(k + 1).len() ==> c.skip(k + 1)[i] == #[trigger] c[k + 1 + i] && shape.skip(
            k + 1,
        )[i] == shape[k + 1 + i]);
}

} // verus!
