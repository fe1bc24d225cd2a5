//! Row-major traversal of a coordinate space.
//!
//! Gather and scatter visit every coordinate of the index array in
//! row-major order. The traversal keeps a coordinate vector and advances
//! it one position at a time; [`advance_from`] proves that advancing moves
//! the coordinate's flat position up by exactly one.

use crate::tensor::{flat_index, in_bounds, lemma_suffix_step, size_of_shape};
use vstd::prelude::*;

verus! {

/// A fresh all-zero coordinate vector of the given rank.
pub fn zero_coord(n: usize) -> (r: Vec<usize>)
    ensures
        r@.len() == n,
        forall|k: int| 0 <= k < n ==> r@[k] == 0,
{
    let mut v: Vec<usize> = Vec::new();
    let mut i: usize = 0;
    while i < n
        invariant
            i <= n,
            v@.len() == i,
            forall|k: int| 0 <= k < i ==> v@[k] == 0,
        decreases n - i,
    {
        v.push(0);
        i = i + 1;
    }
    v
}

/// An owned copy of a coordinate vector.
pub fn copy_coord(c: &Vec<usize>) -> (r: Vec<usize>)
    ensures
        r@ == c@,
{
    let mut v: Vec<usize> = Vec::new();
    let mut i: usize = 0;
    while i < c.len()
        invariant
            i <= c@.len(),
            v@ =~= c@.take(i as int),
        decreases c@.len() - i,
    {
        let ghost prev = v@;
        v.push(c[i]);
        proof {
            assert(v@ =~= c@.take(i as int + 1));
        }
        i = i + 1;
    }
    proof {
        assert(c@.take(c@.len() as int) =~= c@);
    }
    v
}

/// Whether two shape vectors name the same extents.
pub fn shapes_equal(a: &Vec<usize>, b: &Vec<usize>) -> (r: bool)
    ensures
        r <==> a@ == b@,
{
    if a.len() != b.len() {
        return false;
    }
    let n = a.len();
    let mut i: usize = 0;
    while i < n
        invariant
            i <= n,
            n == a@.len() == b@.len(),
            forall|k: int| 0 <= k < i ==> a@[k] == b@[k],
        decreases n - i,
    {
        if a[i] != b[i] {
            return false;
        }
        i = i + 1;
    }
    proof {
        assert(a@ =~= b@);
    }
    true
}

/// The all-zero coordinate sits at flat position zero.
pub proof fn lemma_flat_index_zero(shape: Seq<usize>, c: Seq<usize>)
    requires
        c.len() == shape.len(),
        forall|k: int| 0 <= k < c.len() ==> c[k] == 0,
    ensures
        flat_index(shape, c) == 0,
    decreases c.len(),
{
    if c.len() > 0 {
        assert(forall|k: int|
            0 <= k < c.skip(1).len() ==> c.skip(1)[k] == #[trigger] c[k + 1]);
        lemma_flat_index_zero(shape.skip(1), c.skip(1));
    }
}

/// Advance the trailing part `c[k..]` of a coordinate to the next position
/// of shape `shape[k..]` in row-major order, leaving `c[..k]` untouched.
/// Returns true when the trailing part was at its last position and has
/// wrapped around to all zeros.
pub fn advance_from(shape: &Vec<usize>, c: &mut Vec<usize>, k: usize) -> (wrapped: bool)
    requires
        k <= shape@.len(),
        in_bounds(shape@, old(c)@),
    ensures
        final(c)@.len() == old(c)@.len(),
        forall|i: int| 0 <= i < k ==> final(c)@[i] == old(c)@[i],
        in_bounds(shape@, final(c)@),
        wrapped ==> flat_index(shape@.skip(k as int), old(c)@.skip(k as int)) == size_of_shape(
            shape@.skip(k as int),
        ) - 1 && flat_index(shape@.skip(k as int), final(c)@.skip(k as int)) == 0,
        !wrapped ==> flat_index(shape@.skip(k as int), final(c)@.skip(k as int)) == flat_index(
            shape@.skip(k as int),
            old(c)@.skip(k as int),
        ) + 1,
    decreases shape@.len() - k,
{
    let n = c.len();
    if k == n {
        proof {
            assert(shape@.skip(n as int) =~= Seq::<usize>::empty());
            assert(c@.skip(n as int) =~= Seq::<usize>::empty());
        }
        return true;
    }
    let ghost c0 = c@;
    let wrapped_tail = advance_from(shape, c, k + 1);
    let ghost c1 = c@;
    proof {
        assert(in_bounds(shape@, c1));
        lemma_suffix_step(shape@, c0, k as int);
        lemma_suffix_step(shape@, c1, k as int);
        assert(c1[k as int] == c0[k as int]);
    }
    let ghost s = size_of_shape(shape@.skip(k as int + 1));
    if !wrapped_tail {
        return false;
    }
    if c[k] + 1 < shape[k] {
        let next = c[k] + 1;
        c.set(k, next);
        proof {
            let c2 = c@;
            assert(c2 =~= c1.update(k as int, next));
            assert(c2.skip(k as int + 1) =~= c1.skip(k as int + 1));
            assert(forall|i: int| 0 <= i < c2.len() && i != k ==> c2[i] == c1[i]);
            assert(in_bounds(shape@, c2));
            lemma_suffix_step(shape@, c2, k as int);
            assert((c0[k as int] as int + 1) * s == c0[k as int] as int * s + s)
                by (nonlinear_arith);
        }
        return false;
    }
    c.set(k, 0);
    proof {
        let c2 = c@;
        assert(c2 =~= c1.update(k as int, 0usize));
        assert(c2.skip(k as int + 1) =~= c1.skip(k as int + 1));
        assert(forall|i: int| 0 <= i < c2.len() && i != k ==> c2[i] == c1[i]);
        assert(in_bounds(shape@, c2));
        lemma_suffix_step(shape@, c2, k as int);
        assert(c0[k as int] == shape@[k as int] - 1);
        assert((shape@[k as int] as int - 1) * s + s == shape@[k as int] as int * s)
            by (nonlinear_arith);
    }
    true
}

} // verus!
