//! Stride layouts: how the elements of an n-dimensional array are spaced in
//! memory. Strides are measured in bytes.

use vstd::prelude::*;

use crate::{lemma_prod_nonneg, lemma_prod_skip, prod};

verus! {

/// Size in bytes of one machine word on the targets this crate supports.
pub const WORD_SIZE: usize = 8;

/// The byte stride of axis `k` in a packed layout: one element of `elem_size`
/// bytes for every full run of the axes behind `k`.
pub open spec fn packed_stride(shape: Seq<usize>, elem_size: int, k: int) -> int {
    elem_size * prod(shape.skip(k + 1))
}

/// Pack array elements as tight as possible into one continuous block. This
/// might lead to inefficiencies with array alignment (see [`stride_strided`]).
pub fn stride_packed<const N: usize>(shape: &[usize; N], elem_size: usize) -> (stride: [usize; N])
    requires
        N >= 1,
        forall|k: int|
            1 <= k < N ==> elem_size * prod(shape@.skip(k)) <= usize::MAX,
    ensures
        forall|k: int| 0 <= k < N ==> #[trigger] stride@[k] == packed_stride(shape@, elem_size as int, k),
{
    let mut stride: [usize; N] = vstd::array::array_fill_for_copy_types(elem_size);
    proof {
        assert(shape@.skip(N as int) =~= Seq::<usize>::empty());
    }
    let mut index: usize = N - 1;
    while index > 0
        invariant
            0 <= index < N,
            forall|k: int|
                1 <= k < N ==> elem_size * prod(shape@.skip(k)) <= usize::MAX,
            forall|k: int|
                index <= k < N ==> #[trigger] stride@[k] == packed_stride(
                    shape@,
                    elem_size as int,
                    k,
                ),
        decreases index,
    {
        index = index - 1;
        let next = index + 1;
        proof {
            lemma_prod_skip(shape@, next as int);
            lemma_prod_nonneg(shape@.skip(next + 1));
            assert(shape@[next as int] * (elem_size * prod(shape@.skip(next + 1))) == elem_size
                * (shape@[next as int] * prod(shape@.skip(next + 1)))) by (nonlinear_arith);
            assert(shape@[next as int] * stride@[next as int] == elem_size * prod(
                shape@.skip(next as int),
            ));
        }
        stride[index] = shape[next] * stride[next];
    }
    stride
}

/// Align array elements to word boundaries so the cpu can load them using
/// fewer instructions: the element size is padded up to the next multiple of
/// [`WORD_SIZE`] before the packed recurrence is applied.
pub fn stride_strided<const N: usize>(shape: &[usize; N], elem_size: usize) -> (stride: [usize; N])
    requires
        N >= 1,
        elem_size >= 1,
        padded_size(elem_size as int) <= usize::MAX,
        forall|k: int|
            1 <= k < N ==> padded_size(elem_size as int) * prod(shape@.skip(k)) <= usize::MAX,
    ensures
        forall|k: int|
            0 <= k < N ==> #[trigger] stride@[k] == packed_stride(
                shape@,
                padded_size(elem_size as int),
                k,
            ),
{
    // the padded size is the next largest multiple of the word size
    let padded: usize = (1 + ((elem_size - 1) / WORD_SIZE)) * WORD_SIZE;
    stride_packed(shape, padded)
}

/// The element size rounded up to the next multiple of [`WORD_SIZE`].
pub open spec fn padded_size(elem_size: int) -> int {
    (1 + ((elem_size - 1) / (WORD_SIZE as int))) * (WORD_SIZE as int)
}

} // verus!
