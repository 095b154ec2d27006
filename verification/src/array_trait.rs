//! The core [`Array`] trait, shared by owning and borrowed arrays, and the
//! [`Initialize`] trait for the arrays that can be created from scratch.

use vstd::prelude::*;

use crate::array::BorrowedArray;
use crate::error::Error;
use crate::prod;

verus! {

/// Whether `ix` addresses an element of an array of the given shape.
pub open spec fn in_bounds(ix: Seq<usize>, shape: Seq<usize>) -> bool {
    &&& ix.len() == shape.len()
    &&& forall|k: int| 0 <= k < ix.len() ==> ix[k] < shape[k]
}

/// The linear offset of a multi-index under the given per-axis strides:
/// the sum over all axes of `ix[k] * stride[k]`.
pub open spec fn offset_of(ix: Seq<usize>, stride: Seq<usize>) -> int
    decreases ix.len(),
{
    if ix.len() == 0 {
        0
    } else {
        ix[0] * stride[0] + offset_of(ix.skip(1), stride.skip(1))
    }
}

/// The first axis on which `ix` leaves the bounds of `shape`.
pub open spec fn first_oob(ix: Seq<usize>, shape: Seq<usize>) -> int
    decreases ix.len(),
{
    if ix.len() == 0 {
        0
    } else if ix[0] >= shape[0] {
        0
    } else {
        1 + first_oob(ix.skip(1), shape.skip(1))
    }
}

/// The largest multi-index an array of the given shape can be read at.
pub open spec fn max_ix(shape: Seq<usize>) -> Seq<usize> {
    Seq::new(shape.len(), |k: int| (shape[k] - 1) as usize)
}

/// Two multi-indices added axis by axis.
pub open spec fn ix_add(a: Seq<usize>, b: Seq<usize>) -> Seq<usize> {
    Seq::new(a.len(), |k: int| (a[k] + b[k]) as usize)
}

/// The error that a bounds check on `ix` against `shape` reports: it names the
/// first offending axis, the index handed in for it, and the axis length.
pub open spec fn oob_error(ix: Seq<usize>, shape: Seq<usize>) -> Error {
    Error::IndexOutOfBounds {
        ix: ix[first_oob(ix, shape)],
        axis_ix: first_oob(ix, shape) as usize,
        axis_size: shape[first_oob(ix, shape)],
    }
}

/// The packed layout over `shape`: the buffer holds exactly `prod(shape)`
/// elements, the element strides are the suffix products of the shape, and
/// the byte strides scale them by the element size. Owning arrays are always
/// laid out this way; their constructors promise it.
pub open spec fn packed_layout<T, const N: usize, A: Array<T, N>>(a: A, shape: Seq<usize>) -> bool {
    &&& a.buf().len() == prod(shape)
    &&& forall|k: int| 0 <= k < N ==> #[trigger] a.spec_estride()[k] == prod(shape.skip(k + 1))
    &&& forall|k: int|
        0 <= k < N ==> #[trigger] a.spec_stride()[k] == vstd::layout::size_of::<T>() * prod(
            shape.skip(k + 1),
        )
}

/// Trait defining core array behaviour.
///
/// An array addresses a rectangular region of a flat element buffer: element
/// `ix` lives at buffer position `base() + offset_of(ix, spec_estride())`.
/// The byte strides reported by [`Array::stride`] are the element strides
/// scaled by the element size.
pub trait Array<T, const N: usize>: Sized {
    /// The well-formedness every live array maintains.
    spec fn wf(&self) -> bool;

    /// The axis lengths.
    spec fn spec_shape(&self) -> Seq<usize>;

    /// The per-axis distances between consecutive elements, in bytes.
    spec fn spec_stride(&self) -> Seq<usize>;

    /// The per-axis distances between consecutive elements, in elements of the
    /// underlying buffer.
    spec fn spec_estride(&self) -> Seq<usize>;

    /// The flat buffer the array reads from.
    spec fn buf(&self) -> Seq<T>;

    /// The buffer position of the element at multi-index zero.
    spec fn base(&self) -> int;

    /// Facts every well-formed array provides to its callers.
    proof fn wf_facts(&self)
        requires
            self.wf(),
        ensures
            self.spec_shape().len() == N,
            self.spec_stride().len() == N,
            self.spec_estride().len() == N,
            self.base() >= 0,
            prod(self.spec_shape()) <= usize::MAX,
            N >= 1,
    ;

    /// Get the shape of the array.
    fn shape(&self) -> (shape: [usize; N])
        ensures
            shape@ == self.spec_shape(),
    ;

    /// Get the stride of the array. The stride refers to the number of bytes
    /// between successive elements in memory.
    fn stride(&self) -> (stride: [usize; N])
        ensures
            stride@ == self.spec_stride(),
    ;

    /// Get the number of elements in the array.
    fn size(&self) -> (size: usize)
        requires
            self.wf(),
        ensures
            size == prod(self.spec_shape()),
    ;

    /// Get the internal byte offset from dimension indices and array stride,
    /// or an error naming the first axis whose index is out of bounds.
    fn _get_internal_ix(&self, ix: &[usize; N]) -> (r: Result<usize, Error>)
        requires
            self.wf(),
        ensures
            in_bounds(ix@, self.spec_shape()) ==> r == Ok::<usize, Error>(
                offset_of(ix@, self.spec_stride()) as usize,
            ),
            !in_bounds(ix@, self.spec_shape()) ==> r == Err::<usize, Error>(
                oob_error(ix@, self.spec_shape()),
            ),
    ;

    /// Return a reference to the element at a multi-index, or an error naming
    /// the first axis whose index is out of bounds.
    fn get(&self, ix: &[usize; N]) -> (r: Result<&T, Error>)
        requires
            self.wf(),
        ensures
            in_bounds(ix@, self.spec_shape()) ==> (r matches Ok(v) && *v == self.buf()[self.base()
                + offset_of(ix@, self.spec_estride())]),
            !in_bounds(ix@, self.spec_shape()) ==> r == Err::<&T, Error>(
                oob_error(ix@, self.spec_shape()),
            ),
    ;

    /// Create a view of the array over the rectangular region `[i1, i2)`. The
    /// view shares the array's buffer and stride; its shape is `i2 - i1`
    /// axis by axis. An empty region (some `i1[k] == i2[k]`) is allowed.
    fn borrow<'a>(&'a self, i1: &[usize; N], i2: &[usize; N]) -> (r: Result<
        BorrowedArray<'a, T, N>,
        Error,
    >)
        requires
            self.wf(),
            forall|k: int| 0 <= k < N ==> i1@[k] <= i2@[k],
            forall|k: int| 0 <= k < N ==> i2@[k] <= self.spec_shape()[k],
        ensures
            in_bounds(i1@, self.spec_shape()) ==> (r matches Ok(v) && {
                &&& v.inv()
                &&& v.shape_seq() == Seq::new(N as nat, |k: int| (i2@[k] - i1@[k]) as usize)
                &&& v.stride_seq() == self.spec_stride()
                &&& v.estride_seq() == self.spec_estride()
                &&& v.buf_seq() == self.buf()
                &&& v.start_of() == self.base() + offset_of(i1@, self.spec_estride())
            }),
            !in_bounds(i1@, self.spec_shape()) ==> (r matches Err(e) && e == oob_error(
                i1@,
                self.spec_shape(),
            )),
    ;
}

/// A trait for arrays that can be initialized. (Borrowed arrays cannot be
/// created from scratch and therefore do not implement [`Initialize`].)
pub trait Initialize<T: Copy + Default, const N: usize>: Array<T, N> {
    /// Build an array that takes ownership of an existing element buffer,
    /// laid out packed for the given shape.
    fn from_parts(data: Vec<T>, shape: &[usize; N]) -> (r: Self)
        requires
            N >= 1,
            data@.len() == prod(shape@),
            forall|k: int| 0 <= k <= N ==> prod(shape@.skip(k)) <= usize::MAX,
            forall|k: int|
                0 <= k <= N ==> vstd::layout::size_of::<T>() * prod(shape@.skip(k)) <= usize::MAX,
        ensures
            r.wf(),
            r.spec_shape() == shape@,
            r.buf() == data@,
            r.base() == 0,
            packed_layout(r, shape@),
    ;

    /// Create an array whose contents carry no promise: nothing may be assumed
    /// about an element before it has been written.
    fn uninitialized(shape: &[usize; N]) -> (r: Self)
        requires
            N >= 1,
            forall|k: int| 0 <= k <= N ==> prod(shape@.skip(k)) <= usize::MAX,
            forall|k: int|
                0 <= k <= N ==> vstd::layout::size_of::<T>() * prod(shape@.skip(k)) <= usize::MAX,
        ensures
            r.wf(),
            r.spec_shape() == shape@,
            r.base() == 0,
            packed_layout(r, shape@),
    ;

    /// Create a new array where every element equals `item`.
    fn fill(item: T, shape: &[usize; N]) -> (r: Self)
        requires
            N >= 1,
            forall|k: int| 0 <= k <= N ==> prod(shape@.skip(k)) <= usize::MAX,
            forall|k: int|
                0 <= k <= N ==> vstd::layout::size_of::<T>() * prod(shape@.skip(k)) <= usize::MAX,
        ensures
            r.wf(),
            r.spec_shape() == shape@,
            r.base() == 0,
            packed_layout(r, shape@),
            forall|off: int| 0 <= off < prod(shape@) ==> r.buf()[off] == item,
    ;
}

} // verus!
