//! The owning [`BaseArray`] type and the [`BorrowedArray`] view type.

use vstd::prelude::*;

use crate::array_trait::{
    first_oob, in_bounds, ix_add, max_ix, offset_of, oob_error, packed_layout, Array, Initialize,
};
use crate::allocation::stride_packed;
use crate::error::Error;
use crate::scalar::Scalar;
use crate::{lemma_prod_nonneg, lemma_prod_skip, prod};

verus! {

/// An n-dimensional array owning its elements.
pub struct BaseArray<T, const N: usize> {
    /// The elements, packed in row-major order.
    data: Vec<T>,
    /// Number of bytes between successive elements, per axis.
    stride: [usize; N],
    /// Number of buffer elements between successive array elements, per axis.
    estride: [usize; N],
    /// Axis sizes.
    shape: [usize; N],
}

/// A view of an array: it shares the element buffer of the array it was
/// borrowed from and exposes a rectangular sub-region of it.
pub struct BorrowedArray<'a, T, const N: usize> {
    /// The shared element buffer of the underlying owning array.
    data: &'a Vec<T>,
    /// Buffer position of the view's first element.
    start: usize,
    /// Number of elements the view addresses.
    size: usize,
    /// Number of bytes between successive elements, per axis.
    stride: [usize; N],
    /// Number of buffer elements between successive array elements, per axis.
    estride: [usize; N],
    /// Axis sizes.
    shape: [usize; N],
}

/// Type alias for one-dimensional arrays
pub type Array1<T> = BaseArray<T, 1>;

/// Type alias for two-dimensional arrays
pub type Array2<T> = BaseArray<T, 2>;

/// Type alias for three-dimensional arrays
pub type Array3<T> = BaseArray<T, 3>;

/// The number of elements a vector holds always fits the machine's word.
proof fn lemma_vec_len_bound<T>(v: &Vec<T>)
    ensures
        v@.len() <= usize::MAX,
{
    assert(vstd::std_specs::vec::spec_vec_len(v) == v@.len());
}

/// A linear offset is never negative.
pub proof fn lemma_offset_nonneg(ix: Seq<usize>, st: Seq<usize>)
    ensures
        offset_of(ix, st) >= 0,
    decreases ix.len(),
{
    if ix.len() > 0 {
        lemma_offset_nonneg(ix.skip(1), st.skip(1));
        assert(ix[0] * st[0] >= 0) by (nonlinear_arith)
            requires
                ix[0] >= 0,
                st[0] >= 0,
        ;
    }
}

/// Raising any index can only move the linear offset forward.
pub proof fn lemma_offset_monotone(a: Seq<usize>, b: Seq<usize>, st: Seq<usize>)
    requires
        a.len() == b.len(),
        forall|k: int| 0 <= k < a.len() ==> a[k] <= b[k],
    ensures
        offset_of(a, st) <= offset_of(b, st),
    decreases a.len(),
{
    if a.len() > 0 {
        lemma_offset_monotone(a.skip(1), b.skip(1), st.skip(1));
        assert(a[0] * st[0] <= b[0] * st[0]) by (nonlinear_arith)
            requires
                0 <= a[0] <= b[0],
                st[0] >= 0,
        ;
    }
}

/// Under the packed element strides of `shape`, every in-bounds multi-index
/// lands strictly inside the `prod(shape)` elements the shape addresses.
pub proof fn lemma_offset_in_prod(ix: Seq<usize>, shape: Seq<usize>, st: Seq<usize>)
    requires
        in_bounds(ix, shape),
        st.len() == ix.len(),
        forall|k: int| 0 <= k < st.len() ==> #[trigger] st[k] == prod(shape.skip(k + 1)),
    ensures
        0 <= offset_of(ix, st),
        offset_of(ix, st) < prod(shape),
    decreases ix.len(),
{
    lemma_offset_nonneg(ix, st);
    if ix.len() == 0 {
    } else {
        let p1 = prod(shape.skip(1));
        assert forall|k: int| 0 <= k < st.skip(1).len() implies st.skip(1)[k] == prod(
            shape.skip(1).skip(k + 1),
        ) by {
            assert(shape.skip(1).skip(k + 1) =~= shape.skip(k + 2));
            assert(st.skip(1)[k] == st[k + 1]);
            assert(st[k + 1] == prod(shape.skip(k + 2)));
        }
        lemma_offset_in_prod(ix.skip(1), shape.skip(1), st.skip(1));
        lemma_offset_nonneg(ix.skip(1), st.skip(1));
        assert(st[0] == p1);
        assert(ix[0] * p1 + offset_of(ix.skip(1), st.skip(1)) < shape[0] * p1) by (nonlinear_arith)
            requires
                0 <= ix[0] < shape[0],
                0 <= offset_of(ix.skip(1), st.skip(1)) < p1,
        ;
        lemma_prod_skip(shape, 0);
        assert(shape.skip(0) =~= shape);
    }
}

/// Linear offsets add when multi-indices are added axis by axis.
pub proof fn lemma_offset_linear(a: Seq<usize>, b: Seq<usize>, st: Seq<usize>)
    requires
        a.len() == b.len(),
        st.len() == a.len(),
        forall|k: int| 0 <= k < a.len() ==> a[k] + b[k] <= usize::MAX,
    ensures
        offset_of(ix_add(a, b), st) == offset_of(a, st) + offset_of(b, st),
    decreases a.len(),
{
    if a.len() > 0 {
        assert(ix_add(a, b).skip(1) =~= ix_add(a.skip(1), b.skip(1)));
        lemma_offset_linear(a.skip(1), b.skip(1), st.skip(1));
        assert(ix_add(a, b)[0] == a[0] + b[0]);
        assert((a[0] + b[0]) * st[0] == a[0] * st[0] + b[0] * st[0]) by (nonlinear_arith);
    }
}

/// Scaling every stride by the element width scales the offset with it.
pub proof fn lemma_offset_scale(ix: Seq<usize>, est: Seq<usize>, st: Seq<usize>, w: int)
    requires
        est.len() == ix.len(),
        st.len() == ix.len(),
        w >= 0,
        forall|k: int| 0 <= k < st.len() ==> st[k] == w * est[k],
    ensures
        offset_of(ix, st) == w * offset_of(ix, est),
    decreases ix.len(),
{
    if ix.len() == 0 {
        assert(w * 0 == 0) by (nonlinear_arith);
    } else {
        lemma_offset_scale(ix.skip(1), est.skip(1), st.skip(1), w);
        assert(st[0] == w * est[0]);
        assert(ix[0] * (w * est[0]) + w * offset_of(ix.skip(1), est.skip(1)) == w * (ix[0] * est[0]
            + offset_of(ix.skip(1), est.skip(1)))) by (nonlinear_arith);
    }
}

/// The first out-of-bounds axis is exactly where a left-to-right scan of the
/// axes finds the bounds check failing.
pub proof fn lemma_first_oob_at(ix: Seq<usize>, shape: Seq<usize>, k: int)
    requires
        ix.len() == shape.len(),
        0 <= k < ix.len(),
        forall|j: int| 0 <= j < k ==> ix[j] < shape[j],
        ix[k] >= shape[k],
    ensures
        first_oob(ix, shape) == k,
        ix[first_oob(ix, shape)] >= shape[first_oob(ix, shape)],
    decreases k,
{
    if k > 0 {
        lemma_first_oob_at(ix.skip(1), shape.skip(1), k - 1);
    }
}

/// Distinct in-bounds multi-indices land on distinct flat offsets under the
/// packed element strides: a write through one multi-index leaves the element
/// at every other in-bounds multi-index unchanged.
pub proof fn lemma_offset_injective(
    ix1: Seq<usize>,
    ix2: Seq<usize>,
    shape: Seq<usize>,
    st: Seq<usize>,
)
    requires
        in_bounds(ix1, shape),
        in_bounds(ix2, shape),
        st.len() == shape.len(),
        forall|k: int| 0 <= k < st.len() ==> #[trigger] st[k] == prod(shape.skip(k + 1)),
        ix1 != ix2,
    ensures
        offset_of(ix1, st) != offset_of(ix2, st),
    decreases ix1.len(),
{
    if ix1.len() == 0 {
        assert(ix1 =~= ix2);
    } else {
        let p1 = prod(shape.skip(1));
        assert forall|k: int| 0 <= k < st.skip(1).len() implies #[trigger] st.skip(1)[k] == prod(
            shape.skip(1).skip(k + 1),
        ) by {
            assert(shape.skip(1).skip(k + 1) =~= shape.skip(k + 2));
            assert(st.skip(1)[k] == st[k + 1]);
            assert(st[k + 1] == prod(shape.skip(k + 2)));
        }
        assert(in_bounds(ix1.skip(1), shape.skip(1)) && in_bounds(ix2.skip(1), shape.skip(1))) by {
            assert forall|k: int| 0 <= k < ix1.skip(1).len() implies ix1.skip(1)[k] < shape.skip(
                1,
            )[k] && ix2.skip(1)[k] < shape.skip(1)[k] by {
                assert(ix1.skip(1)[k] == ix1[k + 1]);
                assert(ix2.skip(1)[k] == ix2[k + 1]);
                assert(shape.skip(1)[k] == shape[k + 1]);
            }
        }
        lemma_offset_in_prod(ix1.skip(1), shape.skip(1), st.skip(1));
        lemma_offset_in_prod(ix2.skip(1), shape.skip(1), st.skip(1));
        assert(st[0] == p1);
        if ix1[0] < ix2[0] {
            assert(ix1[0] * p1 + offset_of(ix1.skip(1), st.skip(1)) < ix2[0] * p1 + offset_of(
                ix2.skip(1),
                st.skip(1),
            )) by (nonlinear_arith)
                requires
                    ix1[0] + 1 <= ix2[0],
                    0 <= offset_of(ix1.skip(1), st.skip(1)) < p1,
                    0 <= offset_of(ix2.skip(1), st.skip(1)),
            ;
        } else if ix2[0] < ix1[0] {
            assert(ix2[0] * p1 + offset_of(ix2.skip(1), st.skip(1)) < ix1[0] * p1 + offset_of(
                ix1.skip(1),
                st.skip(1),
            )) by (nonlinear_arith)
                requires
                    ix2[0] + 1 <= ix1[0],
                    0 <= offset_of(ix2.skip(1), st.skip(1)) < p1,
                    0 <= offset_of(ix1.skip(1), st.skip(1)),
            ;
        } else {
            assert(ix1.skip(1) != ix2.skip(1)) by {
                if ix1.skip(1) == ix2.skip(1) {
                    assert forall|k: int| 0 <= k < ix1.len() implies ix1[k] == ix2[k] by {
                        if k > 0 {
                            assert(ix1.skip(1)[k - 1] == ix1[k]);
                            assert(ix2.skip(1)[k - 1] == ix2[k]);
                        }
                    }
                    assert(ix1 =~= ix2);
                }
            }
            lemma_offset_injective(ix1.skip(1), ix2.skip(1), shape.skip(1), st.skip(1));
        }
    }
}

/// A failed bounds check names an axis whose index reached its length: the
/// index the error reports is at or past the bound it reports.
pub proof fn lemma_oob_index_exceeds_bound(ix: Seq<usize>, shape: Seq<usize>)
    requires
        ix.len() == shape.len(),
        !in_bounds(ix, shape),
    ensures
        0 <= first_oob(ix, shape) < ix.len(),
        ix[first_oob(ix, shape)] >= shape[first_oob(ix, shape)],
    decreases ix.len(),
{
    if ix.len() > 0 && ix[0] < shape[0] {
        assert(!in_bounds(ix.skip(1), shape.skip(1))) by {
            if in_bounds(ix.skip(1), shape.skip(1)) {
                assert forall|k: int| 0 <= k < ix.len() implies ix[k] < shape[k] by {
                    if k > 0 {
                        assert(ix.skip(1)[k - 1] == ix[k]);
                        assert(shape.skip(1)[k - 1] == shape[k]);
                    }
                }
            }
        }
        lemma_oob_index_exceeds_bound(ix.skip(1), shape.skip(1));
        let f = first_oob(ix.skip(1), shape.skip(1));
        assert(ix.skip(1)[f] == ix[f + 1]);
        assert(shape.skip(1)[f] == shape[f + 1]);
    }
}

/// Shrinking any axis can only shrink the element count.
pub proof fn lemma_prod_monotone(a: Seq<usize>, b: Seq<usize>)
    requires
        a.len() == b.len(),
        forall|k: int| 0 <= k < a.len() ==> a[k] <= b[k],
    ensures
        prod(a) <= prod(b),
    decreases a.len(),
{
    if a.len() > 0 {
        lemma_prod_monotone(a.skip(1), b.skip(1));
        lemma_prod_nonneg(a.skip(1));
        assert(a[0] * prod(a.skip(1)) <= b[0] * prod(b.skip(1))) by (nonlinear_arith)
            requires
                0 <= a[0] <= b[0],
                0 <= prod(a.skip(1)) <= prod(b.skip(1)),
        ;
    }
}

/// A shape with no empty axis addresses at least one element.
pub proof fn lemma_prod_pos(s: Seq<usize>)
    requires
        forall|k: int| 0 <= k < s.len() ==> s[k] >= 1,
    ensures
        prod(s) >= 1,
    decreases s.len(),
{
    if s.len() > 0 {
        lemma_prod_pos(s.skip(1));
        assert(s[0] * prod(s.skip(1)) >= 1) by (nonlinear_arith)
            requires
                s[0] >= 1,
                prod(s.skip(1)) >= 1,
        ;
    }
}

/// Scan the axes left to right and report the first whose index is out of
/// bounds, if any.
fn find_oob<const N: usize>(ix: &[usize; N], shape: &[usize; N]) -> (r: Option<usize>)
    ensures
        (r is None) <==> in_bounds(ix@, shape@),
        !in_bounds(ix@, shape@) ==> r == Some(first_oob(ix@, shape@) as usize) && 0 <= first_oob(
            ix@,
            shape@,
        ) < N,
{
    let mut k: usize = 0;
    while k < N
        invariant
            0 <= k <= N,
            forall|j: int| 0 <= j < k ==> ix@[j] < shape@[j],
        decreases N - k,
    {
        if ix[k] >= shape[k] {
            proof {
                lemma_first_oob_at(ix@, shape@, k as int);
            }
            return Some(k);
        }
        k = k + 1;
    }
    None
}

/// Sum over all axes of `ix[k] * st[k]`.
fn dot<const N: usize>(ix: &[usize; N], st: &[usize; N]) -> (r: usize)
    requires
        offset_of(ix@, st@) <= usize::MAX,
    ensures
        r == offset_of(ix@, st@),
{
    let mut off: usize = 0;
    let mut k: usize = 0;
    proof {
        assert(ix@.skip(0) =~= ix@);
        assert(st@.skip(0) =~= st@);
        lemma_offset_nonneg(ix@, st@);
    }
    while k < N
        invariant
            0 <= k <= N,
            offset_of(ix@, st@) <= usize::MAX,
            off + offset_of(ix@.skip(k as int), st@.skip(k as int)) == offset_of(ix@, st@),
        decreases N - k,
    {
        proof {
            let ki = k as int;
            assert(ix@.skip(ki).skip(1) =~= ix@.skip(ki + 1));
            assert(st@.skip(ki).skip(1) =~= st@.skip(ki + 1));
            assert(ix@.skip(ki)[0] == ix@[ki]);
            assert(st@.skip(ki)[0] == st@[ki]);
            assert(offset_of(ix@.skip(ki), st@.skip(ki)) == ix@[ki] * st@[ki] + offset_of(
                ix@.skip(ki + 1),
                st@.skip(ki + 1),
            ));
            lemma_offset_nonneg(ix@.skip(ki + 1), st@.skip(ki + 1));
            assert(ix@[ki] * st@[ki] >= 0) by (nonlinear_arith)
                requires
                    ix@[ki] >= 0,
                    st@[ki] >= 0,
            ;
        }
        off = off + ix[k] * st[k];
        k = k + 1;
    }
    proof {
        assert(ix@.skip(N as int) =~= Seq::<usize>::empty());
        assert(st@.skip(N as int) =~= Seq::<usize>::empty());
    }
    off
}

/// Multiply the axis lengths together.
fn prod_exec<const N: usize>(shape: &[usize; N]) -> (r: usize)
    requires
        forall|k: int| 0 <= k <= N ==> prod(shape@.skip(k)) <= usize::MAX,
    ensures
        r == prod(shape@),
{
    let mut sz: usize = 1;
    let mut k: usize = N;
    proof {
        assert(shape@.skip(N as int) =~= Seq::<usize>::empty());
    }
    while k > 0
        invariant
            0 <= k <= N,
            forall|j: int| 0 <= j <= N ==> prod(shape@.skip(j)) <= usize::MAX,
            sz == prod(shape@.skip(k as int)),
        decreases k,
    {
        k = k - 1;
        proof {
            lemma_prod_skip(shape@, k as int);
            lemma_prod_nonneg(shape@.skip(k as int + 1));
        }
        sz = shape[k] * sz;
    }
    proof {
        assert(shape@.skip(0) =~= shape@);
    }
    sz
}

impl<T, const N: usize> Array<T, N> for BaseArray<T, N> {
    closed spec fn wf(&self) -> bool {
        &&& N >= 1
        &&& self.data@.len() == prod(self.shape@)
        &&& forall|k: int| 0 <= k < N ==> self.estride@[k] == prod(self.shape@.skip(k + 1))
        &&& forall|k: int|
            0 <= k < N ==> self.stride@[k] == vstd::layout::size_of::<T>() * prod(
                self.shape@.skip(k + 1),
            )
        &&& vstd::layout::size_of::<T>() * self.data@.len() <= usize::MAX
    }

    closed spec fn spec_shape(&self) -> Seq<usize> {
        self.shape@
    }

    closed spec fn spec_stride(&self) -> Seq<usize> {
        self.stride@
    }

    closed spec fn spec_estride(&self) -> Seq<usize> {
        self.estride@
    }

    closed spec fn buf(&self) -> Seq<T> {
        self.data@
    }

    closed spec fn base(&self) -> int {
        0
    }

    proof fn wf_facts(&self) {
        lemma_vec_len_bound(&self.data);
    }

    fn shape(&self) -> [usize; N] {
        self.shape
    }

    fn stride(&self) -> [usize; N] {
        self.stride
    }

    fn size(&self) -> usize {
        self.data.len()
    }

    fn _get_internal_ix(&self, ix: &[usize; N]) -> (r: Result<usize, Error>) {
        match find_oob(ix, &self.shape) {
            Some(axis) => Err(
                Error::IndexOutOfBounds { ix: ix[axis], axis_ix: axis, axis_size: self.shape[axis] },
            ),
            None => {
                proof {
                    let w = vstd::layout::size_of::<T>() as int;
                    lemma_offset_in_prod(ix@, self.shape@, self.estride@);
                    lemma_offset_scale(ix@, self.estride@, self.stride@, w);
                    assert(w * offset_of(ix@, self.estride@) <= w * self.data@.len())
                        by (nonlinear_arith)
                        requires
                            w >= 0,
                            offset_of(ix@, self.estride@) <= self.data@.len(),
                    ;
                }
                Ok(dot(ix, &self.stride))
            },
        }
    }

    fn get(&self, ix: &[usize; N]) -> (r: Result<&T, Error>) {
        match find_oob(ix, &self.shape) {
            Some(axis) => Err(
                Error::IndexOutOfBounds { ix: ix[axis], axis_ix: axis, axis_size: self.shape[axis] },
            ),
            None => {
                proof {
                    lemma_offset_in_prod(ix@, self.shape@, self.estride@);
                    lemma_vec_len_bound(&self.data);
                }
                let off = dot(ix, &self.estride);
                Ok(&self.data[off])
            },
        }
    }

    fn borrow<'a>(&'a self, i1: &[usize; N], i2: &[usize; N]) -> (r: Result<
        BorrowedArray<'a, T, N>,
        Error,
    >) {
        proof {
            lemma_vec_len_bound(&self.data);
            assert forall|k: int| 0 <= k <= N implies prod(self.shape@.skip(k)) <= usize::MAX by {
                if k == 0 {
                    assert(self.shape@.skip(0) =~= self.shape@);
                } else {
                    assert(self.estride@[k - 1] == prod(self.shape@.skip(k)));
                }
            }
            if prod(self.shape@) > 0 {
                lemma_prod_pos_each(self.shape@);
                lemma_offset_in_prod(max_ix(self.shape@), self.shape@, self.estride@);
            }
        }
        borrow_impl(&self.data, 0, &self.stride, &self.estride, &self.shape, i1, i2)
    }
}

impl<'a, T, const N: usize> BorrowedArray<'a, T, N> {
    /// The well-formedness every live view maintains.
    pub closed spec fn inv(&self) -> bool {
        &&& N >= 1
        &&& self.size == prod(self.shape@)
        &&& forall|k: int|
            0 <= k < N ==> self.stride@[k] == vstd::layout::size_of::<T>() * self.estride@[k]
        &&& forall|k: int| 0 <= k <= N ==> prod(self.shape@.skip(k)) <= usize::MAX
        &&& (prod(self.shape@) > 0 ==> self.start + offset_of(max_ix(self.shape@), self.estride@)
            < self.data@.len())
        &&& vstd::layout::size_of::<T>() * self.data@.len() <= usize::MAX
    }

    /// The view's axis lengths.
    pub closed spec fn shape_seq(&self) -> Seq<usize> {
        self.shape@
    }

    /// The view's byte strides, shared with the array it was borrowed from.
    pub closed spec fn stride_seq(&self) -> Seq<usize> {
        self.stride@
    }

    /// The view's element strides, shared with the array it was borrowed from.
    pub closed spec fn estride_seq(&self) -> Seq<usize> {
        self.estride@
    }

    /// The element buffer the view shares with the array it was borrowed from.
    pub closed spec fn buf_seq(&self) -> Seq<T> {
        self.data@
    }

    /// The buffer position of the view's first element.
    pub closed spec fn start_of(&self) -> int {
        self.start as int
    }
}

impl<'b, T, const N: usize> Array<T, N> for BorrowedArray<'b, T, N> {
    open spec fn wf(&self) -> bool {
        self.inv()
    }

    open spec fn spec_shape(&self) -> Seq<usize> {
        self.shape_seq()
    }

    open spec fn spec_stride(&self) -> Seq<usize> {
        self.stride_seq()
    }

    open spec fn spec_estride(&self) -> Seq<usize> {
        self.estride_seq()
    }

    open spec fn buf(&self) -> Seq<T> {
        self.buf_seq()
    }

    open spec fn base(&self) -> int {
        self.start_of()
    }

    proof fn wf_facts(&self) {
        assert(self.shape@.skip(0) =~= self.shape@);
    }

    fn shape(&self) -> [usize; N] {
        self.shape
    }

    fn stride(&self) -> [usize; N] {
        self.stride
    }

    fn size(&self) -> usize {
        self.size
    }

    fn _get_internal_ix(&self, ix: &[usize; N]) -> (r: Result<usize, Error>) {
        match find_oob(ix, &self.shape) {
            Some(axis) => Err(
                Error::IndexOutOfBounds { ix: ix[axis], axis_ix: axis, axis_size: self.shape[axis] },
            ),
            None => {
                proof {
                    self.lemma_access_in_buf(ix@);
                    let w = vstd::layout::size_of::<T>() as int;
                    lemma_offset_scale(ix@, self.estride@, self.stride@, w);
                    assert(w * offset_of(ix@, self.estride@) <= w * self.data@.len())
                        by (nonlinear_arith)
                        requires
                            w >= 0,
                            offset_of(ix@, self.estride@) <= self.data@.len(),
                    ;
                }
                Ok(dot(ix, &self.stride))
            },
        }
    }

    fn get(&self, ix: &[usize; N]) -> (r: Result<&T, Error>) {
        match find_oob(ix, &self.shape) {
            Some(axis) => Err(
                Error::IndexOutOfBounds { ix: ix[axis], axis_ix: axis, axis_size: self.shape[axis] },
            ),
            None => {
                proof {
                    self.lemma_access_in_buf(ix@);
                    lemma_vec_len_bound(self.data);
                }
                let off = dot(ix, &self.estride);
                Ok(&self.data[self.start + off])
            },
        }
    }

    fn borrow<'a>(&'a self, i1: &[usize; N], i2: &[usize; N]) -> (r: Result<
        BorrowedArray<'a, T, N>,
        Error,
    >) {
        borrow_impl(self.data, self.start, &self.stride, &self.estride, &self.shape, i1, i2)
    }
}

impl<'b, T, const N: usize> BorrowedArray<'b, T, N> {
    /// Every in-bounds multi-index of a well-formed view reads strictly inside
    /// the shared buffer.
    proof fn lemma_access_in_buf(&self, ix: Seq<usize>)
        requires
            self.inv(),
            in_bounds(ix, self.shape@),
        ensures
            0 <= offset_of(ix, self.estride@),
            self.start + offset_of(ix, self.estride@) < self.data@.len(),
    {
        lemma_offset_nonneg(ix, self.estride@);
        lemma_prod_pos(self.shape@);
        lemma_offset_monotone(ix, max_ix(self.shape@), self.estride@);
    }
}

/// The shared body of [`Array::borrow`]: bounds-check the lower corner, then
/// assemble the view over the same buffer.
#[allow(clippy::too_many_arguments)]
fn borrow_impl<'a, T, const N: usize>(
    data: &'a Vec<T>,
    start: usize,
    stride: &[usize; N],
    estride: &[usize; N],
    shape: &[usize; N],
    i1: &[usize; N],
    i2: &[usize; N],
) -> (r: Result<BorrowedArray<'a, T, N>, Error>)
    requires
        N >= 1,
        forall|k: int|
            0 <= k < N ==> stride@[k] == vstd::layout::size_of::<T>() * estride@[k],
        vstd::layout::size_of::<T>() * data@.len() <= usize::MAX,
        forall|k: int| 0 <= k <= N ==> prod(shape@.skip(k)) <= usize::MAX,
        prod(shape@) > 0 ==> start + offset_of(max_ix(shape@), estride@) < data@.len(),
        forall|k: int| 0 <= k < N ==> i1@[k] <= i2@[k],
        forall|k: int| 0 <= k < N ==> i2@[k] <= shape@[k],
    ensures
        in_bounds(i1@, shape@) ==> (r matches Ok(v) && {
            &&& v.inv()
            &&& v.shape_seq() == Seq::new(N as nat, |k: int| (i2@[k] - i1@[k]) as usize)
            &&& v.stride_seq() == stride@
            &&& v.estride_seq() == estride@
            &&& v.buf_seq() == data@
            &&& v.start_of() == start + offset_of(i1@, estride@)
        }),
        !in_bounds(i1@, shape@) ==> (r matches Err(e) && e == oob_error(i1@, shape@)),
{
    match find_oob(i1, shape) {
        Some(axis) => Err(
            Error::IndexOutOfBounds { ix: i1[axis], axis_ix: axis, axis_size: shape[axis] },
        ),
        None => {
            proof {
                lemma_vec_len_bound(data);
                lemma_prod_pos(shape@);
                lemma_offset_nonneg(i1@, estride@);
                lemma_offset_monotone(i1@, max_ix(shape@), estride@);
            }
            let off = dot(i1, estride);
            let vstart = start + off;
            // the view's shape: the region extent, axis by axis
            let mut d: [usize; N] = vstd::array::array_fill_for_copy_types(0usize);
            let mut k: usize = 0;
            while k < N
                invariant
                    0 <= k <= N,
                    forall|j: int| 0 <= j < N ==> i1@[j] <= i2@[j],
                    forall|j: int| 0 <= j < k ==> d@[j] == i2@[j] - i1@[j],
                decreases N - k,
            {
                d[k] = i2[k] - i1[k];
                k = k + 1;
            }
            let ghost dseq = Seq::new(N as nat, |j: int| (i2@[j] - i1@[j]) as usize);
            proof {
                assert(d@ =~= dseq);
            }
            // the view's element count
            let mut sz: usize = 1;
            let mut m: usize = N;
            proof {
                assert(d@.skip(N as int) =~= Seq::<usize>::empty());
            }
            while m > 0
                invariant
                    0 <= m <= N,
                    d@ == dseq,
                    forall|j: int| 0 <= j < N ==> d@[j] <= shape@[j],
                    forall|j: int| 0 <= j <= N ==> prod(shape@.skip(j)) <= usize::MAX,
                    sz == prod(d@.skip(m as int)),
                decreases m,
            {
                m = m - 1;
                proof {
                    let mi = m as int;
                    lemma_prod_skip(d@, mi);
                    lemma_prod_nonneg(d@.skip(mi + 1));
                    assert(d@.skip(mi).len() == shape@.skip(mi).len());
                    assert forall|j: int| 0 <= j < d@.skip(mi).len() implies d@.skip(mi)[j]
                        <= shape@.skip(mi)[j] by {
                        assert(d@.skip(mi)[j] == d@[mi + j]);
                        assert(shape@.skip(mi)[j] == shape@[mi + j]);
                    }
                    lemma_prod_monotone(d@.skip(mi), shape@.skip(mi));
                }
                sz = d[m] * sz;
            }
            proof {
                assert(d@.skip(0) =~= d@);
            }
            let view = BorrowedArray {
                data,
                start: vstart,
                size: sz,
                stride: *stride,
                estride: *estride,
                shape: d,
            };
            proof {
                // suffix products of the view's shape stay bounded
                assert forall|j: int| 0 <= j <= N implies prod(d@.skip(j)) <= usize::MAX by {
                    assert(d@.skip(j).len() == shape@.skip(j).len());
                    assert forall|l: int| 0 <= l < d@.skip(j).len() implies d@.skip(j)[l]
                        <= shape@.skip(j)[l] by {
                        assert(d@.skip(j)[l] == d@[j + l]);
                        assert(shape@.skip(j)[l] == shape@[j + l]);
                    }
                    lemma_prod_monotone(d@.skip(j), shape@.skip(j));
                }
                // every element of the view lies inside the buffer
                if prod(d@) > 0 {
                    lemma_prod_pos_each(d@);
                    assert forall|j: int| 0 <= j < N implies i1@[j] + max_ix(d@)[j]
                        <= usize::MAX by {
                        assert(max_ix(d@)[j] == d@[j] - 1);
                    }
                    lemma_offset_linear(i1@, max_ix(d@), estride@);
                    assert forall|j: int| 0 <= j < N implies ix_add(i1@, max_ix(d@))[j] <= max_ix(
                        shape@,
                    )[j] by {
                        assert(ix_add(i1@, max_ix(d@))[j] == i1@[j] + d@[j] - 1);
                    }
                    lemma_offset_monotone(ix_add(i1@, max_ix(d@)), max_ix(shape@), estride@);
                    lemma_offset_nonneg(max_ix(d@), estride@);
                }
            }
            Ok(view)
        },
    }
}

impl<T: Copy + Default, const N: usize> Initialize<T, N> for BaseArray<T, N> {
    fn from_parts(data: Vec<T>, shape: &[usize; N]) -> (r: Self) {
        let w = core::mem::size_of::<T>();
        proof {
            assert forall|k: int| 1 <= k < N implies w * prod(shape@.skip(k)) <= usize::MAX by {
                assert(vstd::layout::size_of::<T>() * prod(shape@.skip(k)) <= usize::MAX);
            }
            assert forall|k: int| 1 <= k < N implies 1 * prod(shape@.skip(k)) <= usize::MAX by {
                assert(prod(shape@.skip(k)) <= usize::MAX);
            }
        }
        let stride = stride_packed(shape, w);
        let estride = stride_packed(shape, 1);
        let r = BaseArray { data, stride, estride, shape: *shape };
        proof {
            assert(shape@.skip(0) =~= shape@);
        }
        r
    }

    fn uninitialized(shape: &[usize; N]) -> (r: Self) {
        let n = prod_exec(shape);
        let mut data: Vec<T> = Vec::new();
        while data.len() < n
            invariant
                data@.len() <= n,
            decreases n - data@.len(),
        {
            data.push(T::default());
        }
        Self::from_parts(data, shape)
    }

    fn fill(item: T, shape: &[usize; N]) -> (r: Self) {
        let n = prod_exec(shape);
        let mut data: Vec<T> = Vec::new();
        while data.len() < n
            invariant
                data@.len() <= n,
                forall|j: int| 0 <= j < data@.len() ==> data@[j] == item,
            decreases n - data@.len(),
        {
            data.push(item);
        }
        Self::from_parts(data, shape)
    }
}

impl<T, const N: usize> BaseArray<T, N> {
    /// Return a reference to the element at a flat offset of the packed
    /// layout, or an error carrying the offset and the element count.
    pub fn _get(&self, offset: usize) -> (r: Result<&T, Error>)
        requires
            self.wf(),
        ensures
            offset < prod(self.spec_shape()) ==> (r matches Ok(v) && *v == self.buf()[offset as int]),
            offset >= prod(self.spec_shape()) ==> r == Err::<&T, Error>(
                Error::OffsetOutOfBounds { offset: offset, bound: prod(self.spec_shape()) as usize },
            ),
    {
        if offset < self.data.len() {
            Ok(&self.data[offset])
        } else {
            Err(Error::OffsetOutOfBounds { offset: offset, bound: self.data.len() })
        }
    }

    /// Return a reference to the element at a flat offset that the caller has
    /// already checked against the element count.
    pub fn _get_unchecked(&self, offset: usize) -> (v: &T)
        requires
            self.wf(),
            offset < prod(self.spec_shape()),
        ensures
            *v == self.buf()[offset as int],
    {
        &self.data[offset]
    }

    /// Return a mutable reference to the element at a flat offset, or an error
    /// carrying the offset and the element count.
    pub fn _get_mut(&mut self, offset: usize) -> (r: Result<&mut T, Error>)
        requires
            old(self).wf(),
        ensures
            offset < prod(old(self).spec_shape()) ==> (r matches Ok(v) && {
                &&& *v == old(self).buf()[offset as int]
                &&& final(self).buf() == old(self).buf().update(offset as int, *final(v))
            }),
            offset >= prod(old(self).spec_shape()) ==> (r matches Err(e) && e == (
            Error::OffsetOutOfBounds { offset: offset, bound: prod(old(self).spec_shape()) as usize }
            ) && final(self).buf() == old(self).buf()),
            final(self).wf(),
            final(self).spec_shape() == old(self).spec_shape(),
            final(self).spec_stride() == old(self).spec_stride(),
            final(self).spec_estride() == old(self).spec_estride(),
            final(self).base() == 0,
    {
        if offset < self.data.len() {
            Ok(&mut self.data[offset])
        } else {
            Err(Error::OffsetOutOfBounds { offset: offset, bound: self.data.len() })
        }
    }

    /// Return a mutable reference to the element at a flat offset that the
    /// caller has already checked against the element count.
    pub fn _get_mut_unchecked(&mut self, offset: usize) -> (v: &mut T)
        requires
            old(self).wf(),
            offset < prod(old(self).spec_shape()),
        ensures
            *v == old(self).buf()[offset as int],
            final(self).buf() == old(self).buf().update(offset as int, *final(v)),
            final(self).wf(),
            final(self).spec_shape() == old(self).spec_shape(),
            final(self).spec_stride() == old(self).spec_stride(),
            final(self).spec_estride() == old(self).spec_estride(),
            final(self).base() == 0,
    {
        &mut self.data[offset]
    }

    /// Return a mutable reference to the element at a multi-index, or an error
    /// naming the first axis whose index is out of bounds.
    pub fn get_mut(&mut self, ix: &[usize; N]) -> (r: Result<&mut T, Error>)
        requires
            old(self).wf(),
        ensures
            in_bounds(ix@, old(self).spec_shape()) ==> (r matches Ok(v) && {
                &&& *v == old(self).buf()[offset_of(ix@, old(self).spec_estride())]
                &&& final(self).buf() == old(self).buf().update(
                    offset_of(ix@, old(self).spec_estride()),
                    *final(v),
                )
            }),
            !in_bounds(ix@, old(self).spec_shape()) ==> (r matches Err(e) && e == oob_error(
                ix@,
                old(self).spec_shape(),
            ) && final(self).buf() == old(self).buf()),
            final(self).wf(),
            final(self).spec_shape() == old(self).spec_shape(),
            final(self).spec_stride() == old(self).spec_stride(),
            final(self).spec_estride() == old(self).spec_estride(),
            final(self).base() == 0,
    {
        match find_oob(ix, &self.shape) {
            Some(axis) => Err(
                Error::IndexOutOfBounds { ix: ix[axis], axis_ix: axis, axis_size: self.shape[axis] },
            ),
            None => {
                proof {
                    lemma_offset_in_prod(ix@, self.shape@, self.estride@);
                    lemma_vec_len_bound(&self.data);
                }
                let off = dot(ix, &self.estride);
                Ok(&mut self.data[off])
            },
        }
    }

    /// What a well-formed owning array tells its callers about its layout:
    /// its base is zero, its buffer holds exactly `prod(shape)` elements, and
    /// its strides are the packed ones. (The views it hands out share the
    /// buffer, so this does not hold of them; they answer through their own
    /// contracts.)
    pub proof fn lemma_owned_layout(&self)
        requires
            self.wf(),
        ensures
            self.base() == 0,
            self.buf().len() == prod(self.spec_shape()),
            packed_layout(*self, self.spec_shape()),
    {
    }

    /// Write through a view: a view borrowed over a region whose lower corner
    /// is `i1` reads its element `j` from this array's element `i1 + j`, so
    /// setting that element makes the write visible to every such view.
    pub fn set_in_view(&mut self, i1: &[usize; N], j: &[usize; N], value: T) -> (r: Result<
        (),
        Error,
    >)
        requires
            old(self).wf(),
            forall|k: int| 0 <= k < N ==> i1@[k] + j@[k] <= usize::MAX,
        ensures
            in_bounds(ix_add(i1@, j@), old(self).spec_shape()) ==> r is Ok && final(self).buf()
                == old(self).buf().update(
                offset_of(ix_add(i1@, j@), old(self).spec_estride()),
                value,
            ),
            !in_bounds(ix_add(i1@, j@), old(self).spec_shape()) ==> r == Err::<(), Error>(
                oob_error(ix_add(i1@, j@), old(self).spec_shape()),
            ) && final(self).buf() == old(self).buf(),
            final(self).wf(),
            final(self).spec_shape() == old(self).spec_shape(),
            final(self).spec_stride() == old(self).spec_stride(),
            final(self).spec_estride() == old(self).spec_estride(),
            final(self).base() == 0,
    {
        let mut sum: [usize; N] = vstd::array::array_fill_for_copy_types(0usize);
        let mut k: usize = 0;
        while k < N
            invariant
                0 <= k <= N,
                forall|m: int| 0 <= m < N ==> i1@[m] + j@[m] <= usize::MAX,
                forall|m: int| 0 <= m < k ==> sum@[m] == i1@[m] + j@[m],
            decreases N - k,
        {
            sum[k] = i1[k] + j[k];
            k = k + 1;
        }
        proof {
            assert(sum@ =~= ix_add(i1@, j@));
        }
        match self.get_mut(&sum) {
            Ok(p) => {
                *p = value;
                Ok(())
            },
            Err(e) => Err(e),
        }
    }

    /// Transfer the allocation into an array of a new shape addressing the
    /// same number of elements, or report both sizes when they differ.
    pub fn reshape<const M: usize>(self, new_shape: &[usize; M]) -> (r: Result<
        BaseArray<T, M>,
        Error,
    >)
        requires
            self.wf(),
            M >= 1,
            forall|k: int| 0 <= k <= M ==> prod(new_shape@.skip(k)) <= usize::MAX,
            forall|k: int|
                0 <= k <= M ==> vstd::layout::size_of::<T>() * prod(new_shape@.skip(k))
                    <= usize::MAX,
        ensures
            prod(new_shape@) == prod(self.spec_shape()) ==> (r matches Ok(v) && {
                &&& v.wf()
                &&& v.spec_shape() == new_shape@
                &&& v.buf() == self.buf()
                &&& v.base() == 0
                &&& packed_layout(v, new_shape@)
            }),
            prod(new_shape@) != prod(self.spec_shape()) ==> (r matches Err(e)
                && e matches Error::ReshapeIncompatibleShape { size, new_shape: ns } && size == prod(
                self.spec_shape(),
            ) && ns@ == new_shape@),
    {
        let n = prod_exec(new_shape);
        if n != self.data.len() {
            let mut ns: Vec<usize> = Vec::new();
            let mut k: usize = 0;
            while k < M
                invariant
                    0 <= k <= M,
                    ns@ =~= new_shape@.take(k as int),
                decreases M - k,
            {
                ns.push(new_shape[k]);
                k = k + 1;
            }
            proof {
                assert(new_shape@.take(M as int) =~= new_shape@);
            }
            Err(Error::ReshapeIncompatibleShape { size: self.data.len(), new_shape: ns })
        } else {
            let w = core::mem::size_of::<T>();
            let stride = stride_packed(new_shape, w);
            let estride = stride_packed(new_shape, 1);
            let r = BaseArray { data: self.data, stride, estride, shape: *new_shape };
            proof {
                assert(new_shape@.skip(0) =~= new_shape@);
            }
            Ok(r)
        }
    }
}

impl<T: Scalar, const N: usize> BaseArray<T, N> {
    /// The sum of two arrays of the same shape, element by element.
    pub fn add(&self, other: &Self) -> (r: Self)
        requires
            self.wf(),
            other.wf(),
            self.spec_shape() == other.spec_shape(),
        ensures
            r.wf(),
            r.spec_shape() == self.spec_shape(),
            r.base() == 0,
            packed_layout(r, self.spec_shape()),
            forall|off: int|
                0 <= off < prod(self.spec_shape()) ==> r.buf()[off] == self.buf()[off].s_add(
                    other.buf()[off],
                ),
    {
        let mut data: Vec<T> = Vec::new();
        let len = self.data.len();
        let mut i: usize = 0;
        while i < len
            invariant
                0 <= i <= len,
                len == self.data@.len(),
                self.data@.len() == other.data@.len(),
                data@.len() == i,
                forall|j: int| 0 <= j < i ==> data@[j] == self.data@[j].s_add(other.data@[j]),
            decreases len - i,
        {
            data.push(self.data[i].add(other.data[i]));
            i = i + 1;
        }
        BaseArray { data, stride: self.stride, estride: self.estride, shape: self.shape }
    }
}

impl<T: Copy, const N: usize> Clone for BaseArray<T, N> {
    /// A deep, independently owned copy of the array.
    fn clone(&self) -> (res: Self)
        ensures
            res.buf() == self.buf(),
            res.spec_shape() == self.spec_shape(),
            res.spec_stride() == self.spec_stride(),
            res.spec_estride() == self.spec_estride(),
            res.base() == self.base(),
            res.wf() <==> self.wf(),
    {
        let mut data: Vec<T> = Vec::new();
        let len = self.data.len();
        let mut i: usize = 0;
        while i < len
            invariant
                0 <= i <= len,
                len == self.data@.len(),
                data@.len() == i,
                forall|j: int| 0 <= j < i ==> data@[j] == self.data@[j],
            decreases len - i,
        {
            data.push(self.data[i]);
            i = i + 1;
        }
        proof {
            assert(data@ =~= self.data@);
        }
        let res = BaseArray { data, stride: self.stride, estride: self.estride, shape: self.shape };
        proof {
            assert(res.data@ == self.data@);
            assert(res.stride@ == self.stride@);
            assert(res.estride@ == self.estride@);
            assert(res.shape@ == self.shape@);
        }
        res
    }
}

impl<T: Scalar, const N: usize> PartialEq for BaseArray<T, N> {
    /// Same shape and element-wise equality in flattened order.
    fn eq(&self, other: &Self) -> (r: bool) {
        let mut k: usize = 0;
        while k < N
            invariant
                0 <= k <= N,
                forall|j: int| 0 <= j < k ==> self.shape@[j] == other.shape@[j],
            decreases N - k,
        {
            if self.shape[k] != other.shape[k] {
                return false;
            }
            k = k + 1;
        }
        proof {
            assert(self.shape@ =~= other.shape@);
        }
        if self.data.len() != other.data.len() {
            return false;
        }
        let len = self.data.len();
        let mut i: usize = 0;
        while i < len
            invariant
                0 <= i <= len,
                len == self.data@.len(),
                self.data@.len() == other.data@.len(),
                self.shape@ == other.shape@,
                forall|j: int| 0 <= j < i ==> #[trigger] self.data@[j].s_eq(other.data@[j]),
            decreases len - i,
        {
            if !self.data[i].eq_val(other.data[i]) {
                return false;
            }
            i = i + 1;
        }
        true
    }
}

impl<T: Scalar, const N: usize> vstd::std_specs::cmp::PartialEqSpecImpl for BaseArray<T, N> {
    open spec fn obeys_eq_spec() -> bool {
        true
    }

    open spec fn eq_spec(&self, other: &Self) -> bool {
        &&& self.spec_shape() == other.spec_shape()
        &&& self.buf().len() == other.buf().len()
        &&& forall|i: int|
            0 <= i < self.buf().len() ==> #[trigger] self.buf()[i].s_eq(other.buf()[i])
    }
}

/// Cloning preserves equality: an array whose buffer and shape agree with
/// another's (as the contract of [`Clone::clone`] on [`BaseArray`]
/// guarantees for a clone) compares equal to it, whenever the element
/// equality is reflexive.
pub proof fn lemma_clone_preserves_eq<T: Scalar, const N: usize>(
    a: &BaseArray<T, N>,
    b: &BaseArray<T, N>,
)
    requires
        forall|x: T| #[trigger] x.s_eq(x),
        b.buf() == a.buf(),
        b.spec_shape() == a.spec_shape(),
    ensures
        vstd::std_specs::cmp::PartialEqSpec::eq_spec(b, a),
        vstd::std_specs::cmp::PartialEqSpec::eq_spec(a, b),
{
}

/// The owning array reads element `ix` at the flat offset that
/// [`offset_of`] computes from its element strides: [`Array::get`] at `ix` and
/// [`BaseArray::_get`] at that offset return the same element.
pub proof fn lemma_get_is_flat_get<T, const N: usize>(a: &BaseArray<T, N>, ix: Seq<usize>)
    requires
        a.wf(),
        in_bounds(ix, a.spec_shape()),
    ensures
        a.base() == 0,
        0 <= offset_of(ix, a.spec_estride()) < prod(a.spec_shape()),
{
    lemma_offset_in_prod(ix, a.spec_shape(), a.spec_estride());
}

/// The byte offset that [`Array::_get_internal_ix`] reports is the flat
/// element offset scaled by the element size.
pub proof fn lemma_byte_offset_scales<T, const N: usize>(a: &BaseArray<T, N>, ix: Seq<usize>)
    requires
        a.wf(),
        ix.len() == N,
    ensures
        offset_of(ix, a.spec_stride()) == vstd::layout::size_of::<T>() * offset_of(
            ix,
            a.spec_estride(),
        ),
{
    lemma_offset_scale(ix, a.spec_estride(), a.spec_stride(), vstd::layout::size_of::<T>() as int);
}

/// Reading a view reads its parent: for every multi-index `j` in bounds of a
/// view borrowed over `[i1, i2)` of any array (owning, or itself a view), the
/// view's element at `j` is the parent's element at `i1 + j`.
pub proof fn lemma_view_reads_parent<'a, T, const N: usize, A: Array<T, N>>(
    a: &A,
    v: BorrowedArray<'a, T, N>,
    i1: Seq<usize>,
    i2: Seq<usize>,
    j: Seq<usize>,
)
    requires
        i1.len() == N,
        i2.len() == N,
        in_bounds(i1, a.spec_shape()),
        forall|k: int| 0 <= k < N ==> i1[k] <= i2[k],
        forall|k: int| 0 <= k < N ==> i2[k] <= a.spec_shape()[k],
        v.buf_seq() == a.buf(),
        v.estride_seq() == a.spec_estride(),
        v.start_of() == a.base() + offset_of(i1, a.spec_estride()),
        v.shape_seq() == Seq::new(N as nat, |k: int| (i2[k] - i1[k]) as usize),
        in_bounds(j, v.shape_seq()),
    ensures
        in_bounds(ix_add(i1, j), a.spec_shape()),
        v.start_of() + offset_of(j, v.estride_seq()) == a.base() + offset_of(
            ix_add(i1, j),
            a.spec_estride(),
        ),
        v.buf_seq()[v.start_of() + offset_of(j, v.estride_seq())] == a.buf()[a.base() + offset_of(
            ix_add(i1, j),
            a.spec_estride(),
        )],
{
    assert forall|k: int| 0 <= k < N implies i1[k] + j[k] <= usize::MAX by {
        assert(j[k] < v.shape_seq()[k]);
    }
    lemma_offset_linear(i1, j, a.spec_estride());
    assert forall|k: int| 0 <= k < N implies ix_add(i1, j)[k] < a.spec_shape()[k] by {
        assert(j[k] < v.shape_seq()[k]);
        assert(v.shape_seq()[k] == i2[k] - i1[k]);
    }
}

/// A shape that addresses an element has no empty axis.
pub proof fn lemma_prod_pos_each(s: Seq<usize>)
    requires
        prod(s) > 0,
    ensures
        forall|k: int| 0 <= k < s.len() ==> s[k] >= 1,
    decreases s.len(),
{
    if s.len() > 0 {
        lemma_prod_nonneg(s.skip(1));
        assert(s[0] >= 1 && prod(s.skip(1)) > 0) by (nonlinear_arith)
            requires
                s[0] * prod(s.skip(1)) > 0,
                s[0] >= 0,
                prod(s.skip(1)) >= 0,
        ;
        lemma_prod_pos_each(s.skip(1));
        assert forall|k: int| 0 <= k < s.len() implies s[k] >= 1 by {
            if k > 0 {
                assert(s.skip(1)[k - 1] == s[k]);
            }
        }
    }
}

} // verus!
