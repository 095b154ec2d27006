//! Dual numbers: forward-mode automatic differentiation with a fixed number
//! `N` of tracked partial derivatives.
//!
//! A value `val + e[0]*eps_0 + ... + e[N-1]*eps_N` carries its real part and
//! the derivative with respect to each of `N` tracked input variables. Every
//! operation states exactly which combination of scalar operations it applies
//! to the real part and to each derivative slot, so the forward-mode rules
//! (sum, product, quotient, chain) are the contracts of the operations.

use vstd::prelude::*;

use crate::scalar::Scalar;

verus! {

/// A dual number: a real part and one derivative slot per tracked variable.
#[derive(Debug, Clone, Copy)]
pub struct Dual<F, const N: usize> {
    /// The real value.
    pub val: F,
    /// The tracked partial derivatives: `e[i]` is the derivative with respect
    /// to the `i`-th tracked input variable.
    pub e: [F; N],
}

/// A derivative vector that is zero in every slot.
pub open spec fn zero_e<F: Scalar>(n: nat) -> Seq<F> {
    Seq::new(n, |i: int| F::s_zero())
}

/// The Kronecker basis vector: one in slot `index`, zero elsewhere.
pub open spec fn basis_e<F: Scalar>(n: nat, index: int) -> Seq<F> {
    Seq::new(
        n,
        |i: int|
            if i == index {
                F::s_one()
            } else {
                F::s_zero()
            },
    )
}

/// Derivative of a sum: slots add.
pub open spec fn add_e<F: Scalar>(a: Seq<F>, b: Seq<F>) -> Seq<F> {
    Seq::new(a.len(), |i: int| a[i].s_add(b[i]))
}

/// Derivative of a difference: slots subtract.
pub open spec fn sub_e<F: Scalar>(a: Seq<F>, b: Seq<F>) -> Seq<F> {
    Seq::new(a.len(), |i: int| a[i].s_sub(b[i]))
}

/// Derivative slots negated.
pub open spec fn neg_e<F: Scalar>(a: Seq<F>) -> Seq<F> {
    Seq::new(a.len(), |i: int| a[i].s_neg())
}

/// The product rule, slot by slot: `b.val * a.e[i] + a.val * b.e[i]`.
pub open spec fn mul_e<F: Scalar>(av: F, ae: Seq<F>, bv: F, be: Seq<F>) -> Seq<F> {
    Seq::new(ae.len(), |i: int| bv.s_mul(ae[i]).s_add(av.s_mul(be[i])))
}

/// The quotient rule, slot by slot:
/// `(b.val * a.e[i] - a.val * b.e[i]) / b.val^2`.
pub open spec fn div_e<F: Scalar>(av: F, ae: Seq<F>, bv: F, be: Seq<F>) -> Seq<F> {
    Seq::new(ae.len(), |i: int| bv.s_mul(ae[i]).s_sub(av.s_mul(be[i])).s_div(bv.s_mul(bv)))
}

/// The chain rule, slot by slot: every slot scaled by `c`, the derivative of
/// the applied function at the real part.
pub open spec fn scale_e<F: Scalar>(c: F, a: Seq<F>) -> Seq<F> {
    Seq::new(a.len(), |i: int| c.s_mul(a[i]))
}

/// The two-argument chain rule, slot by slot:
/// `da * a.e[i] + db * b.e[i]` for the partial derivatives `da` and `db` of
/// the applied function.
pub open spec fn chain2_e<F: Scalar>(da: F, ae: Seq<F>, db: F, be: Seq<F>) -> Seq<F> {
    Seq::new(ae.len(), |i: int| da.s_mul(ae[i]).s_add(db.s_mul(be[i])))
}

impl<F: Scalar, const N: usize> Dual<F, N> {
    /// Create a new dual number, providing both its real part and the
    /// derivatives.
    pub fn new(val: F, e: [F; N]) -> (r: Self)
        ensures
            r.val == val,
            r.e == e,
    {
        Dual { val, e }
    }

    /// Create a constant dual number: its derivative is zero in every slot.
    pub fn constant(val: F) -> (r: Self)
        ensures
            r.val == val,
            r.e@ == zero_e::<F>(N as nat),
    {
        let z = F::zero();
        let e: [F; N] = vstd::array::array_fill_for_copy_types(z);
        proof {
            assert(e@ =~= zero_e::<F>(N as nat));
        }
        Dual { val, e }
    }

    /// Create a variable dual number: its derivative is one in the slot the
    /// variable was registered at and zero elsewhere. Every variable must be
    /// assigned a unique slot index.
    pub fn variable(val: F, index: usize) -> (r: Self)
        requires
            index < N,
        ensures
            r.val == val,
            r.e@ == basis_e::<F>(N as nat, index as int),
    {
        let z = F::zero();
        let mut e: [F; N] = vstd::array::array_fill_for_copy_types(z);
        e[index] = F::one();
        proof {
            assert(e@ =~= basis_e::<F>(N as nat, index as int));
        }
        Dual { val, e }
    }

    /// Invert the gradient: the real part stays, every slot is negated.
    pub fn conj(&self) -> (r: Self)
        ensures
            r.val == self.val,
            r.e@ == neg_e(self.e@),
    {
        let mut e: [F; N] = self.e;
        let mut i: usize = 0;
        while i < N
            invariant
                0 <= i <= N,
                e@.len() == N,
                forall|j: int| 0 <= j < i ==> e@[j] == neg_e(self.e@)[j],
                forall|j: int| i <= j < N ==> e@[j] == self.e@[j],
            decreases N - i,
        {
            e[i] = self.e[i].neg();
            i = i + 1;
        }
        proof {
            assert(e@ =~= neg_e(self.e@));
        }
        Dual { val: self.val, e }
    }

    /// The additive identity: a constant zero.
    pub fn zero() -> (r: Self)
        ensures
            r.val == F::s_zero(),
            r.e@ == zero_e::<F>(N as nat),
    {
        Self::constant(F::zero())
    }

    /// The multiplicative identity: a constant one.
    pub fn one() -> (r: Self)
        ensures
            r.val == F::s_one(),
            r.e@ == zero_e::<F>(N as nat),
    {
        Self::constant(F::one())
    }

    /// The sum of two dual numbers: real parts and slots add.
    pub fn add(self, other: Self) -> (r: Self)
        ensures
            r.val == self.val.s_add(other.val),
            r.e@ == add_e(self.e@, other.e@),
    {
        let mut e: [F; N] = self.e;
        let mut i: usize = 0;
        while i < N
            invariant
                0 <= i <= N,
                forall|j: int| 0 <= j < i ==> e@[j] == add_e(self.e@, other.e@)[j],
            decreases N - i,
        {
            e[i] = self.e[i].add(other.e[i]);
            i = i + 1;
        }
        proof {
            assert(e@ =~= add_e(self.e@, other.e@));
        }
        Dual { val: self.val.add(other.val), e }
    }

    /// The difference of two dual numbers: real parts and slots subtract.
    pub fn sub(self, other: Self) -> (r: Self)
        ensures
            r.val == self.val.s_sub(other.val),
            r.e@ == sub_e(self.e@, other.e@),
    {
        let mut e: [F; N] = self.e;
        let mut i: usize = 0;
        while i < N
            invariant
                0 <= i <= N,
                forall|j: int| 0 <= j < i ==> e@[j] == sub_e(self.e@, other.e@)[j],
            decreases N - i,
        {
            e[i] = self.e[i].sub(other.e[i]);
            i = i + 1;
        }
        proof {
            assert(e@ =~= sub_e(self.e@, other.e@));
        }
        Dual { val: self.val.sub(other.val), e }
    }

    /// The product of two dual numbers: the slots follow the product rule
    /// `b.val * a.e[i] + a.val * b.e[i]`.
    pub fn mul(self, other: Self) -> (r: Self)
        ensures
            r.val == self.val.s_mul(other.val),
            r.e@ == mul_e(self.val, self.e@, other.val, other.e@),
    {
        let mut e: [F; N] = self.e;
        let mut i: usize = 0;
        while i < N
            invariant
                0 <= i <= N,
                forall|j: int|
                    0 <= j < i ==> e@[j] == mul_e(self.val, self.e@, other.val, other.e@)[j],
            decreases N - i,
        {
            e[i] = other.val.mul(self.e[i]).add(self.val.mul(other.e[i]));
            i = i + 1;
        }
        proof {
            assert(e@ =~= mul_e(self.val, self.e@, other.val, other.e@));
        }
        Dual { val: self.val.mul(other.val), e }
    }

    /// The quotient of two dual numbers: the slots follow the quotient rule
    /// `(b.val * a.e[i] - a.val * b.e[i]) / b.val^2`.
    pub fn div(self, other: Self) -> (r: Self)
        ensures
            r.val == self.val.s_div(other.val),
            r.e@ == div_e(self.val, self.e@, other.val, other.e@),
    {
        let den = other.val.mul(other.val);
        let mut e: [F; N] = self.e;
        let mut i: usize = 0;
        while i < N
            invariant
                0 <= i <= N,
                den == other.val.s_mul(other.val),
                forall|j: int|
                    0 <= j < i ==> e@[j] == div_e(self.val, self.e@, other.val, other.e@)[j],
            decreases N - i,
        {
            e[i] = other.val.mul(self.e[i]).sub(self.val.mul(other.e[i])).div(den);
            i = i + 1;
        }
        proof {
            assert(e@ =~= div_e(self.val, self.e@, other.val, other.e@));
        }
        Dual { val: self.val.div(other.val), e }
    }

    /// The remainder of two dual numbers: the derivative is kept unchanged (a
    /// piecewise-constant simplification).
    pub fn rem(self, other: Self) -> (r: Self)
        ensures
            r.val == self.val.s_rem(other.val),
            r.e == self.e,
    {
        Dual { val: self.val.rem(other.val), e: self.e }
    }

    /// The additive inverse: real part and every slot negated.
    pub fn neg(self) -> (r: Self)
        ensures
            r.val == self.val.s_neg(),
            r.e@ == neg_e(self.e@),
    {
        let c = self.conj();
        Dual { val: self.val.neg(), e: c.e }
    }

    /// Lift a unary real function through the chain rule: `fval` is the
    /// function's value at `self.val` and `dval` its derivative there; every
    /// slot is scaled by `dval`.
    pub fn chain(self, fval: F, dval: F) -> (r: Self)
        ensures
            r.val == fval,
            r.e@ == scale_e(dval, self.e@),
    {
        let mut e: [F; N] = self.e;
        let mut i: usize = 0;
        while i < N
            invariant
                0 <= i <= N,
                forall|j: int| 0 <= j < i ==> e@[j] == scale_e(dval, self.e@)[j],
            decreases N - i,
        {
            e[i] = dval.mul(self.e[i]);
            i = i + 1;
        }
        proof {
            assert(e@ =~= scale_e(dval, self.e@));
        }
        Dual { val: fval, e }
    }

    /// Lift a binary real function through the two-argument chain rule:
    /// `fval` is the function's value at `(self.val, other.val)`, `da` and
    /// `db` its two partial derivatives there.
    pub fn chain2(self, other: Self, fval: F, da: F, db: F) -> (r: Self)
        ensures
            r.val == fval,
            r.e@ == chain2_e(da, self.e@, db, other.e@),
    {
        let mut e: [F; N] = self.e;
        let mut i: usize = 0;
        while i < N
            invariant
                0 <= i <= N,
                forall|j: int| 0 <= j < i ==> e@[j] == chain2_e(da, self.e@, db, other.e@)[j],
            decreases N - i,
        {
            e[i] = da.mul(self.e[i]).add(db.mul(other.e[i]));
            i = i + 1;
        }
        proof {
            assert(e@ =~= chain2_e(da, self.e@, db, other.e@));
        }
        Dual { val: fval, e }
    }

    /// The argument whose real part orders higher; on a tie, `self`.
    pub fn max(self, other: Self) -> (r: Self)
        ensures
            self.val.s_lt(other.val) ==> r == other,
            !self.val.s_lt(other.val) ==> r == self,
    {
        if self.val.lt_val(other.val) {
            other
        } else {
            self
        }
    }

    /// The argument whose real part orders lower; on a tie, `self`.
    pub fn min(self, other: Self) -> (r: Self)
        ensures
            other.val.s_lt(self.val) ==> r == other,
            !other.val.s_lt(self.val) ==> r == self,
    {
        if other.val.lt_val(self.val) {
            other
        } else {
            self
        }
    }

    /// Add a plain scalar: it is treated as a constant, so the slots keep.
    pub fn add_real(self, other: F) -> (r: Self)
        ensures
            r.val == self.val.s_add(other),
            r.e == self.e,
    {
        Dual { val: self.val.add(other), e: self.e }
    }

    /// Subtract a plain scalar: it is treated as a constant, so the slots keep.
    pub fn sub_real(self, other: F) -> (r: Self)
        ensures
            r.val == self.val.s_sub(other),
            r.e == self.e,
    {
        Dual { val: self.val.sub(other), e: self.e }
    }

    /// Multiply by a plain scalar: every slot is scaled with it.
    pub fn mul_real(self, other: F) -> (r: Self)
        ensures
            r.val == self.val.s_mul(other),
            r.e@ == Seq::new(N as nat, |i: int| self.e@[i].s_mul(other)),
    {
        let mut e: [F; N] = self.e;
        let mut i: usize = 0;
        while i < N
            invariant
                0 <= i <= N,
                forall|j: int| 0 <= j < i ==> e@[j] == self.e@[j].s_mul(other),
                forall|j: int| i <= j < N ==> e@[j] == self.e@[j],
            decreases N - i,
        {
            e[i] = self.e[i].mul(other);
            i = i + 1;
        }
        proof {
            assert(e@ =~= Seq::new(N as nat, |i: int| self.e@[i].s_mul(other)));
        }
        Dual { val: self.val.mul(other), e }
    }

    /// Divide by a plain scalar: every slot is divided by it.
    pub fn div_real(self, other: F) -> (r: Self)
        ensures
            r.val == self.val.s_div(other),
            r.e@ == Seq::new(N as nat, |i: int| self.e@[i].s_div(other)),
    {
        let mut e: [F; N] = self.e;
        let mut i: usize = 0;
        while i < N
            invariant
                0 <= i <= N,
                forall|j: int| 0 <= j < i ==> e@[j] == self.e@[j].s_div(other),
                forall|j: int| i <= j < N ==> e@[j] == self.e@[j],
            decreases N - i,
        {
            e[i] = self.e[i].div(other);
            i = i + 1;
        }
        proof {
            assert(e@ =~= Seq::new(N as nat, |i: int| self.e@[i].s_div(other)));
        }
        Dual { val: self.val.div(other), e }
    }

    /// The remainder against a plain scalar: the derivative is kept unchanged
    /// (the same piecewise-constant simplification as [`Dual::rem`]).
    pub fn rem_real(self, other: F) -> (r: Self)
        ensures
            r.val == self.val.s_rem(other),
            r.e == self.e,
    {
        Dual { val: self.val.rem(other), e: self.e }
    }

    /// A plain scalar minus a dual number: the scalar is a constant, so the
    /// slots are negated.
    pub fn real_sub(lhs: F, other: Self) -> (r: Self)
        ensures
            r.val == lhs.s_sub(other.val),
            r.e@ == neg_e(other.e@),
    {
        let c = other.conj();
        Dual { val: lhs.sub(other.val), e: c.e }
    }

    /// A plain scalar divided by a dual number: the scalar is lifted to a
    /// constant dual and the quotient rule applies.
    pub fn real_div(lhs: F, other: Self) -> (r: Self)
        ensures
            r.val == lhs.s_div(other.val),
            r.e@ == div_e(lhs, zero_e::<F>(N as nat), other.val, other.e@),
    {
        Self::constant(lhs).div(other)
    }

    /// Whether any component is not a number.
    pub fn is_nan(self) -> (r: bool)
        ensures
            r == (self.val.s_nan() || exists|i: int| 0 <= i < N && self.e@[i].s_nan()),
    {
        if self.val.is_nan() {
            return true;
        }
        let mut i: usize = 0;
        while i < N
            invariant
                0 <= i <= N,
                forall|j: int| 0 <= j < i ==> !self.e@[j].s_nan(),
            decreases N - i,
        {
            if self.e[i].is_nan() {
                return true;
            }
            i = i + 1;
        }
        false
    }

    /// Whether the number is infinite: no component is a not-a-number and some
    /// component is infinite.
    pub fn is_infinite(self) -> (r: bool)
        ensures
            r == (!(self.val.s_nan() || exists|i: int| 0 <= i < N && self.e@[i].s_nan()) && (
            self.val.s_infinite() || exists|i: int| 0 <= i < N && self.e@[i].s_infinite())),
    {
        if self.is_nan() {
            return false;
        }
        if self.val.is_infinite() {
            return true;
        }
        let mut i: usize = 0;
        while i < N
            invariant
                0 <= i <= N,
                !(self.val.s_nan() || exists|j: int| 0 <= j < N && self.e@[j].s_nan()),
                !self.val.s_infinite(),
                forall|j: int| 0 <= j < i ==> !self.e@[j].s_infinite(),
            decreases N - i,
        {
            if self.e[i].is_infinite() {
                return true;
            }
            i = i + 1;
        }
        false
    }

    /// Whether every component is finite.
    pub fn is_finite(self) -> (r: bool)
        ensures
            r == (self.val.s_finite() && forall|i: int| 0 <= i < N ==> self.e@[i].s_finite()),
    {
        if !self.val.is_finite() {
            return false;
        }
        let mut i: usize = 0;
        while i < N
            invariant
                0 <= i <= N,
                forall|j: int| 0 <= j < i ==> self.e@[j].s_finite(),
            decreases N - i,
        {
            if !self.e[i].is_finite() {
                return false;
            }
            i = i + 1;
        }
        true
    }

    /// Whether every component is normal.
    pub fn is_normal(self) -> (r: bool)
        ensures
            r == (self.val.s_normal() && forall|i: int| 0 <= i < N ==> self.e@[i].s_normal()),
    {
        if !self.val.is_normal() {
            return false;
        }
        let mut i: usize = 0;
        while i < N
            invariant
                0 <= i <= N,
                forall|j: int| 0 <= j < i ==> self.e@[j].s_normal(),
            decreases N - i,
        {
            if !self.e[i].is_normal() {
                return false;
            }
            i = i + 1;
        }
        true
    }

    /// Whether the number is the additive identity: zero in the real part and
    /// in every slot.
    pub fn is_zero(self) -> (r: bool)
        ensures
            r == (self.val.s_eq(F::s_zero()) && forall|i: int|
                0 <= i < N ==> self.e@[i].s_eq(F::s_zero())),
    {
        if !self.val.eq_val(F::zero()) {
            return false;
        }
        let mut i: usize = 0;
        while i < N
            invariant
                0 <= i <= N,
                forall|j: int| 0 <= j < i ==> self.e@[j].s_eq(F::s_zero()),
            decreases N - i,
        {
            if !self.e[i].eq_val(F::zero()) {
                return false;
            }
            i = i + 1;
        }
        true
    }

    /// Whether the number is the multiplicative identity: one in the real part
    /// and zero in every slot.
    pub fn is_one(self) -> (r: bool)
        ensures
            r == (self.val.s_eq(F::s_one()) && forall|i: int|
                0 <= i < N ==> self.e@[i].s_eq(F::s_zero())),
    {
        if !self.val.eq_val(F::one()) {
            return false;
        }
        let mut i: usize = 0;
        while i < N
            invariant
                0 <= i <= N,
                forall|j: int| 0 <= j < i ==> self.e@[j].s_eq(F::s_zero()),
            decreases N - i,
        {
            if !self.e[i].eq_val(F::zero()) {
                return false;
            }
            i = i + 1;
        }
        true
    }

    /// Add in place: the same result as [`Dual::add`].
    pub fn add_assign(&mut self, other: Self)
        ensures
            final(self).val == old(self).val.s_add(other.val),
            final(self).e@ == add_e(old(self).e@, other.e@),
    {
        *self = (*self).add(other);
    }

    /// Subtract in place: the same result as [`Dual::sub`].
    pub fn sub_assign(&mut self, other: Self)
        ensures
            final(self).val == old(self).val.s_sub(other.val),
            final(self).e@ == sub_e(old(self).e@, other.e@),
    {
        *self = (*self).sub(other);
    }

    /// Multiply in place: the same result as [`Dual::mul`].
    pub fn mul_assign(&mut self, other: Self)
        ensures
            final(self).val == old(self).val.s_mul(other.val),
            final(self).e@ == mul_e(old(self).val, old(self).e@, other.val, other.e@),
    {
        *self = (*self).mul(other);
    }

    /// Divide in place: the same result as [`Dual::div`].
    pub fn div_assign(&mut self, other: Self)
        ensures
            final(self).val == old(self).val.s_div(other.val),
            final(self).e@ == div_e(old(self).val, old(self).e@, other.val, other.e@),
    {
        *self = (*self).div(other);
    }

    /// Take the remainder in place: the same result as [`Dual::rem`].
    pub fn rem_assign(&mut self, other: Self)
        ensures
            final(self).val == old(self).val.s_rem(other.val),
            final(self).e == old(self).e,
    {
        *self = (*self).rem(other);
    }
}

/// The equational facts about a scalar algebra that the dual-number laws
/// below rest on: commutative addition with its identity, commutative
/// multiplication with its identity and absorbing zero, associativity of
/// addition, and distributivity.
pub open spec fn scalar_ring_laws<F: Scalar>() -> bool {
    &&& forall|x: F, y: F| #[trigger] x.s_add(y) == y.s_add(x)
    &&& forall|x: F, y: F, z: F| #[trigger] x.s_add(y).s_add(z) == x.s_add(y.s_add(z))
    &&& forall|x: F| #[trigger] x.s_add(F::s_zero()) == x
    &&& forall|x: F, y: F| #[trigger] x.s_mul(y) == y.s_mul(x)
    &&& forall|x: F| #[trigger] x.s_mul(F::s_one()) == x
    &&& forall|x: F| #[trigger] x.s_mul(F::s_zero()) == F::s_zero()
    &&& forall|x: F, y: F, z: F| #[trigger] x.s_mul(y.s_add(z)) == x.s_mul(y).s_add(x.s_mul(z))
}

/// Addition of dual numbers commutes: together with the contract of
/// [`Dual::add`], `a.add(b)` and `b.add(a)` have the same real part and the
/// same derivative in every slot.
pub proof fn lemma_add_commutes<F: Scalar, const N: usize>(a: Dual<F, N>, b: Dual<F, N>)
    requires
        scalar_ring_laws::<F>(),
    ensures
        a.val.s_add(b.val) == b.val.s_add(a.val),
        add_e(a.e@, b.e@) == add_e(b.e@, a.e@),
{
    assert(add_e(a.e@, b.e@) =~= add_e(b.e@, a.e@));
}

/// A constant zero is the additive identity: together with the contracts of
/// [`Dual::add`] and [`Dual::constant`], `a.add(Dual::constant(zero))` has the
/// real part and the derivatives of `a` itself.
pub proof fn lemma_add_constant_zero<F: Scalar, const N: usize>(a: Dual<F, N>)
    requires
        scalar_ring_laws::<F>(),
    ensures
        a.val.s_add(F::s_zero()) == a.val,
        add_e(a.e@, zero_e::<F>(N as nat)) == a.e@,
{
    assert(add_e(a.e@, zero_e::<F>(N as nat)) =~= a.e@);
}

/// A constant one is the multiplicative identity: together with the contracts
/// of [`Dual::mul`] and [`Dual::constant`], `a.mul(Dual::constant(one))` has
/// the real part and the derivatives of `a` itself.
pub proof fn lemma_mul_constant_one<F: Scalar, const N: usize>(a: Dual<F, N>)
    requires
        scalar_ring_laws::<F>(),
    ensures
        a.val.s_mul(F::s_one()) == a.val,
        mul_e(a.val, a.e@, F::s_one(), zero_e::<F>(N as nat)) == a.e@,
{
    assert forall|i: int| 0 <= i < N implies mul_e(
        a.val,
        a.e@,
        F::s_one(),
        zero_e::<F>(N as nat),
    )[i] == a.e@[i] by {
        assert(F::s_one().s_mul(a.e@[i]) == a.e@[i].s_mul(F::s_one()));
        assert(a.val.s_mul(F::s_zero()) == F::s_zero());
    }
    assert(mul_e(a.val, a.e@, F::s_one(), zero_e::<F>(N as nat)) =~= a.e@);
}

/// Multiplication distributes over addition: together with the contracts of
/// [`Dual::mul`] and [`Dual::add`], `a.mul(b.add(c))` has the real part and
/// the derivatives of `a.mul(b).add(a.mul(c))`.
pub proof fn lemma_mul_distributes<F: Scalar, const N: usize>(
    a: Dual<F, N>,
    b: Dual<F, N>,
    c: Dual<F, N>,
)
    requires
        scalar_ring_laws::<F>(),
    ensures
        a.val.s_mul(b.val.s_add(c.val)) == a.val.s_mul(b.val).s_add(a.val.s_mul(c.val)),
        mul_e(a.val, a.e@, b.val.s_add(c.val), add_e(b.e@, c.e@)) == add_e(
            mul_e(a.val, a.e@, b.val, b.e@),
            mul_e(a.val, a.e@, c.val, c.e@),
        ),
{
    assert forall|i: int| 0 <= i < N implies mul_e(
        a.val,
        a.e@,
        b.val.s_add(c.val),
        add_e(b.e@, c.e@),
    )[i] == add_e(mul_e(a.val, a.e@, b.val, b.e@), mul_e(a.val, a.e@, c.val, c.e@))[i] by {
        let w = b.val.s_mul(a.e@[i]);
        let x = c.val.s_mul(a.e@[i]);
        let y = a.val.s_mul(b.e@[i]);
        let z = a.val.s_mul(c.e@[i]);
        // the slot on the left: (b.val + c.val) * a.e[i] + a.val * (b.e[i] + c.e[i])
        assert(b.val.s_add(c.val).s_mul(a.e@[i]) == a.e@[i].s_mul(b.val.s_add(c.val)));
        assert(a.e@[i].s_mul(b.val.s_add(c.val)) == a.e@[i].s_mul(b.val).s_add(
            a.e@[i].s_mul(c.val),
        ));
        assert(a.e@[i].s_mul(b.val) == w && a.e@[i].s_mul(c.val) == x);
        assert(a.val.s_mul(b.e@[i].s_add(c.e@[i])) == y.s_add(z));
        // rearrange (w + x) + (y + z) into (w + y) + (x + z)
        assert(w.s_add(x).s_add(y.s_add(z)) == w.s_add(x.s_add(y.s_add(z))));
        assert(x.s_add(y.s_add(z)) == x.s_add(y).s_add(z));
        assert(x.s_add(y) == y.s_add(x));
        assert(y.s_add(x).s_add(z) == y.s_add(x.s_add(z)));
        assert(w.s_add(y.s_add(x.s_add(z))) == w.s_add(y).s_add(x.s_add(z)));
    }
    assert(mul_e(a.val, a.e@, b.val.s_add(c.val), add_e(b.e@, c.e@)) =~= add_e(
        mul_e(a.val, a.e@, b.val, b.e@),
        mul_e(a.val, a.e@, c.val, c.e@),
    ));
}

/// The chain rule at a tracked variable: together with the contracts of
/// [`Dual::chain`] and [`Dual::variable`], applying a function with
/// derivative `dval` to `Dual::variable(v, index)` leaves exactly `dval` in
/// slot `index` and zero in every other slot.
pub proof fn lemma_chain_at_variable<F: Scalar, const N: usize>(dval: F, index: int)
    requires
        scalar_ring_laws::<F>(),
        0 <= index < N,
    ensures
        scale_e(dval, basis_e::<F>(N as nat, index))[index] == dval,
        forall|j: int|
            0 <= j < N && j != index ==> #[trigger] scale_e(dval, basis_e::<F>(N as nat, index))[j]
                == F::s_zero(),
{
    assert(scale_e(dval, basis_e::<F>(N as nat, index))[index] == dval.s_mul(F::s_one()));
    assert(dval.s_mul(F::s_one()) == dval);
    assert forall|j: int|
        0 <= j < N && j != index implies #[trigger] scale_e(dval, basis_e::<F>(N as nat, index))[j]
        == F::s_zero() by {
        assert(scale_e(dval, basis_e::<F>(N as nat, index))[j] == dval.s_mul(F::s_zero()));
    }
}

impl<F: Scalar, const N: usize> From<F> for Dual<F, N> {
    /// A plain scalar lifted to a constant dual number.
    fn from(x: F) -> (r: Self) {
        let r = Self::constant(x);
        proof {
            let spec_e = vstd::array::spec_array_fill_for_copy_type::<F, N>(F::s_zero());
            assert forall|i: int| 0 <= i < N implies r.e@[i] == spec_e@[i] by {
                assert(spec_e@[i] == F::s_zero());
            }
            assert(r.e =~= spec_e);
        }
        r
    }
}

impl<F: Scalar, const N: usize> vstd::std_specs::convert::FromSpecImpl<F> for Dual<F, N> {
    open spec fn obeys_from_spec() -> bool {
        true
    }

    open spec fn from_spec(x: F) -> Self {
        Dual { val: x, e: vstd::array::spec_array_fill_for_copy_type::<F, N>(F::s_zero()) }
    }
}

/// Comparison of dual numbers goes by the real part alone: `a < b` exactly
/// when `a.val` orders below `b.val`, and `a == b` exactly when the real
/// parts compare equal — the derivatives are ignored both times.
pub proof fn lemma_order_is_by_real_part<F: Scalar, const N: usize>(a: Dual<F, N>, b: Dual<F, N>)
    ensures
        (vstd::std_specs::cmp::PartialOrdSpec::partial_cmp_spec(&a, &b) == Some(
            core::cmp::Ordering::Less,
        )) <==> a.val.s_lt(b.val),
        vstd::std_specs::cmp::PartialEqSpec::eq_spec(&a, &b) <==> a.val.s_eq(b.val),
{
}

impl<F: Scalar, const N: usize> Default for Dual<F, N> {
    /// The constant zero.
    fn default() -> (r: Self)
        ensures
            r.val == F::s_zero(),
            r.e@ == zero_e::<F>(N as nat),
    {
        Self::zero()
    }
}

impl<F: Scalar, const N: usize> PartialEq for Dual<F, N> {
    /// Equality is real-part equality: the derivatives are ignored.
    fn eq(&self, other: &Self) -> (r: bool) {
        self.val.eq_val(other.val)
    }
}

impl<F: Scalar, const N: usize> vstd::std_specs::cmp::PartialEqSpecImpl for Dual<F, N> {
    open spec fn obeys_eq_spec() -> bool {
        true
    }

    open spec fn eq_spec(&self, other: &Self) -> bool {
        self.val.s_eq(other.val)
    }
}

impl<F: Scalar, const N: usize> PartialOrd for Dual<F, N> {
    /// Ordering is by real part: the derivatives are ignored.
    fn partial_cmp(&self, other: &Self) -> (r: Option<core::cmp::Ordering>) {
        if self.val.lt_val(other.val) {
            Some(core::cmp::Ordering::Less)
        } else if other.val.lt_val(self.val) {
            Some(core::cmp::Ordering::Greater)
        } else if self.val.eq_val(other.val) {
            Some(core::cmp::Ordering::Equal)
        } else {
            None
        }
    }
}

impl<F: Scalar, const N: usize> vstd::std_specs::cmp::PartialOrdSpecImpl for Dual<F, N> {
    open spec fn obeys_partial_cmp_spec() -> bool {
        true
    }

    open spec fn partial_cmp_spec(&self, other: &Self) -> Option<core::cmp::Ordering> {
        if self.val.s_lt(other.val) {
            Some(core::cmp::Ordering::Less)
        } else if other.val.s_lt(self.val) {
            Some(core::cmp::Ordering::Greater)
        } else if self.val.s_eq(other.val) {
            Some(core::cmp::Ordering::Equal)
        } else {
            None
        }
    }
}

} // verus!
