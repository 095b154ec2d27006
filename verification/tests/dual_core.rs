use deep_thought::dual::Dual;
use deep_thought::scalar::Scalar;

/// A floating-point scalar for exercising the dual-number core with the
/// element type the toolkit trains with.
#[derive(Clone, Copy, Debug, PartialEq)]
struct R(f64);

impl Scalar for R {
    // the s_* items name what each operation returns; outside of
    // verification they are ordinary functions and coincide with the
    // operations themselves
    fn s_add(self, o: R) -> R {
        R(self.0 + o.0)
    }
    fn s_sub(self, o: R) -> R {
        R(self.0 - o.0)
    }
    fn s_mul(self, o: R) -> R {
        R(self.0 * o.0)
    }
    fn s_div(self, o: R) -> R {
        R(self.0 / o.0)
    }
    fn s_rem(self, o: R) -> R {
        R(self.0 % o.0)
    }
    fn s_neg(self) -> R {
        R(-self.0)
    }
    fn s_zero() -> R {
        R(0.0)
    }
    fn s_one() -> R {
        R(1.0)
    }
    fn s_eq(self, o: R) -> bool {
        self.0 == o.0
    }
    fn s_lt(self, o: R) -> bool {
        self.0 < o.0
    }
    fn s_nan(self) -> bool {
        self.0.is_nan()
    }
    fn s_infinite(self) -> bool {
        self.0.is_infinite()
    }
    fn s_finite(self) -> bool {
        self.0.is_finite()
    }
    fn s_normal(self) -> bool {
        self.0.is_normal()
    }
    fn add(self, o: R) -> R {
        R(self.0 + o.0)
    }
    fn sub(self, o: R) -> R {
        R(self.0 - o.0)
    }
    fn mul(self, o: R) -> R {
        R(self.0 * o.0)
    }
    fn div(self, o: R) -> R {
        R(self.0 / o.0)
    }
    fn rem(self, o: R) -> R {
        R(self.0 % o.0)
    }
    fn neg(self) -> R {
        R(-self.0)
    }
    fn zero() -> R {
        R(0.0)
    }
    fn one() -> R {
        R(1.0)
    }
    fn eq_val(self, o: R) -> bool {
        self.0 == o.0
    }
    fn lt_val(self, o: R) -> bool {
        self.0 < o.0
    }
    fn is_nan(self) -> bool {
        self.0.is_nan()
    }
    fn is_infinite(self) -> bool {
        self.0.is_infinite()
    }
    fn is_finite(self) -> bool {
        self.0.is_finite()
    }
    fn is_normal(self) -> bool {
        self.0.is_normal()
    }
}

#[test]
fn additive_identity_and_commutativity() {
    let a = Dual::<usize, 2>::new(5, [1, 2]);
    let z = Dual::<usize, 2>::constant(0);
    let s = a.add(z);
    assert_eq!(s.val, 5);
    assert_eq!(s.e, [1, 2]);

    let b = Dual::<usize, 2>::new(7, [3, 4]);
    let ab = a.add(b);
    let ba = b.add(a);
    assert_eq!(ab.val, ba.val);
    assert_eq!(ab.e, ba.e);
}

#[test]
fn multiplicative_identity() {
    let a = Dual::<usize, 2>::new(5, [1, 2]);
    let one = Dual::<usize, 2>::constant(1);
    let p = a.mul(one);
    assert_eq!(p.val, 5);
    assert_eq!(p.e, [1, 2]);
}

#[test]
fn multiplication_distributes() {
    let a = Dual::<usize, 2>::new(3, [1, 2]);
    let b = Dual::<usize, 2>::new(5, [4, 0]);
    let c = Dual::<usize, 2>::new(7, [0, 6]);
    let lhs = a.mul(b.add(c));
    let rhs = a.mul(b).add(a.mul(c));
    assert_eq!(lhs.val, rhs.val);
    assert_eq!(lhs.e, rhs.e);
}

#[test]
fn product_rule() {
    let a = Dual::<usize, 2>::new(3, [1, 0]);
    let b = Dual::<usize, 2>::new(5, [0, 2]);
    let p = a.mul(b);
    assert_eq!(p.val, 15);
    // b.val * a.e[i] + a.val * b.e[i]
    assert_eq!(p.e, [5, 6]);
}

#[test]
fn quotient_rule() {
    let a = Dual::<usize, 1>::new(6, [8]);
    let b = Dual::<usize, 1>::new(2, [2]);
    let q = a.div(b);
    assert_eq!(q.val, 3);
    // (b.val * a.e[0] - a.val * b.e[0]) / b.val^2 = (16 - 12) / 4
    assert_eq!(q.e, [1]);
}

#[test]
fn quotient_rule_floats() {
    let a = Dual::<R, 1>::new(R(1.0), [R(3.0)]);
    let b = Dual::<R, 1>::new(R(2.0), [R(5.0)]);
    let q = a.div(b);
    assert_eq!(q.val, R(0.5));
    // (2 * 3 - 1 * 5) / 4
    assert_eq!(q.e[0], R(0.25));
}

#[test]
fn ordering_is_by_real_part() {
    let a = Dual::<R, 2>::new(R(1.0), [R(9.0), R(9.0)]);
    let b = Dual::<R, 2>::constant(R(2.0));
    assert!(a < b);
    assert!(b > a);
    // equality ignores the derivatives
    let c = Dual::<R, 2>::new(R(1.0), [R(0.0), R(0.0)]);
    assert!(a == c);
}

#[test]
fn variable_has_basis_derivative() {
    let x = Dual::<usize, 3>::variable(4, 1);
    assert_eq!(x.val, 4);
    assert_eq!(x.e, [0, 1, 0]);
    let c = Dual::<usize, 3>::constant(4);
    assert_eq!(c.e, [0, 0, 0]);
}

#[test]
fn chain_rule_for_exp() {
    // f = exp at v = 1: both the value and the derivative are e
    let x = Dual::<R, 1>::variable(R(1.0), 0);
    let fx = x.chain(R(1.0f64.exp()), R(1.0f64.exp()));
    assert_eq!(fx.val, R(1.0f64.exp()));
    assert_eq!(fx.e[0], R(1.0f64.exp()));
}

#[test]
fn sigmoid_derivative_at_zero() {
    // x = variable(0.0, 0); sigma(x) = 1 / (1 + exp(-x));
    // sigma(0) = 0.5 and sigma'(0) = 0.25
    let x = Dual::<R, 1>::variable(R(0.0), 0);
    let nx = x.neg();
    let enx = nx.chain(R((-0.0f64).exp()), R((-0.0f64).exp()));
    let den = Dual::<R, 1>::constant(R(1.0)).add(enx);
    let sig = Dual::<R, 1>::constant(R(1.0)).div(den);
    assert!((sig.val.0 - 0.5).abs() < 1e-12);
    assert!((sig.e[0].0 - 0.25).abs() < 1e-12);
}

#[test]
fn conj_negates_gradient() {
    let a = Dual::<R, 2>::new(R(2.0), [R(1.0), R(-3.0)]);
    let c = a.conj();
    assert_eq!(c.val, R(2.0));
    assert_eq!(c.e, [R(-1.0), R(3.0)]);
}

#[test]
fn real_minus_dual_negates_slots() {
    let a = Dual::<R, 1>::new(R(1.5), [R(2.0)]);
    let r = Dual::real_sub(R(4.0), a);
    assert_eq!(r.val, R(2.5));
    assert_eq!(r.e[0], R(-2.0));
}

#[test]
fn rem_keeps_derivative() {
    let a = Dual::<R, 1>::new(R(7.0), [R(3.0)]);
    let b = Dual::<R, 1>::constant(R(4.0));
    let r = a.rem(b);
    assert_eq!(r.val, R(3.0));
    assert_eq!(r.e[0], R(3.0));
}

#[test]
fn float_predicates_combine_components() {
    let finite = Dual::<R, 2>::new(R(1.0), [R(2.0), R(3.0)]);
    assert!(finite.is_finite());
    assert!(!finite.is_nan());
    assert!(!finite.is_infinite());
    assert!(finite.is_normal());

    let nan_slot = Dual::<R, 2>::new(R(1.0), [R(f64::NAN), R(0.0)]);
    assert!(nan_slot.is_nan());
    assert!(!nan_slot.is_infinite());
    assert!(!nan_slot.is_finite());

    let inf_slot = Dual::<R, 2>::new(R(1.0), [R(f64::INFINITY), R(0.0)]);
    assert!(inf_slot.is_infinite());
    assert!(!inf_slot.is_finite());

    // zero is not a normal float
    let with_zero = Dual::<R, 2>::new(R(1.0), [R(0.0), R(1.0)]);
    assert!(!with_zero.is_normal());
}

#[test]
fn zero_and_one_predicates() {
    assert!(Dual::<usize, 2>::zero().is_zero());
    assert!(Dual::<usize, 2>::one().is_one());
    assert!(!Dual::<usize, 2>::one().is_zero());
    assert!(!Dual::<usize, 2>::new(1, [1, 0]).is_one());
}

#[test]
fn compound_assignment_matches_binary_ops() {
    let a = Dual::<R, 1>::new(R(3.0), [R(1.0)]);
    let b = Dual::<R, 1>::new(R(2.0), [R(4.0)]);

    let mut x = a;
    x.add_assign(b);
    let y = a.add(b);
    assert_eq!(x.val, y.val);
    assert_eq!(x.e, y.e);

    let mut x = a;
    x.mul_assign(b);
    let y = a.mul(b);
    assert_eq!(x.val, y.val);
    assert_eq!(x.e, y.e);

    let mut x = a;
    x.div_assign(b);
    let y = a.div(b);
    assert_eq!(x.val, y.val);
    assert_eq!(x.e, y.e);
}

#[test]
fn max_min_select_by_real_part() {
    let lo = Dual::<R, 1>::new(R(1.0), [R(5.0)]);
    let hi = Dual::<R, 1>::new(R(2.0), [R(7.0)]);
    let mx = lo.max(hi);
    assert_eq!(mx.val, R(2.0));
    assert_eq!(mx.e[0], R(7.0));
    let mn = lo.min(hi);
    assert_eq!(mn.val, R(1.0));
    assert_eq!(mn.e[0], R(5.0));
}

#[test]
fn integer_scalar_division_by_zero_is_total() {
    // the usize scalar settles division and remainder by zero at zero
    let a = Dual::<usize, 1>::constant(5);
    let z = Dual::<usize, 1>::constant(0);
    let q = a.div(z);
    assert_eq!(q.val, 0);
}

#[test]
fn scalar_mixed_operations() {
    let a = Dual::<R, 1>::new(R(3.0), [R(2.0)]);
    let s = a.add_real(R(1.5));
    assert_eq!(s.val, R(4.5));
    assert_eq!(s.e[0], R(2.0));
    let m = a.mul_real(R(2.0));
    assert_eq!(m.val, R(6.0));
    assert_eq!(m.e[0], R(4.0));
    let d = a.div_real(R(2.0));
    assert_eq!(d.val, R(1.5));
    assert_eq!(d.e[0], R(1.0));
}

/// The logistic function computed through the dual core, with the underlying
/// `f64` exponential fed through the chain rule.
fn sigmoid(d: Dual<R, 25>) -> Dual<R, 25> {
    let nx = d.neg();
    let ex = nx.chain(R(nx.val.0.exp()), R(nx.val.0.exp()));
    Dual::real_div(R(1.0), Dual::constant(R(1.0)).add(ex))
}

/// A 2-3-3-1 sigmoid network: weights and biases are the tracked variables,
/// the inputs are constants.
fn forward(params: &[Dual<R, 25>; 25], x: [f64; 2]) -> Dual<R, 25> {
    let xin = [Dual::<R, 25>::constant(R(x[0])), Dual::<R, 25>::constant(R(x[1]))];
    let mut h1 = [Dual::<R, 25>::constant(R(0.0)); 3];
    for j in 0..3 {
        let mut z = params[6 + j];
        for i in 0..2 {
            z = z.add(params[j * 2 + i].mul(xin[i]));
        }
        h1[j] = sigmoid(z);
    }
    let mut h2 = [Dual::<R, 25>::constant(R(0.0)); 3];
    for j in 0..3 {
        let mut z = params[18 + j];
        for i in 0..3 {
            z = z.add(params[9 + j * 3 + i].mul(h1[i]));
        }
        h2[j] = sigmoid(z);
    }
    let mut z = params[24];
    for i in 0..3 {
        z = z.add(params[21 + i].mul(h2[i]));
    }
    sigmoid(z)
}

#[test]
fn xor_training_closes() {
    let patterns = [
        ([0.0, 0.0], 0.0),
        ([0.0, 1.0], 1.0),
        ([1.0, 0.0], 1.0),
        ([1.0, 1.0], 0.0),
    ];
    // deterministic pseudo-random initialisation in [-1, 1)
    let mut vals = [0.0f64; 25];
    let mut seed: u64 = 3;
    for v in vals.iter_mut() {
        seed = seed
            .wrapping_mul(6364136223846793005)
            .wrapping_add(1442695040888963407);
        *v = (seed >> 33) as f64 / (1u64 << 31) as f64 - 1.0;
    }

    let mut params = [Dual::<R, 25>::constant(R(0.0)); 25];
    for _epoch in 0..11000 {
        for (i, p) in params.iter_mut().enumerate() {
            *p = Dual::variable(R(vals[i]), i);
        }
        let mut loss = Dual::<R, 25>::constant(R(0.0));
        for (x, t) in patterns {
            let out = forward(&params, x);
            let d = out.sub_real(R(t));
            loss = loss.add(d.mul(d));
        }
        let loss = loss.div_real(R(4.0));
        for (i, v) in vals.iter_mut().enumerate() {
            *v -= 0.3 * loss.e[i].0;
        }
    }

    for (i, p) in params.iter_mut().enumerate() {
        *p = Dual::variable(R(vals[i]), i);
    }
    let mut mse = 0.0;
    for (x, t) in patterns {
        let out = forward(&params, x);
        let diff = out.val.0 - t;
        mse += diff * diff;
        assert_eq!(out.val.0.round(), t);
    }
    assert!(mse / 4.0 < 0.05);
}
