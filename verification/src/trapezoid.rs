//! Composite trapezoidal rule over exact rationals.
//!
//! `trapezoid_integration` approximates a definite integral with `n` equal
//! steps: the mean of the integrand at the two bounds plus its value at every
//! interior sample point, the whole scaled by the step width. The arithmetic
//! is exact, so the result either equals the mathematical trapezoid sum
//! ([`trap_math`]) or is `None` when some intermediate value cannot be
//! represented; [`trap_chk`] pins down which of the two happens, and with
//! which representation, making the routine fully deterministic.

use vstd::prelude::*;
use crate::rational::{
    lemma_q_add_assoc, lemma_q_add_cong, lemma_q_add_zero, lemma_q_div_int_cong,
    lemma_q_eq_trans, lemma_q_half_cong, lemma_q_mul_cong, lemma_q_ops_wf,
    lemma_rat_view_injective, opt_rat_view, q_add, q_add_chk, q_div_int, q_div_int_chk, q_eq,
    q_half, q_half_chk, q_mul, q_mul_chk, q_of_int, q_sub, q_sub_chk, q_wf, Q, Rat,
};

verus! {

/// A unary function on rationals that the integrator can sample.
///
/// `val` is the mathematical function; `try_val` says exactly what the
/// executable `eval` returns at each point, `None` standing for a value that
/// does not fit the representation.
pub trait Integrand: Sized {
    /// The mathematical value of the integrand at `x`.
    spec fn val(&self, x: Q) -> Q;

    /// Exactly what [`Integrand::eval`] returns, seen through views.
    spec fn try_val(&self, x: Q) -> Option<Q>;

    /// The function is well defined on rationals: it respects rational
    /// equality and preserves well-formedness.
    proof fn val_props(&self, x: Q, y: Q)
        requires
            q_wf(x),
            q_wf(y),
            q_eq(x, y),
        ensures
            q_wf(self.val(x)),
            q_eq(self.val(x), self.val(y)),
    ;

    /// Evaluates the integrand at `x`; `None` exactly when the value cannot
    /// be represented.
    fn eval(&self, x: &Rat) -> (r: Option<Rat>)
        requires
            x.wf(),
        ensures
            opt_rat_view(r) == self.try_val(x@),
            r matches Some(y) ==> y.wf() && q_eq(y@, self.val(x@)),
    ;
}

/// The step width of the rule: `(upper - lower) / n`.
pub open spec fn trap_h(upper: Q, lower: Q, n: int) -> Q {
    q_div_int(q_sub(upper, lower), n)
}

/// The sum of the integrand over the first `k` interior sample points
/// `lower + i * h`, `i` in `1..=k`.
pub open spec fn interior_sum<F: Integrand>(f: &F, lower: Q, h: Q, k: nat) -> Q
    decreases k,
{
    if k == 0 {
        q_of_int(0)
    } else {
        q_add(
            interior_sum(f, lower, h, (k - 1) as nat),
            f.val(q_add(lower, q_mul(q_of_int(k as int), h))),
        )
    }
}

/// The mathematical composite trapezoid sum with `n` steps:
/// `h * ((f(upper) + f(lower)) / 2 + sum of f at the n - 1 interior points)`.
pub open spec fn trap_math<F: Integrand>(f: &F, n: nat, upper: Q, lower: Q) -> Q {
    let h = trap_h(upper, lower, n as int);
    q_mul(
        q_add(q_half(q_add(f.val(upper), f.val(lower))), interior_sum(f, lower, h, (n - 1) as nat)),
        h,
    )
}

/// Interior sums of a well-defined integrand are well formed.
pub proof fn lemma_interior_sum_wf<F: Integrand>(f: &F, lower: Q, h: Q, k: nat)
    requires
        q_wf(lower),
        q_wf(h),
    ensures
        q_wf(interior_sum(f, lower, h, k)),
    decreases k,
{
    if k > 0 {
        lemma_interior_sum_wf(f, lower, h, (k - 1) as nat);
        let t = q_mul(q_of_int(k as int), h);
        lemma_q_ops_wf(q_of_int(k as int), h);
        lemma_q_ops_wf(lower, t);
        f.val_props(q_add(lower, t), q_add(lower, t));
        lemma_q_ops_wf(interior_sum(f, lower, h, (k - 1) as nat), f.val(q_add(lower, t)));
    }
}

/// The interior-point loop of [`trap_chk`]: folds the checked operations of
/// the remaining iterations `i..n` over the accumulator.
pub open spec fn trap_loop_chk<F: Integrand>(
    f: &F,
    lower: Q,
    h: Q,
    acc: Q,
    i: int,
    n: int,
) -> Option<Q>
    decreases n - i,
{
    if i >= n {
        Some(acc)
    } else {
        match q_mul_chk(q_of_int(i), h) {
            None => None,
            Some(t) => match q_add_chk(lower, t) {
                None => None,
                Some(x) => match f.try_val(x) {
                    None => None,
                    Some(y) => match q_add_chk(acc, y) {
                        None => None,
                        Some(acc2) => trap_loop_chk(f, lower, h, acc2, i + 1, n),
                    },
                },
            },
        }
    }
}

/// Exactly what [`trapezoid_integration`] returns, seen through views: the
/// checked-and-reduced counterpart of [`trap_math`], `None` exactly when some
/// intermediate value cannot be represented.
pub open spec fn trap_chk<F: Integrand>(f: &F, n: int, upper: Q, lower: Q) -> Option<Q> {
    match q_sub_chk(upper, lower) {
        None => None,
        Some(d) => match q_div_int_chk(d, n) {
            None => None,
            Some(h) => match f.try_val(upper) {
                None => None,
                Some(fu) => match f.try_val(lower) {
                    None => None,
                    Some(fl) => match q_add_chk(fu, fl) {
                        None => None,
                        Some(s0) => match q_half_chk(s0) {
                            None => None,
                            Some(acc0) => match trap_loop_chk(f, lower, h, acc0, 1, n) {
                                None => None,
                                Some(acc) => q_mul_chk(acc, h),
                            },
                        },
                    },
                },
            },
        },
    }
}

/// Numeric integration of `f` over the interval `(upper, lower)` by the
/// composite trapezoidal rule with `n` equal steps.
///
/// The returned value is exact: when it is `Some`, its view equals the
/// mathematical trapezoid sum [`trap_math`] as a rational. `None` is returned
/// exactly when an intermediate value falls outside the `i128`
/// representation, as pinned down by [`trap_chk`].
#[verifier::loop_isolation(false)]
pub fn trapezoid_integration<F: Integrand>(n: u64, bounds: (Rat, Rat), f: &F) -> (r: Option<Rat>)
    requires
        n >= 1,
        bounds.0.wf(),
        bounds.1.wf(),
    ensures
        opt_rat_view(r) == trap_chk(f, n as int, bounds.0@, bounds.1@),
        r matches Some(y) ==> y.wf() && q_wf(trap_math(f, n as nat, bounds.0@, bounds.1@)) && q_eq(
            y@,
            trap_math(f, n as nat, bounds.0@, bounds.1@),
        ),
{
    let (upper, lower) = bounds;
    let ghost um = upper@;
    let ghost lm = lower@;
    let ghost sm = q_sub(um, lm);
    let ghost hm = trap_h(um, lm, n as int);
    let ghost em = q_half(q_add(f.val(um), f.val(lm)));
    let d = match upper.try_sub(&lower) {
        Some(v) => v,
        None => {
            return None;
        },
    };
    let h = match d.try_div_int(n) {
        Some(v) => v,
        None => {
            return None;
        },
    };
    proof {
        lemma_q_div_int_cong(d@, sm, n as int);
        lemma_q_ops_wf(d@, d@);
        lemma_q_eq_trans(h@, q_div_int(d@, n as int), hm);
    }
    let fu = match f.eval(&upper) {
        Some(v) => v,
        None => {
            return None;
        },
    };
    let fl = match f.eval(&lower) {
        Some(v) => v,
        None => {
            return None;
        },
    };
    let s0 = match fu.try_add(&fl) {
        Some(v) => v,
        None => {
            return None;
        },
    };
    let acc0 = match s0.try_half() {
        Some(v) => v,
        None => {
            return None;
        },
    };
    proof {
        f.val_props(um, um);
        f.val_props(lm, lm);
        lemma_q_ops_wf(f.val(um), f.val(lm));
        lemma_q_add_cong(fu@, f.val(um), fl@, f.val(lm));
        lemma_q_ops_wf(q_add(fu@, fl@), q_add(f.val(um), f.val(lm)));
        lemma_q_eq_trans(s0@, q_add(fu@, fl@), q_add(f.val(um), f.val(lm)));
        lemma_q_half_cong(s0@, q_add(f.val(um), f.val(lm)));
        lemma_q_ops_wf(s0@, s0@);
        lemma_q_ops_wf(q_add(f.val(um), f.val(lm)), q_add(f.val(um), f.val(lm)));
        lemma_q_eq_trans(acc0@, q_half(s0@), em);
        lemma_q_add_zero(em);
        lemma_q_ops_wf(em, q_of_int(0));
        lemma_q_eq_trans(acc0@, em, q_add(em, q_of_int(0)));
    }
    let mut acc = acc0;
    let mut i: u64 = 1;
    while i < n
        invariant
            1 <= i <= n,
            acc.wf(),
            q_eq(acc@, q_add(em, interior_sum(f, lm, hm, (i - 1) as nat))),
            q_wf(q_add(em, interior_sum(f, lm, hm, (i - 1) as nat))),
            trap_loop_chk(f, lm, h@, acc@, i as int, n as int) == trap_loop_chk(
                f,
                lm,
                h@,
                acc0@,
                1,
                n as int,
            ),
        decreases n - i,
    {
        let t = Rat::from_nat(i);
        let xt = match t.try_mul(&h) {
            Some(v) => v,
            None => {
                return None;
            },
        };
        let x = match lower.try_add(&xt) {
            Some(v) => v,
            None => {
                return None;
            },
        };
        let y = match f.eval(&x) {
            Some(v) => v,
            None => {
                return None;
            },
        };
        let acc2 = match acc.try_add(&y) {
            Some(v) => v,
            None => {
                return None;
            },
        };
        proof {
            let k = i as int;
            let xm = q_add(lm, q_mul(q_of_int(k), hm));
            // x@ is the mathematical sample point, up to rational equality.
            lemma_q_mul_cong(q_of_int(k), q_of_int(k), h@, hm);
            lemma_q_ops_wf(q_of_int(k), h@);
            lemma_q_ops_wf(q_of_int(k), hm);
            lemma_q_eq_trans(xt@, q_mul(q_of_int(k), h@), q_mul(q_of_int(k), hm));
            lemma_q_add_cong(lm, lm, xt@, q_mul(q_of_int(k), hm));
            lemma_q_ops_wf(lm, xt@);
            lemma_q_ops_wf(lm, q_mul(q_of_int(k), hm));
            lemma_q_eq_trans(x@, q_add(lm, xt@), xm);
            // y@ is the integrand's value there, up to rational equality.
            f.val_props(x@, xm);
            f.val_props(xm, xm);
            lemma_q_eq_trans(y@, f.val(x@), f.val(xm));
            // The new accumulator extends the interior sum by one term.
            let sprev = interior_sum(f, lm, hm, (i - 1) as nat);
            lemma_interior_sum_wf(f, lm, hm, (i - 1) as nat);
            lemma_q_add_cong(acc@, q_add(em, sprev), y@, f.val(xm));
            lemma_q_ops_wf(acc@, y@);
            lemma_q_ops_wf(q_add(em, sprev), f.val(xm));
            lemma_q_eq_trans(acc2@, q_add(acc@, y@), q_add(q_add(em, sprev), f.val(xm)));
            lemma_q_add_assoc(em, sprev, f.val(xm));
            lemma_q_ops_wf(sprev, f.val(xm));
            lemma_q_ops_wf(em, q_add(sprev, f.val(xm)));
            lemma_q_eq_trans(
                acc2@,
                q_add(q_add(em, sprev), f.val(xm)),
                q_add(em, q_add(sprev, f.val(xm))),
            );
            assert(interior_sum(f, lm, hm, i as nat) == q_add(sprev, f.val(xm)));
        }
        acc = acc2;
        i = i + 1;
    }
    let r = acc.try_mul(&h);
    proof {
        assert(trap_loop_chk(f, lm, h@, acc@, n as int, n as int) == Some(acc@));
        if r is Some {
            let y = r->Some_0;
            let tm = q_add(em, interior_sum(f, lm, hm, (n - 1) as nat));
            lemma_q_mul_cong(acc@, tm, h@, hm);
            lemma_q_ops_wf(acc@, h@);
            lemma_q_ops_wf(tm, hm);
            lemma_q_eq_trans(y@, q_mul(acc@, h@), q_mul(tm, hm));
        }
    }
    r
}

/// The interior sum of a constant integrand with value `c` over `k` points
/// equals `k * c`.
proof fn lemma_interior_sum_constant<F: Integrand>(f: &F, c: Q, lower: Q, h: Q, k: nat)
    requires
        q_wf(c),
        q_wf(lower),
        q_wf(h),
        forall|x: Q| #[trigger] f.val(x) == c,
    ensures
        q_eq(interior_sum(f, lower, h, k), Q { num: k as int * c.num, den: c.den }),
    decreases k,
{
    if k == 0 {
        assert(interior_sum(f, lower, h, 0) == q_of_int(0));
        assert(0 * c.den == (0 * c.num) * 1) by (nonlinear_arith);
        assert(q_eq(q_of_int(0), Q { num: 0 * c.num, den: c.den }));
    } else {
        lemma_interior_sum_constant(f, c, lower, h, (k - 1) as nat);
        lemma_interior_sum_wf(f, lower, h, (k - 1) as nat);
        let ki = k as int;
        let sprev = interior_sum(f, lower, h, (k - 1) as nat);
        let cp = Q { num: (ki - 1) * c.num, den: c.den };
        let ck = Q { num: ki * c.num, den: c.den };
        lemma_q_add_cong(sprev, cp, c, c);
        assert(q_eq(q_add(cp, c), ck)) by (nonlinear_arith)
            requires
                cp.num == (ki - 1) * c.num,
                cp.den == c.den,
                ck.num == ki * c.num,
                ck.den == c.den,
        ;
        lemma_q_ops_wf(sprev, c);
        lemma_q_ops_wf(cp, c);
        lemma_q_eq_trans(q_add(sprev, c), q_add(cp, c), ck);
        assert(interior_sum(f, lower, h, k) == q_add(sprev, c));
    }
}

/// Law: for a constant integrand `f(x) = c` the composite trapezoidal rule
/// returns exactly `c * (upper - lower)`, for every step count `n >= 1`.
pub proof fn lemma_trapezoid_constant<F: Integrand>(f: &F, c: Q, n: nat, upper: Q, lower: Q)
    requires
        n >= 1,
        q_wf(c),
        q_wf(upper),
        q_wf(lower),
        forall|x: Q| #[trigger] f.val(x) == c,
    ensures
        q_eq(trap_math(f, n, upper, lower), q_mul(c, q_sub(upper, lower))),
{
    let ni = n as int;
    let s = q_sub(upper, lower);
    let h = trap_h(upper, lower, ni);
    lemma_q_ops_wf(upper, lower);
    assert(q_wf(h)) by (nonlinear_arith)
        requires
            h.den == s.den * ni,
            s.den > 0,
            ni >= 1,
    ;
    let e = q_half(q_add(c, c));
    lemma_q_ops_wf(c, c);
    lemma_q_ops_wf(q_add(c, c), c);
    lemma_interior_sum_constant(f, c, lower, h, (n - 1) as nat);
    lemma_interior_sum_wf(f, lower, h, (n - 1) as nat);
    let sint = interior_sum(f, lower, h, (n - 1) as nat);
    let cp = Q { num: (ni - 1) * c.num, den: c.den };
    let ck = Q { num: ni * c.num, den: c.den };
    assert(q_eq(e, c)) by (nonlinear_arith)
        requires
            e.num == c.num * c.den + c.num * c.den,
            e.den == (c.den * c.den) * 2,
    ;
    lemma_q_add_cong(e, c, sint, cp);
    assert(q_eq(q_add(c, cp), ck)) by (nonlinear_arith)
        requires
            cp.num == (ni - 1) * c.num,
            cp.den == c.den,
            ck.num == ni * c.num,
            ck.den == c.den,
    ;
    lemma_q_ops_wf(e, sint);
    lemma_q_ops_wf(c, cp);
    lemma_q_eq_trans(q_add(e, sint), q_add(c, cp), ck);
    lemma_q_mul_cong(q_add(e, sint), ck, h, h);
    assert(q_eq(q_mul(ck, h), q_mul(c, s))) by (nonlinear_arith)
        requires
            ck.num == ni * c.num,
            ck.den == c.den,
            h.num == s.num,
            h.den == s.den * ni,
    ;
    lemma_q_ops_wf(q_add(e, sint), h);
    lemma_q_ops_wf(ck, h);
    lemma_q_ops_wf(c, s);
    lemma_q_eq_trans(q_mul(q_add(e, sint), h), q_mul(ck, h), q_mul(c, s));
    assert(trap_math(f, n, upper, lower) == q_mul(q_add(e, sint), h));
}

/// The interior sum of the identity integrand over `k` points starting at
/// `lower` with step `h` equals `k * lower + (k * (k + 1) / 2) * h`, written
/// over the common denominator `2 * lower.den * h.den`.
proof fn lemma_interior_sum_identity<F: Integrand>(f: &F, lower: Q, h: Q, k: nat)
    requires
        q_wf(lower),
        q_wf(h),
        forall|x: Q| #[trigger] f.val(x) == x,
    ensures
        q_eq(
            interior_sum(f, lower, h, k),
            Q {
                num: 2 * k as int * (lower.num * h.den) + (k as int * (k as int + 1)) * (h.num
                    * lower.den),
                den: 2 * (lower.den * h.den),
            },
        ),
    decreases k,
{
    let p = lower.num * h.den;
    let qq = h.num * lower.den;
    let e = lower.den * h.den;
    assert(e > 0) by (nonlinear_arith)
        requires
            e == lower.den * h.den,
            lower.den > 0,
            h.den > 0,
    ;
    if k == 0 {
        assert(0 * (2 * e) == (2 * 0 * p + (0 * 1) * qq) * 1) by (nonlinear_arith);
        assert(q_eq(q_of_int(0), Q { num: 2 * 0 * p + (0 * 1) * qq, den: 2 * e }));
    } else {
        lemma_interior_sum_identity(f, lower, h, (k - 1) as nat);
        lemma_interior_sum_wf(f, lower, h, (k - 1) as nat);
        let ki = k as int;
        let sprev = interior_sum(f, lower, h, (k - 1) as nat);
        let cp = Q { num: 2 * (ki - 1) * p + ((ki - 1) * ki) * qq, den: 2 * e };
        let ck = Q { num: 2 * ki * p + (ki * (ki + 1)) * qq, den: 2 * e };
        let xk = q_add(lower, q_mul(q_of_int(ki), h));
        lemma_q_ops_wf(q_of_int(ki), h);
        lemma_q_ops_wf(lower, q_mul(q_of_int(ki), h));
        assert(xk.num == p + ki * qq) by (nonlinear_arith)
            requires
                xk.num == lower.num * (1 * h.den) + (ki * h.num) * lower.den,
                p == lower.num * h.den,
                qq == h.num * lower.den,
        ;
        assert(xk.den == e);
        lemma_q_add_cong(sprev, cp, xk, xk);
        assert(cp.num + 2 * xk.num == ck.num) by (nonlinear_arith)
            requires
                cp.num == 2 * (ki - 1) * p + ((ki - 1) * ki) * qq,
                xk.num == p + ki * qq,
                ck.num == 2 * ki * p + (ki * (ki + 1)) * qq,
        ;
        assert((cp.num * e + xk.num * (2 * e)) * (2 * e) == ck.num * ((2 * e) * e))
            by (nonlinear_arith)
            requires
                cp.num + 2 * xk.num == ck.num,
        ;
        assert(q_eq(q_add(cp, xk), ck));
        lemma_q_ops_wf(sprev, xk);
        lemma_q_ops_wf(cp, xk);
        lemma_q_eq_trans(q_add(sprev, xk), q_add(cp, xk), ck);
        assert(interior_sum(f, lower, h, k) == q_add(sprev, xk));
    }
}

/// Law: for the identity integrand `f(x) = x` the composite trapezoidal rule
/// is exact for every step count `n >= 1`: it returns
/// `(upper² - lower²) / 2`, written `((upper + lower) * (upper - lower)) / 2`.
pub proof fn lemma_trapezoid_identity<F: Integrand>(f: &F, n: nat, upper: Q, lower: Q)
    requires
        n >= 1,
        q_wf(upper),
        q_wf(lower),
        forall|x: Q| #[trigger] f.val(x) == x,
    ensures
        q_eq(
            trap_math(f, n, upper, lower),
            q_half(q_mul(q_add(upper, lower), q_sub(upper, lower))),
        ),
{
    let ni = n as int;
    let s = q_sub(upper, lower);
    let h = trap_h(upper, lower, ni);
    lemma_q_ops_wf(upper, lower);
    assert(q_wf(h)) by (nonlinear_arith)
        requires
            h.den == s.den * ni,
            s.den > 0,
            ni >= 1,
    ;
    let e = q_half(q_add(upper, lower));
    lemma_q_ops_wf(q_add(upper, lower), s);
    let sint = interior_sum(f, lower, h, (n - 1) as nat);
    lemma_interior_sum_identity(f, lower, h, (n - 1) as nat);
    lemma_interior_sum_wf(f, lower, h, (n - 1) as nat);
    let p = lower.num * h.den;
    let qq = h.num * lower.den;
    let ee = lower.den * h.den;
    let cp = Q { num: 2 * (ni - 1) * p + ((ni - 1) * ni) * qq, den: 2 * ee };
    let a1 = upper.num * lower.den + lower.num * upper.den;
    let d1 = upper.den * lower.den;
    let m = Q { num: ni * a1, den: 2 * d1 };
    assert(cp.den > 0 && m.den > 0) by (nonlinear_arith)
        requires
            lower.den > 0,
            h.den > 0,
            upper.den > 0,
            cp.den == 2 * (lower.den * h.den),
            m.den == 2 * (upper.den * lower.den),
    ;
    assert(ee == lower.den * (d1 * ni)) by (nonlinear_arith)
        requires
            ee == lower.den * h.den,
            h.den == (upper.den * lower.den) * ni,
            d1 == upper.den * lower.den,
    ;
    // The numerator of the interior sum factors as (n - 1) * n * lower.den * a1.
    assert(2 * (lower.num * d1) + s.num * lower.den == lower.den * a1) by (nonlinear_arith)
        requires
            s.num == upper.num * lower.den - lower.num * upper.den,
            a1 == upper.num * lower.den + lower.num * upper.den,
            d1 == upper.den * lower.den,
    ;
    assert(p == lower.num * (d1 * ni));
    assert(cp.num == (ni - 1) * ni * (2 * (lower.num * d1) + s.num * lower.den))
        by (nonlinear_arith)
        requires
            cp.num == 2 * (ni - 1) * p + ((ni - 1) * ni) * qq,
            p == lower.num * (d1 * ni),
            qq == s.num * lower.den,
    ;
    assert(cp.num == (ni - 1) * ni * (lower.den * a1));
    assert(e.num == a1);
    assert(e.den == d1 * 2);
    // Adding the endpoint mean collapses the sum to n * (upper + lower) / 2.
    let w = q_add(e, cp);
    let u1 = a1 * (lower.den * d1);
    assert(a1 * (2 * ee) == 2 * u1 * ni) by (nonlinear_arith)
        requires
            ee == lower.den * (d1 * ni),
            u1 == a1 * (lower.den * d1),
    ;
    assert(cp.num * (d1 * 2) == 2 * u1 * ((ni - 1) * ni)) by (nonlinear_arith)
        requires
            cp.num == (ni - 1) * ni * (lower.den * a1),
            u1 == a1 * (lower.den * d1),
    ;
    assert(w.num == a1 * (2 * ee) + cp.num * (d1 * 2));
    assert(w.num == 2 * u1 * (ni * ni)) by (nonlinear_arith)
        requires
            w.num == 2 * u1 * ni + 2 * u1 * ((ni - 1) * ni),
    ;
    assert(w.num * m.den == m.num * w.den) by (nonlinear_arith)
        requires
            w.num == 2 * u1 * (ni * ni),
            w.den == (d1 * 2) * (2 * ee),
            m.num == ni * a1,
            m.den == 2 * d1,
            ee == lower.den * (d1 * ni),
            u1 == a1 * (lower.den * d1),
    ;
    assert(q_eq(q_add(e, cp), m));
    lemma_q_add_cong(e, e, sint, cp);
    lemma_q_ops_wf(e, sint);
    lemma_q_ops_wf(e, cp);
    lemma_q_eq_trans(q_add(e, sint), q_add(e, cp), m);
    lemma_q_mul_cong(q_add(e, sint), m, h, h);
    let target = q_half(q_mul(q_add(upper, lower), s));
    assert(q_eq(q_mul(m, h), target)) by (nonlinear_arith)
        requires
            m.num == ni * a1,
            m.den == 2 * d1,
            h.num == s.num,
            h.den == d1 * ni,
            target.num == a1 * s.num,
            target.den == (d1 * d1) * 2,
            d1 > 0,
            ni >= 1,
    ;
    lemma_q_ops_wf(q_add(e, sint), h);
    lemma_q_ops_wf(m, h);
    lemma_q_ops_wf(q_mul(q_add(upper, lower), s), s);
    lemma_q_eq_trans(q_mul(q_add(e, sint), h), q_mul(m, h), target);
    assert(trap_math(f, n, upper, lower) == q_mul(q_add(e, sint), h));
}

/// Law: the integrator is a pure function — its contract pins the result
/// down completely, so two results obtained from identical inputs are
/// identical, bit for bit.
pub proof fn lemma_trapezoid_deterministic<F: Integrand>(
    f: &F,
    n: int,
    upper: Q,
    lower: Q,
    r1: Option<Rat>,
    r2: Option<Rat>,
)
    requires
        opt_rat_view(r1) == trap_chk(f, n, upper, lower),
        opt_rat_view(r2) == trap_chk(f, n, upper, lower),
    ensures
        r1 == r2,
{
    match (r1, r2) {
        (Some(a), Some(b)) => {
            lemma_rat_view_injective(a, b);
        },
        _ => {},
    }
}

/// Law: with a single step the rule equals the two-point trapezoid estimate
/// `((f(upper) + f(lower)) / 2) * (upper - lower)`.
pub proof fn lemma_trapezoid_single_step<F: Integrand>(f: &F, upper: Q, lower: Q)
    requires
        q_wf(upper),
        q_wf(lower),
    ensures
        q_eq(
            trap_math(f, 1, upper, lower),
            q_mul(q_half(q_add(f.val(upper), f.val(lower))), q_sub(upper, lower)),
        ),
{
    let s = q_sub(upper, lower);
    let h = trap_h(upper, lower, 1);
    let e = q_half(q_add(f.val(upper), f.val(lower)));
    f.val_props(upper, upper);
    f.val_props(lower, lower);
    lemma_q_ops_wf(f.val(upper), f.val(lower));
    lemma_q_ops_wf(q_add(f.val(upper), f.val(lower)), q_add(f.val(upper), f.val(lower)));
    lemma_q_ops_wf(upper, lower);
    lemma_q_add_zero(e);
    lemma_q_ops_wf(e, q_of_int(0));
    assert(q_eq(h, s));
    lemma_q_mul_cong(q_add(e, q_of_int(0)), e, h, s);
    assert(trap_math(f, 1, upper, lower) == q_mul(q_add(e, q_of_int(0)), h));
}

} // verus!
