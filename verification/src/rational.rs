//! Exact rational numbers.
//!
//! A rational is held as a numerator and a positive denominator in `i128`.
//! Every operation is exact: it either returns the mathematically correct
//! value in lowest terms, or reports that the result does not fit the
//! representation. The mathematical model is the ghost type [`Q`], a pair of
//! unbounded integers compared by cross-multiplication ([`q_eq`]).

use vstd::prelude::*;
use vstd::arithmetic::div_mod::{
    lemma_div_multiples_vanish, lemma_div_nonincreasing, lemma_fundamental_div_mod,
    lemma_mod_multiples_basic, lemma_mod_self_0,
};
use vstd::arithmetic::mul::{lemma_mul_is_associative, lemma_mul_is_distributive_add_other_way};
use vstd::math::abs;

verus! {

/// Mathematical rational number: numerator and denominator as unbounded
/// integers. A value is meaningful when [`q_wf`] holds (positive denominator).
pub ghost struct Q {
    pub num: int,
    pub den: int,
}

/// Well-formedness of a mathematical rational: the denominator is positive.
pub open spec fn q_wf(q: Q) -> bool {
    q.den > 0
}

/// Equality of rationals by cross-multiplication: `a.num/a.den == b.num/b.den`.
pub open spec fn q_eq(a: Q, b: Q) -> bool {
    a.num * b.den == b.num * a.den
}

/// Exact sum of two rationals (not reduced to lowest terms).
pub open spec fn q_add(a: Q, b: Q) -> Q {
    Q { num: a.num * b.den + b.num * a.den, den: a.den * b.den }
}

/// Exact difference of two rationals (not reduced to lowest terms).
pub open spec fn q_sub(a: Q, b: Q) -> Q {
    Q { num: a.num * b.den - b.num * a.den, den: a.den * b.den }
}

/// Exact product of two rationals (not reduced to lowest terms).
pub open spec fn q_mul(a: Q, b: Q) -> Q {
    Q { num: a.num * b.num, den: a.den * b.den }
}

/// Exact half of a rational.
pub open spec fn q_half(a: Q) -> Q {
    Q { num: a.num, den: a.den * 2 }
}

/// Exact quotient of a rational by a positive integer.
pub open spec fn q_div_int(a: Q, n: int) -> Q {
    Q { num: a.num, den: a.den * n }
}

/// The rational equal to the integer `i`.
pub open spec fn q_of_int(i: int) -> Q {
    Q { num: i, den: 1 }
}

/// Greatest common divisor by Euclid's algorithm.
pub open spec fn gcd(a: nat, b: nat) -> nat
    decreases b,
{
    if b == 0 {
        a
    } else {
        gcd(b, a % b)
    }
}

/// A rational reduced to lowest terms by the gcd of numerator and denominator.
pub open spec fn q_reduce(q: Q) -> Q {
    let g = gcd(abs(q.num), q.den as nat) as int;
    Q { num: q.num / g, den: q.den / g }
}

/// Whether an unbounded integer fits the numerator range of [`Rat`]:
/// `i128::MIN` itself is excluded so that absolute values stay representable.
pub open spec fn fits(v: int) -> bool {
    -(i128::MAX as int) <= v && v <= i128::MAX as int
}

/// The gcd of two naturals, not both zero, is positive and divides both.
pub proof fn lemma_gcd_divides(a: nat, b: nat)
    requires
        a + b > 0,
    ensures
        gcd(a, b) > 0,
        a as int % (gcd(a, b) as int) == 0,
        b as int % (gcd(a, b) as int) == 0,
    decreases b,
{
    if b == 0 {
        lemma_mod_self_0(a as int);
    } else {
        lemma_gcd_divides(b, a % b);
        let g = gcd(b, a % b) as int;
        let ai = a as int;
        let bi = b as int;
        lemma_fundamental_div_mod(ai, bi);
        lemma_fundamental_div_mod(bi, g);
        lemma_fundamental_div_mod(ai % bi, g);
        let k1 = bi / g;
        let k2 = (ai % bi) / g;
        let q1 = ai / bi;
        assert(ai == g * (k1 * q1 + k2)) by (nonlinear_arith)
            requires
                ai == bi * q1 + (ai % bi),
                bi == g * k1,
                ai % bi == g * k2,
        ;
        lemma_mod_multiples_basic(k1 * q1 + k2, g);
        assert(ai % g == 0) by {
            assert((k1 * q1 + k2) * g == g * (k1 * q1 + k2)) by (nonlinear_arith);
        }
    }
}

/// Reducing a rational to lowest terms keeps it well formed and equal
/// (as a rational) to the original.
pub proof fn lemma_q_reduce_eq(q: Q)
    requires
        q_wf(q),
    ensures
        q_wf(q_reduce(q)),
        q_eq(q_reduce(q), q),
        q_eq(q, q_reduce(q)),
{
    let m = abs(q.num) as int;
    lemma_gcd_divides(abs(q.num), q.den as nat);
    let g = gcd(abs(q.num), q.den as nat) as int;
    lemma_fundamental_div_mod(m, g);
    lemma_fundamental_div_mod(q.den, g);
    let nn = q.num / g;
    let dd = q.den / g;
    if q.num >= 0 {
        assert(q.num == g * nn);
    } else {
        let km = m / g;
        assert(m == g * km);
        assert(g * (-km) == -(g * km)) by (nonlinear_arith);
        lemma_div_multiples_vanish(-km, g);
        assert(nn == -km);
        assert(q.num == g * nn) by (nonlinear_arith)
            requires
                q.num == -m,
                m == g * km,
                nn == -km,
        ;
    }
    assert(q.den == g * dd);
    assert(dd > 0) by (nonlinear_arith)
        requires
            q.den == g * dd,
            q.den > 0,
            g > 0,
    ;
    assert(nn * (g * dd) == (g * nn) * dd) by (nonlinear_arith);
    assert(q_eq(q_reduce(q), q));
}

/// Rational equality is transitive on well-formed values.
pub proof fn lemma_q_eq_trans(a: Q, b: Q, c: Q)
    requires
        q_wf(a),
        q_wf(b),
        q_wf(c),
        q_eq(a, b),
        q_eq(b, c),
    ensures
        q_eq(a, c),
{
    assert(a.num * c.den == c.num * a.den) by (nonlinear_arith)
        requires
            a.num * b.den == b.num * a.den,
            b.num * c.den == c.num * b.den,
            b.den > 0,
    ;
}

/// Sums, differences, products, halves and integer quotients of well-formed
/// rationals are well formed.
pub proof fn lemma_q_ops_wf(a: Q, b: Q)
    requires
        q_wf(a),
        q_wf(b),
    ensures
        q_wf(q_add(a, b)),
        q_wf(q_sub(a, b)),
        q_wf(q_mul(a, b)),
        q_wf(q_half(a)),
{
    assert(a.den * b.den > 0) by (nonlinear_arith)
        requires
            a.den > 0,
            b.den > 0,
    ;
}

/// Addition respects rational equality.
pub proof fn lemma_q_add_cong(a: Q, a2: Q, b: Q, b2: Q)
    requires
        q_wf(a),
        q_wf(a2),
        q_wf(b),
        q_wf(b2),
        q_eq(a, a2),
        q_eq(b, b2),
    ensures
        q_eq(q_add(a, b), q_add(a2, b2)),
{
    let w = a2.den * b2.den;
    let v = a.den * b.den;
    lemma_mul_is_distributive_add_other_way(w, a.num * b.den, b.num * a.den);
    lemma_mul_is_distributive_add_other_way(v, a2.num * b2.den, b2.num * a2.den);
    assert((a.num * b.den) * (a2.den * b2.den) == (a.num * a2.den) * (b.den * b2.den))
        by (nonlinear_arith);
    assert((a2.num * a.den) * (b.den * b2.den) == (a2.num * b2.den) * (a.den * b.den))
        by (nonlinear_arith);
    assert((b.num * a.den) * (a2.den * b2.den) == (b.num * b2.den) * (a.den * a2.den))
        by (nonlinear_arith);
    assert((b2.num * b.den) * (a.den * a2.den) == (b2.num * a2.den) * (a.den * b.den))
        by (nonlinear_arith);
}

/// Multiplication respects rational equality.
pub proof fn lemma_q_mul_cong(a: Q, a2: Q, b: Q, b2: Q)
    requires
        q_wf(a),
        q_wf(a2),
        q_wf(b),
        q_wf(b2),
        q_eq(a, a2),
        q_eq(b, b2),
    ensures
        q_eq(q_mul(a, b), q_mul(a2, b2)),
{
    assert((a.num * b.num) * (a2.den * b2.den) == (a2.num * b2.num) * (a.den * b.den))
        by (nonlinear_arith)
        requires
            a.num * a2.den == a2.num * a.den,
            b.num * b2.den == b2.num * b.den,
    ;
}

/// Halving respects rational equality.
pub proof fn lemma_q_half_cong(a: Q, a2: Q)
    requires
        q_wf(a),
        q_wf(a2),
        q_eq(a, a2),
    ensures
        q_eq(q_half(a), q_half(a2)),
{
    assert(a.num * (a2.den * 2) == a2.num * (a.den * 2)) by (nonlinear_arith)
        requires
            a.num * a2.den == a2.num * a.den,
    ;
}

/// Division by a positive integer respects rational equality and keeps
/// values well formed.
pub proof fn lemma_q_div_int_cong(a: Q, a2: Q, n: int)
    requires
        q_wf(a),
        q_wf(a2),
        q_eq(a, a2),
        n >= 1,
    ensures
        q_eq(q_div_int(a, n), q_div_int(a2, n)),
        q_wf(q_div_int(a, n)),
        q_wf(q_div_int(a2, n)),
{
    assert(a.num * (a2.den * n) == a2.num * (a.den * n)) by (nonlinear_arith)
        requires
            a.num * a2.den == a2.num * a.den,
    ;
    assert(a.den * n > 0) by (nonlinear_arith)
        requires
            a.den > 0,
            n >= 1,
    ;
    assert(a2.den * n > 0) by (nonlinear_arith)
        requires
            a2.den > 0,
            n >= 1,
    ;
}

/// Addition of rationals is associative up to rational equality.
pub proof fn lemma_q_add_assoc(a: Q, b: Q, c: Q)
    requires
        q_wf(a),
        q_wf(b),
        q_wf(c),
    ensures
        q_eq(q_add(q_add(a, b), c), q_add(a, q_add(b, c))),
{
    let l = q_add(q_add(a, b), c);
    let r = q_add(a, q_add(b, c));
    lemma_mul_is_distributive_add_other_way(c.den, a.num * b.den, b.num * a.den);
    lemma_mul_is_distributive_add_other_way(a.den, b.num * c.den, c.num * b.den);
    lemma_mul_is_associative(a.den, b.den, c.den);
    assert(l.den == r.den);
    assert((a.num * b.den) * c.den == a.num * (b.den * c.den)) by (nonlinear_arith);
    assert((b.num * a.den) * c.den == (b.num * c.den) * a.den) by (nonlinear_arith);
    assert(c.num * (a.den * b.den) == (c.num * b.den) * a.den) by (nonlinear_arith);
    assert(l.num == r.num);
}

/// Adding zero does not change a rational.
pub proof fn lemma_q_add_zero(a: Q)
    requires
        q_wf(a),
    ensures
        q_eq(q_add(a, q_of_int(0)), a),
{
}

/// Checked-and-reduced sum: exactly what [`Rat::try_add`] returns, seen
/// through views. `None` exactly when an intermediate product, the summed
/// numerator or the combined denominator falls outside the representable
/// range.
pub open spec fn q_add_chk(a: Q, b: Q) -> Option<Q> {
    let t1 = a.num * b.den;
    let t2 = b.num * a.den;
    let s = t1 + t2;
    let d = a.den * b.den;
    if fits(t1) && fits(t2) && fits(s) && fits(d) {
        Some(q_reduce(Q { num: s, den: d }))
    } else {
        None
    }
}

/// Checked-and-reduced difference: exactly what [`Rat::try_sub`] returns.
pub open spec fn q_sub_chk(a: Q, b: Q) -> Option<Q> {
    let t1 = a.num * b.den;
    let t2 = b.num * a.den;
    let s = t1 - t2;
    let d = a.den * b.den;
    if fits(t1) && fits(t2) && fits(s) && fits(d) {
        Some(q_reduce(Q { num: s, den: d }))
    } else {
        None
    }
}

/// Checked-and-reduced product: exactly what [`Rat::try_mul`] returns.
pub open spec fn q_mul_chk(a: Q, b: Q) -> Option<Q> {
    let t = a.num * b.num;
    let d = a.den * b.den;
    if fits(t) && fits(d) {
        Some(q_reduce(Q { num: t, den: d }))
    } else {
        None
    }
}

/// Checked-and-reduced halving: exactly what [`Rat::try_half`] returns.
pub open spec fn q_half_chk(a: Q) -> Option<Q> {
    let d = a.den * 2;
    if fits(d) {
        Some(q_reduce(Q { num: a.num, den: d }))
    } else {
        None
    }
}

/// Checked-and-reduced division by a positive integer: exactly what
/// [`Rat::try_div_int`] returns.
pub open spec fn q_div_int_chk(a: Q, n: int) -> Option<Q> {
    let d = a.den * n;
    if fits(d) {
        Some(q_reduce(Q { num: a.num, den: d }))
    } else {
        None
    }
}

/// The machine representation of a rational number: numerator over a
/// positive denominator, both `i128`.
#[derive(Clone, Copy, Debug, PartialEq, Eq, Structural)]
pub struct Rat {
    num: i128,
    den: i128,
}

impl View for Rat {
    type V = Q;

    closed spec fn view(&self) -> Q {
        Q { num: self.num as int, den: self.den as int }
    }
}

/// Turns an `Option` of machine rationals into an `Option` of mathematical ones.
pub open spec fn opt_rat_view(r: Option<Rat>) -> Option<Q> {
    match r {
        Some(y) => Some(y@),
        None => None,
    }
}

/// Exact greatest common divisor of two machine naturals.
fn gcd_u128(a0: u128, b0: u128) -> (g: u128)
    ensures
        g as nat == gcd(a0 as nat, b0 as nat),
{
    let mut a: u128 = a0;
    let mut b: u128 = b0;
    while b != 0
        invariant
            gcd(a as nat, b as nat) == gcd(a0 as nat, b0 as nat),
        decreases b,
    {
        let t: u128 = a % b;
        a = b;
        b = t;
    }
    a
}

impl Rat {
    /// Well-formedness: positive denominator, numerator above `i128::MIN`.
    pub open spec fn wf(self) -> bool {
        q_wf(self@) && fits(self@.num)
    }

    /// The numerator of the stored representation.
    pub fn numerator(&self) -> (r: i128)
        ensures
            r as int == self@.num,
    {
        self.num
    }

    /// The denominator of the stored representation.
    pub fn denominator(&self) -> (r: i128)
        ensures
            r as int == self@.den,
    {
        self.den
    }

    /// The rational `num / den` in lowest terms; `None` when the denominator
    /// is not positive or the numerator is `i128::MIN`.
    pub fn new(num: i128, den: i128) -> (r: Option<Rat>)
        ensures
            opt_rat_view(r) == (if den > 0 && fits(num as int) {
                Some(q_reduce(Q { num: num as int, den: den as int }))
            } else {
                Option::<Q>::None
            }),
            r matches Some(y) ==> y.wf() && q_eq(y@, Q { num: num as int, den: den as int }),
    {
        if den <= 0 || num == i128::MIN {
            return None;
        }
        proof {
            lemma_q_reduce_eq(Q { num: num as int, den: den as int });
        }
        Some(reduce(num, den))
    }

    /// The rational equal to the integer `i`.
    pub fn from_int(i: i64) -> (r: Rat)
        ensures
            r@ == q_of_int(i as int),
            r.wf(),
    {
        Rat { num: i as i128, den: 1 }
    }

    /// The rational equal to the natural number `i`.
    pub fn from_nat(i: u64) -> (r: Rat)
        ensures
            r@ == q_of_int(i as int),
            r.wf(),
    {
        Rat { num: i as i128, den: 1 }
    }

    /// Exact sum, in lowest terms; `None` exactly when an intermediate value
    /// does not fit the representation.
    pub fn try_add(&self, other: &Rat) -> (r: Option<Rat>)
        requires
            self.wf(),
            other.wf(),
        ensures
            opt_rat_view(r) == q_add_chk(self@, other@),
            r matches Some(y) ==> y.wf() && q_wf(q_add(self@, other@)) && q_eq(
                y@,
                q_add(self@, other@),
            ),
    {
        let t1: i128 = match self.num.checked_mul(other.den) {
            Some(v) => v,
            None => return None,
        };
        if t1 == i128::MIN {
            return None;
        }
        let t2: i128 = match other.num.checked_mul(self.den) {
            Some(v) => v,
            None => return None,
        };
        if t2 == i128::MIN {
            return None;
        }
        let s: i128 = match t1.checked_add(t2) {
            Some(v) => v,
            None => return None,
        };
        if s == i128::MIN {
            return None;
        }
        let d: i128 = match self.den.checked_mul(other.den) {
            Some(v) => v,
            None => return None,
        };
        proof {
            assert(d > 0) by (nonlinear_arith)
                requires
                    d as int == self@.den * other@.den,
                    self@.den > 0,
                    other@.den > 0,
            ;
            lemma_q_reduce_eq(Q { num: s as int, den: d as int });
        }
        Some(reduce(s, d))
    }

    /// Exact difference, in lowest terms; `None` exactly when an intermediate
    /// value does not fit the representation.
    pub fn try_sub(&self, other: &Rat) -> (r: Option<Rat>)
        requires
            self.wf(),
            other.wf(),
        ensures
            opt_rat_view(r) == q_sub_chk(self@, other@),
            r matches Some(y) ==> y.wf() && q_wf(q_sub(self@, other@)) && q_eq(
                y@,
                q_sub(self@, other@),
            ),
    {
        let t1: i128 = match self.num.checked_mul(other.den) {
            Some(v) => v,
            None => return None,
        };
        if t1 == i128::MIN {
            return None;
        }
        let t2: i128 = match other.num.checked_mul(self.den) {
            Some(v) => v,
            None => return None,
        };
        if t2 == i128::MIN {
            return None;
        }
        let s: i128 = match t1.checked_sub(t2) {
            Some(v) => v,
            None => return None,
        };
        if s == i128::MIN {
            return None;
        }
        let d: i128 = match self.den.checked_mul(other.den) {
            Some(v) => v,
            None => return None,
        };
        proof {
            assert(d > 0) by (nonlinear_arith)
                requires
                    d as int == self@.den * other@.den,
                    self@.den > 0,
                    other@.den > 0,
            ;
            lemma_q_reduce_eq(Q { num: s as int, den: d as int });
        }
        Some(reduce(s, d))
    }

    /// Exact product, in lowest terms; `None` exactly when an intermediate
    /// value does not fit the representation.
    pub fn try_mul(&self, other: &Rat) -> (r: Option<Rat>)
        requires
            self.wf(),
            other.wf(),
        ensures
            opt_rat_view(r) == q_mul_chk(self@, other@),
            r matches Some(y) ==> y.wf() && q_wf(q_mul(self@, other@)) && q_eq(
                y@,
                q_mul(self@, other@),
            ),
    {
        let t: i128 = match self.num.checked_mul(other.num) {
            Some(v) => v,
            None => return None,
        };
        if t == i128::MIN {
            return None;
        }
        let d: i128 = match self.den.checked_mul(other.den) {
            Some(v) => v,
            None => return None,
        };
        proof {
            assert(d > 0) by (nonlinear_arith)
                requires
                    d as int == self@.den * other@.den,
                    self@.den > 0,
                    other@.den > 0,
            ;
            lemma_q_reduce_eq(Q { num: t as int, den: d as int });
        }
        Some(reduce(t, d))
    }

    /// Exact half, in lowest terms; `None` exactly when the doubled
    /// denominator does not fit the representation.
    pub fn try_half(&self) -> (r: Option<Rat>)
        requires
            self.wf(),
        ensures
            opt_rat_view(r) == q_half_chk(self@),
            r matches Some(y) ==> y.wf() && q_wf(q_half(self@)) && q_eq(y@, q_half(self@)),
    {
        let d: i128 = match self.den.checked_mul(2) {
            Some(v) => v,
            None => return None,
        };
        proof {
            lemma_q_reduce_eq(Q { num: self@.num, den: d as int });
        }
        Some(reduce(self.num, d))
    }

    /// Exact division by a positive integer, in lowest terms; `None` exactly
    /// when the scaled denominator does not fit the representation.
    pub fn try_div_int(&self, n: u64) -> (r: Option<Rat>)
        requires
            self.wf(),
            n >= 1,
        ensures
            opt_rat_view(r) == q_div_int_chk(self@, n as int),
            r matches Some(y) ==> y.wf() && q_wf(q_div_int(self@, n as int)) && q_eq(
                y@,
                q_div_int(self@, n as int),
            ),
    {
        let d: i128 = match self.den.checked_mul(n as i128) {
            Some(v) => v,
            None => return None,
        };
        proof {
            assert(d > 0) by (nonlinear_arith)
                requires
                    d as int == self@.den * (n as int),
                    self@.den > 0,
                    n >= 1,
            ;
            lemma_q_reduce_eq(Q { num: self@.num, den: d as int });
        }
        Some(reduce(self.num, d))
    }
}

/// Two machine rationals with the same mathematical view are identical.
pub proof fn lemma_rat_view_injective(a: Rat, b: Rat)
    requires
        a@ == b@,
    ensures
        a == b,
{
}

/// Reduction to lowest terms of a representable numerator/denominator pair.
fn reduce(num: i128, den: i128) -> (r: Rat)
    requires
        den > 0,
        num > i128::MIN,
    ensures
        r@ == q_reduce(Q { num: num as int, den: den as int }),
        r.wf(),
{
    let neg: bool = num < 0;
    let m: i128 = if neg {
        -num
    } else {
        num
    };
    assert(m as int == abs(num as int));
    let mu: u128 = m as u128;
    let du: u128 = den as u128;
    let gu: u128 = gcd_u128(mu, du);
    proof {
        lemma_gcd_divides(mu as nat, du as nat);
        lemma_fundamental_div_mod(mu as int, gu as int);
        lemma_fundamental_div_mod(du as int, gu as int);
        assert(du as int / gu as int > 0) by (nonlinear_arith)
            requires
                du as int == gu as int * (du as int / gu as int),
                du > 0,
                gu > 0,
        ;
        lemma_div_nonincreasing(mu as int, gu as int);
        lemma_div_nonincreasing(du as int, gu as int);
    }
    let qm: u128 = mu / gu;
    let qd: u128 = du / gu;
    proof {
        if neg {
            let km = mu as int / gu as int;
            assert(gu as int * (-km) == -(gu as int * km)) by (nonlinear_arith);
            lemma_div_multiples_vanish(-km, gu as int);
            assert(num as int / gu as int == -km);
        }
    }
    let n2: i128 = if neg {
        -(qm as i128)
    } else {
        qm as i128
    };
    let d2: i128 = qd as i128;
    Rat { num: n2, den: d2 }
}

} // verus!
