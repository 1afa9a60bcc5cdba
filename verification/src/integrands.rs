//! Example integrands for the trapezoidal rule.

use vstd::prelude::*;
use crate::rational::{
    lemma_q_mul_cong, lemma_q_ops_wf, opt_rat_view, q_eq, q_mul, q_mul_chk, q_wf, Q, Rat,
};
use crate::trapezoid::Integrand;

verus! {

/// The squaring integrand `x * x`.
pub struct Square;

impl Integrand for Square {
    open spec fn val(&self, x: Q) -> Q {
        q_mul(x, x)
    }

    open spec fn try_val(&self, x: Q) -> Option<Q> {
        q_mul_chk(x, x)
    }

    proof fn val_props(&self, x: Q, y: Q) {
        lemma_q_ops_wf(x, x);
        lemma_q_mul_cong(x, y, x, y);
    }

    fn eval(&self, x: &Rat) -> (r: Option<Rat>) {
        x.try_mul(x)
    }
}

/// The identity integrand `x`.
pub struct Identity;

impl Integrand for Identity {
    open spec fn val(&self, x: Q) -> Q {
        x
    }

    open spec fn try_val(&self, x: Q) -> Option<Q> {
        Some(x)
    }

    proof fn val_props(&self, x: Q, y: Q) {
    }

    fn eval(&self, x: &Rat) -> (r: Option<Rat>) {
        Some(*x)
    }
}

/// The constant integrand: the same value at every point.
pub struct Constant {
    c: Rat,
}

impl Constant {
    #[verifier::type_invariant]
    spec fn inv(self) -> bool {
        self.c.wf()
    }

    /// The constant integrand with value `c`.
    pub fn new(c: Rat) -> (r: Constant)
        requires
            c.wf(),
        ensures
            forall|x: Q| #[trigger] r.val(x) == c@,
            forall|x: Q| #[trigger] r.try_val(x) == Some(c@),
    {
        Constant { c }
    }
}

impl Integrand for Constant {
    closed spec fn val(&self, x: Q) -> Q {
        if q_wf(self.c@) {
            self.c@
        } else {
            crate::rational::q_of_int(0)
        }
    }

    closed spec fn try_val(&self, x: Q) -> Option<Q> {
        Some(self.c@)
    }

    proof fn val_props(&self, x: Q, y: Q) {
    }

    fn eval(&self, x: &Rat) -> (r: Option<Rat>) {
        proof {
            use_type_invariant(self);
        }
        Some(self.c)
    }
}

} // verus!
