//! The cubic extension Fq6 = Fq2[v] / (v^3 - xi), xi = 9 + i, with
//! elements c0 + c1*v + c2*v^2 modelled as triples of Fq2 values.

use vstd::prelude::*;
use crate::arith::{U256, U512};
use crate::fields::{Fq, fq_m};
use crate::fq2::{Fq2, f2_add, f2_sub, f2_neg, f2_mul, f2_conj, f2_zero, f2_one, f2_xi, f2_pow, f2_inv};

verus! {

pub open spec fn f6_zero() -> ((nat, nat), (nat, nat), (nat, nat)) {
    (f2_zero(), f2_zero(), f2_zero())
}

pub open spec fn f6_one() -> ((nat, nat), (nat, nat), (nat, nat)) {
    (f2_one(), f2_zero(), f2_zero())
}

pub open spec fn f6_add(
    a: ((nat, nat), (nat, nat), (nat, nat)),
    b: ((nat, nat), (nat, nat), (nat, nat)),
) -> ((nat, nat), (nat, nat), (nat, nat)) {
    (f2_add(a.0, b.0), f2_add(a.1, b.1), f2_add(a.2, b.2))
}

pub open spec fn f6_sub(
    a: ((nat, nat), (nat, nat), (nat, nat)),
    b: ((nat, nat), (nat, nat), (nat, nat)),
) -> ((nat, nat), (nat, nat), (nat, nat)) {
    (f2_sub(a.0, b.0), f2_sub(a.1, b.1), f2_sub(a.2, b.2))
}

pub open spec fn f6_neg(
    a: ((nat, nat), (nat, nat), (nat, nat)),
) -> ((nat, nat), (nat, nat), (nat, nat)) {
    (f2_neg(a.0), f2_neg(a.1), f2_neg(a.2))
}

/// Polynomial multiplication reduced by v^3 = xi:
/// c0 = a0 b0 + xi (a1 b2 + a2 b1)
/// c1 = a0 b1 + a1 b0 + xi (a2 b2)
/// c2 = a0 b2 + a1 b1 + a2 b0.
pub open spec fn f6_mul(
    a: ((nat, nat), (nat, nat), (nat, nat)),
    b: ((nat, nat), (nat, nat), (nat, nat)),
) -> ((nat, nat), (nat, nat), (nat, nat)) {
    (
        f2_add(f2_mul(a.0, b.0), f2_mul(f2_xi(), f2_add(f2_mul(a.1, b.2), f2_mul(a.2, b.1)))),
        f2_add(f2_add(f2_mul(a.0, b.1), f2_mul(a.1, b.0)), f2_mul(f2_xi(), f2_mul(a.2, b.2))),
        f2_add(f2_add(f2_mul(a.0, b.2), f2_mul(a.1, b.1)), f2_mul(a.2, b.0)),
    )
}

/// Multiplication by v: (a0, a1, a2) becomes (xi a2, a0, a1).
pub open spec fn f6_mul_by_nonresidue(
    a: ((nat, nat), (nat, nat), (nat, nat)),
) -> ((nat, nat), (nat, nat), (nat, nat)) {
    (f2_mul(f2_xi(), a.2), a.0, a.1)
}

/// Multiplication of every coefficient by an Fq2 scalar.
pub open spec fn f6_scale(
    a: ((nat, nat), (nat, nat), (nat, nat)),
    k: (nat, nat),
) -> ((nat, nat), (nat, nat), (nat, nat)) {
    (f2_mul(a.0, k), f2_mul(a.1, k), f2_mul(a.2, k))
}

/// The Frobenius endomorphism x -> x^q: coefficients are conjugated and
/// the v-powers pick up powers of g = xi^((q-1)/3).
pub open spec fn f6_frob1(
    a: ((nat, nat), (nat, nat), (nat, nat)),
) -> ((nat, nat), (nat, nat), (nat, nat)) {
    let g = f2_pow(f2_xi(), (fq_m() - 1) as nat / 3);
    (f2_conj(a.0), f2_mul(f2_conj(a.1), g), f2_mul(f2_conj(a.2), f2_mul(g, g)))
}

/// The inverse candidate by the standard cubic-extension formulas.
pub open spec fn f6_inv(
    a: ((nat, nat), (nat, nat), (nat, nat)),
) -> Option<((nat, nat), (nat, nat), (nat, nat))> {
    let d0 = f2_sub(f2_mul(a.0, a.0), f2_mul(f2_xi(), f2_mul(a.1, a.2)));
    let d1 = f2_sub(f2_mul(f2_xi(), f2_mul(a.2, a.2)), f2_mul(a.0, a.1));
    let d2 = f2_sub(f2_mul(a.1, a.1), f2_mul(a.0, a.2));
    let t = f2_add(
        f2_mul(a.0, d0),
        f2_add(f2_mul(f2_xi(), f2_mul(a.2, d1)), f2_mul(f2_xi(), f2_mul(a.1, d2))),
    );
    match f2_inv(t) {
        None => None,
        Some(ti) => Some((f2_mul(d0, ti), f2_mul(d1, ti), f2_mul(d2, ti))),
    }
}

/// An element of Fq6, the cubic extension of Fq2.
#[derive(Clone, Copy, PartialEq, Eq, Structural, Debug)]
pub struct Fq6 {
    c0: Fq2,
    c1: Fq2,
    c2: Fq2,
}

impl Fq6 {
    /// The triple of coefficient values (c0, c1, c2).
    pub closed spec fn v(self) -> ((nat, nat), (nat, nat), (nat, nat)) {
        (self.c0.v(), self.c1.v(), self.c2.v())
    }

    pub fn new(c0: Fq2, c1: Fq2, c2: Fq2) -> (r: Fq6)
        ensures
            r.v() == (c0.v(), c1.v(), c2.v()),
    {
        Fq6 { c0, c1, c2 }
    }

    pub fn zero() -> (r: Fq6)
        ensures
            r.v() == f6_zero(),
    {
        Fq6 { c0: Fq2::zero(), c1: Fq2::zero(), c2: Fq2::zero() }
    }

    pub fn one() -> (r: Fq6)
        ensures
            r.v() == f6_one(),
    {
        Fq6 { c0: Fq2::one(), c1: Fq2::zero(), c2: Fq2::zero() }
    }

    pub fn is_zero(&self) -> (r: bool)
        ensures
            r == (self.v() == f6_zero()),
    {
        self.c0.is_zero() && self.c1.is_zero() && self.c2.is_zero()
    }

    /// Equality of the represented coefficient triples.
    pub fn eq6(&self, o: &Fq6) -> (r: bool)
        ensures
            r == (self.v() == o.v()),
    {
        self.c0.eq2(&o.c0) && self.c1.eq2(&o.c1) && self.c2.eq2(&o.c2)
    }

    pub fn add(&self, o: &Fq6) -> (r: Fq6)
        ensures
            r.v() == f6_add(self.v(), o.v()),
    {
        Fq6 { c0: self.c0.add(&o.c0), c1: self.c1.add(&o.c1), c2: self.c2.add(&o.c2) }
    }

    pub fn sub(&self, o: &Fq6) -> (r: Fq6)
        ensures
            r.v() == f6_sub(self.v(), o.v()),
    {
        Fq6 { c0: self.c0.sub(&o.c0), c1: self.c1.sub(&o.c1), c2: self.c2.sub(&o.c2) }
    }

    pub fn neg(&self) -> (r: Fq6)
        ensures
            r.v() == f6_neg(self.v()),
    {
        Fq6 { c0: self.c0.neg(), c1: self.c1.neg(), c2: self.c2.neg() }
    }

    pub fn mul(&self, o: &Fq6) -> (r: Fq6)
        ensures
            r.v() == f6_mul(self.v(), o.v()),
    {
        let xi = Fq2::xi();
        let t00 = self.c0.mul(&o.c0);
        let t01 = self.c0.mul(&o.c1);
        let t02 = self.c0.mul(&o.c2);
        let t10 = self.c1.mul(&o.c0);
        let t11 = self.c1.mul(&o.c1);
        let t12 = self.c1.mul(&o.c2);
        let t20 = self.c2.mul(&o.c0);
        let t21 = self.c2.mul(&o.c1);
        let t22 = self.c2.mul(&o.c2);
        let c0 = t00.add(&xi.mul(&t12.add(&t21)));
        let c1 = t01.add(&t10).add(&xi.mul(&t22));
        let c2 = t02.add(&t11).add(&t20);
        Fq6 { c0, c1, c2 }
    }

    /// Multiplication by v, one rotation with a xi twist.
    pub fn mul_by_nonresidue(&self) -> (r: Fq6)
        ensures
            r.v() == f6_mul_by_nonresidue(self.v()),
    {
        let xi = Fq2::xi();
        Fq6 { c0: xi.mul(&self.c2), c1: self.c0, c2: self.c1 }
    }

    /// Multiplication of every coefficient by an Fq2 scalar.
    pub fn scale(&self, k: &Fq2) -> (r: Fq6)
        ensures
            r.v() == f6_scale(self.v(), k.v()),
    {
        Fq6 { c0: self.c0.mul(k), c1: self.c1.mul(k), c2: self.c2.mul(k) }
    }

    /// The Frobenius endomorphism x -> x^q, with its xi-power
    /// coefficients computed on the fly.
    pub fn frobenius_map1(&self) -> (r: Fq6)
        ensures
            r.v() == f6_frob1(self.v()),
    {
        let g = frob_gamma1();
        let g2 = g.mul(&g);
        Fq6 {
            c0: self.c0.conjugate(),
            c1: self.c1.conjugate().mul(&g),
            c2: self.c2.conjugate().mul(&g2),
        }
    }

    /// The multiplicative inverse by the cubic-extension formulas; None
    /// exactly when the Fq2 inverse of the determinant-like term fails.
    pub fn inverse(&self) -> (r: Option<Fq6>)
        ensures
            match r {
                Some(b) => f6_inv(self.v()) == Some(b.v()),
                None => f6_inv(self.v()) is None,
            },
    {
        let xi = Fq2::xi();
        let d0 = self.c0.mul(&self.c0).sub(&xi.mul(&self.c1.mul(&self.c2)));
        let d1 = xi.mul(&self.c2.mul(&self.c2)).sub(&self.c0.mul(&self.c1));
        let d2 = self.c1.mul(&self.c1).sub(&self.c0.mul(&self.c2));
        let t = self.c0.mul(&d0).add(&xi.mul(&self.c2.mul(&d1)).add(&xi.mul(&self.c1.mul(&d2))));
        match t.inverse() {
            None => None,
            Some(ti) => Some(Fq6 { c0: d0.mul(&ti), c1: d1.mul(&ti), c2: d2.mul(&ti) }),
        }
    }
}

/// The Fq2 constant xi^((q-1)/3) of the Frobenius endomorphism,
/// computed by exponentiation.
pub fn frob_gamma1() -> (r: Fq2)
    ensures
        r.v() == f2_pow(f2_xi(), (fq_m() - 1) as nat / 3),
{
    let m = Fq::modulus();
    let one = U256::one();
    let (qm1, brw) = m.sub_borrow(&one);
    proof {
        qm1.lemma_val_bound();
        assert(!brw);
    }
    let three = U256::from_u64(3);
    let wide = U512::from_u256(&qm1);
    let (quo, _) = wide.divrem(&three);
    let e = match quo {
        Some(q) => q,
        None => {
            proof {
                qm1.lemma_val_bound();
                vstd::arithmetic::div_mod::lemma_div_nonincreasing(qm1.val() as int, 3);
                assert(false);
            }
            U256::zero()
        },
    };
    Fq2::xi().pow(e)
}

/// The Fq2 constant xi^((q-1)/6) of the degree-twelve Frobenius
/// endomorphism, computed by exponentiation.
pub fn frob_gamma0() -> (r: Fq2)
    ensures
        r.v() == f2_pow(f2_xi(), (fq_m() - 1) as nat / 6),
{
    let m = Fq::modulus();
    let one = U256::one();
    let (qm1, brw) = m.sub_borrow(&one);
    proof {
        qm1.lemma_val_bound();
        assert(!brw);
    }
    let six = U256::from_u64(6);
    let wide = U512::from_u256(&qm1);
    let (quo, _) = wide.divrem(&six);
    let e = match quo {
        Some(q) => q,
        None => {
            proof {
                qm1.lemma_val_bound();
                vstd::arithmetic::div_mod::lemma_div_nonincreasing(qm1.val() as int, 6);
                assert(false);
            }
            U256::zero()
        },
    };
    Fq2::xi().pow(e)
}

} // verus!
