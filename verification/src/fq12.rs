//! The quadratic extension Fq12 = Fq6[w] / (w^2 - v), with elements
//! c0 + c1*w modelled as pairs of Fq6 triples.

use vstd::prelude::*;
use crate::arith::U256;
use crate::fields::fq_m;
use crate::fq2::{Fq2, f2_pow, f2_xi};
use crate::fq6::{
    Fq6, f6_add, f6_sub, f6_neg, f6_mul, f6_mul_by_nonresidue, f6_scale, f6_frob1, f6_inv,
    f6_zero, f6_one, frob_gamma0,
};

verus! {

pub open spec fn f12_zero() -> (
    ((nat, nat), (nat, nat), (nat, nat)),
    ((nat, nat), (nat, nat), (nat, nat)),
) {
    (f6_zero(), f6_zero())
}

pub open spec fn f12_one() -> (
    ((nat, nat), (nat, nat), (nat, nat)),
    ((nat, nat), (nat, nat), (nat, nat)),
) {
    (f6_one(), f6_zero())
}

pub open spec fn f12_mul(
    a: (((nat, nat), (nat, nat), (nat, nat)), ((nat, nat), (nat, nat), (nat, nat))),
    b: (((nat, nat), (nat, nat), (nat, nat)), ((nat, nat), (nat, nat), (nat, nat))),
) -> (((nat, nat), (nat, nat), (nat, nat)), ((nat, nat), (nat, nat), (nat, nat))) {
    (
        f6_add(f6_mul(a.0, b.0), f6_mul_by_nonresidue(f6_mul(a.1, b.1))),
        f6_add(f6_mul(a.0, b.1), f6_mul(a.1, b.0)),
    )
}

/// Conjugation over the w-tower: c0 - c1*w, the unitary inverse on the
/// cyclotomic subgroup.
pub open spec fn f12_conj(
    a: (((nat, nat), (nat, nat), (nat, nat)), ((nat, nat), (nat, nat), (nat, nat))),
) -> (((nat, nat), (nat, nat), (nat, nat)), ((nat, nat), (nat, nat), (nat, nat))) {
    (a.0, f6_neg(a.1))
}

/// Binary exponentiation, squaring from the high bits down.
pub open spec fn f12_pow(
    a: (((nat, nat), (nat, nat), (nat, nat)), ((nat, nat), (nat, nat), (nat, nat))),
    e: nat,
) -> (((nat, nat), (nat, nat), (nat, nat)), ((nat, nat), (nat, nat), (nat, nat)))
    decreases e,
{
    if e == 0 {
        f12_one()
    } else if e % 2 == 0 {
        let h = f12_pow(a, e / 2);
        f12_mul(h, h)
    } else {
        let h = f12_pow(a, e / 2);
        f12_mul(f12_mul(h, h), a)
    }
}

/// The Frobenius endomorphism x -> x^q: both Fq6 halves through their
/// own Frobenius, the w-half scaled by xi^((q-1)/6).
pub open spec fn f12_frob1(
    a: (((nat, nat), (nat, nat), (nat, nat)), ((nat, nat), (nat, nat), (nat, nat))),
) -> (((nat, nat), (nat, nat), (nat, nat)), ((nat, nat), (nat, nat), (nat, nat))) {
    (f6_frob1(a.0), f6_scale(f6_frob1(a.1), f2_pow(f2_xi(), (fq_m() - 1) as nat / 6)))
}

/// k-fold application of the Frobenius endomorphism.
pub open spec fn f12_frob(
    a: (((nat, nat), (nat, nat), (nat, nat)), ((nat, nat), (nat, nat), (nat, nat))),
    k: nat,
) -> (((nat, nat), (nat, nat), (nat, nat)), ((nat, nat), (nat, nat), (nat, nat)))
    decreases k,
{
    if k == 0 {
        a
    } else {
        f12_frob1(f12_frob(a, (k - 1) as nat))
    }
}

/// The inverse candidate through the Fq6 tower.
pub open spec fn f12_inv(
    a: (((nat, nat), (nat, nat), (nat, nat)), ((nat, nat), (nat, nat), (nat, nat))),
) -> Option<(((nat, nat), (nat, nat), (nat, nat)), ((nat, nat), (nat, nat), (nat, nat)))> {
    let t = f6_sub(f6_mul(a.0, a.0), f6_mul_by_nonresidue(f6_mul(a.1, a.1)));
    match f6_inv(t) {
        None => None,
        Some(ti) => Some((f6_mul(a.0, ti), f6_neg(f6_mul(a.1, ti)))),
    }
}


/// An element of Fq12, the top of the extension tower and the carrier
/// of pairing values.
#[derive(Clone, Copy, PartialEq, Eq, Structural, Debug)]
pub struct Fq12 {
    c0: Fq6,
    c1: Fq6,
}

impl Fq12 {
    /// One square-and-multiply step of binary exponentiation.
    fn pow_step(acc: &Fq12, base: &Fq12, bit: bool, Ghost(h2): Ghost<nat>) -> (r: Fq12)
        requires
            acc.v() == f12_pow(base.v(), h2 / 2),
            bit == (h2 % 2 == 1),
        ensures
            r.v() == f12_pow(base.v(), h2),
    {
        proof {
            if h2 == 0 {
                lemma_f12_one_sq();
            }
        }
        let sq = acc.mul(acc);
        if bit {
            sq.mul(base)
        } else {
            sq
        }
    }

    /// The pair of Fq6 coefficient triples (c0, c1).
    pub closed spec fn v(self) -> (
        ((nat, nat), (nat, nat), (nat, nat)),
        ((nat, nat), (nat, nat), (nat, nat)),
    ) {
        (self.c0.v(), self.c1.v())
    }

    pub fn new(c0: Fq6, c1: Fq6) -> (r: Fq12)
        ensures
            r.v() == (c0.v(), c1.v()),
    {
        Fq12 { c0, c1 }
    }

    pub fn zero() -> (r: Fq12)
        ensures
            r.v() == f12_zero(),
    {
        Fq12 { c0: Fq6::zero(), c1: Fq6::zero() }
    }

    pub fn one() -> (r: Fq12)
        ensures
            r.v() == f12_one(),
    {
        Fq12 { c0: Fq6::one(), c1: Fq6::zero() }
    }

    pub fn is_zero(&self) -> (r: bool)
        ensures
            r == (self.v() == f12_zero()),
    {
        self.c0.is_zero() && self.c1.is_zero()
    }

    /// Equality of the represented coefficient views.
    pub fn eq12(&self, o: &Fq12) -> (r: bool)
        ensures
            r == (self.v() == o.v()),
    {
        self.c0.eq6(&o.c0) && self.c1.eq6(&o.c1)
    }

    pub fn mul(&self, o: &Fq12) -> (r: Fq12)
        ensures
            r.v() == f12_mul(self.v(), o.v()),
    {
        let aa = self.c0.mul(&o.c0);
        let bb = self.c1.mul(&o.c1);
        let c0 = aa.add(&bb.mul_by_nonresidue());
        let c1 = self.c0.mul(&o.c1).add(&self.c1.mul(&o.c0));
        Fq12 { c0, c1 }
    }

    /// Conjugation c0 - c1*w, the unitary inverse.
    pub fn conjugate(&self) -> (r: Fq12)
        ensures
            r.v() == f12_conj(self.v()),
    {
        Fq12 { c0: self.c0, c1: self.c1.neg() }
    }

    /// Exponentiation by a raw 256-bit exponent.
    #[verifier::rlimit(100)]
    pub fn pow_u256(&self, exp: &U256) -> (r: Fq12)
        ensures
            r.v() == f12_pow(self.v(), exp.val()),
    {
        let bits = exp.to_bits();
        let mut acc = Fq12::one();
        proof {
            crate::arith::lemma_pow2_values();
            exp.lemma_val_bound();
            vstd::arithmetic::div_mod::lemma_basic_div(
                exp.val() as int,
                vstd::arithmetic::power2::pow2(256) as int,
            );
        }
        let mut i: usize = 0;
        while i < 256
            invariant
                0 <= i <= 256,
                bits@.len() == 256,
                forall|j: int| 0 <= j < 256 ==> bits@[j] == ((exp.val()
                    / vstd::arithmetic::power2::pow2(j as nat)) % 2 == 1),
                acc.v() == f12_pow(self.v(), exp.val()
                    / vstd::arithmetic::power2::pow2((256 - i) as nat)),
            decreases 256 - i,
        {
            let ghost h: nat = exp.val() / vstd::arithmetic::power2::pow2((256 - i) as nat);
            let ghost h2: nat = exp.val() / vstd::arithmetic::power2::pow2((255 - i) as nat);
            proof {
                crate::arith::lemma_pow2_values();
                vstd::arithmetic::power2::lemma_pow2_adds((255 - i) as nat, 1);
                vstd::arithmetic::power2::lemma_pow2_pos((255 - i) as nat);
                vstd::arithmetic::div_mod::lemma_div_denominator(
                    exp.val() as int,
                    vstd::arithmetic::power2::pow2((255 - i) as nat) as int,
                    2,
                );
                assert(h == h2 / 2);
                vstd::arithmetic::div_mod::lemma_fundamental_div_mod(h2 as int, 2);
            }
            let bit = bits[255 - i];
            acc = Self::pow_step(&acc, self, bit, Ghost(h2));
            i += 1;
        }
        proof {
            crate::arith::lemma_pow2_values();
            vstd::arithmetic::div_mod::lemma_div_basics_2(exp.val() as int);
        }
        acc
    }

    /// Exponentiation by a 64-bit exponent, used by the u-power steps
    /// of the final exponentiation.
    #[verifier::rlimit(100)]
    pub fn pow_u64(&self, exp: u64) -> (r: Fq12)
        ensures
            r.v() == f12_pow(self.v(), exp as nat),
    {
        let mut acc = Fq12::one();
        // the bits of exp, least significant first
        let mut bits: Vec<bool> = Vec::new();
        let mut cur: u64 = exp;
        proof {
            crate::arith::lemma_pow2_values();
        }
        let mut i: usize = 0;
        while i < 64
            invariant
                0 <= i <= 64,
                bits@.len() == i,
                cur == exp as nat / vstd::arithmetic::power2::pow2(i as nat),
                forall|j: int| 0 <= j < i ==> bits@[j] == ((exp as nat
                    / vstd::arithmetic::power2::pow2(j as nat)) % 2 == 1),
            decreases 64 - i,
        {
            bits.push(cur % 2 == 1);
            proof {
                vstd::arithmetic::power2::lemma2_to64();
                vstd::arithmetic::power2::lemma_pow2_adds(i as nat, 1);
                vstd::arithmetic::power2::lemma_pow2_pos(i as nat);
                vstd::arithmetic::div_mod::lemma_div_denominator(
                    exp as int,
                    vstd::arithmetic::power2::pow2(i as nat) as int,
                    2,
                );
            }
            cur = cur / 2;
            i += 1;
        }
        proof {
            vstd::arithmetic::power2::lemma2_to64();
            vstd::arithmetic::power2::lemma_pow2_adds(32, 32);
            assert(exp as nat / vstd::arithmetic::power2::pow2(64) == 0) by {
                assert(vstd::arithmetic::power2::pow2(64) > exp) by (nonlinear_arith)
                    requires vstd::arithmetic::power2::pow2(64) == 0x1_0000_0000_0000_0000nat;
                vstd::arithmetic::div_mod::lemma_basic_div(
                    exp as int,
                    vstd::arithmetic::power2::pow2(64) as int,
                );
            }
        }
        let mut i: usize = 0;
        while i < 64
            invariant
                0 <= i <= 64,
                bits@.len() == 64,
                forall|j: int| 0 <= j < 64 ==> bits@[j] == ((exp as nat
                    / vstd::arithmetic::power2::pow2(j as nat)) % 2 == 1),
                acc.v() == f12_pow(self.v(), exp as nat
                    / vstd::arithmetic::power2::pow2((64 - i) as nat)),
            decreases 64 - i,
        {
            let ghost h: nat = exp as nat / vstd::arithmetic::power2::pow2((64 - i) as nat);
            let ghost h2: nat = exp as nat / vstd::arithmetic::power2::pow2((63 - i) as nat);
            proof {
                vstd::arithmetic::power2::lemma2_to64();
                vstd::arithmetic::power2::lemma_pow2_adds((63 - i) as nat, 1);
                vstd::arithmetic::power2::lemma_pow2_pos((63 - i) as nat);
                vstd::arithmetic::div_mod::lemma_div_denominator(
                    exp as int,
                    vstd::arithmetic::power2::pow2((63 - i) as nat) as int,
                    2,
                );
                assert(h == h2 / 2);
                vstd::arithmetic::div_mod::lemma_fundamental_div_mod(h2 as int, 2);
            }
            let bit = bits[63 - i];
            acc = Self::pow_step(&acc, self, bit, Ghost(h2));
            i += 1;
        }
        proof {
            vstd::arithmetic::power2::lemma2_to64();
            vstd::arithmetic::div_mod::lemma_div_basics_2(exp as int);
        }
        acc
    }

    /// The Frobenius endomorphism applied once.
    pub fn frobenius_map1(&self) -> (r: Fq12)
        ensures
            r.v() == f12_frob1(self.v()),
    {
        let c = frob_gamma0();
        Fq12 { c0: self.c0.frobenius_map1(), c1: self.c1.frobenius_map1().scale(&c) }
    }

    /// The Frobenius endomorphism applied k times.
    pub fn frobenius_map(&self, power: usize) -> (r: Fq12)
        ensures
            r.v() == f12_frob(self.v(), power as nat),
    {
        let mut acc = *self;
        let mut k: usize = 0;
        while k < power
            invariant
                0 <= k <= power,
                acc.v() == f12_frob(self.v(), k as nat),
            decreases power - k,
        {
            acc = acc.frobenius_map1();
            proof {
                lemma_f12_frob_unfold(self.v(), (k + 1) as nat);
            }
            k += 1;
        }
        acc
    }

    /// The multiplicative inverse through the tower; None exactly when
    /// the inner inverse chain fails, in particular for zero.
    pub fn inverse(&self) -> (r: Option<Fq12>)
        ensures
            match r {
                Some(b) => f12_inv(self.v()) == Some(b.v()),
                None => f12_inv(self.v()) is None,
            },
    {
        let t = self.c0.mul(&self.c0).sub(&self.c1.mul(&self.c1).mul_by_nonresidue());
        match t.inverse() {
            None => None,
            Some(ti) => Some(Fq12 { c0: self.c0.mul(&ti), c1: self.c1.mul(&ti).neg() }),
        }
    }
}

proof fn lemma_f12_frob_unfold(
    a: (((nat, nat), (nat, nat), (nat, nat)), ((nat, nat), (nat, nat), (nat, nat))),
    k: nat,
)
    requires
        k >= 1,
    ensures
        f12_frob(a, k) == f12_frob1(f12_frob(a, (k - 1) as nat)),
{
}

/// Squaring the unit of Fq12 gives the unit again, by the component
/// facts pushed down to Fq2 pairs.
proof fn lemma_f12_one_sq()
    ensures
        f12_mul(f12_one(), f12_one()) == f12_one(),
{
    let m = fq_m() as int;
    assert(crate::fields::fp_mul(1, 1, fq_m()) == 1) by {
        assert(1nat * 1nat == 1nat) by (nonlinear_arith);
        vstd::arithmetic::div_mod::lemma_small_mod(1nat, fq_m());
    }
    assert(crate::fields::fp_mul(1, 0, fq_m()) == 0
        && crate::fields::fp_mul(0, 1, fq_m()) == 0
        && crate::fields::fp_mul(0, 0, fq_m()) == 0
        && crate::fields::fp_mul(9, 0, fq_m()) == 0) by {
        assert(1nat * 0nat == 0nat && 0nat * 1nat == 0nat && 0nat * 0nat == 0nat
            && 9nat * 0nat == 0nat) by (nonlinear_arith);
        vstd::arithmetic::div_mod::lemma_small_mod(0nat, fq_m());
    }
    assert(crate::fields::fp_sub(1, 0, fq_m()) == 1 && crate::fields::fp_sub(0, 0, fq_m()) == 0) by {
        vstd::arithmetic::div_mod::lemma_mod_add_multiples_vanish(1, m);
        vstd::arithmetic::div_mod::lemma_small_mod(1nat, fq_m());
        vstd::arithmetic::div_mod::lemma_mod_self_0(m);
    }
    assert(crate::fields::fp_add(0, 0, fq_m()) == 0 && crate::fields::fp_add(1, 0, fq_m()) == 1
        && crate::fields::fp_add(0, 1, fq_m()) == 1) by {
        vstd::arithmetic::div_mod::lemma_small_mod(0nat, fq_m());
        vstd::arithmetic::div_mod::lemma_small_mod(1nat, fq_m());
    }
}

} // verus!
