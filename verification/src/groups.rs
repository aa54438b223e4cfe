//! The groups G1 and G2 of BN254 in Jacobian coordinates, with the
//! affine checked forms and the group law as explicit formulas.

use vstd::prelude::*;
use crate::arith::U256;
use crate::fields::{Fq, Fr, FieldError, fq_m, fp_add, fp_sub, fp_neg, fp_mul, fq_inv, fr_m, fq_decode, fp_sqrt_cand};
use crate::fq2::fq2_decode;
use crate::CurveError;
use crate::fq2::{Fq2, f2_add, f2_sub, f2_neg, f2_mul, f2_zero, f2_one, f2_inv};

verus! {

/// Failures of checked affine construction.
#[derive(Clone, Copy, PartialEq, Eq, Structural, Debug)]
pub enum GroupError {
    NotOnCurve,
    NotInSubgroup,
}


/// Doubling in Fq: a + a mod q.
pub open spec fn fq_dbl(a: nat) -> nat {
    fp_addq(a, a)
}

/// Doubling in Fq2.
pub open spec fn f2_dbl(a: (nat, nat)) -> (nat, nat) {
    f2_add(a, a)
}

pub open spec fn fp_addq(a: nat, b: nat) -> nat {
    fp_add(a, b, fq_m())
}

pub open spec fn fp_subq(a: nat, b: nat) -> nat {
    fp_sub(a, b, fq_m())
}

pub open spec fn fp_mulq(a: nat, b: nat) -> nat {
    fp_mul(a, b, fq_m())
}

pub open spec fn fp_negq(a: nat) -> nat {
    fp_neg(a, fq_m())
}

/// The coefficient of G1: b = 3.
pub open spec fn g1_b() -> nat {
    3
}

/// The coefficient of G2: b' = 3 / (9 + i), as its canonical pair of
/// values.
pub open spec fn g2_b() -> (nat, nat) {
    (
        19485874751759354771024239261021720505790618469301721065564631296452457478373nat,
        266929791119991161246907387137283842545076965332900288569378510910307636690nat,
    )
}

/// The exact Fq2 value of b' = 3/(9+i), fixed by its limbs.
fn g2_b_const() -> (r: Fq2)
    ensures
        r.v() == g2_b(),
{
    let c0 = Fq::from_u256(U256::from_limbs(
        0x3267e6dc24a138e5, 0xb5b4c5e559dbefa3, 0x81be18991be06ac3, 0x2b149d40ceb8aaae,
    )).unwrap();
    let c1 = Fq::from_u256(U256::from_limbs(
        0xe4a2bd0685c315d2, 0xa74fa084e52d1852, 0xcd2cafadeed8fdf4, 0x009713b03af0fed4,
    )).unwrap();
    Fq2::new(c0, c1)
}

// ---------------------------------------------------------------- G1

/// The identity of G1 as a Jacobian triple.
pub open spec fn g1_zero() -> (nat, nat, nat) {
    (0nat, 1nat, 0nat)
}

/// Jacobian doubling by the standard explicit formulas; the identity
/// doubles to the identity.
pub open spec fn g1_dbl(p: (nat, nat, nat)) -> (nat, nat, nat) {
    if p.2 == 0nat {
        g1_zero()
    } else {
        let a = fp_mulq(p.0, p.0);
        let b = fp_mulq(p.1, p.1);
        let c = fp_mulq(b, b);
        let t = fp_addq(p.0, b);
        let d = fq_dbl(fp_subq(fp_subq(fp_mulq(t, t), a), c));
        let e = fp_addq(fp_addq(a, a), a);
        let f = fp_mulq(e, e);
        let x3 = fp_subq(f, fp_addq(d, d));
        let c8 = fq_dbl(fq_dbl(fq_dbl(c)));
        let y3 = fp_subq(fp_mulq(e, fp_subq(d, x3)), c8);
        let z3 = fq_dbl(fp_mulq(p.1, p.2));
        (x3, y3, z3)
    }
}

/// Jacobian addition; equal points fall back to doubling, and an
/// identity operand passes the other through.
pub open spec fn g1_add(p: (nat, nat, nat), q: (nat, nat, nat)) -> (nat, nat, nat) {
    if p.2 == 0nat {
        q
    } else if q.2 == 0nat {
        p
    } else {
        let z1s = fp_mulq(p.2, p.2);
        let z2s = fp_mulq(q.2, q.2);
        let u1 = fp_mulq(p.0, z2s);
        let u2 = fp_mulq(q.0, z1s);
        let s1 = fp_mulq(p.1, fp_mulq(q.2, z2s));
        let s2 = fp_mulq(q.1, fp_mulq(p.2, z1s));
        if u1 == u2 && s1 == s2 {
            g1_dbl(p)
        } else {
            let h = fp_subq(u2, u1);
            let rr = fp_subq(s2, s1);
            let h2 = fp_mulq(h, h);
            let h3 = fp_mulq(h, h2);
            let v = fp_mulq(u1, h2);
            let x3 = fp_subq(fp_subq(fp_mulq(rr, rr), h3), fp_addq(v, v));
            let y3 = fp_subq(fp_mulq(rr, fp_subq(v, x3)), fp_mulq(s1, h3));
            let z3 = fp_mulq(fp_mulq(p.2, q.2), h);
            (x3, y3, z3)
        }
    }
}

/// Negation: the y coordinate flips, the identity stays put.
pub open spec fn g1_neg(p: (nat, nat, nat)) -> (nat, nat, nat) {
    if p.2 == 0nat {
        p
    } else {
        (p.0, fp_negq(p.1), p.2)
    }
}

/// Double-and-add scalar multiplication over the bits of the scalar.
pub open spec fn g1_mul(p: (nat, nat, nat), e: nat) -> (nat, nat, nat)
    decreases e,
{
    if e == 0 {
        g1_zero()
    } else {
        let h = g1_dbl(g1_mul(p, e / 2));
        if e % 2 == 1 {
            g1_add(h, p)
        } else {
            h
        }
    }
}

/// Conversion to affine coordinates through the inverse of z; None for
/// the identity or a failed inverse candidate.
pub open spec fn g1_to_affine(p: (nat, nat, nat)) -> Option<(nat, nat)> {
    if p.2 == 0nat {
        None
    } else {
        match fq_inv(p.2) {
            None => None,
            Some(zi) => {
                let zi2 = fp_mulq(zi, zi);
                Some((fp_mulq(p.0, zi2), fp_mulq(p.1, fp_mulq(zi, zi2))))
            },
        }
    }
}

/// The affine on-curve test y^2 == x^3 + b.
pub open spec fn g1_on_curve(x: nat, y: nat) -> bool {
    fp_mulq(y, y) == fp_addq(fp_mulq(fp_mulq(x, x), x), g1_b())
}

/// A point of G1 in Jacobian coordinates (X, Y, Z), standing for
/// the affine point (X/Z^2, Y/Z^3), or the identity when Z = 0.
#[derive(Clone, Copy, PartialEq, Eq, Structural, Debug)]
pub struct G1 {
    x: Fq,
    y: Fq,
    z: Fq,
}

impl G1 {
    /// The coordinate triple of canonical values.
    pub closed spec fn v(self) -> (nat, nat, nat) {
        (self.x.value(), self.y.value(), self.z.value())
    }

    pub fn new(x: Fq, y: Fq, z: Fq) -> (r: G1)
        ensures
            r.v() == (x.value(), y.value(), z.value()),
    {
        G1 { x, y, z }
    }

    pub fn x(&self) -> (r: Fq)
        ensures
            r.value() == self.v().0,
    {
        self.x
    }

    pub fn set_x(&mut self, x: Fq)
        ensures
            final(self).v() == (x.value(), old(self).v().1, old(self).v().2),
    {
        self.x = x;
    }

    pub fn y(&self) -> (r: Fq)
        ensures
            r.value() == self.v().1,
    {
        self.y
    }

    pub fn set_y(&mut self, y: Fq)
        ensures
            final(self).v() == (old(self).v().0, y.value(), old(self).v().2),
    {
        self.y = y;
    }

    pub fn z(&self) -> (r: Fq)
        ensures
            r.value() == self.v().2,
    {
        self.z
    }

    pub fn set_z(&mut self, z: Fq)
        ensures
            final(self).v() == (old(self).v().0, old(self).v().1, z.value()),
    {
        self.z = z;
    }

    pub fn zero() -> (r: G1)
        ensures
            r.v() == g1_zero(),
    {
        G1 { x: Fq::zero(), y: Fq::one(), z: Fq::zero() }
    }

    /// The generator (1, 2, 1).
    pub fn one() -> (r: G1)
        ensures
            r.v() == (1nat, 2nat, 1nat),
    {
        let two = Fq::from_u256(U256::from_u64(2)).unwrap();
        G1 { x: Fq::one(), y: two, z: Fq::one() }
    }

    pub fn is_zero(&self) -> (r: bool)
        ensures
            r == (self.v().2 == 0nat),
    {
        self.z.is_zero()
    }

    /// Replaces the coordinates by the canonical (x, y, 1) form; the
    /// identity, and any point whose z-inverse candidate fails, is left
    /// as it stands.
    pub fn normalize(&mut self)
        ensures
            match g1_to_affine(old(self).v()) {
                Some(a) => final(self).v() == (a.0, a.1, 1nat),
                None => *final(self) == *old(self),
            },
    {
        match self.to_affine() {
            Some(a) => {
                *self = a.to_jacobian();
            },
            None => {
            },
        }
    }

    /// Doubling by the explicit Jacobian formulas.
    pub fn double(&self) -> (r: G1)
        ensures
            r.v() == g1_dbl(self.v()),
    {
        if self.is_zero() {
            return G1::zero();
        }
        let a = self.x.mul(&self.x);
        let b = self.y.mul(&self.y);
        let c = b.mul(&b);
        let t = self.x.add(&b);
        let d0 = t.mul(&t).sub(&a).sub(&c);
        let d = d0.add(&d0);
        let e = a.add(&a).add(&a);
        let f = e.mul(&e);
        let x3 = f.sub(&d.add(&d));
        let c2 = c.add(&c);
        let c4 = c2.add(&c2);
        let c8 = c4.add(&c4);
        let y3 = e.mul(&d.sub(&x3)).sub(&c8);
        let z3t = self.y.mul(&self.z);
        let z3 = z3t.add(&z3t);
        G1 { x: x3, y: y3, z: z3 }
    }

    /// Jacobian addition.
    pub fn add(&self, o: &G1) -> (r: G1)
        ensures
            r.v() == g1_add(self.v(), o.v()),
    {
        if self.is_zero() {
            return *o;
        }
        if o.is_zero() {
            return *self;
        }
        let z1s = self.z.mul(&self.z);
        let z2s = o.z.mul(&o.z);
        let u1 = self.x.mul(&z2s);
        let u2 = o.x.mul(&z1s);
        let s1 = self.y.mul(&o.z.mul(&z2s));
        let s2 = o.y.mul(&self.z.mul(&z1s));
        if u1.into_u256().eq_val(&u2.into_u256()) && s1.into_u256().eq_val(&s2.into_u256()) {
            return self.double();
        }
        let h = u2.sub(&u1);
        let rr = s2.sub(&s1);
        let h2 = h.mul(&h);
        let h3 = h.mul(&h2);
        let v = u1.mul(&h2);
        let x3 = rr.mul(&rr).sub(&h3).sub(&v.add(&v));
        let y3 = rr.mul(&v.sub(&x3)).sub(&s1.mul(&h3));
        let z3 = self.z.mul(&o.z).mul(&h);
        G1 { x: x3, y: y3, z: z3 }
    }

    pub fn sub(&self, o: &G1) -> (r: G1)
        ensures
            r.v() == g1_add(self.v(), g1_neg(o.v())),
    {
        self.add(&o.neg())
    }

    pub fn neg(&self) -> (r: G1)
        ensures
            r.v() == g1_neg(self.v()),
    {
        if self.is_zero() {
            *self
        } else {
            G1 { x: self.x, y: self.y.neg(), z: self.z }
        }
    }

    /// Scalar multiplication by the canonical value of an Fr element.
    #[verifier::rlimit(100)]
    pub fn mul(&self, scalar: Fr) -> (r: G1)
        ensures
            r.v() == g1_mul(self.v(), scalar.value()),
    {
        let e = scalar.into_u256();
        let bits = e.to_bits();
        let mut acc = G1::zero();
        proof {
            crate::arith::lemma_pow2_values();
            e.lemma_val_bound();
            vstd::arithmetic::div_mod::lemma_basic_div(
                e.val() as int,
                vstd::arithmetic::power2::pow2(256) as int,
            );
        }
        let mut i: usize = 0;
        while i < 256
            invariant
                0 <= i <= 256,
                bits@.len() == 256,
                forall|j: int| 0 <= j < 256 ==> bits@[j] == ((e.val()
                    / vstd::arithmetic::power2::pow2(j as nat)) % 2 == 1),
                acc.v() == g1_mul(self.v(), e.val()
                    / vstd::arithmetic::power2::pow2((256 - i) as nat)),
            decreases 256 - i,
        {
            let ghost h: nat = e.val() / vstd::arithmetic::power2::pow2((256 - i) as nat);
            let ghost h2: nat = e.val() / vstd::arithmetic::power2::pow2((255 - i) as nat);
            proof {
                crate::arith::lemma_pow2_values();
                vstd::arithmetic::power2::lemma_pow2_adds((255 - i) as nat, 1);
                vstd::arithmetic::power2::lemma_pow2_pos((255 - i) as nat);
                vstd::arithmetic::div_mod::lemma_div_denominator(
                    e.val() as int,
                    vstd::arithmetic::power2::pow2((255 - i) as nat) as int,
                    2,
                );
                assert(h == h2 / 2);
                vstd::arithmetic::div_mod::lemma_fundamental_div_mod(h2 as int, 2);
            }
            let bit = bits[255 - i];
            acc = G1::mul_step(&acc, self, bit, Ghost(h2));
            i += 1;
        }
        proof {
            crate::arith::lemma_pow2_values();
            vstd::arithmetic::div_mod::lemma_div_basics_2(e.val() as int);
        }
        acc
    }

    /// One double-and-add step of scalar multiplication.
    fn mul_step(acc: &G1, base: &G1, bit: bool, Ghost(h2): Ghost<nat>) -> (r: G1)
        requires
            acc.v() == g1_mul(base.v(), h2 / 2),
            bit == (h2 % 2 == 1),
        ensures
            r.v() == g1_mul(base.v(), h2),
    {
        let d = acc.double();
        if bit {
            d.add(base)
        } else {
            proof {
                if h2 == 0 {
                    assert(g1_dbl(g1_zero()) == g1_zero());
                }
            }
            d
        }
    }

    /// The curve coefficient b.
    pub fn b() -> (r: Fq)
        ensures
            r.value() == g1_b(),
    {
        Fq::from_u256(U256::from_u64(3)).unwrap()
    }

    /// Conversion to affine coordinates; None for the identity (and for
    /// a z whose inverse candidate fails, which no reachable value has).
    pub fn to_affine(&self) -> (r: Option<AffineG1>)
        ensures
            match r {
                Some(a) => g1_to_affine(self.v()) == Some((a.v().0, a.v().1)),
                None => g1_to_affine(self.v()) is None,
            },
    {
        if self.is_zero() {
            return None;
        }
        match self.z.inverse() {
            None => None,
            Some(zi) => {
                let zi2 = zi.mul(&zi);
                let zi3 = zi.mul(&zi2);
                Some(AffineG1 { x: self.x.mul(&zi2), y: self.y.mul(&zi3) })
            },
        }
    }
}

/// A point of G1 in affine coordinates, on the curve by
/// construction.
#[derive(Clone, Copy, PartialEq, Eq, Structural, Debug)]
pub struct AffineG1 {
    x: Fq,
    y: Fq,
}

impl AffineG1 {
    /// The coordinate pair of canonical values.
    pub closed spec fn v(self) -> (nat, nat) {
        (self.x.value(), self.y.value())
    }

    pub fn x(&self) -> (r: Fq)
        ensures
            r.value() == self.v().0,
    {
        self.x
    }

    pub fn set_x(&mut self, x: Fq)
        ensures
            final(self).v() == (x.value(), old(self).v().1),
    {
        self.x = x;
    }

    pub fn y(&self) -> (r: Fq)
        ensures
            r.value() == self.v().1,
    {
        self.y
    }

    pub fn set_y(&mut self, y: Fq)
        ensures
            final(self).v() == (old(self).v().0, y.value()),
    {
        self.y = y;
    }

    /// The Jacobian form (x, y, 1).
    pub fn to_jacobian(&self) -> (r: G1)
        ensures
            r.v() == (self.v().0, self.v().1, 1nat),
    {
        G1 { x: self.x, y: self.y, z: Fq::one() }
    }

    /// Affine coordinates of a Jacobian point; None for the identity.
    pub fn from_jacobian(g: G1) -> (r: Option<AffineG1>)
        ensures
            match r {
                Some(a) => g1_to_affine(g.v()) == Some((a.v().0, a.v().1)),
                None => g1_to_affine(g.v()) is None,
            },
    {
        g.to_affine()
    }
}

// ---------------------------------------------------------------- G2

/// The identity of G2 as a Jacobian triple.
pub open spec fn g2_zero() -> ((nat, nat), (nat, nat), (nat, nat)) {
    (f2_zero(), f2_one(), f2_zero())
}

/// Jacobian doubling by the standard explicit formulas; the identity
/// doubles to the identity.
pub open spec fn g2_dbl(p: ((nat, nat), (nat, nat), (nat, nat))) -> ((nat, nat), (nat, nat), (nat, nat)) {
    if p.2 == f2_zero() {
        g2_zero()
    } else {
        let a = f2_mul(p.0, p.0);
        let b = f2_mul(p.1, p.1);
        let c = f2_mul(b, b);
        let t = f2_add(p.0, b);
        let d = f2_dbl(f2_sub(f2_sub(f2_mul(t, t), a), c));
        let e = f2_add(f2_add(a, a), a);
        let f = f2_mul(e, e);
        let x3 = f2_sub(f, f2_add(d, d));
        let c8 = f2_dbl(f2_dbl(f2_dbl(c)));
        let y3 = f2_sub(f2_mul(e, f2_sub(d, x3)), c8);
        let z3 = f2_dbl(f2_mul(p.1, p.2));
        (x3, y3, z3)
    }
}

/// Jacobian addition; equal points fall back to doubling, and an
/// identity operand passes the other through.
pub open spec fn g2_add(p: ((nat, nat), (nat, nat), (nat, nat)), q: ((nat, nat), (nat, nat), (nat, nat))) -> ((nat, nat), (nat, nat), (nat, nat)) {
    if p.2 == f2_zero() {
        q
    } else if q.2 == f2_zero() {
        p
    } else {
        let z1s = f2_mul(p.2, p.2);
        let z2s = f2_mul(q.2, q.2);
        let u1 = f2_mul(p.0, z2s);
        let u2 = f2_mul(q.0, z1s);
        let s1 = f2_mul(p.1, f2_mul(q.2, z2s));
        let s2 = f2_mul(q.1, f2_mul(p.2, z1s));
        if u1 == u2 && s1 == s2 {
            g2_dbl(p)
        } else {
            let h = f2_sub(u2, u1);
            let rr = f2_sub(s2, s1);
            let h2 = f2_mul(h, h);
            let h3 = f2_mul(h, h2);
            let v = f2_mul(u1, h2);
            let x3 = f2_sub(f2_sub(f2_mul(rr, rr), h3), f2_add(v, v));
            let y3 = f2_sub(f2_mul(rr, f2_sub(v, x3)), f2_mul(s1, h3));
            let z3 = f2_mul(f2_mul(p.2, q.2), h);
            (x3, y3, z3)
        }
    }
}

/// Negation: the y coordinate flips, the identity stays put.
pub open spec fn g2_neg(p: ((nat, nat), (nat, nat), (nat, nat))) -> ((nat, nat), (nat, nat), (nat, nat)) {
    if p.2 == f2_zero() {
        p
    } else {
        (p.0, f2_neg(p.1), p.2)
    }
}

/// Double-and-add scalar multiplication over the bits of the scalar.
pub open spec fn g2_mul(p: ((nat, nat), (nat, nat), (nat, nat)), e: nat) -> ((nat, nat), (nat, nat), (nat, nat))
    decreases e,
{
    if e == 0 {
        g2_zero()
    } else {
        let h = g2_dbl(g2_mul(p, e / 2));
        if e % 2 == 1 {
            g2_add(h, p)
        } else {
            h
        }
    }
}

/// Conversion to affine coordinates through the inverse of z; None for
/// the identity or a failed inverse candidate.
pub open spec fn g2_to_affine(p: ((nat, nat), (nat, nat), (nat, nat))) -> Option<((nat, nat), (nat, nat))> {
    if p.2 == f2_zero() {
        None
    } else {
        match f2_inv(p.2) {
            None => None,
            Some(zi) => {
                let zi2 = f2_mul(zi, zi);
                Some((f2_mul(p.0, zi2), f2_mul(p.1, f2_mul(zi, zi2))))
            },
        }
    }
}

/// The affine on-curve test y^2 == x^3 + b.
pub open spec fn g2_on_curve(x: (nat, nat), y: (nat, nat)) -> bool {
    f2_mul(y, y) == f2_add(f2_mul(f2_mul(x, x), x), g2_b())
}

/// A point of G2 in Jacobian coordinates (X, Y, Z), standing for
/// the affine point (X/Z^2, Y/Z^3), or the identity when Z = 0.
#[derive(Clone, Copy, PartialEq, Eq, Structural, Debug)]
pub struct G2 {
    x: Fq2,
    y: Fq2,
    z: Fq2,
}

impl G2 {
    /// The coordinate triple of canonical values.
    pub closed spec fn v(self) -> ((nat, nat), (nat, nat), (nat, nat)) {
        (self.x.v(), self.y.v(), self.z.v())
    }

    pub fn new(x: Fq2, y: Fq2, z: Fq2) -> (r: G2)
        ensures
            r.v() == (x.v(), y.v(), z.v()),
    {
        G2 { x, y, z }
    }

    pub fn x(&self) -> (r: Fq2)
        ensures
            r.v() == self.v().0,
    {
        self.x
    }

    pub fn set_x(&mut self, x: Fq2)
        ensures
            final(self).v() == (x.v(), old(self).v().1, old(self).v().2),
    {
        self.x = x;
    }

    pub fn y(&self) -> (r: Fq2)
        ensures
            r.v() == self.v().1,
    {
        self.y
    }

    pub fn set_y(&mut self, y: Fq2)
        ensures
            final(self).v() == (old(self).v().0, y.v(), old(self).v().2),
    {
        self.y = y;
    }

    pub fn z(&self) -> (r: Fq2)
        ensures
            r.v() == self.v().2,
    {
        self.z
    }

    pub fn set_z(&mut self, z: Fq2)
        ensures
            final(self).v() == (old(self).v().0, old(self).v().1, z.v()),
    {
        self.z = z;
    }

    pub fn zero() -> (r: G2)
        ensures
            r.v() == g2_zero(),
    {
        G2 { x: Fq2::zero(), y: Fq2::one(), z: Fq2::zero() }
    }

    /// The canonical generator of the order-r subgroup.
    pub fn one() -> (r: G2)
        ensures
            r.v() == (g2_gen_x(), g2_gen_y(), f2_one()),
    {
        let x = Fq2::new(
            Fq::from_u256(U256::from_limbs(
                0x46debd5cd992f6ed, 0x674322d4f75edadd, 0x426a00665e5c4479, 0x1800deef121f1e76,
            )).unwrap(),
            Fq::from_u256(U256::from_limbs(
                0x97e485b7aef312c2, 0xf1aa493335a9e712, 0x7260bfb731fb5d25, 0x198e9393920d483a,
            )).unwrap(),
        );
        let y = Fq2::new(
            Fq::from_u256(U256::from_limbs(
                0x4ce6cc0166fa7daa, 0xe3d1e7690c43d37b, 0x4aab71808dcb408f, 0x12c85ea5db8c6deb,
            )).unwrap(),
            Fq::from_u256(U256::from_limbs(
                0x55acdadcd122975b, 0xbc4b313370b38ef3, 0xec9e99ad690c3395, 0x090689d0585ff075,
            )).unwrap(),
        );
        G2 { x, y, z: Fq2::one() }
    }

    pub fn is_zero(&self) -> (r: bool)
        ensures
            r == (self.v().2 == f2_zero()),
    {
        self.z.is_zero()
    }

    /// Replaces the coordinates by the canonical (x, y, 1) form; the
    /// identity, and any point whose z-inverse candidate fails, is left
    /// as it stands.
    pub fn normalize(&mut self)
        ensures
            match g2_to_affine(old(self).v()) {
                Some(a) => final(self).v() == (a.0, a.1, f2_one()),
                None => *final(self) == *old(self),
            },
    {
        match self.to_affine() {
            Some(a) => {
                *self = a.to_jacobian();
            },
            None => {
            },
        }
    }

    /// Doubling by the explicit Jacobian formulas.
    pub fn double(&self) -> (r: G2)
        ensures
            r.v() == g2_dbl(self.v()),
    {
        if self.is_zero() {
            return G2::zero();
        }
        let a = self.x.mul(&self.x);
        let b = self.y.mul(&self.y);
        let c = b.mul(&b);
        let t = self.x.add(&b);
        let d0 = t.mul(&t).sub(&a).sub(&c);
        let d = d0.add(&d0);
        let e = a.add(&a).add(&a);
        let f = e.mul(&e);
        let x3 = f.sub(&d.add(&d));
        let c2 = c.add(&c);
        let c4 = c2.add(&c2);
        let c8 = c4.add(&c4);
        let y3 = e.mul(&d.sub(&x3)).sub(&c8);
        let z3t = self.y.mul(&self.z);
        let z3 = z3t.add(&z3t);
        G2 { x: x3, y: y3, z: z3 }
    }

    /// Jacobian addition.
    pub fn add(&self, o: &G2) -> (r: G2)
        ensures
            r.v() == g2_add(self.v(), o.v()),
    {
        if self.is_zero() {
            return *o;
        }
        if o.is_zero() {
            return *self;
        }
        let z1s = self.z.mul(&self.z);
        let z2s = o.z.mul(&o.z);
        let u1 = self.x.mul(&z2s);
        let u2 = o.x.mul(&z1s);
        let s1 = self.y.mul(&o.z.mul(&z2s));
        let s2 = o.y.mul(&self.z.mul(&z1s));
        if u1.eq2(&u2) && s1.eq2(&s2) {
            return self.double();
        }
        let h = u2.sub(&u1);
        let rr = s2.sub(&s1);
        let h2 = h.mul(&h);
        let h3 = h.mul(&h2);
        let v = u1.mul(&h2);
        let x3 = rr.mul(&rr).sub(&h3).sub(&v.add(&v));
        let y3 = rr.mul(&v.sub(&x3)).sub(&s1.mul(&h3));
        let z3 = self.z.mul(&o.z).mul(&h);
        G2 { x: x3, y: y3, z: z3 }
    }

    pub fn sub(&self, o: &G2) -> (r: G2)
        ensures
            r.v() == g2_add(self.v(), g2_neg(o.v())),
    {
        self.add(&o.neg())
    }

    pub fn neg(&self) -> (r: G2)
        ensures
            r.v() == g2_neg(self.v()),
    {
        if self.is_zero() {
            *self
        } else {
            G2 { x: self.x, y: self.y.neg(), z: self.z }
        }
    }

    /// Scalar multiplication by the canonical value of an Fr element.
    #[verifier::rlimit(100)]
    pub fn mul(&self, scalar: Fr) -> (r: G2)
        ensures
            r.v() == g2_mul(self.v(), scalar.value()),
    {
        let e = scalar.into_u256();
        let bits = e.to_bits();
        let mut acc = G2::zero();
        proof {
            crate::arith::lemma_pow2_values();
            e.lemma_val_bound();
            vstd::arithmetic::div_mod::lemma_basic_div(
                e.val() as int,
                vstd::arithmetic::power2::pow2(256) as int,
            );
        }
        let mut i: usize = 0;
        while i < 256
            invariant
                0 <= i <= 256,
                bits@.len() == 256,
                forall|j: int| 0 <= j < 256 ==> bits@[j] == ((e.val()
                    / vstd::arithmetic::power2::pow2(j as nat)) % 2 == 1),
                acc.v() == g2_mul(self.v(), e.val()
                    / vstd::arithmetic::power2::pow2((256 - i) as nat)),
            decreases 256 - i,
        {
            let ghost h: nat = e.val() / vstd::arithmetic::power2::pow2((256 - i) as nat);
            let ghost h2: nat = e.val() / vstd::arithmetic::power2::pow2((255 - i) as nat);
            proof {
                crate::arith::lemma_pow2_values();
                vstd::arithmetic::power2::lemma_pow2_adds((255 - i) as nat, 1);
                vstd::arithmetic::power2::lemma_pow2_pos((255 - i) as nat);
                vstd::arithmetic::div_mod::lemma_div_denominator(
                    e.val() as int,
                    vstd::arithmetic::power2::pow2((255 - i) as nat) as int,
                    2,
                );
                assert(h == h2 / 2);
                vstd::arithmetic::div_mod::lemma_fundamental_div_mod(h2 as int, 2);
            }
            let bit = bits[255 - i];
            acc = G2::mul_step(&acc, self, bit, Ghost(h2));
            i += 1;
        }
        proof {
            crate::arith::lemma_pow2_values();
            vstd::arithmetic::div_mod::lemma_div_basics_2(e.val() as int);
        }
        acc
    }

    /// One double-and-add step of scalar multiplication.
    fn mul_step(acc: &G2, base: &G2, bit: bool, Ghost(h2): Ghost<nat>) -> (r: G2)
        requires
            acc.v() == g2_mul(base.v(), h2 / 2),
            bit == (h2 % 2 == 1),
        ensures
            r.v() == g2_mul(base.v(), h2),
    {
        let d = acc.double();
        if bit {
            d.add(base)
        } else {
            proof {
                if h2 == 0 {
                    assert(g2_dbl(g2_zero()) == g2_zero());
                }
            }
            d
        }
    }

    /// The curve coefficient b.
    pub fn b() -> (r: Fq2)
        ensures
            r.v() == g2_b(),
    {
        g2_b_const()
    }

    /// Conversion to affine coordinates; None for the identity (and for
    /// a z whose inverse candidate fails, which no reachable value has).
    pub fn to_affine(&self) -> (r: Option<AffineG2>)
        ensures
            match r {
                Some(a) => g2_to_affine(self.v()) == Some((a.v().0, a.v().1)),
                None => g2_to_affine(self.v()) is None,
            },
    {
        if self.is_zero() {
            return None;
        }
        match self.z.inverse() {
            None => None,
            Some(zi) => {
                let zi2 = zi.mul(&zi);
                let zi3 = zi.mul(&zi2);
                Some(AffineG2 { x: self.x.mul(&zi2), y: self.y.mul(&zi3) })
            },
        }
    }
}

/// A point of G2 in affine coordinates, on the curve by
/// construction.
#[derive(Clone, Copy, PartialEq, Eq, Structural, Debug)]
pub struct AffineG2 {
    x: Fq2,
    y: Fq2,
}

impl AffineG2 {
    /// The coordinate pair of canonical values.
    pub closed spec fn v(self) -> ((nat, nat), (nat, nat)) {
        (self.x.v(), self.y.v())
    }

    pub fn x(&self) -> (r: Fq2)
        ensures
            r.v() == self.v().0,
    {
        self.x
    }

    pub fn set_x(&mut self, x: Fq2)
        ensures
            final(self).v() == (x.v(), old(self).v().1),
    {
        self.x = x;
    }

    pub fn y(&self) -> (r: Fq2)
        ensures
            r.v() == self.v().1,
    {
        self.y
    }

    pub fn set_y(&mut self, y: Fq2)
        ensures
            final(self).v() == (old(self).v().0, y.v()),
    {
        self.y = y;
    }

    /// The Jacobian form (x, y, 1).
    pub fn to_jacobian(&self) -> (r: G2)
        ensures
            r.v() == (self.v().0, self.v().1, f2_one()),
    {
        G2 { x: self.x, y: self.y, z: Fq2::one() }
    }

    /// Affine coordinates of a Jacobian point; None for the identity.
    pub fn from_jacobian(g: G2) -> (r: Option<AffineG2>)
        ensures
            match r {
                Some(a) => g2_to_affine(g.v()) == Some((a.v().0, a.v().1)),
                None => g2_to_affine(g.v()) is None,
            },
    {
        g.to_affine()
    }
}

/// The x coordinate of the canonical G2 generator.
pub open spec fn g2_gen_x() -> (nat, nat) {
    (
        10857046999023057135944570762232829481370756359578518086990519993285655852781nat,
        11559732032986387107991004021392285783925812861821192530917403151452391805634nat,
    )
}

/// The y coordinate of the canonical G2 generator.
pub open spec fn g2_gen_y() -> (nat, nat) {
    (
        8495653923123431417604973247489272438418190587263600148770280649306958101930nat,
        4082367875863433681332203403145435568316851327593401208105741076214120093531nat,
    )
}

/// The subgroup test: r times the point is the identity, phrased as
/// (r - 1) P + P having a vanishing z.
#[verifier::opaque]
pub open spec fn g2_in_subgroup(x: (nat, nat), y: (nat, nat)) -> bool {
    g2_add(g2_mul((x, y, f2_one()), (fr_m() - 1) as nat), (x, y, f2_one())).2 == f2_zero()
}

impl AffineG1 {
    /// The checked constructor: the pair must satisfy y^2 = x^3 + 3.
    pub fn new(x: Fq, y: Fq) -> (r: Result<AffineG1, GroupError>)
        ensures
            match r {
                Ok(a) => g1_on_curve(x.value(), y.value()) && a.v() == (x.value(), y.value()),
                Err(e) => !g1_on_curve(x.value(), y.value()) && e == GroupError::NotOnCurve,
            },
    {
        let lhs = y.mul(&y);
        let rhs = x.mul(&x).mul(&x).add(&G1::b());
        if lhs.into_u256().eq_val(&rhs.into_u256()) {
            Ok(AffineG1 { x, y })
        } else {
            Err(GroupError::NotOnCurve)
        }
    }
}

impl AffineG2 {
    /// The checked constructor: the pair must satisfy the twisted curve
    /// equation and lie in the order-r subgroup.
    pub fn new(x: Fq2, y: Fq2) -> (r: Result<AffineG2, GroupError>)
        ensures
            match r {
                Ok(a) => g2_on_curve(x.v(), y.v()) && g2_in_subgroup(x.v(), y.v())
                    && a.v() == (x.v(), y.v()),
                Err(e) => (e == GroupError::NotOnCurve && !g2_on_curve(x.v(), y.v()))
                    || (e == GroupError::NotInSubgroup && g2_on_curve(x.v(), y.v())
                        && !g2_in_subgroup(x.v(), y.v())),
            },
    {
        let lhs = y.mul(&y);
        let rhs = x.mul(&x).mul(&x).add(&G2::b());
        if !lhs.eq2(&rhs) {
            return Err(GroupError::NotOnCurve);
        }
        let p = AffineG2 { x, y }.to_jacobian();
        let rm1 = Fr::zero().sub(&Fr::one());
        proof {
            reveal(g2_in_subgroup);
            vstd::arithmetic::div_mod::lemma_small_mod((fr_m() - 1) as nat, fr_m());
        }
        let t = p.mul(rm1).add(&p);
        if t.is_zero() {
            Ok(AffineG2 { x, y })
        } else {
            Err(GroupError::NotInSubgroup)
        }
    }
}

/// The common face of the two curve groups.
pub trait Group: Sized {
    fn zero() -> Self;

    fn one() -> Self;

    fn is_zero(&self) -> bool;

    fn normalize(&mut self);
}

impl Group for G1 {
    fn zero() -> Self {
        G1::zero()
    }

    fn one() -> Self {
        G1::one()
    }

    fn is_zero(&self) -> bool {
        G1::is_zero(self)
    }

    fn normalize(&mut self) {
        G1::normalize(self);
    }
}

impl Group for G2 {
    fn zero() -> Self {
        G2::zero()
    }

    fn one() -> Self {
        G2::one()
    }

    fn is_zero(&self) -> bool {
        G2::is_zero(self)
    }

    fn normalize(&mut self) {
        G2::normalize(self);
    }
}

/// The decoding of a 33-byte compressed G1 point: a tag byte 2 or 3
/// selecting the parity of y, then the x coordinate; an unknown tag is
/// refused before any square root is attempted.
pub open spec fn g1_decode_compressed(s: Seq<u8>) -> Result<(nat, nat), CurveError> {
    if s.len() != 33 {
        Err(CurveError::InvalidEncoding)
    } else {
        match fq_decode(s.subrange(1, 33)) {
            None => Err(CurveError::Field(FieldError::NotMember)),
            Some(x) => {
                if s[0] != 2 && s[0] != 3 {
                    Err(CurveError::InvalidEncoding)
                } else {
                    let ysq = fp_addq(fp_mulq(fp_mulq(x, x), x), g1_b());
                    let cand = fp_sqrt_cand(ysq, fq_m());
                    if fp_mulq(cand, cand) != ysq {
                        Err(CurveError::NotMember)
                    } else {
                        let y = if (s[0] == 2 && cand % 2 == 1) || (s[0] == 3 && cand % 2 == 0) {
                            fp_negq(cand)
                        } else {
                            cand
                        };
                        if g1_on_curve(x, y) {
                            Ok((x, y))
                        } else {
                            Err(CurveError::NotMember)
                        }
                    }
                }
            },
        }
    }
}

impl G1 {
    /// Decodes a 33-byte compressed point: tag 0x02 selects the even y,
    /// tag 0x03 the odd one.
    pub fn from_compressed(bytes: &[u8]) -> (r: Result<G1, CurveError>)
        ensures
            match r {
                Ok(g) => g1_decode_compressed(bytes@) == Ok::<(nat, nat), CurveError>((g.v().0, g.v().1))
                    && g.v().2 == 1nat,
                Err(e) => g1_decode_compressed(bytes@) == Err::<(nat, nat), CurveError>(e),
            },
    {
        if bytes.len() != 33 {
            return Err(CurveError::InvalidEncoding);
        }
        let sign = bytes[0];
        let mut xb: Vec<u8> = Vec::new();
        let mut i: usize = 1;
        while i < 33
            invariant
                1 <= i <= 33,
                bytes@.len() == 33,
                xb@.len() == i - 1,
                xb@ == bytes@.subrange(1, i as int),
            decreases 33 - i,
        {
            let b = bytes[i];
            xb.push(b);
            proof {
                assert(xb@ == bytes@.subrange(1, (i + 1) as int));
            }
            i += 1;
        }
        let x = match Fq::from_slice(xb.as_slice()) {
            Err(_) => {
                return Err(CurveError::Field(FieldError::NotMember));
            },
            Ok(v) => v,
        };
        if sign != 2 && sign != 3 {
            return Err(CurveError::InvalidEncoding);
        }
        let ysq = x.mul(&x).mul(&x).add(&G1::b());
        let y0 = match ysq.sqrt() {
            None => {
                return Err(CurveError::NotMember);
            },
            Some(v) => v,
        };
        let odd = y0.into_u256().is_odd();
        let y = if (sign == 2 && odd) || (sign == 3 && !odd) {
            y0.neg()
        } else {
            y0
        };
        match AffineG1::new(x, y) {
            Ok(a) => Ok(a.to_jacobian()),
            Err(_) => Err(CurveError::NotMember),
        }
    }
}

/// The 512-bit comparison key of an Fq2 value: imaginary * q + real.
pub open spec fn f2_key(v: (nat, nat)) -> nat {
    v.1 * fq_m() + v.0
}


/// The decoding of a 65-byte compressed G2 point: a tag byte 0x0A or
/// 0x0B, then the 64-byte x coordinate; an unknown tag is refused
/// before any square root is attempted, 0x0A selects the y whose
/// 512-bit key is the smaller, 0x0B the larger, and the point must
/// pass the curve and subgroup checks.
pub open spec fn g2_decode_compressed(s: Seq<u8>) -> Result<((nat, nat), (nat, nat)), CurveError> {
    if s.len() != 65 {
        Err(CurveError::InvalidEncoding)
    } else {
        match fq2_decode(s.subrange(1, 65)) {
            None => Err(CurveError::Field(FieldError::NotMember)),
            Some(x) => g2_finish_compressed_spec(x, s[0]),
        }
    }
}

/// The tail of compressed G2 decoding once x is read: tag check, root
/// of x^3 + b', key-ordered selection, curve and subgroup checks.
pub open spec fn g2_finish_compressed_spec(x: (nat, nat), sign: u8) -> Result<((nat, nat), (nat, nat)), CurveError> {
    if sign != 10 && sign != 11 {
        Err(CurveError::InvalidEncoding)
    } else {
        let ysq = f2_add(f2_mul(f2_mul(x, x), x), g2_b());
        match crate::fq2::f2_sqrt(ysq) {
            None => Err(CurveError::NotMember),
            Some(y) => {
                let yn = f2_neg(y);
                let ey = if sign == 10 {
                    if f2_key(y) > f2_key(yn) { yn } else { y }
                } else {
                    if f2_key(y) > f2_key(yn) { y } else { yn }
                };
                if g2_on_curve(x, ey) && g2_in_subgroup(x, ey) {
                    Ok((x, ey))
                } else {
                    Err(CurveError::NotMember)
                }
            },
        }
    }
}

impl G2 {
    /// Decodes a 65-byte compressed point; see `g2_decode_compressed`.
    pub fn from_compressed(bytes: &[u8]) -> (r: Result<G2, CurveError>)
        ensures
            match r {
                Ok(g) => g2_decode_compressed(bytes@)
                    == Ok::<((nat, nat), (nat, nat)), CurveError>((g.v().0, g.v().1))
                    && g.v().2 == f2_one(),
                Err(e) => g2_decode_compressed(bytes@)
                    == Err::<((nat, nat), (nat, nat)), CurveError>(e),
            },
    {
        if bytes.len() != 65 {
            return Err(CurveError::InvalidEncoding);
        }
        let sign = bytes[0];
        let mut xb: Vec<u8> = Vec::new();
        let mut i: usize = 1;
        while i < 65
            invariant
                1 <= i <= 65,
                bytes@.len() == 65,
                xb@.len() == i - 1,
                xb@ == bytes@.subrange(1, i as int),
            decreases 65 - i,
        {
            let b = bytes[i];
            xb.push(b);
            proof {
                assert(xb@ == bytes@.subrange(1, (i + 1) as int));
            }
            i += 1;
        }
        let x = match crate::fq2::Fq2::from_slice(xb.as_slice()) {
            Err(_) => {
                return Err(CurveError::Field(FieldError::NotMember));
            },
            Ok(v) => v,
        };
        G2::finish_compressed(x, sign)
    }

    /// Selects and checks the y coordinate of a compressed point from
    /// its tag byte.
    #[verifier::rlimit(100)]
    fn finish_compressed(x: Fq2, sign: u8) -> (r: Result<G2, CurveError>)
        ensures
            match r {
                Ok(g) => g2_finish_compressed_spec(x.v(), sign)
                    == Ok::<((nat, nat), (nat, nat)), CurveError>((g.v().0, g.v().1))
                    && g.v().2 == f2_one(),
                Err(e) => g2_finish_compressed_spec(x.v(), sign)
                    == Err::<((nat, nat), (nat, nat)), CurveError>(e),
            },
    {
        if sign != 10 && sign != 11 {
            return Err(CurveError::InvalidEncoding);
        }
        let ysq = x.mul(&x).mul(&x).add(&G2::b());
        let y = match ysq.sqrt() {
            None => {
                return Err(CurveError::NotMember);
            },
            Some(v) => v,
        };
        let y_neg = y.neg();
        let y_gt = f2_key_gt(&y, &y_neg);
        let e_y = if sign == 10 {
            if y_gt { y_neg } else { y }
        } else {
            if y_gt { y } else { y_neg }
        };
        match AffineG2::new(x, e_y) {
            Ok(a) => Ok(a.to_jacobian()),
            Err(_) => Err(CurveError::NotMember),
        }
    }
}

/// Compares the 512-bit keys of two Fq2 values lexicographically.
fn f2_key_gt(a: &Fq2, b: &Fq2) -> (r: bool)
    ensures
        r == (f2_key(a.v()) > f2_key(b.v())),
{
    let ai = a.imaginary().into_u256();
    let bi = b.imaginary().into_u256();
    let arf = a.real_part();
    let brf = b.real_part();
    let ar = arf.into_u256();
    let br = brf.into_u256();
    proof {
        use_type_invariant(arf);
        use_type_invariant(brf);
        lemma_f2_key_lex(a.v(), b.v());
    }
    if bi.lt(&ai) {
        true
    } else if ai.lt(&bi) {
        false
    } else {
        br.lt(&ar)
    }
}

/// The 512-bit key order agrees with the lexicographic order on
/// (imaginary, real) because the real parts are below q.
proof fn lemma_f2_key_lex(a: (nat, nat), b: (nat, nat))
    requires
        a.0 < fq_m(),
        b.0 < fq_m(),
    ensures
        (f2_key(a) > f2_key(b)) == (a.1 > b.1 || (a.1 == b.1 && a.0 > b.0)),
{
    if a.1 > b.1 {
        assert(a.1 * fq_m() >= (b.1 + 1) * fq_m()) by (nonlinear_arith)
            requires a.1 >= b.1 + 1;
        assert((b.1 + 1) * fq_m() == b.1 * fq_m() + fq_m()) by (nonlinear_arith);
    } else if a.1 < b.1 {
        assert(b.1 * fq_m() >= (a.1 + 1) * fq_m()) by (nonlinear_arith)
            requires b.1 >= a.1 + 1;
        assert((a.1 + 1) * fq_m() == a.1 * fq_m() + fq_m()) by (nonlinear_arith);
    }
}

} // verus!
