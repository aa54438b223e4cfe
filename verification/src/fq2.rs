//! The quadratic extension Fq2 = Fq[i] / (i^2 + 1), with elements
//! c0 + c1*i modelled as pairs of canonical base-field values.

use vstd::prelude::*;
use crate::arith::{U256, U512, be64_val};
use crate::fields::{Fq, FieldError, fq_m, fp_add, fp_sub, fp_neg, fp_mul, fp_inv_cand, fp_sqrt_cand, fq_inv};

verus! {

/// Pairwise addition: (a0 + b0, a1 + b1).
pub open spec fn f2_add(a: (nat, nat), b: (nat, nat)) -> (nat, nat) {
    (fp_add(a.0, b.0, fq_m()), fp_add(a.1, b.1, fq_m()))
}

/// Pairwise subtraction.
pub open spec fn f2_sub(a: (nat, nat), b: (nat, nat)) -> (nat, nat) {
    (fp_sub(a.0, b.0, fq_m()), fp_sub(a.1, b.1, fq_m()))
}

/// Pairwise negation.
pub open spec fn f2_neg(a: (nat, nat)) -> (nat, nat) {
    (fp_neg(a.0, fq_m()), fp_neg(a.1, fq_m()))
}

/// Complex multiplication over i^2 = -1:
/// (a0 b0 - a1 b1, a0 b1 + a1 b0).
pub open spec fn f2_mul(a: (nat, nat), b: (nat, nat)) -> (nat, nat) {
    (
        fp_sub(fp_mul(a.0, b.0, fq_m()), fp_mul(a.1, b.1, fq_m()), fq_m()),
        fp_add(fp_mul(a.0, b.1, fq_m()), fp_mul(a.1, b.0, fq_m()), fq_m()),
    )
}

/// Conjugation: c0 - c1*i, the Frobenius endomorphism of Fq2.
pub open spec fn f2_conj(a: (nat, nat)) -> (nat, nat) {
    (a.0, fp_neg(a.1, fq_m()))
}

pub open spec fn f2_zero() -> (nat, nat) {
    (0, 0)
}

pub open spec fn f2_one() -> (nat, nat) {
    (1, 0)
}

/// The non-residue xi = 9 + i used by the cubic extension on top of Fq2.
pub open spec fn f2_xi() -> (nat, nat) {
    (9, 1)
}

/// Binary exponentiation: square from the high bits down, multiplying
/// where a bit is set.
pub open spec fn f2_pow(a: (nat, nat), e: nat) -> (nat, nat)
    decreases e,
{
    if e == 0 {
        f2_one()
    } else if e % 2 == 0 {
        let h = f2_pow(a, e / 2);
        f2_mul(h, h)
    } else {
        let h = f2_pow(a, e / 2);
        f2_mul(f2_mul(h, h), a)
    }
}

/// The inverse candidate through the norm: None when the norm is zero
/// or its Fermat inverse candidate fails validation.
pub open spec fn f2_inv(a: (nat, nat)) -> Option<(nat, nat)> {
    let n = fp_add(fp_mul(a.0, a.0, fq_m()), fp_mul(a.1, a.1, fq_m()), fq_m());
    if n != 0 && fp_mul(n, fp_inv_cand(n, fq_m()), fq_m()) == 1 {
        Some((
            fp_mul(a.0, fp_inv_cand(n, fq_m()), fq_m()),
            fp_mul(fp_neg(a.1, fq_m()), fp_inv_cand(n, fq_m()), fq_m()),
        ))
    } else {
        None
    }
}

/// Decoding of a 64-byte big-endian value v as the pair
/// (v mod q, v div q); refused when the quotient is not itself a
/// reduced base-field element.
pub open spec fn fq2_decode(s: Seq<u8>) -> Option<(nat, nat)> {
    if s.len() == 64 {
        if be64_val(s) / fq_m() < fq_m() {
            Some((be64_val(s) % fq_m(), be64_val(s) / fq_m()))
        } else {
            None
        }
    } else {
        None
    }
}


/// One branch of the complex square-root method: from a candidate
/// real-part square t, derive the root and validate it by squaring.
pub open spec fn f2_sqrt_from(a: (nat, nat), t: nat) -> Option<(nat, nat)> {
    let a0 = fp_sqrt_cand(t, fq_m());
    if fp_mul(a0, a0, fq_m()) != t {
        None
    } else {
        let d = fp_add(a0, a0, fq_m());
        match fq_inv(d) {
            None => None,
            Some(di) => {
                let cand = (a0, fp_mul(a.1, di, fq_m()));
                if f2_mul(cand, cand) == a {
                    Some(cand)
                } else {
                    None
                }
            },
        }
    }
}

/// The complex square-root method over the Fq square root: the norm
/// is rooted, both half-sums are tried as the square of the real
/// part, and a purely imaginary root is tried for real inputs; every
/// candidate is validated by squaring, so None means every candidate
/// the method derives fails its check.
pub open spec fn f2_sqrt(a: (nat, nat)) -> Option<(nat, nat)> {
    if a == f2_zero() {
        Some(f2_zero())
    } else {
        let n = fp_add(fp_mul(a.0, a.0, fq_m()), fp_mul(a.1, a.1, fq_m()), fq_m());
        let sn = fp_sqrt_cand(n, fq_m());
        if fp_mul(sn, sn, fq_m()) != n {
            None
        } else {
            let inv2 = (fq_m() + 1) as nat / 2;
            let t1 = fp_mul(fp_add(a.0, sn, fq_m()), inv2, fq_m());
            let t2 = fp_mul(fp_sub(a.0, sn, fq_m()), inv2, fq_m());
            match f2_sqrt_from(a, t1) {
                Some(c) => Some(c),
                None => match f2_sqrt_from(a, t2) {
                    Some(c) => Some(c),
                    None => {
                        if a.1 == 0 {
                            let ti = fp_sqrt_cand(fp_neg(a.0, fq_m()), fq_m());
                            if fp_mul(ti, ti, fq_m()) != fp_neg(a.0, fq_m()) {
                                None
                            } else {
                                let cand = (0nat, ti);
                                if f2_mul(cand, cand) == a {
                                    Some(cand)
                                } else {
                                    None
                                }
                            }
                        } else {
                            None
                        }
                    },
                },
            }
        }
    }
}

/// An element of Fq2, the quadratic extension of the base field.
#[derive(Clone, Copy, PartialEq, Eq, Structural, Debug)]
pub struct Fq2 {
    c0: Fq,
    c1: Fq,
}

impl Fq2 {
    /// The pair of canonical values (real, imaginary).
    pub closed spec fn v(self) -> (nat, nat) {
        (self.c0.value(), self.c1.value())
    }

    /// Initializes a + b*i from its real part a and imaginary part b.
    pub fn new(a: Fq, b: Fq) -> (r: Fq2)
        ensures
            r.v() == (a.value(), b.value()),
    {
        Fq2 { c0: a, c1: b }
    }

    pub fn zero() -> (r: Fq2)
        ensures
            r.v() == f2_zero(),
    {
        Fq2 { c0: Fq::zero(), c1: Fq::zero() }
    }

    pub fn one() -> (r: Fq2)
        ensures
            r.v() == f2_one(),
    {
        Fq2 { c0: Fq::one(), c1: Fq::zero() }
    }

    /// The imaginary unit i.
    pub fn i() -> (r: Fq2)
        ensures
            r.v() == (0nat, 1nat),
    {
        Fq2 { c0: Fq::zero(), c1: Fq::one() }
    }

    /// The non-residue xi = 9 + i.
    pub fn xi() -> (r: Fq2)
        ensures
            r.v() == f2_xi(),
    {
        let nine = Fq::from_u256(U256::from_u64(9)).unwrap();
        Fq2 { c0: nine, c1: Fq::one() }
    }

    /// Equality of the represented pairs.
    pub fn eq2(&self, o: &Fq2) -> (r: bool)
        ensures
            r == (self.v() == o.v()),
    {
        self.c0.into_u256().eq_val(&o.c0.into_u256())
            && self.c1.into_u256().eq_val(&o.c1.into_u256())
    }

    pub fn is_zero(&self) -> (r: bool)
        ensures
            r == (self.v() == f2_zero()),
    {
        self.c0.is_zero() && self.c1.is_zero()
    }

    pub fn real_part(&self) -> (r: Fq)
        ensures
            r.value() == self.v().0,
    {
        self.c0
    }

    pub fn imaginary(&self) -> (r: Fq)
        ensures
            r.value() == self.v().1,
    {
        self.c1
    }

    pub fn add(&self, o: &Fq2) -> (r: Fq2)
        ensures
            r.v() == f2_add(self.v(), o.v()),
    {
        Fq2 { c0: self.c0.add(&o.c0), c1: self.c1.add(&o.c1) }
    }

    pub fn sub(&self, o: &Fq2) -> (r: Fq2)
        ensures
            r.v() == f2_sub(self.v(), o.v()),
    {
        Fq2 { c0: self.c0.sub(&o.c0), c1: self.c1.sub(&o.c1) }
    }

    pub fn neg(&self) -> (r: Fq2)
        ensures
            r.v() == f2_neg(self.v()),
    {
        Fq2 { c0: self.c0.neg(), c1: self.c1.neg() }
    }

    pub fn mul(&self, o: &Fq2) -> (r: Fq2)
        ensures
            r.v() == f2_mul(self.v(), o.v()),
    {
        let t0 = self.c0.mul(&o.c0);
        let t1 = self.c1.mul(&o.c1);
        let t2 = self.c0.mul(&o.c1);
        let t3 = self.c1.mul(&o.c0);
        Fq2 { c0: t0.sub(&t1), c1: t2.add(&t3) }
    }

    /// Multiplication by a base-field scalar on both components.
    pub fn scale(&self, k: &Fq) -> (r: Fq2)
        ensures
            r.v() == (fp_mul(self.v().0, k.value(), fq_m()), fp_mul(self.v().1, k.value(), fq_m())),
    {
        Fq2 { c0: self.c0.mul(k), c1: self.c1.mul(k) }
    }

    /// Conjugation c0 - c1*i.
    pub fn conjugate(&self) -> (r: Fq2)
        ensures
            r.v() == f2_conj(self.v()),
    {
        Fq2 { c0: self.c0, c1: self.c1.neg() }
    }

    /// Exponentiation by a raw 256-bit exponent.
    pub fn pow(&self, exp: U256) -> (r: Fq2)
        ensures
            r.v() == f2_pow(self.v(), exp.val()),
    {
        let bits = exp.to_bits();
        let mut acc = Fq2::one();
        proof {
            crate::arith::lemma_pow2_values();
            exp.lemma_val_bound();
            vstd::arithmetic::div_mod::lemma_basic_div(
                exp.val() as int,
                vstd::arithmetic::power2::pow2(256) as int,
            );
        }
        let mut i: usize = 0;
        while i < 256
            invariant
                0 <= i <= 256,
                bits@.len() == 256,
                forall|j: int| 0 <= j < 256 ==> bits@[j] == ((exp.val()
                    / vstd::arithmetic::power2::pow2(j as nat)) % 2 == 1),
                acc.v() == f2_pow(self.v(), exp.val()
                    / vstd::arithmetic::power2::pow2((256 - i) as nat)),
            decreases 256 - i,
        {
            let ghost h: nat = exp.val() / vstd::arithmetic::power2::pow2((256 - i) as nat);
            let ghost h2: nat = exp.val() / vstd::arithmetic::power2::pow2((255 - i) as nat);
            proof {
                crate::arith::lemma_pow2_values();
                vstd::arithmetic::power2::lemma_pow2_adds((255 - i) as nat, 1);
                vstd::arithmetic::power2::lemma_pow2_pos((255 - i) as nat);
                vstd::arithmetic::div_mod::lemma_div_denominator(
                    exp.val() as int,
                    vstd::arithmetic::power2::pow2((255 - i) as nat) as int,
                    2,
                );
                assert(h == h2 / 2);
                vstd::arithmetic::div_mod::lemma_fundamental_div_mod(h2 as int, 2);
            }
            proof {
                if h2 == 0 {
                    lemma_f2_one_sq();
                }
            }
            let sq = acc.mul(&acc);
            let bit = bits[255 - i];
            if bit {
                acc = sq.mul(self);
                proof {
                    assert(h2 % 2 == 1) by {
                        assert(h2 == 2 * h + h2 % 2);
                    }
                }
            } else {
                acc = sq;
            }
            i += 1;
        }
        proof {
            crate::arith::lemma_pow2_values();
            vstd::arithmetic::div_mod::lemma_div_basics_2(exp.val() as int);
        }
        acc
    }

    /// The multiplicative inverse via the norm c0^2 + c1^2; None when
    /// the norm has no inverse, in particular for zero. That the norm
    /// of a non-zero element always has one rests on the primality of
    /// q and is not claimed here.
    pub fn inverse(&self) -> (r: Option<Fq2>)
        ensures
            match r {
                Some(b) => f2_mul(self.v(), b.v()) == f2_one(),
                None => ({
                    let n = fp_add(
                        fp_mul(self.v().0, self.v().0, fq_m()),
                        fp_mul(self.v().1, self.v().1, fq_m()),
                        fq_m(),
                    );
                    n == 0 || fp_mul(n, fp_inv_cand(n, fq_m()), fq_m()) != 1
                }),
            },
            match r {
                Some(b) => f2_inv(self.v()) == Some(b.v()),
                None => f2_inv(self.v()) is None,
            },
    {
        let n = self.c0.mul(&self.c0).add(&self.c1.mul(&self.c1));
        match n.inverse() {
            None => {
                None
            },
            Some(t) => {
                let r0 = self.c0.mul(&t);
                let r1 = self.c1.neg().mul(&t);
                proof {
                    use_type_invariant(self.c0);
                    use_type_invariant(self.c1);
                    use_type_invariant(t);
                    lemma_f2_inverse(self.c0.value(), self.c1.value(), t.value());
                }
                Some(Fq2 { c0: r0, c1: r1 })
            },
        }
    }

    /// Parses a 64-byte big-endian integer v as the element
    /// (v mod q) + (v div q) * i; see `fq2_decode`.
    pub fn from_slice(bytes: &[u8]) -> (r: Result<Fq2, FieldError>)
        ensures
            match r {
                Ok(v) => fq2_decode(bytes@) == Some(v.v()),
                Err(e) => fq2_decode(bytes@) is None
                    && (bytes@.len() != 64 <==> e == FieldError::InvalidU512Encoding)
                    && (bytes@.len() == 64 <==> e == FieldError::NotMember),
            },
    {
        let wide = match U512::from_slice(bytes) {
            None => {
                return Err(FieldError::InvalidU512Encoding);
            },
            Some(w) => w,
        };
        let m = Fq::modulus();
        let (quo, rem) = wide.divrem(&m);
        match quo {
            None => {
                proof {
                    crate::arith::lemma_pow2_values();
                }
                Err(FieldError::NotMember)
            },
            Some(q) => {
                let c1 = match Fq::from_u256(q) {
                    Err(_) => {
                        return Err(FieldError::NotMember);
                    },
                    Ok(x) => x,
                };
                let c0 = match Fq::from_u256(rem) {
                    Err(_) => {
                        proof {
                            vstd::arithmetic::div_mod::lemma_mod_division_less_than_divisor(
                                be64_val(bytes@) as int, fq_m() as int);
                            assert(false);
                        }
                        return Err(FieldError::NotMember);
                    },
                    Ok(x) => x,
                };
                Ok(Fq2 { c0, c1 })
            },
        }
    }

    /// The square root by the complex method over the Fq square root,
    /// validated by squaring; None exactly when every candidate of the
    /// method fails its check.
    pub fn sqrt(&self) -> (r: Option<Fq2>)
        ensures
            match r {
                Some(s) => f2_sqrt(self.v()) == Some(s.v()) && f2_mul(s.v(), s.v()) == self.v(),
                None => f2_sqrt(self.v()) is None,
            },
    {
        if self.is_zero() {
            let z = Fq2::zero();
            proof {
                lemma_f2_zero_sq();
            }
            return Some(z);
        }
        let n = self.c0.mul(&self.c0).add(&self.c1.mul(&self.c1));
        let sn = match n.sqrt() {
            None => {
                return None;
            },
            Some(v) => v,
        };
        let inv2 = fq_half_const();
        let t1 = self.c0.add(&sn).mul(&inv2);
        match self.try_root(&t1) {
            Some(c) => {
                return Some(c);
            },
            None => {
            },
        }
        let t2 = self.c0.sub(&sn).mul(&inv2);
        match self.try_root(&t2) {
            Some(c) => {
                return Some(c);
            },
            None => {
            },
        }
        if self.c1.is_zero() {
            let ti = match self.c0.neg().sqrt() {
                None => {
                    return None;
                },
                Some(v) => v,
            };
            let cand = Fq2 { c0: Fq::zero(), c1: ti };
            let sq = cand.mul(&cand);
            if sq.eq2(self) {
                return Some(cand);
            }
            return None;
        }
        None
    }

    /// One branch of the complex method as executable code.
    fn try_root(&self, t: &Fq) -> (r: Option<Fq2>)
        ensures
            match r {
                Some(s) => f2_sqrt_from(self.v(), t.value()) == Some(s.v())
                    && f2_mul(s.v(), s.v()) == self.v(),
                None => f2_sqrt_from(self.v(), t.value()) is None,
            },
    {
        let a0 = match t.sqrt() {
            None => {
                return None;
            },
            Some(v) => v,
        };
        let d = a0.add(&a0);
        let di = match d.inverse() {
            None => {
                return None;
            },
            Some(v) => v,
        };
        let cand = Fq2 { c0: a0, c1: self.c1.mul(&di) };
        let sq = cand.mul(&cand);
        if sq.eq2(self) {
            Some(cand)
        } else {
            None
        }
    }
}

/// The constant (q+1)/2, the inverse of two in Fq.
pub(crate) fn fq_half_const() -> (r: Fq)
    ensures
        r.value() == (fq_m() + 1) as nat / 2,
{
    let m = Fq::modulus();
    let one = U256::one();
    let (s, c) = m.add_carry(&one);
    proof {
        s.lemma_val_bound();
        assert(!c);
    }
    let h = s.half();
    proof {
        vstd::arithmetic::div_mod::lemma_fundamental_div_mod((fq_m() + 1) as int, 2);
    }
    match Fq::from_u256(h) {
        Ok(f) => f,
        Err(_) => {
            proof {
                assert(false);
            }
            Fq::zero()
        },
    }
}

proof fn lemma_f2_one_sq()
    ensures
        f2_mul(f2_one(), f2_one()) == f2_one(),
{
    let m = fq_m() as int;
    assert(fp_mul(1, 1, fq_m()) == 1) by {
        assert(1nat * 1nat == 1nat) by (nonlinear_arith);
        vstd::arithmetic::div_mod::lemma_small_mod(1nat, fq_m());
    }
    assert(fp_mul(1, 0, fq_m()) == 0 && fp_mul(0, 1, fq_m()) == 0 && fp_mul(0, 0, fq_m()) == 0) by {
        assert(1nat * 0nat == 0nat && 0nat * 1nat == 0nat && 0nat * 0nat == 0nat) by (nonlinear_arith);
        vstd::arithmetic::div_mod::lemma_small_mod(0nat, fq_m());
    }
    assert(fp_sub(1, 0, fq_m()) == 1) by {
        vstd::arithmetic::div_mod::lemma_mod_add_multiples_vanish(1, m);
        vstd::arithmetic::div_mod::lemma_small_mod(1nat, fq_m());
    }
    assert(fp_add(0, 0, fq_m()) == 0) by {
        vstd::arithmetic::div_mod::lemma_small_mod(0nat, fq_m());
    }
}

proof fn lemma_f2_zero_sq()
    ensures
        f2_mul(f2_zero(), f2_zero()) == f2_zero(),
{
    assert(fp_mul(0, 0, fq_m()) == 0) by {
        assert(0nat * 0nat == 0nat) by (nonlinear_arith);
        vstd::arithmetic::div_mod::lemma_small_mod(0nat, fq_m());
    }
    assert(fp_sub(0, 0, fq_m()) == 0) by {
        vstd::arithmetic::div_mod::lemma_mod_self_0(fq_m() as int);
    }
    assert(fp_add(0, 0, fq_m()) == 0) by {
        vstd::arithmetic::div_mod::lemma_small_mod(0nat, fq_m());
    }
}

/// Multiplying (a0 + a1 i) by its scaled conjugate (a0 t - a1 t i),
/// where t inverts the norm, gives one.
proof fn lemma_f2_inverse(a0: nat, a1: nat, t: nat)
    requires
        a0 < fq_m(),
        a1 < fq_m(),
        t < fq_m(),
        fp_mul(fp_add(fp_mul(a0, a0, fq_m()), fp_mul(a1, a1, fq_m()), fq_m()), t, fq_m()) == 1,
    ensures
        f2_mul((a0, a1), (fp_mul(a0, t, fq_m()), fp_mul(fp_neg(a1, fq_m()), t, fq_m()))) == f2_one(),
{
    lemma_f2_inverse_real(a0, a1, t);
    lemma_f2_inverse_imag(a0, a1, t);
}

proof fn lemma_f2_inverse_real(a0: nat, a1: nat, t: nat)
    requires
        a0 < fq_m(),
        a1 < fq_m(),
        t < fq_m(),
        fp_mul(fp_add(fp_mul(a0, a0, fq_m()), fp_mul(a1, a1, fq_m()), fq_m()), t, fq_m()) == 1,
    ensures
        fp_sub(
            fp_mul(a0, fp_mul(a0, t, fq_m()), fq_m()),
            fp_mul(a1, fp_mul(fp_neg(a1, fq_m()), t, fq_m()), fq_m()),
            fq_m(),
        ) == 1,
{
    let m = fq_m() as int;
    let x = a0 as int;
    let y = a1 as int;
    let ti = t as int;
    // left term: a0 * (a0 t mod m) mod m == a0^2 t mod m
    vstd::arithmetic::div_mod::lemma_mul_mod_noop_general(x, x * ti, m);
    vstd::arithmetic::div_mod::lemma_mul_mod_noop_general(y, (m - y) * ti, m);
    vstd::arithmetic::div_mod::lemma_mul_mod_noop_general(x * ti, x, m);
    // the two products expanded
    let p0 = (x * (x * ti)) % m;
    let p1 = (y * ((m - y) * ti)) % m;
    assert(fp_mul(a0, fp_mul(a0, t, fq_m()), fq_m()) == p0) by {
        vstd::arithmetic::div_mod::lemma_mul_mod_noop_right(x, x * ti, m);
    }
    assert(fp_mul(a1, fp_mul(fp_neg(a1, fq_m()), t, fq_m()), fq_m()) == p1) by {
        assert(fp_neg(a1, fq_m()) == ((m - y) % m));
        vstd::arithmetic::div_mod::lemma_mul_mod_noop_left(m - y, ti, m);
        vstd::arithmetic::div_mod::lemma_mul_mod_noop_right(y, (m - y) * ti, m);
    }
    // p0 - p1 == (x^2 + y^2) t (mod m)
    assert((x * (x * ti) - y * ((m - y) * ti)) % m == ((x * x + y * y) * ti) % m) by {
        assert(x * (x * ti) - y * ((m - y) * ti) == (x * x + y * y) * ti - m * (y * ti))
            by (nonlinear_arith);
        vstd::arithmetic::div_mod::lemma_mod_multiples_vanish(
            -(y * ti), (x * x + y * y) * ti, m);
    }
    vstd::arithmetic::div_mod::lemma_sub_mod_noop(x * (x * ti), y * ((m - y) * ti), m);
    // tie to the hypothesis
    assert(((x * x + y * y) * ti) % m == 1) by {
        vstd::arithmetic::div_mod::lemma_add_mod_noop(x * x, y * y, m);
        vstd::arithmetic::div_mod::lemma_mul_mod_noop_left(x * x + y * y, ti, m);
    }
    assert((p0 - p1) % m == 1);
    assert(fp_sub(p0 as nat, p1 as nat, fq_m()) == ((p0 - p1) % m) as nat) by {
        vstd::arithmetic::div_mod::lemma_mod_division_less_than_divisor(p0, m);
        vstd::arithmetic::div_mod::lemma_mod_division_less_than_divisor(p1, m);
        vstd::arithmetic::div_mod::lemma_mod_add_multiples_vanish(p0 - p1, m);
    }
}

proof fn lemma_f2_inverse_imag(a0: nat, a1: nat, t: nat)
    requires
        a0 < fq_m(),
        a1 < fq_m(),
        t < fq_m(),
    ensures
        fp_add(
            fp_mul(a0, fp_mul(fp_neg(a1, fq_m()), t, fq_m()), fq_m()),
            fp_mul(a1, fp_mul(a0, t, fq_m()), fq_m()),
            fq_m(),
        ) == 0,
{
    let m = fq_m() as int;
    let x = a0 as int;
    let y = a1 as int;
    let ti = t as int;
    let p0 = (x * ((m - y) * ti)) % m;
    let p1 = (y * (x * ti)) % m;
    assert(fp_mul(a0, fp_mul(fp_neg(a1, fq_m()), t, fq_m()), fq_m()) == p0) by {
        assert(fp_neg(a1, fq_m()) == ((m - y) % m));
        vstd::arithmetic::div_mod::lemma_mul_mod_noop_left(m - y, ti, m);
        vstd::arithmetic::div_mod::lemma_mul_mod_noop_right(x, (m - y) * ti, m);
    }
    assert(fp_mul(a1, fp_mul(a0, t, fq_m()), fq_m()) == p1) by {
        vstd::arithmetic::div_mod::lemma_mul_mod_noop_right(y, x * ti, m);
    }
    assert((x * ((m - y) * ti) + y * (x * ti)) % m == 0) by {
        assert(x * ((m - y) * ti) + y * (x * ti) == m * (x * ti)) by (nonlinear_arith);
        vstd::arithmetic::div_mod::lemma_mod_multiples_basic(x * ti, m);
    }
    vstd::arithmetic::div_mod::lemma_add_mod_noop(x * ((m - y) * ti), y * (x * ti), m);
    assert((p0 + p1) % m == 0);
}

} // verus!
