//! The optimal ate pairing: Miller loop over the NAF digits of 6u+2,
//! line evaluation against G1 points, and the final exponentiation to
//! the target group Gt.

use vstd::prelude::*;
use crate::fields::{Fq, Fr, fq_m, fp_mul};
use crate::fq2::{f2_add, f2_sub, f2_neg, f2_mul, f2_conj, f2_pow};
use crate::fq2::Fq2;
use crate::fq6::Fq6;
use crate::fq12::{Fq12, f12_mul, f12_conj, f12_pow, f12_frob, f12_inv, f12_one};
use crate::groups::{G1, G2, AffineG1, AffineG2, g1_to_affine, g2_to_affine};
use crate::CurveError;
use crate::arith::U256;

verus! {

/// The BN254 curve parameter u.
pub const CURVE_U: u64 = 4965661367192848881;

/// x^(-u) on the cyclotomic subgroup: the u-th power conjugated.
pub open spec fn f12_exp_neg_u(
    a: (((nat, nat), (nat, nat), (nat, nat)), ((nat, nat), (nat, nat), (nat, nat))),
) -> (((nat, nat), (nat, nat), (nat, nat)), ((nat, nat), (nat, nat), (nat, nat))) {
    f12_conj(f12_pow(a, CURVE_U as nat))
}

/// The hard part of the final exponentiation, the standard chain of
/// u-powers, cyclotomic squarings, conjugations and Frobenius maps.
pub open spec fn f12_hard_part(
    r: (((nat, nat), (nat, nat), (nat, nat)), ((nat, nat), (nat, nat), (nat, nat))),
) -> (((nat, nat), (nat, nat), (nat, nat)), ((nat, nat), (nat, nat), (nat, nat))) {
    let y0 = f12_exp_neg_u(r);
    let y1 = f12_mul(y0, y0);
    let y2 = f12_mul(y1, y1);
    let y3 = f12_mul(y2, y1);
    let y4 = f12_exp_neg_u(y3);
    let y5 = f12_mul(y4, y4);
    let y6 = f12_exp_neg_u(y5);
    let y3c = f12_conj(y3);
    let y6c = f12_conj(y6);
    let y7 = f12_mul(y6c, y4);
    let y8 = f12_mul(y7, y3c);
    let y9 = f12_mul(y8, y1);
    let y10 = f12_mul(y8, y4);
    let y11 = f12_mul(y10, r);
    let y12 = f12_frob(y9, 1);
    let y13 = f12_mul(y12, y11);
    let y14 = f12_mul(f12_frob(y8, 2), y13);
    let y15 = f12_mul(f12_conj(r), y9);
    let y16 = f12_mul(f12_frob(y15, 3), y14);
    y16
}

/// The whole final exponentiation: the easy part (q^6 - 1)(q^2 + 1)
/// through conjugation and inversion, then the hard part; None exactly
/// when the inverse chain fails.
pub open spec fn f12_final_exp(
    a: (((nat, nat), (nat, nat), (nat, nat)), ((nat, nat), (nat, nat), (nat, nat))),
) -> Option<(((nat, nat), (nat, nat), (nat, nat)), ((nat, nat), (nat, nat), (nat, nat)))> {
    match f12_inv(a) {
        None => None,
        Some(inv) => {
            let t = f12_mul(f12_conj(a), inv);
            let r = f12_mul(f12_frob(t, 2), t);
            Some(f12_hard_part(r))
        },
    }
}

/// An element of the target group Gt, a subgroup of the units of Fq12.
#[derive(Clone, Copy, PartialEq, Eq, Structural, Debug)]
pub struct Gt {
    f: Fq12,
}

impl Gt {
    /// The underlying Fq12 coefficient view.
    pub closed spec fn v(self) -> (
        ((nat, nat), (nat, nat), (nat, nat)),
        ((nat, nat), (nat, nat), (nat, nat)),
    ) {
        self.f.v()
    }

    pub fn one() -> (r: Gt)
        ensures
            r.v() == f12_one(),
    {
        Gt { f: Fq12::one() }
    }

    pub fn mul(&self, o: &Gt) -> (r: Gt)
        ensures
            r.v() == f12_mul(self.v(), o.v()),
    {
        Gt { f: self.f.mul(&o.f) }
    }

    /// Equality of the represented coefficient views.
    pub fn eq_gt(&self, o: &Gt) -> (r: bool)
        ensures
            r == (self.v() == o.v()),
    {
        self.f.eq12(&o.f)
    }

    /// Exponentiation by the canonical value of a scalar.
    pub fn pow(&self, exp: Fr) -> (r: Gt)
        ensures
            r.v() == f12_pow(self.v(), exp.value()),
    {
        let e = exp.into_u256();
        Gt { f: self.f.pow_u256(&e) }
    }

    pub fn inverse(&self) -> (r: Option<Gt>)
        ensures
            match r {
                Some(b) => f12_inv(self.v()) == Some(b.v()),
                None => f12_inv(self.v()) is None,
            },
    {
        match self.f.inverse() {
            None => None,
            Some(g) => Some(Gt { f: g }),
        }
    }

    /// Raises the element to (q^12 - 1) / r; None exactly when the
    /// inverse chain fails, so never on the image of the Miller loop.
    pub fn final_exponentiation(&self) -> (r: Option<Gt>)
        ensures
            match r {
                Some(b) => f12_final_exp(self.v()) == Some(b.v()),
                None => f12_final_exp(self.v()) is None,
            },
    {
        match final_exp_fq12(&self.f) {
            None => None,
            Some(g) => Some(Gt { f: g }),
        }
    }
}

/// x^(-u) as executable code.
fn exp_by_neg_u(a: &Fq12) -> (r: Fq12)
    ensures
        r.v() == f12_exp_neg_u(a.v()),
{
    a.pow_u64(CURVE_U).conjugate()
}

/// The final exponentiation on raw Fq12 values.
#[verifier::rlimit(100)]
fn final_exp_fq12(a: &Fq12) -> (r: Option<Fq12>)
    ensures
        match r {
            Some(b) => f12_final_exp(a.v()) == Some(b.v()),
            None => f12_final_exp(a.v()) is None,
        },
{
    let inv = match a.inverse() {
        None => {
            return None;
        },
        Some(i) => i,
    };
    let t = a.conjugate().mul(&inv);
    let r = t.frobenius_map(2).mul(&t);
    let y0 = exp_by_neg_u(&r);
    let y1 = y0.mul(&y0);
    let y2 = y1.mul(&y1);
    let y3 = y2.mul(&y1);
    let y4 = exp_by_neg_u(&y3);
    let y5 = y4.mul(&y4);
    let y6 = exp_by_neg_u(&y5);
    let y3c = y3.conjugate();
    let y6c = y6.conjugate();
    let y7 = y6c.mul(&y4);
    let y8 = y7.mul(&y3c);
    let y9 = y8.mul(&y1);
    let y10 = y8.mul(&y4);
    let y11 = y10.mul(&r);
    let y12 = y9.frobenius_map(1);
    let y13 = y12.mul(&y11);
    let y14 = y8.frobenius_map(2).mul(&y13);
    let y15 = r.conjugate().mul(&y9);
    let y16 = y15.frobenius_map(3).mul(&y14);
    Some(y16)
}

/// The non-adjacent-form digit expansion of a value, least
/// significant digit first; each digit is -1, 0 or 1.
pub open spec fn naf_spec(v: nat) -> Seq<int>
    decreases v,
{
    if v == 0 {
        Seq::empty()
    } else if v % 2 == 0 {
        seq![0int] + naf_spec(v / 2)
    } else if v % 4 == 1 {
        seq![1int] + naf_spec(((v - 1) / 2) as nat)
    } else {
        seq![-1int] + naf_spec(((v + 1) / 2) as nat)
    }
}

/// The digits of a signed-digit vector as mathematical integers.
pub open spec fn digits_view(s: Seq<i8>) -> Seq<int> {
    s.map(|i: int, d: i8| d as int)
}

/// The ate loop length 6u+2 of BN254.
pub open spec fn ate_loop_count() -> nat {
    29793968203157093288nat
}

/// The signed binary (NAF) digits of 6u+2, least significant first.
fn naf_6u_plus_2() -> (r: Vec<i8>)
    ensures
        digits_view(r@) == naf_spec(ate_loop_count()),
        r@.len() >= 2,
        forall|j: int| 0 <= j < r@.len() ==> (r@[j] == -1 || r@[j] == 0i8 || r@[j] == 1i8),
{
    let ghost l0: nat = ate_loop_count();
    let mut v: u128 = 6 * (CURVE_U as u128) + 2;
    let mut out: Vec<i8> = Vec::new();
    proof {
        assert(digits_view(out@) + naf_spec(v as nat) =~= naf_spec(l0));
    }
    while v > 0
        invariant
            v <= 0x4_0000_0000_0000_0000_0,
            digits_view(out@) + naf_spec(v as nat) == naf_spec(l0),
            forall|j: int| 0 <= j < out@.len() ==> (out@[j] == -1 || out@[j] == 0i8 || out@[j] == 1i8),
        decreases v,
    {
        let ghost pre = out@;
        let ghost vpre: nat = v as nat;
        if v % 2 == 1 {
            if v % 4 == 1 {
                out.push(1);
                v = v - 1;
            } else {
                out.push(-1);
                v = v + 1;
            }
        } else {
            out.push(0);
        }
        v = v / 2;
        proof {
            assert(digits_view(out@) =~= digits_view(pre) + seq![out@.last() as int]);
            assert(naf_spec(vpre) == seq![out@.last() as int] + naf_spec(v as nat));
            assert(digits_view(out@) + naf_spec(v as nat) =~= digits_view(pre) + naf_spec(vpre));
        }
    }
    proof {
        assert(digits_view(out@) + naf_spec(0) =~= digits_view(out@));
        assert(naf_spec(l0) == seq![0int] + naf_spec(l0 / 2));
        assert(naf_spec(l0 / 2).len() >= 1);
        assert(out@.len() == naf_spec(l0).len());
    }
    out
}

/// A G2 point in homogeneous projective coordinates, the working form
/// of the Miller loop accumulator.
#[derive(Clone, Copy)]
struct G2Hom {
    x: Fq2,
    y: Fq2,
    z: Fq2,
}

impl G2Hom {
    /// The coordinate triple of canonical value pairs.
    pub closed spec fn v(self) -> ((nat, nat), (nat, nat), (nat, nat)) {
        (self.x.v(), self.y.v(), self.z.v())
    }
}

/// The coordinate views of a vector of accumulators.
spec fn hom_views(s: Seq<G2Hom>) -> Seq<((nat, nat), (nat, nat), (nat, nat))> {
    s.map(|i: int, h: G2Hom| h.v())
}

/// Componentwise scaling of an Fq2 value by a base-field value.
pub open spec fn f2_scale_sp(a: (nat, nat), k: nat) -> (nat, nat) {
    (fp_mul(a.0, k, fq_m()), fp_mul(a.1, k, fq_m()))
}

/// One doubling step on the homogeneous accumulator: the new point and
/// the line coefficients through the tangent.
pub open spec fn dbl_step_spec(r: ((nat, nat), (nat, nat), (nat, nat))) -> (
    ((nat, nat), (nat, nat), (nat, nat)),
    ((nat, nat), (nat, nat), (nat, nat)),
) {
    let inv2 = (fq_m() + 1) as nat / 2;
    let a = f2_scale_sp(f2_mul(r.0, r.1), inv2);
    let b = f2_mul(r.1, r.1);
    let cz = f2_mul(r.2, r.2);
    let cz3 = f2_add(f2_add(cz, cz), cz);
    let e = f2_mul(crate::groups::g2_b(), cz3);
    let f3 = f2_add(f2_add(e, e), e);
    let g = f2_scale_sp(f2_add(b, f3), inv2);
    let yz = f2_add(r.1, r.2);
    let h = f2_sub(f2_mul(yz, yz), f2_add(b, cz));
    let ii = f2_sub(e, b);
    let j = f2_mul(r.0, r.0);
    let e2 = f2_mul(e, e);
    let nx = f2_mul(a, f2_sub(b, f3));
    let ny = f2_sub(f2_mul(g, g), f2_add(f2_add(e2, e2), e2));
    let nz = f2_mul(b, h);
    ((nx, ny, nz), (f2_neg(h), f2_add(f2_add(j, j), j), ii))
}

/// One addition step on the homogeneous accumulator against a fixed
/// affine point: the new point and the line coefficients through both.
pub open spec fn add_step_spec(
    r: ((nat, nat), (nat, nat), (nat, nat)),
    qx: (nat, nat),
    qy: (nat, nat),
) -> (((nat, nat), (nat, nat), (nat, nat)), ((nat, nat), (nat, nat), (nat, nat))) {
    let theta = f2_sub(r.1, f2_mul(qy, r.2));
    let lambda = f2_sub(r.0, f2_mul(qx, r.2));
    let cc = f2_mul(theta, theta);
    let dd = f2_mul(lambda, lambda);
    let ee = f2_mul(lambda, dd);
    let ff = f2_mul(r.2, cc);
    let gg = f2_mul(r.0, dd);
    let hh = f2_sub(f2_add(ee, ff), f2_add(gg, gg));
    let nx = f2_mul(lambda, hh);
    let ny = f2_sub(f2_mul(theta, f2_sub(gg, hh)), f2_mul(ee, r.1));
    let nz = f2_mul(r.2, ee);
    let jj = f2_sub(f2_mul(theta, qx), f2_mul(lambda, qy));
    ((nx, ny, nz), (lambda, f2_neg(theta), jj))
}

/// Multiplication of the Fq12 accumulator by the sparse line value,
/// its coefficients scaled by the G1 point.
pub open spec fn ell_spec(
    f: (((nat, nat), (nat, nat), (nat, nat)), ((nat, nat), (nat, nat), (nat, nat))),
    c: ((nat, nat), (nat, nat), (nat, nat)),
    p: (nat, nat),
) -> (((nat, nat), (nat, nat), (nat, nat)), ((nat, nat), (nat, nat), (nat, nat))) {
    f12_mul(f, (
        (f2_scale_sp(c.0, p.1), crate::fq2::f2_zero(), crate::fq2::f2_zero()),
        (f2_scale_sp(c.1, p.0), c.2, crate::fq2::f2_zero()),
    ))
}

/// The Frobenius endomorphism on affine G2 coordinates.
pub open spec fn endo_spec(x: (nat, nat), y: (nat, nat)) -> ((nat, nat), (nat, nat)) {
    (
        f2_mul(f2_conj(x), f2_pow(crate::fq2::f2_xi(), (fq_m() - 1) as nat / 3)),
        f2_mul(f2_conj(y), f2_pow(crate::fq2::f2_xi(), (fq_m() - 1) as nat / 2)),
    )
}

/// The per-pair work of one ate-loop digit: a doubling step with its
/// line, then an addition step with its line where the digit is odd.
pub open spec fn miller_pair_step(
    f: (((nat, nat), (nat, nat), (nat, nat)), ((nat, nat), (nat, nat), (nat, nat))),
    r: ((nat, nat), (nat, nat), (nat, nat)),
    q: ((nat, nat), (nat, nat)),
    p: (nat, nat),
    digit: int,
) -> (
    (((nat, nat), (nat, nat), (nat, nat)), ((nat, nat), (nat, nat), (nat, nat))),
    ((nat, nat), (nat, nat), (nat, nat)),
) {
    let (r1, c) = dbl_step_spec(r);
    let f1 = ell_spec(f, c, p);
    if digit == 1 {
        let (r2, c2) = add_step_spec(r1, q.0, q.1);
        (ell_spec(f1, c2, p), r2)
    } else if digit == -1 {
        let (r2, c2) = add_step_spec(r1, q.0, f2_neg(q.1));
        (ell_spec(f1, c2, p), r2)
    } else {
        (f1, r1)
    }
}

/// One ate-loop digit applied to the pairs from index k on.
pub open spec fn miller_digit_from(
    f: (((nat, nat), (nat, nat), (nat, nat)), ((nat, nat), (nat, nat), (nat, nat))),
    rs: Seq<((nat, nat), (nat, nat), (nat, nat))>,
    pairs: Seq<(((nat, nat), (nat, nat)), (nat, nat))>,
    digit: int,
    k: int,
) -> (
    (((nat, nat), (nat, nat), (nat, nat)), ((nat, nat), (nat, nat), (nat, nat))),
    Seq<((nat, nat), (nat, nat), (nat, nat))>,
)
    decreases pairs.len() - k,
{
    if k < 0 || k >= pairs.len() || rs.len() != pairs.len() {
        (f, rs)
    } else {
        let (f1, r1) = miller_pair_step(f, rs[k], pairs[k].0, pairs[k].1, digit);
        miller_digit_from(f1, rs.update(k, r1), pairs, digit, k + 1)
    }
}

/// The ate loop from digit index i down to 1, squaring the accumulator
/// before every digit but the leading one.
pub open spec fn miller_outer(
    f: (((nat, nat), (nat, nat), (nat, nat)), ((nat, nat), (nat, nat), (nat, nat))),
    rs: Seq<((nat, nat), (nat, nat), (nat, nat))>,
    pairs: Seq<(((nat, nat), (nat, nat)), (nat, nat))>,
    naf: Seq<int>,
    i: int,
) -> (
    (((nat, nat), (nat, nat), (nat, nat)), ((nat, nat), (nat, nat), (nat, nat))),
    Seq<((nat, nat), (nat, nat), (nat, nat))>,
)
    decreases i,
{
    if i <= 0 || i >= naf.len() {
        (f, rs)
    } else {
        let fs = if i != naf.len() - 1 { f12_mul(f, f) } else { f };
        let step = miller_digit_from(fs, rs, pairs, naf[i - 1], 0);
        miller_outer(step.0, step.1, pairs, naf, i - 1)
    }
}

/// The two ate correction steps, against the Frobenius images of each
/// fixed point, applied to the pairs from index k on.
pub open spec fn miller_corr_from(
    f: (((nat, nat), (nat, nat), (nat, nat)), ((nat, nat), (nat, nat), (nat, nat))),
    rs: Seq<((nat, nat), (nat, nat), (nat, nat))>,
    pairs: Seq<(((nat, nat), (nat, nat)), (nat, nat))>,
    k: int,
) -> (
    (((nat, nat), (nat, nat), (nat, nat)), ((nat, nat), (nat, nat), (nat, nat))),
    Seq<((nat, nat), (nat, nat), (nat, nat))>,
)
    decreases pairs.len() - k,
{
    if k < 0 || k >= pairs.len() || rs.len() != pairs.len() {
        (f, rs)
    } else {
        let q = pairs[k].0;
        let p = pairs[k].1;
        let q1 = endo_spec(q.0, q.1);
        let q2t = endo_spec(q1.0, q1.1);
        let (r1, c1) = add_step_spec(rs[k], q1.0, q1.1);
        let f1 = ell_spec(f, c1, p);
        let (r2, c2) = add_step_spec(r1, q2t.0, f2_neg(q2t.1));
        let f2v = ell_spec(f1, c2, p);
        miller_corr_from(f2v, rs.update(k, r2), pairs, k + 1)
    }
}

/// The batched Miller loop over affine pairs: the ate loop over the
/// NAF digits of 6u+2 followed by the correction steps.
pub open spec fn miller_batch_spec(
    pairs: Seq<(((nat, nat), (nat, nat)), (nat, nat))>,
) -> (((nat, nat), (nat, nat), (nat, nat)), ((nat, nat), (nat, nat), (nat, nat))) {
    let naf = naf_spec(ate_loop_count());
    let rs0 = Seq::new(pairs.len(), |i: int| (pairs[i].0.0, pairs[i].0.1, crate::fq2::f2_one()));
    let main = miller_outer(f12_one(), rs0, pairs, naf, naf.len() - 1);
    miller_corr_from(main.0, main.1, pairs, 0).0
}

/// The affine coordinate views of a pair vector.
pub open spec fn pair_views(s: Seq<(AffineG2, AffineG1)>) -> Seq<(((nat, nat), (nat, nat)), (nat, nat))> {
    s.map(|i: int, pr: (AffineG2, AffineG1)| (pr.0.v(), pr.1.v()))
}

/// One doubling step of the Miller loop: the accumulator is doubled
/// and the line coefficients through the tangent are returned.
fn doubling_step(r: &mut G2Hom, two_inv: &Fq) -> (c: (Fq2, Fq2, Fq2))
    requires
        two_inv.value() == (fq_m() + 1) as nat / 2,
    ensures
        dbl_step_spec(old(r).v()) == (final(r).v(), (c.0.v(), c.1.v(), c.2.v())),
{
    let a = r.x.mul(&r.y).scale(two_inv);
    let b = r.y.mul(&r.y);
    let cz = r.z.mul(&r.z);
    let cz3 = cz.add(&cz).add(&cz);
    let e = G2::b().mul(&cz3);
    let f3 = e.add(&e).add(&e);
    let g = b.add(&f3).scale(two_inv);
    let yz = r.y.add(&r.z);
    let h = yz.mul(&yz).sub(&b.add(&cz));
    let ii = e.sub(&b);
    let j = r.x.mul(&r.x);
    let e2 = e.mul(&e);
    r.x = a.mul(&b.sub(&f3));
    let g2m = g.mul(&g);
    let e2t = e2.add(&e2).add(&e2);
    r.y = g2m.sub(&e2t);
    r.z = b.mul(&h);
    (h.neg(), j.add(&j).add(&j), ii)
}

/// One addition step of the Miller loop: the accumulator absorbs the
/// fixed point q and the line coefficients through both are returned.
fn addition_step(r: &mut G2Hom, qx: &Fq2, qy: &Fq2) -> (c: (Fq2, Fq2, Fq2))
    ensures
        add_step_spec(old(r).v(), qx.v(), qy.v()) == (final(r).v(), (c.0.v(), c.1.v(), c.2.v())),
{
    let theta = r.y.sub(&qy.mul(&r.z));
    let lambda = r.x.sub(&qx.mul(&r.z));
    let cc = theta.mul(&theta);
    let dd = lambda.mul(&lambda);
    let ee = lambda.mul(&dd);
    let ff = r.z.mul(&cc);
    let gg = r.x.mul(&dd);
    let hh = ee.add(&ff).sub(&gg.add(&gg));
    r.x = lambda.mul(&hh);
    r.y = theta.mul(&gg.sub(&hh)).sub(&ee.mul(&r.y));
    r.z = r.z.mul(&ee);
    let jj = theta.mul(qx).sub(&lambda.mul(qy));
    (lambda, theta.neg(), jj)
}

/// Multiplies the accumulator by the sparse line value, the
/// coefficients spread over the w-tower and scaled by the G1 point.
fn ell(f: &Fq12, coeffs: &(Fq2, Fq2, Fq2), px: &Fq, py: &Fq) -> (r: Fq12)
    ensures
        r.v() == ell_spec(f.v(), (coeffs.0.v(), coeffs.1.v(), coeffs.2.v()),
            (px.value(), py.value())),
{
    let c0 = coeffs.0.scale(py);
    let c1 = coeffs.1.scale(px);
    let line = Fq12::new(
        Fq6::new(c0, Fq2::zero(), Fq2::zero()),
        Fq6::new(c1, coeffs.2, Fq2::zero()),
    );
    f.mul(&line)
}

/// The Frobenius endomorphism on an affine G2 point, the twisted
/// untwist-Frobenius-twist map.
fn g2_endo(x: &Fq2, y: &Fq2) -> (r: (Fq2, Fq2))
    ensures
        (r.0.v(), r.1.v()) == endo_spec(x.v(), y.v()),
{
    let m = Fq::modulus();
    let one = U256::one();
    let (qm1, brw) = m.sub_borrow(&one);
    proof {
        qm1.lemma_val_bound();
        assert(!brw);
    }
    let wide2 = crate::arith::U512::from_u256(&qm1);
    let two = U256::from_u64(2);
    let (h, _) = wide2.divrem(&two);
    let half = match h {
        Some(v) => v,
        None => {
            proof {
                qm1.lemma_val_bound();
                vstd::arithmetic::div_mod::lemma_div_nonincreasing(qm1.val() as int, 2);
                assert(false);
            }
            U256::zero()
        },
    };
    let tw_x = crate::fq6::frob_gamma1();
    let tw_y = Fq2::xi().pow(half);
    (x.conjugate().mul(&tw_x), y.conjugate().mul(&tw_y))
}

/// The batched Miller loop over affine pairs, sharing the squarings of
/// the accumulator across the pairs.
#[verifier::rlimit(100)]
fn miller_loop_affine(pairs: &Vec<(AffineG2, AffineG1)>) -> (r: Fq12)
    ensures
        r.v() == miller_batch_spec(pair_views(pairs@)),
{
    let ghost pv = pair_views(pairs@);
    let ghost nafv = naf_spec(ate_loop_count());
    let two_inv = crate::fq2::fq_half_const();
    let naf = naf_6u_plus_2();
    let mut f = Fq12::one();
    let mut rs: Vec<G2Hom> = Vec::new();
    let mut k: usize = 0;
    while k < pairs.len()
        invariant
            rs@.len() == k,
            0 <= k <= pairs@.len(),
            pv == pair_views(pairs@),
            forall|j: int| 0 <= j < k ==> (#[trigger] rs@[j]).v() == (pv[j].0.0, pv[j].0.1, crate::fq2::f2_one()),
        decreases pairs@.len() - k,
    {
        let (q, _) = pairs[k];
        let hx = q.x();
        let hy = q.y();
        let hz = Fq2::one();
        rs.push(G2Hom { x: hx, y: hy, z: hz });
        proof {
            assert(forall|j: int| 0 <= j < pairs@.len() ==> #[trigger] pv[j]
                == (pairs@[j].0.v(), pairs@[j].1.v()));
            assert(rs@[k as int].v() == (pv[k as int].0.0, pv[k as int].0.1, crate::fq2::f2_one()));
        }
        k += 1;
    }
    let ghost rs0 = Seq::new(pv.len(), |i: int| (pv[i].0.0, pv[i].0.1, crate::fq2::f2_one()));
    proof {
        assert(forall|j: int| 0 <= j < rs@.len() ==> #[trigger] hom_views(rs@)[j] == rs@[j].v());
        assert(hom_views(rs@) =~= rs0);
    }
    let n = naf.len();
    let mut i: usize = n - 1;
    while i >= 1
        invariant
            rs@.len() == pairs@.len(),
            0 <= i <= n - 1,
            n == naf@.len(),
            n >= 2,
            pv == pair_views(pairs@),
            nafv == digits_view(naf@),
            two_inv.value() == (fq_m() + 1) as nat / 2,
            forall|j: int| 0 <= j < naf@.len() ==> (naf@[j] == -1 || naf@[j] == 0i8 || naf@[j] == 1i8),
            miller_outer(f.v(), hom_views(rs@), pv, nafv, i as int)
                == miller_outer(f12_one(), rs0, pv, nafv, nafv.len() - 1),
        decreases i,
    {
        let ghost f_in = f.v();
        let ghost rs_in = hom_views(rs@);
        if i != n - 1 {
            f = f.mul(&f);
        }
        let ghost f_sq = f.v();
        let digit = naf[i - 1];
        let mut k: usize = 0;
        while k < pairs.len()
            invariant
                rs@.len() == pairs@.len(),
                0 <= k <= pairs@.len(),
                pv == pair_views(pairs@),
                two_inv.value() == (fq_m() + 1) as nat / 2,
                digit == -1 || digit == 0i8 || digit == 1i8,
                miller_digit_from(f.v(), hom_views(rs@), pv, digit as int, k as int)
                    == miller_digit_from(f_sq, rs_in, pv, digit as int, 0),
            decreases pairs@.len() - k,
        {
            let ghost fpre = f.v();
            let ghost rspre = hom_views(rs@);
            let (q, p) = pairs[k];
            let mut rk = rs[k];
            let coeffs = doubling_step(&mut rk, &two_inv);
            f = ell(&f, &coeffs, &p.x(), &p.y());
            if digit == 1 {
                let c2 = addition_step(&mut rk, &q.x(), &q.y());
                f = ell(&f, &c2, &p.x(), &p.y());
            } else if digit == -1 {
                let nqy = q.y().neg();
                let c2 = addition_step(&mut rk, &q.x(), &nqy);
                f = ell(&f, &c2, &p.x(), &p.y());
            }
            rs.set(k, rk);
            proof {
                assert(hom_views(rs@) =~= rspre.update(k as int, rk.v()));
                assert((f.v(), rk.v()) == miller_pair_step(fpre, rspre[k as int], pv[k as int].0,
                    pv[k as int].1, digit as int));
            }
            k += 1;
        }
        proof {
            assert(miller_outer(f_in, rs_in, pv, nafv, i as int)
                == miller_outer(f.v(), hom_views(rs@), pv, nafv, i as int - 1));
        }
        i -= 1;
    }
    // the two correction steps with the Frobenius images of q
    let ghost f_main = f.v();
    let ghost rs_main = hom_views(rs@);
    let mut k: usize = 0;
    while k < pairs.len()
        invariant
            rs@.len() == pairs@.len(),
            0 <= k <= pairs@.len(),
            pv == pair_views(pairs@),
            miller_corr_from(f.v(), hom_views(rs@), pv, k as int)
                == miller_corr_from(f_main, rs_main, pv, 0),
        decreases pairs@.len() - k,
    {
        let ghost fpre = f.v();
        let ghost rspre = hom_views(rs@);
        let (q, p) = pairs[k];
        let mut rk = rs[k];
        let (q1x, q1y) = g2_endo(&q.x(), &q.y());
        let (q2x, q2y0) = g2_endo(&q1x, &q1y);
        let q2y = q2y0.neg();
        let c1 = addition_step(&mut rk, &q1x, &q1y);
        f = ell(&f, &c1, &p.x(), &p.y());
        let c2 = addition_step(&mut rk, &q2x, &q2y);
        f = ell(&f, &c2, &p.x(), &p.y());
        rs.set(k, rk);
        proof {
            assert(hom_views(rs@) =~= rspre.update(k as int, rk.v()));
        }
        k += 1;
    }
    proof {
        assert(miller_outer(f12_one(), rs0, pv, nafv, nafv.len() - 1)
            == (f_main, rs_main));
        assert(miller_batch_spec(pv) == miller_corr_from(f_main, rs_main, pv, 0).0);
    }
    f
}

/// The optimal ate pairing e(p, q): the identity in either argument
/// maps to the unit of Gt; otherwise the value is the final
/// exponentiation of the Miller loop on the affine pair.
pub fn pairing(p: G1, q: G2) -> (r: Gt)
    ensures
        (g1_to_affine(p.v()) is None || g2_to_affine(q.v()) is None) ==> r.v() == f12_one(),
        (g1_to_affine(p.v()) is Some && g2_to_affine(q.v()) is Some) ==> r.v() == ({
            let m = miller_batch_spec(seq![(g2_to_affine(q.v())->0, g1_to_affine(p.v())->0)]);
            match f12_final_exp(m) {
                Some(v) => v,
                None => f12_one(),
            }
        }),
{
    let pa = match p.to_affine() {
        None => {
            return Gt::one();
        },
        Some(a) => a,
    };
    let qa = match q.to_affine() {
        None => {
            return Gt::one();
        },
        Some(a) => a,
    };
    let mut pairs: Vec<(AffineG2, AffineG1)> = Vec::new();
    pairs.push((qa, pa));
    proof {
        assert(pair_views(pairs@) =~= seq![(qa.v(), pa.v())]);
    }
    let f = miller_loop_affine(&pairs);
    match final_exp_fq12(&f) {
        Some(g) => Gt { f: g },
        None => Gt::one(),
    }
}

/// The affine views of the pairs whose members both have affine
/// forms; pairs holding an identity are skipped.
pub open spec fn batch_affines(pairs: Seq<(G1, G2)>) -> Seq<(((nat, nat), (nat, nat)), (nat, nat))>
    decreases pairs.len(),
{
    if pairs.len() == 0 {
        Seq::empty()
    } else {
        let pre = batch_affines(pairs.drop_last());
        let lastp = pairs.last();
        if g1_to_affine(lastp.0.v()) is Some && g2_to_affine(lastp.1.v()) is Some {
            pre + seq![(g2_to_affine(lastp.1.v())->0, g1_to_affine(lastp.0.v())->0)]
        } else {
            pre
        }
    }
}

/// The product of pairings over at most sixteen pairs, sharing one
/// final exponentiation; pairs with an identity member contribute the
/// unit and are skipped, and the empty product is the unit.
/// Collects the affine forms of the pairs whose members both have
/// one, in order.
fn collect_batch_affines(pairs: &[(G1, G2)]) -> (r: Vec<(AffineG2, AffineG1)>)
    ensures
        pair_views(r@) == batch_affines(pairs@),
{
    let mut affines: Vec<(AffineG2, AffineG1)> = Vec::new();
    let mut k: usize = 0;
    while k < pairs.len()
        invariant
            0 <= k <= pairs@.len(),
            pair_views(affines@) == batch_affines(pairs@.subrange(0, k as int)),
        decreases pairs@.len() - k,
    {
        let ghost pre = affines@;
        let (p, q) = pairs[k];
        match (p.to_affine(), q.to_affine()) {
            (Some(pa), Some(qa)) => {
                affines.push((qa, pa));
                proof {
                    assert(pair_views(affines@) =~= pair_views(pre) + seq![(qa.v(), pa.v())]);
                }
            },
            _ => {
            },
        }
        proof {
            let sub1 = pairs@.subrange(0, (k + 1) as int);
            assert(sub1.drop_last() =~= pairs@.subrange(0, k as int));
            assert(sub1.last() == pairs@[k as int]);
        }
        k += 1;
    }
    proof {
        assert(pairs@.subrange(0, pairs@.len() as int) =~= pairs@);
    }
    affines
}

/// The product of pairings over at most sixteen pairs, sharing one
/// final exponentiation; pairs with an identity member contribute the
/// unit and are skipped, and the empty product is the unit.
pub fn pairing_batch(pairs: &[(G1, G2)]) -> (r: Gt)
    requires
        pairs@.len() <= 16,
    ensures
        r.v() == ({
            let af = batch_affines(pairs@);
            if af.len() == 0 {
                f12_one()
            } else {
                match f12_final_exp(miller_batch_spec(af)) {
                    Some(v) => v,
                    None => f12_one(),
                }
            }
        }),
{
    let affines = collect_batch_affines(pairs);
    if affines.len() == 0 {
        return Gt::one();
    }
    let f = miller_loop_affine(&affines);
    match final_exp_fq12(&f) {
        Some(g) => Gt { f: g },
        None => Gt::one(),
    }
}


/// The coordinate views of a decoded pair vector.
pub open spec fn decoded_views(s: Seq<(G1, G2)>) -> Seq<((nat, nat, nat), ((nat, nat), (nat, nat), (nat, nat)))> {
    s.map(|i: int, pr: (G1, G2)| (pr.0.v(), pr.1.v()))
}

/// The affine views of a (G2, G1) pair vector, defined where every
/// member has an affine form.
pub open spec fn miller_batch_views(pairs: Seq<(G2, G1)>) -> Seq<(((nat, nat), (nat, nat)), (nat, nat))> {
    Seq::new(pairs.len(), |i: int| (g2_to_affine(pairs[i].0.v())->0, g1_to_affine(pairs[i].1.v())->0))
}

/// The raw batched Miller loop without the final exponentiation; an
/// identity member in any pair is a conversion error, and those are
/// the only errors.
pub fn miller_loop_batch(pairs: &[(G2, G1)]) -> (r: Result<Gt, CurveError>)
    requires
        pairs@.len() <= 16,
    ensures
        r is Err ==> (r == Err::<Gt, CurveError>(CurveError::ToAffineConversion)
            && exists|i: int| 0 <= i < pairs@.len()
                && (g2_to_affine(pairs@[i].0.v()) is None || g1_to_affine(pairs@[i].1.v()) is None)),
        (exists|i: int| 0 <= i < pairs@.len()
            && (g2_to_affine(#[trigger] pairs@[i].0.v()) is None
                || g1_to_affine(pairs@[i].1.v()) is None)) ==> r is Err,
        r is Ok ==> r->Ok_0.v() == miller_batch_spec(miller_batch_views(pairs@)),
{
    let mut affines: Vec<(AffineG2, AffineG1)> = Vec::new();
    let mut k: usize = 0;
    while k < pairs.len()
        invariant
            0 <= k <= pairs@.len(),
            affines@.len() == k,
            forall|j: int| 0 <= j < k ==> g2_to_affine(#[trigger] pairs@[j].0.v()) is Some
                && g1_to_affine(pairs@[j].1.v()) is Some,
            forall|j: int| 0 <= j < k ==> (#[trigger] affines@[j]).0.v()
                == g2_to_affine(pairs@[j].0.v())->0
                && affines@[j].1.v() == g1_to_affine(pairs@[j].1.v())->0,
        decreases pairs@.len() - k,
    {
        let (q, p) = pairs[k];
        let qa = match q.to_affine() {
            None => {
                proof {
                    assert(g2_to_affine(pairs@[k as int].0.v()) is None);
                }
                return Err(CurveError::ToAffineConversion);
            },
            Some(a) => a,
        };
        let pa = match p.to_affine() {
            None => {
                proof {
                    assert(g1_to_affine(pairs@[k as int].1.v()) is None);
                }
                return Err(CurveError::ToAffineConversion);
            },
            Some(a) => a,
        };
        affines.push((qa, pa));
        k += 1;
    }
    proof {
        assert(forall|j: int| 0 <= j < affines@.len() ==> #[trigger] pair_views(affines@)[j]
            == (affines@[j].0.v(), affines@[j].1.v()));
        assert(pair_views(affines@) =~= miller_batch_views(pairs@));
    }
    Ok(Gt { f: miller_loop_affine(&affines) })
}

} // verus!
