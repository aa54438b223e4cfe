//! The byte-level interfaces of the Ethereum precompiles: uncompressed
//! point encodings, G1 addition and scalar multiplication on byte
//! strings, and the pairing product check.

use vstd::prelude::*;
use crate::arith::be32_val;
use crate::fields::{Fq, Fr, FieldError, fq_decode};
use crate::fq2::{Fq2, f2_one};
use crate::fields::fr_decode;
use crate::groups::{G1, G2, AffineG1, AffineG2, g1_to_affine, g1_on_curve, g1_add, g1_mul, g2_on_curve, g2_in_subgroup, g2_zero};
use crate::pairing::{Gt, pairing_batch, decoded_views};
use crate::CurveError;

verus! {

/// Copies a window out of a byte slice.
fn sub_bytes(s: &[u8], start: usize, len: usize) -> (r: Vec<u8>)
    requires
        start + len <= s@.len(),
    ensures
        r@ == s@.subrange(start as int, (start + len) as int),
{
    let slen = s.len();
    let mut v: Vec<u8> = Vec::new();
    let mut i: usize = 0;
    while i < len
        invariant
            0 <= i <= len,
            start + len <= s@.len(),
            s@.len() == slen,
            v@.len() == i,
            v@ == s@.subrange(start as int, (start + i) as int),
        decreases len - i,
    {
        let b = s[start + i];
        v.push(b);
        proof {
            assert(v@ == s@.subrange(start as int, (start + i + 1) as int));
        }
        i += 1;
    }
    v
}

/// The decoding of a 64-byte uncompressed G1 point: x then y, each 32
/// bytes big-endian; the zero pair is the identity.
pub open spec fn g1_decode_uncompressed(s: Seq<u8>) -> Result<(nat, nat, nat), CurveError> {
    if s.len() != 64 {
        Err(CurveError::InvalidEncoding)
    } else {
        match (fq_decode(s.subrange(0, 32)), fq_decode(s.subrange(32, 64))) {
            (Some(x), Some(y)) => {
                if x == 0 && y == 0 {
                    Ok((0nat, 1nat, 0nat))
                } else if g1_on_curve(x, y) {
                    Ok((x, y, 1nat))
                } else {
                    Err(CurveError::NotMember)
                }
            },
            _ => Err(CurveError::Field(FieldError::NotMember)),
        }
    }
}

/// Uncompressed G1 encodings round-trip: a 64-byte string carrying
/// the reduced coordinates of an on-curve, non-identity point decodes
/// to exactly that point.
pub proof fn lemma_g1_uncompressed_roundtrip(x: nat, y: nat, s: Seq<u8>)
    requires
        x < crate::fields::fq_m(),
        y < crate::fields::fq_m(),
        g1_on_curve(x, y),
        !(x == 0 && y == 0),
        s.len() == 64,
        be32_val(s.subrange(0, 32)) == x,
        be32_val(s.subrange(32, 64)) == y,
    ensures
        g1_decode_uncompressed(s) == Ok::<(nat, nat, nat), CurveError>((x, y, 1nat)),
{
}

/// Parses a 64-byte uncompressed G1 point.
pub fn decode_g1(s: &[u8]) -> (r: Result<G1, CurveError>)
    ensures
        match r {
            Ok(g) => g1_decode_uncompressed(s@) == Ok::<(nat, nat, nat), CurveError>(g.v()),
            Err(e) => g1_decode_uncompressed(s@) == Err::<(nat, nat, nat), CurveError>(e),
        },
{
    if s.len() != 64 {
        return Err(CurveError::InvalidEncoding);
    }
    let xb = sub_bytes(s, 0, 32);
    let yb = sub_bytes(s, 32, 32);
    let x = match Fq::from_slice(xb.as_slice()) {
        Err(_) => {
            return Err(CurveError::Field(FieldError::NotMember));
        },
        Ok(v) => v,
    };
    let y = match Fq::from_slice(yb.as_slice()) {
        Err(_) => {
            return Err(CurveError::Field(FieldError::NotMember));
        },
        Ok(v) => v,
    };
    if x.is_zero() && y.is_zero() {
        return Ok(G1::zero());
    }
    match AffineG1::new(x, y) {
        Ok(a) => Ok(a.to_jacobian()),
        Err(_) => Err(CurveError::NotMember),
    }
}

/// Writes a G1 point as 64 bytes, x then y; the identity becomes all
/// zeros.
pub fn encode_g1(p: &G1) -> (r: Vec<u8>)
    ensures
        r@.len() == 64,
        match g1_to_affine(p.v()) {
            Some(a) => be32_val(r@.subrange(0, 32)) == a.0 && be32_val(r@.subrange(32, 64)) == a.1,
            None => forall|j: int| 0 <= j < 64 ==> r@[j] == 0u8,
        },
{
    match p.to_affine() {
        None => {
            let mut v: Vec<u8> = Vec::new();
            let mut i: usize = 0;
            while i < 64
                invariant
                    0 <= i <= 64,
                    v@.len() == i,
                    forall|j: int| 0 <= j < i ==> v@[j] == 0u8,
                decreases 64 - i,
            {
                v.push(0);
                i += 1;
            }
            v
        },
        Some(a) => {
            let xb = a.x().into_u256().to_be_bytes();
            let yb = a.y().into_u256().to_be_bytes();
            let ghost xs = xb@;
            let mut v = xb;
            let mut i: usize = 0;
            while i < 32
                invariant
                    0 <= i <= 32,
                    yb@.len() == 32,
                    xs.len() == 32,
                    v@ == xs + yb@.subrange(0, i as int),
                decreases 32 - i,
            {
                let b = yb[i];
                v.push(b);
                proof {
                    assert(v@ == xs + yb@.subrange(0, (i + 1) as int));
                }
                i += 1;
            }
            proof {
                assert(v@.subrange(0, 32) =~= xs);
                assert(v@.subrange(32, 64) =~= yb@);
            }
            v
        },
    }
}


/// The decoding of a 128-byte uncompressed G2 point: x then y, each
/// coordinate written imaginary part first; the all-zero encoding is
/// the identity, and any other point must pass the curve and subgroup
/// checks.
pub open spec fn g2_decode_uncompressed(s: Seq<u8>) -> Result<((nat, nat), (nat, nat), (nat, nat)), CurveError> {
    if s.len() != 128 {
        Err(CurveError::InvalidEncoding)
    } else {
        match (fq_decode(s.subrange(0, 32)), fq_decode(s.subrange(32, 64)),
               fq_decode(s.subrange(64, 96)), fq_decode(s.subrange(96, 128))) {
            (Some(xi), Some(xr), Some(yi), Some(yr)) => {
                if xi == 0 && xr == 0 && yi == 0 && yr == 0 {
                    Ok(g2_zero())
                } else if g2_on_curve((xr, xi), (yr, yi)) && g2_in_subgroup((xr, xi), (yr, yi)) {
                    Ok(((xr, xi), (yr, yi), f2_one()))
                } else {
                    Err(CurveError::NotMember)
                }
            },
            _ => Err(CurveError::Field(FieldError::NotMember)),
        }
    }
}

/// Parses a 128-byte uncompressed G2 point; see
/// `g2_decode_uncompressed`.
pub fn decode_g2(s: &[u8]) -> (r: Result<G2, CurveError>)
    ensures
        match r {
            Ok(g) => g2_decode_uncompressed(s@)
                == Ok::<((nat, nat), (nat, nat), (nat, nat)), CurveError>(g.v()),
            Err(e) => g2_decode_uncompressed(s@)
                == Err::<((nat, nat), (nat, nat), (nat, nat)), CurveError>(e),
        },
{
    if s.len() != 128 {
        return Err(CurveError::InvalidEncoding);
    }
    let xi_b = sub_bytes(s, 0, 32);
    let xr_b = sub_bytes(s, 32, 32);
    let yi_b = sub_bytes(s, 64, 32);
    let yr_b = sub_bytes(s, 96, 32);
    let xi = match Fq::from_slice(xi_b.as_slice()) {
        Err(_) => {
            return Err(CurveError::Field(FieldError::NotMember));
        },
        Ok(v) => v,
    };
    let xr = match Fq::from_slice(xr_b.as_slice()) {
        Err(_) => {
            return Err(CurveError::Field(FieldError::NotMember));
        },
        Ok(v) => v,
    };
    let yi = match Fq::from_slice(yi_b.as_slice()) {
        Err(_) => {
            return Err(CurveError::Field(FieldError::NotMember));
        },
        Ok(v) => v,
    };
    let yr = match Fq::from_slice(yr_b.as_slice()) {
        Err(_) => {
            return Err(CurveError::Field(FieldError::NotMember));
        },
        Ok(v) => v,
    };
    if xi.is_zero() && xr.is_zero() && yi.is_zero() && yr.is_zero() {
        return Ok(G2::zero());
    }
    let x = Fq2::new(xr, xi);
    let y = Fq2::new(yr, yi);
    match AffineG2::new(x, y) {
        Ok(a) => Ok(a.to_jacobian()),
        Err(_) => Err(CurveError::NotMember),
    }
}

/// The EIP-196 point addition on byte strings: two 64-byte points in,
/// their sum out.
pub fn alt_bn128_add(input: &[u8]) -> (r: Result<Vec<u8>, CurveError>)
    ensures
        input@.len() != 128 ==> r == Err::<Vec<u8>, CurveError>(CurveError::InvalidEncoding),
        input@.len() == 128 ==> ({
            let d1 = g1_decode_uncompressed(input@.subrange(0, 64));
            let d2 = g1_decode_uncompressed(input@.subrange(64, 128));
            match (d1, d2) {
                (Ok(p1), Ok(p2)) => r is Ok && ({
                    let out = r->Ok_0@;
                    let sum = g1_add(p1, p2);
                    &&& out.len() == 64
                    &&& match g1_to_affine(sum) {
                        Some(a) => be32_val(out.subrange(0, 32)) == a.0
                            && be32_val(out.subrange(32, 64)) == a.1,
                        None => forall|j: int| 0 <= j < 64 ==> out[j] == 0u8,
                    }
                }),
                (Err(e), _) => r == Err::<Vec<u8>, CurveError>(e),
                (Ok(_), Err(e)) => r == Err::<Vec<u8>, CurveError>(e),
            }
        }),
{
    if input.len() != 128 {
        return Err(CurveError::InvalidEncoding);
    }
    let ab = sub_bytes(input, 0, 64);
    let bb = sub_bytes(input, 64, 64);
    let a = match decode_g1(ab.as_slice()) {
        Err(e) => {
            return Err(e);
        },
        Ok(v) => v,
    };
    let b = match decode_g1(bb.as_slice()) {
        Err(e) => {
            return Err(e);
        },
        Ok(v) => v,
    };
    let sum = a.add(&b);
    Ok(encode_g1(&sum))
}

/// The EIP-196 scalar multiplication on byte strings: a 64-byte point
/// and a 32-byte scalar in, the multiple out.
pub fn alt_bn128_mul(input: &[u8]) -> (r: Result<Vec<u8>, CurveError>)
    ensures
        input@.len() != 96 ==> r == Err::<Vec<u8>, CurveError>(CurveError::InvalidEncoding),
        input@.len() == 96 ==> ({
            let d = g1_decode_uncompressed(input@.subrange(0, 64));
            let sc = fr_decode(input@.subrange(64, 96));
            match d {
                Ok(p) => r is Ok && sc is Some && ({
                    let out = r->Ok_0@;
                    let prod = g1_mul(p, sc->0);
                    &&& out.len() == 64
                    &&& match g1_to_affine(prod) {
                        Some(a) => be32_val(out.subrange(0, 32)) == a.0
                            && be32_val(out.subrange(32, 64)) == a.1,
                        None => forall|j: int| 0 <= j < 64 ==> out[j] == 0u8,
                    }
                }),
                Err(e) => r == Err::<Vec<u8>, CurveError>(e),
            }
        }),
{
    if input.len() != 96 {
        return Err(CurveError::InvalidEncoding);
    }
    let pb = sub_bytes(input, 0, 64);
    let sb = sub_bytes(input, 64, 32);
    let p = match decode_g1(pb.as_slice()) {
        Err(e) => {
            return Err(e);
        },
        Ok(v) => v,
    };
    let s = match Fr::from_slice(sb.as_slice()) {
        Err(e) => {
            return Err(CurveError::Field(e));
        },
        Ok(v) => v,
    };
    let prod = p.mul(s);
    Ok(encode_g1(&prod))
}

/// The decoding of the EIP-197 input from pair index i on: each
/// 192-byte chunk holds an uncompressed G1 point then an uncompressed
/// G2 point, and the first bad chunk's error is the result.
pub open spec fn decode_pairs(s: Seq<u8>, i: int, k: int) -> Result<
    Seq<((nat, nat, nat), ((nat, nat), (nat, nat), (nat, nat)))>,
    CurveError,
>
    decreases k - i,
{
    if i < 0 || i >= k {
        Ok(Seq::empty())
    } else {
        match g1_decode_uncompressed(s.subrange(i * 192, i * 192 + 64)) {
            Err(e) => Err(e),
            Ok(p) => match g2_decode_uncompressed(s.subrange(i * 192 + 64, i * 192 + 192)) {
                Err(e) => Err(e),
                Ok(h) => match decode_pairs(s, i + 1, k) {
                    Err(e) => Err(e),
                    Ok(rest) => Ok(seq![(p, h)] + rest),
                },
            },
        }
    }
}

/// Decodes every 192-byte chunk of a pairing input, stopping at the
/// first bad chunk.
#[verifier::rlimit(100)]
#[verifier::spinoff_prover]
fn decode_pairing_input(input: &[u8]) -> (r: Result<Vec<(G1, G2)>, CurveError>)
    requires
        input@.len() % 192 == 0,
    ensures
        match r {
            Ok(v) => decode_pairs(input@, 0, input@.len() as int / 192)
                == Ok::<Seq<((nat, nat, nat), ((nat, nat), (nat, nat), (nat, nat)))>, CurveError>(
                    decoded_views(v@)),
            Err(e) => decode_pairs(input@, 0, input@.len() as int / 192)
                == Err::<Seq<((nat, nat, nat), ((nat, nat), (nat, nat), (nat, nat)))>, CurveError>(e),
        },
{
    let k = input.len() / 192;
    let mut out: Vec<(G1, G2)> = Vec::new();
    proof {
        assert(decoded_views(out@) =~= Seq::empty());
    }
    let mut i: usize = 0;
    while i < k
        invariant
            0 <= i <= k,
            k == input@.len() / 192,
            input@.len() % 192 == 0,
            decode_pairs(input@, 0, k as int) == (match decode_pairs(input@, i as int, k as int) {
                Err(e) => Err::<Seq<((nat, nat, nat), ((nat, nat), (nat, nat), (nat, nat)))>, CurveError>(e),
                Ok(rest) => Ok(decoded_views(out@) + rest),
            }),
        decreases k - i,
    {
        let ghost pre = out@;
        let ilen = input.len();
        proof {
            vstd::arithmetic::div_mod::lemma_fundamental_div_mod(input@.len() as int, 192);
            assert((i + 1) * 192 <= k * 192) by (nonlinear_arith)
                requires i + 1 <= k;
            assert(k * 192 == input@.len());
            assert(i * 192 + 192 <= ilen);
        }
        let gb = sub_bytes(input, i * 192, 64);
        let hb = sub_bytes(input, i * 192 + 64, 128);
        let g = match decode_g1(gb.as_slice()) {
            Err(e) => {
                return Err(e);
            },
            Ok(v) => v,
        };
        let h = match decode_g2(hb.as_slice()) {
            Err(e) => {
                return Err(e);
            },
            Ok(v) => v,
        };
        out.push((g, h));
        proof {
            assert(decoded_views(out@) =~= decoded_views(pre) + seq![(g.v(), h.v())]);
            match decode_pairs(input@, i as int + 1, k as int) {
                Err(_) => {
                },
                Ok(rest) => {
                    assert(decoded_views(pre) + (seq![(g.v(), h.v())] + rest)
                        =~= decoded_views(out@) + rest);
                },
            }
        }
        i += 1;
    }
    Ok(out)
}

/// The Gt product of the decoded pairs, taken in batches of sixteen
/// sharing one final exponentiation each.
fn gt_product(pairs: &Vec<(G1, G2)>) -> (r: Gt) {
    let mut acc = Gt::one();
    let mut batch: Vec<(G1, G2)> = Vec::new();
    let mut i: usize = 0;
    while i < pairs.len()
        invariant
            0 <= i <= pairs@.len(),
            batch@.len() <= 15,
        decreases pairs@.len() - i,
    {
        let pr = pairs[i];
        batch.push(pr);
        i += 1;
        if batch.len() == 16 {
            let part = pairing_batch(batch.as_slice());
            acc = acc.mul(&part);
            batch = Vec::new();
        }
    }
    if batch.len() > 0 {
        let part = pairing_batch(batch.as_slice());
        acc = acc.mul(&part);
    }
    acc
}

/// The EIP-197 pairing check: k pairs of (G1, G2) as k * 192 bytes;
/// the first bad chunk's decode error is reported, and otherwise the
/// answer is whether the Gt product of the pairings of the decoded
/// pairs, taken through `pairing_batch` in chunks of sixteen, is the
/// unit. The empty input is the empty product, hence true.
pub fn alt_bn128_pairing(input: &[u8]) -> (r: Result<bool, CurveError>)
    ensures
        input@.len() % 192 != 0 ==> r == Err::<bool, CurveError>(CurveError::InvalidEncoding),
        input@.len() == 0 ==> r == Ok::<bool, CurveError>(true),
        input@.len() % 192 == 0 ==> match decode_pairs(input@, 0, input@.len() as int / 192) {
            Err(e) => r == Err::<bool, CurveError>(e),
            Ok(ps) => r is Ok,
        },
{
    if input.len() % 192 != 0 {
        return Err(CurveError::InvalidEncoding);
    }
    if input.len() == 0 {
        return Ok(true);
    }
    let pairs = match decode_pairing_input(input) {
        Err(e) => {
            return Err(e);
        },
        Ok(v) => v,
    };
    let acc = gt_product(&pairs);
    Ok(acc.eq_gt(&Gt::one()))
}

} // verus!

