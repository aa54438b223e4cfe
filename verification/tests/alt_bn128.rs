use alt_bn128::arith::U256;
use alt_bn128::ethereum::{alt_bn128_add, alt_bn128_mul, alt_bn128_pairing, decode_g1, encode_g1};
use alt_bn128::{AffineG1, AffineG2, CurveError, FieldError, Fq, Fq2, Fr, G1, G2};
use alt_bn128::{miller_loop_batch, pairing, pairing_batch, Gt};

fn be32(v: u64) -> Vec<u8> {
    let mut b = vec![0u8; 32];
    b[24..32].copy_from_slice(&v.to_be_bytes());
    b
}

fn fq(v: u64) -> Fq {
    Fq::from_slice(&be32(v)).unwrap()
}

fn fr(v: u64) -> Fr {
    Fr::from_slice(&be32(v)).unwrap()
}

fn fq_bytes(a: &Fq) -> Vec<u8> {
    a.into_u256().to_be_bytes()
}

/// c1 * q + c0 over big-endian byte strings, the 64-byte compressed
/// G2 x-coordinate form.
fn mul_add_bytes(c1: &[u8], q: &[u8], c0: &[u8]) -> Vec<u8> {
    let mut cells = vec![0u64; 64];
    for i in (0..32).rev() {
        for j in (0..32).rev() {
            let p = (c1[i] as u64) * (q[j] as u64);
            let pos = i + j + 1;
            cells[pos] += p & 0xff;
            cells[pos - 1] += p >> 8;
        }
    }
    for i in (0..32).rev() {
        cells[i + 32] += c0[i] as u64;
    }
    for i in (1..64).rev() {
        let carry = cells[i] >> 8;
        cells[i] &= 0xff;
        cells[i - 1] += carry;
    }
    cells.iter().map(|&c| c as u8).collect()
}

#[test]
fn fq_add_neg_is_zero() {
    let a = fq(12345);
    assert!(a.add(&a.neg()).is_zero());
    assert!(Fq::zero().add(&Fq::zero().neg()).is_zero());
}

#[test]
fn fq_mul_one_is_identity() {
    let a = fq(987654321);
    let b = a.mul(&Fq::one());
    assert_eq!(fq_bytes(&b), fq_bytes(&a));
}

#[test]
fn fq_inverse_of_two() {
    let a = fq(2);
    let inv = a.inverse().unwrap();
    let prod = inv.mul(&a);
    let mut out = vec![0u8; 32];
    prod.to_big_endian(&mut out).unwrap();
    let mut expected = vec![0u8; 32];
    expected[31] = 1;
    assert_eq!(out, expected);
}

#[test]
fn fq_sqrt_of_square() {
    let a = fq(7);
    let sq = a.mul(&a);
    let s = sq.sqrt().unwrap();
    assert_eq!(fq_bytes(&s.mul(&s)), fq_bytes(&sq));
}

#[test]
fn fq_from_slice_rejects_bad_length() {
    match Fq::from_slice(&[0u8; 31]) {
        Err(FieldError::InvalidSliceLength) => {}
        _ => panic!("expected a length error"),
    }
}

#[test]
fn fq_from_slice_rejects_modulus() {
    let qb = Fq::modulus().to_be_bytes();
    match Fq::from_slice(&qb) {
        Err(FieldError::NotMember) => {}
        _ => panic!("expected a membership error"),
    }
}

#[test]
fn fr_from_slice_reduces_modulus_to_zero() {
    // the scalar order r, built as (r - 1) + 1 at the byte level
    let rm1 = Fr::zero().sub(&Fr::one());
    let mut rb = rm1.into_u256().to_be_bytes();
    assert_eq!(rb[31], 0x00);
    rb[31] = 0x01;
    let s = Fr::from_slice(&rb).unwrap();
    assert!(s.is_zero());
}

#[test]
fn fr_to_big_endian_roundtrips() {
    let x = fr(123456789);
    let mut out = vec![0u8; 32];
    x.to_big_endian(&mut out).unwrap();
    assert_eq!(out, be32(123456789));
    let back = Fr::from_slice(&out).unwrap();
    assert_eq!(back.into_u256().to_be_bytes(), x.into_u256().to_be_bytes());
    match x.to_big_endian(&mut vec![0u8; 31]) {
        Err(FieldError::InvalidSliceLength) => {}
        _ => panic!("expected a length error"),
    }
}

#[test]
fn fr_set_bit_sets_value() {
    let mut x = Fr::zero();
    x.set_bit(3, true);
    assert_eq!(x.into_u256().to_be_bytes(), be32(8));
    x.set_bit(3, false);
    assert!(x.is_zero());
}

#[test]
fn fr_interpret_reduces_wide_input() {
    let mut buf = [0u8; 64];
    buf[63] = 9;
    let x = Fr::interpret(&buf);
    assert_eq!(x.into_u256().to_be_bytes(), be32(9));
}

#[test]
fn u256_bytes_and_bits() {
    let mut b = vec![0u8; 32];
    b[31] = 2;
    let v = U256::from_slice(&b).unwrap();
    assert_eq!(v.get_bit(1), Some(true));
    assert_eq!(v.get_bit(0), Some(false));
    assert_eq!(v.get_bit(256), None);
    assert_eq!(v.to_be_bytes(), b);
    assert!(U256::from_slice(&[0u8; 33]).is_none());
}

#[test]
fn fq2_imaginary_unit_squares_to_minus_one() {
    let i = Fq2::i();
    let sq = i.mul(&i);
    let minus_one = Fq2::new(Fq::one().neg(), Fq::zero());
    assert_eq!(fq_bytes(&sq.real_part()), fq_bytes(&minus_one.real_part()));
    assert_eq!(fq_bytes(&sq.imaginary()), fq_bytes(&minus_one.imaginary()));
}

#[test]
fn fq2_sqrt_of_square() {
    let a = Fq2::new(fq(3), fq(11));
    let sq = a.mul(&a);
    let s = sq.sqrt().unwrap();
    let ss = s.mul(&s);
    assert_eq!(fq_bytes(&ss.real_part()), fq_bytes(&sq.real_part()));
    assert_eq!(fq_bytes(&ss.imaginary()), fq_bytes(&sq.imaginary()));
}

#[test]
fn fq2_from_slice_small_value() {
    let mut b = vec![0u8; 64];
    b[63] = 5;
    let v = Fq2::from_slice(&b).unwrap();
    assert_eq!(fq_bytes(&v.real_part()), be32(5));
    assert!(v.imaginary().is_zero());
    match Fq2::from_slice(&[0u8; 63]) {
        Err(FieldError::InvalidU512Encoding) => {}
        _ => panic!("expected an encoding error"),
    }
}

#[test]
fn g1_generator_is_on_curve() {
    assert!(AffineG1::new(fq(1), fq(2)).is_ok());
    assert!(AffineG1::new(fq(1), fq(3)).is_err());
}

#[test]
fn g1_two_g_minus_g_is_g() {
    let g = G1::one();
    let two_g = g.add(&g);
    let mut d = two_g.sub(&g);
    d.normalize();
    let mut gg = g;
    gg.normalize();
    assert_eq!(d, gg);
}

#[test]
fn g1_order_annihilates_generator() {
    let g = G1::one();
    let rm1 = Fr::zero().sub(&Fr::one());
    let sum = g.mul(rm1).add(&g);
    assert!(sum.is_zero());
    assert_eq!(encode_g1(&sum), vec![0u8; 64]);
}

#[test]
fn g1_compressed_decodes_both_parities() {
    let mut even = vec![2u8];
    even.extend_from_slice(&be32(1));
    let p = G1::from_compressed(&even).unwrap();
    let a = AffineG1::from_jacobian(p).unwrap();
    assert_eq!(fq_bytes(&a.x()), be32(1));
    assert_eq!(fq_bytes(&a.y()), be32(2));

    let mut odd = vec![3u8];
    odd.extend_from_slice(&be32(1));
    let p2 = G1::from_compressed(&odd).unwrap();
    let a2 = AffineG1::from_jacobian(p2).unwrap();
    assert_eq!(fq_bytes(&a2.x()), be32(1));
    assert_eq!(fq_bytes(&a2.y()), fq_bytes(&fq(2).neg()));
}

#[test]
fn g1_compressed_rejects_bad_inputs() {
    match G1::from_compressed(&[0u8; 32]) {
        Err(CurveError::InvalidEncoding) => {}
        _ => panic!("expected an encoding error"),
    }
    // an unknown tag is refused whether or not x^3 + 3 has a root
    for x in [1u64, 5u64] {
        let mut bad_tag = vec![5u8];
        bad_tag.extend_from_slice(&be32(x));
        match G1::from_compressed(&bad_tag) {
            Err(CurveError::InvalidEncoding) => {}
            _ => panic!("expected an encoding error"),
        }
    }
    let mut found = false;
    for x in 2u64..20 {
        let mut enc = vec![2u8];
        enc.extend_from_slice(&be32(x));
        if let Err(e) = G1::from_compressed(&enc) {
            match e {
                CurveError::NotMember => found = true,
                _ => panic!("unexpected error kind"),
            }
        }
    }
    assert!(found, "some x below 20 has no square root for x^3 + 3");
}

#[test]
fn g2_generator_passes_checks() {
    let g = G2::one();
    let a = AffineG2::from_jacobian(g).unwrap();
    assert!(AffineG2::new(a.x(), a.y()).is_ok());
}

#[test]
fn g2_order_annihilates_generator() {
    let g = G2::one();
    let rm1 = Fr::zero().sub(&Fr::one());
    let sum = g.mul(rm1).add(&g);
    assert!(sum.is_zero());
}

#[test]
fn g2_compressed_roundtrips_generator_x() {
    let g = AffineG2::from_jacobian(G2::one()).unwrap();
    let qb = Fq::modulus().to_be_bytes();
    let xb = mul_add_bytes(
        &fq_bytes(&g.x().imaginary()),
        &qb,
        &fq_bytes(&g.x().real_part()),
    );
    for tag in [10u8, 11u8] {
        let mut enc = vec![tag];
        enc.extend_from_slice(&xb);
        let p = G2::from_compressed(&enc).unwrap();
        let pa = AffineG2::from_jacobian(p).unwrap();
        assert_eq!(fq_bytes(&pa.x().real_part()), fq_bytes(&g.x().real_part()));
        assert_eq!(fq_bytes(&pa.x().imaginary()), fq_bytes(&g.x().imaginary()));
    }
    let mut bad = vec![7u8];
    bad.extend_from_slice(&xb);
    match G2::from_compressed(&bad) {
        Err(CurveError::InvalidEncoding) => {}
        _ => panic!("expected an encoding error"),
    }
    match G2::from_compressed(&xb) {
        Err(CurveError::InvalidEncoding) => {}
        _ => panic!("expected an encoding error"),
    }
}

#[test]
fn pairing_check_empty_input_is_true() {
    assert_eq!(alt_bn128_pairing(&[]).unwrap(), true);
    match alt_bn128_pairing(&[0u8; 100]) {
        Err(CurveError::InvalidEncoding) => {}
        _ => panic!("expected an encoding error"),
    }
}

fn g2_uncompressed_bytes(p: &G2) -> Vec<u8> {
    let a = AffineG2::from_jacobian(*p).unwrap();
    let mut out = Vec::new();
    out.extend_from_slice(&fq_bytes(&a.x().imaginary()));
    out.extend_from_slice(&fq_bytes(&a.x().real_part()));
    out.extend_from_slice(&fq_bytes(&a.y().imaginary()));
    out.extend_from_slice(&fq_bytes(&a.y().real_part()));
    out
}

#[test]
fn pairing_check_negated_pair_is_true() {
    let g = G1::one();
    let h = G2::one();
    let mut input = Vec::new();
    input.extend_from_slice(&encode_g1(&g));
    input.extend_from_slice(&g2_uncompressed_bytes(&h));
    input.extend_from_slice(&encode_g1(&g.neg()));
    input.extend_from_slice(&g2_uncompressed_bytes(&h));
    assert_eq!(alt_bn128_pairing(&input).unwrap(), true);
}

#[test]
fn pairing_batch_negated_pair_is_one() {
    let g = G1::one();
    let h = G2::one();
    let prod = pairing_batch(&[(g, h), (g.neg(), h)]);
    assert_eq!(prod, Gt::one());
}

#[test]
fn pairing_is_bilinear_on_small_scalars() {
    let g = G1::one();
    let h = G2::one();
    let lhs = pairing(g.mul(fr(2)), h.mul(fr(3)));
    let rhs = pairing(g, h).pow(fr(6));
    assert_eq!(lhs, rhs);
}

#[test]
fn pairing_of_identity_is_one() {
    assert_eq!(pairing(G1::zero(), G2::one()), Gt::one());
    assert_eq!(pairing(G1::one(), G2::zero()), Gt::one());
}

#[test]
fn final_exponentiation_lands_in_order_r_subgroup() {
    let t = pairing(G1::one(), G2::one());
    let rm1 = Fr::zero().sub(&Fr::one());
    assert_eq!(t.pow(rm1).mul(&t), Gt::one());
}

#[test]
fn miller_loop_batch_matches_pairing() {
    let g = G1::one();
    let h = G2::one();
    let raw = miller_loop_batch(&[(h, g)]).unwrap();
    let finished = raw.final_exponentiation().unwrap();
    assert_eq!(finished, pairing(g, h));
    match miller_loop_batch(&[(G2::zero(), g)]) {
        Err(CurveError::ToAffineConversion) => {}
        _ => panic!("expected a conversion error"),
    }
}

#[test]
fn eip196_add_and_mul_agree() {
    let g = G1::one();
    let mut add_input = Vec::new();
    add_input.extend_from_slice(&encode_g1(&g));
    add_input.extend_from_slice(&encode_g1(&g));
    let doubled = alt_bn128_add(&add_input).unwrap();

    let mut mul_input = Vec::new();
    mul_input.extend_from_slice(&encode_g1(&g));
    mul_input.extend_from_slice(&be32(2));
    let doubled2 = alt_bn128_mul(&mul_input).unwrap();
    assert_eq!(doubled, doubled2);

    match alt_bn128_add(&[0u8; 10]) {
        Err(CurveError::InvalidEncoding) => {}
        _ => panic!("expected an encoding error"),
    }
    match alt_bn128_mul(&[0u8; 10]) {
        Err(CurveError::InvalidEncoding) => {}
        _ => panic!("expected an encoding error"),
    }
}

#[test]
fn g1_uncompressed_decode_cases() {
    assert!(decode_g1(&[0u8; 64]).unwrap().is_zero());
    let mut off_curve = Vec::new();
    off_curve.extend_from_slice(&be32(1));
    off_curve.extend_from_slice(&be32(3));
    match decode_g1(&off_curve) {
        Err(CurveError::NotMember) => {}
        _ => panic!("expected a membership error"),
    }
    let mut big = Fq::modulus().to_be_bytes();
    big.extend_from_slice(&be32(2));
    match decode_g1(&big) {
        Err(CurveError::Field(FieldError::NotMember)) => {}
        _ => panic!("expected a field membership error"),
    }
    let mut good = Vec::new();
    good.extend_from_slice(&be32(1));
    good.extend_from_slice(&be32(2));
    let p = decode_g1(&good).unwrap();
    assert_eq!(encode_g1(&p), good);
}

#[test]
fn fq_interpret_reduces_wide_input() {
    let mut buf = [0u8; 64];
    buf[63] = 7;
    let x = Fq::interpret(&buf);
    assert_eq!(fq_bytes(&x), be32(7));
}

#[test]
fn fq_from_str_reduces_and_rejects() {
    // q + 1 written in decimal reduces to one
    let v = Fq::from_str(
        "21888242871839275222246405745257275088696311157297823662689037894645226208584",
    )
    .unwrap();
    assert_eq!(fq_bytes(&v), be32(1));
    assert!(Fq::from_str("12a").is_none());
    assert!(Fq::from_str("").unwrap().is_zero());
    assert_eq!(fq_bytes(&Fq::from_str("42").unwrap()), be32(42));
}

#[test]
fn fr_from_str_matches_order() {
    // r written in decimal reduces to zero
    let v = Fr::from_str(
        "21888242871839275222246405745257275088548364400416034343698204186575808495617",
    )
    .unwrap();
    assert!(v.is_zero());
}

#[test]
fn g2_generator_matches_decimal_constants() {
    let a = AffineG2::from_jacobian(G2::one()).unwrap();
    let xr = Fq::from_str(
        "10857046999023057135944570762232829481370756359578518086990519993285655852781",
    )
    .unwrap();
    let xi = Fq::from_str(
        "11559732032986387107991004021392285783925812861821192530917403151452391805634",
    )
    .unwrap();
    let yr = Fq::from_str(
        "8495653923123431417604973247489272438418190587263600148770280649306958101930",
    )
    .unwrap();
    let yi = Fq::from_str(
        "4082367875863433681332203403145435568316851327593401208105741076214120093531",
    )
    .unwrap();
    assert_eq!(fq_bytes(&a.x().real_part()), fq_bytes(&xr));
    assert_eq!(fq_bytes(&a.x().imaginary()), fq_bytes(&xi));
    assert_eq!(fq_bytes(&a.y().real_part()), fq_bytes(&yr));
    assert_eq!(fq_bytes(&a.y().imaginary()), fq_bytes(&yi));
}

#[test]
fn pairing_check_reports_first_decode_error() {
    // one chunk whose G1 part is off curve
    let mut input = Vec::new();
    input.extend_from_slice(&be32(1));
    input.extend_from_slice(&be32(3));
    input.extend_from_slice(&g2_uncompressed_bytes(&G2::one()));
    match alt_bn128_pairing(&input) {
        Err(CurveError::NotMember) => {}
        _ => panic!("expected a membership error"),
    }
}
