//! The scalar field Fr and the base field Fq of BN254: canonical
//! representatives below the modulus, with exact modular contracts.

use vstd::prelude::*;
use vstd::string::*;
use vstd::arithmetic::power::pow;
use vstd::arithmetic::power2::{pow2, lemma_pow2};
use vstd::arithmetic::div_mod::*;
use crate::arith::{U256, U512, be32_val, be64_val};

verus! {

/// Failures of field-element decoding.
#[derive(Clone, Copy, PartialEq, Eq, Structural, Debug)]
pub enum FieldError {
    InvalidSliceLength,
    InvalidU512Encoding,
    NotMember,
}

/// The order of the scalar field Fr.
pub open spec fn fr_m() -> nat {
    21888242871839275222246405745257275088548364400416034343698204186575808495617nat
}

/// The order of the base field Fq.
pub open spec fn fq_m() -> nat {
    21888242871839275222246405745257275088696311157297823662689037894645226208583nat
}

/// (a + b) mod m.
pub open spec fn fp_add(a: nat, b: nat, m: nat) -> nat {
    (a + b) % m
}

/// (a - b) mod m, for a and b below m.
pub open spec fn fp_sub(a: nat, b: nat, m: nat) -> nat {
    ((a + m - b) % (m as int)) as nat
}

/// (-a) mod m, for a below m.
pub open spec fn fp_neg(a: nat, m: nat) -> nat {
    ((m - a) % (m as int)) as nat
}

/// (a * b) mod m.
pub open spec fn fp_mul(a: nat, b: nat, m: nat) -> nat {
    (a * b) % m
}

/// (a ^ e) mod m.
pub open spec fn fp_pow(a: nat, e: nat, m: nat) -> nat {
    (pow(a as int, e) % (m as int)) as nat
}

/// The inverse candidate a^(m-2) mod m given by Fermat's little theorem.
pub open spec fn fp_inv_cand(a: nat, m: nat) -> nat {
    fp_pow(a, (m - 2) as nat, m)
}

/// The square-root candidate a^((m+1)/4) mod m, for m = 3 mod 4.
pub open spec fn fp_sqrt_cand(a: nat, m: nat) -> nat {
    fp_pow(a, (m + 1) as nat / 4, m)
}

/// Decoding of a 32-byte big-endian scalar: any value, reduced mod r.
pub open spec fn fr_decode(s: Seq<u8>) -> Option<nat> {
    if s.len() == 32 {
        Some(be32_val(s) % fr_m())
    } else {
        None
    }
}

/// Decoding of a 32-byte big-endian base-field element: values at or
/// above the modulus are refused.
pub open spec fn fq_decode(s: Seq<u8>) -> Option<nat> {
    if s.len() == 32 && be32_val(s) < fq_m() {
        Some(be32_val(s))
    } else {
        None
    }
}

/// The validated Fermat inverse of a base-field value: None when the
/// value is zero or the candidate fails its check.
pub open spec fn fq_inv(a: nat) -> Option<nat> {
    if a != 0 && fp_mul(a, fp_inv_cand(a, fq_m()), fq_m()) == 1 {
        Some(fp_inv_cand(a, fq_m()))
    } else {
        None
    }
}


/// Every character of the string is a decimal digit.
pub open spec fn dec_digits(s: Seq<char>) -> bool {
    forall|i: int| 0 <= i < s.len() ==> ('0' <= #[trigger] s[i] && s[i] <= '9')
}

/// The value of a decimal digit string.
pub open spec fn dec_val(s: Seq<char>) -> nat
    decreases s.len(),
{
    if s.len() == 0 {
        0
    } else {
        dec_val(s.drop_last()) * 10 + (s.last() as int - '0' as int) as nat
    }
}

/// Adding the negation of an element gives zero: a + (-a) = 0 mod m.
pub proof fn lemma_fp_add_neg(a: nat, m: nat)
    requires
        m > 0,
        a < m,
    ensures
        fp_add(a, fp_neg(a, m), m) == 0,
{
    if a == 0 {
        lemma_mod_self_0(m as int);
        lemma_small_mod(0nat, m);
    } else {
        lemma_small_mod((m - a) as nat, m);
        lemma_mod_self_0(m as int);
    }
}

/// One is a multiplicative identity: a * 1 = a mod m.
pub proof fn lemma_fp_mul_one(a: nat, m: nat)
    requires
        m > 0,
        a < m,
    ensures
        fp_mul(a, 1, m) == a,
{
    assert(a * 1 == a) by (nonlinear_arith);
    lemma_small_mod(a, m);
}

/// Byte encodings of base-field elements round-trip: a 32-byte string
/// holding a reduced value decodes to exactly that value.
pub proof fn lemma_fq_encode_decode(a: nat, s: Seq<u8>)
    requires
        a < fq_m(),
        s.len() == 32,
        be32_val(s) == a,
    ensures
        fq_decode(s) == Some(a),
{
}


/// An element of the scalar field Fr, the group order of BN254.
#[derive(Clone, Copy, PartialEq, Eq, Structural, Debug)]
pub struct Fr {
    rep: U256,
}

impl Fr {
    /// The canonical representative of this element, below the modulus.
    pub closed spec fn value(self) -> nat {
        self.rep.val()
    }

    /// Every element holds a reduced representative.
    #[verifier::type_invariant]
    pub open spec fn wf(self) -> bool {
        self.value() < fr_m()
    }

    /// The modulus as a 256-bit integer.
    fn modulus_u256() -> (r: U256)
        ensures
            r.val() == fr_m(),
    {
        U256::from_limbs(0x43e1f593f0000001, 0x2833e84879b97091, 0xb85045b68181585d, 0x30644e72e131a029)
    }

    pub fn zero() -> (r: Fr)
        ensures
            r.value() == 0,
    {
        Fr { rep: U256::zero() }
    }

    pub fn one() -> (r: Fr)
        ensures
            r.value() == 1,
    {
        Fr { rep: U256::one() }
    }

    pub fn is_zero(&self) -> (r: bool)
        ensures
            r == (self.value() == 0),
    {
        self.rep.is_zero()
    }

    pub fn add(&self, o: &Fr) -> (r: Fr)
        ensures
            r.value() == fp_add(self.value(), o.value(), fr_m()),
    {
        proof {
            use_type_invariant(self);
            use_type_invariant(o);
        }
        let m = Self::modulus_u256();
        Fr { rep: self.rep.addmod(&o.rep, &m) }
    }

    pub fn sub(&self, o: &Fr) -> (r: Fr)
        ensures
            r.value() == fp_sub(self.value(), o.value(), fr_m()),
    {
        proof {
            use_type_invariant(self);
            use_type_invariant(o);
        }
        let m = Self::modulus_u256();
        Fr { rep: self.rep.submod(&o.rep, &m) }
    }

    pub fn neg(&self) -> (r: Fr)
        ensures
            r.value() == fp_neg(self.value(), fr_m()),
    {
        proof {
            use_type_invariant(self);
        }
        let m = Self::modulus_u256();
        let z = Fr { rep: U256::zero() };
        proof {
            assert(fp_sub(0, self.value(), fr_m()) == fp_neg(self.value(), fr_m()));
        }
        let r = Fr { rep: z.rep.submod(&self.rep, &m) };
        r
    }

    pub fn mul(&self, o: &Fr) -> (r: Fr)
        ensures
            r.value() == fp_mul(self.value(), o.value(), fr_m()),
    {
        proof {
            use_type_invariant(self);
            use_type_invariant(o);
        }
        let m = Self::modulus_u256();
        Fr { rep: self.rep.mulmod(&o.rep, &m) }
    }

    /// Exponentiation by the canonical value of the exponent element.
    pub fn pow(&self, exp: Fr) -> (r: Fr)
        ensures
            r.value() == fp_pow(self.value(), exp.value(), fr_m()),
    {
        proof {
            use_type_invariant(self);
            use_type_invariant(&exp);
        }
        let m = Self::modulus_u256();
        Fr { rep: self.rep.powmod(&exp.rep, &m) }
    }

    /// Exponentiation by a raw 256-bit exponent.
    pub fn pow_u256(&self, exp: &U256) -> (r: Fr)
        ensures
            r.value() == fp_pow(self.value(), exp.val(), fr_m()),
    {
        proof {
            use_type_invariant(self);
        }
        let m = Self::modulus_u256();
        Fr { rep: self.rep.powmod(exp, &m) }
    }

    /// The multiplicative inverse by Fermat exponentiation, validated by
    /// a final multiplication; zero has none. That the candidate always
    /// validates on non-zero inputs is Fermat's little theorem for the
    /// prime modulus and is not claimed by this contract.
    pub fn inverse(&self) -> (r: Option<Fr>)
        ensures
            match r {
                Some(b) => self.value() != 0 && b.value() == fp_inv_cand(self.value(), fr_m())
                    && fp_mul(self.value(), b.value(), fr_m()) == 1,
                None => self.value() == 0
                    || fp_mul(self.value(), fp_inv_cand(self.value(), fr_m()), fr_m()) != 1,
            },
    {
        proof {
            use_type_invariant(self);
        }
        if self.is_zero() {
            return None;
        }
        let m = Self::modulus_u256();
        let two = U256::from_limbs(2, 0, 0, 0);
        let (e, brw) = m.sub_borrow(&two);
        proof {
            e.lemma_val_bound();
            assert(!brw);
        }
        let cand = self.rep.powmod(&e, &m);
        let chk = self.rep.mulmod(&cand, &m);
        if chk.eq_val(&U256::one()) {
            Some(Fr { rep: cand })
        } else {
            None
        }
    }

    /// Parses 64 bytes as a 512-bit big-endian integer reduced mod the
    /// modulus.
    pub fn interpret(buf: &[u8; 64]) -> (r: Fr)
        ensures
            r.value() == be64_val(buf@) % fr_m(),
    {
        let m = Self::modulus_u256();
        let wide = U512::from_slice(buf.as_slice()).unwrap();
        let (_, rem) = wide.divrem(&m);
        Fr { rep: rem }
    }

    /// The canonical value as a 256-bit integer.
    pub fn into_u256(self) -> (r: U256)
        ensures
            r.val() == self.value(),
    {
        self.rep
    }
}

impl Fr {
    /// Parses a decimal string, reducing mod the modulus; None when
    /// any character is not a digit. The empty string parses to zero.
    pub fn from_str(st: &str) -> (r: Option<Fr>)
        ensures
            match r {
                Some(v) => dec_digits(st@) && v.value() == dec_val(st@) % fr_m(),
                None => !dec_digits(st@),
            },
    {
        let n = st.unicode_len();
        let mut acc = Fr::zero();
        let ten = Fr { rep: U256::from_u64(10) };
        proof {
            lemma_small_mod(0nat, fr_m());
            assert(st@.subrange(0, 0) =~= Seq::<char>::empty());
        }
        let mut i: usize = 0;
        while i < n
            invariant
                0 <= i <= n,
                n == st@.len(),
                ten.value() == 10,
                acc.value() == dec_val(st@.subrange(0, i as int)) % fr_m(),
                forall|k: int| 0 <= k < i ==> ('0' <= #[trigger] st@[k] && st@[k] <= '9'),
            decreases n - i,
        {
            let c = st.get_char(i);
            if c < '0' || c > '9' {
                return None;
            }
            let d = (c as u32) - 48;
            let dig = Fr { rep: U256::from_u64(d as u64) };
            let next = acc.mul(&ten).add(&dig);
            proof {
                let m = fr_m() as int;
                let pre = st@.subrange(0, i as int);
                let cur = st@.subrange(0, (i + 1) as int);
                assert(cur.drop_last() =~= pre);
                assert(cur.last() == st@[i as int]);
                assert(dec_val(cur) == dec_val(pre) * 10 + d);
                lemma_mul_mod_noop_left(dec_val(pre) as int, 10, m);
                lemma_add_mod_noop((dec_val(pre) * 10) as int, d as int, m);
                lemma_small_mod(d as nat, fr_m());
            }
            acc = next;
            i += 1;
        }
        proof {
            assert(st@.subrange(0, n as int) =~= st@);
        }
        Some(acc)
    }

    /// Builds an element from a canonical value below r.
    pub fn new(val: U256) -> (r: Option<Fr>)
        ensures
            match r {
                Some(v) => val.val() < fr_m() && v.value() == val.val(),
                None => val.val() >= fr_m(),
            },
    {
        let m = Self::modulus_u256();
        if val.lt(&m) {
            Some(Fr { rep: val })
        } else {
            None
        }
    }

    /// Builds an element from any 256-bit value, reduced mod r.
    pub fn new_mul_factor(val: U256) -> (r: Fr)
        ensures
            r.value() == val.val() % fr_m(),
    {
        let m = Self::modulus_u256();
        let wide = U512::from_u256(&val);
        let (_, rem) = wide.divrem(&m);
        Fr { rep: rem }
    }

    /// Parses a 32-byte big-endian scalar; any value is accepted and
    /// silently reduced mod r.
    pub fn from_slice(slice: &[u8]) -> (r: Result<Fr, FieldError>)
        ensures
            match r {
                Ok(v) => fr_decode(slice@) == Some(v.value()),
                Err(e) => fr_decode(slice@) is None && e == FieldError::InvalidSliceLength,
            },
    {
        match U256::from_slice(slice) {
            None => Err(FieldError::InvalidSliceLength),
            Some(v) => Ok(Fr::new_mul_factor(v)),
        }
    }

    /// Writes the canonical value as 32 big-endian bytes into a
    /// 32-byte buffer.
    pub fn to_big_endian(&self, slice: &mut Vec<u8>) -> (r: Result<(), FieldError>)
        ensures
            match r {
                Ok(()) => old(slice)@.len() == 32 && final(slice)@.len() == 32
                    && be32_val(final(slice)@) == self.value(),
                Err(e) => old(slice)@.len() != 32 && final(slice)@ == old(slice)@
                    && e == FieldError::InvalidSliceLength,
            },
    {
        if slice.len() != 32 {
            return Err(FieldError::InvalidSliceLength);
        }
        let bytes = self.rep.to_be_bytes();
        slice.clear();
        let mut i: usize = 0;
        while i < 32
            invariant
                0 <= i <= 32,
                bytes@.len() == 32,
                slice@.len() == i,
                slice@ == bytes@.subrange(0, i as int),
            decreases 32 - i,
        {
            let b = bytes[i];
            slice.push(b);
            proof {
                assert(slice@ == bytes@.subrange(0, (i + 1) as int));
            }
            i += 1;
        }
        proof {
            assert(slice@ == bytes@);
        }
        Ok(())
    }

    /// Sets one bit of the canonical representative. Where the raw
    /// assignment would leave the 256-bit word at or above r, the
    /// result is deliberately reduced mod r so that every element
    /// keeps a canonical value; below r the assignment is bit-exact.
    pub fn set_bit(&mut self, bit: usize, to: bool)
        ensures
            bit < 256 ==> final(self).value() == ({
                let ob: nat = (old(self).value() / pow2(bit as nat)) % 2;
                let tb: nat = if to { 1nat } else { 0nat };
                (((old(self).value() - ob * pow2(bit as nat) + tb * pow2(bit as nat)) % (fr_m() as int)) as nat)
            }),
            bit < 256 ==> ({
                let ob: nat = (old(self).value() / pow2(bit as nat)) % 2;
                let tb: nat = if to { 1nat } else { 0nat };
                let raw = old(self).value() - ob * pow2(bit as nat) + tb * pow2(bit as nat);
                raw < fr_m() ==> final(self).value() == raw
            }),
            bit >= 256 ==> final(self).value() == old(self).value(),
    {
        proof {
            use_type_invariant(&*self);
        }
        if bit >= 256 {
            return;
        }
        let ghost a = self.value() as int;
        let ghost p = pow2(bit as nat) as int;
        let ghost obn: nat = (self.value() / pow2(bit as nat)) % 2;
        let bits = self.rep.to_bits();
        let ob = bits[bit];
        proof {
            lemma_small_mod(self.value(), fr_m());
        }
        if ob == to {
            proof {
                let tb: int = if to { 1 } else { 0 };
                assert(a - obn * p + tb * p == a);
            }
            return;
        }
        let m = Self::modulus_u256();
        let two = U256::from_limbs(2, 0, 0, 0);
        let e = U256::from_u64(bit as u64);
        let t = two.powmod(&e, &m);
        proof {
            lemma_pow2(bit as nat);
            assert(t.val() == (p % (fr_m() as int)));
        }
        if to {
            let nrep = self.rep.addmod(&t, &m);
            proof {
                lemma_add_mod_noop_right(a, p, fr_m() as int);
                assert(obn == 0);
                if a + p < fr_m() {
                    lemma_small_mod((a + p) as nat, fr_m());
                }
            }
            self.rep = nrep;
        } else {
            let nrep = self.rep.submod(&t, &m);
            proof {
                lemma_sub_mod_noop_right(a, p, fr_m() as int);
                lemma_mod_add_multiples_vanish(a - p % (fr_m() as int), fr_m() as int);
                assert(obn == 1);
                assert(a >= p) by {
                    vstd::arithmetic::power2::lemma_pow2_pos(bit as nat);
                    if a < p {
                        lemma_basic_div(a, p);
                    }
                }
                lemma_small_mod((a - p) as nat, fr_m());
            }
            self.rep = nrep;
        }
    }
}

/// An element of the base field Fq of BN254.
#[derive(Clone, Copy, PartialEq, Eq, Structural, Debug)]
pub struct Fq {
    rep: U256,
}

impl Fq {
    /// The canonical representative of this element, below the modulus.
    pub closed spec fn value(self) -> nat {
        self.rep.val()
    }

    /// Every element holds a reduced representative.
    #[verifier::type_invariant]
    pub open spec fn wf(self) -> bool {
        self.value() < fq_m()
    }

    /// The modulus as a 256-bit integer.
    fn modulus_u256() -> (r: U256)
        ensures
            r.val() == fq_m(),
    {
        U256::from_limbs(0x3c208c16d87cfd47, 0x97816a916871ca8d, 0xb85045b68181585d, 0x30644e72e131a029)
    }

    pub fn zero() -> (r: Fq)
        ensures
            r.value() == 0,
    {
        Fq { rep: U256::zero() }
    }

    pub fn one() -> (r: Fq)
        ensures
            r.value() == 1,
    {
        Fq { rep: U256::one() }
    }

    pub fn is_zero(&self) -> (r: bool)
        ensures
            r == (self.value() == 0),
    {
        self.rep.is_zero()
    }

    pub fn add(&self, o: &Fq) -> (r: Fq)
        ensures
            r.value() == fp_add(self.value(), o.value(), fq_m()),
    {
        proof {
            use_type_invariant(self);
            use_type_invariant(o);
        }
        let m = Self::modulus_u256();
        Fq { rep: self.rep.addmod(&o.rep, &m) }
    }

    pub fn sub(&self, o: &Fq) -> (r: Fq)
        ensures
            r.value() == fp_sub(self.value(), o.value(), fq_m()),
    {
        proof {
            use_type_invariant(self);
            use_type_invariant(o);
        }
        let m = Self::modulus_u256();
        Fq { rep: self.rep.submod(&o.rep, &m) }
    }

    pub fn neg(&self) -> (r: Fq)
        ensures
            r.value() == fp_neg(self.value(), fq_m()),
    {
        proof {
            use_type_invariant(self);
        }
        let m = Self::modulus_u256();
        let z = Fq { rep: U256::zero() };
        proof {
            assert(fp_sub(0, self.value(), fq_m()) == fp_neg(self.value(), fq_m()));
        }
        let r = Fq { rep: z.rep.submod(&self.rep, &m) };
        r
    }

    pub fn mul(&self, o: &Fq) -> (r: Fq)
        ensures
            r.value() == fp_mul(self.value(), o.value(), fq_m()),
    {
        proof {
            use_type_invariant(self);
            use_type_invariant(o);
        }
        let m = Self::modulus_u256();
        Fq { rep: self.rep.mulmod(&o.rep, &m) }
    }

    /// Exponentiation by the canonical value of the exponent element.
    pub fn pow(&self, exp: Fq) -> (r: Fq)
        ensures
            r.value() == fp_pow(self.value(), exp.value(), fq_m()),
    {
        proof {
            use_type_invariant(self);
            use_type_invariant(&exp);
        }
        let m = Self::modulus_u256();
        Fq { rep: self.rep.powmod(&exp.rep, &m) }
    }

    /// Exponentiation by a raw 256-bit exponent.
    pub fn pow_u256(&self, exp: &U256) -> (r: Fq)
        ensures
            r.value() == fp_pow(self.value(), exp.val(), fq_m()),
    {
        proof {
            use_type_invariant(self);
        }
        let m = Self::modulus_u256();
        Fq { rep: self.rep.powmod(exp, &m) }
    }

    /// The multiplicative inverse by Fermat exponentiation, validated by
    /// a final multiplication; zero has none. That the candidate always
    /// validates on non-zero inputs is Fermat's little theorem for the
    /// prime modulus and is not claimed by this contract.
    pub fn inverse(&self) -> (r: Option<Fq>)
        ensures
            match r {
                Some(b) => self.value() != 0 && b.value() == fp_inv_cand(self.value(), fq_m())
                    && fp_mul(self.value(), b.value(), fq_m()) == 1,
                None => self.value() == 0
                    || fp_mul(self.value(), fp_inv_cand(self.value(), fq_m()), fq_m()) != 1,
            },
            match r {
                Some(b) => fq_inv(self.value()) == Some(b.value()),
                None => fq_inv(self.value()) is None,
            },
    {
        proof {
            use_type_invariant(self);
        }
        if self.is_zero() {
            return None;
        }
        let m = Self::modulus_u256();
        let two = U256::from_limbs(2, 0, 0, 0);
        let (e, brw) = m.sub_borrow(&two);
        proof {
            e.lemma_val_bound();
            assert(!brw);
        }
        let cand = self.rep.powmod(&e, &m);
        let chk = self.rep.mulmod(&cand, &m);
        if chk.eq_val(&U256::one()) {
            Some(Fq { rep: cand })
        } else {
            None
        }
    }

    /// Parses 64 bytes as a 512-bit big-endian integer reduced mod the
    /// modulus.
    pub fn interpret(buf: &[u8; 64]) -> (r: Fq)
        ensures
            r.value() == be64_val(buf@) % fq_m(),
    {
        let m = Self::modulus_u256();
        let wide = U512::from_slice(buf.as_slice()).unwrap();
        let (_, rem) = wide.divrem(&m);
        Fq { rep: rem }
    }

    /// The canonical value as a 256-bit integer.
    pub fn into_u256(self) -> (r: U256)
        ensures
            r.val() == self.value(),
    {
        self.rep
    }
}

impl Fq {
    /// Parses a decimal string, reducing mod the modulus; None when
    /// any character is not a digit. The empty string parses to zero.
    pub fn from_str(st: &str) -> (r: Option<Fq>)
        ensures
            match r {
                Some(v) => dec_digits(st@) && v.value() == dec_val(st@) % fq_m(),
                None => !dec_digits(st@),
            },
    {
        let n = st.unicode_len();
        let mut acc = Fq::zero();
        let ten = Fq { rep: U256::from_u64(10) };
        proof {
            lemma_small_mod(0nat, fq_m());
            assert(st@.subrange(0, 0) =~= Seq::<char>::empty());
        }
        let mut i: usize = 0;
        while i < n
            invariant
                0 <= i <= n,
                n == st@.len(),
                ten.value() == 10,
                acc.value() == dec_val(st@.subrange(0, i as int)) % fq_m(),
                forall|k: int| 0 <= k < i ==> ('0' <= #[trigger] st@[k] && st@[k] <= '9'),
            decreases n - i,
        {
            let c = st.get_char(i);
            if c < '0' || c > '9' {
                return None;
            }
            let d = (c as u32) - 48;
            let dig = Fq { rep: U256::from_u64(d as u64) };
            let next = acc.mul(&ten).add(&dig);
            proof {
                let m = fq_m() as int;
                let pre = st@.subrange(0, i as int);
                let cur = st@.subrange(0, (i + 1) as int);
                assert(cur.drop_last() =~= pre);
                assert(cur.last() == st@[i as int]);
                assert(dec_val(cur) == dec_val(pre) * 10 + d);
                lemma_mul_mod_noop_left(dec_val(pre) as int, 10, m);
                lemma_add_mod_noop((dec_val(pre) * 10) as int, d as int, m);
                lemma_small_mod(d as nat, fq_m());
            }
            acc = next;
            i += 1;
        }
        proof {
            assert(st@.subrange(0, n as int) =~= st@);
        }
        Some(acc)
    }

    /// Builds an element from a 256-bit value; values at or above q are
    /// refused as NotMember.
    pub fn from_u256(u256: U256) -> (r: Result<Fq, FieldError>)
        ensures
            match r {
                Ok(v) => u256.val() < fq_m() && v.value() == u256.val(),
                Err(e) => u256.val() >= fq_m() && e == FieldError::NotMember,
            },
    {
        let m = Self::modulus_u256();
        if u256.lt(&m) {
            Ok(Fq { rep: u256 })
        } else {
            Err(FieldError::NotMember)
        }
    }

    /// Parses a 32-byte big-endian element; wrong lengths and values at
    /// or above q are refused.
    pub fn from_slice(slice: &[u8]) -> (r: Result<Fq, FieldError>)
        ensures
            match r {
                Ok(v) => fq_decode(slice@) == Some(v.value()),
                Err(e) => fq_decode(slice@) is None
                    && (e == FieldError::InvalidSliceLength || e == FieldError::NotMember),
                    
            },
            r is Err ==> (slice@.len() != 32 ==> r == Err::<Fq, FieldError>(FieldError::InvalidSliceLength)),
            r is Err ==> (slice@.len() == 32 ==> r == Err::<Fq, FieldError>(FieldError::NotMember)),
    {
        match U256::from_slice(slice) {
            None => Err(FieldError::InvalidSliceLength),
            Some(v) => match Fq::from_u256(v) {
                Ok(x) => Ok(x),
                Err(_) => Err(FieldError::NotMember),
            },
        }
    }

    /// Writes the canonical value as 32 big-endian bytes into a 32-byte
    /// buffer.
    pub fn to_big_endian(&self, slice: &mut Vec<u8>) -> (r: Result<(), FieldError>)
        ensures
            match r {
                Ok(()) => old(slice)@.len() == 32 && final(slice)@.len() == 32
                    && be32_val(final(slice)@) == self.value(),
                Err(e) => old(slice)@.len() != 32 && final(slice)@ == old(slice)@
                    && e == FieldError::InvalidSliceLength,
            },
    {
        if slice.len() != 32 {
            return Err(FieldError::InvalidSliceLength);
        }
        let bytes = self.rep.to_be_bytes();
        slice.clear();
        let mut i: usize = 0;
        while i < 32
            invariant
                0 <= i <= 32,
                bytes@.len() == 32,
                slice@.len() == i,
                slice@ == bytes@.subrange(0, i as int),
            decreases 32 - i,
        {
            let b = bytes[i];
            slice.push(b);
            proof {
                assert(slice@ == bytes@.subrange(0, (i + 1) as int));
            }
            i += 1;
        }
        proof {
            assert(slice@ == bytes@);
        }
        Ok(())
    }

    /// The base-field modulus q.
    pub fn modulus() -> (r: U256)
        ensures
            r.val() == fq_m(),
    {
        Self::modulus_u256()
    }

    /// The square root a^((q+1)/4), validated by squaring; None when the
    /// candidate fails, that is when a is not a quadratic residue.
    pub fn sqrt(&self) -> (r: Option<Fq>)
        ensures
            match r {
                Some(s) => s.value() == fp_sqrt_cand(self.value(), fq_m())
                    && fp_mul(s.value(), s.value(), fq_m()) == self.value(),
                None => fp_mul(
                    fp_sqrt_cand(self.value(), fq_m()),
                    fp_sqrt_cand(self.value(), fq_m()),
                    fq_m(),
                ) != self.value(),
            },
    {
        proof {
            use_type_invariant(self);
        }
        let m = Self::modulus_u256();
        let one = U256::one();
        let (s1, _) = m.add_carry(&one);
        let e = s1.half().half();
        proof {
            lemma_div_denominator((fq_m() + 1) as int, 2, 2);
        }
        let cand = self.rep.powmod(&e, &m);
        let sq = cand.mulmod(&cand, &m);
        if sq.eq_val(&self.rep) {
            Some(Fq { rep: cand })
        } else {
            None
        }
    }
}

} // verus!
