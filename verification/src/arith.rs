//! Fixed-width unsigned big integers: 256-bit values as four 64-bit limbs,
//! 512-bit values as eight, with modular arithmetic proved against their
//! mathematical value.

use vstd::prelude::*;
use vstd::arithmetic::power2::*;
use vstd::arithmetic::div_mod::*;
use vstd::arithmetic::power::{pow, lemma_pow0, lemma_pow1, lemma_pow_adds, lemma_pow_positive, lemma0_pow};
use vstd::arithmetic::mul::*;

verus! {

/// 2^64, the weight of one limb.
pub const LIMB: u128 = 0x1_0000_0000_0000_0000;

/// 2^256 as a specification constant.
pub open spec fn p256() -> nat {
    0x1_0000_0000_0000_0000_0000_0000_0000_0000_0000_0000_0000_0000_0000_0000_0000_0000nat
}

/// 2^512 as a specification constant.
pub open spec fn p512() -> nat {
    p256() * p256()
}

/// pow2 facts used throughout: the exact values of 2^0 and 2^256.
pub proof fn lemma_pow2_values()
    ensures
        pow2(0) == 1,
        pow2(1) == 2,
        pow2(256) == p256(),
{
    lemma2_to64();
    lemma_pow2_adds(64, 64);
    lemma_pow2_adds(128, 128);
    assert(pow2(128) == 0x1_0000_0000_0000_0000_0000_0000_0000_0000nat) by (nonlinear_arith)
        requires
            pow2(128) == pow2(64) * pow2(64),
            pow2(64) == 0x1_0000_0000_0000_0000nat,
    ;
    assert(pow2(256) == p256()) by (nonlinear_arith)
        requires
            pow2(256) == pow2(128) * pow2(128),
            pow2(128) == 0x1_0000_0000_0000_0000_0000_0000_0000_0000nat,
    ;
}

proof fn lemma_pow_nonneg(b: int, e: nat)
    requires
        b >= 0,
    ensures
        pow(b, e) >= 0,
{
    if b > 0 {
        lemma_pow_positive(b, e);
    } else if e == 0 {
        lemma_pow0(b);
    } else {
        lemma0_pow(e);
    }
}

/// One limb addition with carry in and carry out.
fn add_limb(a: u64, b: u64, c: u64) -> (r: (u64, u64))
    requires
        c <= 1,
    ensures
        r.0 + (r.1 as nat) * 0x1_0000_0000_0000_0000nat == a + b + c,
        r.1 <= 1,
{
    let t: u128 = a as u128 + b as u128 + c as u128;
    ((t % LIMB) as u64, (t / LIMB) as u64)
}

/// One limb subtraction with borrow in and borrow out.
fn sub_limb(a: u64, b: u64, c: u64) -> (r: (u64, u64))
    requires
        c <= 1,
    ensures
        r.0 == a - b - c + (r.1 as int) * 0x1_0000_0000_0000_0000int,
        r.1 <= 1,
{
    let t: u128 = LIMB + a as u128 - b as u128 - c as u128;
    let brw: u64 = if t < LIMB { 1 } else { 0 };
    ((t % LIMB) as u64, brw)
}


/// The integer value of a 32-byte big-endian string.
pub open spec fn be32_val(s: Seq<u8>) -> nat
    recommends
        s.len() == 32,
{
    (s[0] as nat) * 0x100000000000000000000000000000000000000000000000000000000000000nat +
        (s[1] as nat) * 0x1000000000000000000000000000000000000000000000000000000000000nat +
        (s[2] as nat) * 0x10000000000000000000000000000000000000000000000000000000000nat +
        (s[3] as nat) * 0x100000000000000000000000000000000000000000000000000000000nat +
        (s[4] as nat) * 0x1000000000000000000000000000000000000000000000000000000nat +
        (s[5] as nat) * 0x10000000000000000000000000000000000000000000000000000nat +
        (s[6] as nat) * 0x100000000000000000000000000000000000000000000000000nat +
        (s[7] as nat) * 0x1000000000000000000000000000000000000000000000000nat +
        (s[8] as nat) * 0x10000000000000000000000000000000000000000000000nat +
        (s[9] as nat) * 0x100000000000000000000000000000000000000000000nat +
        (s[10] as nat) * 0x1000000000000000000000000000000000000000000nat +
        (s[11] as nat) * 0x10000000000000000000000000000000000000000nat +
        (s[12] as nat) * 0x100000000000000000000000000000000000000nat +
        (s[13] as nat) * 0x1000000000000000000000000000000000000nat +
        (s[14] as nat) * 0x10000000000000000000000000000000000nat +
        (s[15] as nat) * 0x100000000000000000000000000000000nat +
        (s[16] as nat) * 0x1000000000000000000000000000000nat +
        (s[17] as nat) * 0x10000000000000000000000000000nat +
        (s[18] as nat) * 0x100000000000000000000000000nat +
        (s[19] as nat) * 0x1000000000000000000000000nat +
        (s[20] as nat) * 0x10000000000000000000000nat +
        (s[21] as nat) * 0x100000000000000000000nat +
        (s[22] as nat) * 0x1000000000000000000nat +
        (s[23] as nat) * 0x10000000000000000nat +
        (s[24] as nat) * 0x100000000000000nat +
        (s[25] as nat) * 0x1000000000000nat +
        (s[26] as nat) * 0x10000000000nat +
        (s[27] as nat) * 0x100000000nat +
        (s[28] as nat) * 0x1000000nat +
        (s[29] as nat) * 0x10000nat +
        (s[30] as nat) * 0x100nat +
        (s[31] as nat)
}

/// Splits one limb into its eight big-endian bytes.
fn limb_to_be(w: u64) -> (r: [u8; 8])
    ensures
        (r[0] as nat) * 0x100000000000000nat + (r[1] as nat) * 0x1000000000000nat
            + (r[2] as nat) * 0x10000000000nat + (r[3] as nat) * 0x100000000nat
            + (r[4] as nat) * 0x1000000nat + (r[5] as nat) * 0x10000nat
            + (r[6] as nat) * 0x100nat + (r[7] as nat) == w,
{
    let b0 = (w / 0x100000000000000) as u8;
    let r1 = w % 0x100000000000000;
    let b1 = (r1 / 0x1000000000000) as u8;
    let r2 = r1 % 0x1000000000000;
    let b2 = (r2 / 0x10000000000) as u8;
    let r3 = r2 % 0x10000000000;
    let b3 = (r3 / 0x100000000) as u8;
    let r4 = r3 % 0x100000000;
    let b4 = (r4 / 0x1000000) as u8;
    let r5 = r4 % 0x1000000;
    let b5 = (r5 / 0x10000) as u8;
    let r6 = r5 % 0x10000;
    let b6 = (r6 / 0x100) as u8;
    let b7 = (r6 % 0x100) as u8;
    [b0, b1, b2, b3, b4, b5, b6, b7]
}

/// Reads one limb from eight big-endian bytes.
fn limb_from_be(b0: u8, b1: u8, b2: u8, b3: u8, b4: u8, b5: u8, b6: u8, b7: u8) -> (r: u64)
    ensures
        r == (b0 as nat) * 0x100000000000000nat + (b1 as nat) * 0x1000000000000nat
            + (b2 as nat) * 0x10000000000nat + (b3 as nat) * 0x100000000nat
            + (b4 as nat) * 0x1000000nat + (b5 as nat) * 0x10000nat
            + (b6 as nat) * 0x100nat + (b7 as nat),
{
    (b0 as u64) * 0x100000000000000 + (b1 as u64) * 0x1000000000000
        + (b2 as u64) * 0x10000000000 + (b3 as u64) * 0x100000000
        + (b4 as u64) * 0x1000000 + (b5 as u64) * 0x10000
        + (b6 as u64) * 0x100 + (b7 as u64)
}

/// The integer value of a 64-byte big-endian string.
pub open spec fn be64_val(s: Seq<u8>) -> nat
    recommends
        s.len() == 64,
{
    (s[0] as nat) * 0x1000000000000000000000000000000000000000000000000000000000000000000000000000000000000000000000000000000000000000000000000000000nat +
        (s[1] as nat) * 0x10000000000000000000000000000000000000000000000000000000000000000000000000000000000000000000000000000000000000000000000000000nat +
        (s[2] as nat) * 0x100000000000000000000000000000000000000000000000000000000000000000000000000000000000000000000000000000000000000000000000000nat +
        (s[3] as nat) * 0x1000000000000000000000000000000000000000000000000000000000000000000000000000000000000000000000000000000000000000000000000nat +
        (s[4] as nat) * 0x10000000000000000000000000000000000000000000000000000000000000000000000000000000000000000000000000000000000000000000000nat +
        (s[5] as nat) * 0x100000000000000000000000000000000000000000000000000000000000000000000000000000000000000000000000000000000000000000000nat +
        (s[6] as nat) * 0x1000000000000000000000000000000000000000000000000000000000000000000000000000000000000000000000000000000000000000000nat +
        (s[7] as nat) * 0x10000000000000000000000000000000000000000000000000000000000000000000000000000000000000000000000000000000000000000nat +
        (s[8] as nat) * 0x100000000000000000000000000000000000000000000000000000000000000000000000000000000000000000000000000000000000000nat +
        (s[9] as nat) * 0x1000000000000000000000000000000000000000000000000000000000000000000000000000000000000000000000000000000000000nat +
        (s[10] as nat) * 0x10000000000000000000000000000000000000000000000000000000000000000000000000000000000000000000000000000000000nat +
        (s[11] as nat) * 0x100000000000000000000000000000000000000000000000000000000000000000000000000000000000000000000000000000000nat +
        (s[12] as nat) * 0x1000000000000000000000000000000000000000000000000000000000000000000000000000000000000000000000000000000nat +
        (s[13] as nat) * 0x10000000000000000000000000000000000000000000000000000000000000000000000000000000000000000000000000000nat +
        (s[14] as nat) * 0x100000000000000000000000000000000000000000000000000000000000000000000000000000000000000000000000000nat +
        (s[15] as nat) * 0x1000000000000000000000000000000000000000000000000000000000000000000000000000000000000000000000000nat +
        (s[16] as nat) * 0x10000000000000000000000000000000000000000000000000000000000000000000000000000000000000000000000nat +
        (s[17] as nat) * 0x100000000000000000000000000000000000000000000000000000000000000000000000000000000000000000000nat +
        (s[18] as nat) * 0x1000000000000000000000000000000000000000000000000000000000000000000000000000000000000000000nat +
        (s[19] as nat) * 0x10000000000000000000000000000000000000000000000000000000000000000000000000000000000000000nat +
        (s[20] as nat) * 0x100000000000000000000000000000000000000000000000000000000000000000000000000000000000000nat +
        (s[21] as nat) * 0x1000000000000000000000000000000000000000000000000000000000000000000000000000000000000nat +
        (s[22] as nat) * 0x10000000000000000000000000000000000000000000000000000000000000000000000000000000000nat +
        (s[23] as nat) * 0x100000000000000000000000000000000000000000000000000000000000000000000000000000000nat +
        (s[24] as nat) * 0x1000000000000000000000000000000000000000000000000000000000000000000000000000000nat +
        (s[25] as nat) * 0x10000000000000000000000000000000000000000000000000000000000000000000000000000nat +
        (s[26] as nat) * 0x100000000000000000000000000000000000000000000000000000000000000000000000000nat +
        (s[27] as nat) * 0x1000000000000000000000000000000000000000000000000000000000000000000000000nat +
        (s[28] as nat) * 0x10000000000000000000000000000000000000000000000000000000000000000000000nat +
        (s[29] as nat) * 0x100000000000000000000000000000000000000000000000000000000000000000000nat +
        (s[30] as nat) * 0x1000000000000000000000000000000000000000000000000000000000000000000nat +
        (s[31] as nat) * 0x10000000000000000000000000000000000000000000000000000000000000000nat +
        (s[32] as nat) * 0x100000000000000000000000000000000000000000000000000000000000000nat +
        (s[33] as nat) * 0x1000000000000000000000000000000000000000000000000000000000000nat +
        (s[34] as nat) * 0x10000000000000000000000000000000000000000000000000000000000nat +
        (s[35] as nat) * 0x100000000000000000000000000000000000000000000000000000000nat +
        (s[36] as nat) * 0x1000000000000000000000000000000000000000000000000000000nat +
        (s[37] as nat) * 0x10000000000000000000000000000000000000000000000000000nat +
        (s[38] as nat) * 0x100000000000000000000000000000000000000000000000000nat +
        (s[39] as nat) * 0x1000000000000000000000000000000000000000000000000nat +
        (s[40] as nat) * 0x10000000000000000000000000000000000000000000000nat +
        (s[41] as nat) * 0x100000000000000000000000000000000000000000000nat +
        (s[42] as nat) * 0x1000000000000000000000000000000000000000000nat +
        (s[43] as nat) * 0x10000000000000000000000000000000000000000nat +
        (s[44] as nat) * 0x100000000000000000000000000000000000000nat +
        (s[45] as nat) * 0x1000000000000000000000000000000000000nat +
        (s[46] as nat) * 0x10000000000000000000000000000000000nat +
        (s[47] as nat) * 0x100000000000000000000000000000000nat +
        (s[48] as nat) * 0x1000000000000000000000000000000nat +
        (s[49] as nat) * 0x10000000000000000000000000000nat +
        (s[50] as nat) * 0x100000000000000000000000000nat +
        (s[51] as nat) * 0x1000000000000000000000000nat +
        (s[52] as nat) * 0x10000000000000000000000nat +
        (s[53] as nat) * 0x100000000000000000000nat +
        (s[54] as nat) * 0x1000000000000000000nat +
        (s[55] as nat) * 0x10000000000000000nat +
        (s[56] as nat) * 0x100000000000000nat +
        (s[57] as nat) * 0x1000000000000nat +
        (s[58] as nat) * 0x10000000000nat +
        (s[59] as nat) * 0x100000000nat +
        (s[60] as nat) * 0x1000000nat +
        (s[61] as nat) * 0x10000nat +
        (s[62] as nat) * 0x100nat +
        (s[63] as nat)
}

proof fn lemma_pow2_values_512()
    ensures
        pow2(512) == p256() * p256(),
{
    lemma_pow2_values();
    lemma_pow2_adds(256, 256);
    assert(pow2(512) == p256() * p256()) by (nonlinear_arith)
        requires
            pow2(512) == pow2(256) * pow2(256),
            pow2(256) == p256(),
    ;
}

/// An unsigned 256-bit integer held as four 64-bit limbs, least
/// significant first.
#[derive(Clone, Copy, PartialEq, Eq, Structural, Debug)]
pub struct U256 {
    w0: u64,
    w1: u64,
    w2: u64,
    w3: u64,
}

impl U256 {
    /// The integer this value stands for, in [0, 2^256).
    pub closed spec fn val(self) -> nat {
        (self.w0 as nat) + (self.w1 as nat) * 0x1_0000_0000_0000_0000nat
            + (self.w2 as nat) * 0x1_0000_0000_0000_0000_0000_0000_0000_0000nat
            + (self.w3 as nat) * 0x1_0000_0000_0000_0000_0000_0000_0000_0000_0000_0000_0000_0000nat
    }

    pub proof fn lemma_val_bound(self)
        ensures
            self.val() < p256(),
    {
    }

    pub fn zero() -> (r: U256)
        ensures
            r.val() == 0,
    {
        U256 { w0: 0, w1: 0, w2: 0, w3: 0 }
    }

    pub fn one() -> (r: U256)
        ensures
            r.val() == 1,
    {
        U256 { w0: 1, w1: 0, w2: 0, w3: 0 }
    }

    pub fn from_u64(v: u64) -> (r: U256)
        ensures
            r.val() == v,
    {
        U256 { w0: v, w1: 0, w2: 0, w3: 0 }
    }

    pub fn from_limbs(w0: u64, w1: u64, w2: u64, w3: u64) -> (r: U256)
        ensures
            r.val() == (w0 as nat) + (w1 as nat) * 0x1_0000_0000_0000_0000nat
                + (w2 as nat) * 0x1_0000_0000_0000_0000_0000_0000_0000_0000nat
                + (w3 as nat) * 0x1_0000_0000_0000_0000_0000_0000_0000_0000_0000_0000_0000_0000nat,
    {
        U256 { w0, w1, w2, w3 }
    }

    pub fn is_zero(&self) -> (r: bool)
        ensures
            r == (self.val() == 0),
    {
        self.w0 == 0 && self.w1 == 0 && self.w2 == 0 && self.w3 == 0
    }

    /// Addition returning the 256-bit sum and the carry out.
    pub fn add_carry(&self, o: &U256) -> (r: (U256, bool))
        ensures
            r.0.val() + (if r.1 { p256() } else { 0nat }) == self.val() + o.val(),
    {
        let (s0, c0) = add_limb(self.w0, o.w0, 0);
        let (s1, c1) = add_limb(self.w1, o.w1, c0);
        let (s2, c2) = add_limb(self.w2, o.w2, c1);
        let (s3, c3) = add_limb(self.w3, o.w3, c2);
        (U256 { w0: s0, w1: s1, w2: s2, w3: s3 }, c3 == 1)
    }

    /// Subtraction returning the 256-bit difference and the borrow out.
    pub fn sub_borrow(&self, o: &U256) -> (r: (U256, bool))
        ensures
            r.0.val() == self.val() - o.val() + (if r.1 { p256() } else { 0nat }),
    {
        let (d0, b0) = sub_limb(self.w0, o.w0, 0);
        let (d1, b1) = sub_limb(self.w1, o.w1, b0);
        let (d2, b2) = sub_limb(self.w2, o.w2, b1);
        let (d3, b3) = sub_limb(self.w3, o.w3, b2);
        (U256 { w0: d0, w1: d1, w2: d2, w3: d3 }, b3 == 1)
    }

    /// Equality of the represented values.
    pub fn eq_val(&self, o: &U256) -> (r: bool)
        ensures
            r == (self.val() == o.val()),
    {
        let (d, brw) = self.sub_borrow(o);
        !brw && d.is_zero()
    }

    /// Strictly-less-than on the represented values.
    pub fn lt(&self, o: &U256) -> (r: bool)
        ensures
            r == (self.val() < o.val()),
    {
        let (_, brw) = self.sub_borrow(o);
        brw
    }

    /// Halving: the value shifted right by one bit.
    pub fn half(&self) -> (r: U256)
        ensures
            r.val() == self.val() / 2,
    {
        let r = U256 {
            w0: self.w0 / 2 + (self.w1 % 2) * 0x8000_0000_0000_0000,
            w1: self.w1 / 2 + (self.w2 % 2) * 0x8000_0000_0000_0000,
            w2: self.w2 / 2 + (self.w3 % 2) * 0x8000_0000_0000_0000,
            w3: self.w3 / 2,
        };
        proof {
            assert(self.val() == 2 * r.val() + (self.w0 % 2));
            lemma_fundamental_div_mod_converse(self.val() as int, 2, r.val() as int, (self.w0 % 2) as int);
        }
        r
    }

    pub fn is_odd(&self) -> (r: bool)
        ensures
            r == (self.val() % 2 == 1),
    {
        proof {
            assert(self.val() % 2 == self.w0 % 2) by {
                let q: int = (self.w0 / 2) + (self.w1 as int) * 0x8000_0000_0000_0000int
                    + (self.w2 as int) * 0x8000_0000_0000_0000_0000_0000_0000_0000int
                    + (self.w3 as int) * 0x8000_0000_0000_0000_0000_0000_0000_0000_0000_0000_0000_0000int;
                assert(self.val() == 2 * q + self.w0 % 2);
                lemma_fundamental_div_mod_converse(
                    self.val() as int, 2, q, (self.w0 % 2) as int);
            }
        }
        self.w0 % 2 == 1
    }

    /// The bits of the value, least significant first.
    pub fn to_bits(&self) -> (r: Vec<bool>)
        ensures
            r@.len() == 256,
            forall|j: int| 0 <= j < 256 ==> r@[j] == ((self.val() / pow2(j as nat)) % 2 == 1),
    {
        let mut v: Vec<bool> = Vec::new();
        let mut cur: U256 = *self;
        proof {
            lemma_pow2_values();
        }
        let mut i: usize = 0;
        while i < 256
            invariant
                0 <= i <= 256,
                v@.len() == i,
                cur.val() == self.val() / pow2(i as nat),
                forall|j: int| 0 <= j < i ==> v@[j] == ((self.val() / pow2(j as nat)) % 2 == 1),
            decreases 256 - i,
        {
            let b = cur.is_odd();
            v.push(b);
            let next = cur.half();
            proof {
                lemma2_to64();
                lemma_pow2_adds(i as nat, 1);
                lemma_pow2_pos(i as nat);
                lemma_div_denominator(self.val() as int, pow2(i as nat) as int, 2);
                assert(next.val() == self.val() / pow2((i + 1) as nat));
            }
            cur = next;
            i += 1;
        }
        v
    }

    /// (self + other) mod m, for operands already below m.
    pub fn addmod(&self, o: &U256, m: &U256) -> (r: U256)
        requires
            self.val() < m.val(),
            o.val() < m.val(),
        ensures
            r.val() == (self.val() + o.val()) % m.val(),
    {
        let (s, c) = self.add_carry(o);
        if c || !s.lt(m) {
            let (d, _) = s.sub_borrow(m);
            proof {
                let t = (self.val() + o.val()) as int;
                assert(d.val() == t - m.val());
                lemma_mod_sub_multiples_vanish(t, m.val() as int);
                lemma_small_mod((t - m.val()) as nat, m.val());
            }
            d
        } else {
            proof {
                lemma_small_mod((self.val() + o.val()) as nat, m.val());
            }
            s
        }
    }

    /// (self + 1) mod m, for self already below m.
    pub fn incmod(&self, m: &U256) -> (r: U256)
        requires
            self.val() < m.val(),
        ensures
            r.val() == (self.val() + 1) % m.val(),
    {
        let one = U256::one();
        let (s, _) = self.add_carry(&one);
        if s.lt(m) {
            proof {
                lemma_small_mod((self.val() + 1) as nat, m.val());
            }
            s
        } else {
            proof {
                assert(s.val() == m.val());
                lemma_mod_self_0(m.val() as int);
            }
            U256::zero()
        }
    }

    /// (self - other) mod m, for operands already below m.
    pub fn submod(&self, o: &U256, m: &U256) -> (r: U256)
        requires
            self.val() < m.val(),
            o.val() < m.val(),
        ensures
            r.val() == (self.val() + m.val() - o.val()) % (m.val() as int),
    {
        let (d, brw) = self.sub_borrow(o);
        if brw {
            let (d2, _) = d.add_carry(m);
            proof {
                assert(d2.val() == self.val() + m.val() - o.val());
                lemma_small_mod(d2.val(), m.val());
            }
            d2
        } else {
            proof {
                let t = (self.val() + m.val() - o.val()) as int;
                assert(d.val() == t - m.val());
                lemma_mod_sub_multiples_vanish(t, m.val() as int);
                lemma_small_mod(d.val(), m.val());
            }
            d
        }
    }

    /// (self * other) mod m by binary double-and-add, for self below m.
    pub fn mulmod(&self, o: &U256, m: &U256) -> (r: U256)
        requires
            self.val() < m.val(),
        ensures
            r.val() == (self.val() * o.val()) % m.val(),
    {
        let bits = o.to_bits();
        let mut acc = U256::zero();
        proof {
            lemma_pow2_values();
            lemma_pow2_pos(256);
            lemma_basic_div(o.val() as int, pow2(256) as int);
            assert(o.val() / pow2(256) == 0);
            lemma_mod_self_0(m.val() as int);
            assert((self.val() * 0) % m.val() == 0) by {
                assert(self.val() * 0 == 0) by (nonlinear_arith);
                lemma_mod_self_0(m.val() as int);
                lemma_small_mod(0nat, m.val());
            }
        }
        let mut i: usize = 0;
        while i < 256
            invariant
                0 <= i <= 256,
                self.val() < m.val(),
                bits@.len() == 256,
                forall|j: int| 0 <= j < 256 ==> bits@[j] == ((o.val() / pow2(j as nat)) % 2 == 1),
                acc.val() == (self.val() * (o.val() / pow2((256 - i) as nat))) % m.val(),
            decreases 256 - i,
        {
            let ghost h: nat = o.val() / pow2((256 - i) as nat);
            let ghost h2: nat = o.val() / pow2((255 - i) as nat);
            proof {
                lemma_pow2_values();
                lemma_mod_division_less_than_divisor((self.val() * h) as int, m.val() as int);
                lemma_pow2_adds((255 - i) as nat, 1);
                lemma_pow2_pos((255 - i) as nat);
                lemma_div_denominator(o.val() as int, pow2((255 - i) as nat) as int, 2);
                assert(h == h2 / 2);
                lemma_fundamental_div_mod(h2 as int, 2);
                assert(h2 == 2 * h + h2 % 2);
            }
            let dbl = acc.addmod(&acc, m);
            proof {
                lemma_add_mod_noop((self.val() * h) as int, (self.val() * h) as int, m.val() as int);
                assert(dbl.val() == (self.val() * h + self.val() * h) % m.val());
            }
            let bit = bits[255 - i];
            let nacc = if bit {
                let a2 = dbl.addmod(self, m);
                proof {
                    lemma_small_mod(self.val(), m.val());
                    lemma_add_mod_noop((self.val() * h + self.val() * h) as int, self.val() as int, m.val() as int);
                    assert(a2.val() == (self.val() * h + self.val() * h + self.val()) % m.val());
                    assert(self.val() * h2 == self.val() * h + self.val() * h + self.val()) by (nonlinear_arith)
                        requires h2 == 2 * h + 1;
                }
                a2
            } else {
                proof {
                    assert(h2 == 2 * h);
                    assert(self.val() * h2 == self.val() * h + self.val() * h) by (nonlinear_arith)
                        requires h2 == 2 * h;
                }
                dbl
            };
            acc = nacc;
            i += 1;
        }
        proof {
            lemma_pow2_values();
            lemma_div_basics_2(o.val() as int);
        }
        acc
    }

    /// (self ^ e) mod m by square-and-multiply, for self below m and m > 1.
    pub fn powmod(&self, e: &U256, m: &U256) -> (r: U256)
        requires
            self.val() < m.val(),
            m.val() > 1,
        ensures
            r.val() == pow(self.val() as int, e.val()) % (m.val() as int),
    {
        let bits = e.to_bits();
        let mut acc = U256::one();
        let mut started = false;
        proof {
            lemma_pow2_values();
            lemma_pow2_pos(256);
            lemma_basic_div(e.val() as int, pow2(256) as int);
            lemma_small_mod(1nat, m.val());
            lemma_pow0(self.val() as int);
        }
        let mut i: usize = 0;
        while i < 256
            invariant
                0 <= i <= 256,
                self.val() < m.val(),
                m.val() > 1,
                bits@.len() == 256,
                forall|j: int| 0 <= j < 256 ==> bits@[j] == ((e.val() / pow2(j as nat)) % 2 == 1),
                acc.val() == pow(self.val() as int, e.val() / pow2((256 - i) as nat)) % (m.val() as int),
                !started ==> e.val() / pow2((256 - i) as nat) == 0,
            decreases 256 - i,
        {
            let ghost b = self.val() as int;
            let ghost h: nat = e.val() / pow2((256 - i) as nat);
            let ghost h2: nat = e.val() / pow2((255 - i) as nat);
            proof {
                lemma_pow2_values();
                lemma_pow2_adds((255 - i) as nat, 1);
                lemma_pow2_pos((255 - i) as nat);
                lemma_div_denominator(e.val() as int, pow2((255 - i) as nat) as int, 2);
                assert(h == h2 / 2);
                lemma_fundamental_div_mod(h2 as int, 2);
                assert(h2 == 2 * h + h2 % 2);
                lemma_pow_nonneg(b, h);
                lemma_mod_division_less_than_divisor(pow(b, h), m.val() as int);
            }
            let bit = bits[255 - i];
            if !started {
                if bit {
                    acc = *self;
                    started = true;
                    proof {
                        assert(h2 == 1);
                        lemma_pow1(b);
                        lemma_small_mod(self.val(), m.val());
                    }
                } else {
                    proof {
                        assert(h2 == 0);
                    }
                }
            } else {
                let sq = acc.mulmod(&acc, m);
                proof {
                    lemma_mul_mod_noop(pow(b, h), pow(b, h), m.val() as int);
                    lemma_pow_adds(b, h, h);
                    assert(sq.val() == pow(b, (2 * h) as nat) % (m.val() as int)) by {
                        assert(h + h == 2 * h);
                    }
                }
                if bit {
                    let sm = sq.mulmod(self, m);
                    proof {
                        lemma_pow_nonneg(b, (2 * h) as nat);
                        lemma_mod_division_less_than_divisor(pow(b, (2 * h) as nat), m.val() as int);
                        lemma_mul_mod_noop_left(pow(b, (2 * h) as nat), b, m.val() as int);
                        lemma_pow1(b);
                        lemma_pow_adds(b, (2 * h) as nat, 1);
                        assert(sm.val() == pow(b, (2 * h + 1) as nat) % (m.val() as int));
                    }
                    acc = sm;
                } else {
                    acc = sq;
                }
            }
            i += 1;
        }
        proof {
            lemma_pow2_values();
            lemma_div_basics_2(e.val() as int);
        }
        acc
    }

    /// Parses a 32-byte big-endian slice; any other length is refused.
    pub fn from_slice(s: &[u8]) -> (r: Option<U256>)
        ensures
            match r {
                Some(v) => s@.len() == 32 && v.val() == be32_val(s@),
                None => s@.len() != 32,
            },
    {
        if s.len() != 32 {
            return None;
        }
        let w3 = limb_from_be(s[0], s[1], s[2], s[3], s[4], s[5], s[6], s[7]);
        let w2 = limb_from_be(s[8], s[9], s[10], s[11], s[12], s[13], s[14], s[15]);
        let w1 = limb_from_be(s[16], s[17], s[18], s[19], s[20], s[21], s[22], s[23]);
        let w0 = limb_from_be(s[24], s[25], s[26], s[27], s[28], s[29], s[30], s[31]);
        Some(U256 { w0, w1, w2, w3 })
    }

    /// The value as 32 big-endian bytes.
    pub fn to_be_bytes(&self) -> (r: Vec<u8>)
        ensures
            r@.len() == 32,
            be32_val(r@) == self.val(),
    {
        let b3 = limb_to_be(self.w3);
        let b2 = limb_to_be(self.w2);
        let b1 = limb_to_be(self.w1);
        let b0 = limb_to_be(self.w0);
        let mut v: Vec<u8> = Vec::new();
        let mut i: usize = 0;
        while i < 8
            invariant
                0 <= i <= 8,
                v@.len() == i,
                forall|k: int| 0 <= k < i ==> v@[k] == b3[k],
            decreases 8 - i,
        {
            v.push(b3[i]);
            i += 1;
        }
        let mut i: usize = 0;
        while i < 8
            invariant
                0 <= i <= 8,
                v@.len() == 8 + i,
                forall|k: int| 0 <= k < 8 ==> v@[k] == b3[k],
                forall|k: int| 0 <= k < i ==> v@[8 + k] == b2[k],
            decreases 8 - i,
        {
            v.push(b2[i]);
            i += 1;
        }
        let mut i: usize = 0;
        while i < 8
            invariant
                0 <= i <= 8,
                v@.len() == 16 + i,
                forall|k: int| 0 <= k < 8 ==> v@[k] == b3[k],
                forall|k: int| 0 <= k < 8 ==> v@[8 + k] == b2[k],
                forall|k: int| 0 <= k < i ==> v@[16 + k] == b1[k],
            decreases 8 - i,
        {
            v.push(b1[i]);
            i += 1;
        }
        let mut i: usize = 0;
        while i < 8
            invariant
                0 <= i <= 8,
                v@.len() == 24 + i,
                forall|k: int| 0 <= k < 8 ==> v@[k] == b3[k],
                forall|k: int| 0 <= k < 8 ==> v@[8 + k] == b2[k],
                forall|k: int| 0 <= k < 8 ==> v@[16 + k] == b1[k],
                forall|k: int| 0 <= k < i ==> v@[24 + k] == b0[k],
            decreases 8 - i,
        {
            v.push(b0[i]);
            i += 1;
        }
        v
    }

    /// The bit at position n of the value, with bit 0 the least
    /// significant; None when n is out of range.
    pub fn get_bit(&self, n: usize) -> (r: Option<bool>)
        ensures
            match r {
                Some(b) => n < 256 && b == ((self.val() / pow2(n as nat)) % 2 == 1),
                None => n >= 256,
            },
    {
        if n >= 256 {
            return None;
        }
        let bits = self.to_bits();
        Some(bits[n])
    }
}

/// An unsigned 512-bit integer held as eight 64-bit limbs, least
/// significant first; used for double-width encodings and reduction.
#[derive(Clone, Copy, PartialEq, Eq, Structural, Debug)]
pub struct U512 {
    x0: u64,
    x1: u64,
    x2: u64,
    x3: u64,
    x4: u64,
    x5: u64,
    x6: u64,
    x7: u64,
}

impl U512 {
    /// The integer this value stands for, in [0, 2^512).
    pub closed spec fn val(self) -> nat {
        (self.x0 as nat) + (self.x1 as nat) * 0x1_0000_0000_0000_0000nat
            + (self.x2 as nat) * 0x1_0000_0000_0000_0000_0000_0000_0000_0000nat
            + (self.x3 as nat) * 0x1_0000_0000_0000_0000_0000_0000_0000_0000_0000_0000_0000_0000nat
            + (self.x4 as nat) * 0x10000000000000000000000000000000000000000000000000000000000000000nat
            + (self.x5 as nat) * 0x100000000000000000000000000000000000000000000000000000000000000000000000000000000nat
            + (self.x6 as nat) * 0x1000000000000000000000000000000000000000000000000000000000000000000000000000000000000000000000000nat
            + (self.x7 as nat) * 0x10000000000000000000000000000000000000000000000000000000000000000000000000000000000000000000000000000000000000000nat
    }

    /// The value of a U256 widened to 512 bits.
    pub fn from_u256(v: &U256) -> (r: U512)
        ensures
            r.val() == v.val(),
    {
        U512 { x0: v.w0, x1: v.w1, x2: v.w2, x3: v.w3, x4: 0, x5: 0, x6: 0, x7: 0 }
    }

    /// 2^256 as a 512-bit value.
    pub fn two_to_256() -> (r: U512)
        ensures
            r.val() == p256(),
    {
        U512 { x0: 0, x1: 0, x2: 0, x3: 0, x4: 1, x5: 0, x6: 0, x7: 0 }
    }

    /// A 512-bit value from its two 256-bit halves scaled by a modulus:
    /// hi * m + lo is not formed here; this reads a plain 64-byte
    /// big-endian slice instead.
    pub fn from_slice(s: &[u8]) -> (r: Option<U512>)
        ensures
            match r {
                Some(v) => s@.len() == 64 && v.val() == be64_val(s@),
                None => s@.len() != 64,
            },
    {
        if s.len() != 64 {
            return None;
        }
        let x7 = limb_from_be(s[0], s[1], s[2], s[3], s[4], s[5], s[6], s[7]);
        let x6 = limb_from_be(s[8], s[9], s[10], s[11], s[12], s[13], s[14], s[15]);
        let x5 = limb_from_be(s[16], s[17], s[18], s[19], s[20], s[21], s[22], s[23]);
        let x4 = limb_from_be(s[24], s[25], s[26], s[27], s[28], s[29], s[30], s[31]);
        let x3 = limb_from_be(s[32], s[33], s[34], s[35], s[36], s[37], s[38], s[39]);
        let x2 = limb_from_be(s[40], s[41], s[42], s[43], s[44], s[45], s[46], s[47]);
        let x1 = limb_from_be(s[48], s[49], s[50], s[51], s[52], s[53], s[54], s[55]);
        let x0 = limb_from_be(s[56], s[57], s[58], s[59], s[60], s[61], s[62], s[63]);
        Some(U512 { x0, x1, x2, x3, x4, x5, x6, x7 })
    }

    /// Halving: the value shifted right by one bit.
    fn half(&self) -> (r: U512)
        ensures
            r.val() == self.val() / 2,
    {
        let r = U512 {
            x0: self.x0 / 2 + (self.x1 % 2) * 0x8000_0000_0000_0000,
            x1: self.x1 / 2 + (self.x2 % 2) * 0x8000_0000_0000_0000,
            x2: self.x2 / 2 + (self.x3 % 2) * 0x8000_0000_0000_0000,
            x3: self.x3 / 2 + (self.x4 % 2) * 0x8000_0000_0000_0000,
            x4: self.x4 / 2 + (self.x5 % 2) * 0x8000_0000_0000_0000,
            x5: self.x5 / 2 + (self.x6 % 2) * 0x8000_0000_0000_0000,
            x6: self.x6 / 2 + (self.x7 % 2) * 0x8000_0000_0000_0000,
            x7: self.x7 / 2,
        };
        proof {
            assert(self.val() == 2 * r.val() + (self.x0 % 2));
            lemma_fundamental_div_mod_converse(self.val() as int, 2, r.val() as int, (self.x0 % 2) as int);
        }
        r
    }

    fn is_odd(&self) -> (r: bool)
        ensures
            r == (self.val() % 2 == 1),
    {
        proof {
            let q: int = (self.x0 / 2) + (self.x1 as int) * 0x8000_0000_0000_0000int
                + (self.x2 as int) * 0x8000_0000_0000_0000_0000_0000_0000_0000int
                + (self.x3 as int) * 0x8000_0000_0000_0000_0000_0000_0000_0000_0000_0000_0000_0000int
                + (self.x4 as int) * 0x8000000000000000000000000000000000000000000000000000000000000000int
                + (self.x5 as int) * 0x80000000000000000000000000000000000000000000000000000000000000000000000000000000int
                + (self.x6 as int) * 0x800000000000000000000000000000000000000000000000000000000000000000000000000000000000000000000000int
                + (self.x7 as int) * 0x8000000000000000000000000000000000000000000000000000000000000000000000000000000000000000000000000000000000000000int;
            assert(self.val() == 2 * q + self.x0 % 2);
            lemma_fundamental_div_mod_converse(self.val() as int, 2, q, (self.x0 % 2) as int);
        }
        self.x0 % 2 == 1
    }

    /// The bits of the value, least significant first.
    fn to_bits(&self) -> (r: Vec<bool>)
        ensures
            r@.len() == 512,
            forall|j: int| 0 <= j < 512 ==> r@[j] == ((self.val() / pow2(j as nat)) % 2 == 1),
    {
        let mut v: Vec<bool> = Vec::new();
        let mut cur: U512 = *self;
        proof {
            lemma_pow2_values();
        }
        let mut i: usize = 0;
        while i < 512
            invariant
                0 <= i <= 512,
                v@.len() == i,
                cur.val() == self.val() / pow2(i as nat),
                forall|j: int| 0 <= j < i ==> v@[j] == ((self.val() / pow2(j as nat)) % 2 == 1),
            decreases 512 - i,
        {
            let b = cur.is_odd();
            v.push(b);
            let next = cur.half();
            proof {
                lemma2_to64();
                lemma_pow2_adds(i as nat, 1);
                lemma_pow2_pos(i as nat);
                lemma_div_denominator(self.val() as int, pow2(i as nat) as int, 2);
                assert(next.val() == self.val() / pow2((i + 1) as nat));
            }
            cur = next;
            i += 1;
        }
        v
    }

    /// Long division by a 256-bit modulus: the remainder, and the
    /// quotient when it fits 256 bits (None signals quotient overflow).
    pub fn divrem(&self, m: &U256) -> (r: (Option<U256>, U256))
        requires
            m.val() > 0,
        ensures
            r.1.val() == self.val() % m.val(),
            match r.0 {
                Some(q) => q.val() == self.val() / m.val(),
                None => self.val() / m.val() >= p256(),
            },
    {
        let bits = self.to_bits();
        let mut rem = U256::zero();
        let mut quo = U256::zero();
        let mut ovf = false;
        let ghost mut qv: nat = 0nat;
        proof {
            lemma_pow2_values_512();
            lemma_pow2_pos(512);
            lemma_basic_div(self.val() as int, pow2(512) as int);
            lemma_mul_basics_2(m.val() as int);
        }
        let mut i: usize = 0;
        while i < 512
            invariant
                0 <= i <= 512,
                m.val() > 0,
                bits@.len() == 512,
                forall|j: int| 0 <= j < 512 ==> bits@[j] == ((self.val() / pow2(j as nat)) % 2 == 1),
                rem.val() < m.val(),
                self.val() / pow2((512 - i) as nat) == qv * m.val() + rem.val(),
                !ovf ==> quo.val() == qv,
                ovf ==> qv >= p256(),
            decreases 512 - i,
        {
            let ghost h: nat = self.val() / pow2((512 - i) as nat);
            let ghost h2: nat = self.val() / pow2((511 - i) as nat);
            proof {
                lemma_pow2_values();
                lemma_pow2_adds((511 - i) as nat, 1);
                lemma_pow2_pos((511 - i) as nat);
                lemma_div_denominator(self.val() as int, pow2((511 - i) as nat) as int, 2);
                assert(h == h2 / 2);
                lemma_fundamental_div_mod(h2 as int, 2);
                assert(h2 == 2 * h + h2 % 2);
            }
            let bit = bits[511 - i];
            let ghost bitv: nat = if bit { 1nat } else { 0nat };
            // t = 2*rem + bit, held as a carry flag plus 256 bits
            let (d0, c0) = rem.add_carry(&rem);
            let one = U256::one();
            let (d1, c1) = if bit { d0.add_carry(&one) } else { (d0, false) };
            let cc = c0 || c1;
            let ghost t: nat = 2 * rem.val() + bitv;
            proof {
                assert(d1.val() + (if cc { p256() } else { 0nat }) == t);
            }
            let qbit = if cc { true } else { !d1.lt(m) };
            let nrem = if qbit {
                let (d2, _) = d1.sub_borrow(m);
                proof {
                    assert(t < 2 * m.val());
                    assert(d2.val() == t - m.val());
                }
                d2
            } else {
                d1
            };
            proof {
                // h2 == 2*(qv*m + rem) + bit == (2*qv + qbit)*m + nrem
                let qb: nat = if qbit { 1nat } else { 0nat };
                assert(h2 == (2 * qv + qb) * m.val() + nrem.val()) by (nonlinear_arith)
                    requires
                        h2 == 2 * (qv * m.val() + rem.val()) + bitv,
                        nrem.val() == 2 * rem.val() + bitv - qb * m.val(),
                        qb == (if qbit { 1nat } else { 0nat }),
                ;
            }
            rem = nrem;
            // quotient accumulation with overflow tracking
            let (q2, qc0) = quo.add_carry(&quo);
            let (q3, qc1) = if qbit { q2.add_carry(&one) } else { (q2, false) };
            proof {
                let qb: nat = if qbit { 1nat } else { 0nat };
                if !ovf {
                    assert(q3.val() + (if qc0 || qc1 { p256() } else { 0nat }) == 2 * qv + qb);
                }
                qv = 2 * qv + qb;
            }
            if qc0 || qc1 {
                ovf = true;
            }
            quo = q3;
            i += 1;
        }
        proof {
            lemma_pow2_values();
            lemma_div_basics_2(self.val() as int);
            lemma_fundamental_div_mod_converse(self.val() as int, m.val() as int, qv as int, rem.val() as int);
        }
        (if ovf { None } else { Some(quo) }, rem)
    }
}

} // verus!
