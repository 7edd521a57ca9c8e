//! Unsigned 256-bit integers made of four 64-bit limbs, least significant first.

use vstd::prelude::*;

verus! {

/// 2^64.
pub open spec fn limb_base() -> int {
    0x1_0000_0000_0000_0000
}

/// 2^128.
pub open spec fn limb_base2() -> int {
    0x1_0000_0000_0000_0000_0000_0000_0000_0000int
}

/// 2^192.
pub open spec fn limb_base3() -> int {
    0x1_0000_0000_0000_0000_0000_0000_0000_0000_0000_0000_0000_0000int
}

/// 2^256, one more than the largest value of a `U256`.
pub open spec fn u256_modulus() -> int {
    0x1_0000_0000_0000_0000int * 0x1_0000_0000_0000_0000_0000_0000_0000_0000_0000_0000_0000_0000int
}

/// The value of four 64-bit limbs, `l0` least significant.
pub open spec fn limbs_value(l0: u64, l1: u64, l2: u64, l3: u64) -> nat {
    (l0 + l1 * limb_base() + l2 * limb_base2() + l3 * limb_base3()) as nat
}

/// An unsigned 256-bit integer; `l0` is the least significant limb.
#[derive(Clone, Copy, Debug)]
pub struct U256 {
    pub l0: u64,
    pub l1: u64,
    pub l2: u64,
    pub l3: u64,
}

impl View for U256 {
    type V = nat;

    open spec fn view(&self) -> nat {
        limbs_value(self.l0, self.l1, self.l2, self.l3)
    }
}

/// Every `U256` is below 2^256.
pub proof fn lemma_u256_bound(x: U256)
    ensures
        x@ < u256_modulus(),
{
}

impl U256 {
    /// The value zero.
    pub fn zero() -> (r: U256)
        ensures
            r@ == 0,
    {
        U256 { l0: 0, l1: 0, l2: 0, l3: 0 }
    }

    /// Builds a value from its four limbs, least significant first.
    pub fn from_limbs(limbs: [u64; 4]) -> (r: U256)
        ensures
            r.l0 == limbs[0],
            r.l1 == limbs[1],
            r.l2 == limbs[2],
            r.l3 == limbs[3],
    {
        U256 { l0: limbs[0], l1: limbs[1], l2: limbs[2], l3: limbs[3] }
    }

    /// The four limbs, least significant first.
    pub fn to_limbs(&self) -> (r: [u64; 4])
        ensures
            r[0] == self.l0,
            r[1] == self.l1,
            r[2] == self.l2,
            r[3] == self.l3,
    {
        [self.l0, self.l1, self.l2, self.l3]
    }

    /// Whether two values are equal.
    pub fn eq(&self, other: &U256) -> (r: bool)
        ensures
            r == (self@ == other@),
    {
        !self.lt(other) && !other.lt(self)
    }

    /// Whether `self < other`.
    pub fn lt(&self, other: &U256) -> (r: bool)
        ensures
            r == (self@ < other@),
    {
        if self.l3 != other.l3 {
            self.l3 < other.l3
        } else if self.l2 != other.l2 {
            self.l2 < other.l2
        } else if self.l1 != other.l1 {
            self.l1 < other.l1
        } else {
            self.l0 < other.l0
        }
    }

    /// Whether `self <= other`.
    pub fn le(&self, other: &U256) -> (r: bool)
        ensures
            r == (self@ <= other@),
    {
        !other.lt(self)
    }

    /// The smaller of two values.
    pub fn min(self, other: U256) -> (r: U256)
        ensures
            r@ == if self@ <= other@ { self@ } else { other@ },
    {
        if other.lt(&self) {
            other
        } else {
            self
        }
    }
}

/// One step of long division: a remainder below `d` followed by one more limb
/// gives a quotient digit that fits in a limb.
proof fn lemma_div_step(r: int, l: int, d: int, q: int, r2: int)
    by (nonlinear_arith)
    requires
        0 <= r < d,
        0 <= l < 0x1_0000_0000_0000_0000int,
        r * 0x1_0000_0000_0000_0000int + l == q * d + r2,
        0 <= r2 < d,
    ensures
        0 <= q < 0x1_0000_0000_0000_0000int,
{
}

proof fn lemma_long_division(
    l0: int,
    l1: int,
    l2: int,
    l3: int,
    d: int,
    q0: int,
    q1: int,
    q2: int,
    q3: int,
    r0: int,
    r1: int,
    r2: int,
    r3: int,
)
    by (nonlinear_arith)
    requires
        l3 == q3 * d + r3,
        r3 * 0x1_0000_0000_0000_0000int + l2 == q2 * d + r2,
        r2 * 0x1_0000_0000_0000_0000int + l1 == q1 * d + r1,
        r1 * 0x1_0000_0000_0000_0000int + l0 == q0 * d + r0,
    ensures
        l0 + l1 * 0x1_0000_0000_0000_0000int + l2 * 0x1_0000_0000_0000_0000_0000_0000_0000_0000int
            + l3 * 0x1_0000_0000_0000_0000_0000_0000_0000_0000_0000_0000_0000_0000int == (q0 + q1
            * 0x1_0000_0000_0000_0000int + q2 * 0x1_0000_0000_0000_0000_0000_0000_0000_0000int + q3
            * 0x1_0000_0000_0000_0000_0000_0000_0000_0000_0000_0000_0000_0000int) * d + r0,
{
}

/// Carry propagation of a multiplication by one limb.
proof fn lemma_mul_small(
    l0: int,
    l1: int,
    l2: int,
    l3: int,
    m: int,
    s0: int,
    s1: int,
    s2: int,
    s3: int,
    c0: int,
    c1: int,
    c2: int,
    c3: int,
)
    requires
        l0 * m == s0 + c0 * 0x1_0000_0000_0000_0000int,
        l1 * m + c0 == s1 + c1 * 0x1_0000_0000_0000_0000int,
        l2 * m + c1 == s2 + c2 * 0x1_0000_0000_0000_0000int,
        l3 * m + c2 == s3 + c3 * 0x1_0000_0000_0000_0000int,
    ensures
        (l0 + l1 * 0x1_0000_0000_0000_0000int + l2 * 0x1_0000_0000_0000_0000_0000_0000_0000_0000int
            + l3 * 0x1_0000_0000_0000_0000_0000_0000_0000_0000_0000_0000_0000_0000int) * m == s0 + s1
            * 0x1_0000_0000_0000_0000int + s2 * 0x1_0000_0000_0000_0000_0000_0000_0000_0000int + s3
            * 0x1_0000_0000_0000_0000_0000_0000_0000_0000_0000_0000_0000_0000int + c3
            * u256_modulus(),
{
    assert((l0 + l1 * 0x1_0000_0000_0000_0000int + l2 * 0x1_0000_0000_0000_0000_0000_0000_0000_0000int
        + l3 * 0x1_0000_0000_0000_0000_0000_0000_0000_0000_0000_0000_0000_0000int) * m == l0 * m + (
    l1 * m) * 0x1_0000_0000_0000_0000int + (l2 * m) * 0x1_0000_0000_0000_0000_0000_0000_0000_0000int
        + (l3 * m) * 0x1_0000_0000_0000_0000_0000_0000_0000_0000_0000_0000_0000_0000int)
        by (nonlinear_arith);
    let p0 = l0 * m;
    let p1 = l1 * m;
    let p2 = l2 * m;
    let p3 = l3 * m;
    assert(p1 * 0x1_0000_0000_0000_0000int == s1 * 0x1_0000_0000_0000_0000int + c1
        * 0x1_0000_0000_0000_0000_0000_0000_0000_0000int - c0 * 0x1_0000_0000_0000_0000int);
    assert(p2 * 0x1_0000_0000_0000_0000_0000_0000_0000_0000int == s2
        * 0x1_0000_0000_0000_0000_0000_0000_0000_0000int + c2
        * 0x1_0000_0000_0000_0000_0000_0000_0000_0000_0000_0000_0000_0000int - c1
        * 0x1_0000_0000_0000_0000_0000_0000_0000_0000int);
    assert(c3 * u256_modulus() == (c3 * 0x1_0000_0000_0000_0000int)
        * 0x1_0000_0000_0000_0000_0000_0000_0000_0000_0000_0000_0000_0000int) by (nonlinear_arith);
    assert(p3 * 0x1_0000_0000_0000_0000_0000_0000_0000_0000_0000_0000_0000_0000int == s3
        * 0x1_0000_0000_0000_0000_0000_0000_0000_0000_0000_0000_0000_0000int + c3
        * u256_modulus()
        - c2 * 0x1_0000_0000_0000_0000_0000_0000_0000_0000_0000_0000_0000_0000int);
}

proof fn lemma_limb_product(l: int, m: int, c: int)
    by (nonlinear_arith)
    requires
        0 <= l < 0x1_0000_0000_0000_0000int,
        0 <= m < 0x1_0000_0000_0000_0000int,
        0 <= c < 0x1_0000_0000_0000_0000int,
    ensures
        0 <= l * m + c < 0x1_0000_0000_0000_0000_0000_0000_0000_0000int,
{
}

impl U256 {
    /// Quotient and remainder of a division by a nonzero 64-bit divisor.
    pub fn div_rem_u64(&self, d: u64) -> (r: (U256, u64))
        requires
            d > 0,
        ensures
            r.0@ == self@ / (d as nat),
            r.1 == self@ % (d as nat),
    {
        let b: u128 = 0x1_0000_0000_0000_0000;
        let dd = d as u128;
        let c3 = self.l3 as u128;
        let q3 = c3 / dd;
        let r3 = c3 % dd;
        proof {
            vstd::arithmetic::div_mod::lemma_fundamental_div_mod(c3 as int, dd as int);
            lemma_div_step(0, c3 as int, dd as int, q3 as int, r3 as int);
        }
        assert(r3 * b + (self.l2 as u128) < 0x1_0000_0000_0000_0000_0000_0000_0000_0000int) by (nonlinear_arith)
            requires r3 < dd, dd <= 0xffff_ffff_ffff_ffff, b == 0x1_0000_0000_0000_0000u128, self.l2 <= 0xffff_ffff_ffff_ffffu64;
        let c2 = r3 * b + self.l2 as u128;
        let q2 = c2 / dd;
        let r2 = c2 % dd;
        proof {
            vstd::arithmetic::div_mod::lemma_fundamental_div_mod(c2 as int, dd as int);
            lemma_div_step(r3 as int, self.l2 as int, dd as int, q2 as int, r2 as int);
        }
        assert(r2 * b + (self.l1 as u128) < 0x1_0000_0000_0000_0000_0000_0000_0000_0000int) by (nonlinear_arith)
            requires r2 < dd, dd <= 0xffff_ffff_ffff_ffff, b == 0x1_0000_0000_0000_0000u128, self.l1 <= 0xffff_ffff_ffff_ffffu64;
        let c1 = r2 * b + self.l1 as u128;
        let q1 = c1 / dd;
        let r1 = c1 % dd;
        proof {
            vstd::arithmetic::div_mod::lemma_fundamental_div_mod(c1 as int, dd as int);
            lemma_div_step(r2 as int, self.l1 as int, dd as int, q1 as int, r1 as int);
        }
        assert(r1 * b + (self.l0 as u128) < 0x1_0000_0000_0000_0000_0000_0000_0000_0000int) by (nonlinear_arith)
            requires r1 < dd, dd <= 0xffff_ffff_ffff_ffff, b == 0x1_0000_0000_0000_0000u128, self.l0 <= 0xffff_ffff_ffff_ffffu64;
        let c0 = r1 * b + self.l0 as u128;
        let q0 = c0 / dd;
        let r0 = c0 % dd;
        proof {
            vstd::arithmetic::div_mod::lemma_fundamental_div_mod(c0 as int, dd as int);
            lemma_div_step(r1 as int, self.l0 as int, dd as int, q0 as int, r0 as int);
            lemma_long_division(
                self.l0 as int, self.l1 as int, self.l2 as int, self.l3 as int, dd as int,
                q0 as int, q1 as int, q2 as int, q3 as int,
                r0 as int, r1 as int, r2 as int, r3 as int,
            );
        }
        let q = U256 { l0: q0 as u64, l1: q1 as u64, l2: q2 as u64, l3: q3 as u64 };
        proof {
            vstd::arithmetic::div_mod::lemma_fundamental_div_mod_converse(
                self@ as int, d as int, q@ as int, r0 as int);
        }
        (q, r0 as u64)
    }

    /// Product with a 64-bit factor, as the low 256 bits and the carry above them.
    pub fn mul_u64(&self, m: u64) -> (r: (U256, u64))
        ensures
            r.1 == 0 ==> self@ * m == r.0@,
            r.1 > 0 ==> self@ * m >= u256_modulus(),
    {
        let b: u128 = 0x1_0000_0000_0000_0000;
        let mm = m as u128;
        proof { lemma_limb_product(self.l0 as int, m as int, 0); }
        let p0 = (self.l0 as u128) * mm;
        let s0 = p0 % b;
        let c0 = p0 / b;
        assert(c0 < b) by (nonlinear_arith)
            requires p0 < 0x1_0000_0000_0000_0000_0000_0000_0000_0000int, c0 == p0 / b, b == 0x1_0000_0000_0000_0000u128;
        proof { lemma_limb_product(self.l1 as int, m as int, c0 as int); }
        let p1 = (self.l1 as u128) * mm + c0;
        let s1 = p1 % b;
        let c1 = p1 / b;
        assert(c1 < b) by (nonlinear_arith)
            requires p1 < 0x1_0000_0000_0000_0000_0000_0000_0000_0000int, c1 == p1 / b, b == 0x1_0000_0000_0000_0000u128;
        proof { lemma_limb_product(self.l2 as int, m as int, c1 as int); }
        let p2 = (self.l2 as u128) * mm + c1;
        let s2 = p2 % b;
        let c2 = p2 / b;
        assert(c2 < b) by (nonlinear_arith)
            requires p2 < 0x1_0000_0000_0000_0000_0000_0000_0000_0000int, c2 == p2 / b, b == 0x1_0000_0000_0000_0000u128;
        proof { lemma_limb_product(self.l3 as int, m as int, c2 as int); }
        let p3 = (self.l3 as u128) * mm + c2;
        let s3 = p3 % b;
        let c3 = p3 / b;
        assert(c3 < b) by (nonlinear_arith)
            requires p3 < 0x1_0000_0000_0000_0000_0000_0000_0000_0000int, c3 == p3 / b, b == 0x1_0000_0000_0000_0000u128;
        proof {
            vstd::arithmetic::div_mod::lemma_fundamental_div_mod(p0 as int, b as int);
            vstd::arithmetic::div_mod::lemma_fundamental_div_mod(p1 as int, b as int);
            vstd::arithmetic::div_mod::lemma_fundamental_div_mod(p2 as int, b as int);
            vstd::arithmetic::div_mod::lemma_fundamental_div_mod(p3 as int, b as int);
            lemma_mul_small(
                self.l0 as int, self.l1 as int, self.l2 as int, self.l3 as int, m as int,
                s0 as int, s1 as int, s2 as int, s3 as int,
                c0 as int, c1 as int, c2 as int, c3 as int,
            );
            let v = U256 { l0: s0 as u64, l1: s1 as u64, l2: s2 as u64, l3: s3 as u64 }@;
            assert(c3 > 0 ==> c3 * u256_modulus() >= u256_modulus()) by (nonlinear_arith);
            assert(c3 == 0 ==> c3 * u256_modulus() == 0) by (nonlinear_arith);
            assert(self@ * m == (self.l0 + self.l1 * 0x1_0000_0000_0000_0000int + self.l2
                * 0x1_0000_0000_0000_0000_0000_0000_0000_0000int + self.l3
                * 0x1_0000_0000_0000_0000_0000_0000_0000_0000_0000_0000_0000_0000int) * m);
            assert(v == s0 + s1 * 0x1_0000_0000_0000_0000int + s2
                * 0x1_0000_0000_0000_0000_0000_0000_0000_0000int + s3
                * 0x1_0000_0000_0000_0000_0000_0000_0000_0000_0000_0000_0000_0000int);
        }
        (U256 { l0: s0 as u64, l1: s1 as u64, l2: s2 as u64, l3: s3 as u64 }, c3 as u64)
    }

    /// Sum with a 64-bit addend, as the low 256 bits and whether it overflowed.
    pub fn add_u64(&self, a: u64) -> (r: (U256, bool))
        ensures
            self@ + a == r.0@ + (if r.1 { u256_modulus() } else { 0 }),
    {
        let (s0, c0) = if self.l0 <= u64::MAX - a {
            (self.l0 + a, false)
        } else {
            (self.l0 - (u64::MAX - a) - 1, true)
        };
        let (s1, c1) = if !c0 {
            (self.l1, false)
        } else if self.l1 < u64::MAX {
            (self.l1 + 1, false)
        } else {
            (0u64, true)
        };
        let (s2, c2) = if !c1 {
            (self.l2, false)
        } else if self.l2 < u64::MAX {
            (self.l2 + 1, false)
        } else {
            (0u64, true)
        };
        let (s3, c3) = if !c2 {
            (self.l3, false)
        } else if self.l3 < u64::MAX {
            (self.l3 + 1, false)
        } else {
            (0u64, true)
        };
        (U256 { l0: s0, l1: s1, l2: s2, l3: s3 }, c3)
    }
}

/// 256^n.
pub open spec fn pow256(n: nat) -> nat
    decreases n,
{
    if n == 0 {
        1
    } else {
        256 * pow256((n - 1) as nat)
    }
}

/// The number that a sequence of bytes spells in big-endian order.
pub open spec fn be_value(s: Seq<u8>) -> nat
    decreases s.len(),
{
    if s.len() == 0 {
        0
    } else {
        (be_value(s.drop_last()) * 256 + s.last()) as nat
    }
}

/// Byte `j` (from the least significant end) of a 64-bit limb.
pub open spec fn limb_byte(l: u64, j: nat) -> u8 {
    ((l as nat / pow256(j)) % 256) as u8
}

/// The 32 bytes of a value, least significant first.
pub open spec fn le_bytes(x: U256) -> Seq<u8> {
    Seq::new(
        32,
        |i: int|
            {
                let limb = if i < 8 {
                    x.l0
                } else if i < 16 {
                    x.l1
                } else if i < 24 {
                    x.l2
                } else {
                    x.l3
                };
                limb_byte(limb, (i % 8) as nat)
            },
    )
}

/// The decimal digits of a number, as ASCII bytes, most significant first,
/// without leading zeros ("0" for zero).
pub open spec fn dec_digits(n: nat) -> Seq<u8>
    decreases n,
{
    if n < 10 {
        seq![(48 + n) as u8]
    } else {
        dec_digits(n / 10).push((48 + n % 10) as u8)
    }
}

/// Whether every byte is an ASCII decimal digit.
pub open spec fn all_digits(s: Seq<u8>) -> bool {
    forall|i: int| 0 <= i < s.len() ==> 48 <= #[trigger] s[i] <= 57
}

/// The number that a sequence of ASCII decimal digits spells (zero when empty).
pub open spec fn dec_value(s: Seq<u8>) -> nat
    decreases s.len(),
{
    if s.len() == 0 {
        0
    } else {
        (dec_value(s.drop_last()) * 10 + (s.last() - 48)) as nat
    }
}

proof fn lemma_pow256_small()
    ensures
        pow256(0) == 1,
        pow256(1) == 0x100,
        pow256(2) == 0x1_0000,
        pow256(3) == 0x100_0000,
        pow256(4) == 0x1_0000_0000,
        pow256(5) == 0x100_0000_0000,
        pow256(6) == 0x1_0000_0000_0000,
        pow256(7) == 0x100_0000_0000_0000,
        pow256(8) == 0x1_0000_0000_0000_0000,
{
    reveal_with_fuel(pow256, 9);
}

proof fn lemma_be_value_append(a: Seq<u8>, b: Seq<u8>)
    ensures
        be_value(a + b) == be_value(a) * pow256(b.len()) + be_value(b),
    decreases b.len(),
{
    if b.len() == 0 {
        assert(a + b =~= a);
        assert(pow256(0) == 1);
        assert(be_value(b) == 0);
        assert(be_value(a) * 1 == be_value(a));
    } else {
        let n = b.len();
        lemma_be_value_append(a, b.drop_last());
        assert((a + b).drop_last() =~= a + b.drop_last());
        assert((a + b).last() == b.last());
        assert(pow256(n) == 256 * pow256((n - 1) as nat));
        let x = be_value(a);
        let p = pow256((n - 1) as nat);
        assert(x * pow256(n) == (x * p) * 256) by (nonlinear_arith)
            requires
                pow256(n) == 256 * p,
        ;
        let y = be_value(b.drop_last());
        assert(be_value(b) == y * 256 + b.last());
        assert(be_value(a + b) == be_value(a + b.drop_last()) * 256 + b.last());
        assert(be_value(a + b.drop_last()) == x * p + y);
        assert((x * p + y) * 256 == (x * p) * 256 + y * 256);
    }
}

proof fn lemma_be_value_append8(a: Seq<u8>, b: Seq<u8>)
    requires
        b.len() == 8,
    ensures
        be_value(a + b) == be_value(a) * 0x1_0000_0000_0000_0000int + be_value(b),
{
    lemma_be_value_append(a, b);
    lemma_pow256_small();
    let x = be_value(a);
    assert(x * pow256(8) == x * 0x1_0000_0000_0000_0000int) by (nonlinear_arith)
        requires
            pow256(8) == 0x1_0000_0000_0000_0000int,
    ;
}

proof fn lemma_dec_value_prefix_monotone(s: Seq<u8>, i: int, j: int)
    requires
        all_digits(s),
        0 <= i <= j <= s.len(),
    ensures
        dec_value(s.take(i)) <= dec_value(s.take(j)),
    decreases j - i,
{
    if i < j {
        lemma_dec_value_prefix_monotone(s, i, j - 1);
        assert(s.take(j).drop_last() =~= s.take(j - 1));
    }
}

/// The big-endian value of 8 bytes starting at `off`.
pub(crate) fn be_limb(b: &[u8], off: usize) -> (r: u64)
    requires
        off + 8 <= b@.len(),
    ensures
        r == be_value(b@.subrange(off as int, off + 8)),
{
    let mut acc: u64 = 0;
    let mut i: usize = 0;
    proof { lemma_pow256_small(); }
    assert(b@.len() == b.len());
    while i < 8
        invariant
            off + 8 <= b@.len(),
            b@.len() == b.len(),
            i <= 8,
            acc == be_value(b@.subrange(off as int, off + i)),
            acc < pow256(i as nat),
            pow256(0) == 1,
            pow256(1) == 0x100,
            pow256(2) == 0x1_0000,
            pow256(3) == 0x100_0000,
            pow256(4) == 0x1_0000_0000,
            pow256(5) == 0x100_0000_0000,
            pow256(6) == 0x1_0000_0000_0000,
            pow256(7) == 0x100_0000_0000_0000,
            pow256(8) == 0x1_0000_0000_0000_0000,
        decreases 8 - i,
    {
        let ghost sub = b@.subrange(off as int, off + i + 1);
        assert(sub.drop_last() =~= b@.subrange(off as int, off + i));
        assert(sub.last() == b@[off + i]);
        assert(acc < 0x100_0000_0000_0000) by {
            if i == 0 {} else if i == 1 {} else if i == 2 {} else if i == 3 {} else if i == 4 {}
            else if i == 5 {} else if i == 6 {} else {}
        }
        assert(pow256((i + 1) as nat) == 256 * pow256(i as nat));
        acc = acc * 256 + b[off + i] as u64;
        i = i + 1;
    }
    acc
}

/// The decimal number in `s`, if it consists of ASCII digits only and is below 2^256
/// (the empty sequence reads as zero).
pub fn parse_dec_bytes(s: &[u8]) -> (r: Option<U256>)
    ensures
        r is Some <==> (all_digits(s@) && dec_value(s@) < u256_modulus()),
        r matches Some(x) ==> x@ == dec_value(s@),
{
    let mut acc = U256::zero();
    let mut i: usize = 0;
    while i < s.len()
        invariant
            i <= s@.len(),
            all_digits(s@.take(i as int)),
            acc@ == dec_value(s@.take(i as int)),
        decreases s@.len() - i,
    {
        let ghost next = s@.take(i + 1);
        assert(next.drop_last() =~= s@.take(i as int));
        assert(next.last() == s@[i as int]);
        let c = s[i];
        if c < 48 || c > 57 {
            assert(!all_digits(s@)) by {
                assert(!(48 <= s@[i as int] <= 57));
            }
            return None;
        }
        assert(all_digits(next)) by {
            assert forall|k: int| 0 <= k < next.len() implies 48 <= #[trigger] next[k] <= 57 by {
                if k < i {
                    assert(next[k] == s@.take(i as int)[k]);
                }
            }
        }
        assert(dec_value(next) == acc@ * 10 + (c - 48));
        let (m, carry) = acc.mul_u64(10);
        if carry > 0 {
            proof {
                lemma_u256_bound(m);
                assert(dec_value(next) >= u256_modulus());
                if all_digits(s@) {
                    assert(s@.take(s@.len() as int) =~= s@);
                    lemma_dec_value_prefix_monotone(s@, i + 1, s@.len() as int);
                }
            }
            return None;
        }
        let (a, over) = m.add_u64((c - 48) as u64);
        if over {
            proof {
                lemma_u256_bound(a);
                assert(dec_value(next) >= u256_modulus());
                if all_digits(s@) {
                    assert(s@.take(s@.len() as int) =~= s@);
                    lemma_dec_value_prefix_monotone(s@, i + 1, s@.len() as int);
                }
            }
            return None;
        }
        acc = a;
        i = i + 1;
    }
    assert(s@.take(s@.len() as int) =~= s@);
    proof { lemma_u256_bound(acc); }
    Some(acc)
}

impl U256 {
    /// The value of 32 big-endian bytes.
    pub fn from_be_bytes(b: &[u8]) -> (r: U256)
        requires
            b@.len() == 32,
        ensures
            r@ == be_value(b@),
    {
        let l3 = be_limb(b, 0);
        let l2 = be_limb(b, 8);
        let l1 = be_limb(b, 16);
        let l0 = be_limb(b, 24);
        proof {
            lemma_pow256_small();
            let s = b@;
            let s0 = s.subrange(0, 8);
            let s1 = s.subrange(8, 16);
            let s2 = s.subrange(16, 24);
            let s3 = s.subrange(24, 32);
            lemma_be_value_append8(s0, s1);
            lemma_be_value_append8(s0 + s1, s2);
            lemma_be_value_append8(s0 + s1 + s2, s3);
            assert(s0 + s1 + s2 + s3 =~= s);
            let v0 = be_value(s0);
            let v1 = be_value(s1);
            let v2 = be_value(s2);
            let v3 = be_value(s3);
            assert(((v0 * 0x1_0000_0000_0000_0000int + v1) * 0x1_0000_0000_0000_0000int + v2)
                * 0x1_0000_0000_0000_0000int + v3 == v3 + v2 * 0x1_0000_0000_0000_0000int + v1
                * 0x1_0000_0000_0000_0000_0000_0000_0000_0000int + v0
                * 0x1_0000_0000_0000_0000_0000_0000_0000_0000_0000_0000_0000_0000int)
                by (nonlinear_arith);
        }
        U256 { l0, l1, l2, l3 }
    }

    /// The 32 bytes of the value, least significant first.
    pub fn to_le_bytes(&self) -> (r: Vec<u8>)
        ensures
            r@ == le_bytes(*self),
    {
        let mut out: Vec<u8> = Vec::new();
        let limbs = [self.l0, self.l1, self.l2, self.l3];
        let mut k: usize = 0;
        while k < 4
            invariant
                k <= 4,
                limbs[0] == self.l0,
                limbs[1] == self.l1,
                limbs[2] == self.l2,
                limbs[3] == self.l3,
                out@.len() == 8 * k,
                forall|i: int| 0 <= i < 8 * k ==> out@[i] == le_bytes(*self)[i],
            decreases 4 - k,
        {
            let limb = limbs[k];
            let mut x = limb;
            let mut j: usize = 0;
            assert(pow256(0) == 1);
            while j < 8
                invariant
                    k < 4,
                    j <= 8,
                    limb == limbs[k as int],
                    limbs[0] == self.l0,
                    limbs[1] == self.l1,
                    limbs[2] == self.l2,
                    limbs[3] == self.l3,
                    out@.len() == 8 * k + j,
                    x as nat == limb as nat / pow256(j as nat),
                    forall|i: int| 0 <= i < 8 * k + j ==> out@[i] == le_bytes(*self)[i],
                decreases 8 - j,
            {
                proof {
                    assert(pow256((j + 1) as nat) == pow256(j as nat) * 256);
                    lemma_pow256_positive(j as nat);
                    vstd::arithmetic::div_mod::lemma_div_denominator(
                        limb as int, pow256(j as nat) as int, 256);
                }
                out.push((x % 256) as u8);
                x = x / 256;
                j = j + 1;
            }
            k = k + 1;
        }
        out
    }

    /// The decimal digits of the value, as ASCII bytes without leading zeros.
    pub fn to_dec_bytes(&self) -> (r: Vec<u8>)
        ensures
            r@ == dec_digits(self@),
    {
        let mut cur = *self;
        let mut rev: Vec<u8> = Vec::new();
        let ten = U256 { l0: 10, l1: 0, l2: 0, l3: 0 };
        while !cur.lt(&ten)
            invariant
                ten@ == 10,
                dec_digits(self@) == dec_digits(cur@) + rev@.reverse(),
            decreases cur@,
        {
            let (q, d) = cur.div_rem_u64(10);
            proof {
                assert(rev@.push((48 + d) as u8).reverse() =~= seq![(48 + d) as u8] + rev@.reverse());
            }
            rev.push((48 + d) as u8);
            cur = q;
        }
        let mut out: Vec<u8> = Vec::new();
        out.push((48 + cur.l0) as u8);
        let mut i = rev.len();
        while i > 0
            invariant
                i <= rev@.len(),
                dec_digits(self@) == dec_digits(cur@) + rev@.reverse(),
                cur@ < 10,
                out@ == dec_digits(cur@) + rev@.subrange(i as int, rev@.len() as int).reverse(),
            decreases i,
        {
            i = i - 1;
            assert(rev@.subrange(i as int, rev@.len() as int).reverse() =~= rev@.subrange(i + 1, rev@.len() as int).reverse().push(rev@[i as int]));
            out.push(rev[i]);
        }
        assert(rev@.subrange(0, rev@.len() as int) =~= rev@);
        out
    }
}

/// 256^n is positive.
pub proof fn lemma_pow256_positive(n: nat)
    ensures
        pow256(n) > 0,
    decreases n,
{
    if n > 0 {
        lemma_pow256_positive((n - 1) as nat);
    }
}

/// The `U256` whose value is `n` (for `n` below 2^256).
pub open spec fn u256_of(n: nat) -> U256 {
    U256 {
        l0: (n % 0x1_0000_0000_0000_0000) as u64,
        l1: ((n / 0x1_0000_0000_0000_0000) % 0x1_0000_0000_0000_0000) as u64,
        l2: ((n / 0x1_0000_0000_0000_0000_0000_0000_0000_0000int as nat) % 0x1_0000_0000_0000_0000) as u64,
        l3: ((n / 0x1_0000_0000_0000_0000_0000_0000_0000_0000_0000_0000_0000_0000int as nat)
            % 0x1_0000_0000_0000_0000) as u64,
    }
}

/// A value determines its limbs.
pub proof fn lemma_u256_of_view(x: U256)
    ensures
        u256_of(x@) == x,
{
    let b1 = 0x1_0000_0000_0000_0000int;
    let b2 = 0x1_0000_0000_0000_0000_0000_0000_0000_0000int;
    let b3 = 0x1_0000_0000_0000_0000_0000_0000_0000_0000_0000_0000_0000_0000int;
    let n = x@ as int;
    let l0 = x.l0 as int;
    let l1 = x.l1 as int;
    let l2 = x.l2 as int;
    let l3 = x.l3 as int;
    vstd::arithmetic::div_mod::lemma_fundamental_div_mod_converse(n, b1, l1 + l2 * b1 + l3 * b2, l0);
    vstd::arithmetic::div_mod::lemma_fundamental_div_mod_converse(n, b2, l2 + l3 * b1, l0 + l1 * b1);
    vstd::arithmetic::div_mod::lemma_fundamental_div_mod_converse(n, b3, l3, l0 + l1 * b1 + l2 * b2);
    vstd::arithmetic::div_mod::lemma_fundamental_div_mod_converse(l1 + l2 * b1 + l3 * b2, b1, l2 + l3 * b1, l1);
    vstd::arithmetic::div_mod::lemma_fundamental_div_mod_converse(l2 + l3 * b1, b1, l3, l2);
    vstd::arithmetic::div_mod::lemma_fundamental_div_mod_converse(l3, b1, 0, l3);
}

/// Two values with the same number are the same value.
pub proof fn lemma_u256_view_injective(x: U256, y: U256)
    requires
        x@ == y@,
    ensures
        x == y,
{
    lemma_u256_of_view(x);
    lemma_u256_of_view(y);
}

/// The decimal text of a number reads back as that number.
pub proof fn law_decimal_roundtrip(n: nat)
    ensures
        all_digits(dec_digits(n)),
        dec_value(dec_digits(n)) == n,
    decreases n,
{
    if n < 10 {
        assert(dec_digits(n).drop_last() =~= Seq::<u8>::empty());
        assert(dec_digits(n).last() == (48 + n) as u8);
        assert(((48 + n) as u8) as int == 48 + n);
        assert(dec_value(Seq::<u8>::empty()) == 0);
        assert(dec_value(dec_digits(n)) == (dec_value(dec_digits(n).drop_last()) * 10 + (dec_digits(n).last()
            - 48)) as nat);
    } else {
        law_decimal_roundtrip(n / 10);
        let d = dec_digits(n / 10);
        assert(dec_digits(n).drop_last() =~= d);
        assert(dec_digits(n).last() == (48 + n % 10) as u8);
        assert(((48 + n % 10) as u8) as int == 48 + n % 10);
        assert((n / 10) * 10 + n % 10 == n);
        assert(dec_value(dec_digits(n)) == (dec_value(d) * 10 + (dec_digits(n).last() - 48)) as nat);
        assert forall|i: int| 0 <= i < dec_digits(n).len() implies 48 <= #[trigger] dec_digits(n)[i] <= 57 by {
            if i < d.len() {
                assert(dec_digits(n)[i] == d[i]);
            }
        }
    }
}

} // verus!
