//! 256-bit unsigned integers, as two 128-bit limbs, with every operation
//! specified over its mathematical value.
use vstd::arithmetic::div_mod::*;
use vstd::arithmetic::mul::*;
use vstd::arithmetic::power2::*;
use vstd::prelude::*;

verus! {

/// 2^64.
pub open spec fn b64() -> nat {
    0x1_0000_0000_0000_0000nat
}

/// 2^128, the weight of the high limb.
pub open spec fn b128() -> nat {
    0x1_0000_0000_0000_0000_0000_0000_0000_0000nat
}

/// 2^256: one more than the largest value a `U256` holds.
pub open spec fn modulus() -> nat {
    0x1_0000_0000_0000_0000_0000_0000_0000_0000_0000_0000_0000_0000_0000_0000_0000_0000nat
}

/// The largest value a `U256` holds.
pub open spec fn u256_max() -> nat {
    (modulus() - 1) as nat
}

/// Relations between the limb weights.
pub proof fn lemma_constants()
    ensures
        b128() == b64() * b64(),
        modulus() == b128() * b128(),
        u256_max() == (b128() - 1) * b128() + b128() - 1,
        b128() == 2 * (b128() / 2),
{
    assert(0x1_0000_0000_0000_0000nat * 0x1_0000_0000_0000_0000nat
        == 0x1_0000_0000_0000_0000_0000_0000_0000_0000nat) by (nonlinear_arith);
    assert(0x1_0000_0000_0000_0000_0000_0000_0000_0000nat
        * 0x1_0000_0000_0000_0000_0000_0000_0000_0000nat
        == 0x1_0000_0000_0000_0000_0000_0000_0000_0000_0000_0000_0000_0000_0000_0000_0000_0000nat)
        by (nonlinear_arith);

    assert((0x1_0000_0000_0000_0000_0000_0000_0000_0000nat - 1)
        * 0x1_0000_0000_0000_0000_0000_0000_0000_0000nat
        == 0xffff_ffff_ffff_ffff_ffff_ffff_ffff_ffff_0000_0000_0000_0000_0000_0000_0000_0000nat)
        by (nonlinear_arith);
}

/// A 256-bit unsigned integer.
#[derive(Clone, Copy, Debug)]
pub struct U256 {
    hi: u128,
    lo: u128,
}

impl View for U256 {
    type V = nat;

    closed spec fn view(&self) -> nat {
        self.hi as nat * b128() + self.lo as nat
    }
}

/// The value of two limbs lies below 2^256.
pub proof fn lemma_limbs_bound(hi: u128, lo: u128)
    ensures
        hi as nat * b128() + lo as nat <= u256_max(),
{
    assert(hi as nat * b128() <= (b128() - 1) * b128()) by (nonlinear_arith)
        requires
            hi < b128(),
    ;
    lemma_constants();
}

/// Two-limb values compare as their high limbs do, and by low limbs when those agree.
proof fn lemma_limbs_lt(h1: u128, l1: u128, h2: u128, l2: u128)
    ensures
        h1 < h2 ==> h1 as nat * b128() + (l1 as nat) < h2 as nat * b128() + (l2 as nat),
{
    if h1 < h2 {
        assert(h1 as nat * b128() + b128() <= h2 as nat * b128()) by (nonlinear_arith)
            requires
                h1 < h2,
        ;
    }
}

/// The limbs of a value are unique.
proof fn lemma_limbs_unique(h1: u128, l1: u128, h2: u128, l2: u128)
    requires
        h1 as nat * b128() + l1 as nat == h2 as nat * b128() + l2 as nat,
    ensures
        h1 == h2,
        l1 == l2,
{
    lemma_limbs_lt(h1, l1, h2, l2);
    lemma_limbs_lt(h2, l2, h1, l1);
}

/// A number below 2^256 splits into limbs.
proof fn lemma_split(v: nat)
    requires
        v < modulus(),
    ensures
        v / b128() < b128(),
        v % b128() < b128(),
        v == (v / b128()) * b128() + v % b128(),
{
    lemma_fundamental_div_mod(v as int, b128() as int);
    lemma_mod_bound(v as int, b128() as int);
    lemma_constants();
    lemma_div_strictly_bounded(v as int, b128() as int, b128() as int);
}

proof fn lemma_div_strictly_bounded(x: int, a: int, b: int)
    requires
        a > 0,
        b >= 0,
        0 <= x < a * b,
    ensures
        x / a < b,
{
    lemma_div_by_multiple(b, a);
    lemma_mul_is_commutative(a, b);
    lemma_div_by_multiple_is_strongly_ordered(x, a * b, b, a);
}

/// The full product of two 128-bit numbers.
fn mul_wide(a: u128, b: u128) -> (r: U256)
    ensures
        r@ == a as nat * b as nat,
{
    let a1 = a / 0x1_0000_0000_0000_0000u128;
    let a0 = a % 0x1_0000_0000_0000_0000u128;
    let b1 = b / 0x1_0000_0000_0000_0000u128;
    let b0 = b % 0x1_0000_0000_0000_0000u128;
    assert(a1 < b64() && b1 < b64()) by {
        lemma_div_strictly_bounded(a as int, b64() as int, b64() as int);
        lemma_div_strictly_bounded(b as int, b64() as int, b64() as int);
    }
    assert(a == a1 * b64() + a0 && b == b1 * b64() + b0) by {
        lemma_fundamental_div_mod(a as int, b64() as int);
        lemma_fundamental_div_mod(b as int, b64() as int);
    }
    assert(a0 * b0 < b128() && a0 * b1 < b128() && a1 * b0 < b128() && a1 * b1 < b128())
        by (nonlinear_arith)
        requires
            a0 < b64(),
            b0 < b64(),
            a1 < b64(),
            b1 < b64(),
    ;
    let p00 = a0 * b0;
    let p01 = a0 * b1;
    let p10 = a1 * b0;
    let p11 = a1 * b1;
    let p00h = p00 / 0x1_0000_0000_0000_0000u128;
    let p00l = p00 % 0x1_0000_0000_0000_0000u128;
    let p01h = p01 / 0x1_0000_0000_0000_0000u128;
    let p01l = p01 % 0x1_0000_0000_0000_0000u128;
    let p10h = p10 / 0x1_0000_0000_0000_0000u128;
    let p10l = p10 % 0x1_0000_0000_0000_0000u128;
    proof {
        lemma_fundamental_div_mod(p00 as int, b64() as int);
        lemma_fundamental_div_mod(p01 as int, b64() as int);
        lemma_fundamental_div_mod(p10 as int, b64() as int);
        lemma_div_strictly_bounded(p00 as int, b64() as int, b64() as int);
        lemma_div_strictly_bounded(p01 as int, b64() as int, b64() as int);
        lemma_div_strictly_bounded(p10 as int, b64() as int, b64() as int);
    }
    let t = p00h + p01l + p10l;
    let th = t / 0x1_0000_0000_0000_0000u128;
    let tl = t % 0x1_0000_0000_0000_0000u128;
    proof {
        lemma_fundamental_div_mod(t as int, b64() as int);
        lemma_div_strictly_bounded(t as int, b64() as int, 3);
    }
    let lo = p00l + tl * 0x1_0000_0000_0000_0000u128;
    proof {
        lemma_constants();
        let v: int = p11 + p01h + p10h + th;
        assert(a as nat * b as nat == p11 * b128() + (p01 + p10) * b64() + p00) by (nonlinear_arith)
            requires
                a == a1 * b64() + a0,
                b == b1 * b64() + b0,
                p00 == a0 * b0,
                p01 == a0 * b1,
                p10 == a1 * b0,
                p11 == a1 * b1,
                b128() == b64() * b64(),
        ;
        assert(v * b128() + lo as nat == p11 * b128() + (p01 + p10) * b64() + p00)
            by (nonlinear_arith)
            requires
                v == p11 + p01h + p10h + th,
                lo == p00l + tl * b64(),
                t == p00h + p01l + p10l,
                t == th * b64() + tl,
                p00 == p00h * b64() + p00l,
                p01 == p01h * b64() + p01l,
                p10 == p10h * b64() + p10l,
                b128() == b64() * b64(),
        ;
        assert(v < b128()) by (nonlinear_arith)
            requires
                v * b128() + lo == a * b,
                a < b128(),
                b < b128(),
                lo >= 0,
                v >= 0,
        ;
    }
    let hi = p11 + p01h + p10h + th;
    U256 { hi, lo }
}

/// Every value lies below 2^256.
pub proof fn lemma_view_bound(x: U256)
    ensures
        x@ <= u256_max(),
{
    lemma_limbs_bound(x.hi, x.lo);
}

impl U256 {
    /// Zero.
    pub fn zero() -> (r: U256)
        ensures
            r@ == 0,
    {
        U256 { hi: 0, lo: 0 }
    }

    /// One.
    pub fn one() -> (r: U256)
        ensures
            r@ == 1,
    {
        U256 { hi: 0, lo: 1 }
    }

    /// The largest value, 2^256 - 1.
    pub fn max_value() -> (r: U256)
        ensures
            r@ == u256_max(),
    {
        proof { lemma_constants(); }
        U256 { hi: u128::MAX, lo: u128::MAX }
    }

    /// The value of a 128-bit number.
    pub fn from_u128(x: u128) -> (r: U256)
        ensures
            r@ == x,
    {
        U256 { hi: 0, lo: x }
    }

    /// Whether the value is zero.
    pub fn is_zero(&self) -> (b: bool)
        ensures
            b == (self@ == 0),
    {
        proof {
            lemma_limbs_lt(0, 0, self.hi, self.lo);
        }
        self.hi == 0 && self.lo == 0
    }

    /// Whether the value fits in 128 bits.
    pub fn fits_u128(&self) -> (b: bool)
        ensures
            b == (self@ <= u128::MAX),
    {
        proof {
            lemma_limbs_lt(0, u128::MAX, self.hi, self.lo);
        }
        self.hi == 0
    }

    /// The value as a 128-bit number; the value must fit.
    pub fn as_u128(&self) -> (r: u128)
        requires
            self@ <= u128::MAX,
        ensures
            r == self@,
    {
        proof {
            lemma_limbs_lt(0, u128::MAX, self.hi, self.lo);
        }
        self.lo
    }

    /// The value as a 128-bit number, or `None` where it does not fit.
    pub fn to_u128(&self) -> (r: Option<u128>)
        ensures
            match r {
                Some(v) => v == self@,
                None => self@ > u128::MAX,
            },
    {
        if self.fits_u128() {
            Some(self.as_u128())
        } else {
            None
        }
    }

    /// `self < other`.
    pub fn lt(&self, other: &U256) -> (b: bool)
        ensures
            b == (self@ < other@),
    {
        proof {
            lemma_limbs_lt(self.hi, self.lo, other.hi, other.lo);
            lemma_limbs_lt(other.hi, other.lo, self.hi, self.lo);
        }
        self.hi < other.hi || (self.hi == other.hi && self.lo < other.lo)
    }

    /// `self <= other`.
    pub fn le(&self, other: &U256) -> (b: bool)
        ensures
            b == (self@ <= other@),
    {
        !other.lt(self)
    }

    /// `self == other`.
    pub fn eq(&self, other: &U256) -> (b: bool)
        ensures
            b == (self@ == other@),
    {
        proof {
            if self@ == other@ {
                lemma_limbs_unique(self.hi, self.lo, other.hi, other.lo);
            }
        }
        self.hi == other.hi && self.lo == other.lo
    }

    /// The sum; it must fit.
    pub fn add(&self, other: &U256) -> (r: U256)
        requires
            self@ + other@ <= u256_max(),
        ensures
            r@ == self@ + other@,
    {
        if self.lo <= u128::MAX - other.lo {
            proof {
                lemma_limbs_bound(self.hi, self.lo);
                if self.hi as int + other.hi as int > u128::MAX {
                    assert((self.hi + other.hi) * b128() >= b128() * b128()) by (nonlinear_arith)
                        requires
                            self.hi + other.hi >= b128(),
                    ;
                    lemma_constants();
                }
                assert(self@ + other@ == (self.hi + other.hi) * b128() + self.lo + other.lo)
                    by (nonlinear_arith);
            }
            U256 { hi: self.hi + other.hi, lo: self.lo + other.lo }
        } else {
            proof {
                if self.hi as int + other.hi as int + 1 > u128::MAX {
                    assert((self.hi + other.hi + 1) * b128() >= b128() * b128()) by (nonlinear_arith)
                        requires
                            self.hi + other.hi + 1 >= b128(),
                    ;
                    lemma_constants();
                }
                assert(self@ + other@ == (self.hi + other.hi + 1) * b128() + (self.lo + other.lo
                    - b128())) by (nonlinear_arith);
            }
            let lo = self.lo - (u128::MAX - other.lo) - 1;
            U256 { hi: self.hi + other.hi + 1, lo }
        }
    }

    /// The difference; `other` must not exceed `self`.
    pub fn sub(&self, other: &U256) -> (r: U256)
        requires
            other@ <= self@,
        ensures
            r@ == self@ - other@,
    {
        proof {
            lemma_limbs_lt(self.hi, self.lo, other.hi, other.lo);
        }
        if self.lo >= other.lo {
            assert(self@ - other@ == (self.hi - other.hi) * b128() + (self.lo - other.lo))
                by (nonlinear_arith);
            U256 { hi: self.hi - other.hi, lo: self.lo - other.lo }
        } else {
            assert(self.hi > other.hi) by {
                if self.hi == other.hi {
                    assert(self@ < other@);
                }
            }
            assert(self@ - other@ == (self.hi - other.hi - 1) * b128() + (self.lo + b128()
                - other.lo)) by (nonlinear_arith);
            let lo = self.lo + (u128::MAX - other.lo) + 1;
            U256 { hi: self.hi - other.hi - 1, lo }
        }
    }

    /// The sum, or `None` where it exceeds 2^256 - 1.
    pub fn checked_add(&self, other: &U256) -> (r: Option<U256>)
        ensures
            match r {
                Some(v) => v@ == self@ + other@ && self@ + other@ <= u256_max(),
                None => self@ + other@ > u256_max(),
            },
    {
        let room = U256::max_value().sub(self);
        if other.le(&room) {
            Some(self.add(other))
        } else {
            None
        }
    }

    /// The difference, or `None` where `other` exceeds `self`.
    pub fn checked_sub(&self, other: &U256) -> (r: Option<U256>)
        ensures
            match r {
                Some(v) => v@ == self@ - other@ && other@ <= self@,
                None => other@ > self@,
            },
    {
        if other.le(self) {
            Some(self.sub(other))
        } else {
            None
        }
    }

    /// The sum modulo 2^256, and whether it wrapped.
    pub fn overflowing_add(&self, other: &U256) -> (r: (U256, bool))
        ensures
            r.0@ == (self@ + other@) % modulus(),
            r.1 == (self@ + other@ > u256_max()),
    {
        proof {
            lemma_limbs_bound(self.hi, self.lo);
            lemma_limbs_bound(other.hi, other.lo);
        }
        match self.checked_add(other) {
            Some(v) => {
                proof {
                    lemma_small_mod((self@ + other@) as nat, modulus());
                }
                (v, false)
            },
            None => {
                // self + other - 2^256 == self - (max - other) - 1
                let complement = U256::max_value().sub(other);
                let v = self.sub(&complement).sub(&U256::one());
                proof {
                    lemma_mod_sub_multiples_vanish((self@ + other@) as int, modulus() as int);
                    lemma_small_mod((self@ + other@ - modulus()) as nat, modulus());
                }
                (v, true)
            },
        }
    }

    /// The difference modulo 2^256, and whether it wrapped.
    pub fn overflowing_sub(&self, other: &U256) -> (r: (U256, bool))
        ensures
            r.0@ == (self@ - other@ + modulus()) % (modulus() as int),
            r.1 == (other@ > self@),
    {
        proof {
            lemma_limbs_bound(self.hi, self.lo);
            lemma_limbs_bound(other.hi, other.lo);
        }
        if other.le(self) {
            proof {
                lemma_mod_add_multiples_vanish((self@ - other@) as int, modulus() as int);
                lemma_small_mod((self@ - other@) as nat, modulus());
            }
            (self.sub(other), false)
        } else {
            // self - other + 2^256 == self + (max - other) + 1
            let complement = U256::max_value().sub(other);
            let v = self.add(&complement).add(&U256::one());
            proof {
                lemma_small_mod((self@ - other@ + modulus()) as nat, modulus());
            }
            (v, true)
        }
    }

    /// The product, or `None` where it exceeds 2^256 - 1.
    pub fn checked_mul(&self, other: &U256) -> (r: Option<U256>)
        ensures
            match r {
                Some(v) => v@ == self@ * other@ && self@ * other@ <= u256_max(),
                None => self@ * other@ > u256_max(),
            },
    {
        proof {
            lemma_constants();
        }
        if self.hi != 0 && other.hi != 0 {
            assert(self@ * other@ >= b128() * b128()) by (nonlinear_arith)
                requires
                    self@ >= b128(),
                    other@ >= b128(),
            ;
            return None;
        }
        // one side fits in 128 bits: (h * B + l) * s == h * s * B + l * s
        let (h, l, s) = if self.hi == 0 {
            (other.hi, other.lo, self.lo)
        } else {
            (self.hi, self.lo, other.lo)
        };
        assert(self@ * other@ == h * s * b128() + l * s) by (nonlinear_arith)
            requires
                (self.hi == 0 && h == other.hi && l == other.lo && s == self.lo) || (other.hi == 0
                    && h == self.hi && l == self.lo && s == other.lo),
        ;
        let low = mul_wide(l, s);
        match h.checked_mul(s) {
            None => {
                assert(self@ * other@ >= b128() * b128()) by (nonlinear_arith)
                    requires
                        self@ * other@ == h * s * b128() + l * s,
                        h * s >= b128(),
                ;
                None
            },
            Some(hs) => {
                match hs.checked_add(low.hi) {
                    None => {
                        assert(self@ * other@ >= b128() * b128()) by (nonlinear_arith)
                            requires
                                self@ * other@ == hs * b128() + low.hi * b128() + low.lo,
                                hs + low.hi >= b128(),
                        ;
                        None
                    },
                    Some(hi) => {
                        assert(self@ * other@ == hi * b128() + low.lo) by (nonlinear_arith)
                            requires
                                self@ * other@ == h * s * b128() + l * s,
                                hs == h * s,
                                l * s == low.hi * b128() + low.lo,
                                hi == hs + low.hi,
                        ;
                        proof {
                            lemma_limbs_bound(hi, low.lo);
                        }
                        Some(U256 { hi, lo: low.lo })
                    },
                }
            },
        }
    }

    /// The product; it must fit.
    pub fn mul(&self, other: &U256) -> (r: U256)
        requires
            self@ * other@ <= u256_max(),
        ensures
            r@ == self@ * other@,
    {
        match self.checked_mul(other) {
            Some(v) => v,
            None => {
                assert(false);
                U256::zero()
            },
        }
    }

    /// Half the value, rounded down.
    pub fn half(&self) -> (r: U256)
        ensures
            r@ == self@ / 2,
    {
        let hi = self.hi / 2;
        let carry = self.hi % 2;
        let lo = self.lo / 2 + carry * 0x8000_0000_0000_0000_0000_0000_0000_0000u128;
        proof {
            lemma_fundamental_div_mod(self.hi as int, 2);
            lemma_fundamental_div_mod(self.lo as int, 2);
            let r = hi as nat * b128() + lo as nat;
            assert(self@ == 2 * r + self.lo % 2) by (nonlinear_arith)
                requires
                    self.hi == 2 * hi + carry,
                    self.lo == 2 * (self.lo / 2) + self.lo % 2,
                    lo == self.lo / 2 + carry * (b128() / 2),
                    r == hi * b128() + lo,
                    b128() == 2 * (b128() / 2),
            ;
            lemma_fundamental_div_mod_converse(self@ as int, 2, r as int, (self.lo % 2) as int);
        }
        U256 { hi, lo }
    }

    /// The quotient, rounded down; `other` must not be zero.
    pub fn div(&self, other: &U256) -> (r: U256)
        requires
            other@ > 0,
        ensures
            r@ == self@ / other@,
    {
        let n = *self;
        let d = *other;
        proof {
            lemma_view_bound(n);
        }
        if n.lt(&d) {
            proof {
                lemma_basic_div(n@ as int, d@ as int);
            }
            return U256::zero();
        }
        // scale the divisor up to the largest d * 2^k not above n
        let mut dd = d;
        let mut p = U256::one();
        let ghost mut k: nat = 0;
        proof {
            lemma2_to64();
        }
        while dd.le(&n.sub(&dd))
            invariant
                d@ > 0,
                d@ <= n@,
                n@ <= u256_max(),
                dd@ == p@ * d@,
                p@ >= 1,
                dd@ <= n@,
                p@ == pow2(k),
            decreases n@ - dd@,
        {
            proof {
                lemma_pow2_unfold(k + 1);
                assert(p@ <= dd@) by (nonlinear_arith)
                    requires
                        dd@ == p@ * d@,
                        d@ >= 1,
                        p@ >= 1,
                ;
            }
            dd = dd.add(&dd);
            p = p.add(&p);
            proof {
                k = k + 1;
            }
            assert(dd@ == p@ * d@) by (nonlinear_arith)
                requires
                    dd@ == 2 * (p@ / 2 * d@),
                    p@ == 2 * (p@ / 2),
            ;
        }
        // long division, from the top power down
        let mut q = U256::zero();
        let mut r = n;
        let one = U256::one();
        loop
            invariant
                n == *self,
                d == *other,
                d@ > 0,
                n@ == q@ * d@ + r@,
                dd@ == p@ * d@,
                p@ == pow2(k),
                p@ >= 1,
                r@ < 2 * dd@,
                n@ <= u256_max(),
                one@ == 1,
            decreases p@,
        {
            if dd.le(&r) {
                assert((q@ + p@) * d@ == q@ * d@ + dd@) by (nonlinear_arith)
                    requires
                        dd@ == p@ * d@,
                ;
                assert(q@ + p@ <= n@) by (nonlinear_arith)
                    requires
                        (q@ + p@) * d@ <= n@,
                        d@ >= 1,
                ;
                r = r.sub(&dd);
                q = q.add(&p);
            }
            assert(r@ < dd@);
            if p.eq(&one) {
                proof {
                    assert(dd@ == d@) by (nonlinear_arith)
                        requires
                            dd@ == p@ * d@,
                            p@ == 1,
                    ;
                    lemma_fundamental_div_mod_converse(n@ as int, d@ as int, q@ as int, r@ as int);
                    assert(q@ == n@ / d@);
                }
                return q;
            }
            proof {
                if k == 0 {
                    assert(pow2(0) == 1) by {
                        lemma2_to64();
                    }
                }
                lemma_pow2_unfold(k);
            }
            assert(p@ / 2 * d@ == dd@ / 2 && dd@ == 2 * (dd@ / 2)) by (nonlinear_arith)
                requires
                    dd@ == p@ * d@,
                    p@ == 2 * (p@ / 2),
            ;
            dd = dd.half();
            p = p.half();
            proof {
                k = (k - 1) as nat;
            }
        }
    }

    /// The quotient, or `None` where `other` is zero.
    pub fn checked_div(&self, other: &U256) -> (r: Option<U256>)
        ensures
            match r {
                Some(v) => other@ > 0 && v@ == self@ / other@,
                None => other@ == 0,
            },
    {
        if other.is_zero() {
            None
        } else {
            Some(self.div(other))
        }
    }
}

} // verus!
