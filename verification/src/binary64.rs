//! IEEE 754 binary64 values held by their bit pattern.
//!
//! Time stamps, durations and numeric command-line values are IEEE 754
//! binary64 numbers.  The library keeps each one as its 64-bit encoding and
//! reasons about it with integer arithmetic: comparisons follow IEEE 754
//! (NaN is unordered, `-0` equals `+0`), and the conversions to whole seconds
//! and milliseconds follow the IEEE rounding rules exactly.

use vstd::prelude::*;

use vstd::arithmetic::power2::{
    lemma2_to64, lemma2_to64_rest, lemma_pow2_adds, lemma_pow2_pos, lemma_pow2_strictly_increases,
    lemma_pow2_unfold, pow2,
};
use vstd::arithmetic::div_mod::{lemma_basic_div, lemma_div_denominator};
use vstd::bits::{lemma_u64_shl_is_mul, lemma_u64_shr_is_div};

verus! {

pub const SIGN_BIT: u64 = 0x8000_0000_0000_0000;

pub const MAGNITUDE_MASK: u64 = 0x7FFF_FFFF_FFFF_FFFF;

/// Encoding of positive infinity; larger magnitudes are NaN.
pub const INFINITY_BITS: u64 = 0x7FF0_0000_0000_0000;

/// A binary64 number, stored as its IEEE 754 encoding.
#[derive(Clone, Copy, Debug, PartialEq, Eq, Structural)]
pub struct Binary64 {
    pub bits: u64,
}

/// The encoding without its sign bit.
pub open spec fn magnitude(bits: u64) -> int {
    (bits as int) % 0x8000_0000_0000_0000
}

pub open spec fn is_negative_sign(bits: u64) -> bool {
    bits >= 0x8000_0000_0000_0000
}

pub open spec fn is_nan(bits: u64) -> bool {
    magnitude(bits) > 0x7FF0_0000_0000_0000
}

pub open spec fn is_finite(bits: u64) -> bool {
    magnitude(bits) < 0x7FF0_0000_0000_0000
}

/// A key that orders non-NaN values as IEEE 754 does; both zeros map to 0.
pub open spec fn order_key(bits: u64) -> int {
    if is_negative_sign(bits) {
        -magnitude(bits)
    } else {
        magnitude(bits)
    }
}

/// IEEE 754 `a < b`.
pub open spec fn ieee_lt(a: u64, b: u64) -> bool {
    !is_nan(a) && !is_nan(b) && order_key(a) < order_key(b)
}

/// IEEE 754 `a <= b`.
pub open spec fn ieee_le(a: u64, b: u64) -> bool {
    !is_nan(a) && !is_nan(b) && order_key(a) <= order_key(b)
}

/// IEEE 754 `a == b`.
pub open spec fn ieee_eq(a: u64, b: u64) -> bool {
    !is_nan(a) && !is_nan(b) && order_key(a) == order_key(b)
}

/// The smaller of two values as `f64::min` picks it: a NaN argument yields
/// the other one; of two equal values (`-0` and `+0` included) the first.
pub open spec fn ieee_min(a: u64, b: u64) -> u64 {
    if is_nan(a) {
        b
    } else if is_nan(b) {
        a
    } else if order_key(b) < order_key(a) {
        b
    } else {
        a
    }
}

/// The larger of two values as `f64::max` picks it: a NaN argument yields
/// the other one; of two equal values (`-0` and `+0` included) the first.
pub open spec fn ieee_max(a: u64, b: u64) -> u64 {
    if is_nan(a) {
        b
    } else if is_nan(b) {
        a
    } else if order_key(a) < order_key(b) {
        b
    } else {
        a
    }
}

impl Binary64 {
    pub fn from_bits(bits: u64) -> (r: Binary64)
        ensures
            r.bits == bits,
    {
        Binary64 { bits }
    }

    pub fn is_nan(self) -> (r: bool)
        ensures
            r == is_nan(self.bits),
    {
        self.magnitude_bits() > INFINITY_BITS
    }

    /// Neither infinite nor NaN.
    pub fn is_finite(self) -> (r: bool)
        ensures
            r == is_finite(self.bits),
    {
        self.magnitude_bits() < INFINITY_BITS
    }

    /// Magnitude of the encoding.
    fn magnitude_bits(self) -> (r: u64)
        ensures
            r == magnitude(self.bits),
            r < SIGN_BIT,
    {
        let b = self.bits;
        assert(b & 0x7FFF_FFFF_FFFF_FFFFu64 == b % 0x8000_0000_0000_0000u64) by (bit_vector);
        assert(b & 0x7FFF_FFFF_FFFF_FFFFu64 < 0x8000_0000_0000_0000u64) by (bit_vector);
        b & MAGNITUDE_MASK
    }

    /// IEEE 754 `self < other`.
    pub fn lt(self, other: Binary64) -> (r: bool)
        ensures
            r == ieee_lt(self.bits, other.bits),
    {
        let a = self.magnitude_bits();
        let b = other.magnitude_bits();
        if a > INFINITY_BITS || b > INFINITY_BITS {
            return false;
        }
        let a_neg = self.bits >= SIGN_BIT;
        let b_neg = other.bits >= SIGN_BIT;
        if !a_neg && !b_neg {
            a < b
        } else if a_neg && b_neg {
            b < a
        } else if a_neg {
            !(a == 0 && b == 0)
        } else {
            false
        }
    }

    /// IEEE 754 `self <= other`.
    pub fn le(self, other: Binary64) -> (r: bool)
        ensures
            r == ieee_le(self.bits, other.bits),
    {
        if self.is_nan() || other.is_nan() {
            false
        } else {
            !other.lt(self)
        }
    }

    /// IEEE 754 `self == other`.
    pub fn ieee_equals(self, other: Binary64) -> (r: bool)
        ensures
            r == ieee_eq(self.bits, other.bits),
    {
        self.le(other) && other.le(self)
    }

    /// The smaller value (see `ieee_min`).
    pub fn min(self, other: Binary64) -> (r: Binary64)
        ensures
            r.bits == ieee_min(self.bits, other.bits),
    {
        if self.is_nan() {
            other
        } else if other.is_nan() {
            self
        } else if other.lt(self) {
            other
        } else {
            self
        }
    }

    /// The larger value (see `ieee_max`).
    pub fn max(self, other: Binary64) -> (r: Binary64)
        ensures
            r.bits == ieee_max(self.bits, other.bits),
    {
        if self.is_nan() {
            other
        } else if other.is_nan() {
            self
        } else if self.lt(other) {
            other
        } else {
            self
        }
    }
}


pub open spec fn exponent_field(bits: u64) -> int {
    magnitude(bits) / 0x10_0000_0000_0000
}

pub open spec fn fraction_field(bits: u64) -> int {
    magnitude(bits) % 0x10_0000_0000_0000
}

/// `min(v, u64::MAX)`: the saturating conversion `as u64` of a non-negative
/// integer.
pub open spec fn saturate(v: nat) -> nat {
    if v > u64::MAX {
        u64::MAX as nat
    } else {
        v
    }
}

/// `if x.is_finite() { x.max(0.0).floor() as u64 } else { 0 }`.
///
/// A finite positive normal number is `m * 2^e` with the 53-bit significand
/// `m = 2^52 + fraction` and `e = exponent - 1075`; zero, subnormals,
/// negative numbers, NaN and infinities give 0.
pub open spec fn whole_seconds_spec(bits: u64) -> nat {
    if !is_finite(bits) || is_negative_sign(bits) || exponent_field(bits) == 0 {
        0
    } else {
        let m = (fraction_field(bits) + 0x10_0000_0000_0000) as nat;
        let e = exponent_field(bits) - 1075;
        if e >= 0 {
            saturate(m * pow2(e as nat))
        } else {
            m / pow2((-e) as nat)
        }
    }
}

/// `p / 2^s` rounded to the nearest integer, ties to even (IEEE 754
/// round-to-nearest).
pub open spec fn nearest_even_div(p: nat, s: nat) -> nat {
    let q = p / pow2(s);
    let r = p % pow2(s);
    let half = pow2((s - 1) as nat);
    if r > half || (r == half && q % 2 == 1) {
        q + 1
    } else {
        q
    }
}

/// `if x.is_finite() { (x.max(0.0) * 1000.0).round() as u64 } else { 0 }`.
///
/// For a positive normal `x = m * 2^e` the exact product `1000 * m * 2^e`
/// has 62 or 63 significant bits; IEEE multiplication keeps 53 of them,
/// rounding to nearest with ties to even (a carry out of the 53 bits moves
/// the exponent up by one).  `round` then takes the nearest integer with
/// ties away from zero, and `as u64` saturates.  Zero, subnormals (which are
/// far below half a millisecond), negative numbers, NaN and infinities give 0.
pub open spec fn millis_spec(bits: u64) -> nat {
    if !is_finite(bits) || is_negative_sign(bits) || exponent_field(bits) == 0 {
        0
    } else {
        let m = (fraction_field(bits) + 0x10_0000_0000_0000) as nat;
        let e = exponent_field(bits) - 1075;
        let p = 1000 * m;
        let s: nat = if p < 0x4000_0000_0000_0000 {
            9
        } else {
            10
        };
        let q0 = nearest_even_div(p, s);
        let q: nat = if q0 == 0x20_0000_0000_0000 {
            0x10_0000_0000_0000
        } else {
            q0
        };
        let k: int = if q0 == 0x20_0000_0000_0000 {
            e + s + 1
        } else {
            e + s
        };
        if k >= 0 {
            saturate(q * pow2(k as nat))
        } else {
            (q + pow2((-k - 1) as nat)) / pow2((-k) as nat)
        }
    }
}

proof fn lemma_fields(b: u64)
    requires
        b < 0x8000_0000_0000_0000,
    ensures
        (b >> 52u64) as int == exponent_field(b),
        (b & 0xF_FFFF_FFFF_FFFFu64) as int == fraction_field(b),
        exponent_field(b) < 2048,
{
    assert(magnitude(b) == b as int);
    lemma_u64_shr_is_div(b, 52);
    lemma2_to64();
    lemma2_to64_rest();
    assert(b & 0xF_FFFF_FFFF_FFFFu64 == b % 0x10_0000_0000_0000u64) by (bit_vector);
}

impl Binary64 {
    /// Whole seconds in a time stamp (`format_hhmmss`'s conversion).
    pub fn whole_seconds(self) -> (r: u64)
        ensures
            r == whole_seconds_spec(self.bits),
    {
        let b = self.bits;
        let mag = self.magnitude_bits();
        if mag >= INFINITY_BITS || b >= SIGN_BIT {
            return 0;
        }
        proof {
            lemma_fields(b);
        }
        let exp = b >> 52u64;
        let frac = b & 0xF_FFFF_FFFF_FFFFu64;
        if exp == 0 {
            return 0;
        }
        let m = frac + 0x10_0000_0000_0000u64;
        proof {
            lemma2_to64();
            lemma2_to64_rest();
        }
        if exp >= 1075 {
            let shift = exp - 1075;
            if shift >= 12 {
                proof {
                    if shift > 12 {
                        lemma_pow2_strictly_increases(12, shift as nat);
                    }
                    assert(m * pow2(shift as nat) >= 0x10_0000_0000_0000 * pow2(12)) by (
                    nonlinear_arith)
                        requires
                            m >= 0x10_0000_0000_0000,
                            pow2(shift as nat) >= pow2(12),
                    ;
                }
                return u64::MAX;
            }
            proof {
                if shift < 11 {
                    lemma_pow2_strictly_increases(shift as nat, 11);
                }
                assert(m * pow2(shift as nat) < 0x20_0000_0000_0000 * 2048) by (nonlinear_arith)
                    requires
                        m < 0x20_0000_0000_0000,
                        pow2(shift as nat) <= 2048,
                ;
                lemma_u64_shl_is_mul(m, shift);
            }
            m << shift
        } else {
            let shift = 1075 - exp;
            if shift >= 64 {
                proof {
                    lemma_pow2_strictly_increases(53, shift as nat);
                    lemma_basic_div(m as int, pow2(shift as nat) as int);
                }
                return 0;
            }
            proof {
                lemma_u64_shr_is_div(m, shift);
            }
            m >> shift
        }
    }
}

proof fn lemma_pow2_mono(a: nat, b: nat)
    requires
        a <= b,
    ensures
        pow2(a) <= pow2(b),
{
    if a < b {
        lemma_pow2_strictly_increases(a, b);
    }
}

proof fn lemma_one_shl(s: u64)
    requires
        s < 64,
    ensures
        (1u64 << s) as nat == pow2(s as nat),
{
    lemma_pow2_mono(s as nat, 63);
    lemma2_to64_rest();
    lemma_u64_shl_is_mul(1, s);
}

impl Binary64 {
    /// Milliseconds in a time stamp, rounded as subtitle time stamps are.
    pub fn millis(self) -> (r: u64)
        ensures
            r == millis_spec(self.bits),
    {
        let b = self.bits;
        let mag = self.magnitude_bits();
        if mag >= INFINITY_BITS || b >= SIGN_BIT {
            return 0;
        }
        proof {
            lemma_fields(b);
            lemma2_to64();
            lemma2_to64_rest();
        }
        let exp = b >> 52u64;
        let frac = b & 0xF_FFFF_FFFF_FFFFu64;
        if exp == 0 {
            return 0;
        }
        let m = frac + 0x10_0000_0000_0000u64;
        assert(1000 * m < 0x8000_0000_0000_0000) by (nonlinear_arith)
            requires
                m < 0x20_0000_0000_0000,
        ;
        let p = 1000 * m;
        let s: u64 = if p < 0x4000_0000_0000_0000u64 {
            9
        } else {
            10
        };
        proof {
            lemma_one_shl(s);
            lemma_one_shl((s - 1) as u64);
            lemma_u64_shr_is_div(p, s);
        }
        let d: u64 = 1u64 << s;
        let q0 = p >> s;
        let rem = p % d;
        let half: u64 = 1u64 << (s - 1);
        proof {
            assert(q0 >= 0x10_0000_0000_0000 && q0 < 0x20_0000_0000_0000) by (nonlinear_arith)
                requires
                    q0 == p / d,
                    p == 1000 * m,
                    m >= 0x10_0000_0000_0000,
                    m < 0x20_0000_0000_0000,
                    (d == 512 && p < 0x4000_0000_0000_0000) || (d == 1024 && p
                        >= 0x4000_0000_0000_0000),
            ;
        }
        let q0r = if rem > half || (rem == half && q0 % 2 == 1) {
            q0 + 1
        } else {
            q0
        };
        assert(q0r == nearest_even_div(p as nat, s as nat));
        let carry: u64 = if q0r == 0x20_0000_0000_0000u64 {
            1
        } else {
            0
        };
        let q: u64 = if carry == 1 {
            0x10_0000_0000_0000u64
        } else {
            q0r
        };
        let up = s + carry;
        if exp + up >= 1075 {
            let k = exp + up - 1075;
            if k >= 12 {
                proof {
                    lemma_pow2_mono(12, k as nat);
                    assert(q * pow2(k as nat) >= 0x10_0000_0000_0000 * pow2(12)) by (
                    nonlinear_arith)
                        requires
                            q >= 0x10_0000_0000_0000,
                            pow2(k as nat) >= pow2(12),
                    ;
                }
                return u64::MAX;
            }
            proof {
                lemma_pow2_mono(k as nat, 11);
                assert(q * pow2(k as nat) < 0x20_0000_0000_0000 * 2048) by (nonlinear_arith)
                    requires
                        q < 0x20_0000_0000_0000,
                        pow2(k as nat) <= 2048,
                ;
                lemma_u64_shl_is_mul(q, k);
            }
            q << k
        } else {
            let j = 1075 - (exp + up);
            if j >= 55 {
                proof {
                    lemma_pow2_mono(54, (j - 1) as nat);
                    lemma_pow2_adds((j - 1) as nat, 1);
                    assert(pow2(j as nat) == pow2((j - 1) as nat) * 2) by {
                        assert(((j - 1) as nat + 1) as nat == j as nat);
                    }
                    lemma_basic_div(
                        (q + pow2((j - 1) as nat)) as int,
                        pow2(j as nat) as int,
                    );
                }
                return 0;
            }
            proof {
                lemma_one_shl((j - 1) as u64);
                lemma_pow2_mono((j - 1) as nat, 53);
            }
            let bump: u64 = 1u64 << (j - 1);
            let total = q + bump;
            proof {
                lemma_u64_shr_is_div(total, j);
            }
            total >> j
        }
    }
}

} // verus!

verus! {

// ---------------------------------------------------------------------------
// Seconds to sample counts
// ---------------------------------------------------------------------------

/// How many low bits of `p` lie beyond its 53 most significant ones.
pub open spec fn excess_bits(p: nat) -> nat
    decreases p,
{
    if p < 0x20_0000_0000_0000 {
        0
    } else {
        1 + excess_bits(p / 2)
    }
}

/// `p` rounded to 53 significant bits, ties to even (IEEE 754
/// round-to-nearest), as `(q, t)` standing for `q * 2^t`.
pub open spec fn round_to_53(p: nat) -> (nat, nat) {
    let s = excess_bits(p);
    if s == 0 {
        (p, 0)
    } else {
        let q0 = nearest_even_div(p, s);
        if q0 == 0x20_0000_0000_0000 {
            (0x10_0000_0000_0000, s + 1)
        } else {
            (q0, s)
        }
    }
}

/// `q * 2^k` rounded to the nearest integer, halves away from zero.
pub open spec fn round_scaled(q: nat, k: int) -> nat {
    if k >= 0 {
        q * pow2(k as nat)
    } else {
        (q + pow2((-k - 1) as nat)) / pow2((-k) as nat)
    }
}

/// `(x * rate as f64).round() as usize`.
///
/// `rate as f64` keeps 53 significant bits of the rate (`round_to_53`).  For a
/// positive normal `x = m * 2^e` the IEEE product is the exact product of the
/// two significands rounded to 53 bits, scaled by the sum of the exponents
/// (it is normal whenever the rate is at least one).  `round` takes the
/// nearest integer, halves away from zero, and `as usize` saturates: NaN and
/// anything not above zero give 0, and so do zero and subnormal `x`, whose
/// products stay far below one half; positive infinity gives `usize::MAX`
/// unless the rate is zero (infinity times zero is NaN).
pub open spec fn samples_spec(bits: u64, rate: nat) -> nat {
    if is_nan(bits) || is_negative_sign(bits) {
        0
    } else if !is_finite(bits) {
        if rate == 0 {
            0
        } else {
            usize::MAX as nat
        }
    } else if exponent_field(bits) == 0 {
        0
    } else {
        let m = (fraction_field(bits) + 0x10_0000_0000_0000) as nat;
        let e = exponent_field(bits) - 1075;
        let kf = round_to_53(rate);
        let pr = round_to_53(m * kf.0);
        let v = round_scaled(pr.0, e + kf.1 + pr.1);
        if v > usize::MAX {
            usize::MAX as nat
        } else {
            v
        }
    }
}

proof fn lemma_excess_bound(p: nat, n: nat)
    requires
        p < pow2(53 + n),
    ensures
        excess_bits(p) <= n,
    decreases n,
{
    lemma2_to64();
    if p >= 0x20_0000_0000_0000 {
        if n == 0 {
            assert((53 + n) as nat == 53);
            lemma2_to64_rest();
            assert(false);
        } else {
            lemma_pow2_adds(52 + n, 1);
            assert(pow2((52 + n + 1) as nat) == pow2((52 + n) as nat) * 2);
            assert((53 + n) as nat == (52 + n + 1) as nat);
            assert(p / 2 < pow2((52 + n) as nat));
            assert((52 + n) as nat == (53 + (n - 1)) as nat);
            lemma_excess_bound(p / 2, (n - 1) as nat);
        }
    }
}

/// `p` rounded to 53 significant bits.
fn round_to_53_exec(p: u128) -> (r: (u64, u64))
    requires
        p < 0x800_0000_0000_0000_0000_0000_0000,
    ensures
        r.0 as nat == round_to_53(p as nat).0,
        r.1 as nat == round_to_53(p as nat).1,
        r.0 <= 0x20_0000_0000_0000,
        r.1 <= 55,
        p > 0 ==> r.0 > 0,
{
    proof {
        lemma2_to64();
        lemma2_to64_rest();
        lemma_pow2_adds(53, 54);
        assert(pow2(53) * pow2(54) == 0x800_0000_0000_0000_0000_0000_0000) by (nonlinear_arith)
            requires
                pow2(53) == 0x20_0000_0000_0000,
                pow2(54) == 0x40_0000_0000_0000,
        ;
        lemma_excess_bound(p as nat, 54);
    }
    let mut cur = p;
    let mut s: u64 = 0;
    while cur >= 0x20_0000_0000_0000u128
        invariant
            s <= excess_bits(p as nat),
            excess_bits(p as nat) <= 54,
            s > 0 ==> cur >= 0x10_0000_0000_0000,
            cur as nat == p as nat / pow2(s as nat),
            s + excess_bits(cur as nat) == excess_bits(p as nat),
        decreases cur,
    {
        proof {
            lemma_pow2_pos(s as nat);
            lemma_div_denominator(p as int, pow2(s as nat) as int, 2);
            lemma_pow2_adds(s as nat, 1);
            lemma2_to64();
        }
        cur = cur / 2;
        s = s + 1;
    }
    if s == 0 {
        proof {
            assert(pow2(0) == 1);
        }
        return (cur as u64, 0);
    }
    proof {
        lemma_one_shl(s);
        lemma_one_shl((s - 1) as u64);
        lemma_pow2_unfold(s as nat);
    }
    let d: u64 = 1u64 << s;
    let q = p / (d as u128);
    let rem = p % (d as u128);
    let half: u64 = 1u64 << (s - 1);
    assert(q == cur);
    let q0: u128 = if rem > half as u128 || (rem == half as u128 && q % 2 == 1) {
        q + 1
    } else {
        q
    };
    assert(q0 as nat == nearest_even_div(p as nat, s as nat));
    if q0 == 0x20_0000_0000_0000u128 {
        (0x10_0000_0000_0000u64, s + 1)
    } else {
        (q0 as u64, s)
    }
}

impl Binary64 {
    /// The number of samples in `self` seconds at `rate` samples per second:
    /// `(self * rate as f64).round() as usize`.
    pub fn samples_at_rate(self, rate: usize) -> (r: usize)
        ensures
            r as nat == samples_spec(self.bits, rate as nat),
    {
        let b = self.bits;
        let mag = self.magnitude_bits();
        if mag > INFINITY_BITS || b >= SIGN_BIT {
            return 0;
        }
        if mag == INFINITY_BITS {
            if rate == 0 {
                return 0;
            }
            return usize::MAX;
        }
        proof {
            lemma_fields(b);
            lemma2_to64();
            lemma2_to64_rest();
        }
        let exp = b >> 52u64;
        let frac = b & 0xF_FFFF_FFFF_FFFFu64;
        if exp == 0 {
            return 0;
        }
        let m = frac + 0x10_0000_0000_0000u64;
        let ghost e: int = exp - 1075;
        let (qk, tk) = round_to_53_exec(rate as u128);
        assert((m as u128) * (qk as u128) <= 0x20_0000_0000_0000u128 * 0x20_0000_0000_0000u128)
            by (nonlinear_arith)
            requires
                m < 0x20_0000_0000_0000,
                qk <= 0x20_0000_0000_0000,
        ;
        let prod: u128 = (m as u128) * (qk as u128);
        let (q, t) = round_to_53_exec(prod);
        let ghost v = round_scaled(q as nat, e + tk + t);
        let up = tk + t;
        let result: u128 = if exp + up >= 1075 {
            let k = exp + up - 1075;
            if q == 0 {
                assert(v == 0) by (nonlinear_arith)
                    requires
                        v == q * pow2(k as nat),
                        q == 0,
                ;
                0
            } else if k >= 64 {
                proof {
                    lemma_pow2_mono(64, k as nat);
                    assert(q * pow2(k as nat) >= pow2(64)) by (nonlinear_arith)
                        requires
                            q >= 1,
                            pow2(k as nat) >= pow2(64),
                    ;
                    assert(v > usize::MAX);
                }
                usize::MAX as u128
            } else {
                proof {
                    lemma_one_shl(k);
                }
                let f: u64 = 1u64 << k;
                assert((q as u128) * (f as u128) <= 0x20_0000_0000_0000u128 * 0x1_0000_0000_0000_0000u128)
                    by (nonlinear_arith)
                    requires
                        q <= 0x20_0000_0000_0000,
                        f < 0x1_0000_0000_0000_0000u128,
                ;
                assert(((q as u128) * (f as u128)) as nat == v);
                (q as u128) * (f as u128)
            }
        } else {
            let j = 1075 - (exp + up);
            if j > 55 {
                proof {
                    lemma_pow2_mono(55, (j - 1) as nat);
                    lemma_pow2_unfold(j as nat);
                    lemma_basic_div((q + pow2((j - 1) as nat)) as int, pow2(j as nat) as int);
                    assert(v == 0);
                }
                0
            } else {
                proof {
                    lemma_one_shl(j);
                    lemma_one_shl((j - 1) as u64);
                    lemma_pow2_mono((j - 1) as nat, 54);
                }
                let d: u64 = 1u64 << j;
                let h: u64 = 1u64 << (j - 1);
                assert((q + h) as nat / (d as nat) == v);
                ((q + h) / d) as u128
            }
        };
        assert(result as nat == v || (v > usize::MAX && result == usize::MAX as u128));
        if result > usize::MAX as u128 {
            usize::MAX
        } else {
            result as usize
        }
    }
}

} // verus!
