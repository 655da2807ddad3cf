//! Single-precision numbers held by their binary encoding.
//!
//! A `Scalar` is the 32-bit pattern of a binary32 number: one sign bit, eight
//! exponent bits and twenty-three fraction bits. Everything the renderer has to
//! *decide* about a number (is it smaller, is it negative, is it a number at
//! all) is a property of that pattern and is computed here with integer
//! operations only. Rounding arithmetic is left to the caller, who owns the
//! hardware numbers and converts with `to_bits` / `from_bits`.

use vstd::prelude::*;
use vstd::arithmetic::div_mod::{
    lemma_basic_div, lemma_div_multiples_vanish, lemma_div_multiples_vanish_quotient,
};
use vstd::arithmetic::power2::{
    lemma2_to64, lemma_pow2_adds, lemma_pow2_pos, lemma_pow2_strictly_increases,
    lemma_pow2_unfold, pow2,
};
use vstd::bits::{lemma_u32_shl_is_mul, lemma_u32_shr_is_div};

verus! {

/// The sign bit of an encoding; also the number of distinct magnitudes.
pub const SIGN_BIT: u32 = 0x8000_0000;

/// Encoding of positive infinity; every larger magnitude is not a number.
pub const INFINITY_BITS: u32 = 0x7f80_0000;

/// Encoding of `1.0`.
pub const ONE_BITS: u32 = 0x3f80_0000;

/// A single-precision number, by its encoding.
///
/// `==` on this type compares encodings, so it tells `-0.0` from `0.0` and
/// finds a not-a-number equal to itself. Numeric comparison is `lt`, `le` and
/// `same_value`.
#[derive(Clone, Copy, Debug, PartialEq, Eq, Structural)]
pub struct Scalar {
    pub bits: u32,
}

impl Scalar {
    /// The encoding without its sign bit.
    pub open spec fn magnitude(self) -> int {
        self.bits as int % 0x8000_0000
    }

    /// Whether the sign bit is set (true of `-0.0` too).
    pub open spec fn sign(self) -> bool {
        self.bits >= SIGN_BIT
    }

    /// Whether the encoding stands for no number.
    pub open spec fn is_nan_spec(self) -> bool {
        self.magnitude() > 0x7f80_0000
    }

    /// The eight exponent bits.
    pub open spec fn exponent(self) -> int {
        self.magnitude() / 0x80_0000
    }

    /// The twenty-three fraction bits.
    pub open spec fn fraction(self) -> int {
        self.magnitude() % 0x80_0000
    }

    /// The magnitude of a finite number in units of `2^-149`, the smallest
    /// step between numbers: the fraction alone below the first exponent,
    /// the fraction under a leading one, doubled with each exponent, above.
    pub open spec fn scaled_magnitude(self) -> nat {
        if self.exponent() == 0 {
            self.fraction() as nat
        } else {
            ((0x80_0000 + self.fraction()) * pow2((self.exponent() - 1) as nat)) as nat
        }
    }

    /// The value of a number in units of `2^-149`. An infinity counts as the
    /// value one exponent beyond the largest finite number.
    pub open spec fn scaled_value(self) -> int {
        if self.sign() {
            -(self.scaled_magnitude() as int)
        } else {
            self.scaled_magnitude() as int
        }
    }

    /// Position of a number on the number line: encodings of numbers are
    /// ordered as their signed magnitudes are, both zeros at position 0.
    pub open spec fn rank(self) -> int {
        if self.sign() {
            -self.magnitude()
        } else {
            self.magnitude()
        }
    }

    /// `self < other` as numbers; false when either is not a number.
    pub open spec fn lt_spec(self, other: Scalar) -> bool {
        !self.is_nan_spec() && !other.is_nan_spec() && self.rank() < other.rank()
    }

    /// `self <= other` as numbers; false when either is not a number.
    pub open spec fn le_spec(self, other: Scalar) -> bool {
        !self.is_nan_spec() && !other.is_nan_spec() && self.rank() <= other.rank()
    }

    /// Numeric equality: both are numbers at the same position.
    pub open spec fn same_value_spec(self, other: Scalar) -> bool {
        !self.is_nan_spec() && !other.is_nan_spec() && self.rank() == other.rank()
    }

    /// The lesser of two numbers. Where one of them is not a number the
    /// result is the other; of two equal numbers it is `other`.
    pub open spec fn min_spec(self, other: Scalar) -> Scalar {
        if self.lt_spec(other) || other.is_nan_spec() {
            self
        } else {
            other
        }
    }

    /// The greater of two numbers. Where one of them is not a number the
    /// result is the other; of two equal numbers it is `other`.
    pub open spec fn max_spec(self, other: Scalar) -> Scalar {
        if other.lt_spec(self) || other.is_nan_spec() {
            self
        } else {
            other
        }
    }

    /// The whole part of a number as an unsigned integer: the number with
    /// its fraction cut off, held to what 32 bits can say. What is not a
    /// number, and every number below one, gives 0.
    pub open spec fn to_u32_spec(self) -> int {
        if self.is_nan_spec() || self.sign() {
            0
        } else if self.scaled_magnitude() as int / (pow2(149) as int) > u32::MAX {
            u32::MAX as int
        } else {
            self.scaled_magnitude() as int / (pow2(149) as int)
        }
    }

    /// The encoding with its sign bit flipped.
    pub open spec fn neg_spec(self) -> Scalar {
        if self.sign() {
            Scalar { bits: (self.bits - 0x8000_0000) as u32 }
        } else {
            Scalar { bits: (self.bits + 0x8000_0000) as u32 }
        }
    }

    /// The encoding with its sign bit cleared.
    pub open spec fn abs_spec(self) -> Scalar {
        Scalar { bits: self.magnitude() as u32 }
    }

    pub fn from_bits(bits: u32) -> (s: Scalar)
        ensures
            s.bits == bits,
    {
        Scalar { bits }
    }

    pub fn to_bits(self) -> (bits: u32)
        ensures
            bits == self.bits,
    {
        self.bits
    }

    /// `0.0`, with the sign bit clear.
    pub fn zero() -> (s: Scalar)
        ensures
            s.bits == 0,
    {
        Scalar { bits: 0 }
    }

    /// `1.0`.
    pub fn one() -> (s: Scalar)
        ensures
            s.bits == ONE_BITS,
    {
        Scalar { bits: ONE_BITS }
    }

    /// Positive infinity.
    pub fn infinity() -> (s: Scalar)
        ensures
            s.bits == INFINITY_BITS,
    {
        Scalar { bits: INFINITY_BITS }
    }

    fn magnitude_bits(self) -> (m: u32)
        ensures
            m == self.magnitude(),
    {
        self.bits % SIGN_BIT
    }

    fn signed_rank(self) -> (r: i64)
        ensures
            r == self.rank(),
    {
        let m: u32 = self.magnitude_bits();
        if self.bits >= SIGN_BIT {
            0 - (m as i64)
        } else {
            m as i64
        }
    }

    pub fn is_nan(self) -> (r: bool)
        ensures
            r == self.is_nan_spec(),
    {
        self.magnitude_bits() > INFINITY_BITS
    }

    pub fn is_sign_negative(self) -> (r: bool)
        ensures
            r == self.sign(),
    {
        self.bits >= SIGN_BIT
    }

    pub fn lt(self, other: Scalar) -> (r: bool)
        ensures
            r == self.lt_spec(other),
    {
        !self.is_nan() && !other.is_nan() && self.signed_rank() < other.signed_rank()
    }

    pub fn le(self, other: Scalar) -> (r: bool)
        ensures
            r == self.le_spec(other),
    {
        !self.is_nan() && !other.is_nan() && self.signed_rank() <= other.signed_rank()
    }

    pub fn same_value(self, other: Scalar) -> (r: bool)
        ensures
            r == self.same_value_spec(other),
    {
        !self.is_nan() && !other.is_nan() && self.signed_rank() == other.signed_rank()
    }

    pub fn min(self, other: Scalar) -> (r: Scalar)
        ensures
            r == self.min_spec(other),
    {
        if self.lt(other) || other.is_nan() {
            self
        } else {
            other
        }
    }

    pub fn max(self, other: Scalar) -> (r: Scalar)
        ensures
            r == self.max_spec(other),
    {
        if other.lt(self) || other.is_nan() {
            self
        } else {
            other
        }
    }

    /// The whole part of the number, as a cast to a 32-bit unsigned integer
    /// gives it.
    pub fn to_u32(self) -> (n: u32)
        ensures
            n == self.to_u32_spec(),
    {
        if self.is_nan() || self.bits >= SIGN_BIT {
            return 0;
        }
        let e: u32 = self.bits / 0x80_0000;
        let f: u32 = self.bits % 0x80_0000;
        if e == 0 {
            proof {
                lemma2_to64();
                lemma_pow2_strictly_increases(23, 149);
                lemma_basic_div(f as int, pow2(149) as int);
            }
            return 0;
        }
        let sig: u32 = 0x80_0000 + f;
        proof {
            lemma_whole_part(sig as nat, e as nat);
        }
        if e < 127 {
            0
        } else if e >= 159 {
            u32::MAX
        } else if e >= 150 {
            proof {
                lemma_u32_shl_is_mul(sig, (e - 150) as u32);
            }
            sig << (e - 150)
        } else {
            proof {
                lemma_u32_shr_is_div(sig, (150 - e) as u32);
            }
            sig >> (150 - e)
        }
    }

    /// The number with the opposite sign. Exact for every encoding: only the
    /// sign bit changes.
    pub fn neg(self) -> (r: Scalar)
        ensures
            r == self.neg_spec(),
            r.magnitude() == self.magnitude(),
            r.sign() == !self.sign(),
    {
        if self.bits >= SIGN_BIT {
            Scalar { bits: self.bits - SIGN_BIT }
        } else {
            Scalar { bits: self.bits + SIGN_BIT }
        }
    }

    /// The number without its sign.
    pub fn abs(self) -> (r: Scalar)
        ensures
            r == self.abs_spec(),
            r.magnitude() == self.magnitude(),
            !r.sign(),
    {
        Scalar { bits: self.magnitude_bits() }
    }
}

proof fn lemma_whole_part(sig: nat, e: nat)
    requires
        0x80_0000 <= sig < 0x100_0000,
        1 <= e <= 255,
    ensures
        e < 127 ==> (sig * pow2((e - 1) as nat)) as int / (pow2(149) as int) == 0,
        127 <= e < 150 ==> (sig * pow2((e - 1) as nat)) as int / (pow2(149) as int) == sig as int
            / (pow2((150 - e) as nat) as int),
        150 <= e < 159 ==> (sig * pow2((e - 1) as nat)) as int / (pow2(149) as int) == sig * pow2(
            (e - 150) as nat,
        ) && sig * pow2((e - 150) as nat) <= u32::MAX,
        159 <= e ==> (sig * pow2((e - 1) as nat)) as int / (pow2(149) as int) > u32::MAX,
{
    let p = pow2((e - 1) as nat);
    let unit = pow2(149);
    lemma2_to64();
    lemma_pow2_pos(149);
    lemma_pow2_pos((e - 1) as nat);
    if e < 150 {
        let down = pow2((150 - e) as nat);
        lemma_pow2_pos((150 - e) as nat);
        lemma_pow2_adds((e - 1) as nat, (150 - e) as nat);
        assert(sig * p == p * sig) by (nonlinear_arith);
        lemma_div_multiples_vanish_quotient(p as int, sig as int, down as int);
        if e < 127 {
            lemma_pow2_strictly_increases(23, (150 - e) as nat);
            lemma_pow2_adds(23, 1);
            if 24 < 150 - e {
                lemma_pow2_strictly_increases(24, (150 - e) as nat);
            }
            lemma_basic_div(sig as int, down as int);
        }
    } else {
        let up = pow2((e - 150) as nat);
        lemma_pow2_pos((e - 150) as nat);
        lemma_pow2_adds((e - 150) as nat, 149);
        assert(sig * p == unit * (sig * up)) by (nonlinear_arith)
            requires
                p == up * unit,
        ;
        lemma_div_multiples_vanish((sig * up) as int, unit as int);
        if e < 159 {
            if e - 150 < 8 {
                lemma_pow2_strictly_increases((e - 150) as nat, 8);
            }
            assert(sig * up <= 0xff_ffff * 0x100) by (nonlinear_arith)
                requires
                    sig <= 0xff_ffff,
                    up <= 0x100,
            ;
        } else {
            if 9 < e - 150 {
                lemma_pow2_strictly_increases(9, (e - 150) as nat);
            }
            assert(sig * up >= 0x80_0000 * 0x200) by (nonlinear_arith)
                requires
                    sig >= 0x80_0000,
                    up >= 0x200,
            ;
        }
    }
}

proof fn lemma_magnitude_grows(a: Scalar, b: Scalar)
    requires
        a.magnitude() < b.magnitude(),
    ensures
        a.scaled_magnitude() < b.scaled_magnitude(),
{
    let ea = a.exponent();
    let eb = b.exponent();
    let fa = a.fraction();
    let fb = b.fraction();
    if eb > 0 {
        let pb = pow2((eb - 1) as nat);
        lemma_pow2_pos((eb - 1) as nat);
        if ea == eb {
            assert((0x80_0000 + fa) * pb < (0x80_0000 + fb) * pb) by (nonlinear_arith)
                requires
                    fa < fb,
                    pb > 0,
            ;
        } else {
            assert(0x80_0000 * pb <= (0x80_0000 + fb) * pb) by (nonlinear_arith)
                requires
                    fb >= 0,
                    pb > 0,
            ;
            if ea == 0 {
                assert(0x80_0000 <= 0x80_0000 * pb) by (nonlinear_arith)
                    requires
                        pb > 0,
                ;
            } else {
                let pa = pow2((ea - 1) as nat);
                lemma_pow2_pos((ea - 1) as nat);
                lemma_pow2_unfold(ea as nat);
                if ea < eb - 1 {
                    lemma_pow2_strictly_increases(ea as nat, (eb - 1) as nat);
                }
                assert((0x80_0000 + fa) * pa < 0x80_0000 * pb) by (nonlinear_arith)
                    requires
                        fa < 0x80_0000,
                        pa > 0,
                        2 * pa <= pb,
                ;
            }
        }
    }
}

/// The order of positions is the order of values: of two numbers, the one
/// at the lower position has the lower value, and numbers at one position
/// have one value.
pub proof fn lemma_rank_orders_values(a: Scalar, b: Scalar)
    ensures
        a.rank() < b.rank() <==> a.scaled_value() < b.scaled_value(),
        a.rank() == b.rank() <==> a.scaled_value() == b.scaled_value(),
{
    if a.magnitude() < b.magnitude() {
        lemma_magnitude_grows(a, b);
    }
    if b.magnitude() < a.magnitude() {
        lemma_magnitude_grows(b, a);
    }
    let zero = Scalar { bits: 0 };
    if 0 < a.magnitude() {
        lemma_magnitude_grows(zero, a);
    }
    if 0 < b.magnitude() {
        lemma_magnitude_grows(zero, b);
    }
}

/// Negating a number mirrors its position and its value, and negating
/// twice gives the encoding back.
pub proof fn lemma_neg_mirrors(a: Scalar)
    ensures
        a.neg_spec().rank() == -a.rank(),
        a.neg_spec().scaled_value() == -a.scaled_value(),
        a.neg_spec().is_nan_spec() == a.is_nan_spec(),
        a.neg_spec().neg_spec() == a,
{
}

/// Numeric order is a strict order on numbers: irreflexive and transitive,
/// and any two numbers are comparable.
pub proof fn lemma_order(a: Scalar, b: Scalar, c: Scalar)
    ensures
        !a.lt_spec(a),
        a.lt_spec(b) && b.lt_spec(c) ==> a.lt_spec(c),
        a.lt_spec(b) && b.le_spec(c) ==> a.lt_spec(c),
        a.le_spec(b) <==> a.lt_spec(b) || a.same_value_spec(b),
        !a.is_nan_spec() && !b.is_nan_spec() ==> a.lt_spec(b) || b.le_spec(a),
{
}

} // verus!
