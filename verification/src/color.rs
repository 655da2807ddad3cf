//! From linear colour to the integers of an image line.

use vstd::prelude::*;
use vstd::arithmetic::div_mod::{lemma_basic_div, lemma_div_multiples_vanish_quotient};
use vstd::arithmetic::power2::{lemma2_to64, lemma_pow2_adds, lemma_pow2_pos, lemma_pow2_strictly_increases, pow2};
use vstd::bits::lemma_u32_shr_is_div;
use crate::interval::{Interval, INTENSITY_MAX_BITS};
use crate::ppm::{pixel_line, push_pixel, Rgb};
use crate::scalar::{Scalar, SIGN_BIT};
use crate::vec3::Color;

verus! {

/// The range of colour intensities, `0` to `0.999`.
pub open spec fn intensity_spec() -> Interval {
    Interval { min: Scalar { bits: 0 }, max: Scalar { bits: INTENSITY_MAX_BITS } }
}

/// The gamma-corrected intensity of a linear one: its square root, given as
/// `root`, where `linear` is above zero; else zero.
pub open spec fn linear_to_gamma_spec(linear: Scalar, root: Scalar) -> Scalar {
    if (Scalar { bits: 0 }).lt_spec(linear) {
        root
    } else {
        Scalar { bits: 0 }
    }
}

/// The gamma-corrected intensity of a linear one: its square root, which the
/// caller computed as `root`, where `linear` is above zero; else zero.
pub fn linear_to_gamma(linear: Scalar, root: Scalar) -> (gamma: Scalar)
    ensures
        gamma == linear_to_gamma_spec(linear, root),
{
    let zero = Scalar::zero();
    if zero.lt(linear) {
        root
    } else {
        zero
    }
}

/// The integer of a channel: the intensity clamped to `0 ..= 0.999`, times
/// 256, with the fraction cut off. What is not a number counts as 0.
pub open spec fn channel_byte_spec(intensity: Scalar) -> int {
    let c = intensity_spec().clamp_spec(intensity);
    if c.is_nan_spec() {
        0
    } else {
        (c.scaled_magnitude() * 256) as int / (pow2(149) as int)
    }
}

proof fn lemma_scale_truncate(sig: nat, e: nat)
    requires
        1 <= e <= 126,
        sig < 0x100_0000,
    ensures
        (sig * pow2((e - 1) as nat) * 256) as int / (pow2(149) as int) == sig as int / (pow2(
            (142 - e) as nat,
        ) as int),
        e < 119 ==> sig as int / (pow2((142 - e) as nat) as int) == 0,
{
    let up = pow2((e + 7) as nat);
    let down = pow2((142 - e) as nat);
    lemma2_to64();
    lemma_pow2_adds((e - 1) as nat, 8);
    lemma_pow2_adds((e + 7) as nat, (142 - e) as nat);
    lemma_pow2_pos((e + 7) as nat);
    lemma_pow2_pos((142 - e) as nat);
    assert(sig * pow2((e - 1) as nat) * 256 == up * sig) by (nonlinear_arith)
        requires
            up == pow2((e - 1) as nat) * 256,
    ;
    assert(pow2(149) == up * down);
    lemma_div_multiples_vanish_quotient(up as int, sig as int, down as int);
    if e < 119 {
        lemma_pow2_strictly_increases(23, (142 - e) as nat);
        lemma_pow2_adds(23, 1);
        if 24 < 142 - e {
            lemma_pow2_strictly_increases(24, (142 - e) as nat);
        }
        lemma_basic_div(sig as int, down as int);
    }
}

pub fn channel_byte(intensity: Scalar) -> (b: u8)
    ensures
        b as int == channel_byte_spec(intensity),
{
    let c = Interval::intensity().clamp(intensity);
    if c.is_nan() {
        return 0;
    }
    let m: u32 = c.to_bits() % SIGN_BIT;
    let e: u32 = m / 0x80_0000;
    let f: u32 = m % 0x80_0000;
    assert(c.rank() >= 0 && c.rank() <= INTENSITY_MAX_BITS);
    assert(e <= 126);
    if e == 0 {
        proof {
            lemma2_to64();
            lemma_pow2_strictly_increases(31, 149);
            lemma_basic_div(f as int * 256, pow2(149) as int);
        }
        return 0;
    }
    let sig: u32 = 0x80_0000 + f;
    proof {
        lemma_scale_truncate(sig as nat, e as nat);
    }
    if e < 119 {
        return 0;
    }
    let shift: u32 = 142 - e;
    proof {
        lemma_u32_shr_is_div(sig, shift);
        lemma2_to64();
        lemma_pow2_strictly_increases(15, shift as nat);
        assert(sig as int / (pow2(shift as nat) as int) < 256) by (nonlinear_arith)
            requires
                sig < 0x100_0000,
                pow2(shift as nat) >= 0x1_0000,
        ;
    }
    (sig >> shift) as u8
}

/// The pixel of a linear colour whose channels have the square roots `roots`.
pub open spec fn to_rgb_spec(pixel_color: Color, roots: Color) -> Rgb {
    Rgb {
        r: channel_byte_spec(linear_to_gamma_spec(pixel_color.x, roots.x)) as u8,
        g: channel_byte_spec(linear_to_gamma_spec(pixel_color.y, roots.y)) as u8,
        b: channel_byte_spec(linear_to_gamma_spec(pixel_color.z, roots.z)) as u8,
    }
}

/// The pixel of a linear colour: each channel gamma-corrected, clamped and
/// cut to an integer. `roots` holds the square roots of the channels.
pub fn to_rgb(pixel_color: Color, roots: Color) -> (p: Rgb)
    ensures
        p == to_rgb_spec(pixel_color, roots),
{
    Rgb {
        r: channel_byte(linear_to_gamma(pixel_color.x, roots.x)),
        g: channel_byte(linear_to_gamma(pixel_color.y, roots.y)),
        b: channel_byte(linear_to_gamma(pixel_color.z, roots.z)),
    }
}

/// The image line of a linear colour whose channels have the square roots
/// `roots`: its three integers in decimal, a space between them and a newline
/// after.
pub fn write_color(pixel_color: Color, roots: Color) -> (line: Vec<u8>)
    ensures
        line@ == pixel_line(to_rgb_spec(pixel_color, roots)),
{
    let mut line: Vec<u8> = Vec::new();
    push_pixel(&mut line, to_rgb(pixel_color, roots));
    assert(line@ =~= pixel_line(to_rgb_spec(pixel_color, roots)));
    line
}

} // verus!
