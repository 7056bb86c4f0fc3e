//! The device's native value encodings: brightness percentages and
//! color-temperature codes, together with the laws they obey.

use vstd::prelude::*;

verus! {

/// Lowest temperature code the device accepts; encodes 2900 K.
pub const MIN_TEMPERATURE_CODE: u16 = 143;
/// Highest temperature code the device accepts; encodes 7000 K.
pub const MAX_TEMPERATURE_CODE: u16 = 344;
/// Lowest color temperature, in Kelvin, the device supports.
pub const MIN_KELVIN: u32 = 2900;
/// Highest color temperature, in Kelvin, the device supports.
pub const MAX_KELVIN: u32 = 7000;

/// `x` forced into the closed interval `[lo, hi]`.
pub open spec fn clamp_int(x: int, lo: int, hi: int) -> int {
    if x < lo {
        lo
    } else if x > hi {
        hi
    } else {
        x
    }
}

/// The device code for a color temperature in Kelvin: the Kelvin value is
/// clamped to [2900, 7000] and mapped linearly so that 2900 K gives 143 and
/// 7000 K gives 344, rounding to the nearest code (halves upward).
pub open spec fn temperature_code_of(kelvin: int) -> int {
    143 + ((clamp_int(kelvin, 2900, 7000) - 2900) * 201 + 2050) / 4100
}

/// A brightness request commits the percentage clamped to [0, 100].
pub open spec fn brightness_of(b: int) -> int {
    clamp_int(b, 0, 100)
}

/// A relative brightness request first clamps the delta (in percentage
/// points) symmetrically to [-100, 100], then commits the shifted value
/// clamped to [0, 100].
pub open spec fn relative_brightness_of(current: int, delta_points: int) -> int {
    clamp_int(current + clamp_int(delta_points, -100, 100), 0, 100)
}

/// Brightness percent clamped to the device range.
pub fn clamp_brightness(b: u8) -> (r: u8)
    ensures
        r as int == brightness_of(b as int),
{
    if b > 100 {
        100
    } else {
        b
    }
}

/// Device code for a Kelvin temperature; always within the code range.
pub fn temperature_code(kelvin: u32) -> (code: u16)
    ensures
        code as int == temperature_code_of(kelvin as int),
        MIN_TEMPERATURE_CODE <= code <= MAX_TEMPERATURE_CODE,
{
    let k: u64 = if kelvin < 2900 {
        2900
    } else if kelvin > 7000 {
        7000
    } else {
        kelvin as u64
    };
    let code: u64 = 143 + ((k - 2900) * 201 + 2050) / 4100;
    proof {
        lemma_code_offset_bounds((k - 2900) as int);
    }
    code as u16
}

/// New brightness after a relative change of `delta_points` percentage
/// points; always within [0, 100].
pub fn relative_brightness(current: u8, delta_points: i32) -> (r: u8)
    ensures
        r as int == relative_brightness_of(current as int, delta_points as int),
        r <= 100,
{
    let d: i32 = if delta_points < -100 {
        -100
    } else if delta_points > 100 {
        100
    } else {
        delta_points
    };
    let shifted: i32 = current as i32 + d;
    if shifted < 0 {
        0
    } else if shifted > 100 {
        100
    } else {
        shifted as u8
    }
}

/// For any Kelvin difference within the mapped span, the rounded code
/// offset stays within the code span.
proof fn lemma_code_offset_bounds(d: int)
    requires
        0 <= d <= 4100,
    ensures
        0 <= (d * 201 + 2050) / 4100 <= 201,
{
    assert(d * 201 + 2050 <= 4100 * 201 + 2050) by (nonlinear_arith)
        requires d <= 4100;
    assert(0 <= d * 201 + 2050) by (nonlinear_arith)
        requires 0 <= d;
    vstd::arithmetic::div_mod::lemma_div_is_ordered(d * 201 + 2050, 826150int, 4100);
    vstd::arithmetic::div_mod::lemma_div_is_ordered(0, d * 201 + 2050, 4100);
}

/// The temperature mapping never moves down when the Kelvin input moves up.
pub proof fn lemma_temperature_code_monotonic(k1: int, k2: int)
    requires
        k1 <= k2,
    ensures
        temperature_code_of(k1) <= temperature_code_of(k2),
{
    let c1 = clamp_int(k1, 2900, 7000);
    let c2 = clamp_int(k2, 2900, 7000);
    assert(c1 <= c2);
    assert((c1 - 2900) * 201 <= (c2 - 2900) * 201) by (nonlinear_arith)
        requires c1 <= c2;
    vstd::arithmetic::div_mod::lemma_div_is_ordered(
        (c1 - 2900) * 201 + 2050,
        (c2 - 2900) * 201 + 2050,
        4100,
    );
}

/// Kelvin inputs outside the supported span are clamped: everything at or
/// below 2900 K maps to the lowest code, everything at or above 7000 K to
/// the highest.
pub proof fn lemma_temperature_code_clamped(k: int)
    ensures
        k <= 2900 ==> temperature_code_of(k) == MIN_TEMPERATURE_CODE,
        k >= 7000 ==> temperature_code_of(k) == MAX_TEMPERATURE_CODE,
{
}

/// For a brightness already within the device range, clamping the delta
/// first changes nothing: a relative request commits exactly
/// `clamp(current + delta_points, 0, 100)`.
pub proof fn lemma_relative_brightness_formula(current: int, delta_points: int)
    requires
        0 <= current <= 100,
    ensures
        relative_brightness_of(current, delta_points) == clamp_int(
            current + delta_points,
            0,
            100,
        ),
{
}

} // verus!
