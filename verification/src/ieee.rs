//! Binary floating-point numbers as bit patterns.

use vstd::arithmetic::power2;
use vstd::arithmetic::power2::pow2;
use vstd::prelude::*;

verus! {

/// What an IEEE 754 bit pattern stands for.
pub enum Number {
    Nan,
    Infinite { negative: bool },
    /// The number whose magnitude is `units` times two to the power -1074, the
    /// smallest positive number of the binary64 format. All numbers of the
    /// smaller formats are whole multiples of it too.
    Finite { negative: bool, units: nat },
}

/// The number with this sign, exponent field and fraction field.
///
/// The fraction field is `width` bits wide, the exponent field is `top` for
/// infinities and NaN, and the smallest positive number is two to the power
/// `scale` units.
pub open spec fn number(
    negative: bool,
    exponent: nat,
    fraction: nat,
    width: nat,
    top: nat,
    scale: nat,
) -> Number {
    if exponent == top {
        if fraction == 0 {
            Number::Infinite { negative }
        } else {
            Number::Nan
        }
    } else if exponent == 0 {
        Number::Finite { negative, units: fraction * pow2(scale) }
    } else {
        Number::Finite {
            negative,
            units: (pow2(width) + fraction) * pow2((exponent - 1 + scale) as nat),
        }
    }
}

/// The number that a binary16 pattern stands for.
pub open spec fn binary16(bits: u16) -> Number {
    number(
        bits / 0x8000 == 1,
        (bits / 0x400 % 0x20) as nat,
        (bits % 0x400) as nat,
        10,
        0x1f,
        1050,
    )
}

/// The number that a binary32 pattern stands for.
pub open spec fn binary32(bits: u32) -> Number {
    number(
        bits / 0x8000_0000 == 1,
        (bits / 0x80_0000 % 0x100) as nat,
        (bits % 0x80_0000) as nat,
        23,
        0xff,
        925,
    )
}

/// The number that a binary64 pattern stands for.
pub open spec fn binary64(bits: u64) -> Number {
    number(
        bits / 0x8000_0000_0000_0000 == 1,
        (bits / 0x10_0000_0000_0000 % 0x800) as nat,
        (bits % 0x10_0000_0000_0000) as nat,
        52,
        0x7ff,
        0,
    )
}

/// The binary32 pattern stands for a finite number greater than zero.
pub open spec fn positive_finite(bits: u32) -> bool {
    binary32(bits) matches Number::Finite { negative, units } && !negative && units > 0
}

/// The binary32 pattern stands for a finite number that is not less than zero:
/// either zero, with or without a sign, or one greater than zero.
pub open spec fn non_negative_finite(bits: u32) -> bool {
    binary32(bits) matches Number::Finite { negative, units } && (!negative || units == 0)
}

/// Is this binary32 pattern that of a finite number greater than zero?
pub fn is_positive_finite(bits: u32) -> (r: bool)
    ensures
        r == positive_finite(bits),
        r == (0 < bits < 0x7f80_0000),
{
    proof {
        lemma_zero(bits);
    }
    0 < bits && bits < 0x7f80_0000
}

/// Is this binary32 pattern that of a finite number that is not less than zero?
pub fn is_non_negative_finite(bits: u32) -> (r: bool)
    ensures
        r == non_negative_finite(bits),
        r == (bits < 0x7f80_0000 || bits == 0x8000_0000),
{
    proof {
        lemma_zero(bits);
    }
    bits < 0x7f80_0000 || bits == 0x8000_0000
}

/// A finite number is zero where both fields are.
proof fn lemma_zero(bits: u32)
    ensures
        binary32(bits) matches Number::Finite { negative, units } ==> (units == 0 <==> bits
            % 0x8000_0000 == 0),
{
    let exponent = (bits / 0x80_0000 % 0x100) as nat;
    let fraction = (bits % 0x80_0000) as nat;
    power2::lemma_pow2_pos(925);
    power2::lemma_pow2_pos(23);
    if exponent == 0 {
        assert(fraction * pow2(925) == 0 <==> fraction == 0) by (nonlinear_arith)
            requires
                pow2(925) > 0,
        ;
    } else {
        let shift = (exponent - 1 + 925) as nat;
        power2::lemma_pow2_pos(shift);
        assert((pow2(23) + fraction) * pow2(shift) > 0) by (nonlinear_arith)
            requires
                pow2(23) > 0,
                pow2(shift) > 0,
        ;
    }
}

proof fn lemma_zero_binary64(bits: u64)
    ensures
        binary64(bits) matches Number::Finite { negative, units } ==> (units == 0 <==> bits
            % 0x8000_0000_0000_0000 == 0),
{
    let exponent = (bits / 0x10_0000_0000_0000 % 0x800) as nat;
    let fraction = (bits % 0x10_0000_0000_0000) as nat;
    power2::lemma_pow2_pos(52);
    power2::lemma2_to64();
    assert(fraction * pow2(0) == fraction);
    if exponent != 0 {
        let shift = (exponent - 1) as nat;
        power2::lemma_pow2_pos(shift);
        assert((pow2(52) + fraction) * pow2(shift) > 0) by (nonlinear_arith)
            requires
                pow2(52) > 0,
                pow2(shift) > 0,
        ;
    }
}

/// The binary32 pattern with a sign, an exponent field and the 11 leading bits
/// of the significand.
fn pack_binary32(negative: bool, exponent: u32, significand: u32) -> (r: u32)
    requires
        0 < exponent < 0xff,
        0x400 <= significand < 0x800,
    ensures
        binary32(r) == (Number::Finite {
            negative,
            units: (significand * pow2((exponent - 1 + 13 + 925) as nat)) as nat,
        }),
{
    let sign: u32 = if negative {
        0x8000_0000
    } else {
        0
    };
    let r: u32 = sign + exponent * 0x80_0000 + (significand - 0x400) * 0x2000;
    proof {
        let fraction = (significand - 0x400) * 0x2000;
        assert(0 <= fraction < 0x80_0000);
        assert(r / 0x8000_0000 == if negative {
            1int
        } else {
            0int
        });
        assert(r % 0x80_0000 == fraction);
        assert(r / 0x80_0000 % 0x100 == exponent);
        power2::lemma2_to64();
        assert(pow2(23) == 0x80_0000);
        assert(pow2(13) == 0x2000);
        let shift = (exponent - 1 + 925) as nat;
        power2::lemma_pow2_adds(shift, 13);
        let p = pow2(shift);
        assert((0x80_0000 + fraction) * p == significand * (p * 0x2000)) by (nonlinear_arith)
            requires
                fraction == (significand - 0x400) * 0x2000,
        ;
    }
    r
}

/// The binary32 pattern `wide` stands for what the binary16 pattern `bits`
/// stands for. A NaN keeps its sign and its payload, and is quiet.
pub open spec fn widens_to_binary32(bits: u16, wide: u32) -> bool {
    &&& binary32(wide) == binary16(bits)
    &&& binary16(bits) == Number::Nan ==> wide == (bits / 0x8000) * 0x8000_0000 + 0x7fc0_0000
        + (bits % 0x200) * 0x2000
}

/// Convert a binary16 number to binary32, without loss.
pub fn binary16_to_binary32(bits: u16) -> (r: u32)
    ensures
        widens_to_binary32(bits, r),
{
    let negative: bool = bits / 0x8000 == 1;
    let exponent: u32 = (bits / 0x400 % 0x20) as u32;
    let fraction: u32 = (bits % 0x400) as u32;
    proof {
        power2::lemma2_to64();
        assert(pow2(10) == 0x400);
    }
    if exponent == 0x1f {
        let sign: u32 = if negative {
            0x8000_0000
        } else {
            0
        };
        if fraction != 0 {
            let r: u32 = sign + 0x7fc0_0000 + (bits % 0x200) as u32 * 0x2000;
            assert(bits / 0x8000 == if negative {
                1int
            } else {
                0int
            });
            assert(r / 0x80_0000 % 0x100 == 0xff);
            assert(r % 0x80_0000 >= 0x40_0000);
            r
        } else {
            sign + 0x7f80_0000
        }
    } else if exponent == 0 {
        if fraction == 0 {
            assert(0 * pow2(1050) == 0 && 0 * pow2(925) == 0);
            if negative {
                0x8000_0000
            } else {
                0
            }
        } else {
            let mut place: u32 = 113;
            let mut significand: u32 = fraction;
            while significand < 0x400
                invariant
                    0 < significand < 0x800,
                    significand * pow2((place - 1 + 13 + 925) as nat) == fraction * pow2(1050),
                    103 <= place <= 113,
                    significand >= pow2((113 - place) as nat),
                decreases place,
            {
                proof {
                    let high = (place - 1 + 13 + 925) as nat;
                    let low = (place - 2 + 13 + 925) as nat;
                    power2::lemma_pow2_unfold(high);
                    power2::lemma_pow2_unfold((114 - place) as nat);
                    assert((2 * significand) * pow2(low) == significand * pow2(high))
                        by (nonlinear_arith)
                        requires
                            pow2(high) == 2 * pow2(low),
                    ;
                    if place == 103 {
                        power2::lemma2_to64();
                        assert(pow2(10) == 0x400);
                    }
                }
                significand = 2 * significand;
                place = place - 1;
            }
            pack_binary32(negative, place, significand)
        }
    } else {
        pack_binary32(negative, exponent + 112, 0x400 + fraction)
    }
}

/// The binary64 pattern with a sign, an exponent field and the 24 leading bits
/// of the significand.
fn pack_binary64(negative: bool, exponent: u64, significand: u64) -> (r: u64)
    requires
        0 < exponent < 0x7ff,
        0x80_0000 <= significand < 0x100_0000,
    ensures
        binary64(r) == (Number::Finite {
            negative,
            units: (significand * pow2((exponent - 1 + 29) as nat)) as nat,
        }),
{
    let sign: u64 = if negative {
        0x8000_0000_0000_0000
    } else {
        0
    };
    let r: u64 = sign + exponent * 0x10_0000_0000_0000 + (significand - 0x80_0000) * 0x2000_0000;
    proof {
        lemma_pack_binary64(negative, exponent as nat, significand as nat);
    }
    r
}

/// The binary64 pattern `wide` stands for what the binary32 pattern `bits`
/// stands for. A NaN keeps its sign and its payload, and is quiet.
pub open spec fn widens_to_binary64(bits: u32, wide: u64) -> bool {
    &&& binary64(wide) == binary32(bits)
    &&& binary32(bits) == Number::Nan ==> wide == (bits / 0x8000_0000) * 0x8000_0000_0000_0000
        + 0x7ff8_0000_0000_0000 + (bits % 0x40_0000) * 0x2000_0000
}

/// Convert a binary32 number to binary64, without loss.
pub fn binary32_to_binary64(bits: u32) -> (r: u64)
    ensures
        widens_to_binary64(bits, r),
{
    let negative: bool = bits / 0x8000_0000 == 1;
    let exponent: u64 = (bits / 0x80_0000 % 0x100) as u64;
    let fraction: u64 = (bits % 0x80_0000) as u64;
    proof {
        power2::lemma2_to64();
        assert(pow2(23) == 0x80_0000);
    }
    if exponent == 0xff {
        if fraction != 0 {
            let sign: u64 = if negative {
                0x8000_0000_0000_0000
            } else {
                0
            };
            let r: u64 = sign + 0x7ff8_0000_0000_0000 + (bits % 0x40_0000) as u64 * 0x2000_0000;
            assert(bits / 0x8000_0000 == if negative {
                1int
            } else {
                0int
            });
            assert(r / 0x10_0000_0000_0000 % 0x800 == 0x7ff);
            assert(r % 0x10_0000_0000_0000 >= 0x8_0000_0000_0000);
            r
        } else if negative {
            0xfff0_0000_0000_0000
        } else {
            0x7ff0_0000_0000_0000
        }
    } else if exponent == 0 {
        if fraction == 0 {
            assert(0 * pow2(925) == 0 && 0 * pow2(0) == 0);
            if negative {
                0x8000_0000_0000_0000
            } else {
                0
            }
        } else {
            let mut place: u64 = 897;
            let mut significand: u64 = fraction;
            while significand < 0x80_0000
                invariant
                    0 < significand < 0x100_0000,
                    significand * pow2((place - 1 + 29) as nat) == fraction * pow2(925),
                    874 <= place <= 897,
                    significand >= pow2((897 - place) as nat),
                decreases place,
            {
                proof {
                    let high = (place - 1 + 29) as nat;
                    let low = (place - 2 + 29) as nat;
                    power2::lemma_pow2_unfold(high);
                    power2::lemma_pow2_unfold((898 - place) as nat);
                    assert((2 * significand) * pow2(low) == significand * pow2(high))
                        by (nonlinear_arith)
                        requires
                            pow2(high) == 2 * pow2(low),
                    ;
                    if place == 874 {
                        power2::lemma2_to64();
                        assert(pow2(23) == 0x80_0000);
                    }
                }
                significand = 2 * significand;
                place = place - 1;
            }
            pack_binary64(negative, place, significand)
        }
    } else {
        pack_binary64(negative, exponent + 896, 0x80_0000 + fraction)
    }
}

/// Two numbers compare equal: a NaN does not equal anything, and the two zeros
/// are equal.
pub open spec fn equal(x: Number, y: Number) -> bool {
    match (x, y) {
        (
            Number::Finite { negative, units },
            Number::Finite { negative: other_negative, units: other_units },
        ) => units == other_units && (negative == other_negative || units == 0),
        (Number::Infinite { negative }, Number::Infinite { negative: other_negative }) => negative
            == other_negative,
        _ => false,
    }
}

/// Do two binary32 patterns stand for equal numbers?
pub fn equal_binary32(a: u32, b: u32) -> (r: bool)
    ensures
        r == equal(binary32(a), binary32(b)),
        r == ((a % 0x8000_0000 == 0 && b % 0x8000_0000 == 0) || (a == b && a % 0x8000_0000
            <= 0x7f80_0000)),
{
    proof {
        lemma_zero(a);
        lemma_zero(b);
        if binary32(a) == binary32(b) && binary32(a) != Number::Nan {
            law_binary32_is_determined(a, b);
        }
    }
    let both_zero: bool = a % 0x8000_0000 == 0 && b % 0x8000_0000 == 0;
    both_zero || (a == b && a % 0x8000_0000 <= 0x7f80_0000)
}

/// Do two binary64 patterns stand for equal numbers?
pub fn equal_binary64(a: u64, b: u64) -> (r: bool)
    ensures
        r == equal(binary64(a), binary64(b)),
        r == ((a % 0x8000_0000_0000_0000 == 0 && b % 0x8000_0000_0000_0000 == 0) || (a == b && a
            % 0x8000_0000_0000_0000 <= 0x7ff0_0000_0000_0000)),
{
    proof {
        lemma_zero_binary64(a);
        lemma_zero_binary64(b);
        if binary64(a) == binary64(b) && binary64(a) != Number::Nan {
            law_binary64_is_determined(a, b);
        }
    }
    let both_zero: bool = a % 0x8000_0000_0000_0000 == 0 && b % 0x8000_0000_0000_0000 == 0;
    both_zero || (a == b && a % 0x8000_0000_0000_0000 <= 0x7ff0_0000_0000_0000)
}

/// In one format, different fields stand for different numbers, NaN apart.
pub proof fn law_fields_are_determined(
    negative: bool,
    exponent: nat,
    fraction: nat,
    other_negative: bool,
    other_exponent: nat,
    other_fraction: nat,
    width: nat,
    top: nat,
    scale: nat,
)
    requires
        exponent <= top,
        other_exponent <= top,
        fraction < pow2(width),
        other_fraction < pow2(width),
        number(negative, exponent, fraction, width, top, scale) == number(
            other_negative,
            other_exponent,
            other_fraction,
            width,
            top,
            scale,
        ),
        number(negative, exponent, fraction, width, top, scale) != Number::Nan,
    ensures
        negative == other_negative,
        exponent == other_exponent,
        fraction == other_fraction,
{
    if exponent < other_exponent {
        lemma_exponents_order(exponent, fraction, other_exponent, other_fraction, width, scale);
    } else if other_exponent < exponent {
        lemma_exponents_order(other_exponent, other_fraction, exponent, fraction, width, scale);
    } else if exponent != top {
        let shift = if exponent == 0 {
            scale
        } else {
            (exponent - 1 + scale) as nat
        };
        let lead = if exponent == 0 {
            0
        } else {
            pow2(width)
        };
        power2::lemma_pow2_pos(shift);
        assert(fraction == other_fraction) by (nonlinear_arith)
            requires
                (lead + fraction) * pow2(shift) == (lead + other_fraction) * pow2(shift),
                pow2(shift) > 0,
        ;
    }
}

/// The magnitude of the number with these fields.
spec fn magnitude(exponent: nat, fraction: nat, width: nat, scale: nat) -> nat {
    if exponent == 0 {
        fraction * pow2(scale)
    } else {
        (pow2(width) + fraction) * pow2((exponent - 1 + scale) as nat)
    }
}

proof fn lemma_exponents_order(
    exponent: nat,
    fraction: nat,
    other_exponent: nat,
    other_fraction: nat,
    width: nat,
    scale: nat,
)
    requires
        exponent < other_exponent,
        fraction < pow2(width),
    ensures
        magnitude(exponent, fraction, width, scale) < magnitude(
            other_exponent,
            other_fraction,
            width,
            scale,
        ),
{
    let upper = (other_exponent - 1 + scale) as nat;
    let w = pow2(width);
    power2::lemma_pow2_pos(upper);
    if exponent == 0 {
        if scale < upper {
            power2::lemma_pow2_strictly_increases(scale, upper);
        }
        power2::lemma_pow2_pos(scale);
        let p = pow2(scale);
        let q = pow2(upper);
        assert(fraction * p < (w + other_fraction) * q) by (nonlinear_arith)
            requires
                0 < p <= q,
                0 <= fraction < w,
                0 <= other_fraction,
        ;
    } else {
        let lower = (exponent - 1 + scale) as nat;
        power2::lemma_pow2_pos(lower);
        power2::lemma_pow2_unfold(lower + 1);
        if lower + 1 < upper {
            power2::lemma_pow2_strictly_increases(lower + 1, upper);
        }
        let p = pow2(lower);
        let q = pow2(upper);
        assert((w + fraction) * p < (w + other_fraction) * q) by (nonlinear_arith)
            requires
                0 < 2 * p <= q,
                0 <= fraction < w,
                0 <= other_fraction,
        ;
    }
}

/// No two binary32 patterns stand for the same number, NaN apart.
pub proof fn law_binary32_is_determined(a: u32, b: u32)
    requires
        binary32(a) == binary32(b),
        binary32(a) != Number::Nan,
    ensures
        a == b,
{
    power2::lemma2_to64();
    assert(pow2(23) == 0x80_0000);
    law_fields_are_determined(
        a / 0x8000_0000 == 1,
        (a / 0x80_0000 % 0x100) as nat,
        (a % 0x80_0000) as nat,
        b / 0x8000_0000 == 1,
        (b / 0x80_0000 % 0x100) as nat,
        (b % 0x80_0000) as nat,
        23,
        0xff,
        925,
    );
}

/// No two binary64 patterns stand for the same number, NaN apart.
pub proof fn law_binary64_is_determined(a: u64, b: u64)
    requires
        binary64(a) == binary64(b),
        binary64(a) != Number::Nan,
    ensures
        a == b,
{
    power2::lemma2_to64();
    power2::lemma2_to64_rest();
    assert(pow2(52) == 0x10_0000_0000_0000);
    law_fields_are_determined(
        a / 0x8000_0000_0000_0000 == 1,
        (a / 0x10_0000_0000_0000 % 0x800) as nat,
        (a % 0x10_0000_0000_0000) as nat,
        b / 0x8000_0000_0000_0000 == 1,
        (b / 0x10_0000_0000_0000 % 0x800) as nat,
        (b % 0x10_0000_0000_0000) as nat,
        52,
        0x7ff,
        0,
    );
}

/// Patterns compare as numbers: those of the two zeros are equal, any other one
/// only to itself, and one of a NaN to none.
pub proof fn law_equal(a: u32, b: u32, c: u64, d: u64)
    ensures
        equal(binary32(a), binary32(b)) <==> (a % 0x8000_0000 == 0 && b % 0x8000_0000 == 0) || (a
            == b && a % 0x8000_0000 <= 0x7f80_0000),
        equal(binary64(c), binary64(d)) <==> (c % 0x8000_0000_0000_0000 == 0 && d
            % 0x8000_0000_0000_0000 == 0) || (c == d && c % 0x8000_0000_0000_0000
            <= 0x7ff0_0000_0000_0000),
{
    lemma_zero(a);
    lemma_zero(b);
    if binary32(a) == binary32(b) && binary32(a) != Number::Nan {
        law_binary32_is_determined(a, b);
    }
    lemma_zero_binary64(c);
    lemma_zero_binary64(d);
    if binary64(c) == binary64(d) && binary64(c) != Number::Nan {
        law_binary64_is_determined(c, d);
    }
}

/// A binary16 number is its sign, ten fraction bits with a one before them, and
/// a power of two; with the exponent field zero there is no one before them. The
/// smallest positive number is two to the power -24.
pub proof fn law_binary16(sign: u16, exponent: u16, fraction: u16)
    requires
        sign <= 1,
        exponent <= 31,
        fraction < 1024,
    ensures
        binary16((0x8000 * sign + 0x400 * exponent + fraction) as u16) == if exponent < 31 {
            Number::Finite {
                negative: sign == 1,
                units: if exponent == 0 {
                    fraction as nat * pow2(1050)
                } else {
                    (1024 + fraction as nat) * pow2((exponent + 1049) as nat)
                },
            }
        } else if fraction == 0 {
            Number::Infinite { negative: sign == 1 }
        } else {
            Number::Nan
        },
{
    power2::lemma2_to64();
    assert(pow2(10) == 1024);
}

/// A binary32 number is its sign, 23 fraction bits with a one before them, and a
/// power of two; with the exponent field zero there is no one before them. The
/// smallest positive number is two to the power -149.
pub proof fn law_binary32(sign: u32, exponent: u32, fraction: u32)
    requires
        sign <= 1,
        exponent <= 255,
        fraction < 0x80_0000,
    ensures
        binary32((0x8000_0000 * sign + 0x80_0000 * exponent + fraction) as u32) == if exponent
            < 255 {
            Number::Finite {
                negative: sign == 1,
                units: if exponent == 0 {
                    fraction as nat * pow2(925)
                } else {
                    (0x80_0000 + fraction as nat) * pow2((exponent + 924) as nat)
                },
            }
        } else if fraction == 0 {
            Number::Infinite { negative: sign == 1 }
        } else {
            Number::Nan
        },
{
    power2::lemma2_to64();
    assert(pow2(23) == 0x80_0000);
}

/// A binary64 number is its sign, 52 fraction bits with a one before them, and a
/// power of two; with the exponent field zero there is no one before them. The
/// smallest positive number is two to the power -1074.
pub proof fn law_binary64(sign: u64, exponent: u64, fraction: u64)
    requires
        sign <= 1,
        exponent <= 2047,
        fraction < 0x10_0000_0000_0000,
    ensures
        binary64(
            (0x8000_0000_0000_0000 * sign + 0x10_0000_0000_0000 * exponent + fraction) as u64,
        ) == if exponent < 2047 {
            Number::Finite {
                negative: sign == 1,
                units: if exponent == 0 {
                    fraction as nat
                } else {
                    (0x10_0000_0000_0000 + fraction as nat) * pow2((exponent - 1) as nat)
                },
            }
        } else if fraction == 0 {
            Number::Infinite { negative: sign == 1 }
        } else {
            Number::Nan
        },
{
    power2::lemma2_to64();
    power2::lemma2_to64_rest();
    assert(pow2(52) == 0x10_0000_0000_0000);
    assert(fraction * pow2(0) == fraction);
}

/// The pattern of a wider number: the sign stays, a fraction field is filled up
/// with zeros, and the exponent fields are 896 apart. A fraction without a one
/// before it is shifted until it has one.
pub proof fn law_widening_to_binary64(bits: u32, wide: u64)
    requires
        widens_to_binary64(bits, wide),
    ensures
        ({
            let sign = (bits / 0x8000_0000) * 0x8000_0000_0000_0000;
            let exponent = bits / 0x80_0000 % 0x100;
            let fraction = bits % 0x80_0000;
            &&& 0 < exponent < 0xff ==> wide == sign + (exponent + 896) * 0x10_0000_0000_0000
                + fraction * 0x2000_0000
            &&& exponent == 0xff && fraction == 0 ==> wide == sign + 0x7ff0_0000_0000_0000
            &&& exponent == 0xff && fraction != 0 ==> wide == sign + 0x7ff8_0000_0000_0000 + (
            fraction % 0x40_0000) * 0x2000_0000
            &&& exponent == 0 && fraction == 0 ==> wide == sign
            &&& exponent == 0 ==> forall|k: nat| #[trigger]
                pow2(k) * fraction >= 0x80_0000 && pow2(k) * fraction < 0x100_0000 && k < 24
                    ==> wide == sign + (897 - k) * 0x10_0000_0000_0000 + (pow2(k) * fraction
                    - 0x80_0000) * 0x2000_0000
        }),
{
    let negative = bits / 0x8000_0000 == 1;
    let sign = (bits / 0x8000_0000) * 0x8000_0000_0000_0000;
    let exponent = bits / 0x80_0000 % 0x100;
    let fraction = bits % 0x80_0000;
    power2::lemma2_to64();
    power2::lemma2_to64_rest();
    assert(pow2(23) == 0x80_0000);
    assert(pow2(52) == 0x10_0000_0000_0000);
    assert(bits / 0x8000_0000 == if negative {
        1int
    } else {
        0int
    });
    if exponent == 0xff {
        if fraction == 0 {
            let r = (sign + 0x7ff0_0000_0000_0000) as u64;
            assert(binary64(r) == Number::Infinite { negative });
            law_binary64_is_determined(wide, r);
        }
    } else if exponent == 0 {
        if fraction == 0 {
            assert(0 * pow2(925) == 0 && 0 * pow2(0) == 0);
            let r = sign as u64;
            law_binary64_is_determined(wide, r);
        } else {
            assert forall|k: nat| #[trigger]
                pow2(k) * fraction >= 0x80_0000 && pow2(k) * fraction < 0x100_0000 && k
                    < 24 implies wide == sign + (897 - k) * 0x10_0000_0000_0000 + (pow2(k)
                * fraction - 0x80_0000) * 0x2000_0000 by {
                let s = pow2(k) * fraction;
                lemma_pack_binary64(negative, (897 - k) as nat, s as nat);
                let high = pow2((897 - k - 1 + 29) as nat);
                power2::lemma_pow2_adds(k, (897 - k - 1 + 29) as nat);
                assert(pow2(k) * high == pow2(925));
                assert((pow2(k) * fraction) * high == fraction * (pow2(k) * high))
                    by (nonlinear_arith);
                let r = sign + (897 - k) * 0x10_0000_0000_0000 + (s - 0x80_0000) * 0x2000_0000;
                law_binary64_is_determined(wide, r as u64);
            }
        }
    } else {
        let s = (0x80_0000 + fraction) as nat;
        lemma_pack_binary64(negative, (exponent + 896) as nat, s);
        let r = sign + (exponent + 896) * 0x10_0000_0000_0000 + (s - 0x80_0000) * 0x2000_0000;
        assert((exponent + 896 - 1 + 29) as nat == (exponent - 1 + 925) as nat);
        law_binary64_is_determined(wide, r as u64);
    }
}

/// What the pattern with a sign, an exponent field and the 24 leading bits of
/// the significand stands for.
proof fn lemma_pack_binary64(negative: bool, exponent: nat, significand: nat)
    requires
        0 < exponent < 0x7ff,
        0x80_0000 <= significand < 0x100_0000,
    ensures
        ({
            let r = (if negative {
                0x8000_0000_0000_0000int
            } else {
                0
            }) + exponent * 0x10_0000_0000_0000 + (significand - 0x80_0000) * 0x2000_0000;
            &&& 0 <= r <= u64::MAX
            &&& binary64(r as u64) == (Number::Finite {
                negative,
                units: significand * pow2((exponent - 1 + 29) as nat),
            })
        }),
{
    let fraction = (significand - 0x80_0000) * 0x2000_0000;
    let r = ((if negative {
        0x8000_0000_0000_0000int
    } else {
        0
    }) + exponent * 0x10_0000_0000_0000 + fraction) as u64;
    assert(r / 0x8000_0000_0000_0000 == if negative {
        1int
    } else {
        0int
    });
    assert(r % 0x10_0000_0000_0000 == fraction);
    assert(r / 0x10_0000_0000_0000 % 0x800 == exponent);
    power2::lemma2_to64();
    power2::lemma2_to64_rest();
    assert(pow2(52) == 0x10_0000_0000_0000);
    assert(pow2(29) == 0x2000_0000);
    power2::lemma_pow2_adds((exponent - 1) as nat, 29);
    let p = pow2((exponent - 1) as nat);
    assert((0x10_0000_0000_0000 + fraction) * p == significand * (p * 0x2000_0000))
        by (nonlinear_arith)
        requires
            fraction == (significand - 0x80_0000) * 0x2000_0000,
    ;
}

} // verus!
