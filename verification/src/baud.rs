//! Baud-rate divisors.

use vstd::prelude::*;

use crate::variant::DivisorStyle;

verus! {

/// Largest divisor that UBRDIV holds.
pub const UBRDIV_MAX: u32 = 0xffff;

/// UDIVSLOT patterns indexed by the divisor fraction in sixteenths,
/// as recommended by the S3C6400/S5PV210 manuals.
pub const UDIVSLOT_TABLE: [u16; 16] = [
    0x0000, 0x0080, 0x0808, 0x0888, 0x2222, 0x4924, 0x4A52, 0x54AA,
    0x5555, 0xD555, 0xD5D5, 0xDDD5, 0xDDDD, 0xDFDD, 0xDFDF, 0xFFDF,
];

/// The divisor as UBRDIV and the second divisor register take it. UBRDIV
/// holds one less than `whole`; divisors below one whole step or beyond the
/// range of UBRDIV cannot be represented.
pub open spec fn representable(whole: int, second: Option<u32>) -> Option<(u32, Option<u32>)> {
    if 1 <= whole <= UBRDIV_MAX + 1 {
        Some(((whole - 1) as u32, second))
    } else {
        None
    }
}

/// The values of UBRDIV and, where the style has one, of the second divisor
/// register that make `baud_rate` out of `clock_rate`.
pub open spec fn baud_registers(clock_rate: u32, baud_rate: u32, style: DivisorStyle) -> Option<
    (u32, Option<u32>),
> {
    if baud_rate == 0 {
        None
    } else {
        let sixteenths = clock_rate as int / baud_rate as int;
        match style {
            // Half a divisor step is added before the division, so that it
            // rounds to the nearest divisor.
            DivisorStyle::Integer => if 16 * baud_rate > u32::MAX || clock_rate + 8 * baud_rate
                > u32::MAX {
                None
            } else {
                representable((clock_rate + 8 * baud_rate) / (16 * baud_rate), None)
            },
            // The divisor is kept in sixteenths of the bit clock: the whole
            // part goes to UBRDIV and the fraction is spread over a
            // 16-bit-time window by UDIVSLOT/UFRACVAL.
            DivisorStyle::Table => representable(
                sixteenths / 16,
                Some(UDIVSLOT_TABLE@[sixteenths % 16] as u32),
            ),
            DivisorStyle::Fractional => representable(
                sixteenths / 16,
                Some((sixteenths % 16) as u32),
            ),
        }
    }
}

/// Computes the values of UBRDIV and, where the style has one, of the second
/// divisor register. There are none for a baud rate of zero, nor where an
/// intermediate result exceeds 32 bits or the divisor exceeds UBRDIV.
pub fn calculate_baud_registers(clock_rate: u32, baud_rate: u32, style: DivisorStyle) -> (registers:
    Option<(u32, Option<u32>)>)
    ensures
        registers == baud_registers(clock_rate, baud_rate, style),
{
    if baud_rate == 0 {
        return None;
    }
    match style {
        DivisorStyle::Integer => {
            let half_step = baud_rate.checked_mul(8)?;
            let dividend = clock_rate.checked_add(half_step)?;
            let step = baud_rate.checked_mul(16)?;
            let rounded = dividend.checked_div(step)?;
            let ubrdiv = rounded.checked_sub(1)?;
            if ubrdiv <= UBRDIV_MAX {
                Some((ubrdiv, None))
            } else {
                None
            }
        },
        DivisorStyle::Table | DivisorStyle::Fractional => {
            let sixteenths = clock_rate.checked_div(baud_rate)?;
            let ubrdiv = (sixteenths / 16).checked_sub(1)?;
            let fraction = sixteenths & 15;
            assert(fraction == sixteenths % 16) by (bit_vector)
                requires
                    fraction == sixteenths & 15,
            ;
            let fracval = match style {
                DivisorStyle::Fractional => fraction,
                _ => UDIVSLOT_TABLE[fraction as usize] as u32,
            };
            if ubrdiv <= UBRDIV_MAX {
                Some((ubrdiv, Some(fracval)))
            } else {
                None
            }
        },
    }
}

/// Number of bits that are set in `word`.
pub open spec fn set_bits(word: int) -> int
    decreases word,
{
    if word <= 0 {
        0
    } else {
        word % 2 + set_bits(word / 2)
    }
}

/// Distance between two numbers.
pub open spec fn distance(a: int, b: int) -> int {
    if a <= b {
        b - a
    } else {
        a - b
    }
}

/// An integer divisor is rounded to the nearest one: no other divisor comes
/// closer to the clock rate.
pub proof fn law_integer_divisor_is_nearest(clock_rate: u32, baud_rate: u32, other: int)
    ensures
        baud_registers(clock_rate, baud_rate, DivisorStyle::Integer) matches Some((ubrdiv, second))
            ==> {
            let error = distance(clock_rate as int, 16 * baud_rate * (ubrdiv + 1));
            &&& second is None
            &&& error <= 8 * baud_rate
            &&& error <= distance(clock_rate as int, 16 * baud_rate * other)
        },
{
    if baud_registers(clock_rate, baud_rate, DivisorStyle::Integer) is Some {
        let clock = clock_rate as int;
        let step = 16 * baud_rate;
        let whole = (clock + 8 * baud_rate) / step;
        assert(step * whole <= clock + 8 * baud_rate < step * whole + step) by {
            vstd::arithmetic::div_mod::lemma_fundamental_div_mod(clock + 8 * baud_rate, step);
        }
        assert(other <= whole - 1 ==> step * other <= step * whole - step) by (nonlinear_arith)
            requires
                step > 0,
        ;
        assert(other >= whole + 1 ==> step * other >= step * whole + step) by (nonlinear_arith)
            requires
                step > 0,
        ;
    }
}

/// The whole part and the fraction put together are the clock rate over the
/// baud rate, rounded down to a sixteenth.
pub proof fn law_fractional_divisor_splits_sixteenths(clock_rate: u32, baud_rate: u32)
    ensures
        baud_registers(clock_rate, baud_rate, DivisorStyle::Fractional) matches Some(
            (ubrdiv, second),
        ) ==> {
            &&& second matches Some(fraction)
            &&& fraction < 16
            &&& baud_rate * (16 * (ubrdiv + 1) + fraction) <= clock_rate
            &&& clock_rate < baud_rate * (16 * (ubrdiv + 1) + fraction + 1)
        },
{
    if baud_rate != 0 {
        let sixteenths = clock_rate as int / baud_rate as int;
        vstd::arithmetic::div_mod::lemma_fundamental_div_mod(clock_rate as int, baud_rate as int);
        assert(baud_rate * (sixteenths + 1) == baud_rate * sixteenths + baud_rate)
            by (nonlinear_arith);
    }
}

/// The pattern for a fraction has as many bits set as the fraction has
/// sixteenths.
proof fn lemma_table_bits(fraction: int)
    requires
        0 <= fraction < 16,
    ensures
        set_bits(UDIVSLOT_TABLE@[fraction] as int) == fraction,
{
    reveal_with_fuel(set_bits, 17);
    assert(set_bits(0x0000) == 0);
    assert(set_bits(0x0080) == 1);
    assert(set_bits(0x0808) == 2);
    assert(set_bits(0x0888) == 3);
    assert(set_bits(0x2222) == 4);
    assert(set_bits(0x4924) == 5);
    assert(set_bits(0x4A52) == 6);
    assert(set_bits(0x54AA) == 7);
    assert(set_bits(0x5555) == 8);
    assert(set_bits(0xD555) == 9);
    assert(set_bits(0xD5D5) == 10);
    assert(set_bits(0xDDD5) == 11);
    assert(set_bits(0xDDDD) == 12);
    assert(set_bits(0xDFDD) == 13);
    assert(set_bits(0xDFDF) == 14);
    assert(set_bits(0xFFDF) == 15);
}

/// The table stands for the same divisor as the fraction does: UBRDIV is the
/// same, and as many bits of the pattern are set as the fraction has
/// sixteenths.
pub proof fn law_table_spreads_the_fraction(clock_rate: u32, baud_rate: u32)
    ensures
        match baud_registers(clock_rate, baud_rate, DivisorStyle::Fractional) {
            None => baud_registers(clock_rate, baud_rate, DivisorStyle::Table) is None,
            Some((ubrdiv, fraction)) => {
                &&& baud_registers(clock_rate, baud_rate, DivisorStyle::Table) matches Some(
                    (table_ubrdiv, pattern),
                )
                &&& table_ubrdiv == ubrdiv
                &&& pattern is Some
                &&& set_bits(pattern->0 as int) == fraction->0
            },
        },
{
    if baud_rate != 0 {
        lemma_table_bits((clock_rate as int / baud_rate as int) % 16);
    }
}

/// A divisor fits in UBRDIV in every style.
pub proof fn law_divisor_fits(clock_rate: u32, baud_rate: u32, style: DivisorStyle)
    ensures
        baud_registers(clock_rate, baud_rate, style) matches Some((ubrdiv, _)) ==> ubrdiv
            <= UBRDIV_MAX,
{
}

/// There are registers for every baud rate whose divisor can be represented:
/// with a second register from one whole step up to the range of UBRDIV, and
/// without one where the sums fit in 32 bits and the rounded divisor is in
/// that range. A baud rate of zero has none.
pub proof fn law_representable_divisors_have_registers(
    clock_rate: u32,
    baud_rate: u32,
    style: DivisorStyle,
)
    ensures
        baud_registers(clock_rate, baud_rate, style) is Some <==> baud_rate != 0 && match style {
            DivisorStyle::Integer => {
                &&& 16 * baud_rate < 0x1_0000_0000
                &&& clock_rate + 8 * baud_rate < 0x1_0000_0000
                &&& 8 * baud_rate <= clock_rate < 16 * baud_rate * 0x10000 + 8 * baud_rate
            },
            DivisorStyle::Table | DivisorStyle::Fractional => 16 * baud_rate <= clock_rate < 16
                * baud_rate * 0x10001,
        },
{
    if baud_rate != 0 {
        let clock = clock_rate as int;
        let baud = baud_rate as int;
        let step = 16 * baud;
        let sixteenths = clock / baud;
        let rounded = (clock + 8 * baud) / step;
        vstd::arithmetic::div_mod::lemma_fundamental_div_mod(clock, baud);
        vstd::arithmetic::div_mod::lemma_fundamental_div_mod(clock + 8 * baud, step);
        assert((16 <= sixteenths <==> step <= clock) && (sixteenths < 16 * 0x10001 <==> clock < step
            * 0x10001)) by (nonlinear_arith)
            requires
                baud > 0,
                step == 16 * baud,
                baud * sixteenths <= clock < baud * sixteenths + baud,
        ;
        assert((1 <= rounded <==> step <= clock + 8 * baud) && (rounded < 0x10001 <==> clock + 8
            * baud < step * 0x10001)) by (nonlinear_arith)
            requires
                step > 0,
                step * rounded <= clock + 8 * baud < step * rounded + step,
        ;
    }
}

/// An integer divisor is the rounded one, and half a step rounds up.
pub proof fn law_integer_divisor_rounds_half_up(clock_rate: u32, baud_rate: u32)
    ensures
        baud_registers(clock_rate, baud_rate, DivisorStyle::Integer) matches Some((ubrdiv, second))
            ==> {
            &&& second is None
            &&& 16 * baud_rate * (ubrdiv + 1) - 8 * baud_rate <= clock_rate
            &&& clock_rate < 16 * baud_rate * (ubrdiv + 1) + 8 * baud_rate
        },
{
    if baud_registers(clock_rate, baud_rate, DivisorStyle::Integer) is Some {
        let step = 16 * baud_rate;
        vstd::arithmetic::div_mod::lemma_fundamental_div_mod(clock_rate + 8 * baud_rate, step);
    }
}

/// The pattern of a fraction is the one that the manuals recommend.
pub proof fn law_pattern_belongs_to_the_fraction(clock_rate: u32, baud_rate: u32)
    ensures
        baud_registers(clock_rate, baud_rate, DivisorStyle::Table) matches Some((ubrdiv, pattern))
            ==> {
            let patterns: Seq<u32> = seq![
                0x0000, 0x0080, 0x0808, 0x0888, 0x2222, 0x4924, 0x4A52, 0x54AA,
                0x5555, 0xD555, 0xD5D5, 0xDDD5, 0xDDDD, 0xDFDD, 0xDFDF, 0xFFDF,
            ];
            &&& baud_registers(clock_rate, baud_rate, DivisorStyle::Fractional) matches Some(
                (whole, fraction),
            )
            &&& whole == ubrdiv
            &&& fraction matches Some(sixteenths)
            &&& sixteenths < 16
            &&& pattern == Some(patterns[sixteenths as int])
        },
{
}

} // verus!
