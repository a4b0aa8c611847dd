use uart_samsung::{calculate_baud_registers, DivisorStyle};

const STYLES: [DivisorStyle; 3] = [
    DivisorStyle::Integer,
    DivisorStyle::Table,
    DivisorStyle::Fractional,
];

fn distance(a: i64, b: i64) -> i64 {
    (a - b).abs()
}

#[test]
fn zero_baud_rate_has_no_divisor() {
    for style in STYLES {
        assert_eq!(calculate_baud_registers(24_000_000, 0, style), None);
        assert_eq!(calculate_baud_registers(0, 0, style), None);
    }
}

#[test]
fn zero_clock_rate_has_no_divisor() {
    for style in STYLES {
        assert_eq!(calculate_baud_registers(0, 115_200, style), None);
    }
}

#[test]
fn half_an_integer_step_rounds_up() {
    // Sixteen times 100 baud are 1600: 3.5 steps round to four.
    assert_eq!(
        calculate_baud_registers(5_600, 100, DivisorStyle::Integer),
        Some((3, None))
    );
    assert_eq!(
        calculate_baud_registers(5_599, 100, DivisorStyle::Integer),
        Some((2, None))
    );
    // Half a step is the smallest divisor.
    assert_eq!(
        calculate_baud_registers(800, 100, DivisorStyle::Integer),
        Some((0, None))
    );
    assert_eq!(
        calculate_baud_registers(799, 100, DivisorStyle::Integer),
        None
    );
}

#[test]
fn integer_divisor_is_the_nearest() {
    for clock_rate in [1_000_000, 1_843_200, 24_000_000, 66_666_666] {
        for baud_rate in [300, 9_600, 38_400, 57_600] {
            let (ubrdiv, second) =
                calculate_baud_registers(clock_rate, baud_rate, DivisorStyle::Integer).unwrap();
            assert_eq!(second, None);
            let clock = i64::from(clock_rate);
            let step = 16 * i64::from(baud_rate);
            let divisor = i64::from(ubrdiv) + 1;
            let error = distance(clock, step * divisor);
            assert!(error <= 8 * i64::from(baud_rate));
            for other in 1..2 * divisor {
                assert!(error <= distance(clock, step * other));
            }
        }
    }
}

#[test]
fn integer_divisor_needs_intermediate_results_of_32_bits() {
    assert_eq!(
        calculate_baud_registers(24_000_000, 0x2000_0000, DivisorStyle::Integer),
        None
    );
    assert_eq!(
        calculate_baud_registers(0x7fff_ffff, 0x1000_0000, DivisorStyle::Integer),
        None
    );
    assert_eq!(
        calculate_baud_registers(u32::MAX, 115_200, DivisorStyle::Integer),
        None
    );
    // Just within the range.
    assert_eq!(
        calculate_baud_registers(u32::MAX - 8 * 115_200, 115_200, DivisorStyle::Integer),
        Some((2_329, None))
    );
}

#[test]
fn divisor_fits_in_sixteen_bits() {
    let largest = 16 * 0x1_0000;
    assert_eq!(
        calculate_baud_registers(largest, 1, DivisorStyle::Fractional),
        Some((0xffff, Some(0)))
    );
    assert_eq!(
        calculate_baud_registers(largest + 15, 1, DivisorStyle::Table),
        Some((0xffff, Some(0xffdf)))
    );
    assert_eq!(
        calculate_baud_registers(largest + 7, 1, DivisorStyle::Integer),
        Some((0xffff, None))
    );
    assert_eq!(
        calculate_baud_registers(largest + 16, 1, DivisorStyle::Fractional),
        None
    );
    assert_eq!(
        calculate_baud_registers(largest + 16, 1, DivisorStyle::Table),
        None
    );
    assert_eq!(
        calculate_baud_registers(largest + 8, 1, DivisorStyle::Integer),
        None
    );
}

#[test]
fn one_whole_step_is_the_smallest_split_divisor() {
    assert_eq!(
        calculate_baud_registers(1_600, 100, DivisorStyle::Fractional),
        Some((0, Some(0)))
    );
    assert_eq!(
        calculate_baud_registers(1_599, 100, DivisorStyle::Fractional),
        None
    );
    assert_eq!(
        calculate_baud_registers(1_599, 100, DivisorStyle::Table),
        None
    );
}

#[test]
fn fraction_is_rounded_down_to_a_sixteenth() {
    for clock_rate in [1_000_000, 1_843_200, 24_000_000, 133_333_333] {
        for baud_rate in [9_600, 38_400, 57_600] {
            let (ubrdiv, second) =
                calculate_baud_registers(clock_rate, baud_rate, DivisorStyle::Fractional).unwrap();
            let fraction = second.unwrap();
            assert!(fraction < 16);
            let sixteenths = 16 * (ubrdiv + 1) + fraction;
            assert!(baud_rate * sixteenths <= clock_rate);
            assert!(clock_rate < baud_rate * (sixteenths + 1));
        }
    }
}

#[test]
fn pattern_spreads_the_fraction() {
    let patterns = [
        0x0000, 0x0080, 0x0808, 0x0888, 0x2222, 0x4924, 0x4a52, 0x54aa, 0x5555, 0xd555, 0xd5d5,
        0xddd5, 0xdddd, 0xdfdd, 0xdfdf, 0xffdf,
    ];
    for fraction in 0..16u32 {
        let clock_rate = 16 * 10 + fraction;
        assert_eq!(
            calculate_baud_registers(clock_rate, 1, DivisorStyle::Fractional),
            Some((9, Some(fraction)))
        );
        let (ubrdiv, second) =
            calculate_baud_registers(clock_rate, 1, DivisorStyle::Table).unwrap();
        assert_eq!(ubrdiv, 9);
        assert_eq!(second, Some(patterns[fraction as usize]));
        assert_eq!(second.unwrap().count_ones(), fraction);
    }
}
