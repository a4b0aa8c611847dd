use uart_samsung::{
    calculate_baud_registers, is_compatible, DivisorStyle, FifoLayout, IrqStyle, Variant,
};

#[test]
fn recognizes_supported_compatibles() {
    assert!(is_compatible("samsung,s3c6400-uart"));
    assert!(is_compatible("samsung,exynos4210-uart"));
    assert!(is_compatible("apple,s5l-uart"));
    assert!(is_compatible("google,gs101-uart"));
    assert!(is_compatible(
        "samsung,exynos7885-uart\0samsung,exynos850-uart"
    ));
    assert!(!is_compatible("samsung,s3c2410-uart"));
    assert!(!is_compatible("samsung,exynos-gpio"));
}

#[test]
fn specific_compatible_selects_its_variant() {
    assert_eq!(
        Variant::from_compatible("google,gs101-uart"),
        Some(Variant::gs101())
    );
    assert_eq!(
        Variant::from_compatible("samsung,exynos7885-uart\0samsung,exynos850-uart"),
        Some(Variant::exynos())
    );
    assert_eq!(Variant::from_compatible("samsung,exynos7885-uart"), None);
}

#[test]
fn integer_divisor_rounds_to_nearest() {
    // Apple S5L: 24 MHz reference at 115200 baud.
    assert_eq!(
        calculate_baud_registers(24_000_000, 115_200, DivisorStyle::Integer),
        Some((12, None))
    );
    assert_eq!(
        calculate_baud_registers(24_000_000, 0, DivisorStyle::Integer),
        None
    );
}

#[test]
fn fractional_divisor_splits_sixteenths() {
    // 100 MHz / 115200 = 868.05: whole part 54 (UBRDIV 53),
    // remainder 4 sixteenths.
    assert_eq!(
        calculate_baud_registers(100_000_000, 115_200, DivisorStyle::Fractional),
        Some((53, Some(4)))
    );
    assert_eq!(
        calculate_baud_registers(100_000_000, 115_200, DivisorStyle::Table),
        Some((53, Some(0x2222)))
    );
    // Divisors below one whole step cannot be represented.
    assert_eq!(
        calculate_baud_registers(100_000, 115_200, DivisorStyle::Fractional),
        None
    );
}

#[test]
fn reg_io_width_overrides_variant_default() {
    assert!(Variant::apple_s5l().wide_data);
    assert!(Variant::exynos().with_reg_io_width(Some(4)).wide_data);
    assert!(!Variant::gs101().with_reg_io_width(Some(1)).wide_data);
    assert!(!Variant::exynos().with_reg_io_width(None).wide_data);
}

#[test]
fn every_supported_value_selects_its_variant() {
    let known = [
        ("samsung,s3c6400-uart", Variant::s3c6400()),
        ("samsung,s5pv210-uart", Variant::s5pv210()),
        ("samsung,exynos4210-uart", Variant::exynos()),
        ("samsung,exynos5433-uart", Variant::exynos()),
        ("samsung,exynos850-uart", Variant::exynos()),
        ("samsung,exynos8895-uart", Variant::exynos()),
        ("axis,artpec8-uart", Variant::exynos()),
        ("google,gs101-uart", Variant::gs101()),
        ("apple,s5l-uart", Variant::apple_s5l()),
    ];
    for (value, variant) in known {
        assert_eq!(Variant::from_compatible(value), Some(variant));
    }
}

#[test]
fn variants_differ_as_their_hardware_does() {
    let s3c6400 = Variant::s3c6400();
    assert_eq!(s3c6400.fifo, FifoLayout::S3c2440);
    assert_eq!(s3c6400.irq, IrqStyle::S3c6400);
    assert_eq!(s3c6400.divisor, DivisorStyle::Table);
    assert!(!s3c6400.wide_data);
    assert_eq!(s3c6400.ucon_default, 0x385);
    assert_eq!(s3c6400.ucon_preserve, 0xc00);
    assert_eq!(s3c6400.ufcon_default, 0x11);

    let s5pv210 = Variant::s5pv210();
    assert_eq!(s5pv210.fifo, FifoLayout::S5pv210);
    assert_eq!(s5pv210.irq, IrqStyle::S3c6400);
    assert_eq!(s5pv210.divisor, DivisorStyle::Table);
    assert!(!s5pv210.wide_data);
    assert_eq!(s5pv210.ucon_default, 0x3c5);
    assert_eq!(s5pv210.ucon_preserve, 0x400);
    assert_eq!(s5pv210.ufcon_default, 0x111);

    let exynos = Variant::exynos();
    assert_eq!(exynos.divisor, DivisorStyle::Fractional);
    assert_eq!(exynos.ucon_preserve, 0);
    assert_eq!(exynos.ucon_default, s5pv210.ucon_default);
    assert_eq!(exynos.ufcon_default, s5pv210.ufcon_default);
    assert_eq!(exynos.with_reg_io_width(Some(4)), Variant::gs101());

    let apple = Variant::apple_s5l();
    assert_eq!(apple.fifo, FifoLayout::S3c2410);
    assert_eq!(apple.irq, IrqStyle::AppleS5l);
    assert_eq!(apple.divisor, DivisorStyle::Integer);
    assert_eq!(apple.ucon_default, 0x85);
    assert_eq!(apple.ucon_preserve, 0);
    assert_eq!(apple.ufcon_default, 0x11);
}

#[test]
fn first_recognized_value_wins() {
    assert_eq!(
        Variant::from_compatible("google,gs101-uart\0samsung,exynos850-uart"),
        Some(Variant::gs101())
    );
    assert_eq!(
        Variant::from_compatible("samsung,exynos850-uart\0google,gs101-uart"),
        Some(Variant::exynos())
    );
    assert_eq!(
        Variant::from_compatible("a\0\0b\0apple,s5l-uart\0samsung,s3c6400-uart"),
        Some(Variant::apple_s5l())
    );
}

#[test]
fn lists_may_be_joined() {
    let lists = ["", "apple,s5l-uart", "unknown", "axis,artpec8-uart\0unknown"];
    for left in lists {
        for right in lists {
            let joined = format!("{left}\0{right}");
            assert_eq!(
                Variant::from_compatible(&joined),
                Variant::from_compatible(left).or(Variant::from_compatible(right))
            );
        }
    }
}

#[test]
fn empty_values_are_not_recognized() {
    assert_eq!(Variant::from_compatible(""), None);
    assert_eq!(Variant::from_compatible("\0"), None);
    assert_eq!(
        Variant::from_compatible("apple,s5l-uart\0"),
        Some(Variant::apple_s5l())
    );
    assert_eq!(
        Variant::from_compatible("\0apple,s5l-uart"),
        Some(Variant::apple_s5l())
    );
}

#[test]
fn values_must_match_in_full() {
    assert!(!is_compatible("apple,s5l-uar"));
    assert!(!is_compatible("apple,s5l-uart2"));
    assert!(!is_compatible(" apple,s5l-uart"));
    assert!(!is_compatible("APPLE,S5L-UART"));
    assert!(!is_compatible("apple,s5l-uart,google,gs101-uart"));
}

#[test]
fn other_characters_are_no_obstacle() {
    assert!(!is_compatible("\u{e4}pple,s5l-uart"));
    assert!(!is_compatible("apple,s5l\u{2010}uart"));
    assert!(is_compatible("\u{4e32}\u{53e3}\u{1f50c}\0apple,s5l-uart"));
}

#[test]
fn unknown_widths_keep_the_default() {
    for width in [None, Some(0), Some(2), Some(3), Some(8), Some(usize::MAX)] {
        assert_eq!(Variant::exynos().with_reg_io_width(width), Variant::exynos());
        assert_eq!(Variant::gs101().with_reg_io_width(width), Variant::gs101());
    }
}

#[test]
fn last_known_width_wins() {
    let wide = Variant::exynos().with_reg_io_width(Some(4));
    assert_eq!(wide, Variant::gs101());
    assert_eq!(wide.with_reg_io_width(Some(1)), Variant::exynos());
    assert_eq!(wide.with_reg_io_width(Some(2)), wide);
    assert_eq!(
        wide.with_reg_io_width(Some(1)).with_reg_io_width(Some(4)),
        wide
    );
}

#[test]
fn fifo_masks_follow_the_layout() {
    assert_eq!(FifoLayout::S3c2410.rx_pending_mask(), 0x10f);
    assert_eq!(FifoLayout::S3c2440.rx_pending_mask(), 0x7f);
    assert_eq!(FifoLayout::S5pv210.rx_pending_mask(), 0x1ff);
    assert_eq!(FifoLayout::S3c2410.tx_full_mask(), 0x200);
    assert_eq!(FifoLayout::S3c2440.tx_full_mask(), 0x4000);
    assert_eq!(FifoLayout::S5pv210.tx_full_mask(), 0x100_0000);
}

#[test]
fn full_receive_fifo_is_pending() {
    for (layout, full) in [
        (FifoLayout::S3c2410, 0x100),
        (FifoLayout::S3c2440, 0x40),
        (FifoLayout::S5pv210, 0x100),
    ] {
        // The count has wrapped to zero.
        assert_ne!(full & layout.rx_pending_mask(), 0);
        assert_ne!(1 & layout.rx_pending_mask(), 0);
        assert_eq!(layout.tx_full_mask() & layout.rx_pending_mask(), 0);
    }
}
