//! Selecting the UART generation.

use vstd::prelude::*;

use crate::devicetree;
use crate::variant::{
    DivisorStyle, FifoLayout, IrqStyle, Variant, UCON_DEFAULT_APPLE, UCON_DEFAULT_S3C6400,
    UCON_DEFAULT_S5PV210, UFCON_DEFAULT_S3C2410, UFCON_DEFAULT_S5PV210,
};

verus! {

/// In a list made of two, the first recognized value wins: the second list
/// matters only where the first names no supported UART.
pub proof fn law_first_recognized_value_wins(left: Seq<char>, right: Seq<char>)
    ensures
        ({
            let joined = left + seq!['\0'] + right;
            let first = Variant::of_values(devicetree::values(left));
            Variant::of_values(devicetree::values(joined)) == if first is Some {
                first
            } else {
                Variant::of_values(devicetree::values(right))
            }
        }),
{
    devicetree::law_nul_joins_lists(left, right);
    lemma_of_joined_values(devicetree::values(left), devicetree::values(right));
}

proof fn lemma_of_joined_values(left: Seq<Seq<char>>, right: Seq<Seq<char>>)
    ensures
        Variant::of_values(left + right) == match Variant::of_values(left) {
            Some(variant) => Some(variant),
            None => Variant::of_values(right),
        },
    decreases left.len(),
{
    if left.len() == 0 {
        assert(left + right =~= right);
    } else {
        lemma_of_joined_values(left.drop_first(), right);
        assert((left + right).drop_first() =~= left.drop_first() + right);
    }
}

/// The variant that a list selects is that of one of its values, and no
/// value before that one is recognized. A list selects none exactly when
/// none of its values is recognized.
pub proof fn law_selection_finds_the_first_recognized_value(values: Seq<Seq<char>>)
    ensures
        match Variant::of_values(values) {
            Some(variant) => exists|i: int|
                {
                    &&& 0 <= i < values.len()
                    &&& Variant::of_value(#[trigger] values[i]) == Some(variant)
                    &&& forall|j: int|
                        0 <= j < i ==> Variant::of_value(#[trigger] values[j]) is None
                },
            None => forall|i: int|
                0 <= i < values.len() ==> Variant::of_value(#[trigger] values[i]) is None,
        },
    decreases values.len(),
{
    if values.len() > 0 {
        let tail = values.drop_first();
        if Variant::of_value(values[0]) is None {
            law_selection_finds_the_first_recognized_value(tail);
            assert forall|j: int|
                0 < j < values.len() implies #[trigger] values[j] == tail[j - 1] by {
            }
            if let Some(variant) = Variant::of_values(values) {
                let i = choose|i: int|
                    {
                        &&& 0 <= i < tail.len()
                        &&& Variant::of_value(#[trigger] tail[i]) == Some(variant)
                        &&& forall|j: int|
                            0 <= j < i ==> Variant::of_value(#[trigger] tail[j]) is None
                    };
                assert(Variant::of_value(values[i + 1]) == Some(variant));
            }
        }
    }
}

/// A selected variant is a supported one, with any access width.
pub proof fn law_selected_variant_is_supported(list: Seq<char>, width: Option<usize>)
    ensures
        Variant::of_values(devicetree::values(list)) matches Some(variant) ==> variant.supported()
            && variant.of_width(width).supported(),
{
    lemma_of_values_is_supported(devicetree::values(list));
}

proof fn lemma_of_values_is_supported(values: Seq<Seq<char>>)
    ensures
        Variant::of_values(values) matches Some(variant) ==> variant.supported(),
    decreases values.len(),
{
    if values.len() > 0 {
        lemma_of_values_is_supported(values.drop_first());
    }
}

/// A known access width overrides any that was set before, an unknown or
/// missing one changes nothing, and no other property of the variant ever
/// changes.
pub proof fn law_last_known_width_wins(
    variant: Variant,
    first: Option<usize>,
    second: Option<usize>,
)
    ensures
        second == Some(1usize) || second == Some(4usize) ==> variant.of_width(first).of_width(
            second,
        ) == variant.of_width(second),
        second != Some(1usize) && second != Some(4usize) ==> variant.of_width(second) == variant,
        variant == (Variant { wide_data: variant.wide_data, ..variant.of_width(first) }),
{
}

/// The receive FIFO counts as empty exactly when its count is zero and it is
/// not full, and whether the transmit FIFO is full has no part in that.
pub proof fn law_full_receive_fifo_is_pending(layout: FifoLayout, status: u32)
    ensures
        status & layout.rx_pending() == 0 <==> status & layout.rx_count() == 0 && status
            & layout.rx_full() == 0,
        (status | layout.tx_full()) & layout.rx_pending() == status & layout.rx_pending(),
{
    let count = layout.rx_count();
    let full = layout.rx_full();
    let other = layout.tx_full();
    assert(status & (count | full) == 0 <==> status & count == 0 && status & full == 0)
        by (bit_vector);
    assert((status | other) & (count | full) == status & (count | full)) by (bit_vector)
        requires
            (count == 0xf && full == 0x100 && other == 0x200) || (count == 0x3f && full == 0x40
                && other == 0x4000) || (count == 0xff && full == 0x100 && other == 0x100_0000),
    ;
}

/// A list without NUL characters is its only value, whatever it holds.
pub proof fn law_list_without_nul_is_one_value(list: Seq<char>)
    requires
        forall|i: int| 0 <= i < list.len() ==> list[i] != '\0',
    ensures
        devicetree::values(list) == seq![list],
{
    devicetree::lemma_first_nul(list);
}

/// The properties of each variant.
pub proof fn law_variants()
    ensures
        Variant::s3c6400() == (Variant {
            fifo: FifoLayout::S3c2440,
            irq: IrqStyle::S3c6400,
            divisor: DivisorStyle::Table,
            wide_data: false,
            ucon_default: 0x385,
            ucon_preserve: 0xc00,
            ufcon_default: 0x11,
        }),
        Variant::s5pv210() == (Variant {
            fifo: FifoLayout::S5pv210,
            irq: IrqStyle::S3c6400,
            divisor: DivisorStyle::Table,
            wide_data: false,
            ucon_default: 0x3c5,
            ucon_preserve: 0x400,
            ufcon_default: 0x111,
        }),
        Variant::exynos() == (Variant {
            fifo: FifoLayout::S5pv210,
            irq: IrqStyle::S3c6400,
            divisor: DivisorStyle::Fractional,
            wide_data: false,
            ucon_default: 0x3c5,
            ucon_preserve: 0,
            ufcon_default: 0x111,
        }),
        Variant::gs101() == (Variant {
            fifo: FifoLayout::S5pv210,
            irq: IrqStyle::S3c6400,
            divisor: DivisorStyle::Fractional,
            wide_data: true,
            ucon_default: 0x3c5,
            ucon_preserve: 0,
            ufcon_default: 0x111,
        }),
        Variant::apple_s5l() == (Variant {
            fifo: FifoLayout::S3c2410,
            irq: IrqStyle::AppleS5l,
            divisor: DivisorStyle::Integer,
            wide_data: true,
            ucon_default: 0x85,
            ucon_preserve: 0,
            ufcon_default: 0x11,
        }),
{
    assert(UCON_DEFAULT_S3C6400 == 0x385 && UCON_DEFAULT_S5PV210 == 0x3c5 && UCON_DEFAULT_APPLE
        == 0x85 && UFCON_DEFAULT_S3C2410 == 0x11 && UFCON_DEFAULT_S5PV210 == 0x111)
        by (bit_vector);
}

/// The values that are recognized, and the hardware that each stands for. No
/// other value is recognized.
pub proof fn law_recognized_values(value: Seq<char>)
    ensures
        value == "samsung,s3c6400-uart"@ ==> Variant::of_value(value) == Some(
            Variant {
                fifo: FifoLayout::S3c2440,
                irq: IrqStyle::S3c6400,
                divisor: DivisorStyle::Table,
                wide_data: false,
                ucon_default: 0x385,
                ucon_preserve: 0xc00,
                ufcon_default: 0x11,
            },
        ),
        value == "samsung,s5pv210-uart"@ ==> Variant::of_value(value) == Some(
            Variant {
                fifo: FifoLayout::S5pv210,
                irq: IrqStyle::S3c6400,
                divisor: DivisorStyle::Table,
                wide_data: false,
                ucon_default: 0x3c5,
                ucon_preserve: 0x400,
                ufcon_default: 0x111,
            },
        ),
        value == "samsung,exynos4210-uart"@ || value == "samsung,exynos5433-uart"@ || value
            == "samsung,exynos850-uart"@ || value == "samsung,exynos8895-uart"@ || value
            == "axis,artpec8-uart"@ ==> Variant::of_value(value) == Some(
            Variant {
                fifo: FifoLayout::S5pv210,
                irq: IrqStyle::S3c6400,
                divisor: DivisorStyle::Fractional,
                wide_data: false,
                ucon_default: 0x3c5,
                ucon_preserve: 0,
                ufcon_default: 0x111,
            },
        ),
        value == "google,gs101-uart"@ ==> Variant::of_value(value) == Some(
            Variant {
                fifo: FifoLayout::S5pv210,
                irq: IrqStyle::S3c6400,
                divisor: DivisorStyle::Fractional,
                wide_data: true,
                ucon_default: 0x3c5,
                ucon_preserve: 0,
                ufcon_default: 0x111,
            },
        ),
        value == "apple,s5l-uart"@ ==> Variant::of_value(value) == Some(
            Variant {
                fifo: FifoLayout::S3c2410,
                irq: IrqStyle::AppleS5l,
                divisor: DivisorStyle::Integer,
                wide_data: true,
                ucon_default: 0x85,
                ucon_preserve: 0,
                ufcon_default: 0x11,
            },
        ),
        Variant::of_value(value) is Some ==> {
            ||| value == "samsung,s3c6400-uart"@
            ||| value == "samsung,s5pv210-uart"@
            ||| value == "samsung,exynos4210-uart"@
            ||| value == "samsung,exynos5433-uart"@
            ||| value == "samsung,exynos850-uart"@
            ||| value == "samsung,exynos8895-uart"@
            ||| value == "axis,artpec8-uart"@
            ||| value == "google,gs101-uart"@
            ||| value == "apple,s5l-uart"@
        },
{
    reveal_strlit("samsung,s3c6400-uart");
    reveal_strlit("samsung,s5pv210-uart");
    reveal_strlit("samsung,exynos4210-uart");
    reveal_strlit("samsung,exynos5433-uart");
    reveal_strlit("samsung,exynos850-uart");
    reveal_strlit("samsung,exynos8895-uart");
    reveal_strlit("axis,artpec8-uart");
    reveal_strlit("google,gs101-uart");
    reveal_strlit("apple,s5l-uart");
    assert("samsung,s3c6400-uart"@.len() == 20 && "samsung,s5pv210-uart"@.len() == 20);
    assert("samsung,exynos4210-uart"@.len() == 23 && "samsung,exynos5433-uart"@.len() == 23
        && "samsung,exynos850-uart"@.len() == 22 && "samsung,exynos8895-uart"@.len() == 23);
    assert("axis,artpec8-uart"@.len() == 17 && "google,gs101-uart"@.len() == 17);
    assert("apple,s5l-uart"@.len() == 14);
    assert("samsung,s3c6400-uart"@[9] != "samsung,s5pv210-uart"@[9]);
    assert("axis,artpec8-uart"@[0] != "google,gs101-uart"@[0]);
    law_variants();
}

/// A width of one byte asks for byte accesses and one of four bytes for
/// 32-bit accesses. Any other width, and none, leaves the variant as it is.
pub proof fn law_widths(variant: Variant, width: Option<usize>)
    ensures
        variant.of_width(width) == match width {
            Some(bytes) if bytes == 1 => Variant { wide_data: false, ..variant },
            Some(bytes) if bytes == 4 => Variant { wide_data: true, ..variant },
            _ => variant,
        },
{
}

/// The fields of UFSTAT by layout.
pub proof fn law_fifo_fields(layout: FifoLayout)
    ensures
        layout.rx_pending() == match layout {
            FifoLayout::S3c2410 => 0x10fu32,
            FifoLayout::S3c2440 => 0x7fu32,
            FifoLayout::S5pv210 => 0x1ffu32,
        },
        layout.tx_full() == match layout {
            FifoLayout::S3c2410 => 0x200u32,
            FifoLayout::S3c2440 => 0x4000u32,
            FifoLayout::S5pv210 => 0x100_0000u32,
        },
{
    assert(0xfu32 | 0x100 == 0x10f && 0x3fu32 | 0x40 == 0x7f && 0xffu32 | 0x100 == 0x1ff)
        by (bit_vector);
}

} // verus!
