//! The UART generations and their selection from the devicetree.

use vstd::prelude::*;
use vstd::utf8::*;

use crate::devicetree;
use crate::registers::{ucon, ufcon};

verus! {

/// UFSTAT field layout, which changed as FIFO depths grew.
#[derive(Clone, Copy, Debug, PartialEq, Eq, Structural)]
pub enum FifoLayout {
    /// 16-byte FIFOs: count in bits 3:0/7:4, full flags at bits 8/9.
    S3c2410,
    /// 64-byte FIFOs: count in bits 5:0/13:8, full flags at bits 6/14.
    S3c2440,
    /// Up to 256-byte FIFOs: count in bits 7:0/23:16, full flags at
    /// bits 8/24.
    S5pv210,
}

impl FifoLayout {
    /// UFSTAT bits that count the characters in the receive FIFO.
    pub open spec fn rx_count(self) -> u32 {
        match self {
            FifoLayout::S3c2410 => 0xf,
            FifoLayout::S3c2440 => 0x3f,
            FifoLayout::S5pv210 => 0xff,
        }
    }

    /// UFSTAT bit that is set while the receive FIFO is full.
    pub open spec fn rx_full(self) -> u32 {
        match self {
            FifoLayout::S3c2410 => 0x100,
            FifoLayout::S3c2440 => 0x40,
            FifoLayout::S5pv210 => 0x100,
        }
    }

    /// UFSTAT bits that are non-zero while the receive FIFO holds data. The
    /// full flag is included since the count field wraps to zero when the
    /// FIFO is completely full.
    pub open spec fn rx_pending(self) -> u32 {
        self.rx_count() | self.rx_full()
    }

    /// UFSTAT bit that is set while the transmit FIFO is full.
    pub open spec fn tx_full(self) -> u32 {
        match self {
            FifoLayout::S3c2410 => 0x200,
            FifoLayout::S3c2440 => 0x4000,
            FifoLayout::S5pv210 => 0x100_0000,
        }
    }

    /// UFSTAT bits that are non-zero while the receive FIFO holds data.
    pub fn rx_pending_mask(self) -> (mask: u32)
        ensures
            mask == self.rx_pending(),
    {
        match self {
            FifoLayout::S3c2410 => 0xf | 0x100,
            FifoLayout::S3c2440 => 0x3f | 0x40,
            FifoLayout::S5pv210 => 0xff | 0x100,
        }
    }

    /// UFSTAT bit that is set while the transmit FIFO is full.
    pub fn tx_full_mask(self) -> (mask: u32)
        ensures
            mask == self.tx_full(),
    {
        match self {
            FifoLayout::S3c2410 => 0x200,
            FifoLayout::S3c2440 => 0x4000,
            FifoLayout::S5pv210 => 0x100_0000,
        }
    }
}

/// How receive interrupts are enabled and acknowledged.
#[derive(Clone, Copy, Debug, PartialEq, Eq, Structural)]
pub enum IrqStyle {
    /// Dedicated UINTP/UINTM registers (S3C6400 through Exynos).
    S3c6400,
    /// Enable bits live in UCON, status is acknowledged through
    /// UTRSTAT (Apple S5L).
    AppleS5l,
}

/// How the baud-rate divisor is programmed.
#[derive(Clone, Copy, Debug, PartialEq, Eq, Structural)]
pub enum DivisorStyle {
    /// UBRDIV only; the divisor is rounded to the nearest integer.
    Integer,
    /// UBRDIV plus a UDIVSLOT pattern looked up from a table.
    Table,
    /// UBRDIV plus the fraction in sixteenths written to UFRACVAL.
    Fractional,
}

/// Differences between Samsung UART generations, selected from the
/// devicetree compatible list.
#[derive(Clone, Copy, Debug, PartialEq, Eq, Structural)]
pub struct Variant {
    pub fifo: FifoLayout,
    pub irq: IrqStyle,
    pub divisor: DivisorStyle,
    /// UTXH/URXH require 32-bit accesses instead of byte accesses.
    pub wide_data: bool,
    pub ucon_default: u32,
    /// UCON bits preserved across full initialization (clock select).
    pub ucon_preserve: u32,
    pub ufcon_default: u32,
}

pub const UCON_DEFAULT_S3C6400: u32 = ucon::TXINT_LEVEL | ucon::RXINT_LEVEL | ucon::TXMODE_CPU
    | ucon::RXMODE_CPU | ucon::RX_TIMEOUT_EN;

pub const UCON_DEFAULT_S5PV210: u32 = UCON_DEFAULT_S3C6400 | ucon::RXERR_IRQEN;

pub const UCON_DEFAULT_APPLE: u32 = ucon::TXMODE_CPU | ucon::RXMODE_CPU | ucon::RX_TIMEOUT_EN;

pub const UFCON_DEFAULT_S3C2410: u32 = ufcon::FIFO_EN | ufcon::S3C2410_RXTRIG8;

pub const UFCON_DEFAULT_S5PV210: u32 = ufcon::FIFO_EN | ufcon::S5PV210_TXTRIG4
    | ufcon::S5PV210_RXTRIG4;

/// The UCON bits that enable receive interrupts on Apple S5L.
pub const APPLE_ENABLES: u32 = ucon::APPLE_RXTHRESH_EN | ucon::APPLE_RXTO_EN
    | ucon::APPLE_RXTO_LEGACY_EN;

impl Variant {
    #[verifier::allow_in_spec]
    pub fn s3c6400() -> Variant
        returns
            (Variant {
                fifo: FifoLayout::S3c2440,
                irq: IrqStyle::S3c6400,
                divisor: DivisorStyle::Table,
                wide_data: false,
                ucon_default: UCON_DEFAULT_S3C6400,
                ucon_preserve: ucon::CLKSEL_S3C6400_MASK,
                ufcon_default: UFCON_DEFAULT_S3C2410,
            }),
    {
        Variant {
            fifo: FifoLayout::S3c2440,
            irq: IrqStyle::S3c6400,
            divisor: DivisorStyle::Table,
            wide_data: false,
            ucon_default: UCON_DEFAULT_S3C6400,
            ucon_preserve: ucon::CLKSEL_S3C6400_MASK,
            ufcon_default: UFCON_DEFAULT_S3C2410,
        }
    }

    #[verifier::allow_in_spec]
    pub fn s5pv210() -> Variant
        returns
            (Variant {
                fifo: FifoLayout::S5pv210,
                irq: IrqStyle::S3c6400,
                divisor: DivisorStyle::Table,
                wide_data: false,
                ucon_default: UCON_DEFAULT_S5PV210,
                ucon_preserve: ucon::CLKSEL_S5PV210_MASK,
                ufcon_default: UFCON_DEFAULT_S5PV210,
            }),
    {
        Variant {
            fifo: FifoLayout::S5pv210,
            irq: IrqStyle::S3c6400,
            divisor: DivisorStyle::Table,
            wide_data: false,
            ucon_default: UCON_DEFAULT_S5PV210,
            ucon_preserve: ucon::CLKSEL_S5PV210_MASK,
            ufcon_default: UFCON_DEFAULT_S5PV210,
        }
    }

    #[verifier::allow_in_spec]
    pub fn exynos() -> Variant
        returns
            (Variant {
                fifo: FifoLayout::S5pv210,
                irq: IrqStyle::S3c6400,
                divisor: DivisorStyle::Fractional,
                wide_data: false,
                ucon_default: UCON_DEFAULT_S5PV210,
                ucon_preserve: 0,
                ufcon_default: UFCON_DEFAULT_S5PV210,
            }),
    {
        Variant {
            fifo: FifoLayout::S5pv210,
            irq: IrqStyle::S3c6400,
            divisor: DivisorStyle::Fractional,
            wide_data: false,
            ucon_default: UCON_DEFAULT_S5PV210,
            ucon_preserve: 0,
            ufcon_default: UFCON_DEFAULT_S5PV210,
        }
    }

    #[verifier::allow_in_spec]
    pub fn gs101() -> Variant
        returns
            (Variant { wide_data: true, ..Variant::exynos() }),
    {
        Variant { wide_data: true, ..Variant::exynos() }
    }

    #[verifier::allow_in_spec]
    pub fn apple_s5l() -> Variant
        returns
            (Variant {
                fifo: FifoLayout::S3c2410,
                irq: IrqStyle::AppleS5l,
                divisor: DivisorStyle::Integer,
                wide_data: true,
                ucon_default: UCON_DEFAULT_APPLE,
                ucon_preserve: 0,
                ufcon_default: UFCON_DEFAULT_S3C2410,
            }),
    {
        Variant {
            fifo: FifoLayout::S3c2410,
            irq: IrqStyle::AppleS5l,
            divisor: DivisorStyle::Integer,
            wide_data: true,
            ucon_default: UCON_DEFAULT_APPLE,
            ucon_preserve: 0,
            ufcon_default: UFCON_DEFAULT_S3C2410,
        }
    }

    /// The variant that a single compatible value names, if any.
    pub open spec fn of_value(value: Seq<char>) -> Option<Variant> {
        if value == "samsung,s3c6400-uart"@ {
            Some(Variant::s3c6400())
        } else if value == "samsung,s5pv210-uart"@ {
            Some(Variant::s5pv210())
        } else if value == "samsung,exynos4210-uart"@ || value == "samsung,exynos5433-uart"@
            || value == "samsung,exynos850-uart"@ || value == "samsung,exynos8895-uart"@ || value
            == "axis,artpec8-uart"@ {
            Some(Variant::exynos())
        } else if value == "google,gs101-uart"@ {
            Some(Variant::gs101())
        } else if value == "apple,s5l-uart"@ {
            Some(Variant::apple_s5l())
        } else {
            None
        }
    }

    /// The variant that the first recognized value of a list names, if any.
    /// Compatible lists order SoC-specific values before fallbacks, so the
    /// first recognized value wins.
    pub open spec fn of_values(values: Seq<Seq<char>>) -> Option<Variant>
        decreases values.len(),
    {
        if values.len() == 0 {
            None
        } else if Variant::of_value(values[0]) is Some {
            Variant::of_value(values[0])
        } else {
            Variant::of_values(values.drop_first())
        }
    }

    /// One of the variants, with either access width.
    pub open spec fn supported(self) -> bool {
        ||| self == Variant { wide_data: self.wide_data, ..Variant::s3c6400() }
        ||| self == Variant { wide_data: self.wide_data, ..Variant::s5pv210() }
        ||| self == Variant { wide_data: self.wide_data, ..Variant::exynos() }
        ||| self == Variant { wide_data: self.wide_data, ..Variant::apple_s5l() }
    }

    /// The defaults leave the preserved bits alone and select the CPU in
    /// both directions. Neither a mode nor the receive timeout is preserved.
    /// Nothing is preserved in UCON on Apple hardware, and
    /// its interrupt enables are off.
    pub proof fn lemma_supported(self)
        requires
            self.supported(),
        ensures
            self.ucon_default & self.ucon_preserve == 0,
            self.ucon_preserve & ucon::MODE_MASK == 0,
            self.ucon_preserve & (ucon::RX_TIMEOUT_MAX | ucon::RX_TIMEOUT_EN) == 0,
            self.ucon_default & ucon::MODE_MASK == ucon::RXMODE_CPU | ucon::TXMODE_CPU,
            self.irq == IrqStyle::AppleS5l ==> self.ucon_preserve == 0 && self.ucon_default
                & APPLE_ENABLES == 0,
    {
        let default = self.ucon_default;
        let preserve = self.ucon_preserve;
        assert(default & preserve == 0 && preserve & ucon::MODE_MASK == 0 && preserve
            & (ucon::RX_TIMEOUT_MAX | ucon::RX_TIMEOUT_EN) == 0 && default & ucon::MODE_MASK
            == ucon::RXMODE_CPU | ucon::TXMODE_CPU && (default == UCON_DEFAULT_APPLE ==> default
            & APPLE_ENABLES == 0))
            by (bit_vector)
            requires
                (default == UCON_DEFAULT_S3C6400 && preserve == ucon::CLKSEL_S3C6400_MASK) || (
                default == UCON_DEFAULT_S5PV210 && preserve == ucon::CLKSEL_S5PV210_MASK) || (
                default == UCON_DEFAULT_S5PV210 && preserve == 0) || (default == UCON_DEFAULT_APPLE
                    && preserve == 0),
        ;
    }

    /// Looks up the compatible value that stands in `bytes` from `start` up
    /// to `end`.
    fn recognize(bytes: &[u8], start: usize, end: usize) -> (variant: Option<Variant>)
        requires
            start <= end <= bytes@.len(),
        ensures
            forall|value: Seq<char>| #[trigger]
                encode_utf8(value) == bytes@.subrange(start as int, end as int) ==> variant
                    == Variant::of_value(value),
    {
        proof {
            assert forall|value: Seq<char>, name: Seq<char>|
                (#[trigger] encode_utf8(value) == #[trigger] encode_utf8(name)) == (value
                    == name) by {
                devicetree::lemma_encode_injective(value, name);
            }
        }
        if devicetree::spells(bytes, start, end, "samsung,s3c6400-uart") {
            Some(Variant::s3c6400())
        } else if devicetree::spells(bytes, start, end, "samsung,s5pv210-uart") {
            Some(Variant::s5pv210())
        } else if devicetree::spells(bytes, start, end, "samsung,exynos4210-uart")
            || devicetree::spells(bytes, start, end, "samsung,exynos5433-uart")
            || devicetree::spells(bytes, start, end, "samsung,exynos850-uart")
            || devicetree::spells(bytes, start, end, "samsung,exynos8895-uart")
            || devicetree::spells(bytes, start, end, "axis,artpec8-uart") {
            Some(Variant::exynos())
        } else if devicetree::spells(bytes, start, end, "google,gs101-uart") {
            Some(Variant::gs101())
        } else if devicetree::spells(bytes, start, end, "apple,s5l-uart") {
            Some(Variant::apple_s5l())
        } else {
            None
        }
    }

    /// Selects the variant for a devicetree compatible list, whose values
    /// are separated by NUL characters.
    pub fn from_compatible(compatible: &str) -> (variant: Option<Variant>)
        ensures
            variant == Variant::of_values(devicetree::values(compatible@)),
    {
        let bytes = compatible.as_bytes();
        let ghost mut rest = compatible@;
        let mut start: usize = 0;
        assert(bytes@.skip(0) =~= bytes@);
        loop
            invariant
                start <= bytes@.len(),
                encode_utf8(rest) == bytes@.skip(start as int),
                Variant::of_values(devicetree::values(rest)) == Variant::of_values(
                    devicetree::values(compatible@),
                ),
            decreases bytes@.len() - start,
        {
            let end = devicetree::value_end(bytes, start);
            let ghost tail = bytes@.skip(start as int);
            let ghost value = rest.take(devicetree::first_nul(rest) as int);
            let ghost next = rest.skip((devicetree::first_nul(rest) + 1) as int);
            proof {
                devicetree::lemma_encoded_list(rest);
                let length = encode_utf8(value).len();
                let found = end - start;
                assert(length <= tail.len());
                if length < found {
                    assert(tail[length as int] == bytes@[start + length]);
                } else if found < length {
                    assert(encode_utf8(value)[found] == tail[found]);
                    assert(tail[found] == bytes@[start + found]);
                }
                assert(length == found);
                assert(bytes@.subrange(start as int, end as int) =~= encode_utf8(value));
                assert(devicetree::values(rest)[0] =~= value);
                assert(devicetree::first_nul(rest) < rest.len()
                    ==> devicetree::values(rest).drop_first() =~= devicetree::values(next));
                if devicetree::first_nul(rest) < rest.len() {
                    assert(encode_utf8(next) =~= tail.skip(found + 1));
                    assert(tail.skip(found + 1) =~= bytes@.skip(end + 1));
                }
                reveal_with_fuel(Variant::of_values, 2);
            }
            let variant = Variant::recognize(bytes, start, end);
            if variant.is_some() {
                return variant;
            }
            if end == bytes.len() {
                return None;
            }
            start = end + 1;
            proof {
                rest = next;
            }
        }
    }

    /// The variant with the access width that a reg-io-width property asks
    /// for. One and four bytes are known widths.
    pub open spec fn of_width(self, width: Option<usize>) -> Variant {
        Variant {
            wide_data: match width {
                Some(1) => false,
                Some(4) => true,
                _ => self.wide_data,
            },
            ..self
        }
    }

    /// Applies the devicetree reg-io-width property, which overrides
    /// the variant's default data-register access width. Unknown widths
    /// keep the variant default; a possibly wrong console beats no console.
    pub fn with_reg_io_width(self, width: Option<usize>) -> (variant: Variant)
        ensures
            variant == self.of_width(width),
    {
        let mut variant = self;
        match width {
            Some(1) => {
                variant.wide_data = false;
            },
            Some(4) => {
                variant.wide_data = true;
            },
            _ => {},
        }
        variant
    }
}

/// Tells whether a devicetree compatible list names a supported UART.
pub fn is_compatible(compatible: &str) -> (known: bool)
    ensures
        known == (Variant::of_values(devicetree::values(compatible@)) is Some),
{
    Variant::from_compatible(compatible).is_some()
}

} // verus!
