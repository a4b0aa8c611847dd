//! What the driver's operations do, as programs.

use vstd::prelude::*;

use crate::baud;
use crate::program::{Program, Request};
use crate::registers::{reg, ucon, uerstat, ufcon, uint, ulcon, umcon, utrstat};
use crate::variant::{IrqStyle, Variant, APPLE_ENABLES};

verus! {

/// Number of times an idle transmitter is waited for.
pub const TX_IDLE_POLL_LIMIT: usize = 1_000_000;

/// Number of times the end of a FIFO reset is waited for.
pub const FIFO_RESET_POLL_LIMIT: usize = 10_000;

/// Number of characters taken from the receiver at a time.
pub const RX_DRAIN_LIMIT: usize = 256;

/// The bytes sent for one byte of console output. Backspace and delete wipe
/// out the last character, a newline also returns the carriage.
pub open spec fn console_byte(byte: u8) -> Seq<u8> {
    if byte == 8 || byte == 0x7f {
        seq![8u8, 0x20u8, 8u8]
    } else if byte == 0x0a {
        seq![0x0du8, 0x0au8]
    } else {
        seq![byte]
    }
}

/// The bytes sent for console output.
pub open spec fn console_bytes(output: Seq<u8>) -> Seq<u8>
    decreases output.len(),
{
    if output.len() == 0 {
        Seq::empty()
    } else {
        console_byte(output[0]) + console_bytes(output.drop_first())
    }
}

/// The character in a value read from URXH: its low byte.
pub open spec fn data_byte(value: u32) -> u8 {
    (value % 0x100) as u8
}

/// The configuration of a serial port.
pub struct Port {
    pub base: usize,
    pub variant: Variant,
    pub baud_rate: u32,
    pub clock_rate: Option<u32>,
    pub skip_init: bool,
}

impl Port {
    /// `base` is aligned and the register block lies within the address
    /// space.
    pub open spec fn valid(self) -> bool {
        &&& self.base % 4 == 0
        &&& self.base + reg::BLOCK_SIZE <= usize::MAX + 1
    }

    /// Address of a register.
    pub open spec fn address(self, register: usize) -> usize {
        (self.base + register) as usize
    }

    pub open spec fn read_reg(self, register: usize) -> Request {
        Request::Read32 { address: self.address(register) }
    }

    pub open spec fn write_reg(self, register: usize, data: u32) -> Request {
        Request::Write32 { address: self.address(register), data }
    }

    /// Takes a character from the receiver.
    pub open spec fn read_data(self) -> Request {
        if self.variant.wide_data {
            Request::Read32 { address: self.address(reg::URXH) }
        } else {
            Request::Read8 { address: self.address(reg::URXH) }
        }
    }

    /// Gives a character to the transmitter.
    pub open spec fn write_data(self, data: u8) -> Request {
        if self.variant.wide_data {
            Request::Write32 { address: self.address(reg::UTXH), data: data as u32 }
        } else {
            Request::Write8 { address: self.address(reg::UTXH), byte: data }
        }
    }

    /// Selects a transmit mode if none is selected.
    pub open spec fn init_early(self) -> Program<()> {
        Program::Ask {
            request: self.read_reg(reg::UCON),
            next: |value: u32| self.select_transmit_mode(value),
        }
    }

    pub open spec fn select_transmit_mode(self, value: u32) -> Program<()> {
        if value & ucon::TXMODE_MASK == 0 {
            Program::perform(
                self.write_reg(reg::UCON, value | ucon::TXMODE_CPU),
                Program::Finish { result: () },
            )
        } else {
            Program::Finish { result: () }
        }
    }

    /// Full initialization: waits for an idle transmitter, installs the
    /// defaults and programs the line, unless initialization is skipped.
    pub open spec fn init_full(self) -> Program<Result<(), ()>> {
        if self.skip_init {
            Program::Finish { result: Ok(()) }
        } else {
            self.wait_idle(TX_IDLE_POLL_LIMIT as int)
        }
    }

    /// Polls UTRSTAT up to `polls` times for an idle transmitter, and fails
    /// if it is never idle.
    pub open spec fn wait_idle(self, polls: int) -> Program<Result<(), ()>>
        decreases polls,
    {
        if polls <= 0 {
            Program::Finish { result: Err(()) }
        } else {
            Program::Ask {
                request: self.read_reg(reg::UTRSTAT),
                next: |status: u32|
                    if status & utrstat::TX_EMPTY != 0 {
                        self.configure()
                    } else {
                        Program::perform(Request::Pause, self.wait_idle(polls - 1))
                    },
            }
        }
    }

    /// The value of UCON for full initialization: the variant's defaults
    /// and those bits of the present value that the variant preserves.
    pub open spec fn initial_ucon(self, present: u32) -> u32 {
        let value = (present & self.variant.ucon_preserve) | self.variant.ucon_default;
        match self.variant.irq {
            IrqStyle::S3c6400 => value | ucon::RX_TIMEOUT_MAX,
            IrqStyle::AppleS5l => value,
        }
    }

    /// Installs the interrupt-mode defaults.
    pub open spec fn configure(self) -> Program<Result<(), ()>> {
        Program::Ask {
            request: self.read_reg(reg::UCON),
            next: |present: u32|
                Program::perform(
                    self.write_reg(reg::UCON, self.initial_ucon(present)),
                    self.quiet_interrupts(),
                ),
        }
    }

    /// Keeps interrupts masked and acknowledges stale state. On Apple
    /// hardware the enables are in UCON and have been cleared there.
    pub open spec fn quiet_interrupts(self) -> Program<Result<(), ()>> {
        match self.variant.irq {
            IrqStyle::S3c6400 => Program::perform(
                self.write_reg(reg::UINTM, uint::ALL),
                self.clear_pending(),
            ),
            IrqStyle::AppleS5l => Program::perform(
                self.write_reg(reg::UTRSTAT, utrstat::APPLE_ALL_FLAGS),
                self.reset_fifos(),
            ),
        }
    }

    pub open spec fn clear_pending(self) -> Program<Result<(), ()>> {
        Program::perform(self.write_reg(reg::UINTP, uint::ALL), self.clear_sources())
    }

    pub open spec fn clear_sources(self) -> Program<Result<(), ()>> {
        Program::perform(self.write_reg(reg::UINTSP, uint::ALL), self.reset_fifos())
    }

    /// Resets both FIFOs.
    pub open spec fn reset_fifos(self) -> Program<Result<(), ()>> {
        Program::perform(
            self.write_reg(reg::UFCON, self.variant.ufcon_default | ufcon::RESET_BOTH),
            self.wait_reset(FIFO_RESET_POLL_LIMIT as int),
        )
    }

    /// Polls UFCON up to `polls` times until the reset bits have cleared
    /// themselves, and goes on in any case.
    pub open spec fn wait_reset(self, polls: int) -> Program<Result<(), ()>>
        decreases polls,
    {
        if polls <= 0 {
            self.enable_fifos()
        } else {
            Program::Ask {
                request: self.read_reg(reg::UFCON),
                next: |value: u32|
                    if value & ufcon::RESET_BOTH == 0 {
                        self.enable_fifos()
                    } else {
                        Program::perform(Request::Pause, self.wait_reset(polls - 1))
                    },
            }
        }
    }

    pub open spec fn enable_fifos(self) -> Program<Result<(), ()>> {
        Program::perform(
            self.write_reg(reg::UFCON, self.variant.ufcon_default),
            self.disable_flow_control(),
        )
    }

    /// No auto flow control; an undriven CTS input would stall the
    /// transmitter forever.
    pub open spec fn disable_flow_control(self) -> Program<Result<(), ()>> {
        Program::Ask {
            request: self.read_reg(reg::UMCON),
            next: |value: u32|
                Program::perform(
                    self.write_reg(reg::UMCON, value & !umcon::AUTO_FLOW),
                    self.program_line(),
                ),
        }
    }

    /// Programs the 8N1 format and the baud rate if the baud clock rate is
    /// known; otherwise the firmware line configuration is kept.
    pub open spec fn program_line(self) -> Program<Result<(), ()>> {
        match self.clock_rate {
            None => Program::Finish { result: Ok(()) },
            Some(clock_rate) => match baud::baud_registers(
                clock_rate,
                self.baud_rate,
                self.variant.divisor,
            ) {
                None => Program::Finish { result: Err(()) },
                Some((ubrdiv, second)) => Program::perform(
                    self.write_reg(reg::ULCON, ulcon::CS8),
                    self.program_divisor(ubrdiv, second),
                ),
            },
        }
    }

    pub open spec fn program_divisor(self, ubrdiv: u32, second: Option<u32>) -> Program<
        Result<(), ()>,
    > {
        Program::perform(self.write_reg(reg::UBRDIV, ubrdiv), self.program_second_divisor(second))
    }

    pub open spec fn program_second_divisor(self, second: Option<u32>) -> Program<Result<(), ()>> {
        match second {
            Some(fracval) => Program::perform(
                self.write_reg(reg::UFRACVAL, fracval),
                Program::Finish { result: Ok(()) },
            ),
            None => Program::Finish { result: Ok(()) },
        }
    }

    /// The value of UCON that puts RX in interrupt mode. The clock select
    /// of S3C6400 and S5PV210 has the bits that are the empty interrupt and
    /// the DMA suspension elsewhere, and is kept.
    pub open spec fn receiving_ucon(self, present: u32) -> u32 {
        let value = (present & !ucon::RXMODE_MASK) | ucon::RXMODE_CPU;
        match self.variant.irq {
            IrqStyle::S3c6400 => (value & !((ucon::RX_TIMEOUT_MASK | ucon::EMPTYINT_EN
                | ucon::DMASUS_EN) & !self.variant.ucon_preserve)) | (ucon::RX_TIMEOUT_MAX
                | ucon::RX_TIMEOUT_EN),
            IrqStyle::AppleS5l => value | APPLE_ENABLES,
        }
    }

    /// Puts RX in interrupt mode and unmasks the receive interrupts.
    pub open spec fn enable_irq(self) -> Program<()> {
        Program::Ask {
            request: self.read_reg(reg::UFCON),
            next: |value: u32|
                Program::perform(
                    self.write_reg(
                        reg::UFCON,
                        value | ufcon::RX_RESET | ufcon::S5PV210_RXTRIG8,
                    ),
                    self.receive_by_interrupt(),
                ),
        }
    }

    pub open spec fn receive_by_interrupt(self) -> Program<()> {
        Program::Ask {
            request: self.read_reg(reg::UCON),
            next: |present: u32| self.enable_receiver(self.receiving_ucon(present)),
        }
    }

    /// Acknowledges stale interrupts before RX interrupts can occur: on
    /// Apple hardware before UCON enables them, elsewhere before UINTM
    /// unmasks RX, and RX only.
    pub open spec fn enable_receiver(self, value: u32) -> Program<()> {
        match self.variant.irq {
            IrqStyle::S3c6400 => Program::perform(
                self.write_reg(reg::UCON, value),
                self.unmask_receiver(),
            ),
            IrqStyle::AppleS5l => Program::perform(
                self.write_reg(reg::UTRSTAT, utrstat::APPLE_ALL_FLAGS),
                self.write_enables(value),
            ),
        }
    }

    pub open spec fn write_enables(self, value: u32) -> Program<()> {
        Program::perform(self.write_reg(reg::UCON, value), Program::Finish { result: () })
    }

    pub open spec fn unmask_receiver(self) -> Program<()> {
        Program::perform(
            self.write_reg(reg::UINTP, uint::ALL),
            Program::perform(
                self.write_reg(reg::UINTM, uint::ALL & !uint::RXD),
                Program::Finish { result: () },
            ),
        )
    }

    /// Takes characters from the receiver and hands them to the console.
    /// The Apple flags are acknowledged before draining so that characters
    /// arriving mid-drain raise them again.
    pub open spec fn receive(self) -> Program<()> {
        Program::Ask {
            request: self.read_reg(reg::UFCON),
            next: |value: u32| self.start_drain(value & ufcon::FIFO_EN != 0),
        }
    }

    pub open spec fn start_drain(self, fifo_mode: bool) -> Program<()> {
        match self.variant.irq {
            IrqStyle::S3c6400 => self.drain(RX_DRAIN_LIMIT as int, fifo_mode, false),
            IrqStyle::AppleS5l => Program::perform(
                self.write_reg(reg::UTRSTAT, utrstat::APPLE_RX_FLAGS),
                self.drain(RX_DRAIN_LIMIT as int, fifo_mode, false),
            ),
        }
    }

    /// The read that tells whether a character has been received.
    pub open spec fn read_receive_status(self, fifo_mode: bool) -> Request {
        if fifo_mode {
            self.read_reg(reg::UFSTAT)
        } else {
            self.read_reg(reg::UTRSTAT)
        }
    }

    /// The bits of the receive status that are non-zero when a character
    /// has been received.
    pub open spec fn received_mask(self, fifo_mode: bool) -> u32 {
        if fifo_mode {
            self.variant.fifo.rx_pending()
        } else {
            utrstat::RX_READY
        }
    }

    /// Takes up to `limit` characters. `received` tells whether characters
    /// have been handed to the console already.
    pub open spec fn drain(self, limit: int, fifo_mode: bool, received: bool) -> Program<()>
        decreases limit,
    {
        if limit <= 0 {
            self.end_drain(received)
        } else {
            Program::Ask {
                request: self.read_receive_status(fifo_mode),
                next: |status: u32|
                    if status & self.received_mask(fifo_mode) == 0 {
                        self.end_drain(received)
                    } else {
                        self.take_character(
                            self.drain(limit - 1, fifo_mode, true),
                            self.drain(limit - 1, fifo_mode, received),
                        )
                    },
            }
        }
    }

    /// Takes a character and hands it to the console if it is accepted. The
    /// error status applies to the next character read.
    pub open spec fn take_character(
        self,
        if_accepted: Program<()>,
        otherwise: Program<()>,
    ) -> Program<()> {
        Program::Ask {
            request: self.read_reg(reg::UERSTAT),
            next: |errors: u32| self.take_data(errors, if_accepted, otherwise),
        }
    }

    pub open spec fn take_data(
        self,
        errors: u32,
        if_accepted: Program<()>,
        otherwise: Program<()>,
    ) -> Program<()> {
        Program::Ask {
            request: self.read_data(),
            next: |value: u32|
                if accepted(errors, value) {
                    Program::perform(Request::Input { byte: data_byte(value) }, if_accepted)
                } else {
                    otherwise
                },
        }
    }

    pub open spec fn end_drain(self, received: bool) -> Program<()> {
        match self.variant.irq {
            IrqStyle::S3c6400 => Program::perform(
                self.write_reg(reg::UINTP, uint::RXD),
                self.notify(received),
            ),
            IrqStyle::AppleS5l => self.notify(received),
        }
    }

    pub open spec fn notify(self, received: bool) -> Program<()> {
        if received {
            Program::perform(Request::Notify, Program::Finish { result: () })
        } else {
            Program::Finish { result: () }
        }
    }

    /// Waits until the transmitter has room and gives it a character.
    pub open spec fn send(self, data: u8) -> Program<()> {
        Program::Ask {
            request: self.read_reg(reg::UFCON),
            next: |value: u32| self.wait_room(value & ufcon::FIFO_EN != 0, data),
        }
    }

    /// The read that tells whether the transmitter has room.
    pub open spec fn read_transmit_status(self, fifo_mode: bool) -> Request {
        if fifo_mode {
            self.read_reg(reg::UFSTAT)
        } else {
            self.read_reg(reg::UTRSTAT)
        }
    }

    /// Whether the transmitter has room: a FIFO is not full, a transmitter
    /// without one is empty.
    pub open spec fn has_room(self, fifo_mode: bool, status: u32) -> bool {
        if fifo_mode {
            status & self.variant.fifo.tx_full() == 0
        } else {
            status & utrstat::TX_EMPTY != 0
        }
    }

    pub open spec fn wait_room(self, fifo_mode: bool, data: u8) -> Program<()> {
        Program::Await {
            request: self.read_transmit_status(fifo_mode),
            ready: |status: u32| self.has_room(fifo_mode, status),
            rest: Box::new(Program::perform(self.write_data(data), Program::Finish { result: () })),
        }
    }

    /// Sends bytes one after the other.
    pub open spec fn send_all(self, bytes: Seq<u8>) -> Program<()>
        decreases bytes.len(),
    {
        if bytes.len() == 0 {
            Program::Finish { result: () }
        } else {
            self.send(bytes[0]).then_run(self.send_all(bytes.drop_first()))
        }
    }

    /// Writes console output. An unconfigured port never drains its FIFO,
    /// so nothing is sent to it.
    pub open spec fn write(self, output: Seq<u8>) -> Program<()> {
        Program::Ask {
            request: self.read_reg(reg::UCON),
            next: |value: u32|
                if value & ucon::MODE_MASK == 0 {
                    Program::Finish { result: () }
                } else {
                    self.send_all(console_bytes(output))
                },
        }
    }
}

/// Whether a value read from URXH is handed to the console: it came without
/// errors and its character is not NUL.
pub open spec fn accepted(errors: u32, value: u32) -> bool {
    errors & uerstat::ANY == 0 && data_byte(value) != 0
}

} // verus!
