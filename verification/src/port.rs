//! The serial port and its operations, one step at a time.

use vstd::prelude::*;

use crate::baud::calculate_baud_registers;
use crate::model;
use crate::model::{Port, FIFO_RESET_POLL_LIMIT, RX_DRAIN_LIMIT, TX_IDLE_POLL_LIMIT};
use crate::program;
use crate::program::{Request, Step};
use crate::progress;
use crate::progress::{
    EnableIrqProgress, InitEarlyProgress, InitFullProgress, Queue, ReceiveProgress, SendProgress,
    WriteProgress,
};
use crate::registers::{reg, ucon, uerstat, ufcon, uint, ulcon, umcon, utrstat};
use crate::variant::{IrqStyle, Variant, APPLE_ENABLES};

verus! {

/// A Samsung UART whose register block starts at `base`.
///
/// Every operation is carried out by calling its method again and again with
/// the same progress value, which starts out as `Start`: each call returns a
/// request to be performed, whose reply is handed to the next call, until
/// one returns that the operation is finished. The first call ignores its
/// reply.
pub struct SerialPort {
    base: usize,
    variant: Variant,
    baud_rate: u32,
    /// Baud clock input rate; unknown when the devicetree routes the
    /// clock through a programmable controller. In that case the
    /// firmware-provided baud rate and line format are preserved.
    clock_rate: Option<u32>,
    skip_init: bool,
}

impl View for SerialPort {
    type V = Port;

    closed spec fn view(&self) -> Port {
        Port {
            base: self.base,
            variant: self.variant,
            baud_rate: self.baud_rate,
            clock_rate: self.clock_rate,
            skip_init: self.skip_init,
        }
    }
}

/// The character in a value read from URXH.
fn character(value: u32) -> (byte: u8)
    ensures
        byte == model::data_byte(value),
{
    assert(value as u8 == (value % 0x100) as u8) by (bit_vector);
    #[verifier::truncate]
    (value as u8)
}

impl SerialPort {
    #[verifier::type_invariant]
    spec fn well_formed(self) -> bool {
        self@.valid()
    }

    /// Describes the UART whose register block starts at `base`, which must
    /// be aligned and leave room for the block in the address space.
    pub fn new(
        base: usize,
        baud_rate: u32,
        clock_rate: Option<u32>,
        variant: Variant,
        skip_init: bool,
    ) -> (port: SerialPort)
        requires
            base % 4 == 0,
            base + reg::BLOCK_SIZE <= usize::MAX + 1,
        ensures
            port@ == (Port { base, variant, baud_rate, clock_rate, skip_init }),
    {
        SerialPort { base, variant, baud_rate, clock_rate, skip_init }
    }

    fn read_reg(&self, register: usize) -> (request: Request)
        requires
            register < reg::BLOCK_SIZE,
        ensures
            request == self@.read_reg(register),
    {
        proof {
            use_type_invariant(self);
        }
        Request::Read32 { address: self.base + register }
    }

    fn write_reg(&self, register: usize, data: u32) -> (request: Request)
        requires
            register < reg::BLOCK_SIZE,
        ensures
            request == self@.write_reg(register, data),
    {
        proof {
            use_type_invariant(self);
        }
        Request::Write32 { address: self.base + register, data }
    }

    fn read_data(&self) -> (request: Request)
        ensures
            request == self@.read_data(),
    {
        proof {
            use_type_invariant(self);
        }
        if self.variant.wide_data {
            Request::Read32 { address: self.base + reg::URXH }
        } else {
            Request::Read8 { address: self.base + reg::URXH }
        }
    }

    fn write_data(&self, data: u8) -> (request: Request)
        ensures
            request == self@.write_data(data),
    {
        proof {
            use_type_invariant(self);
        }
        if self.variant.wide_data {
            Request::Write32 { address: self.base + reg::UTXH, data: data as u32 }
        } else {
            Request::Write8 { address: self.base + reg::UTXH, byte: data }
        }
    }

    /// Makes the transmitter usable while preserving the serial
    /// configuration left by firmware. This can be called before the
    /// FIFO, baud-rate, and interrupt configuration has been validated.
    pub fn init_early(&mut self, progress: &mut InitEarlyProgress, reply: u32) -> (step: Step<()>)
        ensures
            final(self)@ == old(self)@,
            step == old(self)@.init_early_from(*old(progress), reply).step(),
            forall|next_reply: u32| #[trigger]
                old(self)@.init_early_from(*final(progress), next_reply) == old(
                    self,
                )@.init_early_from(*old(progress), reply).after(next_reply),
    {
        let (next, step) = match *progress {
            InitEarlyProgress::Start => (
                InitEarlyProgress::ReadUcon,
                Step::Perform(self.read_reg(reg::UCON)),
            ),
            InitEarlyProgress::ReadUcon => {
                if reply & ucon::TXMODE_MASK == 0 {
                    (
                        InitEarlyProgress::WriteUcon,
                        Step::Perform(self.write_reg(reg::UCON, reply | ucon::TXMODE_CPU)),
                    )
                } else {
                    (InitEarlyProgress::Done, Step::Finished(()))
                }
            },
            InitEarlyProgress::WriteUcon | InitEarlyProgress::Done => (
                InitEarlyProgress::Done,
                Step::Finished(()),
            ),
        };
        *progress = next;
        step
    }

    /// Resets FIFOs, masks interrupts, and installs the interrupt-mode
    /// defaults. The baud rate and 8N1 format are only programmed when
    /// the baud clock rate is known; otherwise the firmware line
    /// configuration is kept.
    pub fn init_full(&mut self, progress: &mut InitFullProgress, reply: u32) -> (step: Step<
        Result<(), ()>,
    >)
        ensures
            final(self)@ == old(self)@,
            step == old(self)@.init_full_from(*old(progress), reply).step(),
            forall|next_reply: u32| #[trigger]
                old(self)@.init_full_from(*final(progress), next_reply) == old(
                    self,
                )@.init_full_from(*old(progress), reply).after(next_reply),
    {
        let (next, step) = match *progress {
            InitFullProgress::Start => {
                if self.skip_init {
                    (InitFullProgress::Done { result: Ok(()) }, Step::Finished(Ok(())))
                } else {
                    // Let the transmitter drain before the FIFOs are reset
                    // and the line configuration changes.
                    (
                        InitFullProgress::ReadIdle { left: TX_IDLE_POLL_LIMIT - 1 },
                        Step::Perform(self.read_reg(reg::UTRSTAT)),
                    )
                }
            },
            InitFullProgress::ReadIdle { left } => {
                if reply & utrstat::TX_EMPTY != 0 {
                    (InitFullProgress::ReadUcon, Step::Perform(self.read_reg(reg::UCON)))
                } else {
                    (InitFullProgress::PauseIdle { left }, Step::Perform(Request::Pause))
                }
            },
            InitFullProgress::PauseIdle { left } => {
                if left == 0 {
                    (InitFullProgress::Done { result: Err(()) }, Step::Finished(Err(())))
                } else {
                    (
                        InitFullProgress::ReadIdle { left: left - 1 },
                        Step::Perform(self.read_reg(reg::UTRSTAT)),
                    )
                }
            },
            InitFullProgress::ReadUcon => {
                let mut value: u32 = (reply & self.variant.ucon_preserve)
                    | self.variant.ucon_default;
                if self.variant.irq == IrqStyle::S3c6400 {
                    value = value | ucon::RX_TIMEOUT_MAX;
                }
                (InitFullProgress::WriteUcon, Step::Perform(self.write_reg(reg::UCON, value)))
            },
            // Keep interrupts masked and acknowledge stale state; the
            // Apple enables were already cleared by the UCON write above.
            InitFullProgress::WriteUcon => match self.variant.irq {
                IrqStyle::S3c6400 => (
                    InitFullProgress::WriteUintm,
                    Step::Perform(self.write_reg(reg::UINTM, uint::ALL)),
                ),
                IrqStyle::AppleS5l => (
                    InitFullProgress::WriteFlags,
                    Step::Perform(self.write_reg(reg::UTRSTAT, utrstat::APPLE_ALL_FLAGS)),
                ),
            },
            InitFullProgress::WriteUintm => (
                InitFullProgress::WriteUintp,
                Step::Perform(self.write_reg(reg::UINTP, uint::ALL)),
            ),
            InitFullProgress::WriteUintp => (
                InitFullProgress::WriteUintsp,
                Step::Perform(self.write_reg(reg::UINTSP, uint::ALL)),
            ),
            // Reset both FIFOs; the reset bits clear themselves.
            InitFullProgress::WriteUintsp | InitFullProgress::WriteFlags => (
                InitFullProgress::WriteReset,
                Step::Perform(
                    self.write_reg(reg::UFCON, self.variant.ufcon_default | ufcon::RESET_BOTH),
                ),
            ),
            InitFullProgress::WriteReset => (
                InitFullProgress::ReadReset { left: FIFO_RESET_POLL_LIMIT - 1 },
                Step::Perform(self.read_reg(reg::UFCON)),
            ),
            InitFullProgress::ReadReset { left } => {
                if reply & ufcon::RESET_BOTH == 0 {
                    (
                        InitFullProgress::WriteUfcon,
                        Step::Perform(self.write_reg(reg::UFCON, self.variant.ufcon_default)),
                    )
                } else {
                    (InitFullProgress::PauseReset { left }, Step::Perform(Request::Pause))
                }
            },
            InitFullProgress::PauseReset { left } => {
                if left == 0 {
                    (
                        InitFullProgress::WriteUfcon,
                        Step::Perform(self.write_reg(reg::UFCON, self.variant.ufcon_default)),
                    )
                } else {
                    (
                        InitFullProgress::ReadReset { left: left - 1 },
                        Step::Perform(self.read_reg(reg::UFCON)),
                    )
                }
            },
            // No auto flow control; an undriven CTS input would stall the
            // transmitter forever.
            InitFullProgress::WriteUfcon => (
                InitFullProgress::ReadUmcon,
                Step::Perform(self.read_reg(reg::UMCON)),
            ),
            InitFullProgress::ReadUmcon => (
                InitFullProgress::WriteUmcon,
                Step::Perform(self.write_reg(reg::UMCON, reply & !umcon::AUTO_FLOW)),
            ),
            InitFullProgress::WriteUmcon => self.program_line(),
            InitFullProgress::WriteUlcon { ubrdiv, second } => (
                InitFullProgress::WriteUbrdiv { second },
                Step::Perform(self.write_reg(reg::UBRDIV, ubrdiv)),
            ),
            InitFullProgress::WriteUbrdiv { second } => match second {
                Some(fracval) => (
                    InitFullProgress::WriteSecondDivisor,
                    Step::Perform(self.write_reg(reg::UFRACVAL, fracval)),
                ),
                None => (InitFullProgress::Done { result: Ok(()) }, Step::Finished(Ok(()))),
            },
            InitFullProgress::WriteSecondDivisor => (
                InitFullProgress::Done { result: Ok(()) },
                Step::Finished(Ok(())),
            ),
            InitFullProgress::Done { result } => (
                InitFullProgress::Done { result },
                Step::Finished(result),
            ),
        };
        *progress = next;
        step
    }

    /// The step of full initialization that begins to program the line.
    fn program_line(&self) -> (next: (InitFullProgress, Step<Result<(), ()>>))
        ensures
            next.1 == self@.program_line().step(),
            forall|reply: u32| #[trigger]
                self@.init_full_from(next.0, reply) == self@.program_line().after(reply),
    {
        match self.clock_rate {
            None => (InitFullProgress::Done { result: Ok(()) }, Step::Finished(Ok(()))),
            Some(clock_rate) => {
                match calculate_baud_registers(clock_rate, self.baud_rate, self.variant.divisor) {
                    None => (InitFullProgress::Done { result: Err(()) }, Step::Finished(Err(()))),
                    Some((ubrdiv, second)) => (
                        InitFullProgress::WriteUlcon { ubrdiv, second },
                        Step::Perform(self.write_reg(reg::ULCON, ulcon::CS8)),
                    ),
                }
            },
        }
    }

    /// Puts RX in interrupt mode and unmasks the receive interrupts.
    /// skip-init preserves the baud rate, format, and FIFO
    /// configuration supplied by firmware; interrupt setup still takes
    /// ownership of RX. The clock select is kept in any case.
    pub fn enable_irq(&mut self, progress: &mut EnableIrqProgress, reply: u32) -> (step: Step<()>)
        ensures
            final(self)@ == old(self)@,
            step == old(self)@.enable_irq_from(*old(progress), reply).step(),
            forall|next_reply: u32| #[trigger]
                old(self)@.enable_irq_from(*final(progress), next_reply) == old(
                    self,
                )@.enable_irq_from(*old(progress), reply).after(next_reply),
    {
        let (next, step) = match *progress {
            EnableIrqProgress::Start => (
                EnableIrqProgress::ReadUfcon,
                Step::Perform(self.read_reg(reg::UFCON)),
            ),
            EnableIrqProgress::ReadUfcon => (
                EnableIrqProgress::WriteUfcon,
                Step::Perform(
                    self.write_reg(
                        reg::UFCON,
                        reply | ufcon::RX_RESET | ufcon::S5PV210_RXTRIG8,
                    ),
                ),
            ),
            EnableIrqProgress::WriteUfcon => (
                EnableIrqProgress::ReadUcon,
                Step::Perform(self.read_reg(reg::UCON)),
            ),
            EnableIrqProgress::ReadUcon => {
                let value: u32 = (reply & !ucon::RXMODE_MASK) | ucon::RXMODE_CPU;
                match self.variant.irq {
                    IrqStyle::S3c6400 => {
                        // Where these bits are the clock select they stay as
                        // they are, and with them the baud rate.
                        let cleared: u32 = (ucon::RX_TIMEOUT_MASK | ucon::EMPTYINT_EN
                            | ucon::DMASUS_EN) & !self.variant.ucon_preserve;
                        let value: u32 = (value & !cleared) | (ucon::RX_TIMEOUT_MAX
                            | ucon::RX_TIMEOUT_EN);
                        (
                            EnableIrqProgress::WriteUcon,
                            Step::Perform(self.write_reg(reg::UCON, value)),
                        )
                    },
                    IrqStyle::AppleS5l => {
                        let value: u32 = value | APPLE_ENABLES;
                        (
                            EnableIrqProgress::WriteFlags { ucon: value },
                            Step::Perform(self.write_reg(reg::UTRSTAT, utrstat::APPLE_ALL_FLAGS)),
                        )
                    },
                }
            },
            // Acknowledge stale interrupts, then unmask RX only.
            EnableIrqProgress::WriteUcon => (
                EnableIrqProgress::WriteUintp,
                Step::Perform(self.write_reg(reg::UINTP, uint::ALL)),
            ),
            EnableIrqProgress::WriteUintp => (
                EnableIrqProgress::WriteUintm,
                Step::Perform(self.write_reg(reg::UINTM, uint::ALL & !uint::RXD)),
            ),
            EnableIrqProgress::WriteFlags { ucon: value } => (
                EnableIrqProgress::WriteEnables,
                Step::Perform(self.write_reg(reg::UCON, value)),
            ),
            EnableIrqProgress::WriteUintm
            | EnableIrqProgress::WriteEnables
            | EnableIrqProgress::Done => (
                EnableIrqProgress::Done,
                Step::Finished(()),
            ),
        };
        *progress = next;
        step
    }

    /// Drains the receiver: hands the characters that have been received
    /// without errors to the console, and tells it if there were any.
    pub fn receive(&mut self, progress: &mut ReceiveProgress, reply: u32) -> (step: Step<()>)
        ensures
            final(self)@ == old(self)@,
            step == old(self)@.receive_from(*old(progress), reply).step(),
            forall|next_reply: u32| #[trigger]
                old(self)@.receive_from(*final(progress), next_reply) == old(self)@.receive_from(
                    *old(progress),
                    reply,
                ).after(next_reply),
    {
        let (next, step) = match *progress {
            ReceiveProgress::Start => (
                ReceiveProgress::ReadUfcon,
                Step::Perform(self.read_reg(reg::UFCON)),
            ),
            ReceiveProgress::ReadUfcon => {
                let fifo_mode = reply & ufcon::FIFO_EN != 0;
                // The Apple flags are acknowledged before draining so that
                // characters arriving mid-drain raise them again.
                if self.variant.irq == IrqStyle::AppleS5l {
                    (
                        ReceiveProgress::WriteFlags { fifo_mode },
                        Step::Perform(self.write_reg(reg::UTRSTAT, utrstat::APPLE_RX_FLAGS)),
                    )
                } else {
                    self.drain(RX_DRAIN_LIMIT, fifo_mode, false)
                }
            },
            ReceiveProgress::WriteFlags { fifo_mode } => self.drain(
                RX_DRAIN_LIMIT,
                fifo_mode,
                false,
            ),
            ReceiveProgress::ReadStatus { fifo_mode, left, received } => {
                let mask: u32 = if fifo_mode {
                    self.variant.fifo.rx_pending_mask()
                } else {
                    utrstat::RX_READY
                };
                if reply & mask == 0 {
                    self.end_drain(received)
                } else {
                    // The error status applies to the next character read.
                    (
                        ReceiveProgress::ReadErrors { fifo_mode, left, received },
                        Step::Perform(self.read_reg(reg::UERSTAT)),
                    )
                }
            },
            ReceiveProgress::ReadErrors { fifo_mode, left, received } => (
                ReceiveProgress::ReadData { fifo_mode, left, received, errors: reply },
                Step::Perform(self.read_data()),
            ),
            ReceiveProgress::ReadData { fifo_mode, left, received, errors } => {
                let byte: u8 = character(reply);
                if errors & uerstat::ANY == 0 && byte != 0 {
                    (
                        ReceiveProgress::Input { fifo_mode, left },
                        Step::Perform(Request::Input { byte }),
                    )
                } else {
                    self.drain(left, fifo_mode, received)
                }
            },
            ReceiveProgress::Input { fifo_mode, left } => self.drain(left, fifo_mode, true),
            ReceiveProgress::WriteUintp { received } => self.notify(received),
            ReceiveProgress::Notify | ReceiveProgress::Done => (
                ReceiveProgress::Done,
                Step::Finished(()),
            ),
        };
        *progress = next;
        step
    }

    /// The step of draining the receiver that begins to take up to `limit`
    /// characters.
    fn drain(&self, limit: usize, fifo_mode: bool, received: bool) -> (next: (
        ReceiveProgress,
        Step<()>,
    ))
        ensures
            next.1 == self@.drain(limit as int, fifo_mode, received).step(),
            forall|reply: u32| #[trigger]
                self@.receive_from(next.0, reply) == self@.drain(
                    limit as int,
                    fifo_mode,
                    received,
                ).after(reply),
    {
        if limit == 0 {
            self.end_drain(received)
        } else {
            (
                ReceiveProgress::ReadStatus { fifo_mode, left: limit - 1, received },
                Step::Perform(self.read_status(fifo_mode)),
            )
        }
    }

    /// The step of draining the receiver that follows the last character.
    fn end_drain(&self, received: bool) -> (next: (ReceiveProgress, Step<()>))
        ensures
            next.1 == self@.end_drain(received).step(),
            forall|reply: u32| #[trigger]
                self@.receive_from(next.0, reply) == self@.end_drain(received).after(reply),
    {
        if self.variant.irq == IrqStyle::S3c6400 {
            (
                ReceiveProgress::WriteUintp { received },
                Step::Perform(self.write_reg(reg::UINTP, uint::RXD)),
            )
        } else {
            self.notify(received)
        }
    }

    /// The step of draining the receiver that tells the console.
    fn notify(&self, received: bool) -> (next: (ReceiveProgress, Step<()>))
        ensures
            next.1 == self@.notify(received).step(),
            forall|reply: u32| #[trigger]
                self@.receive_from(next.0, reply) == self@.notify(received).after(reply),
    {
        if received {
            (ReceiveProgress::Notify, Step::Perform(Request::Notify))
        } else {
            (ReceiveProgress::Done, Step::Finished(()))
        }
    }

    /// Sends a byte once the transmitter has room for it. The steps of one
    /// operation are all given the same byte.
    pub fn send(&mut self, data: u8, progress: &mut SendProgress, reply: u32) -> (step: Step<()>)
        ensures
            final(self)@ == old(self)@,
            step == old(self)@.send_from(*old(progress), data, reply).step(),
            forall|next_reply: u32| #[trigger]
                old(self)@.send_from(*final(progress), data, next_reply) == old(self)@.send_from(
                    *old(progress),
                    data,
                    reply,
                ).after(next_reply),
    {
        let (next, step) = match *progress {
            SendProgress::Start => (
                SendProgress::ReadUfcon,
                Step::Perform(self.read_reg(reg::UFCON)),
            ),
            SendProgress::ReadUfcon => {
                let fifo_mode = reply & ufcon::FIFO_EN != 0;
                (SendProgress::ReadStatus { fifo_mode }, Step::Perform(self.read_status(fifo_mode)))
            },
            SendProgress::ReadStatus { fifo_mode } => {
                let room = if fifo_mode {
                    reply & self.variant.fifo.tx_full_mask() == 0
                } else {
                    reply & utrstat::TX_EMPTY != 0
                };
                if room {
                    (SendProgress::WriteData, Step::Perform(self.write_data(data)))
                } else {
                    (
                        SendProgress::ReadStatus { fifo_mode },
                        Step::Perform(self.read_status(fifo_mode)),
                    )
                }
            },
            SendProgress::WriteData | SendProgress::Done => (
                SendProgress::Done,
                Step::Finished(()),
            ),
        };
        *progress = next;
        step
    }

    /// Writes console output. Backspace and delete wipe out the last
    /// character, a newline also returns the carriage. The steps of one
    /// operation are all given the same output.
    pub fn write(&mut self, buf: &[u8], progress: &mut WriteProgress, reply: u32) -> (step: Step<
        (),
    >)
        ensures
            final(self)@ == old(self)@,
            step == old(self)@.write_from(*old(progress), buf@, reply).step(),
            forall|next_reply: u32| #[trigger]
                old(self)@.write_from(*final(progress), buf@, next_reply) == old(self)@.write_from(
                    *old(progress),
                    buf@,
                    reply,
                ).after(next_reply),
    {
        let (next, step) = match *progress {
            WriteProgress::Start => (
                WriteProgress::ReadUcon,
                Step::Perform(self.read_reg(reg::UCON)),
            ),
            WriteProgress::ReadUcon => {
                // An unconfigured port never drains its FIFO, so sending
                // would wait forever.
                if reply & ucon::MODE_MASK == 0 {
                    (WriteProgress::Done, Step::Finished(()))
                } else {
                    assert(progress::output_from(buf@, 0) =~= buf@);
                    assert(Queue::Empty.bytes() + model::console_bytes(buf@)
                        =~= model::console_bytes(buf@));
                    self.send_next(Queue::Empty, buf, 0)
                }
            },
            WriteProgress::Sending { byte, queue, next, send } => {
                proof {
                    let first = self@.send_from(send, byte, reply);
                    let second = self@.send_all(
                        queue.bytes() + model::console_bytes(progress::output_from(buf@, next)),
                    );
                    assert forall|next_reply: u32|
                        first.step() is Perform implies #[trigger] first.then_run(second).after(
                        next_reply,
                    ) == first.after(next_reply).then_run(second) by {
                        program::law_first_program_goes_first(first, second, next_reply);
                    }
                }
                let mut send = send;
                match self.send(byte, &mut send, reply) {
                    Step::Perform(request) => (
                        WriteProgress::Sending { byte, queue, next, send },
                        Step::Perform(request),
                    ),
                    Step::Finished(_) => self.send_next(queue, buf, next),
                }
            },
            WriteProgress::Done => (WriteProgress::Done, Step::Finished(())),
        };
        *progress = next;
        step
    }

    /// The step of writing output that begins to send the next byte: one
    /// from the queue, or else the first of those for `buf[next]`.
    fn send_next(&mut self, queue: Queue, buf: &[u8], next: usize) -> (result: (
        WriteProgress,
        Step<()>,
    ))
        ensures
            final(self)@ == old(self)@,
            ({
                let rest = old(self)@.send_all(
                    queue.bytes() + model::console_bytes(progress::output_from(buf@, next)),
                );
                &&& result.1 == rest.step()
                &&& forall|reply: u32| #[trigger]
                    old(self)@.write_from(result.0, buf@, reply) == rest.after(reply)
            }),
    {
        let length: usize = buf.len();
        proof {
            let output = progress::output_from(buf@, next);
            let queued = queue.bytes();
            match queue {
                Queue::Two { first, second } => {
                    assert(queued + model::console_bytes(output) =~= seq![first] + seq![second]
                        + model::console_bytes(output));
                },
                Queue::One { first } => {
                    assert(queued + model::console_bytes(output) =~= seq![first]
                        + Seq::<u8>::empty() + model::console_bytes(output));
                },
                Queue::Empty => {
                    assert(queued + model::console_bytes(output) =~= model::console_bytes(output));
                    if next < buf@.len() {
                        let others = model::console_bytes(output.drop_first());
                        assert(output.drop_first() =~= progress::output_from(
                            buf@,
                            (next + 1) as usize,
                        ));
                        assert(seq![8u8, 0x20u8, 8u8] + others =~= seq![8u8] + seq![0x20u8, 8u8]
                            + others);
                        assert(seq![0x0du8, 0x0au8] + others =~= seq![0x0du8] + seq![0x0au8]
                            + others);
                        assert(seq![buf@[next as int]] + others =~= seq![buf@[next as int]]
                            + Seq::<u8>::empty() + others);
                    }
                },
            }
        }
        match queue {
            Queue::Two { first, second } => self.start_sending(
                first,
                Queue::One { first: second },
                buf,
                next,
            ),
            Queue::One { first } => self.start_sending(first, Queue::Empty, buf, next),
            Queue::Empty => {
                if next < length {
                    match buf[next] {
                        8 | 0x7f => self.start_sending(
                            8,
                            Queue::Two { first: 0x20, second: 8 },
                            buf,
                            next + 1,
                        ),
                        0x0a => self.start_sending(0x0d, Queue::One { first: 0x0a }, buf, next + 1),
                        byte => self.start_sending(byte, Queue::Empty, buf, next + 1),
                    }
                } else {
                    (WriteProgress::Done, Step::Finished(()))
                }
            },
        }
    }

    /// The step of writing output that begins to send `byte`.
    fn start_sending(&mut self, byte: u8, queue: Queue, buf: &[u8], next: usize) -> (result: (
        WriteProgress,
        Step<()>,
    ))
        ensures
            final(self)@ == old(self)@,
            ({
                let rest = old(self)@.send_all(
                    seq![byte] + queue.bytes() + model::console_bytes(
                        progress::output_from(buf@, next),
                    ),
                );
                &&& result.1 == rest.step()
                &&& forall|reply: u32| #[trigger]
                    old(self)@.write_from(result.0, buf@, reply) == rest.after(reply)
            }),
    {
        proof {
            let others = queue.bytes() + model::console_bytes(progress::output_from(buf@, next));
            let bytes = seq![byte] + queue.bytes() + model::console_bytes(
                progress::output_from(buf@, next),
            );
            assert(bytes.drop_first() =~= others);
            assert forall|reply: u32| #[trigger]
                self@.send_all(bytes).after(reply) == self@.send(byte).after(reply).then_run(
                    self@.send_all(others),
                ) by {
                program::law_first_program_goes_first(
                    self@.send(byte),
                    self@.send_all(others),
                    reply,
                );
            }
        }
        let mut send = SendProgress::Start;
        let step = self.send(byte, &mut send, 0);
        (WriteProgress::Sending { byte, queue, next, send }, step)
    }

    fn read_status(&self, fifo_mode: bool) -> (request: Request)
        ensures
            request == self@.read_transmit_status(fifo_mode),
            request == self@.read_receive_status(fifo_mode),
    {
        if fifo_mode {
            self.read_reg(reg::UFSTAT)
        } else {
            self.read_reg(reg::UTRSTAT)
        }
    }
}

} // verus!
