//! How far an operation has come, and what is left of it.
//!
//! Between two steps an operation waits for the reply to one request. The
//! variants of its progress type name that request.

use vstd::prelude::*;

use crate::model;
use crate::model::{Port, FIFO_RESET_POLL_LIMIT, RX_DRAIN_LIMIT};
use crate::program::Program;

verus! {

/// Progress of `SerialPort::init_early`.
#[derive(Clone, Copy, Debug, PartialEq, Eq, Structural)]
pub enum InitEarlyProgress {
    /// Nothing has been requested.
    Start,
    ReadUcon,
    WriteUcon,
    /// The operation is over.
    Done,
}

/// Progress of `SerialPort::init_full`.
#[derive(Clone, Copy, Debug, PartialEq, Eq)]
pub enum InitFullProgress {
    /// Nothing has been requested.
    Start,
    /// A read of UTRSTAT, with `left` more to follow while it is not idle.
    ReadIdle { left: usize },
    PauseIdle { left: usize },
    ReadUcon,
    WriteUcon,
    WriteUintm,
    WriteUintp,
    WriteUintsp,
    /// A write of the Apple flags to UTRSTAT.
    WriteFlags,
    /// A write of the reset bits to UFCON.
    WriteReset,
    /// A read of UFCON, with `left` more to follow while it is in reset.
    ReadReset { left: usize },
    PauseReset { left: usize },
    WriteUfcon,
    ReadUmcon,
    WriteUmcon,
    /// A write of ULCON, with the divisor registers to follow.
    WriteUlcon { ubrdiv: u32, second: Option<u32> },
    WriteUbrdiv { second: Option<u32> },
    WriteSecondDivisor,
    /// The operation is over.
    Done { result: Result<(), ()> },
}

/// Progress of `SerialPort::enable_irq`.
#[derive(Clone, Copy, Debug, PartialEq, Eq, Structural)]
pub enum EnableIrqProgress {
    /// Nothing has been requested.
    Start,
    ReadUfcon,
    WriteUfcon,
    ReadUcon,
    /// A write of UCON, with the interrupt registers to follow.
    WriteUcon,
    WriteUintp,
    WriteUintm,
    /// A write of the Apple flags to UTRSTAT, with UCON to follow.
    WriteFlags { ucon: u32 },
    /// The last write of UCON.
    WriteEnables,
    /// The operation is over.
    Done,
}

/// Progress of `SerialPort::receive`. After the character at hand, `left`
/// more may be taken; `received` tells whether the console has got any.
#[derive(Clone, Copy, Debug, PartialEq, Eq, Structural)]
pub enum ReceiveProgress {
    /// Nothing has been requested.
    Start,
    ReadUfcon,
    /// A write of the Apple flags to UTRSTAT.
    WriteFlags { fifo_mode: bool },
    /// A read of UFSTAT or UTRSTAT.
    ReadStatus { fifo_mode: bool, left: usize, received: bool },
    ReadErrors { fifo_mode: bool, left: usize, received: bool },
    ReadData { fifo_mode: bool, left: usize, received: bool, errors: u32 },
    /// A character handed to the console.
    Input { fifo_mode: bool, left: usize },
    WriteUintp { received: bool },
    Notify,
    /// The operation is over.
    Done,
}

/// Progress of `SerialPort::send`.
#[derive(Clone, Copy, Debug, PartialEq, Eq, Structural)]
pub enum SendProgress {
    /// Nothing has been requested.
    Start,
    ReadUfcon,
    /// A read of UFSTAT or UTRSTAT.
    ReadStatus { fifo_mode: bool },
    WriteData,
    /// The operation is over.
    Done,
}

/// Bytes that are still to be sent for a byte of console output.
#[derive(Clone, Copy, Debug, PartialEq, Eq, Structural)]
pub enum Queue {
    Empty,
    One { first: u8 },
    Two { first: u8, second: u8 },
}

impl Queue {
    pub open spec fn bytes(self) -> Seq<u8> {
        match self {
            Queue::Empty => Seq::empty(),
            Queue::One { first } => seq![first],
            Queue::Two { first, second } => seq![first, second],
        }
    }
}

/// Progress of `SerialPort::write`.
#[derive(Clone, Copy, Debug, PartialEq, Eq, Structural)]
pub enum WriteProgress {
    /// Nothing has been requested.
    Start,
    ReadUcon,
    /// `byte` is being sent. The queue and then the output from `next` on
    /// are to follow.
    Sending { byte: u8, queue: Queue, next: usize, send: SendProgress },
    /// The operation is over.
    Done,
}

/// The output from `next` on.
pub open spec fn output_from(output: Seq<u8>, next: usize) -> Seq<u8> {
    if next <= output.len() {
        output.skip(next as int)
    } else {
        Seq::empty()
    }
}

impl Port {
    /// What is left of `init_early` once the pending request has got its
    /// reply.
    pub open spec fn init_early_from(self, progress: InitEarlyProgress, reply: u32) -> Program<()> {
        match progress {
            InitEarlyProgress::Start => self.init_early(),
            InitEarlyProgress::ReadUcon => self.init_early().after(reply),
            InitEarlyProgress::WriteUcon | InitEarlyProgress::Done => Program::Finish {
                result: (),
            },
        }
    }

    /// What is left of `init_full` once the pending request has got its
    /// reply.
    pub open spec fn init_full_from(self, progress: InitFullProgress, reply: u32) -> Program<
        Result<(), ()>,
    > {
        match progress {
            InitFullProgress::Start => self.init_full(),
            InitFullProgress::ReadIdle { left } => self.wait_idle(left + 1).after(reply),
            InitFullProgress::PauseIdle { left } => self.wait_idle(left as int),
            InitFullProgress::ReadUcon => self.configure().after(reply),
            InitFullProgress::WriteUcon => self.quiet_interrupts(),
            InitFullProgress::WriteUintm => self.clear_pending(),
            InitFullProgress::WriteUintp => self.clear_sources(),
            InitFullProgress::WriteUintsp | InitFullProgress::WriteFlags => self.reset_fifos(),
            InitFullProgress::WriteReset => self.wait_reset(FIFO_RESET_POLL_LIMIT as int),
            InitFullProgress::ReadReset { left } => self.wait_reset(left + 1).after(reply),
            InitFullProgress::PauseReset { left } => self.wait_reset(left as int),
            InitFullProgress::WriteUfcon => self.disable_flow_control(),
            InitFullProgress::ReadUmcon => self.disable_flow_control().after(reply),
            InitFullProgress::WriteUmcon => self.program_line(),
            InitFullProgress::WriteUlcon { ubrdiv, second } => self.program_divisor(ubrdiv, second),
            InitFullProgress::WriteUbrdiv { second } => self.program_second_divisor(second),
            InitFullProgress::WriteSecondDivisor => Program::Finish { result: Ok(()) },
            InitFullProgress::Done { result } => Program::Finish { result },
        }
    }

    /// What is left of `enable_irq` once the pending request has got its
    /// reply.
    pub open spec fn enable_irq_from(self, progress: EnableIrqProgress, reply: u32) -> Program<()> {
        match progress {
            EnableIrqProgress::Start => self.enable_irq(),
            EnableIrqProgress::ReadUfcon => self.enable_irq().after(reply),
            EnableIrqProgress::WriteUfcon => self.receive_by_interrupt(),
            EnableIrqProgress::ReadUcon => self.receive_by_interrupt().after(reply),
            EnableIrqProgress::WriteUcon => self.unmask_receiver(),
            EnableIrqProgress::WriteUintp => self.unmask_receiver().after(reply),
            EnableIrqProgress::WriteFlags { ucon } => self.write_enables(ucon),
            EnableIrqProgress::WriteUintm
            | EnableIrqProgress::WriteEnables
            | EnableIrqProgress::Done => Program::Finish { result: () },
        }
    }

    /// What is left of `receive` once the pending request has got its reply.
    pub open spec fn receive_from(self, progress: ReceiveProgress, reply: u32) -> Program<()> {
        match progress {
            ReceiveProgress::Start => self.receive(),
            ReceiveProgress::ReadUfcon => self.receive().after(reply),
            ReceiveProgress::WriteFlags { fifo_mode } => self.drain(
                RX_DRAIN_LIMIT as int,
                fifo_mode,
                false,
            ),
            ReceiveProgress::ReadStatus { fifo_mode, left, received } => self.drain(
                left + 1,
                fifo_mode,
                received,
            ).after(reply),
            ReceiveProgress::ReadErrors { fifo_mode, left, received } => self.take_character(
                self.drain(left as int, fifo_mode, true),
                self.drain(left as int, fifo_mode, received),
            ).after(reply),
            ReceiveProgress::ReadData { fifo_mode, left, received, errors } => self.take_data(
                errors,
                self.drain(left as int, fifo_mode, true),
                self.drain(left as int, fifo_mode, received),
            ).after(reply),
            ReceiveProgress::Input { fifo_mode, left } => self.drain(left as int, fifo_mode, true),
            ReceiveProgress::WriteUintp { received } => self.notify(received),
            ReceiveProgress::Notify | ReceiveProgress::Done => Program::Finish { result: () },
        }
    }

    /// What is left of `send` once the pending request has got its reply.
    pub open spec fn send_from(self, progress: SendProgress, data: u8, reply: u32) -> Program<()> {
        match progress {
            SendProgress::Start => self.send(data),
            SendProgress::ReadUfcon => self.send(data).after(reply),
            SendProgress::ReadStatus { fifo_mode } => self.wait_room(fifo_mode, data).after(reply),
            SendProgress::WriteData | SendProgress::Done => Program::Finish { result: () },
        }
    }

    /// What is left of `write` once the pending request has got its reply.
    pub open spec fn write_from(
        self,
        progress: WriteProgress,
        output: Seq<u8>,
        reply: u32,
    ) -> Program<()> {
        match progress {
            WriteProgress::Start => self.write(output),
            WriteProgress::ReadUcon => self.write(output).after(reply),
            WriteProgress::Sending { byte, queue, next, send } => self.send_from(
                send,
                byte,
                reply,
            ).then_run(
                self.send_all(queue.bytes() + model::console_bytes(output_from(output, next))),
            ),
            WriteProgress::Done => Program::Finish { result: () },
        }
    }
}

/// The steps that start an operation start its program, on the whole output
/// and whatever the first reply is. So the steps that follow run that
/// program, as `law_steps_run_the_program` says.
pub proof fn law_start_begins_the_operation(port: Port, data: u8, output: Seq<u8>, reply: u32)
    ensures
        port.init_early_from(InitEarlyProgress::Start, reply) == port.init_early(),
        port.init_full_from(InitFullProgress::Start, reply) == port.init_full(),
        port.enable_irq_from(EnableIrqProgress::Start, reply) == port.enable_irq(),
        port.receive_from(ReceiveProgress::Start, reply) == port.receive(),
        port.send_from(SendProgress::Start, data, reply) == port.send(data),
        port.write_from(WriteProgress::Start, output, reply) == port.write(output),
{
}

} // verus!
