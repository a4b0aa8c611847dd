//! What initialization does next, request by request.
//!
//! `past` are the requests made so far, one for each of the replies, and
//! `next` is what follows them.

use vstd::prelude::*;

use crate::baud;
use crate::laws::setup;
use crate::model::{Port, FIFO_RESET_POLL_LIMIT, TX_IDLE_POLL_LIMIT};
use crate::program;
use crate::program::{Program, Request, Step};
use crate::registers::{reg, ucon, ufcon, uint, umcon, utrstat};
use crate::variant::{IrqStyle, APPLE_ENABLES};

verus! {

impl Port {
    /// The last request was a write of the register.
    spec fn last_wrote(self, past: Seq<Request>, register: usize) -> bool {
        past.last() matches Request::Write32 { address, .. } && address == self.address(register)
    }

    /// What is left of full initialization after these requests and replies.
    spec fn initializing(self, past: Seq<Request>, replies: Seq<u32>) -> Program<Result<(), ()>> {
        let count = replies.len() as int;
        let polls = past.filter(
            |request: Request| request == self.read_reg(reg::UFCON),
        ).len() as int;
        let last = past.last();
        let reply = replies.last();
        let registers = baud::baud_registers(
            self.clock_rate->0,
            self.baud_rate,
            self.variant.divisor,
        )->0;
        if count == 0 {
            self.init_full()
        } else if last == self.read_reg(reg::UTRSTAT) {
            if reply & utrstat::TX_EMPTY != 0 {
                self.configure()
            } else {
                Program::perform(
                    Request::Pause,
                    self.wait_idle(TX_IDLE_POLL_LIMIT - (count + 1) / 2),
                )
            }
        } else if last == Request::Pause {
            if past[past.len() - 2] == self.read_reg(reg::UTRSTAT) {
                self.wait_idle(TX_IDLE_POLL_LIMIT - count / 2)
            } else {
                self.wait_reset(FIFO_RESET_POLL_LIMIT - polls)
            }
        } else if last == self.read_reg(reg::UCON) {
            Program::perform(
                self.write_reg(reg::UCON, self.initial_ucon(reply)),
                self.quiet_interrupts(),
            )
        } else if self.last_wrote(past, reg::UCON) {
            self.quiet_interrupts()
        } else if self.last_wrote(past, reg::UINTM) {
            self.clear_pending()
        } else if self.last_wrote(past, reg::UINTP) {
            self.clear_sources()
        } else if self.last_wrote(past, reg::UINTSP) || self.last_wrote(past, reg::UTRSTAT) {
            self.reset_fifos()
        } else if self.last_wrote(past, reg::UFCON) {
            if polls == 0 {
                self.wait_reset(FIFO_RESET_POLL_LIMIT as int)
            } else {
                self.disable_flow_control()
            }
        } else if last == self.read_reg(reg::UFCON) {
            if reply & ufcon::RESET_BOTH == 0 {
                self.enable_fifos()
            } else {
                Program::perform(Request::Pause, self.wait_reset(FIFO_RESET_POLL_LIMIT - polls))
            }
        } else if last == self.read_reg(reg::UMCON) {
            Program::perform(
                self.write_reg(reg::UMCON, reply & !umcon::AUTO_FLOW),
                self.program_line(),
            )
        } else if self.last_wrote(past, reg::UMCON) {
            self.program_line()
        } else if self.last_wrote(past, reg::ULCON) {
            self.program_divisor(registers.0, registers.1)
        } else if self.last_wrote(past, reg::UBRDIV) {
            self.program_second_divisor(registers.1)
        } else {
            Program::Finish { result: Ok(()) }
        }
    }

    /// The requests made so far are such as full initialization makes.
    spec fn may_have_initialized(self, past: Seq<Request>, replies: Seq<u32>) -> bool {
        let count = replies.len() as int;
        let polls = past.filter(
            |request: Request| request == self.read_reg(reg::UFCON),
        ).len() as int;
        let last = past.last();
        if count == 0 {
            polls == 0
        } else {
            ||| last == self.read_reg(reg::UTRSTAT) && polls == 0 && count % 2 == 1 && count < 2
                * TX_IDLE_POLL_LIMIT
            ||| last == Request::Pause && polls == 0 && count % 2 == 0 && count <= 2
                * TX_IDLE_POLL_LIMIT && past[count - 2] == self.read_reg(reg::UTRSTAT)
            ||| last == Request::Pause && 0 < polls <= FIFO_RESET_POLL_LIMIT && count >= 2
                && past[count - 2] == self.read_reg(reg::UFCON)
            ||| last == self.read_reg(reg::UFCON) && 0 < polls <= FIFO_RESET_POLL_LIMIT
            ||| last == self.read_reg(reg::UCON) && polls == 0
            ||| self.last_wrote(past, reg::UCON) && polls == 0
            ||| self.last_wrote(past, reg::UINTM) && polls == 0 && self.variant.irq
                == IrqStyle::S3c6400
            ||| self.last_wrote(past, reg::UINTP) && polls == 0
            ||| self.last_wrote(past, reg::UINTSP) && polls == 0
            ||| self.last_wrote(past, reg::UTRSTAT) && polls == 0 && self.variant.irq
                == IrqStyle::AppleS5l
            ||| self.last_wrote(past, reg::UFCON)
            ||| last == self.read_reg(reg::UMCON) && polls > 0
            ||| self.last_wrote(past, reg::UMCON) && polls > 0
            ||| self.last_wrote(past, reg::ULCON) && polls > 0 && self.line_is_programmable()
                && self.clock_rate is Some
            ||| self.last_wrote(past, reg::UBRDIV) && polls > 0 && self.line_is_programmable()
                && self.clock_rate is Some
            ||| self.last_wrote(past, reg::UFRACVAL) && polls > 0
        }
    }
}

proof fn lemma_init_full_course(port: Port, replies: Seq<u32>)
    requires
        port.valid(),
        !port.skip_init,
        port.init_full().trace(replies).len() == replies.len(),
    ensures
        port.may_have_initialized(port.init_full().trace(replies), replies),
        port.init_full().run(replies) == port.initializing(
            port.init_full().trace(replies),
            replies,
        ),
    decreases replies.len(),
{
    let program = port.init_full();
    if replies.len() == 0 {
        reveal(Seq::filter);
    } else {
        program::lemma_last_request(program, replies);
        lemma_init_full_course(port, replies.drop_last());
        lemma_initializing_goes_on(port, program.trace(replies), replies);
    }
}

#[verifier::rlimit(60)]
proof fn lemma_initializing_goes_on(port: Port, past: Seq<Request>, replies: Seq<u32>)
    requires
        port.valid(),
        !port.skip_init,
        past.len() == replies.len() > 0,
        port.may_have_initialized(past.drop_last(), replies.drop_last()),
        port.initializing(past.drop_last(), replies.drop_last()).step() == Step::<
            Result<(), ()>,
        >::Perform(past.last()),
    ensures
        port.may_have_initialized(past, replies),
        port.initializing(past, replies) == port.initializing(
            past.drop_last(),
            replies.drop_last(),
        ).after(replies.last()),
{
    let is_poll = |request: Request| request == port.read_reg(reg::UFCON);
    let before = past.drop_last();
    assert(past.filter(is_poll) == if is_poll(past.last()) {
        before.filter(is_poll).push(past.last())
    } else {
        before.filter(is_poll)
    }) by {
        reveal(Seq::filter);
    }
    if replies.len() > 1 {
        assert(before.last() == past[past.len() - 2]);
    }
}

/// Full initialization polls UTRSTAT until the transmitter is empty, with a
/// pause after each poll that finds it is not. It goes on to UCON as soon as
/// it is, and fails after a million polls.
pub proof fn law_initialization_waits_for_the_transmitter(port: Port, replies: Seq<u32>)
    requires
        port.valid(),
        !port.skip_init,
        port.init_full().trace(replies).len() == replies.len(),
    ensures
        ({
            let past = port.init_full().trace(replies);
            let next = port.init_full().run(replies).step();
            &&& replies.len() == 0 ==> next == Step::<Result<(), ()>>::Perform(
                port.read_reg(reg::UTRSTAT),
            )
            &&& replies.len() > 0 && past.last() == port.read_reg(reg::UTRSTAT) ==> next == Step::<
                Result<(), ()>,
            >::Perform(
                if replies.last() & 0x4 != 0 {
                    port.read_reg(reg::UCON)
                } else {
                    Request::Pause
                },
            )
            &&& replies.len() > 1 && past.last() == Request::Pause && past[past.len() - 2]
                == port.read_reg(reg::UTRSTAT) ==> next == if replies.len() < 2_000_000 {
                Step::Perform(port.read_reg(reg::UTRSTAT))
            } else {
                Step::Finished(Err::<(), ()>(()))
            }
        }),
{
    lemma_init_full_course(port, replies);
}

/// What was read from UCON is written back with the preserved bits of it,
/// the defaults and, but not on Apple hardware, the longest receive timeout.
/// The interrupts are masked and acknowledged after that, or the flags
/// cleared on Apple hardware, and both FIFOs put in reset.
pub proof fn law_initialization_installs_the_defaults(port: Port, replies: Seq<u32>)
    requires
        port.valid(),
        !port.skip_init,
        port.init_full().trace(replies).len() == replies.len() > 0,
    ensures
        ({
            let past = port.init_full().trace(replies);
            let next = port.init_full().run(replies).step();
            let value = (replies.last() & port.variant.ucon_preserve) | port.variant.ucon_default;
            let reset = port.write_reg(reg::UFCON, port.variant.ufcon_default | 0x6);
            let wrote = |register: usize|
                past.last() matches Request::Write32 { address, .. } && address == (port.base
                    + register) as usize;
            &&& past.last() == port.read_reg(reg::UCON) ==> next == Step::<Result<(), ()>>::Perform(
                port.write_reg(
                    reg::UCON,
                    match port.variant.irq {
                        IrqStyle::S3c6400 => value | 0xf000,
                        IrqStyle::AppleS5l => value,
                    },
                ),
            )
            &&& wrote(reg::UCON) ==> next == Step::<Result<(), ()>>::Perform(
                match port.variant.irq {
                    IrqStyle::S3c6400 => port.write_reg(reg::UINTM, 0xf),
                    IrqStyle::AppleS5l => port.write_reg(reg::UTRSTAT, 0x3f8),
                },
            )
            &&& wrote(reg::UINTM) ==> next == Step::<Result<(), ()>>::Perform(
                port.write_reg(reg::UINTP, 0xf),
            )
            &&& wrote(reg::UINTP) ==> next == Step::<Result<(), ()>>::Perform(
                port.write_reg(reg::UINTSP, 0xf),
            )
            &&& wrote(reg::UINTSP) || wrote(reg::UTRSTAT) ==> next == Step::<
                Result<(), ()>,
            >::Perform(reset)
        }),
{
    lemma_init_full_course(port, replies);
}

/// After the reset has been written, UFCON is polled until both reset bits
/// are clear, with a pause after each poll that finds one set, and ten
/// thousand times at most. Only then the defaults are written to UFCON, and
/// UMCON is next.
pub proof fn law_fifos_are_enabled_after_their_reset(port: Port, replies: Seq<u32>)
    requires
        port.valid(),
        !port.skip_init,
        port.init_full().trace(replies).len() == replies.len() > 0,
    ensures
        ({
            let past = port.init_full().trace(replies);
            let next = port.init_full().run(replies).step();
            let polls = past.filter(
                |request: Request| request == port.read_reg(reg::UFCON),
            ).len();
            let enable = port.write_reg(reg::UFCON, port.variant.ufcon_default);
            let wrote = |register: usize|
                past.last() matches Request::Write32 { address, .. } && address == (port.base
                    + register) as usize;
            &&& past.last() == port.read_reg(reg::UFCON) ==> next == Step::<
                Result<(), ()>,
            >::Perform(
                if replies.last() & 0x6 == 0 {
                    enable
                } else {
                    Request::Pause
                },
            )
            &&& replies.len() > 1 && past.last() == Request::Pause && past[past.len() - 2]
                == port.read_reg(reg::UFCON) ==> next == Step::<Result<(), ()>>::Perform(
                if polls < 10_000 {
                    port.read_reg(reg::UFCON)
                } else {
                    enable
                },
            )
            &&& wrote(reg::UFCON) ==> next == Step::<Result<(), ()>>::Perform(
                if polls == 0 {
                    port.read_reg(reg::UFCON)
                } else {
                    port.read_reg(reg::UMCON)
                },
            )
        }),
{
    lemma_init_full_course(port, replies);
}

/// What was read from UMCON is written back without auto flow control. Then
/// initialization succeeds where the clock rate is not known, and fails
/// where the baud rate cannot be made of it. Otherwise it writes the format,
/// the divisor and what there is for the second divisor register, and
/// succeeds.
pub proof fn law_initialization_programs_the_line(port: Port, replies: Seq<u32>)
    requires
        port.valid(),
        !port.skip_init,
        port.init_full().trace(replies).len() == replies.len() > 0,
    ensures
        ({
            let past = port.init_full().trace(replies);
            let next = port.init_full().run(replies).step();
            let done = Step::Finished(Ok::<(), ()>(()));
            let wrote = |register: usize|
                past.last() matches Request::Write32 { address, .. } && address == (port.base
                    + register) as usize;
            &&& past.last() == port.read_reg(reg::UMCON) ==> next == Step::<
                Result<(), ()>,
            >::Perform(port.write_reg(reg::UMCON, replies.last() & !0x10u32))
            &&& wrote(reg::UMCON) && port.clock_rate is None ==> next == done
            &&& port.clock_rate matches Some(clock_rate) ==> match baud::baud_registers(
                clock_rate,
                port.baud_rate,
                port.variant.divisor,
            ) {
                None => wrote(reg::UMCON) ==> next == Step::Finished(Err::<(), ()>(())),
                Some((ubrdiv, second)) => {
                    &&& wrote(reg::UMCON) ==> next == Step::<Result<(), ()>>::Perform(
                        port.write_reg(reg::ULCON, 0x3),
                    )
                    &&& wrote(reg::ULCON) ==> next == Step::<Result<(), ()>>::Perform(
                        port.write_reg(reg::UBRDIV, ubrdiv),
                    )
                    &&& wrote(reg::UBRDIV) ==> next == match second {
                        Some(fracval) => Step::Perform(port.write_reg(reg::UFRACVAL, fracval)),
                        None => done,
                    }
                    &&& wrote(reg::UFRACVAL) ==> next == done
                },
            }
        }),
{
    lemma_init_full_course(port, replies);
}

/// Early initialization reads UCON, and writes it back with the CPU as the
/// transmit mode if it has none.
pub proof fn law_early_initialization_selects_the_cpu(port: Port, replies: Seq<u32>)
    requires
        replies.len() >= 2,
    ensures
        port.init_early().run(replies) is Finish,
        port.init_early().trace(replies) == if replies[0] & 0xc == 0 {
            seq![port.read_reg(reg::UCON), port.write_reg(reg::UCON, replies[0] | 0x4)]
        } else {
            seq![port.read_reg(reg::UCON)]
        },
{
    setup::law_setup_finishes(port);
    program::law_bounded_run_finishes(port.init_early(), 2, replies);
    let program = port.init_early();
    if replies[0] & 0xc == 0 {
        program::lemma_two_requests(program, replies);
        program::lemma_finished_stays_finished(
            program.after(replies[0]).after(replies[1]),
            replies.skip(2),
        );
    } else {
        program::lemma_finished_stays_finished(program.after(replies[0]), replies.drop_first());
    }
    assert(program.trace(replies) =~= if replies[0] & 0xc == 0 {
        seq![port.read_reg(reg::UCON), port.write_reg(reg::UCON, replies[0] | 0x4)]
    } else {
        seq![port.read_reg(reg::UCON)]
    });
}

/// Interrupt setup writes UFCON back with the receive FIFO in reset and its
/// trigger level raised, and UCON with the CPU as the receive mode. On Apple
/// hardware it clears all flags before it writes UCON with the enables set.
/// Elsewhere UCON gets the longest receive timeout and loses the empty
/// interrupt and the DMA suspension, unless these bits are preserved; after
/// that the interrupts are acknowledged and the receive interrupt alone is
/// unmasked.
pub proof fn law_interrupt_setup_takes_the_receiver(port: Port, replies: Seq<u32>)
    requires
        replies.len() >= 6,
    ensures
        port.enable_irq().run(replies) is Finish,
        ({
            let value = (replies[2] & !0x3u32) | 0x1;
            let first = seq![
                port.read_reg(reg::UFCON),
                port.write_reg(reg::UFCON, replies[0] | 0x2 | 0x20),
                port.read_reg(reg::UCON),
            ];
            port.enable_irq().trace(replies) == match port.variant.irq {
                IrqStyle::S3c6400 => first + seq![
                    port.write_reg(
                        reg::UCON,
                        (value & !(0xfc00 & !port.variant.ucon_preserve)) | 0xf080,
                    ),
                    port.write_reg(reg::UINTP, 0xf),
                    port.write_reg(reg::UINTM, 0xe),
                ],
                IrqStyle::AppleS5l => first + seq![
                    port.write_reg(reg::UTRSTAT, 0x3f8),
                    port.write_reg(reg::UCON, value | 0x1a00),
                ],
            }
        }),
{
    setup::law_setup_finishes(port);
    program::law_bounded_run_finishes(port.enable_irq(), 6, replies);
    setup::law_enable_irq_acknowledges_first(port, replies);
    assert(ucon::RX_TIMEOUT_MASK | ucon::EMPTYINT_EN | ucon::DMASUS_EN == 0xfc00
        && ucon::RX_TIMEOUT_MAX | ucon::RX_TIMEOUT_EN == 0xf080 && APPLE_ENABLES == 0x1a00
        && uint::ALL & !uint::RXD == 0xe) by (bit_vector);
}

} // verus!
