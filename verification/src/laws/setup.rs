//! Initialization and interrupt setup.

use vstd::prelude::*;

use crate::baud;
use crate::model::{Port, FIFO_RESET_POLL_LIMIT, TX_IDLE_POLL_LIMIT};
use crate::program;
use crate::program::{Program, Request};
use crate::registers::{reg, ucon, ufcon, uint, ulcon, umcon, utrstat};
use crate::variant::{IrqStyle, APPLE_ENABLES};

verus! {

impl Port {
    /// The line can be programmed: either it is left alone or there is a
    /// divisor for the baud rate.
    pub open spec fn line_is_programmable(self) -> bool {
        self.clock_rate matches Some(clock_rate) ==> baud::baud_registers(
            clock_rate,
            self.baud_rate,
            self.variant.divisor,
        ) is Some
    }

    /// The `i`th request read UTRSTAT and found the transmitter idle.
    pub open spec fn saw_idle(self, trace: Seq<Request>, replies: Seq<u32>, i: int) -> bool {
        trace[i] == self.read_reg(reg::UTRSTAT) && replies[i] & utrstat::TX_EMPTY != 0
    }
}

/// Where initialization is skipped, full initialization succeeds at once and
/// makes no request.
pub proof fn law_skipped_initialization_leaves_the_port_alone(port: Port)
    requires
        port.skip_init,
    ensures
        port.init_full() == (Program::Finish { result: Ok::<(), ()>(()) }),
{
}

/// Full initialization writes nothing before it has seen the transmitter
/// idle, and its result tells whether it has seen it idle and could program
/// the line.
pub proof fn law_init_full_waits_for_an_idle_transmitter(port: Port, replies: Seq<u32>)
    requires
        !port.skip_init,
    ensures
        ({
            let trace = port.init_full().trace(replies);
            &&& forall|i: int|
                0 <= i < trace.len() && program::is_write(#[trigger] trace[i]) ==> exists|j: int|
                    0 <= j < i && #[trigger] port.saw_idle(trace, replies, j)
            &&& port.init_full().run(replies) matches Program::Finish { result } ==> {
                result is Ok <==> port.line_is_programmable() && exists|j: int|
                    0 <= j < trace.len() && #[trigger] port.saw_idle(trace, replies, j)
            }
        }),
{
    lemma_wait_idle(port, TX_IDLE_POLL_LIMIT as int, replies);
}

/// Full initialization fails, and has written nothing, when all its polls
/// find the transmitter busy. What the pauses in between reply is of no
/// account.
pub proof fn law_init_full_gives_up_on_a_busy_transmitter(port: Port, replies: Seq<u32>)
    requires
        !port.skip_init,
        replies.len() >= 2 * TX_IDLE_POLL_LIMIT,
        forall|k: int|
            0 <= k < TX_IDLE_POLL_LIMIT ==> #[trigger] replies[2 * k] & utrstat::TX_EMPTY == 0,
    ensures
        port.init_full().run(replies) == (Program::Finish { result: Err::<(), ()>(()) }),
        port.init_full().trace(replies).len() == 2 * TX_IDLE_POLL_LIMIT,
        forall|i: int|
            0 <= i < 2 * TX_IDLE_POLL_LIMIT ==> #[trigger] port.init_full().trace(replies)[i] == (
            if i % 2 == 0 {
                port.read_reg(reg::UTRSTAT)
            } else {
                Request::Pause
            }),
{
    lemma_busy(port, TX_IDLE_POLL_LIMIT as int, replies);
}

proof fn lemma_busy(port: Port, polls: int, replies: Seq<u32>)
    requires
        0 <= polls,
        replies.len() >= 2 * polls,
        forall|k: int| 0 <= k < polls ==> #[trigger] replies[2 * k] & utrstat::TX_EMPTY == 0,
    ensures
        port.wait_idle(polls).run(replies) == (Program::Finish { result: Err::<(), ()>(()) }),
        port.wait_idle(polls).trace(replies).len() == 2 * polls,
        forall|i: int|
            0 <= i < 2 * polls ==> #[trigger] port.wait_idle(polls).trace(replies)[i] == (if i % 2
                == 0 {
                port.read_reg(reg::UTRSTAT)
            } else {
                Request::Pause
            }),
    decreases polls,
{
    if polls == 0 {
        program::lemma_finished_stays_finished(port.wait_idle(polls), replies);
    } else {
        let rest = port.wait_idle(polls - 1);
        let tail = replies.skip(2);
        let first = 0int;
        assert(replies[2 * first] & utrstat::TX_EMPTY == 0);
        program::lemma_two_requests(port.wait_idle(polls), replies);
        assert forall|k: int| 0 <= k < polls - 1 implies #[trigger] tail[2 * k] & utrstat::TX_EMPTY
            == 0 by {
            let following = k + 1;
            assert(replies[2 * following] & utrstat::TX_EMPTY == 0);
        }
        lemma_busy(port, polls - 1, tail);
        assert forall|i: int| 0 <= i < 2 * polls implies #[trigger] port.wait_idle(polls).trace(
            replies,
        )[i] == (if i % 2 == 0 {
            port.read_reg(reg::UTRSTAT)
        } else {
            Request::Pause
        }) by {
            if i >= 2 {
                assert(port.wait_idle(polls).trace(replies)[i] == rest.trace(tail)[i - 2]);
            }
        }
    }
}

proof fn lemma_wait_idle(port: Port, polls: int, replies: Seq<u32>)
    ensures
        ({
            let trace = port.wait_idle(polls).trace(replies);
            &&& forall|i: int|
                0 <= i < trace.len() && program::is_write(#[trigger] trace[i]) ==> exists|j: int|
                    0 <= j < i && #[trigger] port.saw_idle(trace, replies, j)
            &&& port.wait_idle(polls).run(replies) matches Program::Finish { result } ==> {
                result is Ok <==> port.line_is_programmable() && exists|j: int|
                    0 <= j < trace.len() && #[trigger] port.saw_idle(trace, replies, j)
            }
        }),
    decreases polls,
{
    let program = port.wait_idle(polls);
    let trace = program.trace(replies);
    if polls <= 0 {
        program::lemma_finished_stays_finished(program, replies);
    } else if replies.len() > 0 {
        if replies[0] & utrstat::TX_EMPTY != 0 {
            assert(port.saw_idle(trace, replies, 0));
            let expected = |result: Result<(), ()>| result is Ok == port.line_is_programmable();
            lemma_result_of_configure(port);
            program::law_run_yields_expected_result(
                port.configure(),
                expected,
                replies.drop_first(),
            );
        } else if replies.len() == 1 {
            reveal_with_fuel(Program::trace, 2);
            reveal_with_fuel(Program::run, 2);
        } else {
            let rest = port.wait_idle(polls - 1);
            let tail = replies.skip(2);
            program::lemma_two_requests(program, replies);
            program::lemma_trace_length(rest, tail);
            lemma_wait_idle(port, polls - 1, tail);
            assert forall|j: int|
                0 <= j < rest.trace(tail).len() && #[trigger] port.saw_idle(
                    rest.trace(tail),
                    tail,
                    j,
                ) implies port.saw_idle(trace, replies, j + 2) by {
            }
            assert forall|j: int|
                0 <= j < trace.len() && #[trigger] port.saw_idle(trace, replies, j) implies j >= 2
                && port.saw_idle(rest.trace(tail), tail, j - 2) by {
            }
            assert forall|i: int|
                0 <= i < trace.len() && program::is_write(
                    #[trigger] trace[i],
                ) implies exists|j: int|
                0 <= j < i && #[trigger] port.saw_idle(trace, replies, j) by {
                assert(trace[i] == rest.trace(tail)[i - 2]);
                let j = choose|j: int|
                    0 <= j < i - 2 && #[trigger] port.saw_idle(rest.trace(tail), tail, j);
                assert(port.saw_idle(trace, replies, j + 2));
            }
        }
    }
}

proof fn lemma_result_of_configure(port: Port)
    ensures
        port.configure().yields_only(
            |result: Result<(), ()>| result is Ok == port.line_is_programmable(),
        ),
{
    reveal_with_fuel(Program::yields_only, 3);
    let expected = |result: Result<(), ()>| result is Ok == port.line_is_programmable();
    lemma_result_of_wait_reset(port, FIFO_RESET_POLL_LIMIT as int);
    assert(port.reset_fifos().yields_only(expected));
    assert(port.clear_sources().yields_only(expected));
    assert(port.clear_pending().yields_only(expected));
    assert(port.quiet_interrupts().yields_only(expected));
}

proof fn lemma_result_of_wait_reset(port: Port, polls: int)
    ensures
        port.wait_reset(polls).yields_only(
            |result: Result<(), ()>| result is Ok == port.line_is_programmable(),
        ),
    decreases polls,
{
    reveal_with_fuel(Program::yields_only, 4);
    let expected = |result: Result<(), ()>| result is Ok == port.line_is_programmable();
    assert(port.program_line().yields_only(expected)) by {
        if let Some(clock_rate) = port.clock_rate {
            if let Some((ubrdiv, second)) = baud::baud_registers(
                clock_rate,
                port.baud_rate,
                port.variant.divisor,
            ) {
                assert(port.program_second_divisor(second).yields_only(expected));
                assert(port.program_divisor(ubrdiv, second).yields_only(expected));
            }
        }
    }
    assert(port.disable_flow_control().yields_only(expected));
    assert(port.enable_fifos().yields_only(expected));
    if polls > 0 {
        lemma_result_of_wait_reset(port, polls - 1);
        assert(Program::perform(Request::Pause, port.wait_reset(polls - 1)).yields_only(expected));
    }
}

/// Early initialization is done after two requests, interrupt setup after
/// six, and full initialization after the polls that it allows itself and a
/// dozen more.
pub proof fn law_setup_finishes(port: Port)
    ensures
        port.init_early().finishes_within(2),
        port.enable_irq().finishes_within(6),
        port.init_full().finishes_within(2 * TX_IDLE_POLL_LIMIT + 2 * FIFO_RESET_POLL_LIMIT + 12),
{
    assert(port.init_early().finishes_within(2)) by {
        reveal_with_fuel(Program::finishes_within, 3);
        assert forall|value: u32| (#[trigger] port.select_transmit_mode(value)).finishes_within(
            1,
        ) by {
        }
    }
    assert(port.enable_irq().finishes_within(6)) by {
        reveal_with_fuel(Program::finishes_within, 3);
        assert(port.unmask_receiver().finishes_within(2));
        assert forall|value: u32| (#[trigger] port.enable_receiver(value)).finishes_within(3) by {
            program::lemma_bound_may_be_raised(port.write_enables(value), 1, 2);
        }
        assert(port.receive_by_interrupt().finishes_within(4));
    }
    if !port.skip_init {
        lemma_wait_idle_finishes(port, TX_IDLE_POLL_LIMIT as int);
    }
}

proof fn lemma_wait_idle_finishes(port: Port, polls: int)
    requires
        0 <= polls,
    ensures
        port.wait_idle(polls).finishes_within(2 * polls + 2 * FIFO_RESET_POLL_LIMIT + 12),
    decreases polls,
{
    if polls > 0 {
        let bound = 2 * FIFO_RESET_POLL_LIMIT + 12;
        reveal_with_fuel(Program::finishes_within, 3);
        lemma_wait_idle_finishes(port, polls - 1);
        lemma_configure_finishes(port);
        program::lemma_bound_may_be_raised(port.configure(), bound, 2 * polls - 1 + bound);
        assert(Program::perform(Request::Pause, port.wait_idle(polls - 1)).finishes_within(
            2 * polls - 1 + bound,
        ));
    }
}

proof fn lemma_configure_finishes(port: Port)
    ensures
        port.configure().finishes_within(2 * FIFO_RESET_POLL_LIMIT + 12),
{
    reveal_with_fuel(Program::finishes_within, 3);
    let bound = 2 * FIFO_RESET_POLL_LIMIT + 6;
    lemma_wait_reset_finishes(port, FIFO_RESET_POLL_LIMIT as int);
    assert(port.reset_fifos().finishes_within(bound + 1));
    assert(port.clear_sources().finishes_within(bound + 2));
    assert(port.clear_pending().finishes_within(bound + 3));
    program::lemma_bound_may_be_raised(port.reset_fifos(), bound + 1, bound + 3);
    assert(port.quiet_interrupts().finishes_within(bound + 4));
}

proof fn lemma_wait_reset_finishes(port: Port, polls: int)
    requires
        0 <= polls,
    ensures
        port.wait_reset(polls).finishes_within(2 * polls + 6),
    decreases polls,
{
    reveal_with_fuel(Program::finishes_within, 4);
    assert(port.program_line().finishes_within(3)) by {
        if let Some(clock_rate) = port.clock_rate {
            if let Some((ubrdiv, second)) = baud::baud_registers(
                clock_rate,
                port.baud_rate,
                port.variant.divisor,
            ) {
                assert(port.program_second_divisor(second).finishes_within(1));
                assert(port.program_divisor(ubrdiv, second).finishes_within(2));
            }
        }
    }
    assert(port.disable_flow_control().finishes_within(5));
    assert(port.enable_fifos().finishes_within(6));
    if polls > 0 {
        program::lemma_bound_may_be_raised(port.enable_fifos(), 6, 2 * polls + 5);
        lemma_wait_reset_finishes(port, polls - 1);
        assert(Program::perform(Request::Pause, port.wait_reset(polls - 1)).finishes_within(
            2 * polls + 5,
        ));
    }
}

/// Early initialization changes no field of UCON but the transmit mode, and
/// that only where none is selected.
pub proof fn law_init_early_selects_a_transmit_mode(port: Port, present: u32, reply: u32)
    ensures
        port.init_early().trace(seq![present, reply]) == if present & ucon::TXMODE_MASK == 0 {
            seq![
                port.read_reg(reg::UCON),
                port.write_reg(reg::UCON, present | ucon::TXMODE_CPU),
            ]
        } else {
            seq![port.read_reg(reg::UCON)]
        },
        present & ucon::TXMODE_MASK == 0 ==> (present | ucon::TXMODE_CPU) & ucon::TXMODE_MASK
            == ucon::TXMODE_CPU,
        (present | ucon::TXMODE_CPU) & !ucon::TXMODE_MASK == present & !ucon::TXMODE_MASK,
{
    assert(present & ucon::TXMODE_MASK == 0 ==> (present | ucon::TXMODE_CPU) & ucon::TXMODE_MASK
        == ucon::TXMODE_CPU) by (bit_vector);
    assert((present | ucon::TXMODE_CPU) & !ucon::TXMODE_MASK == present & !ucon::TXMODE_MASK)
        by (bit_vector);
    reveal_with_fuel(Program::trace, 3);
    let replies = seq![present, reply];
    assert(replies.drop_first() =~= seq![reply]);
    assert(replies.drop_first().drop_first() =~= Seq::<u32>::empty());
}

/// Full initialization preserves the clock select bits of UCON and sets all
/// others to the defaults, whatever they were.
pub proof fn law_init_full_preserves_clock_select(port: Port, present: u32, other: u32)
    requires
        port.variant.supported(),
    ensures
        port.initial_ucon(present) & port.variant.ucon_preserve == present
            & port.variant.ucon_preserve,
        port.initial_ucon(present) & !port.variant.ucon_preserve == port.initial_ucon(other)
            & !port.variant.ucon_preserve,
{
    port.variant.lemma_supported();
    let preserve = port.variant.ucon_preserve;
    let default = port.variant.ucon_default;
    let before = (present & preserve) | default;
    let after = (other & preserve) | default;
    assert(before & preserve == present & preserve && (before | ucon::RX_TIMEOUT_MAX) & preserve
        == present & preserve && before & !preserve == after & !preserve && (before
        | ucon::RX_TIMEOUT_MAX) & !preserve == (after | ucon::RX_TIMEOUT_MAX) & !preserve)
        by (bit_vector)
        requires
            before == (present & preserve) | default,
            after == (other & preserve) | default,
            default & preserve == 0,
            preserve & (ucon::RX_TIMEOUT_MAX | ucon::RX_TIMEOUT_EN) == 0,
    ;
}

/// Full initialization selects the CPU for receiving and transmitting, and
/// on Apple hardware clears all receive interrupt enables.
pub proof fn law_init_full_configures_both_directions(port: Port, present: u32)
    requires
        port.variant.supported(),
    ensures
        port.initial_ucon(present) & ucon::MODE_MASK == ucon::RXMODE_CPU | ucon::TXMODE_CPU,
        port.variant.irq == IrqStyle::AppleS5l ==> port.initial_ucon(present) & APPLE_ENABLES == 0,
{
    port.variant.lemma_supported();
    let preserve = port.variant.ucon_preserve;
    let default = port.variant.ucon_default;
    let value = (present & preserve) | default;
    assert(value & ucon::MODE_MASK == ucon::RXMODE_CPU | ucon::TXMODE_CPU && (value
        | ucon::RX_TIMEOUT_MAX) & ucon::MODE_MASK == ucon::RXMODE_CPU | ucon::TXMODE_CPU)
        by (bit_vector)
        requires
            value == (present & preserve) | default,
            default & ucon::MODE_MASK == ucon::RXMODE_CPU | ucon::TXMODE_CPU,
            preserve & ucon::MODE_MASK == 0,
    ;
    if port.variant.irq == IrqStyle::AppleS5l {
        assert(value & APPLE_ENABLES == 0) by (bit_vector)
            requires
                value == (present & preserve) | default,
                preserve == 0,
                default & APPLE_ENABLES == 0,
        ;
    }
}

/// Interrupt setup puts RX in CPU mode and keeps the transmit mode. It turns
/// on the receive timeout, and turns off the empty interrupt and the DMA
/// suspension where UCON has them, or sets the Apple receive interrupt
/// enables. It keeps all other bits of UCON.
pub proof fn law_enable_irq_takes_the_receiver(port: Port, present: u32)
    ensures
        port.receiving_ucon(present) & ucon::RXMODE_MASK == ucon::RXMODE_CPU,
        port.receiving_ucon(present) & ucon::TXMODE_MASK == present & ucon::TXMODE_MASK,
        match port.variant.irq {
            IrqStyle::S3c6400 => {
                let turned_off = (ucon::EMPTYINT_EN | ucon::DMASUS_EN)
                    & !port.variant.ucon_preserve;
                let others = !(ucon::RXMODE_MASK | ucon::RX_TIMEOUT_MASK | ucon::RX_TIMEOUT_EN
                    | turned_off);
                &&& port.receiving_ucon(present) & ucon::RX_TIMEOUT_MASK == ucon::RX_TIMEOUT_MAX
                &&& port.receiving_ucon(present) & ucon::RX_TIMEOUT_EN == ucon::RX_TIMEOUT_EN
                &&& port.receiving_ucon(present) & turned_off == 0
                &&& port.receiving_ucon(present) & others == present & others
            },
            IrqStyle::AppleS5l => {
                let others = !(ucon::RXMODE_MASK | APPLE_ENABLES);
                &&& port.receiving_ucon(present) & APPLE_ENABLES == APPLE_ENABLES
                &&& port.receiving_ucon(present) & others == present & others
            },
        },
{
    let preserve = port.variant.ucon_preserve;
    let value = (present & !ucon::RXMODE_MASK) | ucon::RXMODE_CPU;
    let timed = (value & !((ucon::RX_TIMEOUT_MASK | ucon::EMPTYINT_EN | ucon::DMASUS_EN)
        & !preserve)) | (ucon::RX_TIMEOUT_MAX | ucon::RX_TIMEOUT_EN);
    let turned_off = (ucon::EMPTYINT_EN | ucon::DMASUS_EN) & !preserve;
    let others = !(ucon::RXMODE_MASK | ucon::RX_TIMEOUT_MASK | ucon::RX_TIMEOUT_EN | turned_off);
    assert(timed & ucon::RXMODE_MASK == ucon::RXMODE_CPU && timed & ucon::TXMODE_MASK == present
        & ucon::TXMODE_MASK && timed & ucon::RX_TIMEOUT_MASK == ucon::RX_TIMEOUT_MAX && timed
        & ucon::RX_TIMEOUT_EN == ucon::RX_TIMEOUT_EN && timed & turned_off == 0 && timed & others
        == present & others) by (bit_vector)
        requires
            value == (present & !ucon::RXMODE_MASK) | ucon::RXMODE_CPU,
            timed == (value & !((ucon::RX_TIMEOUT_MASK | ucon::EMPTYINT_EN | ucon::DMASUS_EN)
                & !preserve)) | (ucon::RX_TIMEOUT_MAX | ucon::RX_TIMEOUT_EN),
            turned_off == (ucon::EMPTYINT_EN | ucon::DMASUS_EN) & !preserve,
            others == !(ucon::RXMODE_MASK | ucon::RX_TIMEOUT_MASK | ucon::RX_TIMEOUT_EN
                | turned_off),
    ;
    let enabled = value | APPLE_ENABLES;
    assert(enabled & ucon::RXMODE_MASK == ucon::RXMODE_CPU && enabled & ucon::TXMODE_MASK == present
        & ucon::TXMODE_MASK && enabled & APPLE_ENABLES == APPLE_ENABLES && enabled & !(
    ucon::RXMODE_MASK | APPLE_ENABLES) == present & !(ucon::RXMODE_MASK | APPLE_ENABLES))
        by (bit_vector)
        requires
            value == (present & !ucon::RXMODE_MASK) | ucon::RXMODE_CPU,
            enabled == value | APPLE_ENABLES,
    ;
}

/// Interrupt setup preserves the clock select, and with it the baud rate.
pub proof fn law_enable_irq_preserves_clock_select(port: Port, present: u32)
    requires
        port.variant.supported(),
    ensures
        port.receiving_ucon(present) & port.variant.ucon_preserve == present
            & port.variant.ucon_preserve,
{
    port.variant.lemma_supported();
    let preserve = port.variant.ucon_preserve;
    let value = (present & !ucon::RXMODE_MASK) | ucon::RXMODE_CPU;
    let timed = (value & !((ucon::RX_TIMEOUT_MASK | ucon::EMPTYINT_EN | ucon::DMASUS_EN)
        & !preserve)) | (ucon::RX_TIMEOUT_MAX | ucon::RX_TIMEOUT_EN);
    assert(timed & preserve == present & preserve) by (bit_vector)
        requires
            value == (present & !ucon::RXMODE_MASK) | ucon::RXMODE_CPU,
            timed == (value & !((ucon::RX_TIMEOUT_MASK | ucon::EMPTYINT_EN | ucon::DMASUS_EN)
                & !preserve)) | (ucon::RX_TIMEOUT_MAX | ucon::RX_TIMEOUT_EN),
            preserve & ucon::MODE_MASK == 0,
            preserve & (ucon::RX_TIMEOUT_MAX | ucon::RX_TIMEOUT_EN) == 0,
    ;
    if port.variant.irq == IrqStyle::AppleS5l {
        let enabled = value | APPLE_ENABLES;
        assert(enabled & preserve == present & preserve) by (bit_vector)
            requires
                preserve == 0,
        ;
    }
}

/// Interrupt setup keeps every bit of UFCON that is set, unmasks RX and
/// nothing else. Full initialization turns auto flow control off and keeps
/// the rest of UMCON.
pub proof fn law_masks_change_what_they_name(value: u32)
    ensures
        (value | ufcon::RX_RESET | ufcon::S5PV210_RXTRIG8) & value == value,
        (uint::ALL & !uint::RXD) & uint::RXD == 0,
        (uint::ALL & !uint::RXD) | uint::RXD == uint::ALL,
        (value & !umcon::AUTO_FLOW) & umcon::AUTO_FLOW == 0,
        (value & !umcon::AUTO_FLOW) | (value & umcon::AUTO_FLOW) == value,
{
    assert((value | ufcon::RX_RESET | ufcon::S5PV210_RXTRIG8) & value == value) by (bit_vector);
    assert((uint::ALL & !uint::RXD) & uint::RXD == 0 && (uint::ALL & !uint::RXD) | uint::RXD
        == uint::ALL) by (bit_vector);
    assert((value & !umcon::AUTO_FLOW) & umcon::AUTO_FLOW == 0 && (value & !umcon::AUTO_FLOW) | (
    value & umcon::AUTO_FLOW) == value) by (bit_vector);
}

/// Whatever UCON was, a port that an operation has written UCON of is
/// configured, so that output is written to it and not dropped.
pub proof fn law_set_up_ports_are_configured(port: Port, present: u32)
    requires
        port.variant.supported(),
    ensures
        (present | ucon::TXMODE_CPU) & ucon::MODE_MASK != 0,
        port.initial_ucon(present) & ucon::MODE_MASK != 0,
        port.receiving_ucon(present) & ucon::MODE_MASK != 0,
{
    law_init_full_configures_both_directions(port, present);
    law_enable_irq_takes_the_receiver(port, present);
    let value = port.receiving_ucon(present);
    assert((present | ucon::TXMODE_CPU) & ucon::MODE_MASK != 0) by (bit_vector);
    assert(ucon::RXMODE_CPU | ucon::TXMODE_CPU != 0) by (bit_vector);
    assert(value & ucon::MODE_MASK != 0) by (bit_vector)
        requires
            value & ucon::RXMODE_MASK == ucon::RXMODE_CPU,
    ;
}

impl Port {
    /// The writes of full initialization, in order, where UCON and UMCON
    /// were read as `present` and `flow`: the defaults and masked
    /// interrupts, the reset of the FIFOs, no auto flow control, and the
    /// line.
    pub open spec fn setup_writes(self, present: u32, flow: u32) -> Seq<Request> {
        self.settled_writes(present) + seq![
            self.write_reg(reg::UFCON, self.variant.ufcon_default),
            self.write_reg(reg::UMCON, flow & !umcon::AUTO_FLOW),
        ] + self.line_writes()
    }

    /// The writes of full initialization up to the reset of the FIFOs.
    pub open spec fn settled_writes(self, present: u32) -> Seq<Request> {
        let defaults = self.write_reg(reg::UCON, self.initial_ucon(present));
        let reset = self.write_reg(reg::UFCON, self.variant.ufcon_default | ufcon::RESET_BOTH);
        match self.variant.irq {
            IrqStyle::S3c6400 => seq![
                defaults,
                self.write_reg(reg::UINTM, uint::ALL),
                self.write_reg(reg::UINTP, uint::ALL),
                self.write_reg(reg::UINTSP, uint::ALL),
                reset,
            ],
            IrqStyle::AppleS5l => seq![
                defaults,
                self.write_reg(reg::UTRSTAT, utrstat::APPLE_ALL_FLAGS),
                reset,
            ],
        }
    }

    /// The writes of the 8N1 format and the divisor, where the clock rate is
    /// known and the baud rate can be made of it.
    pub open spec fn line_writes(self) -> Seq<Request> {
        match self.clock_rate {
            None => Seq::empty(),
            Some(clock_rate) => match baud::baud_registers(
                clock_rate,
                self.baud_rate,
                self.variant.divisor,
            ) {
                None => Seq::empty(),
                Some((ubrdiv, second)) => seq![
                    self.write_reg(reg::ULCON, ulcon::CS8),
                    self.write_reg(reg::UBRDIV, ubrdiv),
                ] + match second {
                    Some(fracval) => seq![self.write_reg(reg::UFRACVAL, fracval)],
                    None => Seq::empty(),
                },
            },
        }
    }

    /// Adds what a request of full initialization shows.
    spec fn note_setup(self, notes: SetupNotes, request: Request, reply: u32) -> SetupNotes {
        SetupNotes {
            ucon: if request == self.read_reg(reg::UCON) {
                Some(reply)
            } else {
                notes.ucon
            },
            umcon: if request == self.read_reg(reg::UMCON) {
                Some(reply)
            } else {
                notes.umcon
            },
            writes: if program::is_write(request) {
                notes.writes.push(request)
            } else {
                notes.writes
            },
        }
    }

    /// Where there is a result, it and the writes are those of full
    /// initialization.
    spec fn is_settled(self, notes: SetupNotes, result: Option<Result<(), ()>>) -> bool {
        result matches Some(result) ==> {
            &&& match notes.ucon {
                None => notes.writes == Seq::<Request>::empty(),
                Some(present) => notes.umcon matches Some(flow) && notes.writes
                    == self.setup_writes(present, flow),
            }
            &&& result is Ok <==> notes.ucon is Some && self.line_is_programmable()
        }
    }
}

/// The replies to reads of UCON and UMCON, and the writes.
struct SetupNotes {
    ucon: Option<u32>,
    umcon: Option<u32>,
    writes: Seq<Request>,
}

/// When full initialization is over, it has made its writes in order, with
/// what it read from UCON and UMCON, or none if it never got to read UCON.
/// It has succeeded if it got there and could program the line.
pub proof fn law_init_full_writes_in_order(port: Port, replies: Seq<u32>)
    requires
        port.valid(),
        !port.skip_init,
    ensures
        ({
            let trace = port.init_full().trace(replies);
            let ucon = program::last_reply(None, port.read_reg(reg::UCON), trace, replies);
            let umcon = program::last_reply(None, port.read_reg(reg::UMCON), trace, replies);
            port.init_full().run(replies) matches Program::Finish { result } ==> {
                &&& match ucon {
                    None => program::writes(trace) == Seq::<Request>::empty(),
                    Some(present) => umcon matches Some(flow) && program::writes(trace)
                        == port.setup_writes(present, flow),
                }
                &&& result is Ok <==> ucon is Some && port.line_is_programmable()
            }
        }),
{
    let notes = SetupNotes { ucon: None, umcon: None, writes: Seq::empty() };
    let update = |notes: SetupNotes, request: Request, reply: u32|
        port.note_setup(notes, request, reply);
    let expected = |notes: SetupNotes, result: Option<Result<(), ()>>|
        port.is_settled(notes, result);
    lemma_wait_idle_settles(port, TX_IDLE_POLL_LIMIT as int);
    program::law_run_meets_expectations(port.init_full(), notes, update, expected, replies);
    lemma_setup_notes(port, port.init_full().trace(replies), replies);
}

/// The notes hold what they are meant to.
proof fn lemma_setup_notes(port: Port, trace: Seq<Request>, replies: Seq<u32>)
    ensures
        program::observe(
            SetupNotes { ucon: None, umcon: None, writes: Seq::empty() },
            |notes: SetupNotes, request: Request, reply: u32|
                port.note_setup(notes, request, reply),
            trace,
            replies,
        ) == (SetupNotes {
            ucon: program::last_reply(None, port.read_reg(reg::UCON), trace, replies),
            umcon: program::last_reply(None, port.read_reg(reg::UMCON), trace, replies),
            writes: program::writes(trace),
        }),
    decreases trace.len(),
{
    if trace.len() > 0 {
        lemma_setup_notes(port, trace.drop_last(), replies);
    }
}

proof fn lemma_wait_idle_settles(port: Port, polls: int)
    requires
        port.valid(),
    ensures
        port.wait_idle(polls).always(
            SetupNotes { ucon: None, umcon: None, writes: Seq::empty() },
            |notes: SetupNotes, request: Request, reply: u32|
                port.note_setup(notes, request, reply),
            |notes: SetupNotes, result: Option<Result<(), ()>>|
                port.is_settled(notes, result),
        ),
    decreases polls,
{
    reveal_with_fuel(Program::always, 3);
    if polls > 0 {
        lemma_wait_idle_settles(port, polls - 1);
        lemma_configure_settles(port);
    }
}

proof fn lemma_configure_settles(port: Port)
    requires
        port.valid(),
    ensures
        port.configure().always(
            SetupNotes { ucon: None, umcon: None, writes: Seq::empty() },
            |notes: SetupNotes, request: Request, reply: u32|
                port.note_setup(notes, request, reply),
            |notes: SetupNotes, result: Option<Result<(), ()>>|
                port.is_settled(notes, result),
        ),
{
    reveal_with_fuel(Program::always, 3);
    let update = |notes: SetupNotes, request: Request, reply: u32|
        port.note_setup(notes, request, reply);
    let expected = |notes: SetupNotes, result: Option<Result<(), ()>>|
        port.is_settled(notes, result);
    let start = SetupNotes { ucon: None, umcon: None, writes: Seq::empty() };
    assert forall|present: u32|
        Program::perform(
            port.write_reg(reg::UCON, #[trigger] port.initial_ucon(present)),
            port.quiet_interrupts(),
        ).always(SetupNotes { ucon: Some(present), ..start }, update, expected) by {
        let writes = start.writes.push(port.write_reg(reg::UCON, port.initial_ucon(present)));
        let notes = SetupNotes { ucon: Some(present), umcon: None, writes };
        let reset = port.write_reg(reg::UFCON, port.variant.ufcon_default | ufcon::RESET_BOTH);
        match port.variant.irq {
            IrqStyle::S3c6400 => {
                let masked = writes.push(port.write_reg(reg::UINTM, uint::ALL));
                let cleared = masked.push(port.write_reg(reg::UINTP, uint::ALL));
                let quiet = cleared.push(port.write_reg(reg::UINTSP, uint::ALL));
                assert(quiet.push(reset) =~= port.settled_writes(present));
                lemma_wait_reset_settles(port, present, FIFO_RESET_POLL_LIMIT as int);
                assert(port.reset_fifos().always(
                    SetupNotes { writes: quiet, ..notes },
                    update,
                    expected,
                ));
                assert(port.clear_sources().always(
                    SetupNotes { writes: cleared, ..notes },
                    update,
                    expected,
                ));
                assert(port.clear_pending().always(
                    SetupNotes { writes: masked, ..notes },
                    update,
                    expected,
                ));
            },
            IrqStyle::AppleS5l => {
                let quiet = writes.push(
                    port.write_reg(reg::UTRSTAT, utrstat::APPLE_ALL_FLAGS),
                );
                assert(quiet.push(reset) =~= port.settled_writes(present));
                lemma_wait_reset_settles(port, present, FIFO_RESET_POLL_LIMIT as int);
                assert(port.reset_fifos().always(
                    SetupNotes { writes: quiet, ..notes },
                    update,
                    expected,
                ));
            },
        }
        assert(port.quiet_interrupts().always(notes, update, expected));
    }
}

proof fn lemma_wait_reset_settles(port: Port, present: u32, polls: int)
    requires
        port.valid(),
    ensures
        port.wait_reset(polls).always(
            SetupNotes {
                ucon: Some(present),
                umcon: None,
                writes: port.settled_writes(present),
            },
            |notes: SetupNotes, request: Request, reply: u32|
                port.note_setup(notes, request, reply),
            |notes: SetupNotes, result: Option<Result<(), ()>>|
                port.is_settled(notes, result),
        ),
    decreases polls,
{
    let update = |notes: SetupNotes, request: Request, reply: u32|
        port.note_setup(notes, request, reply);
    let expected = |notes: SetupNotes, result: Option<Result<(), ()>>|
        port.is_settled(notes, result);
    let notes = SetupNotes {
        ucon: Some(present),
        umcon: None,
        writes: port.settled_writes(present),
    };
    reveal_with_fuel(Program::always, 3);
    assert(port.enable_fifos().always(notes, update, expected)) by {
        let enabled = notes.writes.push(port.write_reg(reg::UFCON, port.variant.ufcon_default));
        assert forall|flow: u32|
            port.program_line().always(
                SetupNotes {
                    ucon: Some(present),
                    umcon: Some(flow),
                    writes: enabled.push(
                        port.write_reg(reg::UMCON, #[trigger] (flow & !umcon::AUTO_FLOW)),
                    ),
                },
                update,
                expected,
            ) by {
            lemma_program_line_settles(
                port,
                present,
                flow,
                enabled.push(port.write_reg(reg::UMCON, flow & !umcon::AUTO_FLOW)),
            );
        }
        assert(port.disable_flow_control().always(
            SetupNotes { writes: enabled, ..notes },
            update,
            expected,
        ));
    }
    if polls > 0 {
        lemma_wait_reset_settles(port, present, polls - 1);
        assert(Program::perform(Request::Pause, port.wait_reset(polls - 1)).always(
            notes,
            update,
            expected,
        ));
    }
}

proof fn lemma_program_line_settles(port: Port, present: u32, flow: u32, writes: Seq<Request>)
    requires
        port.valid(),
        writes =~= port.settled_writes(present) + seq![
            port.write_reg(reg::UFCON, port.variant.ufcon_default),
            port.write_reg(reg::UMCON, flow & !umcon::AUTO_FLOW),
        ],
    ensures
        port.program_line().always(
            SetupNotes { ucon: Some(present), umcon: Some(flow), writes },
            |notes: SetupNotes, request: Request, reply: u32|
                port.note_setup(notes, request, reply),
            |notes: SetupNotes, result: Option<Result<(), ()>>|
                port.is_settled(notes, result),
        ),
{
    reveal_with_fuel(Program::always, 4);
    let update = |notes: SetupNotes, request: Request, reply: u32|
        port.note_setup(notes, request, reply);
    let expected = |notes: SetupNotes, result: Option<Result<(), ()>>|
        port.is_settled(notes, result);
    let notes = SetupNotes { ucon: Some(present), umcon: Some(flow), writes };
    let settled = port.setup_writes(present, flow);
    if let Some(clock_rate) = port.clock_rate {
        if let Some((ubrdiv, second)) = baud::baud_registers(
            clock_rate,
            port.baud_rate,
            port.variant.divisor,
        ) {
            let framed = writes.push(port.write_reg(reg::ULCON, ulcon::CS8));
            let divided = framed.push(port.write_reg(reg::UBRDIV, ubrdiv));
            if let Some(fracval) = second {
                assert(divided.push(port.write_reg(reg::UFRACVAL, fracval)) =~= settled);
            } else {
                assert(divided =~= settled);
            }
            assert(port.program_second_divisor(second).always(
                SetupNotes { writes: divided, ..notes },
                update,
                expected,
            ));
            assert(port.program_divisor(ubrdiv, second).always(
                SetupNotes { writes: framed, ..notes },
                update,
                expected,
            ));
        } else {
            assert(writes =~= settled);
        }
    } else {
        assert(writes =~= settled);
    }
}

/// Interrupt setup resets the receive FIFO, puts RX in interrupt mode and
/// acknowledges stale interrupts before RX interrupts can occur, whether or
/// not initialization is skipped.
pub proof fn law_enable_irq_acknowledges_first(port: Port, replies: Seq<u32>)
    requires
        replies.len() >= 6,
    ensures
        port.enable_irq().trace(replies) == seq![
            port.read_reg(reg::UFCON),
            port.write_reg(
                reg::UFCON,
                replies[0] | ufcon::RX_RESET | ufcon::S5PV210_RXTRIG8,
            ),
            port.read_reg(reg::UCON),
        ] + match port.variant.irq {
            IrqStyle::S3c6400 => seq![
                port.write_reg(reg::UCON, port.receiving_ucon(replies[2])),
                port.write_reg(reg::UINTP, uint::ALL),
                port.write_reg(reg::UINTM, uint::ALL & !uint::RXD),
            ],
            IrqStyle::AppleS5l => seq![
                port.write_reg(reg::UTRSTAT, utrstat::APPLE_ALL_FLAGS),
                port.write_reg(reg::UCON, port.receiving_ucon(replies[2])),
            ],
        },
{
    let program = port.enable_irq();
    let value = port.receiving_ucon(replies[2]);
    let fourth = port.enable_receiver(value);
    let after_two = replies.skip(2);
    let after_three = after_two.drop_first();
    program::lemma_two_requests(program, replies);
    assert(port.receive_by_interrupt().trace(after_two) =~= seq![port.read_reg(reg::UCON)]
        + fourth.trace(after_three));
    program::lemma_two_requests(fourth, after_three);
    let last = fourth.after(after_three[0]).after(after_three[1]);
    let after_five = after_three.skip(2);
    if port.variant.irq == IrqStyle::S3c6400 {
        program::lemma_finished_stays_finished(last.after(after_five[0]), after_five.drop_first());
        assert(last.trace(after_five) =~= seq![
            port.write_reg(reg::UINTM, uint::ALL & !uint::RXD),
        ]);
    } else {
        program::lemma_finished_stays_finished(last, after_five);
    }
}

} // verus!
