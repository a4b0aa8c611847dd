//! Which requests an operation can make, whatever the device replies.

use vstd::prelude::*;

use crate::baud;
use crate::model;
use crate::model::{Port, FIFO_RESET_POLL_LIMIT, RX_DRAIN_LIMIT, TX_IDLE_POLL_LIMIT};
use crate::program;
use crate::program::{Program, Request};
use crate::registers::{reg, ucon, ufcon, uint, ulcon, umcon, utrstat};
use crate::variant::IrqStyle;

verus! {

impl Port {
    /// The requests of early initialization.
    pub open spec fn in_init_early(self, request: Request) -> bool {
        ||| request == self.read_reg(reg::UCON)
        ||| exists|value: u32|
            {
                &&& value & ucon::TXMODE_MASK == 0
                &&& request == #[trigger] self.write_reg(reg::UCON, value | ucon::TXMODE_CPU)
            }
    }

    /// The requests of full initialization.
    pub open spec fn in_init_full(self, request: Request) -> bool {
        &&& !self.skip_init
        &&& {
            ||| request == self.read_reg(reg::UTRSTAT)
            ||| request == Request::Pause
            ||| self.in_configure(request)
        }
    }

    /// The requests of full initialization once the transmitter is idle.
    pub open spec fn in_configure(self, request: Request) -> bool {
        ||| request == self.read_reg(reg::UCON)
        ||| exists|present: u32|
            request == self.write_reg(reg::UCON, #[trigger] self.initial_ucon(present))
        ||| self.in_settle(request)
    }

    /// The requests of full initialization once UCON has been written.
    pub open spec fn in_settle(self, request: Request) -> bool {
        ||| self.variant.irq == IrqStyle::S3c6400 && {
            ||| request == self.write_reg(reg::UINTM, uint::ALL)
            ||| request == self.write_reg(reg::UINTP, uint::ALL)
            ||| request == self.write_reg(reg::UINTSP, uint::ALL)
        }
        ||| self.variant.irq == IrqStyle::AppleS5l && request == self.write_reg(
            reg::UTRSTAT,
            utrstat::APPLE_ALL_FLAGS,
        )
        ||| request == self.write_reg(reg::UFCON, self.variant.ufcon_default | ufcon::RESET_BOTH)
        ||| request == self.read_reg(reg::UFCON)
        ||| request == Request::Pause
        ||| request == self.write_reg(reg::UFCON, self.variant.ufcon_default)
        ||| request == self.read_reg(reg::UMCON)
        ||| exists|value: u32|
            request == #[trigger] self.write_reg(reg::UMCON, value & !umcon::AUTO_FLOW)
        ||| self.in_program_line(request)
    }

    /// The requests that program the line format and the baud rate.
    pub open spec fn in_program_line(self, request: Request) -> bool {
        &&& self.clock_rate matches Some(clock_rate)
        &&& baud::baud_registers(clock_rate, self.baud_rate, self.variant.divisor) matches Some(
            (ubrdiv, second),
        )
        &&& {
            ||| request == self.write_reg(reg::ULCON, ulcon::CS8)
            ||| request == self.write_reg(reg::UBRDIV, ubrdiv)
            ||| second is Some && request == self.write_reg(reg::UFRACVAL, second->0)
        }
    }

    /// The requests of enabling interrupts.
    pub open spec fn in_enable_irq(self, request: Request) -> bool {
        ||| request == self.read_reg(reg::UFCON)
        ||| exists|value: u32|
            request == #[trigger] self.write_reg(
                reg::UFCON,
                value | ufcon::RX_RESET | ufcon::S5PV210_RXTRIG8,
            )
        ||| request == self.read_reg(reg::UCON)
        ||| exists|present: u32|
            request == self.write_reg(reg::UCON, #[trigger] self.receiving_ucon(present))
        ||| self.variant.irq == IrqStyle::S3c6400 && {
            ||| request == self.write_reg(reg::UINTP, uint::ALL)
            ||| request == self.write_reg(reg::UINTM, uint::ALL & !uint::RXD)
        }
        ||| self.variant.irq == IrqStyle::AppleS5l && request == self.write_reg(
            reg::UTRSTAT,
            utrstat::APPLE_ALL_FLAGS,
        )
    }

    /// The requests of receiving.
    pub open spec fn in_receive(self, request: Request) -> bool {
        ||| request == self.read_reg(reg::UFCON)
        ||| self.variant.irq == IrqStyle::AppleS5l && request == self.write_reg(
            reg::UTRSTAT,
            utrstat::APPLE_RX_FLAGS,
        )
        ||| request == self.read_reg(reg::UFSTAT)
        ||| request == self.read_reg(reg::UTRSTAT)
        ||| request == self.read_reg(reg::UERSTAT)
        ||| request == self.read_data()
        ||| request matches Request::Input { byte } && byte != 0
        ||| self.variant.irq == IrqStyle::S3c6400 && request == self.write_reg(
            reg::UINTP,
            uint::RXD,
        )
        ||| request == Request::Notify
    }

    /// The requests of sending.
    pub open spec fn in_send(self, data: u8, request: Request) -> bool {
        ||| request == self.read_reg(reg::UFCON)
        ||| request == self.read_reg(reg::UFSTAT)
        ||| request == self.read_reg(reg::UTRSTAT)
        ||| request == self.write_data(data)
    }

    /// The requests of writing output.
    pub open spec fn in_write(self, output: Seq<u8>, request: Request) -> bool {
        ||| request == self.read_reg(reg::UCON)
        ||| exists|i: int|
            0 <= i < model::console_bytes(output).len() && self.in_send(
                #[trigger] model::console_bytes(output)[i],
                request,
            )
    }

    /// An access within the register block, aligned, of 32 bits for control
    /// registers and of the variant's width for data registers. UTXH is
    /// only written and URXH only read.
    pub open spec fn proper_access(self, request: Request) -> bool {
        match request {
            Request::Read32 { address } => {
                let offset = address - self.base;
                &&& address % 4 == 0
                &&& 0 <= offset
                &&& offset + 4 <= reg::BLOCK_SIZE
                &&& offset != reg::UTXH
                &&& offset == reg::URXH ==> self.variant.wide_data
            },
            Request::Write32 { address, .. } => {
                let offset = address - self.base;
                &&& address % 4 == 0
                &&& 0 <= offset
                &&& offset + 4 <= reg::BLOCK_SIZE
                &&& offset != reg::URXH
                &&& offset == reg::UTXH ==> self.variant.wide_data
            },
            Request::Read8 { address } => {
                &&& address - self.base == reg::URXH
                &&& !self.variant.wide_data
            },
            Request::Write8 { address, .. } => {
                &&& address - self.base == reg::UTXH
                &&& !self.variant.wide_data
            },
            Request::Pause | Request::Input { .. } | Request::Notify => true,
        }
    }

    /// A write of a register that holds the line format or the divisor.
    pub open spec fn programs_line(self, request: Request) -> bool {
        request matches Request::Write32 { address, .. } && {
            ||| address == self.address(reg::ULCON)
            ||| address == self.address(reg::UBRDIV)
            ||| address == self.address(reg::UFRACVAL)
        }
    }
}

/// Early initialization only touches UCON, and writes it only to select a
/// transmit mode where there is none.
pub proof fn law_requests_of_init_early(port: Port)
    ensures
        port.init_early().only(|request: Request| port.in_init_early(request)),
{
    reveal_with_fuel(Program::only, 3);
    let allowed = |request: Request| port.in_init_early(request);
    assert forall|value: u32| port.select_transmit_mode(value).only(allowed) by {
        if value & ucon::TXMODE_MASK == 0 {
            assert(allowed(port.write_reg(reg::UCON, value | ucon::TXMODE_CPU)));
        }
    }
}

/// The requests that [`Port::in_init_full`] lists are all that full
/// initialization makes.
pub proof fn law_requests_of_init_full(port: Port)
    ensures
        port.init_full().only(|request: Request| port.in_init_full(request)),
{
    if !port.skip_init {
        lemma_requests_of_wait_idle(port, TX_IDLE_POLL_LIMIT as int);
    }
}

proof fn lemma_requests_of_wait_idle(port: Port, polls: int)
    requires
        !port.skip_init,
    ensures
        port.wait_idle(polls).only(|request: Request| port.in_init_full(request)),
    decreases polls,
{
    let allowed = |request: Request| port.in_init_full(request);
    if polls > 0 {
        reveal_with_fuel(Program::only, 3);
        lemma_requests_of_wait_idle(port, polls - 1);
        lemma_requests_of_configure(port);
        program::lemma_only_of_more(
            port.configure(),
            |request: Request| port.in_configure(request),
            allowed,
        );
        assert(allowed(port.read_reg(reg::UTRSTAT)));
        assert(allowed(Request::Pause));
    }
}

proof fn lemma_requests_of_configure(port: Port)
    ensures
        port.configure().only(|request: Request| port.in_configure(request)),
{
    reveal_with_fuel(Program::only, 3);
    let allowed = |request: Request| port.in_configure(request);
    lemma_requests_of_quiet_interrupts(port);
    program::lemma_only_of_more(
        port.quiet_interrupts(),
        |request: Request| port.in_settle(request),
        allowed,
    );
    assert(allowed(port.read_reg(reg::UCON)));
    assert forall|present: u32|
        allowed(port.write_reg(reg::UCON, #[trigger] port.initial_ucon(present))) by {
    }
}

/// The requests that [`Port::in_settle`] lists are all that full
/// initialization makes after it has written UCON.
pub proof fn lemma_requests_of_quiet_interrupts(port: Port)
    ensures
        port.quiet_interrupts().only(|request: Request| port.in_settle(request)),
{
    reveal_with_fuel(Program::only, 3);
    let allowed = |request: Request| port.in_settle(request);
    lemma_requests_of_wait_reset(port, FIFO_RESET_POLL_LIMIT as int);
    assert(allowed(
        port.write_reg(reg::UFCON, port.variant.ufcon_default | ufcon::RESET_BOTH),
    ));
    assert(port.reset_fifos().only(allowed));
    if port.variant.irq == IrqStyle::S3c6400 {
        assert(allowed(port.write_reg(reg::UINTSP, uint::ALL)));
        assert(port.clear_sources().only(allowed));
        assert(allowed(port.write_reg(reg::UINTP, uint::ALL)));
        assert(port.clear_pending().only(allowed));
        assert(allowed(port.write_reg(reg::UINTM, uint::ALL)));
    } else {
        assert(allowed(port.write_reg(reg::UTRSTAT, utrstat::APPLE_ALL_FLAGS)));
    }
    assert(port.quiet_interrupts().only(allowed));
}

proof fn lemma_requests_of_wait_reset(port: Port, polls: int)
    ensures
        port.wait_reset(polls).only(|request: Request| port.in_settle(request)),
    decreases polls,
{
    reveal_with_fuel(Program::only, 4);
    let allowed = |request: Request| port.in_settle(request);
    assert(port.program_line().only(allowed)) by {
        if let Some(clock_rate) = port.clock_rate {
            if let Some((ubrdiv, second)) = baud::baud_registers(
                clock_rate,
                port.baud_rate,
                port.variant.divisor,
            ) {
                assert(allowed(port.write_reg(reg::ULCON, ulcon::CS8)));
                assert(allowed(port.write_reg(reg::UBRDIV, ubrdiv)));
                if second is Some {
                    assert(allowed(port.write_reg(reg::UFRACVAL, second->0)));
                }
                assert(port.program_second_divisor(second).only(allowed));
                assert(port.program_divisor(ubrdiv, second).only(allowed));
            }
        }
    }
    assert(allowed(port.read_reg(reg::UMCON)));
    assert forall|value: u32|
        allowed(#[trigger] port.write_reg(reg::UMCON, value & !umcon::AUTO_FLOW)) by {
    }
    assert(port.disable_flow_control().only(allowed));
    assert(allowed(port.write_reg(reg::UFCON, port.variant.ufcon_default)));
    assert(port.enable_fifos().only(allowed));
    if polls > 0 {
        lemma_requests_of_wait_reset(port, polls - 1);
        assert(allowed(port.read_reg(reg::UFCON)));
        assert(allowed(Request::Pause));
        assert(Program::perform(Request::Pause, port.wait_reset(polls - 1)).only(allowed));
    }
}

/// The requests that [`Port::in_enable_irq`] lists are all that enabling
/// interrupts makes.
pub proof fn law_requests_of_enable_irq(port: Port)
    ensures
        port.enable_irq().only(|request: Request| port.in_enable_irq(request)),
{
    reveal_with_fuel(Program::only, 3);
    let allowed = |request: Request| port.in_enable_irq(request);
    assert forall|present: u32|
        port.enable_receiver(#[trigger] port.receiving_ucon(present)).only(allowed) by {
        let value = port.receiving_ucon(present);
        assert(allowed(port.write_reg(reg::UCON, value)));
        if port.variant.irq == IrqStyle::S3c6400 {
            assert(allowed(port.write_reg(reg::UINTP, uint::ALL)));
            assert(allowed(port.write_reg(reg::UINTM, uint::ALL & !uint::RXD)));
            assert(port.unmask_receiver().only(allowed));
        } else {
            assert(allowed(port.write_reg(reg::UTRSTAT, utrstat::APPLE_ALL_FLAGS)));
            assert(port.write_enables(value).only(allowed));
        }
    }
    assert(allowed(port.read_reg(reg::UCON)));
    assert(port.receive_by_interrupt().only(allowed));
    assert(allowed(port.read_reg(reg::UFCON)));
    assert forall|value: u32|
        allowed(
            #[trigger] port.write_reg(
                reg::UFCON,
                value | ufcon::RX_RESET | ufcon::S5PV210_RXTRIG8,
            ),
        ) by {
    }
}

/// The requests that [`Port::in_receive`] lists are all that receiving
/// makes. In particular, NUL characters are never handed to the console.
pub proof fn law_requests_of_receive(port: Port)
    ensures
        port.receive().only(|request: Request| port.in_receive(request)),
{
    reveal_with_fuel(Program::only, 2);
    let allowed = |request: Request| port.in_receive(request);
    assert(allowed(port.read_reg(reg::UFCON)));
    assert forall|fifo_mode: bool| (#[trigger] port.start_drain(fifo_mode)).only(allowed) by {
        lemma_requests_of_drain(port, RX_DRAIN_LIMIT as int, fifo_mode, false);
        if port.variant.irq == IrqStyle::AppleS5l {
            assert(allowed(port.write_reg(reg::UTRSTAT, utrstat::APPLE_RX_FLAGS)));
        }
    }
}

proof fn lemma_requests_of_drain(port: Port, limit: int, fifo_mode: bool, received: bool)
    ensures
        port.drain(limit, fifo_mode, received).only(|request: Request| port.in_receive(request)),
    decreases limit,
{
    reveal_with_fuel(Program::only, 2);
    let allowed = |request: Request| port.in_receive(request);
    assert(allowed(Request::Notify));
    assert(port.notify(received).only(allowed));
    if port.variant.irq == IrqStyle::S3c6400 {
        assert(allowed(port.write_reg(reg::UINTP, uint::RXD)));
    }
    assert(port.end_drain(received).only(allowed));
    if limit > 0 {
        let taken = port.drain(limit - 1, fifo_mode, true);
        let dropped = port.drain(limit - 1, fifo_mode, received);
        lemma_requests_of_drain(port, limit - 1, fifo_mode, true);
        lemma_requests_of_drain(port, limit - 1, fifo_mode, received);
        assert(allowed(port.read_data()));
        assert forall|errors: u32| (#[trigger] port.take_data(errors, taken, dropped)).only(
            allowed,
        ) by {
            assert forall|value: u32| model::accepted(errors, value) implies #[trigger] allowed(
                Request::Input { byte: model::data_byte(value) },
            ) by {
            }
        }
        assert(allowed(port.read_reg(reg::UERSTAT)));
        assert(port.take_character(taken, dropped).only(allowed));
        assert(allowed(port.read_receive_status(fifo_mode)));
    }
}

/// Sending only reads the status and writes the byte that it was given.
pub proof fn law_requests_of_send(port: Port, data: u8)
    ensures
        port.send(data).only(|request: Request| port.in_send(data, request)),
{
    reveal_with_fuel(Program::only, 3);
    let allowed = |request: Request| port.in_send(data, request);
    assert(allowed(port.read_reg(reg::UFCON)));
    assert(allowed(port.write_data(data)));
    assert forall|fifo_mode: bool| (#[trigger] port.wait_room(fifo_mode, data)).only(allowed) by {
        assert(allowed(port.read_transmit_status(fifo_mode)));
    }
}

/// Writing output reads UCON and sends the bytes that stand for the output.
pub proof fn law_requests_of_write(port: Port, output: Seq<u8>)
    ensures
        port.write(output).only(|request: Request| port.in_write(output, request)),
{
    reveal_with_fuel(Program::only, 2);
    let allowed = |request: Request| port.in_write(output, request);
    let bytes = model::console_bytes(output);
    lemma_requests_of_send_all(port, bytes, allowed);
    assert(allowed(port.read_reg(reg::UCON)));
}

proof fn lemma_requests_of_send_all(
    port: Port,
    bytes: Seq<u8>,
    allowed: spec_fn(Request) -> bool,
)
    requires
        forall|i: int, request: Request|
            0 <= i < bytes.len() && #[trigger] port.in_send(bytes[i], request) ==> allowed(request),
    ensures
        port.send_all(bytes).only(allowed),
    decreases bytes.len(),
{
    if bytes.len() > 0 {
        let tail = bytes.drop_first();
        assert forall|i: int, request: Request|
            0 <= i < tail.len() && #[trigger] port.in_send(tail[i], request) implies allowed(
            request,
        ) by {
            assert(tail[i] == bytes[i + 1]);
            assert(port.in_send(bytes[i + 1], request));
        }
        lemma_requests_of_send_all(port, tail, allowed);
        law_requests_of_send(port, bytes[0]);
        program::lemma_only_of_more(
            port.send(bytes[0]),
            |request: Request| port.in_send(bytes[0], request),
            allowed,
        );
        program::lemma_only_of_both(port.send(bytes[0]), port.send_all(tail), allowed);
    }
}

/// An operation makes only such requests as all those listed for it are.
pub proof fn lemma_only_of_listed(
    port: Port,
    data: u8,
    output: Seq<u8>,
    allowed: spec_fn(Request) -> bool,
)
    ensures
        (forall|request: Request| #[trigger] port.in_init_early(request) ==> allowed(request))
            ==> port.init_early().only(allowed),
        (forall|request: Request| #[trigger] port.in_init_full(request) ==> allowed(request))
            ==> port.init_full().only(allowed),
        (forall|request: Request| #[trigger] port.in_enable_irq(request) ==> allowed(request))
            ==> port.enable_irq().only(allowed),
        (forall|request: Request| #[trigger] port.in_receive(request) ==> allowed(request))
            ==> port.receive().only(allowed),
        (forall|request: Request| #[trigger] port.in_send(data, request) ==> allowed(request))
            ==> port.send(data).only(allowed),
        (forall|request: Request| #[trigger] port.in_write(output, request) ==> allowed(request))
            ==> port.write(output).only(allowed),
{
    if forall|request: Request| #[trigger] port.in_init_early(request) ==> allowed(request) {
        let listed = |request: Request| port.in_init_early(request);
        law_requests_of_init_early(port);
        program::lemma_only_of_more(port.init_early(), listed, allowed);
    }
    if forall|request: Request| #[trigger] port.in_init_full(request) ==> allowed(request) {
        let listed = |request: Request| port.in_init_full(request);
        law_requests_of_init_full(port);
        program::lemma_only_of_more(port.init_full(), listed, allowed);
    }
    if forall|request: Request| #[trigger] port.in_enable_irq(request) ==> allowed(request) {
        let listed = |request: Request| port.in_enable_irq(request);
        law_requests_of_enable_irq(port);
        program::lemma_only_of_more(port.enable_irq(), listed, allowed);
    }
    if forall|request: Request| #[trigger] port.in_receive(request) ==> allowed(request) {
        let listed = |request: Request| port.in_receive(request);
        law_requests_of_receive(port);
        program::lemma_only_of_more(port.receive(), listed, allowed);
    }
    if forall|request: Request| #[trigger] port.in_send(data, request) ==> allowed(request) {
        let listed = |request: Request| port.in_send(data, request);
        law_requests_of_send(port, data);
        program::lemma_only_of_more(port.send(data), listed, allowed);
    }
    if forall|request: Request| #[trigger] port.in_write(output, request) ==> allowed(request) {
        let listed = |request: Request| port.in_write(output, request);
        law_requests_of_write(port, output);
        program::lemma_only_of_more(port.write(output), listed, allowed);
    }
}

/// Every access of every operation lies within the register block and is
/// aligned. Control registers are accessed with 32 bits, data registers with
/// the variant's width.
pub proof fn law_accesses_are_proper(port: Port, data: u8, output: Seq<u8>)
    requires
        port.valid(),
    ensures
        port.init_early().only(|request: Request| port.proper_access(request)),
        port.init_full().only(|request: Request| port.proper_access(request)),
        port.enable_irq().only(|request: Request| port.proper_access(request)),
        port.receive().only(|request: Request| port.proper_access(request)),
        port.send(data).only(|request: Request| port.proper_access(request)),
        port.write(output).only(|request: Request| port.proper_access(request)),
{
    lemma_register_accesses_are_proper(port);
    lemma_only_of_listed(port, data, output, |request: Request| port.proper_access(request));
}

/// An aligned control register is properly accessed with 32 bits, a data
/// register in its own way.
proof fn lemma_register_accesses_are_proper(port: Port)
    requires
        port.valid(),
    ensures
        forall|register: usize|
            register % 4 == 0 && register < reg::BLOCK_SIZE && register != reg::UTXH && register
                != reg::URXH ==> port.proper_access(#[trigger] port.read_reg(register)),
        forall|register: usize, data: u32|
            register % 4 == 0 && register < reg::BLOCK_SIZE && register != reg::UTXH && register
                != reg::URXH ==> port.proper_access(#[trigger] port.write_reg(register, data)),
        port.proper_access(port.read_data()),
        forall|data: u8| port.proper_access(#[trigger] port.write_data(data)),
{
}

/// Without a known clock rate, where the baud rate cannot be made of it, or
/// where initialization is skipped, full initialization keeps the line
/// format and the divisor. The other operations always do. The clock that
/// is divided is another matter: all operations keep its selection, as
/// `law_clock_select_is_kept` says.
pub proof fn law_firmware_line_configuration_is_kept(port: Port, data: u8, output: Seq<u8>)
    requires
        port.valid(),
    ensures
        port.clock_rate is None || !port.line_is_programmable() || port.skip_init
            ==> port.init_full().only(|request: Request| !port.programs_line(request)),
        port.init_early().only(|request: Request| !port.programs_line(request)),
        port.enable_irq().only(|request: Request| !port.programs_line(request)),
        port.receive().only(|request: Request| !port.programs_line(request)),
        port.send(data).only(|request: Request| !port.programs_line(request)),
        port.write(output).only(|request: Request| !port.programs_line(request)),
{
    lemma_only_of_listed(port, data, output, |request: Request| !port.programs_line(request));
}

} // verus!
