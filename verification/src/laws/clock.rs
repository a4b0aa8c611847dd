//! The clock select in UCON.

use vstd::prelude::*;

use crate::laws::footprint;
use crate::laws::setup;
use crate::model::{Port, TX_IDLE_POLL_LIMIT};
use crate::program;
use crate::program::{Program, Request};
use crate::registers::{reg, ucon};
use crate::variant::IrqStyle;

verus! {

/// What UCON was last read as, and whether all its writes have kept the
/// clock select.
struct ClockNotes {
    present: Option<u32>,
    kept: bool,
}

impl Port {
    /// A write of UCON.
    pub open spec fn writes_ucon(self, request: Request) -> bool {
        request matches Request::Write32 { address, .. } && address == self.address(reg::UCON)
    }

    /// Every write of UCON has the clock select that UCON was last read
    /// with.
    pub open spec fn keeps_clock_select(self, trace: Seq<Request>, replies: Seq<u32>) -> bool {
        forall|i: int|
            0 <= i < trace.len() && self.writes_ucon(#[trigger] trace[i]) ==> {
                &&& program::last_reply(
                    None,
                    self.read_reg(reg::UCON),
                    trace.take(i),
                    replies,
                ) matches Some(present)
                &&& trace[i]->data & self.variant.ucon_preserve == present
                    & self.variant.ucon_preserve
            }
    }

    /// Adds what a request shows.
    spec fn note_clock(self, notes: ClockNotes, request: Request, reply: u32) -> ClockNotes {
        if request == self.read_reg(reg::UCON) {
            ClockNotes { present: Some(reply), ..notes }
        } else if self.writes_ucon(request) {
            ClockNotes {
                kept: notes.kept && notes.present is Some && request->data
                    & self.variant.ucon_preserve == notes.present->0 & self.variant.ucon_preserve,
                ..notes
            }
        } else {
            notes
        }
    }

    /// The clock select is kept at every point of every run.
    spec fn always_kept<R>(self, program: Program<R>, present: Option<u32>) -> bool {
        program.always(
            ClockNotes { present, kept: true },
            |notes: ClockNotes, request: Request, reply: u32|
                self.note_clock(notes, request, reply),
            |notes: ClockNotes, result: Option<R>| notes.kept,
        )
    }
}

/// Whatever an operation writes to UCON, the clock select is as it was read
/// from there. The variants that have no clock select keep nothing by this.
pub proof fn law_clock_select_is_kept(port: Port, data: u8, output: Seq<u8>, replies: Seq<u32>)
    requires
        port.valid(),
        port.variant.supported(),
    ensures
        port.keeps_clock_select(port.init_early().trace(replies), replies),
        port.keeps_clock_select(port.init_full().trace(replies), replies),
        port.keeps_clock_select(port.enable_irq().trace(replies), replies),
        port.keeps_clock_select(port.receive().trace(replies), replies),
        port.keeps_clock_select(port.send(data).trace(replies), replies),
        port.keeps_clock_select(port.write(output).trace(replies), replies),
{
    let other = |request: Request| !port.writes_ucon(request);
    lemma_init_early_keeps(port);
    lemma_kept_in_run(port, port.init_early(), replies);
    if port.skip_init {
        program::lemma_finished_stays_finished(port.init_full(), replies);
    } else {
        lemma_wait_idle_keeps(port, TX_IDLE_POLL_LIMIT as int);
        lemma_kept_in_run(port, port.init_full(), replies);
    }
    lemma_enable_irq_keeps(port);
    lemma_kept_in_run(port, port.enable_irq(), replies);
    footprint::lemma_only_of_listed(port, data, output, other);
    lemma_no_write_keeps(port, port.receive(), replies);
    lemma_no_write_keeps(port, port.send(data), replies);
    lemma_no_write_keeps(port, port.write(output), replies);
}

/// What never writes UCON keeps the clock select.
proof fn lemma_no_write_keeps<R>(port: Port, program: Program<R>, replies: Seq<u32>)
    requires
        program.only(|request: Request| !port.writes_ucon(request)),
    ensures
        port.keeps_clock_select(program.trace(replies), replies),
{
    let other = |request: Request| !port.writes_ucon(request);
    program::law_run_makes_only_allowed_requests(program, other, replies);
    assert forall|i: int| 0 <= i < program.trace(replies).len() implies !port.writes_ucon(
        #[trigger] program.trace(replies)[i],
    ) by {
        assert(other(program.trace(replies)[i]));
    }
}

/// What is always kept is kept in a run.
proof fn lemma_kept_in_run<R>(port: Port, program: Program<R>, replies: Seq<u32>)
    requires
        port.always_kept(program, None),
    ensures
        port.keeps_clock_select(program.trace(replies), replies),
{
    let notes = ClockNotes { present: None, kept: true };
    let update = |notes: ClockNotes, request: Request, reply: u32|
        port.note_clock(notes, request, reply);
    let expected = |notes: ClockNotes, result: Option<R>| notes.kept;
    program::law_run_meets_expectations(program, notes, update, expected, replies);
    lemma_clock_notes(port, program.trace(replies), replies);
}

/// The notes hold what they are meant to.
proof fn lemma_clock_notes(port: Port, trace: Seq<Request>, replies: Seq<u32>)
    ensures
        ({
            let notes = program::observe(
                ClockNotes { present: None, kept: true },
                |notes: ClockNotes, request: Request, reply: u32|
                    port.note_clock(notes, request, reply),
                trace,
                replies,
            );
            &&& notes.present == program::last_reply(
                None,
                port.read_reg(reg::UCON),
                trace,
                replies,
            )
            &&& notes.kept ==> port.keeps_clock_select(trace, replies)
        }),
    decreases trace.len(),
{
    let notes = program::observe(
        ClockNotes { present: None, kept: true },
        |notes: ClockNotes, request: Request, reply: u32| port.note_clock(notes, request, reply),
        trace,
        replies,
    );
    if trace.len() > 0 {
        let front = trace.drop_last();
        lemma_clock_notes(port, front, replies);
        if notes.kept {
            assert(port.keeps_clock_select(front, replies));
            assert forall|i: int|
                0 <= i < trace.len() && port.writes_ucon(#[trigger] trace[i]) implies {
                &&& program::last_reply(
                    None,
                    port.read_reg(reg::UCON),
                    trace.take(i),
                    replies,
                ) matches Some(present)
                &&& trace[i]->data & port.variant.ucon_preserve == present
                    & port.variant.ucon_preserve
            } by {
                if i < front.len() {
                    assert(port.writes_ucon(front[i]));
                    assert(trace.take(i) =~= front.take(i));
                } else {
                    assert(trace.take(i) =~= front);
                }
            }
        }
    }
}

/// What leaves UCON alone keeps the clock select.
proof fn lemma_untouched_keeps<R>(port: Port, program: Program<R>, present: Option<u32>)
    requires
        program.only(
            |request: Request|
                !port.writes_ucon(request) && request != port.read_reg(reg::UCON),
        ),
    ensures
        port.always_kept(program, present),
    decreases program,
{
    let other = |request: Request|
        !port.writes_ucon(request) && request != port.read_reg(reg::UCON);
    match program {
        Program::Finish { .. } => {},
        Program::Ask { request, next } => {
            assert(other(request));
            assert forall|reply: u32| port.always_kept(#[trigger] next(reply), present) by {
                lemma_untouched_keeps(port, next(reply), present);
            }
        },
        Program::Await { request, rest, .. } => {
            assert(other(request));
            lemma_untouched_keeps(port, *rest, present);
        },
    }
}

proof fn lemma_init_early_keeps(port: Port)
    requires
        port.variant.supported(),
    ensures
        port.always_kept(port.init_early(), None),
{
    port.variant.lemma_supported();
    let preserve = port.variant.ucon_preserve;
    assert forall|present: u32|
        port.always_kept(#[trigger] port.select_transmit_mode(present), Some(present)) by {
        assert((present | ucon::TXMODE_CPU) & preserve == present & preserve) by (bit_vector)
            requires
                preserve & ucon::MODE_MASK == 0,
        ;
        reveal_with_fuel(Program::always, 2);
    }
}

proof fn lemma_wait_idle_keeps(port: Port, polls: int)
    requires
        port.valid(),
        port.variant.supported(),
    ensures
        port.always_kept(port.wait_idle(polls), None),
    decreases polls,
{
    reveal_with_fuel(Program::always, 3);
    if polls > 0 {
        lemma_wait_idle_keeps(port, polls - 1);
        assert(port.always_kept(port.configure(), None)) by {
            let settle = |request: Request| port.in_settle(request);
            let other = |request: Request|
                !port.writes_ucon(request) && request != port.read_reg(reg::UCON);
            footprint::lemma_requests_of_quiet_interrupts(port);
            program::lemma_only_of_more(port.quiet_interrupts(), settle, other);
            assert forall|present: u32|
                port.always_kept(
                    Program::perform(
                        port.write_reg(reg::UCON, #[trigger] port.initial_ucon(present)),
                        port.quiet_interrupts(),
                    ),
                    Some(present),
                ) by {
                setup::law_init_full_preserves_clock_select(port, present, present);
                lemma_untouched_keeps(port, port.quiet_interrupts(), Some(present));
            }
        }
        assert(port.always_kept(
            Program::perform(Request::Pause, port.wait_idle(polls - 1)),
            None,
        ));
    }
}

proof fn lemma_enable_irq_keeps(port: Port)
    requires
        port.valid(),
        port.variant.supported(),
    ensures
        port.always_kept(port.enable_irq(), None),
{
    reveal_with_fuel(Program::always, 3);
    assert forall|present: u32|
        port.always_kept(
            port.enable_receiver(#[trigger] port.receiving_ucon(present)),
            Some(present),
        ) by {
        let value = port.receiving_ucon(present);
        setup::law_enable_irq_preserves_clock_select(port, present);
        if port.variant.irq == IrqStyle::S3c6400 {
            assert(port.always_kept(port.unmask_receiver(), Some(present)));
        } else {
            assert(port.always_kept(port.write_enables(value), Some(present)));
        }
    }
    assert(port.always_kept(port.receive_by_interrupt(), None));
}

} // verus!
