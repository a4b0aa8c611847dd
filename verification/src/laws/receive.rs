//! Receiving characters.

use vstd::prelude::*;

use crate::model;
use crate::model::{Port, RX_DRAIN_LIMIT};
use crate::program;
use crate::program::{Program, Request, Step};
use crate::registers::{reg, ufcon, uint, utrstat};
use crate::variant::IrqStyle;

verus! {

/// The characters handed to the console, in order.
pub open spec fn inputs(trace: Seq<Request>) -> Seq<u8>
    decreases trace.len(),
{
    if trace.len() == 0 {
        Seq::empty()
    } else if let Request::Input { byte } = trace[0] {
        seq![byte] + inputs(trace.drop_first())
    } else {
        inputs(trace.drop_first())
    }
}

impl Port {
    /// The characters that were taken from the receiver, right after their
    /// error status, and are fit for the console, in order.
    pub open spec fn accepted_bytes(self, trace: Seq<Request>, replies: Seq<u32>) -> Seq<u8>
        decreases trace.len(),
    {
        if trace.len() < 2 {
            Seq::empty()
        } else if trace[0] == self.read_reg(reg::UERSTAT) && trace[1] == self.read_data() {
            let others = self.accepted_bytes(trace.skip(2), replies.skip(2));
            if model::accepted(replies[0], replies[1]) {
                seq![model::data_byte(replies[1])] + others
            } else {
                others
            }
        } else {
            self.accepted_bytes(trace.drop_first(), replies.drop_first())
        }
    }

    /// Run with these replies, the program hands the console the characters
    /// that are fit for it, `limit` at most of them, and tells it so at the very
    /// end, if there were any or if `received` says that there have been.
    pub open spec fn delivers(
        self,
        program: Program<()>,
        received: bool,
        limit: int,
        replies: Seq<u32>,
    ) -> bool {
        let trace = program.trace(replies);
        let handed = inputs(trace);
        let taken = self.accepted_bytes(trace, replies);
        &&& handed.is_prefix_of(taken)
        &&& handed.len() <= limit
        &&& forall|i: int|
            0 <= i < trace.len() && #[trigger] trace[i] == Request::Notify ==> i == trace.len() - 1
                && program.run(replies) is Finish
        &&& program.run(replies) is Finish ==> {
            &&& handed == taken
            &&& trace.len() > 0 && trace.last() == Request::Notify <==> received || handed.len() > 0
        }
    }
}

/// Receiving hands the console the characters that it took without errors
/// and that are not NUL, in order, and no more than it may take at a time.
/// It tells the console at the end, if there were any.
pub proof fn law_receive_delivers_accepted_characters(port: Port, replies: Seq<u32>)
    requires
        port.valid(),
    ensures
        port.delivers(port.receive(), false, RX_DRAIN_LIMIT as int, replies),
{
    if replies.len() > 0 {
        let fifo_mode = replies[0] & ufcon::FIFO_EN != 0;
        let tail = replies.drop_first();
        if port.variant.irq == IrqStyle::AppleS5l {
            if tail.len() > 0 {
                lemma_drain(port, RX_DRAIN_LIMIT as int, fifo_mode, false, tail.drop_first());
                lemma_leading_request(
                    port,
                    port.start_drain(fifo_mode),
                    false,
                    RX_DRAIN_LIMIT as int,
                    tail,
                );
            } else {
                assert(port.delivers(
                    port.start_drain(fifo_mode),
                    false,
                    RX_DRAIN_LIMIT as int,
                    tail,
                ));
            }
        } else {
            lemma_drain(port, RX_DRAIN_LIMIT as int, fifo_mode, false, tail);
        }
        lemma_leading_request(port, port.receive(), false, RX_DRAIN_LIMIT as int, replies);
    }
}

/// Receiving is done after at most four requests for each character and
/// three more.
pub proof fn law_receive_finishes(port: Port)
    ensures
        port.receive().finishes_within(4 * RX_DRAIN_LIMIT + 3),
{
    reveal_with_fuel(Program::finishes_within, 2);
    assert forall|fifo_mode: bool|
        (#[trigger] port.start_drain(fifo_mode)).finishes_within(4 * RX_DRAIN_LIMIT + 2) by {
        lemma_drain_finishes(port, RX_DRAIN_LIMIT as int, fifo_mode, false);
        if port.variant.irq == IrqStyle::AppleS5l {
            assert(port.start_drain(fifo_mode).finishes_within(4 * RX_DRAIN_LIMIT + 2));
        }
    }
}

proof fn lemma_drain_finishes(port: Port, limit: int, fifo_mode: bool, received: bool)
    requires
        0 <= limit,
    ensures
        port.drain(limit, fifo_mode, received).finishes_within(
            4 * limit + if port.variant.irq == IrqStyle::S3c6400 {
                2int
            } else {
                1int
            },
        ),
    decreases limit,
{
    reveal_with_fuel(Program::finishes_within, 3);
    let bound = if port.variant.irq == IrqStyle::S3c6400 {
        2int
    } else {
        1int
    };
    assert(port.notify(received).finishes_within(1));
    assert(port.end_drain(received).finishes_within(bound));
    if limit > 0 {
        let taken = port.drain(limit - 1, fifo_mode, true);
        let dropped = port.drain(limit - 1, fifo_mode, received);
        lemma_drain_finishes(port, limit - 1, fifo_mode, true);
        lemma_drain_finishes(port, limit - 1, fifo_mode, received);
        program::lemma_bound_may_be_raised(
            dropped,
            4 * (limit - 1) + bound,
            4 * (limit - 1) + bound + 1,
        );
        program::lemma_bound_may_be_raised(port.end_drain(received), bound, 4 * limit + bound - 1);
        assert forall|errors: u32|
            (#[trigger] port.take_data(errors, taken, dropped)).finishes_within(
                4 * limit + bound - 2,
            ) by {
        }
        assert(port.take_character(taken, dropped).finishes_within(4 * limit + bound - 1));
    }
}

/// A request in front that neither belongs to a character nor to the end
/// changes nothing about what is delivered.
proof fn lemma_leading_request(
    port: Port,
    program: Program<()>,
    received: bool,
    limit: int,
    replies: Seq<u32>,
)
    requires
        replies.len() > 0,
        program.step() matches Step::Perform(request) && request != port.read_reg(reg::UERSTAT)
            && request !is Input && request != Request::Notify,
        port.delivers(program.after(replies[0]), received, limit, replies.drop_first()),
    ensures
        port.delivers(program, received, limit, replies),
{
    let rest = program.after(replies[0]);
    let tail = replies.drop_first();
    let trace = program.trace(replies);
    let later = rest.trace(tail);
    assert(trace.drop_first() =~= later);
    assert(port.accepted_bytes(trace, replies) =~= port.accepted_bytes(later, tail));
    assert forall|i: int|
        0 <= i < trace.len() && #[trigger] trace[i] == Request::Notify implies i == trace.len() - 1
        && program.run(replies) is Finish by {
        assert(trace[i] == later[i - 1]);
    }
}

proof fn lemma_notify(port: Port, received: bool, limit: int, replies: Seq<u32>)
    requires
        0 <= limit,
    ensures
        port.delivers(port.notify(received), received, limit, replies),
{
    let program = port.notify(received);
    if !received {
        program::lemma_finished_stays_finished(program, replies);
    } else if replies.len() > 0 {
        program::lemma_finished_stays_finished(program.after(replies[0]), replies.drop_first());
        assert(program.trace(replies) =~= seq![Request::Notify]);
        assert(program.trace(replies).drop_first() =~= Seq::<Request>::empty());
        reveal_with_fuel(inputs, 2);
    }
}

proof fn lemma_end_drain(port: Port, received: bool, limit: int, replies: Seq<u32>)
    requires
        0 <= limit,
    ensures
        port.delivers(port.end_drain(received), received, limit, replies),
{
    if port.variant.irq == IrqStyle::S3c6400 {
        if replies.len() > 0 {
            lemma_notify(port, received, limit, replies.drop_first());
            lemma_leading_request(port, port.end_drain(received), received, limit, replies);
        }
    } else {
        lemma_notify(port, received, limit, replies);
    }
}

proof fn lemma_drain(port: Port, limit: int, fifo_mode: bool, received: bool, replies: Seq<u32>)
    requires
        port.valid(),
        0 <= limit,
    ensures
        port.delivers(port.drain(limit, fifo_mode, received), received, limit, replies),
    decreases limit,
{
    if limit == 0 {
        lemma_end_drain(port, received, limit, replies);
    } else if replies.len() > 0 {
        let program = port.drain(limit, fifo_mode, received);
        let tail = replies.drop_first();
        if replies[0] & port.received_mask(fifo_mode) == 0 {
            lemma_end_drain(port, received, limit, tail);
        } else {
            let taken = port.drain(limit - 1, fifo_mode, true);
            let dropped = port.drain(limit - 1, fifo_mode, received);
            assert forall|later: Seq<u32>| #[trigger]
                port.delivers(taken, true, limit - 1, later) by {
                lemma_drain(port, limit - 1, fifo_mode, true, later);
            }
            assert forall|later: Seq<u32>| #[trigger]
                port.delivers(dropped, received, limit - 1, later) by {
                lemma_drain(port, limit - 1, fifo_mode, received, later);
            }
            lemma_take_character(port, taken, dropped, received, limit, tail);
        }
        lemma_leading_request(port, program, received, limit, replies);
    }
}

proof fn lemma_take_character(
    port: Port,
    taken: Program<()>,
    dropped: Program<()>,
    received: bool,
    limit: int,
    replies: Seq<u32>,
)
    requires
        port.valid(),
        0 < limit,
        forall|later: Seq<u32>| #[trigger] port.delivers(taken, true, limit - 1, later),
        forall|later: Seq<u32>| #[trigger] port.delivers(dropped, received, limit - 1, later),
    ensures
        port.delivers(port.take_character(taken, dropped), received, limit, replies),
{
    let program = port.take_character(taken, dropped);
    let trace = program.trace(replies);
    if replies.len() == 0 {
    } else if replies.len() == 1 {
        assert(replies.drop_first() =~= Seq::<u32>::empty());
        assert(trace =~= seq![port.read_reg(reg::UERSTAT)]) by {
            reveal_with_fuel(Program::trace, 2);
        }
        assert(trace.drop_first() =~= Seq::<Request>::empty());
        reveal_with_fuel(inputs, 2);
        reveal_with_fuel(Program::run, 2);
    } else {
        let tail = replies.skip(2);
        let next = program.after(replies[0]).after(replies[1]);
        let later = next.trace(tail);
        let head = seq![port.read_reg(reg::UERSTAT), port.read_data()];
        program::lemma_two_requests(program, replies);
        assert(trace == head + later);
        assert(trace.skip(2) =~= later);
        assert(trace.drop_first().drop_first() =~= later);
        assert(inputs(trace) == inputs(later)) by {
            reveal_with_fuel(inputs, 3);
        }
        assert forall|i: int|
            0 <= i < trace.len() && #[trigger] trace[i] == Request::Notify implies i >= 2
            && later[i - 2] == Request::Notify by {
        }
        if !model::accepted(replies[0], replies[1]) {
            assert(port.delivers(dropped, received, limit - 1, tail));
        } else if tail.len() == 0 {
            assert(later =~= Seq::<Request>::empty());
            assert(inputs(later) =~= Seq::<u8>::empty());
        } else {
            let byte = model::data_byte(replies[1]);
            let last = tail.drop_first();
            let others = taken.trace(last);
            assert(port.delivers(taken, true, limit - 1, last));
            assert(later == seq![Request::Input { byte }] + others);
            assert(later.drop_first() =~= others);
            assert(inputs(later) == seq![byte] + inputs(others));
            assert(port.accepted_bytes(later, tail) =~= port.accepted_bytes(others, last));
            assert(port.accepted_bytes(trace, replies) == seq![byte] + port.accepted_bytes(
                others,
                last,
            ));
            assert forall|i: int|
                0 <= i < later.len() && #[trigger] later[i] == Request::Notify implies i >= 1
                && others[i - 1] == Request::Notify by {
            }
        }
    }
}

impl Port {
    /// The one write that a run of the program makes is the acknowledgement
    /// in UINTP. Nothing but the notification of the console follows it, and
    /// the program does not finish without it.
    pub open spec fn acknowledges_last(self, program: Program<()>, replies: Seq<u32>) -> bool {
        let trace = program.trace(replies);
        let acknowledgement = self.write_reg(reg::UINTP, uint::RXD);
        &&& forall|i: int|
            0 <= i < trace.len() && program::is_write(#[trigger] trace[i]) ==> trace[i]
                == acknowledgement && trace.len() <= i + 2
        &&& forall|i: int, j: int|
            0 <= i < j < trace.len() && program::is_write(#[trigger] trace[i])
                ==> #[trigger] trace[j] == Request::Notify
        &&& program.run(replies) is Finish ==> trace.contains(acknowledgement)
    }
}

/// Receiving acknowledges the receive interrupt by a single write. On Apple
/// hardware that is the second request, before any character is taken;
/// elsewhere only the notification of the console may follow it.
pub proof fn law_receive_acknowledges_once(port: Port, replies: Seq<u32>)
    ensures
        match port.variant.irq {
            IrqStyle::S3c6400 => port.acknowledges_last(port.receive(), replies),
            IrqStyle::AppleS5l => {
                let trace = port.receive().trace(replies);
                &&& forall|i: int|
                    0 <= i < trace.len() ==> (program::is_write(#[trigger] trace[i]) <==> i == 1)
                &&& trace.len() > 1 ==> trace[1] == port.write_reg(
                    reg::UTRSTAT,
                    utrstat::APPLE_RX_FLAGS,
                )
                &&& port.receive().run(replies) is Finish ==> trace.len() > 1
            },
        },
{
    if replies.len() > 0 {
        let fifo_mode = replies[0] & ufcon::FIFO_EN != 0;
        let tail = replies.drop_first();
        let drain = port.drain(RX_DRAIN_LIMIT as int, fifo_mode, false);
        if port.variant.irq == IrqStyle::S3c6400 {
            lemma_drain_acknowledges(port, RX_DRAIN_LIMIT as int, fifo_mode, false, tail);
            lemma_request_before_acknowledgement(port, port.receive(), replies);
        } else if replies.len() == 1 {
            reveal_with_fuel(Program::trace, 2);
            reveal_with_fuel(Program::run, 2);
        } else {
            let later = replies.skip(2);
            let no_write = |request: Request| !program::is_write(request);
            program::lemma_two_requests(port.receive(), replies);
            lemma_drain_writes_nothing(port, RX_DRAIN_LIMIT as int, fifo_mode, false);
            program::law_run_makes_only_allowed_requests(drain, no_write, later);
            let trace = port.receive().trace(replies);
            assert forall|i: int| 0 <= i < trace.len() implies (program::is_write(
                #[trigger] trace[i],
            ) <==> i == 1) by {
                if i >= 2 {
                    assert(trace[i] == drain.trace(later)[i - 2]);
                    assert(no_write(drain.trace(later)[i - 2]));
                }
            }
        }
    }
}

proof fn lemma_drain_writes_nothing(port: Port, limit: int, fifo_mode: bool, received: bool)
    requires
        port.variant.irq == IrqStyle::AppleS5l,
    ensures
        port.drain(limit, fifo_mode, received).only(|request: Request| !program::is_write(request)),
    decreases limit,
{
    let no_write = |request: Request| !program::is_write(request);
    reveal_with_fuel(Program::only, 3);
    assert(port.end_drain(received).only(no_write));
    if limit > 0 {
        let taken = port.drain(limit - 1, fifo_mode, true);
        let dropped = port.drain(limit - 1, fifo_mode, received);
        lemma_drain_writes_nothing(port, limit - 1, fifo_mode, true);
        lemma_drain_writes_nothing(port, limit - 1, fifo_mode, received);
        assert forall|errors: u32|
            (#[trigger] port.take_data(errors, taken, dropped)).only(no_write) by {
        }
        assert(port.take_character(taken, dropped).only(no_write));
    }
}

/// A request in front that writes nothing leaves the acknowledgement last.
proof fn lemma_request_before_acknowledgement(port: Port, program: Program<()>, replies: Seq<u32>)
    requires
        replies.len() > 0,
        program.step() matches Step::Perform(request) && !program::is_write(request),
        port.acknowledges_last(program.after(replies[0]), replies.drop_first()),
    ensures
        port.acknowledges_last(program, replies),
{
    let trace = program.trace(replies);
    let later = program.after(replies[0]).trace(replies.drop_first());
    let acknowledgement = port.write_reg(reg::UINTP, uint::RXD);
    assert(trace == seq![program.step()->Perform_0] + later);
    assert forall|i: int|
        0 <= i < trace.len() && program::is_write(#[trigger] trace[i]) implies i >= 1
        && program::is_write(later[i - 1]) by {
    }
    assert forall|i: int, j: int|
        0 <= i < j < trace.len() && program::is_write(
            #[trigger] trace[i],
        ) implies #[trigger] trace[j] == Request::Notify by {
        assert(trace[j] == later[j - 1]);
        assert(trace[i] == later[i - 1]);
    }
    if later.contains(acknowledgement) {
        let i = choose|i: int| 0 <= i < later.len() && later[i] == acknowledgement;
        assert(trace[i + 1] == acknowledgement);
    }
}

proof fn lemma_end_drain_acknowledges(port: Port, received: bool, replies: Seq<u32>)
    requires
        port.variant.irq == IrqStyle::S3c6400,
    ensures
        port.acknowledges_last(port.end_drain(received), replies),
{
    if replies.len() > 0 {
        let trace = port.end_drain(received).trace(replies);
        let tail = replies.drop_first();
        let last = port.notify(received);
        if received && tail.len() > 0 {
            program::lemma_finished_stays_finished(last.after(tail[0]), tail.drop_first());
            assert(last.trace(tail) =~= seq![Request::Notify]);
        } else if !received {
            program::lemma_finished_stays_finished(last, tail);
        }
        assert(trace[0] == port.write_reg(reg::UINTP, uint::RXD));
    }
}

proof fn lemma_drain_acknowledges(
    port: Port,
    limit: int,
    fifo_mode: bool,
    received: bool,
    replies: Seq<u32>,
)
    requires
        port.variant.irq == IrqStyle::S3c6400,
    ensures
        port.acknowledges_last(port.drain(limit, fifo_mode, received), replies),
    decreases limit,
{
    let program = port.drain(limit, fifo_mode, received);
    if limit <= 0 {
        lemma_end_drain_acknowledges(port, received, replies);
    } else if replies.len() > 0 {
        let tail = replies.drop_first();
        if replies[0] & port.received_mask(fifo_mode) == 0 {
            lemma_end_drain_acknowledges(port, received, tail);
        } else {
            let taken = port.drain(limit - 1, fifo_mode, true);
            let dropped = port.drain(limit - 1, fifo_mode, received);
            let second = port.take_character(taken, dropped);
            if tail.len() > 0 {
                let third = port.take_data(tail[0], taken, dropped);
                let tail = tail.drop_first();
                if tail.len() > 0 {
                    let fourth = third.after(tail[0]);
                    let last = tail.drop_first();
                    if !model::accepted(replies[1], tail[0]) {
                        lemma_drain_acknowledges(port, limit - 1, fifo_mode, received, last);
                    } else if last.len() > 0 {
                        lemma_drain_acknowledges(
                            port,
                            limit - 1,
                            fifo_mode,
                            true,
                            last.drop_first(),
                        );
                        lemma_request_before_acknowledgement(port, fourth, last);
                    }
                    lemma_request_before_acknowledgement(port, third, tail);
                }
                lemma_request_before_acknowledgement(port, second, replies.drop_first());
            }
        }
        lemma_request_before_acknowledgement(port, program, replies);
    }
}

impl Port {
    /// Every character is taken right after its error status, and that is
    /// read right after a status that shows a character.
    pub open spec fn takes_pending(
        self,
        fifo_mode: bool,
        trace: Seq<Request>,
        replies: Seq<u32>,
    ) -> bool {
        forall|i: int|
            0 <= i < trace.len() && #[trigger] trace[i] == self.read_data() ==> {
                &&& i >= 2
                &&& trace[i - 1] == self.read_reg(reg::UERSTAT)
                &&& trace[i - 2] == self.read_receive_status(fifo_mode)
                &&& replies[i - 2] & self.received_mask(fifo_mode) != 0
            }
    }
}

/// Receiving takes a character from the receiver only when there is one:
/// when the FIFO holds data, or without FIFO when the receiver is ready. The
/// error status is read in between.
pub proof fn law_receive_takes_pending_characters(port: Port, replies: Seq<u32>)
    requires
        port.valid(),
        replies.len() > 0,
    ensures
        port.takes_pending(
            replies[0] & ufcon::FIFO_EN != 0,
            port.receive().trace(replies),
            replies,
        ),
{
    let fifo_mode = replies[0] & ufcon::FIFO_EN != 0;
    let tail = replies.drop_first();
    if port.variant.irq == IrqStyle::AppleS5l {
        if tail.len() > 0 {
            let program = port.start_drain(fifo_mode);
            lemma_drain_takes_pending(
                port,
                RX_DRAIN_LIMIT as int,
                fifo_mode,
                false,
                tail.drop_first(),
            );
            lemma_request_before_pending(port, program, fifo_mode, tail);
        }
    } else {
        lemma_drain_takes_pending(port, RX_DRAIN_LIMIT as int, fifo_mode, false, tail);
    }
    lemma_request_before_pending(port, port.receive(), fifo_mode, replies);
}

/// A request in front that takes no character changes nothing about those
/// that are taken later.
proof fn lemma_request_before_pending(
    port: Port,
    program: Program<()>,
    fifo_mode: bool,
    replies: Seq<u32>,
)
    requires
        replies.len() > 0,
        program.step() matches Step::Perform(request) && request != port.read_data(),
        port.takes_pending(
            fifo_mode,
            program.after(replies[0]).trace(replies.drop_first()),
            replies.drop_first(),
        ),
    ensures
        port.takes_pending(fifo_mode, program.trace(replies), replies),
{
    let trace = program.trace(replies);
    let tail = replies.drop_first();
    let later = program.after(replies[0]).trace(tail);
    program::lemma_trace_length(program.after(replies[0]), tail);
    assert forall|i: int| 0 <= i < trace.len() && #[trigger] trace[i] == port.read_data() implies {
        &&& i >= 2
        &&& trace[i - 1] == port.read_reg(reg::UERSTAT)
        &&& trace[i - 2] == port.read_receive_status(fifo_mode)
        &&& replies[i - 2] & port.received_mask(fifo_mode) != 0
    } by {
        assert(later[i - 1] == port.read_data());
        assert(trace[i - 1] == later[i - 2]);
        assert(trace[i - 2] == later[i - 3]);
        assert(replies[i - 2] == tail[i - 3]);
    }
}

proof fn lemma_end_drain_takes_nothing(
    port: Port,
    fifo_mode: bool,
    received: bool,
    replies: Seq<u32>,
)
    ensures
        port.takes_pending(fifo_mode, port.end_drain(received).trace(replies), replies),
{
    let other = |request: Request| request != port.read_data();
    let program = port.end_drain(received);
    assert(program.only(other)) by {
        reveal_with_fuel(Program::only, 3);
    }
    program::law_run_makes_only_allowed_requests(program, other, replies);
    assert forall|i: int|
        0 <= i < program.trace(replies).len() implies #[trigger] program.trace(replies)[i]
        != port.read_data() by {
        assert(other(program.trace(replies)[i]));
    }
}

proof fn lemma_drain_takes_pending(
    port: Port,
    limit: int,
    fifo_mode: bool,
    received: bool,
    replies: Seq<u32>,
)
    requires
        port.valid(),
    ensures
        port.takes_pending(
            fifo_mode,
            port.drain(limit, fifo_mode, received).trace(replies),
            replies,
        ),
    decreases limit,
{
    let program = port.drain(limit, fifo_mode, received);
    let trace = program.trace(replies);
    if limit <= 0 {
        lemma_end_drain_takes_nothing(port, fifo_mode, received, replies);
    } else if replies.len() == 0 {
    } else if replies[0] & port.received_mask(fifo_mode) == 0 {
        lemma_end_drain_takes_nothing(port, fifo_mode, received, replies.drop_first());
        lemma_request_before_pending(port, program, fifo_mode, replies);
    } else if replies.len() == 1 {
        reveal_with_fuel(Program::trace, 2);
    } else {
        let taken = port.drain(limit - 1, fifo_mode, true);
        let dropped = port.drain(limit - 1, fifo_mode, received);
        let third = port.take_data(replies[1], taken, dropped);
        let tail = replies.skip(2);
        program::lemma_two_requests(program, replies);
        program::lemma_trace_length(third, tail);
        if tail.len() == 0 {
            assert(third.trace(tail) =~= Seq::<Request>::empty());
        } else {
            let next = third.after(tail[0]);
            let last = tail.drop_first();
            if !model::accepted(replies[1], tail[0]) {
                lemma_drain_takes_pending(port, limit - 1, fifo_mode, received, last);
            } else if last.len() > 0 {
                lemma_drain_takes_pending(port, limit - 1, fifo_mode, true, last.drop_first());
                lemma_request_before_pending(port, next, fifo_mode, last);
            }
            let later = next.trace(last);
            program::lemma_trace_length(next, last);
            assert(port.takes_pending(fifo_mode, later, last));
            assert(third.trace(tail) =~= seq![port.read_data()] + later);
            assert(trace == seq![
                port.read_receive_status(fifo_mode),
                port.read_reg(reg::UERSTAT),
            ] + third.trace(tail));
            assert forall|i: int|
                0 <= i < trace.len() && #[trigger] trace[i] == port.read_data() implies {
                &&& i >= 2
                &&& trace[i - 1] == port.read_reg(reg::UERSTAT)
                &&& trace[i - 2] == port.read_receive_status(fifo_mode)
                &&& replies[i - 2] & port.received_mask(fifo_mode) != 0
            } by {
                if i > 2 {
                    assert(later[i - 3] == port.read_data());
                    assert(trace[i - 1] == later[i - 4]);
                    assert(trace[i - 2] == later[i - 5]);
                    assert(replies[i - 2] == last[i - 5]);
                }
            }
        }
    }
}

/// How many polls have found a character, and how many have been taken.
struct DrainNotes {
    pending: int,
    taken: int,
}

impl Port {
    /// A poll that finds a character.
    pub open spec fn is_pending_poll(self, fifo_mode: bool, request: Request, reply: u32) -> bool {
        request == self.read_receive_status(fifo_mode) && reply & self.received_mask(fifo_mode) != 0
    }

    /// The number of polls that find a character.
    pub open spec fn pending_polls(
        self,
        fifo_mode: bool,
        trace: Seq<Request>,
        replies: Seq<u32>,
    ) -> int
        decreases trace.len(),
    {
        if trace.len() == 0 {
            0
        } else {
            self.pending_polls(fifo_mode, trace.drop_last(), replies) + if self.is_pending_poll(
                fifo_mode,
                trace.last(),
                replies[trace.len() - 1],
            ) {
                1int
            } else {
                0int
            }
        }
    }

    /// The number of characters taken from the receiver.
    pub open spec fn data_reads(self, trace: Seq<Request>) -> int
        decreases trace.len(),
    {
        if trace.len() == 0 {
            0
        } else {
            self.data_reads(trace.drop_last()) + if trace.last() == self.read_data() {
                1int
            } else {
                0int
            }
        }
    }

    /// Adds what a request shows.
    spec fn note_drain(
        self,
        fifo_mode: bool,
        notes: DrainNotes,
        request: Request,
        reply: u32,
    ) -> DrainNotes {
        DrainNotes {
            pending: notes.pending + if self.is_pending_poll(fifo_mode, request, reply) {
                1int
            } else {
                0int
            },
            taken: notes.taken + if request == self.read_data() {
                1int
            } else {
                0int
            },
        }
    }

    /// From these notes on, the program takes a character for each poll that
    /// finds one, and not too many of them.
    spec fn takes_what_it_finds(
        self,
        program: Program<()>,
        fifo_mode: bool,
        notes: DrainNotes,
    ) -> bool {
        program.always(
            notes,
            |notes: DrainNotes, request: Request, reply: u32|
                self.note_drain(fifo_mode, notes, request, reply),
            |notes: DrainNotes, result: Option<()>|
                {
                    &&& notes.taken <= notes.pending <= notes.taken + 1
                    &&& notes.pending <= RX_DRAIN_LIMIT
                    &&& result is Some ==> notes.pending == notes.taken
                },
        )
    }
}

/// Receiving takes one character for each poll that finds one, whether the
/// character is then handed on or dropped, and no more than it may take at a
/// time.
pub proof fn law_receive_takes_a_limited_number(port: Port, replies: Seq<u32>)
    requires
        port.valid(),
        replies.len() > 0,
    ensures
        ({
            let fifo_mode = replies[0] & ufcon::FIFO_EN != 0;
            let trace = port.receive().trace(replies);
            let pending = port.pending_polls(fifo_mode, trace, replies);
            let taken = port.data_reads(trace);
            &&& taken <= pending <= taken + 1
            &&& pending <= RX_DRAIN_LIMIT
            &&& port.receive().run(replies) is Finish ==> pending == taken
        }),
{
    let fifo_mode = replies[0] & ufcon::FIFO_EN != 0;
    let start = DrainNotes { pending: 0, taken: 0 };
    let update = |notes: DrainNotes, request: Request, reply: u32|
        port.note_drain(fifo_mode, notes, request, reply);
    let expected = |notes: DrainNotes, result: Option<()>|
        {
            &&& notes.taken <= notes.pending <= notes.taken + 1
            &&& notes.pending <= RX_DRAIN_LIMIT
            &&& result is Some ==> notes.pending == notes.taken
        };
    let trace = port.receive().trace(replies);
    let tail = replies.drop_first();
    let rest = port.start_drain(fifo_mode);
    lemma_drain_takes_what_it_finds(port, RX_DRAIN_LIMIT as int, fifo_mode, false, start);
    assert(port.takes_what_it_finds(rest, fifo_mode, start));
    program::law_run_meets_expectations(rest, start, update, expected, tail);
    program::lemma_trace_length(port.receive(), replies);
    program::lemma_observe_first(start, update, trace, replies);
    assert(trace.drop_first() =~= rest.trace(tail));
    lemma_drain_notes(port, fifo_mode, trace, replies);
}

/// The notes hold what they are meant to.
proof fn lemma_drain_notes(port: Port, fifo_mode: bool, trace: Seq<Request>, replies: Seq<u32>)
    ensures
        program::observe(
            DrainNotes { pending: 0, taken: 0 },
            |notes: DrainNotes, request: Request, reply: u32|
                port.note_drain(fifo_mode, notes, request, reply),
            trace,
            replies,
        ) == (DrainNotes {
            pending: port.pending_polls(fifo_mode, trace, replies),
            taken: port.data_reads(trace),
        }),
    decreases trace.len(),
{
    if trace.len() > 0 {
        lemma_drain_notes(port, fifo_mode, trace.drop_last(), replies);
    }
}

proof fn lemma_drain_takes_what_it_finds(
    port: Port,
    limit: int,
    fifo_mode: bool,
    received: bool,
    notes: DrainNotes,
)
    requires
        port.valid(),
        0 <= limit,
        notes.pending == notes.taken,
        notes.pending + limit <= RX_DRAIN_LIMIT,
    ensures
        port.takes_what_it_finds(port.drain(limit, fifo_mode, received), fifo_mode, notes),
    decreases limit,
{
    reveal_with_fuel(Program::always, 3);
    assert(port.takes_what_it_finds(port.notify(received), fifo_mode, notes));
    assert(port.takes_what_it_finds(port.end_drain(received), fifo_mode, notes));
    if limit > 0 {
        let taken = port.drain(limit - 1, fifo_mode, true);
        let dropped = port.drain(limit - 1, fifo_mode, received);
        let found = DrainNotes { pending: notes.pending + 1, ..notes };
        let next = DrainNotes { pending: notes.pending + 1, taken: notes.taken + 1 };
        lemma_drain_takes_what_it_finds(port, limit - 1, fifo_mode, true, next);
        lemma_drain_takes_what_it_finds(port, limit - 1, fifo_mode, received, next);
        assert forall|errors: u32|
            port.takes_what_it_finds(
                #[trigger] port.take_data(errors, taken, dropped),
                fifo_mode,
                found,
            ) by {
        }
        assert(port.takes_what_it_finds(port.take_character(taken, dropped), fifo_mode, found));
    }
}

} // verus!
