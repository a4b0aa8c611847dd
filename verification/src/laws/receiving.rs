//! What receiving does next, request by request.
//!
//! `past` are the requests made so far, one for each of the replies, and
//! `next` is what follows them.

use vstd::prelude::*;

use crate::laws::selection;
use crate::model;
use crate::model::{Port, RX_DRAIN_LIMIT};
use crate::program;
use crate::program::{Program, Request, Step};
use crate::registers::{reg, uerstat, ufcon, uint, utrstat};
use crate::variant::{FifoLayout, IrqStyle};

verus! {

impl Port {
    /// What is left of receiving after these requests and replies.
    spec fn receiving(self, past: Seq<Request>, replies: Seq<u32>) -> Program<()> {
        let fifo_mode = replies[0] & ufcon::FIFO_EN != 0;
        let taken = past.filter(|request: Request| request == self.read_data()).len();
        let received = past.filter(|request: Request| request is Input).len() > 0;
        let last = past.last();
        let reply = replies.last();
        if replies.len() == 0 {
            self.receive()
        } else if last == self.read_reg(reg::UFCON) {
            self.start_drain(fifo_mode)
        } else if last == self.write_reg(reg::UTRSTAT, utrstat::APPLE_RX_FLAGS) {
            self.drain(RX_DRAIN_LIMIT as int, fifo_mode, false)
        } else if last == self.read_receive_status(fifo_mode) {
            if reply & self.received_mask(fifo_mode) == 0 {
                self.end_drain(received)
            } else {
                self.take_character(
                    self.drain(RX_DRAIN_LIMIT - taken - 1, fifo_mode, true),
                    self.drain(RX_DRAIN_LIMIT - taken - 1, fifo_mode, received),
                )
            }
        } else if last == self.read_reg(reg::UERSTAT) {
            self.take_data(
                reply,
                self.drain(RX_DRAIN_LIMIT - taken - 1, fifo_mode, true),
                self.drain(RX_DRAIN_LIMIT - taken - 1, fifo_mode, received),
            )
        } else if last == self.read_data() {
            if model::accepted(replies[replies.len() - 2], reply) {
                Program::perform(
                    Request::Input { byte: model::data_byte(reply) },
                    self.drain(RX_DRAIN_LIMIT - taken, fifo_mode, true),
                )
            } else {
                self.drain(RX_DRAIN_LIMIT - taken, fifo_mode, received)
            }
        } else if last is Input {
            self.drain(RX_DRAIN_LIMIT - taken, fifo_mode, true)
        } else if last == self.write_reg(reg::UINTP, uint::RXD) {
            self.notify(received)
        } else {
            Program::Finish { result: () }
        }
    }

    /// The requests made so far are such as receiving makes.
    spec fn may_have_received(self, past: Seq<Request>, replies: Seq<u32>) -> bool {
        let fifo_mode = replies[0] & ufcon::FIFO_EN != 0;
        let taken = past.filter(|request: Request| request == self.read_data()).len();
        let received = past.filter(|request: Request| request is Input).len() > 0;
        let last = past.last();
        if replies.len() == 0 {
            taken == 0 && !received
        } else {
            &&& taken <= RX_DRAIN_LIMIT
            &&& {
                ||| last == self.read_reg(reg::UFCON) && replies.len() == 1 && taken == 0
                    && !received
                ||| last == self.write_reg(reg::UTRSTAT, utrstat::APPLE_RX_FLAGS)
                    && self.variant.irq == IrqStyle::AppleS5l && taken == 0 && !received
                ||| last == self.read_receive_status(fifo_mode) && replies.len() >= 2 && taken
                    < RX_DRAIN_LIMIT
                ||| last == self.read_reg(reg::UERSTAT) && replies.len() >= 2 && taken
                    < RX_DRAIN_LIMIT
                ||| last == self.read_data() && replies.len() >= 2
                ||| last is Input && received
                ||| last == self.write_reg(reg::UINTP, uint::RXD) && self.variant.irq
                    == IrqStyle::S3c6400
                ||| last == Request::Notify
            }
        }
    }
}

proof fn lemma_receive_course(port: Port, replies: Seq<u32>)
    requires
        port.valid(),
        port.receive().trace(replies).len() == replies.len(),
    ensures
        port.may_have_received(port.receive().trace(replies), replies),
        port.receive().run(replies) == port.receiving(port.receive().trace(replies), replies),
    decreases replies.len(),
{
    let program = port.receive();
    if replies.len() == 0 {
        reveal(Seq::filter);
    } else {
        program::lemma_last_request(program, replies);
        lemma_receive_course(port, replies.drop_last());
        lemma_receiving_goes_on(port, program.trace(replies), replies);
    }
}

proof fn lemma_receiving_goes_on(port: Port, past: Seq<Request>, replies: Seq<u32>)
    requires
        port.valid(),
        past.len() == replies.len() > 0,
        port.may_have_received(past.drop_last(), replies.drop_last()),
        port.receiving(past.drop_last(), replies.drop_last()).step() == Step::<()>::Perform(
            past.last(),
        ),
    ensures
        port.may_have_received(past, replies),
        port.receiving(past, replies) == port.receiving(
            past.drop_last(),
            replies.drop_last(),
        ).after(replies.last()),
{
    let is_data = |request: Request| request == port.read_data();
    let is_input = |request: Request| request is Input;
    let before = past.drop_last();
    assert(past.filter(is_data) == if is_data(past.last()) {
        before.filter(is_data).push(past.last())
    } else {
        before.filter(is_data)
    }) by {
        reveal(Seq::filter);
    }
    assert(past.filter(is_input) == if is_input(past.last()) {
        before.filter(is_input).push(past.last())
    } else {
        before.filter(is_input)
    }) by {
        reveal(Seq::filter);
    }
    if replies.len() > 1 {
        assert(replies.drop_last()[0] == replies[0]);
        assert(replies.drop_last().last() == replies[replies.len() - 2]);
    }
}

/// Receiving reads UFCON, and looks for characters in UFSTAT if it says that
/// the FIFOs are on, else in UTRSTAT. On Apple hardware it writes the
/// receive flags to UTRSTAT in between.
pub proof fn law_receiving_begins(port: Port, replies: Seq<u32>)
    requires
        port.valid(),
        port.receive().trace(replies).len() == replies.len(),
    ensures
        ({
            let past = port.receive().trace(replies);
            let next = port.receive().run(replies).step();
            let poll = if replies[0] & 0x1 != 0 {
                port.read_reg(reg::UFSTAT)
            } else {
                port.read_reg(reg::UTRSTAT)
            };
            &&& replies.len() == 0 ==> next == Step::<()>::Perform(port.read_reg(reg::UFCON))
            &&& replies.len() == 1 ==> next == Step::<()>::Perform(
                match port.variant.irq {
                    IrqStyle::S3c6400 => poll,
                    IrqStyle::AppleS5l => port.write_reg(reg::UTRSTAT, 0x218),
                },
            )
            &&& replies.len() == 2 && port.variant.irq == IrqStyle::AppleS5l ==> next == Step::<
                (),
            >::Perform(poll)
        }),
{
    lemma_receive_course(port, replies);
    assert(utrstat::APPLE_RX_FLAGS == 0x218) by (bit_vector);
    if replies.len() == 1 {
        lemma_receive_first(port, replies);
    } else if replies.len() == 2 {
        program::lemma_last_request(port.receive(), replies);
        lemma_receive_course(port, replies.drop_last());
        lemma_receive_first(port, replies.drop_last());
    }
}

/// The first request reads UFCON.
proof fn lemma_receive_first(port: Port, replies: Seq<u32>)
    requires
        port.valid(),
        replies.len() == 1,
        port.receive().trace(replies).len() == 1,
    ensures
        port.receive().trace(replies).last() == port.read_reg(reg::UFCON),
{
    program::lemma_last_request(port.receive(), replies);
    assert(replies.drop_last() =~= Seq::<u32>::empty());
    assert(port.receive().run(Seq::empty()) == port.receive());
}

/// A poll that finds a character is followed by a read of the error status,
/// and that by a read of the character. There is a character if the receive
/// FIFO counts some or is full, or, without FIFO, if the receiver is ready.
/// A poll that finds none ends receiving, as `law_receiving_ends` says.
pub proof fn law_found_characters_are_taken(port: Port, replies: Seq<u32>)
    requires
        port.valid(),
        port.receive().trace(replies).len() == replies.len() > 0,
    ensures
        ({
            let past = port.receive().trace(replies);
            let next = port.receive().run(replies).step();
            let found = if replies[0] & 0x1 == 0 {
                past.last() == port.read_reg(reg::UTRSTAT) && replies.last() & 0x1 != 0
            } else {
                past.last() == port.read_reg(reg::UFSTAT) && match port.variant.fifo {
                    FifoLayout::S3c2410 => replies.last() & 0xf != 0 || replies.last() & 0x100 != 0,
                    FifoLayout::S3c2440 => replies.last() & 0x3f != 0 || replies.last() & 0x40 != 0,
                    FifoLayout::S5pv210 => replies.last() & 0xff != 0 || replies.last() & 0x100
                        != 0,
                }
            };
            &&& found <==> next == Step::<()>::Perform(port.read_reg(reg::UERSTAT))
            &&& past.last() == port.read_reg(reg::UERSTAT) <==> next == Step::<()>::Perform(
                port.read_data(),
            )
        }),
{
    lemma_receive_course(port, replies);
    selection::law_full_receive_fifo_is_pending(port.variant.fifo, replies.last());
}

/// A character that was read is handed to the console exactly if its error
/// status, read right before, shows no overrun, parity error, framing error
/// or break, and its low byte is not zero. What is handed on is that byte.
pub proof fn law_fit_characters_are_handed_on(port: Port, replies: Seq<u32>)
    requires
        port.valid(),
        port.receive().trace(replies).len() == replies.len() > 0,
    ensures
        ({
            let past = port.receive().trace(replies);
            let next = port.receive().run(replies).step();
            let errors = replies[replies.len() - 2];
            let fit = past.last() == port.read_data() && errors & 0xf == 0 && replies.last() % 256
                != 0;
            &&& past.last() == port.read_data() ==> past.len() >= 2 && past[past.len() - 2]
                == port.read_reg(reg::UERSTAT)
            &&& fit ==> next == Step::<()>::Perform(
                Request::Input { byte: (replies.last() % 256) as u8 },
            )
            &&& !fit ==> !(next matches Step::Perform(request) && request is Input)
        }),
{
    assert(uerstat::ANY == 0xf) by (bit_vector);
    lemma_receive_course(port, replies);
    program::lemma_last_request(port.receive(), replies);
    lemma_receive_course(port, replies.drop_last());
}

/// After a character that is not handed on, and after one that has been,
/// the next poll follows, until 256 characters have been taken.
pub proof fn law_receiving_goes_on(port: Port, replies: Seq<u32>)
    requires
        port.valid(),
        port.receive().trace(replies).len() == replies.len() > 0,
    ensures
        ({
            let past = port.receive().trace(replies);
            let next = port.receive().run(replies).step();
            let fit = replies[replies.len() - 2] & 0xf == 0 && replies.last() % 256 != 0;
            let taken = past.filter(|request: Request| request == port.read_data()).len();
            let poll = if replies[0] & 0x1 != 0 {
                port.read_reg(reg::UFSTAT)
            } else {
                port.read_reg(reg::UTRSTAT)
            };
            (past.last() == port.read_data() && !fit) || past.last() is Input ==> (taken < 256
                <==> next == Step::<()>::Perform(poll))
        }),
{
    assert(uerstat::ANY == 0xf) by (bit_vector);
    lemma_receive_course(port, replies);
}

/// Receiving ends with a poll that finds nothing or with the last character
/// that may be taken. It then acknowledges the receive interrupt in UINTP,
/// but not on Apple hardware, and tells the console if it has handed it any
/// character. The console is the last to be told.
pub proof fn law_receiving_ends(port: Port, replies: Seq<u32>)
    requires
        port.valid(),
        port.receive().trace(replies).len() == replies.len() > 0,
    ensures
        ({
            let past = port.receive().trace(replies);
            let next = port.receive().run(replies).step();
            let taken = past.filter(|request: Request| request == port.read_data()).len();
            let received = past.filter(|request: Request| request is Input).len() > 0;
            let found = if replies[0] & 0x1 == 0 {
                replies.last() & 0x1 != 0
            } else {
                match port.variant.fifo {
                    FifoLayout::S3c2410 => replies.last() & 0xf != 0 || replies.last() & 0x100 != 0,
                    FifoLayout::S3c2440 => replies.last() & 0x3f != 0 || replies.last() & 0x40 != 0,
                    FifoLayout::S5pv210 => replies.last() & 0xff != 0 || replies.last() & 0x100
                        != 0,
                }
            };
            let fit = replies[replies.len() - 2] & 0xf == 0 && replies.last() % 256 != 0;
            let over = {
                ||| (past.last() == port.read_reg(reg::UFSTAT) || past.last() == port.read_reg(
                    reg::UTRSTAT,
                )) && !found
                ||| taken == 256 && (past.last() is Input || past.last() == port.read_data()
                    && !fit)
            };
            let tell = if received {
                Step::Perform(Request::Notify)
            } else {
                Step::Finished(())
            };
            &&& over ==> next == match port.variant.irq {
                IrqStyle::S3c6400 => Step::Perform(port.write_reg(reg::UINTP, 0x1)),
                IrqStyle::AppleS5l => tell,
            }
            &&& past.last() == port.write_reg(reg::UINTP, 0x1) ==> next == tell
            &&& past.last() == Request::Notify ==> next == Step::Finished(())
        }),
{
    assert(uerstat::ANY == 0xf) by (bit_vector);
    lemma_receive_course(port, replies);
    selection::law_full_receive_fifo_is_pending(port.variant.fifo, replies.last());
}

} // verus!
