//! What sending and writing do next, request by request.
//!
//! `past` are the requests made so far, one for each of the replies, and
//! `next` is what follows them.

use vstd::prelude::*;

use crate::model;
use crate::model::Port;
use crate::program;
use crate::program::{Program, Request, Step};
use crate::registers::{reg, ucon, ufcon};
use crate::variant::FifoLayout;

verus! {

impl Port {
    /// What is left of sending bytes after these requests and replies, of
    /// which `sent` have been given to the transmitter.
    spec fn sending(
        self,
        bytes: Seq<u8>,
        sent: int,
        past: Seq<Request>,
        replies: Seq<u32>,
    ) -> Program<()> {
        let rest = self.send_all(bytes.skip(sent + 1));
        let last = past.last();
        let reply = replies.last();
        if last == self.read_reg(reg::UFCON) {
            self.wait_room(reply & ufcon::FIFO_EN != 0, bytes[sent]).then_run(rest)
        } else if last == self.read_reg(reg::UFSTAT) || last == self.read_reg(reg::UTRSTAT) {
            let fifo_mode = last == self.read_reg(reg::UFSTAT);
            if self.has_room(fifo_mode, reply) {
                Program::perform(
                    self.write_data(bytes[sent]),
                    Program::Finish { result: () },
                ).then_run(rest)
            } else {
                self.wait_room(fifo_mode, bytes[sent]).then_run(rest)
            }
        } else {
            self.send_all(bytes.skip(sent))
        }
    }

    /// What is left of writing output after these requests and replies.
    spec fn is_writing(
        self,
        output: Seq<u8>,
        past: Seq<Request>,
        replies: Seq<u32>,
        program: Program<()>,
    ) -> bool {
        let bytes = model::console_bytes(output);
        let sent = past.filter(
            |request: Request| request is Write32 || request is Write8,
        ).len() as int;
        if replies.len() == 0 {
            sent == 0 && program == self.write(output)
        } else if past.last() == self.read_reg(reg::UCON) {
            sent == 0 && program == if replies.last() & ucon::MODE_MASK == 0 {
                Program::Finish { result: () }
            } else {
                self.send_all(bytes.skip(sent))
            }
        } else {
            &&& 0 <= sent <= bytes.len()
            &&& self.is_sending(past) ==> sent < bytes.len()
            &&& !self.is_sending(past) ==> sent > 0 && past.last() == self.write_data(
                bytes[sent - 1],
            )
            &&& program == self.sending(bytes, sent, past, replies)
        }
    }

    /// A character is being sent.
    spec fn is_sending(self, past: Seq<Request>) -> bool {
        ||| past.last() == self.read_reg(reg::UFCON)
        ||| past.last() == self.read_reg(reg::UFSTAT)
        ||| past.last() == self.read_reg(reg::UTRSTAT)
    }
}

/// Sending reads UFCON, and then, with FIFO, polls UFSTAT while the transmit
/// FIFO is full, or, without, UTRSTAT while the transmitter is not empty. It
/// gives its byte to the transmitter as soon as there is room, and is then
/// over.
pub proof fn law_byte_waits_for_room(port: Port, data: u8, replies: Seq<u32>)
    requires
        port.valid(),
        port.send(data).trace(replies).len() == replies.len(),
    ensures
        ({
            let past = port.send(data).trace(replies);
            let next = port.send(data).run(replies).step();
            let full: u32 = match port.variant.fifo {
                FifoLayout::S3c2410 => 0x200,
                FifoLayout::S3c2440 => 0x4000,
                FifoLayout::S5pv210 => 0x100_0000,
            };
            if replies.len() == 0 {
                next == Step::<()>::Perform(port.read_reg(reg::UFCON))
            } else if past.last() == port.read_reg(reg::UFCON) {
                next == Step::<()>::Perform(
                    if replies.last() & 0x1 != 0 {
                        port.read_reg(reg::UFSTAT)
                    } else {
                        port.read_reg(reg::UTRSTAT)
                    },
                )
            } else if past.last() == port.read_reg(reg::UFSTAT) {
                next == Step::<()>::Perform(
                    if replies.last() & full == 0 {
                        port.write_data(data)
                    } else {
                        port.read_reg(reg::UFSTAT)
                    },
                )
            } else if past.last() == port.read_reg(reg::UTRSTAT) {
                next == Step::<()>::Perform(
                    if replies.last() & 0x4 != 0 {
                        port.write_data(data)
                    } else {
                        port.read_reg(reg::UTRSTAT)
                    },
                )
            } else {
                past.last() == port.write_data(data) && next == Step::Finished(())
            }
        }),
{
    lemma_send_course(port, data, replies);
}

proof fn lemma_send_course(port: Port, data: u8, replies: Seq<u32>)
    requires
        port.valid(),
        port.send(data).trace(replies).len() == replies.len(),
    ensures
        ({
            let program = port.send(data);
            let past = program.trace(replies);
            let last = past.last();
            if replies.len() == 0 {
                program.run(replies) == program
            } else if last == port.read_reg(reg::UFCON) {
                program.run(replies) == port.wait_room(replies.last() & ufcon::FIFO_EN != 0, data)
            } else if last == port.read_reg(reg::UFSTAT) || last == port.read_reg(reg::UTRSTAT) {
                let fifo_mode = last == port.read_reg(reg::UFSTAT);
                program.run(replies) == if port.has_room(fifo_mode, replies.last()) {
                    Program::perform(port.write_data(data), Program::Finish { result: () })
                } else {
                    port.wait_room(fifo_mode, data)
                }
            } else {
                last == port.write_data(data) && program.run(replies) is Finish
            }
        }),
    decreases replies.len(),
{
    if replies.len() > 0 {
        program::lemma_last_request(port.send(data), replies);
        lemma_send_course(port, data, replies.drop_last());
    }
}

/// Writing output reads UCON and is over at once if no mode is selected. It
/// sends the bytes that stand for the output one after the other: each takes
/// a read of UFCON, polls of UFSTAT or UTRSTAT until there is room, and the
/// write of the byte. It is over when all of them have been written.
pub proof fn law_every_byte_of_the_output_is_written(port: Port, output: Seq<u8>, replies: Seq<u32>)
    requires
        port.valid(),
        port.write(output).trace(replies).len() == replies.len(),
    ensures
        ({
            let past = port.write(output).trace(replies);
            let next = port.write(output).run(replies).step();
            let bytes = model::console_bytes(output);
            let sent = past.filter(
                |request: Request| request is Write32 || request is Write8,
            ).len() as int;
            let full: u32 = match port.variant.fifo {
                FifoLayout::S3c2410 => 0x200,
                FifoLayout::S3c2440 => 0x4000,
                FifoLayout::S5pv210 => 0x100_0000,
            };
            let go_on = if sent < bytes.len() {
                Step::Perform(port.read_reg(reg::UFCON))
            } else {
                Step::Finished(())
            };
            if replies.len() == 0 {
                next == Step::<()>::Perform(port.read_reg(reg::UCON))
            } else if past.last() == port.read_reg(reg::UCON) {
                next == if replies.last() & 0xf == 0 {
                    Step::Finished(())
                } else {
                    go_on
                }
            } else if past.last() == port.read_reg(reg::UFCON) {
                next == Step::<()>::Perform(
                    if replies.last() & 0x1 != 0 {
                        port.read_reg(reg::UFSTAT)
                    } else {
                        port.read_reg(reg::UTRSTAT)
                    },
                )
            } else if past.last() == port.read_reg(reg::UFSTAT) {
                sent < bytes.len() && next == Step::<()>::Perform(
                    if replies.last() & full == 0 {
                        port.write_data(bytes[sent])
                    } else {
                        port.read_reg(reg::UFSTAT)
                    },
                )
            } else if past.last() == port.read_reg(reg::UTRSTAT) {
                sent < bytes.len() && next == Step::<()>::Perform(
                    if replies.last() & 0x4 != 0 {
                        port.write_data(bytes[sent])
                    } else {
                        port.read_reg(reg::UTRSTAT)
                    },
                )
            } else {
                0 < sent <= bytes.len() && past.last() == port.write_data(bytes[sent - 1]) && next
                    == go_on
            }
        }),
{
    lemma_write_course(port, output, replies);
    let program = port.write(output);
    let past = program.trace(replies);
    let bytes = model::console_bytes(output);
    let sent = past.filter(|request: Request| request is Write32 || request is Write8).len() as int;
    reveal_with_fuel(Program::then_run, 3);
    if replies.len() > 0 && !port.is_sending(past) && sent < bytes.len() {
        assert(bytes.skip(sent)[0] == bytes[sent]);
    }
}

proof fn lemma_write_course(port: Port, output: Seq<u8>, replies: Seq<u32>)
    requires
        port.valid(),
        port.write(output).trace(replies).len() == replies.len(),
    ensures
        port.is_writing(
            output,
            port.write(output).trace(replies),
            replies,
            port.write(output).run(replies),
        ),
    decreases replies.len(),
{
    let program = port.write(output);
    reveal(Seq::filter);
    if replies.len() > 0 {
        program::lemma_last_request(program, replies);
        lemma_write_course(port, output, replies.drop_last());
        lemma_writing_goes_on(
            port,
            output,
            program.trace(replies),
            replies,
            program.run(replies.drop_last()),
        );
    }
}

proof fn lemma_writing_goes_on(
    port: Port,
    output: Seq<u8>,
    past: Seq<Request>,
    replies: Seq<u32>,
    program: Program<()>,
)
    requires
        port.valid(),
        past.len() == replies.len() > 0,
        port.is_writing(output, past.drop_last(), replies.drop_last(), program),
        program.step() == Step::<()>::Perform(past.last()),
    ensures
        port.is_writing(output, past, replies, program.after(replies.last())),
{
    let bytes = model::console_bytes(output);
    let is_data = |request: Request| request is Write32 || request is Write8;
    let front = replies.drop_last();
    let before = past.drop_last();
    let sent = before.filter(is_data).len() as int;
    assert(past.filter(is_data) == if is_data(past.last()) {
        before.filter(is_data).push(past.last())
    } else {
        before.filter(is_data)
    }) by {
        reveal(Seq::filter);
    }
    if front.len() == 0 {
        assert(past.last() == port.read_reg(reg::UCON));
        assert(bytes.skip(0) =~= bytes);
    } else if before.last() != port.read_reg(reg::UCON) && port.is_sending(before) {
        lemma_sending_step(port, bytes, sent, before, front, replies.last());
    } else {
        lemma_next_byte(port, bytes, sent, replies.last());
        assert(past.last() == port.read_reg(reg::UFCON));
    }
}

/// The next byte begins with a read of UFCON.
proof fn lemma_next_byte(port: Port, bytes: Seq<u8>, sent: int, reply: u32)
    requires
        0 <= sent <= bytes.len(),
    ensures
        ({
            let program = port.send_all(bytes.skip(sent));
            if sent < bytes.len() {
                &&& program.step() == Step::<()>::Perform(port.read_reg(reg::UFCON))
                &&& program.after(reply) == port.wait_room(
                    reply & ufcon::FIFO_EN != 0,
                    bytes[sent],
                ).then_run(port.send_all(bytes.skip(sent + 1)))
            } else {
                program is Finish
            }
        }),
{
    let rest = bytes.skip(sent);
    if sent < bytes.len() {
        assert(rest.drop_first() =~= bytes.skip(sent + 1));
        program::law_first_program_goes_first(
            port.send(bytes[sent]),
            port.send_all(bytes.skip(sent + 1)),
            reply,
        );
    }
}

/// A byte that is being sent is polled for or written.
proof fn lemma_sending_step(
    port: Port,
    bytes: Seq<u8>,
    sent: int,
    past: Seq<Request>,
    replies: Seq<u32>,
    reply: u32,
)
    requires
        port.valid(),
        0 <= sent < bytes.len(),
        port.is_sending(past),
    ensures
        ({
            let program = port.sending(bytes, sent, past, replies);
            let fifo_mode = if past.last() == port.read_reg(reg::UFCON) {
                replies.last() & ufcon::FIFO_EN != 0
            } else {
                past.last() == port.read_reg(reg::UFSTAT)
            };
            let rest = port.send_all(bytes.skip(sent + 1));
            let writing = Program::perform(
                port.write_data(bytes[sent]),
                Program::Finish { result: () },
            ).then_run(rest);
            if past.last() != port.read_reg(reg::UFCON) && port.has_room(
                fifo_mode,
                replies.last(),
            ) {
                &&& program.step() == Step::<()>::Perform(port.write_data(bytes[sent]))
                &&& program.after(reply) == rest
            } else {
                &&& program.step() == Step::<()>::Perform(port.read_transmit_status(fifo_mode))
                &&& program.after(reply) == if port.has_room(fifo_mode, reply) {
                    writing
                } else {
                    port.wait_room(fifo_mode, bytes[sent]).then_run(rest)
                }
            }
        }),
{
    reveal_with_fuel(Program::then_run, 3);
}

} // verus!
