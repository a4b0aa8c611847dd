//! Sending bytes and writing console output.

use vstd::prelude::*;

use crate::model;
use crate::model::Port;
use crate::program;
use crate::program::{Program, Request};
use crate::registers::{reg, ucon, ufcon};

verus! {

impl Port {
    /// The bytes that a request gives to the transmitter: one if it writes
    /// UTXH, none otherwise.
    pub open spec fn transmitted_byte(self, request: Request) -> Seq<u8> {
        match request {
            Request::Write32 { address, data } if address == self.address(reg::UTXH) => seq![
                model::data_byte(data),
            ],
            Request::Write8 { address, byte } if address == self.address(reg::UTXH) => seq![byte],
            _ => Seq::empty(),
        }
    }

    /// The bytes that requests give to the transmitter, in order.
    pub open spec fn transmitted(self, trace: Seq<Request>) -> Seq<u8>
        decreases trace.len(),
    {
        if trace.len() == 0 {
            Seq::empty()
        } else {
            self.transmitted_byte(trace[0]) + self.transmitted(trace.drop_first())
        }
    }

    /// UFCON was last read as `mode`, the request read the status that
    /// tells of room in that mode, and the reply says that there is room.
    pub open spec fn saw_room(self, mode: Option<u32>, request: Request, reply: u32) -> bool {
        &&& mode matches Some(value)
        &&& request == self.read_transmit_status(value & ufcon::FIFO_EN != 0)
        &&& self.has_room(value & ufcon::FIFO_EN != 0, reply)
    }

    /// Every write to the transmitter comes right after a status that shows
    /// room for it, in the mode that UFCON was last read to be in. `mode` is
    /// what UFCON was read as before.
    pub open spec fn paced(
        self,
        mode: Option<u32>,
        trace: Seq<Request>,
        replies: Seq<u32>,
    ) -> bool {
        forall|i: int|
            0 <= i < trace.len() && self.transmitted_byte(#[trigger] trace[i]).len() > 0 ==> i > 0
                && self.saw_room(
                program::last_reply(mode, self.read_reg(reg::UFCON), trace.take(i), replies),
                trace[i - 1],
                replies[i - 1],
            )
    }

    /// Run with these replies, the program gives the transmitter the bytes,
    /// in order and each when there is room for it, and finishes when all
    /// of them have been given. `mode` is what UFCON was read as before.
    pub open spec fn transmits(
        self,
        mode: Option<u32>,
        program: Program<()>,
        bytes: Seq<u8>,
        replies: Seq<u32>,
    ) -> bool {
        let trace = program.trace(replies);
        &&& self.paced(mode, trace, replies)
        &&& self.transmitted(trace).is_prefix_of(bytes)
        &&& program.run(replies) is Finish <==> self.transmitted(trace) == bytes
    }

    /// The program waits for room, gives `byte` to the transmitter and goes
    /// on with `next`.
    spec fn waits(
        self,
        program: Program<()>,
        fifo_mode: bool,
        byte: u8,
        next: Program<()>,
    ) -> bool {
        &&& program matches Program::Await { request, ready, rest }
        &&& request == self.read_transmit_status(fifo_mode)
        &&& forall|status: u32| #[trigger] ready(status) == self.has_room(fifo_mode, status)
        &&& rest.step() == program::Step::<()>::Perform(self.write_data(byte))
        &&& forall|reply: u32| #[trigger] rest.after(reply) == next
    }
}

/// The bytes sent for two outputs one after the other are those sent for
/// both at once.
pub proof fn law_output_may_be_split(first: Seq<u8>, second: Seq<u8>)
    ensures
        model::console_bytes(first + second) == model::console_bytes(first)
            + model::console_bytes(second),
    decreases first.len(),
{
    if first.len() == 0 {
        assert(first + second =~= second);
        assert(model::console_bytes(first + second) =~= model::console_bytes(first)
            + model::console_bytes(second));
    } else {
        law_output_may_be_split(first.drop_first(), second);
        assert((first + second).drop_first() =~= first.drop_first() + second);
        assert(model::console_bytes(first + second) =~= model::console_bytes(first)
            + model::console_bytes(second));
    }
}

/// Of a single byte, backspace and delete are sent as backspace, space and
/// backspace, a newline as carriage return and newline, and any other byte
/// as it is. No output is nothing to send.
pub proof fn law_single_bytes_expand(byte: u8)
    ensures
        model::console_bytes(Seq::empty()) == Seq::<u8>::empty(),
        byte == 0x08 || byte == 0x7f ==> model::console_bytes(seq![byte]) == seq![
            0x08u8,
            0x20u8,
            0x08u8,
        ],
        byte == 0x0a ==> model::console_bytes(seq![byte]) == seq![0x0du8, 0x0au8],
        byte != 0x08 && byte != 0x7f && byte != 0x0a ==> model::console_bytes(seq![byte]) == seq![
            byte,
        ],
{
    let single = seq![byte];
    assert(single.drop_first() =~= Seq::<u8>::empty());
    reveal_with_fuel(model::console_bytes, 2);
    assert(model::console_bytes(single) =~= model::console_byte(byte));
}

/// Output without backspaces, deletes and newlines is sent as it is.
pub proof fn law_plain_output_is_sent_unchanged(output: Seq<u8>)
    requires
        forall|i: int|
            0 <= i < output.len() ==> output[i] != 8 && output[i] != 0x7f && output[i] != 0x0a,
    ensures
        model::console_bytes(output) == output,
    decreases output.len(),
{
    if output.len() > 0 {
        let tail = output.drop_first();
        assert forall|i: int| 0 <= i < tail.len() implies tail[i] != 8 && tail[i] != 0x7f && tail[i]
            != 0x0a by {
            assert(tail[i] == output[i + 1]);
        }
        law_plain_output_is_sent_unchanged(tail);
        assert(model::console_bytes(output) =~= output);
    } else {
        assert(model::console_bytes(output) =~= output);
    }
}

/// A newline is only sent after a carriage return, and a delete is never
/// sent.
pub proof fn law_console_bytes_suit_a_terminal(output: Seq<u8>)
    ensures
        forall|i: int|
            0 <= i < model::console_bytes(output).len() ==> {
                &&& #[trigger] model::console_bytes(output)[i] != 0x7f
                &&& model::console_bytes(output)[i] == 0x0a ==> i > 0 && model::console_bytes(
                    output,
                )[i - 1] == 0x0d
            },
    decreases output.len(),
{
    if output.len() > 0 {
        let tail = output.drop_first();
        let head = model::console_byte(output[0]);
        let bytes = model::console_bytes(output);
        law_console_bytes_suit_a_terminal(tail);
        assert forall|i: int| 0 <= i < bytes.len() implies #[trigger] bytes[i] != 0x7f && (bytes[i]
            == 0x0a ==> i > 0 && bytes[i - 1] == 0x0d) by {
            if i >= head.len() {
                assert(bytes[i] == model::console_bytes(tail)[i - head.len()]);
                if i > head.len() {
                    assert(bytes[i - 1] == model::console_bytes(tail)[i - 1 - head.len()]);
                }
            } else if i > 0 {
                assert(bytes[i - 1] == head[i - 1]);
            }
        }
    }
}

/// Sending gives the transmitter its byte when there is room for it, and is
/// then finished.
pub proof fn law_send_waits_for_room(port: Port, data: u8, replies: Seq<u32>)
    requires
        port.valid(),
    ensures
        port.transmits(None, port.send(data), seq![data], replies),
{
    let finish = Program::Finish { result: () };
    assert forall|mode: Option<u32>, others: Seq<u32>| #[trigger]
        port.transmits(mode, finish, Seq::empty(), others) by {
        program::lemma_finished_stays_finished(finish, others);
    }
    assert forall|value: u32|
        port.waits(
            #[trigger] port.send(data).after(value),
            value & ufcon::FIFO_EN != 0,
            data,
            finish,
        ) by {
    }
    lemma_send(port, None, port.send(data), data, finish, Seq::empty(), replies);
    assert(seq![data] + Seq::<u8>::empty() =~= seq![data]);
}

/// Output to a configured port is sent as the bytes that stand for it, and
/// each is given to the transmitter when there is room. Nothing is sent to
/// an unconfigured port, which is left alone after its UCON has been read.
pub proof fn law_write_sends_the_output(port: Port, output: Seq<u8>, replies: Seq<u32>)
    requires
        port.valid(),
        replies.len() > 0,
    ensures
        replies[0] & ucon::MODE_MASK == 0 ==> port.write(output).trace(replies) == seq![
            port.read_reg(reg::UCON),
        ] && port.write(output).run(replies) is Finish,
        replies[0] & ucon::MODE_MASK != 0 ==> port.transmits(
            None,
            port.write(output),
            model::console_bytes(output),
            replies,
        ),
{
    let program = port.write(output);
    let tail = replies.drop_first();
    let rest = program.after(replies[0]);
    if replies[0] & ucon::MODE_MASK == 0 {
        program::lemma_finished_stays_finished(rest, tail);
        assert(program.trace(replies) =~= seq![port.read_reg(reg::UCON)]);
    } else {
        let bytes = model::console_bytes(output);
        lemma_send_all(port, None, bytes, tail);
        lemma_leading_read(port, None, program, reg::UCON, bytes, replies);
    }
}

/// A read of a control register in front changes nothing about what is
/// transmitted.
proof fn lemma_leading_read(
    port: Port,
    mode: Option<u32>,
    program: Program<()>,
    register: usize,
    bytes: Seq<u8>,
    replies: Seq<u32>,
)
    requires
        port.valid(),
        register < reg::BLOCK_SIZE,
        replies.len() > 0,
        program.step() == program::Step::<()>::Perform(port.read_reg(register)),
        port.transmits(
            if register == reg::UFCON {
                Some(replies[0])
            } else {
                mode
            },
            program.after(replies[0]),
            bytes,
            replies.drop_first(),
        ),
    ensures
        port.transmits(mode, program, bytes, replies),
{
    let rest = program.after(replies[0]);
    let tail = replies.drop_first();
    let trace = program.trace(replies);
    let later = rest.trace(tail);
    program::lemma_trace_length(rest, tail);
    assert(trace == seq![port.read_reg(register)] + later);
    assert(trace.drop_first() =~= later);
    assert(port.transmitted(trace) =~= port.transmitted(later));
    assert forall|i: int|
        0 <= i < trace.len() && port.transmitted_byte(#[trigger] trace[i]).len() > 0 implies i > 0
        && port.saw_room(
        program::last_reply(mode, port.read_reg(reg::UFCON), trace.take(i), replies),
        trace[i - 1],
        replies[i - 1],
    ) by {
        if i > 0 {
            assert(trace[i] == later[i - 1]);
            assert(trace[i - 1] == later[i - 2]);
            assert(replies[i - 1] == tail[i - 2]);
            program::lemma_last_reply_first(
                mode,
                port.read_reg(reg::UFCON),
                trace.take(i),
                replies,
            );
            assert(trace.take(i).drop_first() =~= later.take(i - 1));
        }
    }
}

proof fn lemma_send_all(port: Port, mode: Option<u32>, bytes: Seq<u8>, replies: Seq<u32>)
    requires
        port.valid(),
    ensures
        port.transmits(mode, port.send_all(bytes), bytes, replies),
    decreases bytes.len(),
{
    let program = port.send_all(bytes);
    if bytes.len() == 0 {
        program::lemma_finished_stays_finished(program, replies);
        assert(bytes =~= Seq::<u8>::empty());
    } else {
        let others = bytes.drop_first();
        let next = port.send_all(others);
        let send = port.send(bytes[0]);
        assert forall|mode: Option<u32>, later: Seq<u32>| #[trigger]
            port.transmits(mode, next, others, later) by {
            lemma_send_all(port, mode, others, later);
        }
        assert forall|value: u32|
            port.waits(
                #[trigger] program.after(value),
                value & ufcon::FIFO_EN != 0,
                bytes[0],
                next,
            ) by {
            reveal_with_fuel(Program::then_run, 4);
        }
        lemma_send(port, mode, program, bytes[0], next, others, replies);
        assert(seq![bytes[0]] + others =~= bytes);
    }
}

proof fn lemma_send(
    port: Port,
    mode: Option<u32>,
    program: Program<()>,
    byte: u8,
    next: Program<()>,
    others: Seq<u8>,
    replies: Seq<u32>,
)
    requires
        port.valid(),
        program.step() == program::Step::<()>::Perform(port.read_reg(reg::UFCON)),
        forall|value: u32|
            port.waits(
                #[trigger] program.after(value),
                value & ufcon::FIFO_EN != 0,
                byte,
                next,
            ),
        forall|mode: Option<u32>, later: Seq<u32>| #[trigger]
            port.transmits(mode, next, others, later),
    ensures
        port.transmits(mode, program, seq![byte] + others, replies),
{
    if replies.len() > 0 {
        lemma_waiting(
            port,
            replies[0],
            program.after(replies[0]),
            byte,
            next,
            others,
            replies.drop_first(),
        );
        lemma_leading_read(port, mode, program, reg::UFCON, seq![byte] + others, replies);
    }
}

#[verifier::rlimit(40)]
proof fn lemma_waiting(
    port: Port,
    value: u32,
    program: Program<()>,
    byte: u8,
    next: Program<()>,
    others: Seq<u8>,
    replies: Seq<u32>,
)
    requires
        port.valid(),
        port.waits(program, value & ufcon::FIFO_EN != 0, byte, next),
        forall|mode: Option<u32>, later: Seq<u32>| #[trigger]
            port.transmits(mode, next, others, later),
    ensures
        port.transmits(Some(value), program, seq![byte] + others, replies),
    decreases replies.len(),
{
    let mode = Some(value);
    let fifo_mode = value & ufcon::FIFO_EN != 0;
    let register = if fifo_mode {
        reg::UFSTAT
    } else {
        reg::UTRSTAT
    };
    let bytes = seq![byte] + others;
    if replies.len() == 0 {
    } else if !port.has_room(fifo_mode, replies[0]) {
        lemma_waiting(port, value, program, byte, next, others, replies.drop_first());
        lemma_leading_read(port, mode, program, register, bytes, replies);
    } else if replies.len() == 1 {
        assert(replies.drop_first() =~= Seq::<u32>::empty());
        assert(port.transmits(mode, program.after(replies[0]), bytes, replies.drop_first()));
        lemma_leading_read(port, mode, program, register, bytes, replies);
    } else {
        let tail = replies.skip(2);
        let later = next.trace(tail);
        let trace = program.trace(replies);
        program::lemma_two_requests(program, replies);
        program::lemma_trace_length(next, tail);
        assert(port.transmits(mode, next, others, tail));
        assert(trace == seq![port.read_reg(register), port.write_data(byte)] + later);
        assert(trace.drop_first().drop_first() =~= later);
        assert(model::data_byte(byte as u32) == byte);
        assert(port.transmitted_byte(port.write_data(byte)) =~= seq![byte]);
        reveal_with_fuel(Port::transmitted, 3);
        assert(port.transmitted(trace) =~= seq![byte] + port.transmitted(later));
        assert(port.transmitted(trace) == bytes <==> port.transmitted(later) == others) by {
            assert((seq![byte] + port.transmitted(later)).drop_first() =~= port.transmitted(later));
            assert(bytes.drop_first() =~= others);
        }
        let read_mode = port.read_reg(reg::UFCON);
        assert forall|i: int|
            0 <= i < trace.len() && port.transmitted_byte(#[trigger] trace[i]).len()
                > 0 implies i > 0 && port.saw_room(
            program::last_reply(mode, read_mode, trace.take(i), replies),
            trace[i - 1],
            replies[i - 1],
        ) by {
            if i > 0 {
                program::lemma_last_reply_first(mode, read_mode, trace.take(i), replies);
                assert(trace.take(i)[0] == port.read_reg(register));
            }
            if i == 1 {
                assert(trace.take(i).drop_first() =~= Seq::<Request>::empty());
            } else if i >= 2 {
                let middle = trace.take(i).drop_first();
                program::lemma_last_reply_first(mode, read_mode, middle, replies.drop_first());
                assert(middle[0] == port.write_data(byte));
                assert(middle.drop_first() =~= later.take(i - 2));
                assert(replies.drop_first().drop_first() =~= tail);
                assert(trace[i] == later[i - 2]);
                assert(trace[i - 1] == later[i - 3]);
                assert(replies[i - 1] == tail[i - 3]);
            }
        }
    }
}

impl Port {
    /// The replies to the requests that send bytes, three for each of them,
    /// say that there is room every time.
    pub open spec fn ready_for(self, count: int, replies: Seq<u32>) -> bool {
        &&& replies.len() == 3 * count
        &&& forall|k: int|
            0 <= k < count ==> self.has_room(
                #[trigger] replies[3 * k] & ufcon::FIFO_EN != 0,
                replies[3 * k + 1],
            )
    }

    /// The requests that send bytes when there is room every time.
    pub open spec fn immediate(self, bytes: Seq<u8>, replies: Seq<u32>) -> Seq<Request>
        decreases bytes.len(),
    {
        if bytes.len() == 0 {
            Seq::empty()
        } else {
            seq![
                self.read_reg(reg::UFCON),
                self.read_transmit_status(replies[0] & ufcon::FIFO_EN != 0),
                self.write_data(bytes[0]),
            ] + self.immediate(bytes.drop_first(), replies.skip(3))
        }
    }
}

/// When there is room every time, output to a configured port takes three
/// requests for each byte, after the one that reads UCON.
pub proof fn law_ready_transmitter_is_not_waited_for(
    port: Port,
    output: Seq<u8>,
    configuration: u32,
    replies: Seq<u32>,
)
    requires
        configuration & ucon::MODE_MASK != 0,
        port.ready_for(model::console_bytes(output).len() as int, replies),
    ensures
        port.write(output).run(seq![configuration] + replies) is Finish,
        port.write(output).trace(seq![configuration] + replies) == seq![port.read_reg(reg::UCON)]
            + port.immediate(model::console_bytes(output), replies),
{
    let all = seq![configuration] + replies;
    assert(all.drop_first() =~= replies);
    lemma_immediate(port, model::console_bytes(output), replies);
}

proof fn lemma_immediate(port: Port, bytes: Seq<u8>, replies: Seq<u32>)
    requires
        port.ready_for(bytes.len() as int, replies),
    ensures
        port.send_all(bytes).run(replies) is Finish,
        port.send_all(bytes).trace(replies) == port.immediate(bytes, replies),
    decreases bytes.len(),
{
    let program = port.send_all(bytes);
    if bytes.len() > 0 {
        let others = bytes.drop_first();
        let next = port.send_all(others);
        let tail = replies.skip(2);
        let last = replies.skip(3);
        let fifo_mode = replies[0] & ufcon::FIFO_EN != 0;
        let first = 0int;
        assert(replies[3 * first] == replies[0]);
        assert(port.has_room(fifo_mode, replies[1]));
        reveal_with_fuel(Program::then_run, 4);
        program::lemma_two_requests(program, replies);
        let third = program.after(replies[0]).after(replies[1]);
        assert(tail.drop_first() =~= last);
        assert(third.after(tail[0]) == next);
        assert(third.trace(tail) =~= seq![port.write_data(bytes[0])] + next.trace(last));
        assert forall|k: int| 0 <= k < others.len() implies port.has_room(
            #[trigger] last[3 * k] & ufcon::FIFO_EN != 0,
            last[3 * k + 1],
        ) by {
            let following = k + 1;
            assert(replies[3 * following] == last[3 * k]);
            assert(replies[3 * following + 1] == last[3 * k + 1]);
        }
        lemma_immediate(port, others, last);
        assert(program.trace(replies) =~= port.immediate(bytes, replies));
    }
}

} // verus!
