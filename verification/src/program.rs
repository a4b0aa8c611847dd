//! Requests to the device and programs made of them.
//!
//! The driver does not touch the device itself. Each of its operations is
//! carried out step by step: a step names a single request, the caller
//! performs it and hands the reply to the next step. What an operation does
//! from its beginning to its end, whatever the replies, is a [`Program`].

use vstd::prelude::*;

verus! {

/// A single action on the device or on the console.
#[derive(Clone, Copy, Debug, PartialEq, Eq, Structural)]
pub enum Request {
    /// Read 32 bits of device memory; the reply is the value read.
    Read32 { address: usize },
    /// Read 8 bits of device memory; the reply is the value read.
    Read8 { address: usize },
    /// Write 32 bits of device memory.
    Write32 { address: usize, data: u32 },
    /// Write 8 bits of device memory.
    Write8 { address: usize, byte: u8 },
    /// Give other work a chance before the device is polled again.
    Pause,
    /// Hand a received character to the console.
    Input { byte: u8 },
    /// Tell the console that characters have been received.
    Notify,
}

/// A write to the device.
pub open spec fn is_write(request: Request) -> bool {
    request is Write32 || request is Write8
}

/// The writes among requests, in order.
pub open spec fn writes(trace: Seq<Request>) -> Seq<Request>
    decreases trace.len(),
{
    if trace.len() == 0 {
        Seq::empty()
    } else if is_write(trace.last()) {
        writes(trace.drop_last()).push(trace.last())
    } else {
        writes(trace.drop_last())
    }
}

/// The reply to the last of the requests that is `request`, or `before`
/// where there is none.
pub open spec fn last_reply(
    before: Option<u32>,
    request: Request,
    trace: Seq<Request>,
    replies: Seq<u32>,
) -> Option<u32>
    decreases trace.len(),
{
    if trace.len() == 0 {
        before
    } else if trace.last() == request {
        Some(replies[trace.len() - 1])
    } else {
        last_reply(before, request, trace.drop_last(), replies)
    }
}

/// What has been observed once requests have got their replies, where
/// `update` adds what each of them shows.
pub open spec fn observe<S>(
    state: S,
    update: spec_fn(S, Request, u32) -> S,
    trace: Seq<Request>,
    replies: Seq<u32>,
) -> S
    decreases trace.len(),
{
    if trace.len() == 0 {
        state
    } else {
        update(
            observe(state, update, trace.drop_last(), replies),
            trace.last(),
            replies[trace.len() - 1],
        )
    }
}

/// What an operation wants next.
#[derive(Debug, PartialEq, Eq)]
pub enum Step<R> {
    /// The request has to be performed and its reply handed back. The reply
    /// of a request that reads nothing does not matter.
    Perform(Request),
    /// The operation is over.
    Finished(R),
}

/// What an operation does, as a function of the replies to its requests.
pub enum Program<R> {
    /// Nothing is left to do.
    Finish { result: R },
    /// Make a request and go on as its reply says.
    Ask { request: Request, next: spec_fn(u32) -> Program<R> },
    /// Repeat a request until its reply is `ready`, then go on.
    Await { request: Request, ready: spec_fn(u32) -> bool, rest: Box<Program<R>> },
}

impl<R> Program<R> {
    /// Makes a request whose reply does not matter, then goes on with `next`.
    pub open spec fn perform(request: Request, next: Program<R>) -> Program<R> {
        Program::Ask { request, next: |_reply: u32| next }
    }

    /// The next request, or the result.
    pub open spec fn step(self) -> Step<R> {
        match self {
            Program::Finish { result } => Step::Finished(result),
            Program::Ask { request, .. } => Step::Perform(request),
            Program::Await { request, .. } => Step::Perform(request),
        }
    }

    /// What is left to do once the next request has got its reply.
    pub open spec fn after(self, reply: u32) -> Program<R> {
        match self {
            Program::Finish { .. } => self,
            Program::Ask { next, .. } => next(reply),
            Program::Await { ready, rest, .. } => if ready(reply) {
                *rest
            } else {
                self
            },
        }
    }

    /// What is left to do once as many requests as there are replies have
    /// got them, in order.
    pub open spec fn run(self, replies: Seq<u32>) -> Program<R>
        decreases replies.len(),
    {
        if replies.len() == 0 {
            self
        } else {
            self.after(replies[0]).run(replies.drop_first())
        }
    }

    /// The requests that get these replies. They are fewer than the replies
    /// only where the program finishes first.
    pub open spec fn trace(self, replies: Seq<u32>) -> Seq<Request>
        decreases replies.len(),
    {
        if replies.len() == 0 {
            Seq::empty()
        } else {
            match self.step() {
                Step::Finished(_) => Seq::empty(),
                Step::Perform(request) => seq![request] + self.after(replies[0]).trace(
                    replies.drop_first(),
                ),
            }
        }
    }

    /// Every request that the program can ever make is among the allowed
    /// ones.
    pub open spec fn only(self, allowed: spec_fn(Request) -> bool) -> bool
        decreases self,
    {
        match self {
            Program::Finish { .. } => true,
            Program::Ask { request, next } => allowed(request) && forall|reply: u32|
                (#[trigger] next(reply)).only(allowed),
            Program::Await { request, rest, .. } => allowed(request) && rest.only(allowed),
        }
    }

    /// Every result that the program can ever finish with is among the
    /// expected ones.
    pub open spec fn yields_only(self, expected: spec_fn(R) -> bool) -> bool
        decreases self,
    {
        match self {
            Program::Finish { result } => expected(result),
            Program::Ask { next, .. } => forall|reply: u32|
                (#[trigger] next(reply)).yields_only(expected),
            Program::Await { rest, .. } => rest.yields_only(expected),
        }
    }

    /// The result, if nothing is left to do.
    pub open spec fn result(self) -> Option<R> {
        match self {
            Program::Finish { result } => Some(result),
            _ => None,
        }
    }

    /// At every point of every run, what has been observed and the result,
    /// if there is one, are as expected. `state` is what has been observed
    /// before. Repeating a request that is not ready shows nothing new.
    pub open spec fn always<S>(
        self,
        state: S,
        update: spec_fn(S, Request, u32) -> S,
        expected: spec_fn(S, Option<R>) -> bool,
    ) -> bool
        decreases self,
    {
        &&& expected(state, self.result())
        &&& match self {
            Program::Finish { .. } => true,
            Program::Ask { request, next } => forall|reply: u32|
                (#[trigger] next(reply)).always(update(state, request, reply), update, expected),
            Program::Await { request, ready, rest } => forall|reply: u32|
                if #[trigger] ready(reply) {
                    rest.always(update(state, request, reply), update, expected)
                } else {
                    update(state, request, reply) == state
                },
        }
    }

    /// The program finishes after at most `limit` requests, whatever their
    /// replies are.
    pub open spec fn finishes_within(self, limit: int) -> bool
        decreases self,
    {
        match self {
            Program::Finish { .. } => 0 <= limit,
            Program::Ask { next, .. } => 0 < limit && forall|reply: u32|
                (#[trigger] next(reply)).finishes_within(limit - 1),
            Program::Await { .. } => false,
        }
    }
}

impl Program<()> {
    /// The program followed by another one.
    pub open spec fn then_run<R>(self, second: Program<R>) -> Program<R>
        decreases self,
    {
        match self {
            Program::Finish { .. } => second,
            Program::Ask { request, next } => Program::Ask {
                request,
                next: |reply: u32| next(reply).then_run(second),
            },
            Program::Await { request, ready, rest } => Program::Await {
                request,
                ready,
                rest: Box::new(rest.then_run(second)),
            },
        }
    }
}

/// Every request made in a run is an allowed one.
pub proof fn law_run_makes_only_allowed_requests<R>(
    program: Program<R>,
    allowed: spec_fn(Request) -> bool,
    replies: Seq<u32>,
)
    requires
        program.only(allowed),
    ensures
        forall|i: int|
            0 <= i < program.trace(replies).len() ==> allowed(#[trigger] program.trace(replies)[i]),
    decreases replies.len(),
{
    if replies.len() != 0 && program.step() is Perform {
        let rest = program.after(replies[0]);
        let tail = replies.drop_first();
        law_run_makes_only_allowed_requests(rest, allowed, tail);
        assert forall|i: int| 0 <= i < program.trace(replies).len() implies allowed(
            #[trigger] program.trace(replies)[i],
        ) by {
            if i > 0 {
                assert(program.trace(replies)[i] == rest.trace(tail)[i - 1]);
            }
        }
    }
}

/// What only makes some requests only makes more of them.
pub proof fn lemma_only_of_more<R>(
    program: Program<R>,
    fewer: spec_fn(Request) -> bool,
    more: spec_fn(Request) -> bool,
)
    requires
        program.only(fewer),
        forall|request: Request| #[trigger] fewer(request) ==> more(request),
    ensures
        program.only(more),
    decreases program,
{
    match program {
        Program::Finish { .. } => {},
        Program::Ask { request, next } => {
            assert(fewer(request));
            assert forall|reply: u32| (#[trigger] next(reply)).only(more) by {
                lemma_only_of_more(next(reply), fewer, more);
            }
        },
        Program::Await { request, rest, .. } => {
            assert(fewer(request));
            lemma_only_of_more(*rest, fewer, more);
        },
    }
}

/// Two programs that only make allowed requests do so one after the other.
pub proof fn lemma_only_of_both<R>(
    first: Program<()>,
    second: Program<R>,
    allowed: spec_fn(Request) -> bool,
)
    requires
        first.only(allowed),
        second.only(allowed),
    ensures
        first.then_run(second).only(allowed),
    decreases first,
{
    match first {
        Program::Finish { .. } => {},
        Program::Ask { next, .. } => {
            assert forall|reply: u32| (#[trigger] next(reply)).then_run(second).only(allowed) by {
                lemma_only_of_both(next(reply), second, allowed);
            }
        },
        Program::Await { rest, .. } => {
            lemma_only_of_both(*rest, second, allowed);
        },
    }
}

/// The result of a run is an expected one.
pub proof fn law_run_yields_expected_result<R>(
    program: Program<R>,
    expected: spec_fn(R) -> bool,
    replies: Seq<u32>,
)
    requires
        program.yields_only(expected),
    ensures
        program.run(replies) matches Program::Finish { result } ==> expected(result),
    decreases replies.len(),
{
    if replies.len() != 0 {
        law_run_yields_expected_result(program.after(replies[0]), expected, replies.drop_first());
    }
}

/// What is observed in a run, and its result, are as expected.
pub proof fn law_run_meets_expectations<S, R>(
    program: Program<R>,
    state: S,
    update: spec_fn(S, Request, u32) -> S,
    expected: spec_fn(S, Option<R>) -> bool,
    replies: Seq<u32>,
)
    requires
        program.always(state, update, expected),
    ensures
        expected(
            observe(state, update, program.trace(replies), replies),
            program.run(replies).result(),
        ),
    decreases replies.len(),
{
    if replies.len() == 0 {
    } else if program is Finish {
        lemma_finished_stays_finished(program, replies);
    } else {
        let request = program.step()->Perform_0;
        let rest = program.after(replies[0]);
        let tail = replies.drop_first();
        let later = update(state, request, replies[0]);
        assert(rest.always(later, update, expected));
        law_run_meets_expectations(rest, later, update, expected, tail);
        lemma_trace_length(rest, tail);
        lemma_observe_first(state, update, program.trace(replies), replies);
        assert(program.trace(replies).drop_first() =~= rest.trace(tail));
    }
}

/// What the first request shows is observed before all the rest.
pub proof fn lemma_observe_first<S>(
    state: S,
    update: spec_fn(S, Request, u32) -> S,
    trace: Seq<Request>,
    replies: Seq<u32>,
)
    requires
        0 < trace.len() <= replies.len(),
    ensures
        observe(state, update, trace, replies) == observe(
            update(state, trace[0], replies[0]),
            update,
            trace.drop_first(),
            replies.drop_first(),
        ),
    decreases trace.len(),
{
    let front = trace.drop_last();
    if trace.len() == 1 {
        reveal_with_fuel(observe, 2);
        assert(front =~= Seq::<Request>::empty());
        assert(trace.drop_first() =~= Seq::<Request>::empty());
    } else {
        lemma_observe_first(state, update, front, replies);
        assert(trace.drop_first().drop_last() =~= front.drop_first());
        assert(trace.drop_first().last() == trace.last());
    }
}

/// A reply to the first request is the last one where no later request asks
/// the same.
pub proof fn lemma_last_reply_first(
    before: Option<u32>,
    request: Request,
    trace: Seq<Request>,
    replies: Seq<u32>,
)
    requires
        0 < trace.len() <= replies.len(),
    ensures
        last_reply(before, request, trace, replies) == last_reply(
            if trace[0] == request {
                Some(replies[0])
            } else {
                before
            },
            request,
            trace.drop_first(),
            replies.drop_first(),
        ),
    decreases trace.len(),
{
    let front = trace.drop_last();
    if trace.len() == 1 {
        assert(front =~= Seq::<Request>::empty());
        assert(trace.drop_first() =~= Seq::<Request>::empty());
    } else {
        lemma_last_reply_first(before, request, front, replies);
        assert(trace.drop_first().drop_last() =~= front.drop_first());
        assert(trace.drop_first().last() == trace.last());
    }
}

/// Steps that take their progress from one to the next, as those of an
/// operation do, together run the program that the first of them begins.
pub proof fn law_steps_run_the_program<P, R>(
    from: spec_fn(P, u32) -> Program<R>,
    progress: Seq<P>,
    replies: Seq<u32>,
    i: int,
)
    requires
        progress.len() == replies.len() + 1,
        forall|k: int, reply: u32|
            0 <= k < replies.len() ==> #[trigger] from(progress[k + 1], reply) == from(
                progress[k],
                replies[k],
            ).after(reply),
        0 <= i < replies.len(),
    ensures
        from(progress[i], replies[i]) == from(progress[0], replies[0]).run(
            replies.subrange(1, i + 1),
        ),
    decreases i,
{
    let program = from(progress[0], replies[0]);
    if i > 0 {
        law_steps_run_the_program(from, progress, replies, i - 1);
        let k = i - 1;
        assert(from(progress[k + 1], replies[i]) == from(progress[k], replies[k]).after(
            replies[i],
        ));
        lemma_run_one_more(program, replies.subrange(1, i), replies[i]);
        assert(replies.subrange(1, i).push(replies[i]) =~= replies.subrange(1, i + 1));
    }
}

/// One more reply takes a run one request further.
proof fn lemma_run_one_more<R>(program: Program<R>, replies: Seq<u32>, reply: u32)
    ensures
        program.run(replies.push(reply)) == program.run(replies).after(reply),
    decreases replies.len(),
{
    if replies.len() == 0 {
        assert(replies.push(reply).drop_first() =~= Seq::<u32>::empty());
        reveal_with_fuel(Program::run, 2);
    } else {
        lemma_run_one_more(program.after(replies[0]), replies.drop_first(), reply);
        assert(replies.push(reply).drop_first() =~= replies.drop_first().push(reply));
    }
}

/// A run is the program itself before any reply, and one more reply takes it
/// one request further.
pub proof fn law_run_goes_on_with_each_reply<R>(program: Program<R>, replies: Seq<u32>, reply: u32)
    ensures
        program.run(Seq::empty()) == program,
        program.run(replies.push(reply)) == program.run(replies).after(reply),
{
    lemma_run_one_more(program, replies, reply);
}

/// The trace is empty before any reply. One more reply adds the request that
/// the run asked for, unless the run was over.
pub proof fn law_trace_grows_with_the_steps<R>(program: Program<R>, replies: Seq<u32>, reply: u32)
    ensures
        program.trace(Seq::empty()) == Seq::<Request>::empty(),
        program.trace(replies.push(reply)) == match program.run(replies).step() {
            Step::Perform(request) => program.trace(replies).push(request),
            Step::Finished(_) => program.trace(replies),
        },
        program.run(replies).step() is Perform ==> program.trace(replies).len() == replies.len(),
    decreases replies.len(),
{
    if replies.len() == 0 {
        assert(replies =~= Seq::<u32>::empty());
        assert(replies.push(reply).drop_first() =~= Seq::<u32>::empty());
        reveal_with_fuel(Program::trace, 2);
        assert(program.trace(replies.push(reply)) =~= match program.step() {
            Step::Perform(request) => Seq::empty().push(request),
            Step::Finished(_) => Seq::empty(),
        });
    } else if program is Finish {
        lemma_finished_stays_finished(program, replies);
        lemma_finished_stays_finished(program, replies.push(reply));
    } else {
        let rest = program.after(replies[0]);
        let tail = replies.drop_first();
        law_trace_grows_with_the_steps(rest, tail, reply);
        assert(replies.push(reply).drop_first() =~= tail.push(reply));
        assert(program.trace(replies) =~= seq![program.step()->Perform_0] + rest.trace(tail));
        assert(program.trace(replies.push(reply)) =~= seq![program.step()->Perform_0]
            + rest.trace(tail.push(reply)));
        assert(program.trace(replies.push(reply)) =~= match program.run(replies).step() {
            Step::Perform(request) => program.trace(replies).push(request),
            Step::Finished(_) => program.trace(replies),
        });
    }
}

/// The last request of a run that was not over before, and where the run
/// stood when it was made.
pub proof fn lemma_last_request<R>(program: Program<R>, replies: Seq<u32>)
    requires
        replies.len() > 0,
        program.trace(replies).len() == replies.len(),
    ensures
        program.trace(replies.drop_last()) == program.trace(replies).drop_last(),
        program.trace(replies.drop_last()).len() == replies.drop_last().len(),
        program.run(replies.drop_last()).step() == Step::<R>::Perform(
            program.trace(replies).last(),
        ),
        program.run(replies) == program.run(replies.drop_last()).after(replies.last()),
{
    let front = replies.drop_last();
    assert(front.push(replies.last()) =~= replies);
    law_run_goes_on_with_each_reply(program, front, replies.last());
    law_trace_grows_with_the_steps(program, front, replies.last());
    lemma_trace_length(program, front);
    assert(program.trace(replies).drop_last() =~= program.trace(front));
}

/// The trace lists the requests that the steps of a run name, one by one.
pub proof fn law_trace_lists_the_steps<R>(program: Program<R>, replies: Seq<u32>, i: int)
    requires
        0 <= i < program.trace(replies).len(),
    ensures
        program.run(replies.take(i)).step() == Step::<R>::Perform(program.trace(replies)[i]),
    decreases i,
{
    if i == 0 {
        assert(replies.take(0) =~= Seq::<u32>::empty());
    } else {
        let rest = program.after(replies[0]);
        let tail = replies.drop_first();
        lemma_trace_length(program, replies);
        assert(program.trace(replies)[i] == rest.trace(tail)[i - 1]);
        law_trace_lists_the_steps(rest, tail, i - 1);
        assert(replies.take(i).drop_first() =~= tail.take(i - 1));
    }
}

/// A run of a bounded program is over when the bound is reached.
pub proof fn law_bounded_run_finishes<R>(program: Program<R>, limit: int, replies: Seq<u32>)
    requires
        program.finishes_within(limit),
    ensures
        program.trace(replies).len() <= limit,
        limit <= replies.len() ==> program.run(replies) is Finish,
    decreases replies.len(),
{
    if replies.len() != 0 {
        let rest = program.after(replies[0]);
        if program is Finish {
            lemma_finished_stays_finished(program, replies);
        } else {
            law_bounded_run_finishes(rest, limit - 1, replies.drop_first());
        }
    }
}

/// A bound may be raised.
pub proof fn lemma_bound_may_be_raised<R>(program: Program<R>, limit: int, larger: int)
    requires
        program.finishes_within(limit),
        limit <= larger,
    ensures
        program.finishes_within(larger),
    decreases program,
{
    if let Program::Ask { next, .. } = program {
        assert forall|reply: u32| (#[trigger] next(reply)).finishes_within(larger - 1) by {
            lemma_bound_may_be_raised(next(reply), limit - 1, larger - 1);
        }
    }
}

/// A program that is followed by another one makes its own requests first.
pub proof fn law_first_program_goes_first<R>(
    first: Program<()>,
    second: Program<R>,
    reply: u32,
)
    ensures
        first is Finish ==> first.then_run(second) == second,
        first.step() matches Step::Perform(request) ==> {
            &&& first.then_run(second).step() == Step::<R>::Perform(request)
            &&& first.then_run(second).after(reply) == first.after(reply).then_run(second)
        },
{
}

/// There are at most as many requests as replies.
pub proof fn lemma_trace_length<R>(program: Program<R>, replies: Seq<u32>)
    ensures
        program.trace(replies).len() <= replies.len(),
    decreases replies.len(),
{
    if replies.len() != 0 {
        lemma_trace_length(program.after(replies[0]), replies.drop_first());
    }
}

/// The first two requests of a run, and what follows them.
pub proof fn lemma_two_requests<R>(program: Program<R>, replies: Seq<u32>)
    requires
        replies.len() >= 2,
        program.step() is Perform,
        program.after(replies[0]).step() is Perform,
    ensures
        ({
            let second = program.after(replies[0]);
            let third = second.after(replies[1]);
            &&& program.run(replies) == third.run(replies.skip(2))
            &&& program.trace(replies) == seq![
                program.step()->Perform_0,
                second.step()->Perform_0,
            ] + third.trace(replies.skip(2))
        }),
{
    let second = program.after(replies[0]);
    let third = second.after(replies[1]);
    let tail = replies.drop_first();
    assert(tail.drop_first() =~= replies.skip(2));
    assert(tail[0] == replies[1]);
    assert(program.run(replies) == second.run(tail));
    assert(second.run(tail) == third.run(replies.skip(2)));
    assert(second.trace(tail) =~= seq![second.step()->Perform_0] + third.trace(replies.skip(2)));
    assert(program.trace(replies) =~= seq![program.step()->Perform_0] + second.trace(tail));
    assert(program.trace(replies) =~= seq![
        program.step()->Perform_0,
        second.step()->Perform_0,
    ] + third.trace(replies.skip(2)));
}

/// A finished program makes no more requests and keeps its result.
pub proof fn lemma_finished_stays_finished<R>(program: Program<R>, replies: Seq<u32>)
    requires
        program is Finish,
    ensures
        program.run(replies) == program,
        program.trace(replies) == Seq::<Request>::empty(),
    decreases replies.len(),
{
    if replies.len() != 0 {
        lemma_finished_stays_finished(program, replies.drop_first());
    }
}

} // verus!
