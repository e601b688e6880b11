//! One connection: what becomes of the bytes that QEMU sends.
//!
//! Reading from and writing to the connection happens elsewhere. A [`Session`]
//! is given what was read and says what comes next.

use crate::codec_laws::{
    encoded_all, joined, law_frames_round_trip, law_message_round_trip, law_pieces_do_not_matter,
    lemma_joined_from_the_front,
};
use crate::error::{ErrorModel, RelayError};
use crate::openipmi::Backend;
use crate::vm_codec::{
    encode_message, encoded_message, frame_size, frames, lemma_unfinished_is_unterminated, outcome,
    outcomes, unfinished, Decoder, Frame, FrameModel, IpmiMessage, MessageModel,
};
use std::collections::VecDeque;
use std::time::Duration;
use vstd::prelude::*;

verus! {

/// What a session needs next.
#[derive(Debug, PartialEq, Eq)]
pub enum Step {
    /// Read more bytes.
    Read,
    /// Have this request answered.
    Forward(IpmiMessage),
    /// Pass over this control command.
    Ignore(Vec<u8>),
    /// Nothing: the connection is over, for this reason if any.
    Finish(Result<(), RelayError>),
}

/// A [`Step`] with its contents as sequences.
#[verifier::ext_equal]
pub enum StepModel {
    Read,
    Forward(MessageModel),
    Ignore(Seq<u8>),
    Finish(Result<(), ErrorModel>),
}

impl View for Step {
    type V = StepModel;

    open spec fn view(&self) -> StepModel {
        match self {
            Step::Read => StepModel::Read,
            Step::Forward(request) => StepModel::Forward(request@),
            Step::Ignore(command) => StepModel::Ignore(command@),
            Step::Finish(Ok(())) => StepModel::Finish(Ok(())),
            Step::Finish(Err(error)) => StepModel::Finish(Err(error@)),
        }
    }
}

/// The state of a session.
#[verifier::ext_equal]
pub struct SessionModel {
    /// The bytes since the last terminator.
    pub pending: Seq<u8>,
    /// How many bytes a frame may hold.
    pub limit: nat,
    /// The frames that have come and have not been dealt with.
    pub queue: Seq<Result<FrameModel, ErrorModel>>,
    /// Whether nothing more is read.
    pub closed: bool,
}

/// A session that has read nothing.
pub open spec fn fresh_session(limit: nat) -> SessionModel {
    SessionModel { pending: seq![], limit, queue: seq![], closed: false }
}

/// What comes next for a frame.
pub open spec fn step_for(frame: Result<FrameModel, ErrorModel>) -> StepModel {
    match frame {
        Ok(FrameModel::Message(request)) => StepModel::Forward(request),
        Ok(FrameModel::Command(command)) => StepModel::Ignore(command),
        Err(error) => StepModel::Finish(Err(error)),
    }
}

impl SessionModel {
    /// The session after it was given `input`. No bytes mean the end of the
    /// stream; behind that, nothing is taken any more.
    pub open spec fn received(self, input: Seq<u8>) -> SessionModel {
        if self.closed {
            self
        } else if input.len() == 0 {
            SessionModel { closed: true, ..self }
        } else {
            SessionModel {
                pending: unfinished(self.pending + input),
                queue: self.queue + frames(self.pending + input, self.limit),
                ..self
            }
        }
    }

    /// What comes next: the oldest frame, or more bytes, or the end.
    pub open spec fn step(self) -> StepModel {
        if self.queue.len() > 0 {
            step_for(self.queue[0])
        } else if self.closed {
            StepModel::Finish(Ok(()))
        } else {
            StepModel::Read
        }
    }

    /// The session once it has said what comes next. A broken frame ends it,
    /// whatever came behind that frame.
    pub open spec fn stepped(self) -> SessionModel {
        if self.queue.len() == 0 {
            self
        } else if self.queue[0] is Err {
            SessionModel { queue: seq![], closed: true, ..self }
        } else {
            SessionModel { queue: self.queue.drop_first(), ..self }
        }
    }

    /// The session after `count` steps.
    pub open spec fn after(self, count: nat) -> SessionModel
        decreases count,
    {
        if count == 0 {
            self
        } else {
            self.after((count - 1) as nat).stepped()
        }
    }
}

/// A connection while it is served.
pub struct Session {
    decoder: Decoder,
    queue: VecDeque<Result<Frame, RelayError>>,
    closed: bool,
}

impl View for Session {
    type V = SessionModel;

    closed spec fn view(&self) -> SessionModel {
        SessionModel {
            pending: self.decoder.pending(),
            limit: self.decoder.limit(),
            queue: outcomes(self.queue@),
            closed: self.closed,
        }
    }
}

impl Session {
    /// The decoder is in order.
    pub closed spec fn wf(&self) -> bool {
        self.decoder.wf()
    }

    /// Starts to serve a connection whose frames hold up to `max_frame_size`
    /// bytes.
    pub fn new(max_frame_size: usize) -> (session: Self)
        ensures
            session.wf(),
            session@ == fresh_session(max_frame_size as nat),
    {
        let session = Session {
            decoder: Decoder::new(max_frame_size),
            queue: VecDeque::new(),
            closed: false,
        };
        assert(session@ == fresh_session(max_frame_size as nat));
        session
    }

    /// Takes what was read from the connection; nothing, where it has ended.
    pub fn receive(&mut self, input: &[u8])
        requires
            old(self).wf(),
        ensures
            final(self).wf(),
            final(self)@ == old(self)@.received(input@),
    {
        if self.closed {
            return;
        }
        if input.len() == 0 {
            self.closed = true;
            return;
        }
        let ghost before = self.queue@;
        let results = self.decoder.push(input);
        let ghost all = results@;
        let ghost decoder = self.decoder;
        for result in iter: results
            invariant
                iter.seq() == all,
                self.queue@ == before + all.take(iter.index()),
                self.decoder == decoder,
                !self.closed,
        {
            self.queue.push_back(result);
            assert(before + all.take(iter.index() + 1) == (before + all.take(iter.index())).push(
                all[iter.index()],
            ));
        }
        assert(all.take(all.len() as int) == all);
        assert(self.queue@ == before + all);
        assert(outcomes(before + all) == outcomes(before) + outcomes(all));
    }

    /// Says what comes next.
    pub fn step(&mut self) -> (step: Step)
        requires
            old(self).wf(),
        ensures
            final(self).wf(),
            final(self)@ == old(self)@.stepped(),
            step@ == old(self)@.step(),
    {
        let ghost before = self.queue@;
        match self.queue.pop_front() {
            None => {
                if self.closed {
                    Step::Finish(Ok(()))
                } else {
                    Step::Read
                }
            },
            Some(frame) => {
                assert(outcomes(before)[0] == outcome(frame));
                assert(outcomes(before).drop_first() == outcomes(before.drop_first()));
                match frame {
                    Ok(Frame::Message(request)) => Step::Forward(request),
                    Ok(Frame::Command(command)) => Step::Ignore(command),
                    Err(error) => {
                        self.queue.clear();
                        self.closed = true;
                        assert(outcomes(self.queue@)
                            == Seq::<Result<FrameModel, ErrorModel>>::empty());
                        Step::Finish(Err(error))
                    },
                }
            },
        }
    }
}

/// The bytes that are sent back for what came of a request: the answer, or
/// nothing where there is none.
pub open spec fn reply_bytes(answer: Result<MessageModel, ErrorModel>) -> Option<Seq<u8>> {
    match answer {
        Ok(message) => Some(encoded_message(message)),
        Err(_) => None,
    }
}

/// The model of what came of a request.
pub open spec fn answer_model(answer: Result<IpmiMessage, RelayError>) -> Result<
    MessageModel,
    ErrorModel,
> {
    match answer {
        Ok(message) => Ok(message@),
        Err(error) => Err(error@),
    }
}

/// The bytes of a line, if there is one.
pub open spec fn line_bytes(line: Option<Vec<u8>>) -> Option<Seq<u8>> {
    match line {
        Some(bytes) => Some(bytes@),
        None => None,
    }
}

/// Returns what is sent back for what came of a request. Where the backend
/// failed that is nothing: QEMU then answers its guest with a timeout.
pub fn reply(answer: Result<IpmiMessage, RelayError>) -> (line: Option<Vec<u8>>)
    ensures
        line_bytes(line) == reply_bytes(answer_model(answer)),
{
    match answer {
        Ok(message) => Some(encode_message(&message)),
        Err(_) => None,
    }
}

/// One call of a backend: what it was asked and what it answered.
#[verifier::ext_equal]
pub struct CallModel {
    pub request: MessageModel,
    pub timeout: Duration,
    pub answer: Result<MessageModel, ErrorModel>,
}

/// Something that is asked, and the record of the calls that were made of it.
///
/// How it is asked is given with each call, as a function that can be called
/// only once: the record misses no call.
pub struct Recorded<'a, B> {
    backend: &'a B,
    calls: Ghost<Seq<CallModel>>,
}

impl<'a, B> Recorded<'a, B> {
    /// What is asked.
    pub closed spec fn backend(&self) -> &'a B {
        self.backend
    }

    /// The calls so far, the oldest first.
    pub closed spec fn calls(&self) -> Seq<CallModel> {
        self.calls@
    }

    /// Starts a record without calls.
    pub fn new(backend: &'a B) -> (recorded: Self)
        ensures
            recorded.backend() == backend,
            recorded.calls() == Seq::<CallModel>::empty(),
    {
        Recorded { backend, calls: Ghost(Seq::empty()) }
    }

    /// Has `request` answered by `ask`, once, puts that on record, and returns
    /// what is sent back for this one answer.
    pub fn forward<F: FnOnce(&B, &IpmiMessage, Duration) -> Result<IpmiMessage, RelayError>>(
        &mut self,
        ask: F,
        request: &IpmiMessage,
        timeout: Duration,
    ) -> (line: Option<Vec<u8>>)
        requires
            call_requires(ask, (old(self).backend(), request, timeout)),
        ensures
            final(self).backend() == old(self).backend(),
            final(self).calls().len() == old(self).calls().len() + 1,
            exists|answer: Result<IpmiMessage, RelayError>|
                {
                    &&& #[trigger] call_ensures(
                        ask,
                        (old(self).backend(), request, timeout),
                        answer,
                    )
                    &&& final(self).calls() == old(self).calls().push(
                        CallModel { request: request@, timeout, answer: answer_model(answer) },
                    )
                    &&& line_bytes(line) == reply_bytes(answer_model(answer))
                },
    {
        let answer = ask(self.backend, request, timeout);
        self.calls = Ghost(
            self.calls@.push(
                CallModel { request: request@, timeout, answer: answer_model(answer) },
            ),
        );
        reply(answer)
    }
}

/// Has `request` answered by `backend` and returns what is sent back.
pub fn forward<B: Backend>(backend: &B, request: &IpmiMessage, timeout: Duration) -> (line: Option<
    Vec<u8>,
>)
    ensures
        exists|answer: Result<IpmiMessage, RelayError>| #[trigger]
            call_ensures(B::transact, (backend, request, timeout), answer) && line_bytes(line)
                == reply_bytes(answer_model(answer)),
{
    let mut recorded = Recorded::new(backend);
    let line = recorded.forward(B::transact, request, timeout);
    assert(recorded.calls().len() == 1);
    assert(recorded.calls()[0].request == request@);
    assert(recorded.calls()[0].timeout == timeout);
    assert(line_bytes(line) == reply_bytes(recorded.calls()[0].answer));
    line
}

/// How a stream is cut into pieces makes no difference to a session.
pub proof fn law_session_ignores_pieces(session: SessionModel, first: Seq<u8>, second: Seq<u8>)
    requires
        first.len() > 0,
        second.len() > 0,
    ensures
        session.received(first).received(second) == session.received(first + second),
{
    let stream = session.pending + first;
    law_pieces_do_not_matter(stream, second, session.limit);
    assert(session.pending + (first + second) == stream + second);
    let queue = session.queue;
    let limit = session.limit;
    let rest = frames(unfinished(stream) + second, limit);
    assert(queue + frames(stream, limit) + rest == queue + (frames(stream, limit) + rest));
}

/// It makes no difference whether more is read before or after a good frame is
/// dealt with.
pub proof fn law_reading_and_serving_commute(session: SessionModel, input: Seq<u8>)
    requires
        !session.closed,
        session.queue.len() > 0,
        session.queue[0] is Ok,
    ensures
        session.received(input).step() == session.step(),
        session.stepped().received(input) == session.received(input).stepped(),
{
    let more = frames(session.pending + input, session.limit);
    assert((session.queue + more).drop_first() == session.queue.drop_first() + more);
}

/// Every request that fits is forwarded as it was sent, whatever its command,
/// and every answer is sent back as it was given.
pub proof fn law_relay_is_transparent(limit: nat, request: MessageModel, answer: MessageModel)
    requires
        request.data.len() + 4 <= limit,
    ensures
        ({
            let session = fresh_session(limit).received(encoded_message(request));
            &&& session.step() == StepModel::Forward(request)
            &&& session.stepped() == fresh_session(limit)
            &&& reply_bytes(Ok(answer)) == Some(encoded_message(answer))
        }),
{
    let line = encoded_message(request);
    let empty = Seq::<u8>::empty();
    law_message_round_trip(empty, request, limit);
    assert(empty + line == line);
    let session = fresh_session(limit).received(line);
    assert(session.queue == seq![Ok::<FrameModel, ErrorModel>(FrameModel::Message(request))]);
    assert(session.stepped() == fresh_session(limit));
}

/// The frames of a stream are dealt with one by one and in their order, and
/// then more is read.
pub proof fn law_frames_are_served_in_order(limit: nat, list: Seq<FrameModel>, count: nat)
    requires
        list.len() > 0,
        forall|i: int| 0 <= i < list.len() ==> 0 < frame_size(#[trigger] list[i]) <= limit,
        count <= list.len(),
    ensures
        fresh_session(limit).received(encoded_all(list)).after(count).step() == if count
            < list.len() {
            step_for(Ok(list[count as int]))
        } else {
            StepModel::Read
        },
{
    let line = encoded_all(list);
    let session = fresh_session(limit).received(line);
    law_frames_round_trip(list, limit);
    assert(Seq::<u8>::empty() + line == line);
    let none = Seq::<Result<FrameModel, ErrorModel>>::empty();
    assert(none + frames(line, limit) == frames(line, limit));
    assert(forall|i: int| 0 <= i < session.queue.len() ==> session.queue[i] is Ok);
    lemma_after_good_frames(session, count);
}

/// The steps other than [`Step::Read`] of a session that is given the next of
/// `pieces` whenever it asks for more, and the end of the stream behind them.
pub open spec fn connection_steps(session: SessionModel, pieces: Seq<Seq<u8>>) -> Seq<StepModel>
    decreases pieces.len(), !session.closed as int, session.queue.len(),
{
    match session.step() {
        StepModel::Read => if pieces.len() > 0 {
            connection_steps(session.received(pieces[0]), pieces.drop_first())
        } else {
            connection_steps(session.received(seq![]), pieces)
        },
        StepModel::Finish(result) => seq![StepModel::Finish(result)],
        step => seq![step] + connection_steps(session.stepped(), pieces),
    }
}

/// The steps that a connection owes to its frames: one for each, up to and
/// with the first broken one; without a broken one, an end without an error.
pub open spec fn owed_steps(results: Seq<Result<FrameModel, ErrorModel>>) -> Seq<StepModel>
    decreases results.len(),
{
    if results.len() == 0 {
        seq![StepModel::Finish(Ok(()))]
    } else if results[0] is Err {
        seq![step_for(results[0])]
    } else {
        seq![step_for(results[0])] + owed_steps(results.drop_first())
    }
}

/// However a stream is cut into pieces, and whatever the backend makes of the
/// requests, a connection takes the steps that the frames of the whole stream
/// call for: each good frame is dealt with once and in its order, the first
/// broken one ends the connection, and otherwise the end of the stream does.
pub proof fn law_connection_serves_its_stream(limit: nat, pieces: Seq<Seq<u8>>)
    requires
        forall|i: int| 0 <= i < pieces.len() ==> #[trigger] pieces[i].len() > 0,
    ensures
        connection_steps(fresh_session(limit), pieces) == owed_steps(frames(joined(pieces), limit)),
{
    lemma_connection_serves_the_rest(fresh_session(limit), pieces);
    let none = Seq::<Result<FrameModel, ErrorModel>>::empty();
    assert(Seq::<u8>::empty() + joined(pieces) == joined(pieces));
    assert(none + frames(joined(pieces), limit) == frames(joined(pieces), limit));
}

/// An open session takes the steps that its queue and the rest of the stream
/// call for.
proof fn lemma_connection_serves_the_rest(session: SessionModel, pieces: Seq<Seq<u8>>)
    requires
        !session.closed,
        unfinished(session.pending) == session.pending,
        forall|i: int| 0 <= i < pieces.len() ==> #[trigger] pieces[i].len() > 0,
    ensures
        connection_steps(session, pieces) == owed_steps(
            session.queue + frames(session.pending + joined(pieces), session.limit),
        ),
    decreases pieces.len(), session.queue.len(),
{
    let limit = session.limit;
    let rest = frames(session.pending + joined(pieces), limit);
    let results = session.queue + rest;
    if session.queue.len() > 0 {
        assert(results[0] == session.queue[0]);
        if session.queue[0] is Ok {
            lemma_connection_serves_the_rest(session.stepped(), pieces);
            assert(results.drop_first() == session.queue.drop_first() + rest);
        }
    } else if pieces.len() > 0 {
        let others = pieces.drop_first();
        let stream = session.pending + pieces[0];
        let next = session.received(pieces[0]);
        assert(forall|i: int| 0 <= i < others.len() ==> others[i] == #[trigger] pieces[i + 1]);
        lemma_unfinished_is_unterminated(stream, limit);
        lemma_connection_serves_the_rest(next, others);
        lemma_joined_from_the_front(pieces);
        law_pieces_do_not_matter(stream, joined(others), limit);
        assert(session.pending + joined(pieces) == stream + joined(others));
        assert(next.queue == frames(stream, limit));
        assert(results == rest);
    } else {
        lemma_unfinished_is_unterminated(session.pending, limit);
        assert(session.pending + joined(pieces) == session.pending);
        assert(results.len() == 0);
        let ended = session.received(seq![]);
        assert(ended.step() == StepModel::Finish(Ok(())));
        assert(connection_steps(ended, pieces) == seq![StepModel::Finish(Ok(()))]);
    }
}

/// Good frames leave the queue from its front.
proof fn lemma_after_good_frames(session: SessionModel, count: nat)
    requires
        count <= session.queue.len(),
        forall|i: int| 0 <= i < session.queue.len() ==> session.queue[i] is Ok,
    ensures
        session.after(count) == (SessionModel { queue: session.queue.skip(count as int), ..session }),
    decreases count,
{
    if count == 0 {
        assert(session.queue.skip(0) == session.queue);
    } else {
        lemma_after_good_frames(session, (count - 1) as nat);
        assert(session.queue.skip(count - 1).drop_first() == session.queue.skip(count as int));
    }
}

/// A request that the backend fails on is passed over in silence: nothing is
/// sent back, and the session goes on with what comes behind the request.
pub proof fn law_backend_failure_keeps_the_session(
    session: SessionModel,
    request: MessageModel,
    error: ErrorModel,
)
    requires
        session.step() == StepModel::Forward(request),
    ensures
        reply_bytes(Err(error)) is None,
        session.stepped() == (SessionModel { queue: session.queue.drop_first(), ..session }),
{
}

/// A broken frame ends the session: nothing behind it is forwarded, whether it
/// has come already or comes later.
pub proof fn law_broken_frame_ends_the_session(
    session: SessionModel,
    error: ErrorModel,
    input: Seq<u8>,
)
    requires
        session.step() == StepModel::Finish(Err(error)),
    ensures
        session.stepped().received(input) == session.stepped(),
        session.stepped().step() == StepModel::Finish(Ok(())),
        session.stepped().stepped() == session.stepped(),
{
}

/// The end of the stream ends the session without an error, but only once all
/// frames before it have been dealt with.
pub proof fn law_end_of_stream_ends_the_session(session: SessionModel)
    ensures
        session.queue.len() == 0 ==> session.received(seq![]).step() == StepModel::Finish(Ok(())),
        session.queue.len() > 0 ==> session.received(seq![]).step() == session.step(),
{
}

/// A control command is passed over, a message is forwarded, a broken frame
/// ends the connection with its error: always the oldest frame, always as it
/// is, and nothing else is ever forwarded, passed over or complained of.
pub proof fn law_step_is_that_of_the_oldest_frame(
    session: SessionModel,
    request: MessageModel,
    command: Seq<u8>,
    error: ErrorModel,
)
    ensures
        session.step() == StepModel::Forward(request) <==> session.queue.len() > 0
            && session.queue[0] == Ok::<FrameModel, ErrorModel>(FrameModel::Message(request)),
        session.step() == StepModel::Ignore(command) <==> session.queue.len() > 0
            && session.queue[0] == Ok::<FrameModel, ErrorModel>(FrameModel::Command(command)),
        session.step() == StepModel::Finish(Err(error)) <==> session.queue.len() > 0
            && session.queue[0] == Err::<FrameModel, ErrorModel>(error),
        session.step() == StepModel::Finish(Ok(())) <==> session.queue.len() == 0 && session.closed,
        session.step() == StepModel::Read <==> session.queue.len() == 0 && !session.closed,
{
}

/// A step takes the oldest frame from the queue and changes nothing else,
/// except that a broken frame empties the queue and closes the session.
pub proof fn law_step_takes_the_oldest_frame(session: SessionModel)
    ensures
        ({
            let next = session.stepped();
            let broken = session.queue.len() > 0 && session.queue[0] is Err;
            &&& next.pending == session.pending
            &&& next.limit == session.limit
            &&& next.closed <==> session.closed || broken
            &&& broken || session.queue.len() == 0 ==> next.queue.len() == 0
            &&& !broken && session.queue.len() > 0 ==> {
                &&& next.queue.len() == session.queue.len() - 1
                &&& forall|i: int|
                    0 <= i < next.queue.len() ==> #[trigger] next.queue[i] == session.queue[i + 1]
            }
        }),
{
}

/// Bytes that are read add the frames that they complete to the end of the
/// queue; no bytes close the session; a closed session takes nothing.
pub proof fn law_receiving_extends_the_queue(session: SessionModel, input: Seq<u8>)
    ensures
        ({
            let next = session.received(input);
            let taken = !session.closed && input.len() > 0;
            &&& next.limit == session.limit
            &&& next.closed <==> session.closed || input.len() == 0
            &&& !taken ==> next.pending == session.pending && next.queue == session.queue
            &&& taken ==> next.pending == unfinished(session.pending + input)
            &&& taken ==> next.queue == session.queue + frames(
                session.pending + input,
                session.limit,
            )
        }),
{
}

/// A fresh session has read nothing, owes nothing and is open.
pub proof fn law_fresh_session_is_empty(limit: nat)
    ensures
        fresh_session(limit).pending.len() == 0,
        fresh_session(limit).queue.len() == 0,
        fresh_session(limit).limit == limit,
        !fresh_session(limit).closed,
{
}

/// The model of a step has the contents of the step.
pub proof fn law_model_of_a_step(request: IpmiMessage, command: Vec<u8>, error: RelayError)
    ensures
        Step::Read@ == StepModel::Read,
        Step::Forward(request)@ == StepModel::Forward(request@),
        Step::Ignore(command)@ == StepModel::Ignore(command@),
        Step::Finish(Ok(()))@ == StepModel::Finish(Ok(())),
        Step::Finish(Err(error))@ == StepModel::Finish(Err(error@)),
{
}

/// What is sent back for an answer is the line of that very answer; for a
/// failure, nothing is.
pub proof fn law_reply_is_the_line_of_the_answer(
    message: IpmiMessage,
    error: RelayError,
    line: Vec<u8>,
)
    ensures
        line_bytes(Some(line)) == reply_bytes(answer_model(Ok(message))) <==> line@
            == encoded_message(message@),
        line_bytes(None) != reply_bytes(answer_model(Ok(message))),
        line_bytes(Some(line)) != reply_bytes(answer_model(Err(error))),
        line_bytes(None) == reply_bytes(answer_model(Err(error))),
{
}

/// The steps of a connection one by one, where the first `good` frames of its
/// stream are good and the one behind them, if any, is broken: each message is
/// forwarded once and each control command passed over once, at the place that
/// it has in the stream, and the last step tells how the stream ended.
pub proof fn law_connection_step_by_step(limit: nat, pieces: Seq<Seq<u8>>, good: nat)
    requires
        forall|i: int| 0 <= i < pieces.len() ==> #[trigger] pieces[i].len() > 0,
        good <= frames(joined(pieces), limit).len(),
        forall|i: int| 0 <= i < good ==> #[trigger] frames(joined(pieces), limit)[i] is Ok,
        good < frames(joined(pieces), limit).len() ==> frames(joined(pieces), limit)[good as int]
            is Err,
    ensures
        ({
            let results = frames(joined(pieces), limit);
            let steps = connection_steps(fresh_session(limit), pieces);
            &&& steps.len() == good + 1
            &&& forall|i: int|
                0 <= i < good ==> (#[trigger] results[i] matches Ok(FrameModel::Message(request))
                    ==> steps[i] == StepModel::Forward(request))
            &&& forall|i: int|
                0 <= i < good ==> (#[trigger] results[i] matches Ok(FrameModel::Command(command))
                    ==> steps[i] == StepModel::Ignore(command))
            &&& good == results.len() ==> steps[good as int] == StepModel::Finish(Ok(()))
            &&& good < results.len() ==> (results[good as int] matches Err(error)
                && steps[good as int] == StepModel::Finish(Err(error)))
        }),
{
    law_connection_serves_its_stream(limit, pieces);
    lemma_owed_steps_by_place(frames(joined(pieces), limit), good);
}

/// The owed steps one by one.
proof fn lemma_owed_steps_by_place(results: Seq<Result<FrameModel, ErrorModel>>, good: nat)
    requires
        good <= results.len(),
        forall|i: int| 0 <= i < good ==> #[trigger] results[i] is Ok,
        good < results.len() ==> results[good as int] is Err,
    ensures
        owed_steps(results).len() == good + 1,
        forall|i: int| 0 <= i < good ==> owed_steps(results)[i] == step_for(#[trigger] results[i]),
        owed_steps(results)[good as int] == if good < results.len() {
            step_for(results[good as int])
        } else {
            StepModel::Finish(Ok(()))
        },
    decreases results.len(),
{
    if good > 0 {
        let others = results.drop_first();
        assert(results[0] is Ok);
        assert(forall|i: int| 0 <= i < others.len() ==> others[i] == #[trigger] results[i + 1]);
        lemma_owed_steps_by_place(others, (good - 1) as nat);
        let steps = owed_steps(results);
        assert(steps == seq![step_for(results[0])] + owed_steps(others));
        assert forall|i: int| 0 <= i < good implies steps[i] == step_for(#[trigger] results[i]) by {
            if i > 0 {
                assert(steps[i] == owed_steps(others)[i - 1]);
                assert(others[i - 1] == results[i]);
            }
        }
    }
}

} // verus!
