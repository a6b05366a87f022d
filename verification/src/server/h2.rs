//! An HTTP/2 connection: its handshake, its requests, its keep-alive timer and its
//! end.

use std::rc::Rc;

use bytes::Bytes;
use http::header::{HeaderMap, HeaderValue};
use vstd::prelude::*;

use crate::buf::bytes_of;
use crate::error::HttpDispatchError;
use crate::server::entry::{
    payload_ended, payload_step, started_on, Entry, EntryFlags, PayloadEvent, PayloadStep,
};
use crate::server::io::IoWrapper;
use crate::server::pipe::{EntryPipe, HttpHandlerTask, Version, NOT_FOUND};
use crate::server::request::{Message, Parts};
use crate::task::{Async, Poll};

verus! {

/// What a connection has been through.
#[derive(Clone, Copy, Debug, PartialEq, Eq, Structural)]
pub struct Flags {
    /// The other side sends no more requests.
    pub disconnected: bool,
    /// The connection failed and is being closed.
    pub shutdown: bool,
}

/// Whether a connection is set up.
#[derive(Clone, Copy, Debug, PartialEq, Eq, Structural)]
pub enum State {
    /// The handshake goes on.
    Handshake,
    /// Requests are served.
    Connection,
}

/// What a connection waits to hear.
#[derive(Clone, Copy, Debug, PartialEq, Eq, Structural)]
pub enum Phase {
    /// Nothing: the last poll was answered.
    Idle,
    /// Whether the keep-alive timer fired.
    Timer,
    /// When the connection expires next, to set the timer.
    TimerExpire,
    /// That the timer was set.
    TimerReset,
    /// What came of the handshake.
    Handshake,
    /// That the body of a request was moved on.
    Payload(usize),
    /// Whether more of the body is wanted, before the task of a request writes.
    NeedRead(usize),
    /// What came of the writing. `retry` says whether more of the body was wanted
    /// before it.
    Io { entry: usize, retry: bool },
    /// Whether more of the body is wanted, after the task had nothing to write.
    NeedReadAgain { entry: usize, retry: bool },
    /// That the stream of a failed request was reset.
    Reset(usize),
    /// Whether the task of a request is finished.
    Completed(usize),
    /// Whether the response was handed to the connection.
    Flush(usize),
    /// Whether there is a new request.
    Request,
    /// When the connection expires next, now that there was a request.
    RequestExpire,
    /// The new request.
    Accept,
    /// Whether the connection is closed.
    Close,
}

/// What came of a [`Step`]. Instants are counted in ticks of one clock.
pub enum Event<T, E, W, R> {
    /// The connection is polled.
    Poll,
    /// What the keep-alive timer says: that it fired, with its deadline, or its
    /// failure.
    Timer(Poll<u64, ()>),
    /// When a connection that is used now expires, if it ever does.
    Expire(Option<u64>),
    /// That it was done.
    Done,
    /// What came of the handshake.
    Handshake(Poll<(), String>),
    /// Whether more of the request body is wanted.
    NeedRead(bool),
    /// What the task of the request answered when it was let write.
    Io(Poll<bool, ()>),
    /// What the task of the request answered when it was let finish.
    Completed(Poll<(), ()>),
    /// What the response writer answered when it was let finish.
    Flushed(Poll<(), ()>),
    /// Whether there is a new request. `Ready(None)` says that there will be none.
    Request(Poll<Option<()>, ()>),
    /// The new request.
    Accepted(Entry<T, E, W, R>),
    /// Whether the connection is closed.
    Closed(Poll<(), String>),
}

/// What is to be done next. The request that a step is about is given by its place
/// in the queue.
pub enum Step {
    /// Poll the keep-alive timer.
    PollTimer,
    /// Ask when a connection that is used now expires.
    KeepAliveExpire,
    /// Set the keep-alive timer and poll it once, whatever it says.
    ResetTimer(u64),
    /// Poll the handshake.
    PollHandshake,
    /// Move the body of the request on, see [`Http2::poll_payload`].
    PollPayload(usize),
    /// Ask whether more of the body of the request is wanted.
    NeedRead(usize),
    /// Let the task of the request write, see [`Http2::poll_io`].
    PollIo(usize),
    /// Reset the stream of the request with "internal error".
    ResetStream(usize),
    /// Let the task of the request finish, see [`Http2::poll_completed`].
    PollCompleted(usize),
    /// Let the response writer of the request finish.
    Flush(usize),
    /// Ask the connection for a new request.
    PollRequest,
    /// Hand the new request to its handler, see [`Http2::accept`].
    Accept,
    /// Close the connection.
    PollClose,
    /// Nothing: this is the answer to the poll.
    Return(Poll<(), HttpDispatchError>),
}

/// What a round asks of each request, in this order.
#[derive(Clone, Copy, Debug, PartialEq, Eq, Structural)]
pub enum Stage {
    Payload,
    Io,
    Completed,
    Flush,
}

/// The other side of a connection. `A` is an address, `X` what a byte stream has
/// besides.
pub struct Peer<A, X> {
    /// The address of the other side.
    pub addr: Option<A>,
    /// What the stream under the connection has besides.
    pub extensions: Option<Rc<X>>,
}

impl<A, X> Peer<A, X> {
    /// The message of a request from this peer.
    pub open spec fn message<U, M, P>(self, parts: Parts<U, M>, payload: P) -> Message<
        U,
        M,
        A,
        Rc<X>,
        P,
    > {
        Message::of(parts, payload, self.addr, self.extensions)
    }
}

/// The message of a request from a peer has the address and the extensions of that peer.
pub proof fn law_message_is_from_its_peer<U, M, A, X, P>(
    peer: Peer<A, X>,
    parts: Parts<U, M>,
    payload: P,
)
    ensures
        ({
            let message = peer.message(parts, payload);
            &&& message.addr == peer.addr
            &&& message.stream_extensions == peer.extensions
            &&& message.url == parts.uri
            &&& message.method == parts.method
            &&& message.version == parts.version
            &&& message.headers == parts.headers
            &&& message.payload == Some(payload)
        }),
{
}

/// A connection as its contracts speak of it. `K` says who is on its other side.
pub struct Conn<T, E, W, R, K> {
    pub flags: Flags,
    pub state: State,
    pub tasks: Seq<Entry<T, E, W, R>>,
    pub ka_expire: u64,
    pub ka_timer: bool,
    pub phase: Phase,
    pub peer: K,
}

/// The place of `stage` among the stages, counted from the last.
pub open spec fn stages_left(stage: Stage) -> nat {
    match stage {
        Stage::Payload => 3,
        Stage::Io => 2,
        Stage::Completed => 1,
        Stage::Flush => 0,
    }
}

/// Whether a request with flags `f` is asked at `stage`. `gone` says whether the
/// other side sends no more requests.
pub open spec fn wants(f: EntryFlags, gone: bool, stage: Stage) -> bool {
    match stage {
        Stage::Payload => !gone,
        Stage::Io => !gone && !f.eof,
        Stage::Completed => f.eof && !f.finished,
        Stage::Flush => f.finished && !f.write_done && !gone,
    }
}

/// What asking request `i` at `stage` starts with.
pub open spec fn step_at(stage: Stage, i: usize) -> Step {
    match stage {
        Stage::Payload => Step::PollPayload(i),
        Stage::Io => Step::NeedRead(i),
        Stage::Completed => Step::PollCompleted(i),
        Stage::Flush => Step::Flush(i),
    }
}

/// What is waited for after [`step_at`].
pub open spec fn phase_at(stage: Stage, i: usize) -> Phase {
    match stage {
        Stage::Payload => Phase::Payload(i),
        Stage::Io => Phase::NeedRead(i),
        Stage::Completed => Phase::Completed(i),
        Stage::Flush => Phase::Flush(i),
    }
}

/// What is left of a queue once the requests in front that are over have left.
pub open spec fn settled<T, E, W, R>(tasks: Seq<Entry<T, E, W, R>>) -> Seq<Entry<T, E, W, R>>
    decreases tasks.len(),
{
    if tasks.len() > 0 && tasks[0].flags.over() {
        settled(tasks.skip(1))
    } else {
        tasks
    }
}

impl<T, E, W, R, K> Conn<T, E, W, R, K> {
    /// The connection, waiting for `phase`.
    pub open spec fn at(self, phase: Phase) -> Self {
        Conn { phase, ..self }
    }

    /// The connection, with the flags of request `i` replaced.
    pub open spec fn mark(self, i: int, flags: EntryFlags) -> Self {
        Conn { tasks: self.tasks.update(i, Entry { flags, ..self.tasks[i] }), ..self }
    }

    /// The connection, with the task and the response writer of request `i` replaced.
    pub open spec fn worked(self, i: int, task: EntryPipe<T, E>, stream: W) -> Self {
        Conn { tasks: self.tasks.update(i, Entry { task, stream, ..self.tasks[i] }), ..self }
    }

    /// The connection once a poll is answered, with the answer.
    pub open spec fn answer(self, r: Poll<(), HttpDispatchError>) -> (Self, Step) {
        (self.at(Phase::Idle), Step::Return(r))
    }

    /// The end of a round. Requests in front that are over leave. An open connection
    /// is then asked for a new request; one on which none will come is closed when
    /// the queue is empty.
    pub open spec fn end_of_round(self) -> (Self, Step) {
        let c = Conn { tasks: settled(self.tasks), ..self };
        if !c.flags.disconnected {
            (c.at(Phase::Request), Step::PollRequest)
        } else if c.tasks.len() == 0 {
            (c.at(Phase::Close), Step::PollClose)
        } else {
            c.answer(Ok(Async::NotReady))
        }
    }

    /// The first thing to ask from request `i` and `stage` on. Where the other side
    /// is gone, the tasks that are passed write no more.
    pub open spec fn advance(self, i: nat, stage: Stage) -> (Self, Step)
        decreases self.tasks.len() - i, stages_left(stage),
    {
        if i >= self.tasks.len() {
            self.end_of_round()
        } else if wants(self.tasks[i as int].flags, self.flags.disconnected, stage) {
            (self.at(phase_at(stage, i as usize)), step_at(stage, i as usize))
        } else {
            match stage {
                Stage::Payload => self.advance(i, Stage::Io),
                Stage::Io => if self.flags.disconnected {
                    self.mark(
                        i as int,
                        EntryFlags { eof: true, ..self.tasks[i as int].flags },
                    ).advance(i, Stage::Completed)
                } else {
                    self.advance(i, Stage::Completed)
                },
                Stage::Completed => self.advance(i, Stage::Flush),
                Stage::Flush => self.advance(i + 1, Stage::Payload),
            }
        }
    }

    /// A new round over the queue, unless the connection is being closed.
    pub open spec fn round(self) -> (Self, Step) {
        if self.flags.shutdown {
            (self.at(Phase::Close), Step::PollClose)
        } else {
            self.advance(0, Stage::Payload)
        }
    }

    /// What follows the keep-alive timer.
    pub open spec fn proceed(self) -> (Self, Step) {
        match self.state {
            State::Handshake => (self.at(Phase::Handshake), Step::PollHandshake),
            State::Connection => self.round(),
        }
    }

    /// The start of a poll.
    pub open spec fn start(self) -> (Self, Step) {
        if self.ka_timer {
            (self.at(Phase::Timer), Step::PollTimer)
        } else {
            self.proceed()
        }
    }

    /// What the keep-alive timer decides. When it fires, a connection that is being
    /// closed is dropped, and so is one that has expired with no request in its
    /// queue. Otherwise the timer is set anew.
    pub open spec fn after_timer(self, fired: Poll<u64, ()>) -> (Self, Step) {
        match fired {
            Ok(Async::Ready(deadline)) => if self.flags.shutdown {
                self.answer(Err(HttpDispatchError::ShutdownTimeout))
            } else if deadline < self.ka_expire {
                (self.at(Phase::TimerReset), Step::ResetTimer(self.ka_expire))
            } else if self.tasks.len() == 0 {
                self.answer(Err(HttpDispatchError::ShutdownTimeout))
            } else {
                (self.at(Phase::TimerExpire), Step::KeepAliveExpire)
            },
            Ok(Async::NotReady) => self.proceed(),
            Err(_) => self.answer(Err(HttpDispatchError::Unknown)),
        }
    }

    /// What the answer of a task that was let write means for request `i`.
    pub open spec fn after_io(self, i: usize, retry: bool, r: Poll<bool, ()>) -> (Self, Step) {
        let c = self.mark(i as int, self.tasks[i as int].flags.after_io(r));
        match r {
            Ok(Async::Ready(_)) => c.advance(i as nat, Stage::Completed),
            Ok(Async::NotReady) => (
                c.at(Phase::NeedReadAgain { entry: i, retry }),
                Step::NeedRead(i),
            ),
            Err(_) => (c.at(Phase::Reset(i)), Step::ResetStream(i)),
        }
    }

    /// What the answer of a task that was let finish means for request `i`.
    pub open spec fn after_completed(self, i: usize, r: Poll<(), ()>) -> (Self, Step) {
        self.mark(i as int, self.tasks[i as int].flags.after_completed(r)).advance(
            i as nat,
            Stage::Flush,
        )
    }

    /// What the answer of the response writer means for request `i`.
    pub open spec fn after_flush(self, i: usize, r: Poll<(), ()>) -> (Self, Step) {
        self.mark(i as int, self.tasks[i as int].flags.after_flush(r)).advance(
            i as nat + 1,
            Stage::Payload,
        )
    }

    /// What it means that there is, or is not, a new request.
    pub open spec fn after_request(self, r: Poll<Option<()>, ()>) -> (Self, Step) {
        match r {
            Ok(Async::Ready(None)) => Conn {
                flags: Flags { disconnected: true, ..self.flags },
                ..self
            }.round(),
            Ok(Async::Ready(Some(_))) => if self.ka_timer {
                (self.at(Phase::RequestExpire), Step::KeepAliveExpire)
            } else {
                (self.at(Phase::Accept), Step::Accept)
            },
            Ok(Async::NotReady) => self.answer(Ok(Async::NotReady)),
            Err(_) => Conn { flags: Flags { shutdown: true, ..self.flags }, ..self }.round(),
        }
    }

    /// Whether `event` is what the connection waits for.
    pub open spec fn expects(self, event: Event<T, E, W, R>) -> bool {
        match self.phase {
            Phase::Idle => event is Poll,
            Phase::Timer => event is Timer,
            Phase::TimerExpire | Phase::RequestExpire => event is Expire,
            Phase::TimerReset | Phase::Payload(_) | Phase::Reset(_) => event is Done,
            Phase::Handshake => event is Handshake,
            Phase::NeedRead(_) | Phase::NeedReadAgain { .. } => event is NeedRead,
            Phase::Io { .. } => event is Io,
            Phase::Completed(_) => event is Completed,
            Phase::Flush(_) => event is Flushed,
            Phase::Request => event is Request,
            Phase::Accept => event is Accepted,
            Phase::Close => event is Closed,
        }
    }

    /// The connection after `event`, and what is to be done next.
    pub open spec fn next(self, event: Event<T, E, W, R>) -> (Self, Step) {
        match (self.phase, event) {
            (Phase::Idle, Event::Poll) => self.start(),
            (Phase::Timer, Event::Timer(fired)) => self.after_timer(fired),
            (Phase::TimerExpire, Event::Expire(Some(at))) => (
                self.at(Phase::TimerReset),
                Step::ResetTimer(at),
            ),
            (Phase::TimerExpire, Event::Expire(None)) => self.proceed(),
            (Phase::TimerReset, Event::Done) => self.proceed(),
            (Phase::Handshake, Event::Handshake(Ok(Async::Ready(_)))) => Conn {
                state: State::Connection,
                ..self
            }.start(),
            (Phase::Handshake, Event::Handshake(Ok(Async::NotReady))) => self.answer(
                Ok(Async::NotReady),
            ),
            (Phase::Handshake, Event::Handshake(Err(err))) => self.answer(
                Err(HttpDispatchError::Http2(err)),
            ),
            (Phase::Payload(i), Event::Done) => self.advance(i as nat, Stage::Io),
            (Phase::NeedRead(i), Event::NeedRead(wanted)) => (
                self.at(Phase::Io { entry: i, retry: wanted }),
                Step::PollIo(i),
            ),
            (Phase::Io { entry, retry }, Event::Io(r)) => self.after_io(entry, retry, r),
            (Phase::NeedReadAgain { entry, retry }, Event::NeedRead(wanted)) => if wanted
                && !retry {
                (self.at(Phase::Io { entry, retry }), Step::PollIo(entry))
            } else {
                self.advance(entry as nat, Stage::Completed)
            },
            (Phase::Reset(i), Event::Done) => self.advance(i as nat, Stage::Completed),
            (Phase::Completed(i), Event::Completed(r)) => self.after_completed(i, r),
            (Phase::Flush(i), Event::Flushed(r)) => self.after_flush(i, r),
            (Phase::Request, Event::Request(r)) => self.after_request(r),
            (Phase::RequestExpire, Event::Expire(at)) => (
                Conn {
                    ka_expire: match at {
                        Some(at) => at,
                        None => self.ka_expire,
                    },
                    ..self
                }.at(Phase::Accept),
                Step::Accept,
            ),
            (Phase::Accept, Event::Accepted(entry)) => Conn {
                tasks: self.tasks.push(entry),
                ..self
            }.round(),
            (Phase::Close, Event::Closed(Ok(r))) => self.answer(Ok(r)),
            (Phase::Close, Event::Closed(Err(err))) => self.answer(
                Err(HttpDispatchError::Http2(err)),
            ),
            _ => (self, Step::Return(Ok(Async::NotReady))),
        }
    }

    /// Whether a connection that waits for `phase` can be in this state: what is
    /// asked of a request is asked of one in the queue that has not answered it
    /// yet, nothing is asked of a connection that is past it, and while no round goes
    /// on, the request in front is not over.
    pub open spec fn wf(self) -> bool {
        let serving = self.state is Connection && !self.flags.shutdown;
        let open = serving && !self.flags.disconnected;
        &&& self.flags.shutdown || self.flags.disconnected ==> self.state is Connection
        &&& request_of(self.phase) is None ==> self.front_waits()
        &&& match self.phase {
            Phase::Idle | Phase::Timer => true,
            Phase::TimerExpire | Phase::TimerReset => !self.flags.shutdown,
            Phase::Handshake => self.state is Handshake,
            Phase::Payload(i) => open && i < self.tasks.len(),
            Phase::NeedRead(i) => open && i < self.tasks.len() && !self.tasks[i as int].flags.eof,
            Phase::Io { entry, .. } => open && entry < self.tasks.len()
                && !self.tasks[entry as int].flags.eof,
            Phase::NeedReadAgain { entry, .. } => open && entry < self.tasks.len()
                && !self.tasks[entry as int].flags.eof,
            Phase::Reset(i) => open && i < self.tasks.len() && self.tasks[i as int].flags.error,
            Phase::Completed(i) => serving && i < self.tasks.len() && wants(
                self.tasks[i as int].flags,
                self.flags.disconnected,
                Stage::Completed,
            ) && self.writing_over(i as int),
            Phase::Flush(i) => open && i < self.tasks.len() && wants(
                self.tasks[i as int].flags,
                false,
                Stage::Flush,
            ),
            Phase::Request | Phase::RequestExpire | Phase::Accept => open,
            Phase::Close => self.flags.shutdown || self.flags.disconnected && self.tasks.len()
                == 0,
        }
    }

    /// Whether the queue is empty or the request in front is not over.
    pub open spec fn front_waits(self) -> bool {
        self.tasks.len() > 0 ==> !self.tasks[0].flags.over()
    }

    /// Whether, if the other side is gone, no task in front of request `i` writes any
    /// more.
    pub open spec fn writing_over(self, i: int) -> bool {
        self.flags.disconnected ==> forall|j: int|
            0 <= j < i && j < self.tasks.len() ==> (#[trigger] self.tasks[j]).flags.eof
    }
}

/// The request that a round is at, if one goes on.
pub open spec fn request_of(phase: Phase) -> Option<usize> {
    match phase {
        Phase::Payload(i) | Phase::NeedRead(i) | Phase::Reset(i) | Phase::Completed(i)
        | Phase::Flush(i) => Some(i),
        Phase::Io { entry, .. } | Phase::NeedReadAgain { entry, .. } => Some(entry),
        _ => None,
    }
}

/// Whether `phase` waits for what comes of `step`.
pub open spec fn awaits(phase: Phase, step: Step) -> bool {
    match step {
        Step::PollTimer => phase is Timer,
        Step::KeepAliveExpire => phase is TimerExpire || phase is RequestExpire,
        Step::ResetTimer(_) => phase is TimerReset,
        Step::PollHandshake => phase is Handshake,
        Step::PollPayload(i) => phase == Phase::Payload(i),
        Step::NeedRead(i) => match phase {
            Phase::NeedRead(entry) | Phase::NeedReadAgain { entry, .. } => entry == i,
            _ => false,
        },
        Step::PollIo(i) => phase matches Phase::Io { entry, .. } && entry == i,
        Step::ResetStream(i) => phase == Phase::Reset(i),
        Step::PollCompleted(i) => phase == Phase::Completed(i),
        Step::Flush(i) => phase == Phase::Flush(i),
        Step::PollRequest => phase is Request,
        Step::Accept => phase is Accept,
        Step::PollClose => phase is Close,
        Step::Return(_) => phase is Idle,
    }
}

/// Whether the tasks of all requests are told, on `event`, that the connection is
/// gone: the other side sends no more requests, or the connection failed.
pub open spec fn tells_all<T, E, W, R>(event: Event<T, E, W, R>) -> bool {
    event matches Event::Request(r) && (r matches Ok(Async::Ready(None)) || r is Err)
}

/// Whether two queues hold the same requests, but for their tasks.
pub open spec fn same_but_tasks<T, E, W, R>(
    a: Seq<Entry<T, E, W, R>>,
    b: Seq<Entry<T, E, W, R>>,
) -> bool {
    &&& a.len() == b.len()
    &&& forall|i: int|
        0 <= i < a.len() ==> (#[trigger] a[i]).stream == b[i].stream && a[i].body == b[i].body
            && a[i].flags == b[i].flags
}

/// Whether the tasks of the requests in `after` may be those in `before` once each
/// was told that the connection is gone.
pub open spec fn all_told<T, E, W, R>(
    before: Seq<Entry<T, E, W, R>>,
    after: Seq<Entry<T, E, W, R>>,
) -> bool where T: HttpHandlerTask<Writer = W>, E: HttpHandlerTask<Writer = W, Error = T::Error> {
    &&& same_but_tasks(before, after)
    &&& forall|i: int|
        0 <= i < before.len() ==> EntryPipe::<T, E>::may_disconnect(
            (#[trigger] before[i]).task,
            after[i].task,
        )
}

/// What a connection hears of an answer: an error is an error.
pub open spec fn outcome<A, X>(r: Poll<A, X>) -> Poll<A, ()> {
    match r {
        Ok(answer) => Ok(answer),
        Err(_) => Err(()),
    }
}

/// Whether the task of request `i`, let write, may answer `r` and leave `task` and
/// `stream`, and the connection goes on from there to `after` and `step`.
pub open spec fn wrote<T, E, W, R, K>(
    before: Conn<T, E, W, R, K>,
    i: int,
    task: EntryPipe<T, E>,
    stream: W,
    r: Poll<bool, T::Error>,
    after: Conn<T, E, W, R, K>,
    step: Step,
) -> bool where T: HttpHandlerTask<Writer = W>, E: HttpHandlerTask<Writer = W, Error = T::Error> {
    let entry = before.tasks[i];
    &&& EntryPipe::<T, E>::may_poll_io(entry.task, entry.stream, task, stream, r)
    &&& (after, step) == before.worked(i, task, stream).next(Event::Io(outcome(r)))
}

/// Whether the task of request `i`, let finish, may answer `r` and leave `task`, and
/// the connection goes on from there to `after` and `step`.
pub open spec fn completed<T, E, W, R, K>(
    before: Conn<T, E, W, R, K>,
    i: int,
    task: EntryPipe<T, E>,
    r: Poll<(), T::Error>,
    after: Conn<T, E, W, R, K>,
    step: Step,
) -> bool where T: HttpHandlerTask<Writer = W>, E: HttpHandlerTask<Writer = W, Error = T::Error> {
    let entry = before.tasks[i];
    &&& EntryPipe::<T, E>::may_complete(entry.task, task, r)
    &&& (after, step) == before.worked(i, task, entry.stream).next(Event::Completed(outcome(r)))
}

/// An HTTP/2 connection. `T` and `E` are the tasks of its requests, `W` the writers of
/// their responses and `R` the streams of their bodies. `A` and `X` are as for [`Peer`].
pub struct Http2<T, E, W, R, A, X> {
    flags: Flags,
    state: State,
    tasks: Vec<Entry<T, E, W, R>>,
    ka_expire: u64,
    ka_timer: bool,
    phase: Phase,
    peer: Peer<A, X>,
}

impl<T, E, W, R, A, X> View for Http2<T, E, W, R, A, X> {
    type V = Conn<T, E, W, R, Peer<A, X>>;

    closed spec fn view(&self) -> Conn<T, E, W, R, Peer<A, X>> {
        Conn {
            flags: self.flags,
            state: self.state,
            tasks: self.tasks@,
            ka_expire: self.ka_expire,
            ka_timer: self.ka_timer,
            phase: self.phase,
            peer: self.peer,
        }
    }
}

impl<T, E, W, R, A, X> Http2<T, E, W, R, A, X> {
    /// A connection over `io`, which is a stream to the peer at `addr` and has
    /// `extensions` besides, and of which `buf` was read too early. A keep-alive timer
    /// that runs already, with this deadline, is kept; else the one that the settings
    /// start, if they do.
    pub fn new<S>(
        io: S,
        addr: Option<A>,
        extensions: Option<Rc<X>>,
        buf: Bytes,
        keepalive_timer: Option<u64>,
        default_timer: Option<u64>,
        now: u64,
    ) -> (r: (Http2<T, E, W, R, A, X>, IoWrapper<S>))
        ensures
            r.0@ == (Conn::<T, E, W, R, Peer<A, X>> {
                flags: Flags { disconnected: false, shutdown: false },
                state: State::Handshake,
                tasks: Seq::empty(),
                ka_expire: match (keepalive_timer, default_timer) {
                    (Some(deadline), _) => deadline,
                    (None, Some(deadline)) => deadline,
                    (None, None) => now,
                },
                ka_timer: keepalive_timer is Some || default_timer is Some,
                phase: Phase::Idle,
                peer: Peer { addr, extensions },
            }),
            r.0@.wf(),
            r.1.inner == io,
            r.1.unread == (if bytes_of(buf).len() == 0 {
                None
            } else {
                Some(buf)
            }),
    {
        let (ka_expire, ka_timer): (u64, bool) = if let Some(deadline) = keepalive_timer {
            (deadline, true)
        } else if let Some(deadline) = default_timer {
            (deadline, true)
        } else {
            (now, false)
        };
        let conn = Http2 {
            flags: Flags { disconnected: false, shutdown: false },
            state: State::Handshake,
            tasks: Vec::new(),
            ka_expire,
            ka_timer,
            phase: Phase::Idle,
            peer: Peer { addr, extensions },
        };
        (conn, IoWrapper::new(buf, io))
    }

    /// The number of requests in the queue.
    pub fn len(&self) -> (n: usize)
        ensures
            n == self@.tasks.len(),
    {
        self.tasks.len()
    }

    /// The task and the streams of request `i`.
    pub fn request(&mut self, i: usize) -> (r: (&mut EntryPipe<T, E>, &mut W, &mut R))
        requires
            i < old(self)@.tasks.len(),
        ensures
            *r.0 == old(self)@.tasks[i as int].task,
            *r.1 == old(self)@.tasks[i as int].stream,
            *r.2 == old(self)@.tasks[i as int].body,
            final(self)@ == (Conn {
                tasks: old(self)@.tasks.update(
                    i as int,
                    Entry {
                        task: *final(r.0),
                        stream: *final(r.1),
                        body: *final(r.2),
                        ..old(self)@.tasks[i as int]
                    },
                ),
                ..old(self)@
            }),
            old(self)@.wf() ==> final(self)@.wf(),
    {
        let entry = &mut self.tasks[i];
        (&mut entry.task, &mut entry.stream, &mut entry.body)
    }

    /// Moves the body of request `i` on, see [`Entry::poll_payload`].
    pub fn poll_payload(&mut self, i: usize, event: PayloadEvent) -> (step: PayloadStep)
        requires
            i < old(self)@.tasks.len(),
        ensures
            step == payload_step(old(self)@.tasks[i as int].flags.reof, event),
            final(self)@ == old(self)@.mark(
                i as int,
                EntryFlags {
                    reof: payload_ended(old(self)@.tasks[i as int].flags.reof, event),
                    ..old(self)@.tasks[i as int].flags
                },
            ),
            old(self)@.wf() ==> final(self)@.wf(),
    {
        self.tasks[i].poll_payload(event)
    }
}

impl<T, E, W, R, A, X> Http2<T, E, W, R, A, X> where
    T: HttpHandlerTask<Writer = W>,
    E: HttpHandlerTask<Writer = W, Error = T::Error>,
 {
    fn answer(&mut self, r: Poll<(), HttpDispatchError>) -> (step: Step)
        ensures
            (final(self)@, step) == old(self)@.answer(r),
    {
        self.phase = Phase::Idle;
        Step::Return(r)
    }

    fn end_of_round(&mut self) -> (step: Step)
        ensures
            (final(self)@, step) == old(self)@.end_of_round(),
    {
        while !self.tasks.is_empty() && self.tasks[0].flags.is_over()
            invariant
                settled(self.tasks@) == settled(old(self).tasks@),
                self@ == (Conn { tasks: self.tasks@, ..old(self)@ }),
            decreases self.tasks@.len(),
        {
            let ghost before = self.tasks@;
            let _ = self.tasks.remove(0);
            assert(self.tasks@ =~= before.skip(1));
        }
        if !self.flags.disconnected {
            self.phase = Phase::Request;
            Step::PollRequest
        } else if self.tasks.is_empty() {
            self.phase = Phase::Close;
            Step::PollClose
        } else {
            self.answer(Ok(Async::NotReady))
        }
    }

    fn advance(&mut self, entry: usize, stage: Stage) -> (step: Step)
        requires
            entry <= old(self)@.tasks.len(),
        ensures
            (final(self)@, step) == old(self)@.advance(entry as nat, stage),
    {
        let mut i: usize = entry;
        let mut s: Stage = stage;
        while i < self.tasks.len()
            invariant
                i <= self@.tasks.len(),
                self@.advance(i as nat, s) == old(self)@.advance(entry as nat, stage),
            decreases self@.tasks.len() - i, stages_left(s),
        {
            let flags = self.tasks[i].flags;
            let gone: bool = self.flags.disconnected;
            match s {
                Stage::Payload => {
                    if !gone {
                        self.phase = Phase::Payload(i);
                        return Step::PollPayload(i);
                    }
                    s = Stage::Io;
                },
                Stage::Io => {
                    if gone {
                        self.tasks[i].flags.eof = true;
                    } else if !flags.eof {
                        self.phase = Phase::NeedRead(i);
                        return Step::NeedRead(i);
                    }
                    s = Stage::Completed;
                },
                Stage::Completed => {
                    if flags.eof && !flags.finished {
                        self.phase = Phase::Completed(i);
                        return Step::PollCompleted(i);
                    }
                    s = Stage::Flush;
                },
                Stage::Flush => {
                    if flags.finished && !flags.write_done && !gone {
                        self.phase = Phase::Flush(i);
                        return Step::Flush(i);
                    }
                    s = Stage::Payload;
                    i = i + 1;
                },
            }
        }
        self.end_of_round()
    }

    fn round(&mut self) -> (step: Step)
        ensures
            (final(self)@, step) == old(self)@.round(),
    {
        if self.flags.shutdown {
            self.phase = Phase::Close;
            Step::PollClose
        } else {
            self.advance(0, Stage::Payload)
        }
    }

    fn proceed(&mut self) -> (step: Step)
        ensures
            (final(self)@, step) == old(self)@.proceed(),
    {
        match self.state {
            State::Handshake => {
                self.phase = Phase::Handshake;
                Step::PollHandshake
            },
            State::Connection => self.round(),
        }
    }

    fn start(&mut self) -> (step: Step)
        ensures
            (final(self)@, step) == old(self)@.start(),
    {
        if self.ka_timer {
            self.phase = Phase::Timer;
            Step::PollTimer
        } else {
            self.proceed()
        }
    }

    fn poll_keepalive(&mut self, fired: Poll<u64, ()>) -> (step: Step)
        ensures
            (final(self)@, step) == old(self)@.after_timer(fired),
    {
        match fired {
            Ok(Async::Ready(deadline)) => {
                if self.flags.shutdown {
                    self.answer(Err(HttpDispatchError::ShutdownTimeout))
                } else if deadline >= self.ka_expire {
                    if self.tasks.is_empty() {
                        self.answer(Err(HttpDispatchError::ShutdownTimeout))
                    } else {
                        self.phase = Phase::TimerExpire;
                        Step::KeepAliveExpire
                    }
                } else {
                    self.phase = Phase::TimerReset;
                    Step::ResetTimer(self.ka_expire)
                }
            },
            Ok(Async::NotReady) => self.proceed(),
            Err(_) => self.answer(Err(HttpDispatchError::Unknown)),
        }
    }

    fn after_io(&mut self, i: usize, retry: bool, r: Poll<bool, ()>) -> (step: Step)
        requires
            i < old(self)@.tasks.len(),
        ensures
            (final(self)@, step) == old(self)@.after_io(i, retry, r),
    {
        self.tasks[i].flags.set_io(r);
        match r {
            Ok(Async::Ready(_)) => self.advance(i, Stage::Completed),
            Ok(Async::NotReady) => {
                self.phase = Phase::NeedReadAgain { entry: i, retry };
                Step::NeedRead(i)
            },
            Err(_) => {
                self.phase = Phase::Reset(i);
                Step::ResetStream(i)
            },
        }
    }

    fn after_completed(&mut self, i: usize, r: Poll<(), ()>) -> (step: Step)
        requires
            i < old(self)@.tasks.len(),
        ensures
            (final(self)@, step) == old(self)@.after_completed(i, r),
    {
        self.tasks[i].flags.set_completed(r);
        self.advance(i, Stage::Flush)
    }

    fn after_flush(&mut self, i: usize, r: Poll<(), ()>) -> (step: Step)
        requires
            i < old(self)@.tasks.len(),
        ensures
            (final(self)@, step) == old(self)@.after_flush(i, r),
    {
        self.tasks[i].flags.set_flush(r);
        assert(i < self.tasks.len());
        self.advance(i + 1, Stage::Payload)
    }

    fn tell_all(&mut self)
        ensures
            all_told(old(self)@.tasks, final(self)@.tasks),
            final(self)@ == (Conn { tasks: final(self)@.tasks, ..old(self)@ }),
    {
        let mut i: usize = 0;
        while i < self.tasks.len()
            invariant
                i <= self.tasks@.len(),
                self@ == (Conn { tasks: self.tasks@, ..old(self)@ }),
                same_but_tasks(old(self).tasks@, self.tasks@),
                forall|k: int|
                    0 <= k < i ==> EntryPipe::<T, E>::may_disconnect(
                        (#[trigger] old(self).tasks@[k]).task,
                        self.tasks@[k].task,
                    ),
                forall|k: int|
                    i <= k < self.tasks@.len() ==> #[trigger] self.tasks@[k]
                        == old(self).tasks@[k],
            decreases self.tasks@.len() - i,
        {
            self.tasks[i].task.disconnected();
            i = i + 1;
        }
    }

    fn after_request(&mut self, r: Poll<Option<()>, ()>) -> (step: Step)
        ensures
            step == old(self)@.after_request(r).1,
            final(self)@ == (Conn { tasks: final(self)@.tasks, ..old(self)@.after_request(r).0 }),
            if r matches Ok(Async::Ready(None)) || r is Err {
                all_told(old(self)@.after_request(r).0.tasks, final(self)@.tasks)
            } else {
                final(self)@.tasks == old(self)@.after_request(r).0.tasks
            },
    {
        match r {
            Ok(Async::Ready(None)) => {
                self.flags.disconnected = true;
                let ghost before = self@;
                self.tell_all();
                proof {
                    lemma_round_alike(before, self@);
                }
                self.round()
            },
            Ok(Async::Ready(Some(_))) => {
                if self.ka_timer {
                    self.phase = Phase::RequestExpire;
                    Step::KeepAliveExpire
                } else {
                    self.phase = Phase::Accept;
                    Step::Accept
                }
            },
            Ok(Async::NotReady) => self.answer(Ok(Async::NotReady)),
            Err(_) => {
                self.flags.shutdown = true;
                let ghost before = self@;
                self.tell_all();
                proof {
                    lemma_round_alike(before, self@);
                }
                self.round()
            },
        }
    }

    /// Takes what came of the last step and says which is next. The first event of
    /// a poll is [`Event::Poll`], and its last step is [`Step::Return`].
    pub fn poll(&mut self, event: Event<T, E, W, R>) -> (step: Step)
        requires
            old(self)@.wf(),
            old(self)@.expects(event),
        ensures
            final(self)@.wf(),
            awaits(final(self)@.phase, step),
            step == old(self)@.next(event).1,
            final(self)@ == (Conn { tasks: final(self)@.tasks, ..old(self)@.next(event).0 }),
            if tells_all(event) {
                all_told(old(self)@.next(event).0.tasks, final(self)@.tasks)
            } else {
                final(self)@.tasks == old(self)@.next(event).0.tasks
            },
    {
        proof {
            law_step_awaited(self@, event);
            assert(self.tasks.len() <= usize::MAX);
            if !(event is Accepted) {
                law_next_wf(self@, event);
            }
        }
        match (self.phase, event) {
            (Phase::Idle, Event::Poll) => self.start(),
            (Phase::Timer, Event::Timer(fired)) => self.poll_keepalive(fired),
            (Phase::TimerExpire, Event::Expire(Some(at))) => {
                self.phase = Phase::TimerReset;
                Step::ResetTimer(at)
            },
            (Phase::TimerExpire, Event::Expire(None)) => self.proceed(),
            (Phase::TimerReset, Event::Done) => self.proceed(),
            (Phase::Handshake, Event::Handshake(r)) => match r {
                Ok(Async::Ready(_)) => {
                    self.state = State::Connection;
                    self.start()
                },
                Ok(Async::NotReady) => self.answer(Ok(Async::NotReady)),
                Err(err) => self.answer(Err(HttpDispatchError::Http2(err))),
            },
            (Phase::Payload(i), Event::Done) => self.advance(i, Stage::Io),
            (Phase::NeedRead(i), Event::NeedRead(wanted)) => {
                self.phase = Phase::Io { entry: i, retry: wanted };
                Step::PollIo(i)
            },
            (Phase::Io { entry, retry }, Event::Io(r)) => self.after_io(entry, retry, r),
            (Phase::NeedReadAgain { entry, retry }, Event::NeedRead(wanted)) => {
                if wanted && !retry {
                    self.phase = Phase::Io { entry, retry };
                    Step::PollIo(entry)
                } else {
                    self.advance(entry, Stage::Completed)
                }
            },
            (Phase::Reset(i), Event::Done) => self.advance(i, Stage::Completed),
            (Phase::Completed(i), Event::Completed(r)) => self.after_completed(i, r),
            (Phase::Flush(i), Event::Flushed(r)) => self.after_flush(i, r),
            (Phase::Request, Event::Request(r)) => {
                let step = self.after_request(r);
                proof {
                    if tells_all(event) {
                        lemma_wf_alike(old(self)@.next(event).0, self@);
                    }
                }
                step
            },
            (Phase::RequestExpire, Event::Expire(at)) => {
                if let Some(at) = at {
                    self.ka_expire = at;
                }
                self.phase = Phase::Accept;
                Step::Accept
            },
            (Phase::Accept, Event::Accepted(entry)) => {
                self.tasks.push(entry);
                proof {
                    assert(self.tasks.len() <= usize::MAX);
                    law_next_wf(old(self)@, event);
                }
                self.round()
            },
            (Phase::Close, Event::Closed(r)) => match r {
                Ok(r) => self.answer(Ok(r)),
                Err(err) => self.answer(Err(HttpDispatchError::Http2(err))),
            },
            _ => Step::Return(Ok(Async::NotReady)),
        }
    }
    /// Does what [`Step::PollIo`] asks for: lets the task of the request write, and goes
    /// on with what it answered.
    pub fn poll_io(&mut self) -> (step: Step)
        requires
            old(self)@.wf(),
            old(self)@.phase is Io,
        ensures
            final(self)@.wf(),
            awaits(final(self)@.phase, step),
            exists|task: EntryPipe<T, E>, stream: W, r: Poll<bool, T::Error>|
                wrote(
                    old(self)@,
                    old(self)@.phase->Io_entry as int,
                    task,
                    stream,
                    r,
                    final(self)@,
                    step,
                ),
    {
        let i: usize = match self.phase {
            Phase::Io { entry, .. } => entry,
            _ => 0,
        };
        let entry = &mut self.tasks[i];
        let r = entry.task.poll_io(&mut entry.stream);
        let heard = match &r {
            Ok(answer) => Ok(*answer),
            Err(_) => Err(()),
        };
        let ghost before = self@;
        let step = self.poll(Event::Io(heard));
        proof {
            let entry = before.tasks[i as int];
            assert(before =~= old(self)@.worked(i as int, entry.task, entry.stream));
            assert(wrote(old(self)@, i as int, entry.task, entry.stream, r, self@, step));
        }
        step
    }

    /// Does what [`Step::PollCompleted`] asks for: lets the task of the request finish,
    /// and goes on with what it answered.
    pub fn poll_completed(&mut self) -> (step: Step)
        requires
            old(self)@.wf(),
            old(self)@.phase is Completed,
        ensures
            final(self)@.wf(),
            awaits(final(self)@.phase, step),
            exists|task: EntryPipe<T, E>, r: Poll<(), T::Error>|
                completed(
                    old(self)@,
                    old(self)@.phase->Completed_0 as int,
                    task,
                    r,
                    final(self)@,
                    step,
                ),
    {
        let i: usize = match self.phase {
            Phase::Completed(entry) => entry,
            _ => 0,
        };
        let r = self.tasks[i].task.poll_completed();
        let heard = match &r {
            Ok(answer) => Ok(*answer),
            Err(_) => Err(()),
        };
        let ghost before = self@;
        let step = self.poll(Event::Completed(heard));
        proof {
            let entry = before.tasks[i as int];
            assert(before =~= old(self)@.worked(i as int, entry.task, entry.stream));
            assert(completed(old(self)@, i as int, entry.task, r, self@, step));
        }
        step
    }
    /// Does what [`Step::Accept`] asks for: starts on the new request, see
    /// [`Entry::new`], and queues it. Its handler learns who is on the other side of this
    /// connection.
    pub fn accept<U, M, P, Z, G, H, F>(
        &mut self,
        parts: Parts<U, M>,
        payload: P,
        stream: W,
        feed: G,
        handle: H,
        err: F,
    ) -> (step: Step) where
        A: Copy,
        G: FnOnce(&HeaderMap<HeaderValue>) -> R,
        H: FnOnce(Message<U, M, A, Rc<X>, P>) -> Result<T, Z>,
        F: FnOnce(Version, u16) -> E,

        requires
            old(self)@.wf(),
            old(self)@.phase is Accept,
            feed.requires((&parts.headers,)),
            handle.requires((old(self)@.peer.message(parts, payload),)),
            err.requires((Version::Http2, NOT_FOUND)),
        ensures
            final(self)@.wf(),
            awaits(final(self)@.phase, step),
            exists|entry: Entry<T, E, W, R>|
                #[trigger] started_on(
                    entry,
                    old(self)@.peer.message(parts, payload),
                    stream,
                    feed,
                    handle,
                    err,
                ) && (final(self)@, step) == old(self)@.next(Event::Accepted(entry)),
    {
        let extensions = match &self.peer.extensions {
            Some(extensions) => Some(extensions.clone()),
            None => None,
        };
        let addr = self.peer.addr;
        let entry = Entry::new(parts, payload, addr, extensions, stream, feed, handle, err);
        self.poll(Event::Accepted(entry))
    }
}

/// What is left of two queues that differ in their tasks alone.
proof fn lemma_settled_alike<T, E, W, R>(a: Seq<Entry<T, E, W, R>>, b: Seq<Entry<T, E, W, R>>) where
    T: HttpHandlerTask<Writer = W>,
    E: HttpHandlerTask<Writer = W, Error = T::Error>,

    requires
        all_told(a, b),
    ensures
        all_told(settled(a), settled(b)),
    decreases a.len(),
{
    if a.len() > 0 && a[0].flags.over() {
        assert(a[0].flags == b[0].flags);
        lemma_settled_alike(a.skip(1), b.skip(1));
    } else if a.len() > 0 {
        assert(a[0].flags == b[0].flags);
    }
}

/// Which request is asked next does not depend on the tasks.
proof fn lemma_advance_alike<T, E, W, R, K>(
    a: Conn<T, E, W, R, K>,
    b: Conn<T, E, W, R, K>,
    i: nat,
    stage: Stage,
) where T: HttpHandlerTask<Writer = W>, E: HttpHandlerTask<Writer = W, Error = T::Error>
    requires
        b == (Conn { tasks: b.tasks, ..a }),
        all_told(a.tasks, b.tasks),
    ensures
        a.advance(i, stage).1 == b.advance(i, stage).1,
        b.advance(i, stage).0 == (Conn {
            tasks: b.advance(i, stage).0.tasks,
            ..a.advance(i, stage).0
        }),
        all_told(a.advance(i, stage).0.tasks, b.advance(i, stage).0.tasks),
    decreases a.tasks.len() - i, stages_left(stage),
{
    if i >= a.tasks.len() {
        lemma_settled_alike(a.tasks, b.tasks);
    } else {
        assert(a.tasks[i as int].flags == b.tasks[i as int].flags);
        if !wants(a.tasks[i as int].flags, a.flags.disconnected, stage) {
            match stage {
                Stage::Payload => lemma_advance_alike(a, b, i, Stage::Io),
                Stage::Io => if a.flags.disconnected {
                    let f = EntryFlags { eof: true, ..a.tasks[i as int].flags };
                    lemma_advance_alike(
                        a.mark(i as int, f),
                        b.mark(i as int, f),
                        i,
                        Stage::Completed,
                    );
                } else {
                    lemma_advance_alike(a, b, i, Stage::Completed)
                },
                Stage::Completed => lemma_advance_alike(a, b, i, Stage::Flush),
                Stage::Flush => lemma_advance_alike(a, b, i + 1, Stage::Payload),
            }
        }
    }
}

/// What a round starts with does not depend on the tasks.
proof fn lemma_round_alike<T, E, W, R, K>(a: Conn<T, E, W, R, K>, b: Conn<T, E, W, R, K>) where
    T: HttpHandlerTask<Writer = W>,
    E: HttpHandlerTask<Writer = W, Error = T::Error>,

    requires
        b == (Conn { tasks: b.tasks, ..a }),
        all_told(a.tasks, b.tasks),
    ensures
        a.round().1 == b.round().1,
        b.round().0 == (Conn { tasks: b.round().0.tasks, ..a.round().0 }),
        all_told(a.round().0.tasks, b.round().0.tasks),
{
    lemma_advance_alike(a, b, 0, Stage::Payload);
}

/// The requests in front that are over are exactly those that leave a queue.
pub proof fn law_settled<T, E, W, R>(tasks: Seq<Entry<T, E, W, R>>)
    ensures
        settled(tasks).len() <= tasks.len(),
        settled(tasks) == tasks.skip(tasks.len() - settled(tasks).len()),
        forall|i: int|
            0 <= i < tasks.len() - settled(tasks).len() ==> (#[trigger] tasks[i]).flags.over(),
        settled(tasks).len() > 0 ==> !settled(tasks)[0].flags.over(),
    decreases tasks.len(),
{
    if tasks.len() > 0 && tasks[0].flags.over() {
        let rest = tasks.skip(1);
        law_settled(rest);
        assert(settled(tasks) =~= tasks.skip(tasks.len() - settled(tasks).len()));
        assert forall|i: int| 0 <= i < tasks.len() - settled(tasks).len() implies (
        #[trigger] tasks[i]).flags.over() by {
            if i > 0 {
                assert(tasks[i] == rest[i - 1]);
            }
        }
    } else {
        assert(tasks.skip(0) =~= tasks);
    }
}

proof fn lemma_advance_wf<T, E, W, R, K>(c: Conn<T, E, W, R, K>, i: nat, stage: Stage)
    requires
        c.state is Connection,
        !c.flags.shutdown,
        c.tasks.len() <= usize::MAX,
        c.writing_over(i as int),
        i < c.tasks.len() && c.flags.disconnected && (stage is Completed || stage is Flush)
            ==> c.tasks[i as int].flags.eof,
    ensures
        c.advance(i, stage).0.wf(),
        c.advance(i, stage).1 is Return ==> {
            let n = c.advance(i, stage).0;
            n.flags.disconnected && n.writing_over(n.tasks.len() as int)
        },
    decreases c.tasks.len() - i, stages_left(stage),
{
    if i >= c.tasks.len() {
        law_settled(c.tasks);
    } else if !wants(c.tasks[i as int].flags, c.flags.disconnected, stage) {
        match stage {
            Stage::Payload => lemma_advance_wf(c, i, Stage::Io),
            Stage::Io => if c.flags.disconnected {
                let f = EntryFlags { eof: true, ..c.tasks[i as int].flags };
                lemma_advance_wf(c.mark(i as int, f), i, Stage::Completed);
            } else {
                lemma_advance_wf(c, i, Stage::Completed)
            },
            Stage::Completed => lemma_advance_wf(c, i, Stage::Flush),
            Stage::Flush => lemma_advance_wf(c, i + 1, Stage::Payload),
        }
    }
}

proof fn lemma_proceed_wf<T, E, W, R, K>(c: Conn<T, E, W, R, K>)
    requires
        c.tasks.len() <= usize::MAX,
        c.flags.shutdown || c.flags.disconnected ==> c.state is Connection,
        c.state is Connection && !c.flags.shutdown || c.front_waits(),
    ensures
        c.proceed().0.wf(),
{
    if c.state is Connection && !c.flags.shutdown {
        lemma_advance_wf(c, 0, Stage::Payload);
    }
}

/// Every event that is expected keeps the connection in order.
pub proof fn law_next_wf<T, E, W, R, K>(c: Conn<T, E, W, R, K>, event: Event<T, E, W, R>)
    requires
        c.wf(),
        c.expects(event),
        c.tasks.len() <= usize::MAX,
        event is Accepted ==> c.tasks.len() < usize::MAX,
    ensures
        c.next(event).0.wf(),
{
    match (c.phase, event) {
        (Phase::Idle, _) | (Phase::Timer, _) | (Phase::TimerExpire, _) | (
            Phase::TimerReset,
            _,
        ) => lemma_proceed_wf(c),
        (Phase::Handshake, _) => lemma_proceed_wf(Conn { state: State::Connection, ..c }),
        (Phase::Payload(i), _) => lemma_advance_wf(c, i as nat, Stage::Io),
        (Phase::Io { entry, retry }, Event::Io(r)) => if r matches Ok(Async::Ready(_)) {
            let f = c.tasks[entry as int].flags.after_io(r);
            lemma_advance_wf(c.mark(entry as int, f), entry as nat, Stage::Completed);
        },
        (Phase::NeedReadAgain { entry, retry }, _) => lemma_advance_wf(
            c,
            entry as nat,
            Stage::Completed,
        ),
        (Phase::Reset(i), _) => lemma_advance_wf(c, i as nat, Stage::Completed),
        (Phase::Completed(i), Event::Completed(r)) => {
            let f = c.tasks[i as int].flags.after_completed(r);
            lemma_advance_wf(c.mark(i as int, f), i as nat, Stage::Flush);
        },
        (Phase::Flush(i), Event::Flushed(r)) => {
            let f = c.tasks[i as int].flags.after_flush(r);
            lemma_advance_wf(c.mark(i as int, f), i as nat + 1, Stage::Payload);
        },
        (Phase::Request, _) => {
            lemma_proceed_wf(Conn { flags: Flags { disconnected: true, ..c.flags }, ..c });
        },
        (Phase::Accept, Event::Accepted(entry)) => {
            lemma_proceed_wf(Conn { tasks: c.tasks.push(entry), ..c });
        },
        _ => {},
    }
}

/// Whether a connection is in order does not depend on the tasks.
proof fn lemma_wf_alike<T, E, W, R, K>(a: Conn<T, E, W, R, K>, b: Conn<T, E, W, R, K>)
    requires
        a.wf(),
        b == (Conn { tasks: b.tasks, ..a }),
        same_but_tasks(a.tasks, b.tasks),
    ensures
        b.wf(),
{
    assert forall|i: int| 0 <= i < a.tasks.len() implies a.tasks[i].flags == (
    #[trigger] b.tasks[i]).flags by {
        assert(a.tasks[i].body == b.tasks[i].body);
    }
}

/// The place of what is waited for among what a round asks of a request.
pub open spec fn order_of(phase: Phase) -> nat {
    match phase {
        Phase::Payload(_) => 0,
        Phase::NeedRead(_) => 1,
        Phase::Io { .. } => 2,
        Phase::NeedReadAgain { .. } => 3,
        Phase::Reset(_) => 4,
        Phase::Completed(_) => 5,
        Phase::Flush(_) => 6,
        _ => 7,
    }
}

/// The place of the first thing that is asked at `stage`.
pub open spec fn order_at(stage: Stage) -> nat {
    match stage {
        Stage::Payload => 0,
        Stage::Io => 1,
        Stage::Completed => 5,
        Stage::Flush => 6,
    }
}

/// Whatever is asked first from request `i` and `stage` on: it is what is waited for
/// then, it is asked no earlier, and the connection is what it was.
pub proof fn lemma_advance<T, E, W, R, K>(c: Conn<T, E, W, R, K>, i: nat, stage: Stage)
    ensures
        awaits(c.advance(i, stage).0.phase, c.advance(i, stage).1),
        c.advance(i, stage).0 == (Conn {
            tasks: c.advance(i, stage).0.tasks,
            phase: c.advance(i, stage).0.phase,
            ..c
        }),
        c.advance(i, stage).1 matches Step::Return(r) ==> r is Ok,
        c.tasks.len() <= usize::MAX ==> (request_of(c.advance(i, stage).0.phase) matches Some(j)
            ==> j > i || j == i && order_of(c.advance(i, stage).0.phase) >= order_at(stage)),
    decreases c.tasks.len() - i, stages_left(stage),
{
    if i < c.tasks.len() && !wants(c.tasks[i as int].flags, c.flags.disconnected, stage) {
        match stage {
            Stage::Payload => lemma_advance(c, i, Stage::Io),
            Stage::Io => if c.flags.disconnected {
                let f = EntryFlags { eof: true, ..c.tasks[i as int].flags };
                lemma_advance(c.mark(i as int, f), i, Stage::Completed);
            } else {
                lemma_advance(c, i, Stage::Completed)
            },
            Stage::Completed => lemma_advance(c, i, Stage::Flush),
            Stage::Flush => lemma_advance(c, i + 1, Stage::Payload),
        }
    }
}

/// What a connection waits for is what comes of the step that it asked for.
pub proof fn law_step_awaited<T, E, W, R, K>(c: Conn<T, E, W, R, K>, event: Event<T, E, W, R>)
    requires
        c.expects(event),
    ensures
        awaits(c.next(event).0.phase, c.next(event).1),
{
    assert forall|n: Conn<T, E, W, R, K>, i: nat, stage: Stage|
        awaits((#[trigger] n.advance(i, stage)).0.phase, n.advance(i, stage).1) by {
        lemma_advance(n, i, stage);
    }
}

/// When a poll of a connection whose other side is gone is answered with "not yet",
/// no task in its queue writes any more.
pub proof fn law_gone_stops_writing<T, E, W, R, K>(c: Conn<T, E, W, R, K>, event: Event<T, E, W, R>)
    requires
        c.wf(),
        c.expects(event),
        c.tasks.len() <= usize::MAX,
    ensures
        ({
            let n = c.next(event).0;
            c.next(event).1 == Step::Return(Ok(Async::NotReady)) && n.flags.disconnected
                && !n.flags.shutdown ==> forall|i: int|
                0 <= i < n.tasks.len() ==> (#[trigger] n.tasks[i]).flags.eof
        }),
{
    match (c.phase, event) {
        (Phase::Idle, _) | (Phase::Timer, _) | (Phase::TimerExpire, _) | (
            Phase::TimerReset,
            _,
        ) => if c.state is Connection && !c.flags.shutdown {
            lemma_advance_wf(c, 0, Stage::Payload);
        },
        (Phase::Completed(i), Event::Completed(r)) => {
            let f = c.tasks[i as int].flags.after_completed(r);
            lemma_advance_wf(c.mark(i as int, f), i as nat, Stage::Flush);
        },
        (Phase::Request, _) => {
            lemma_advance_wf(
                Conn { flags: Flags { disconnected: true, ..c.flags }, ..c },
                0,
                Stage::Payload,
            );
        },
        _ => {
            assert forall|n: Conn<T, E, W, R, K>, i: nat, stage: Stage|
                (#[trigger] n.advance(i, stage)).0.flags == n.flags by {
                lemma_advance(n, i, stage);
            }
        },
    }
}

} // verus!
