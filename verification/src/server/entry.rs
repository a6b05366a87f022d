//! One request of a connection, from its arrival until it leaves the queue.

use bytes::Bytes;
use http::header::{HeaderMap, HeaderValue};
use vstd::prelude::*;

use crate::buf::bytes_of;
use crate::error::PayloadError;
use crate::server::pipe::{EntryPipe, Version, NOT_FOUND};
use crate::server::request::{Message, Parts};
use crate::task::{Async, Poll};

verus! {

/// How far a request has come.
#[derive(Clone, Copy, Debug, PartialEq, Eq, Structural)]
pub struct EntryFlags {
    /// The task writes no more.
    pub eof: bool,
    /// The request body was read to its end.
    pub reof: bool,
    /// The request failed.
    pub error: bool,
    /// The task is finished.
    pub finished: bool,
    /// The response was handed to the connection to its end.
    pub write_done: bool,
}

impl EntryFlags {
    /// The flags of a request of which nothing was done yet.
    pub open spec fn none() -> EntryFlags {
        EntryFlags { eof: false, reof: false, error: false, finished: false, write_done: false }
    }

    /// Whether a request with these flags leaves the queue once it is in front: its
    /// task is finished and its response is written, or it failed.
    pub open spec fn over(self) -> bool {
        self.finished && self.write_done || self.error
    }

    /// Whether every flag that is set here is set in `later` too.
    pub open spec fn kept_in(self, later: EntryFlags) -> bool {
        &&& self.eof ==> later.eof
        &&& self.reof ==> later.reof
        &&& self.error ==> later.error
        &&& self.finished ==> later.finished
        &&& self.write_done ==> later.write_done
    }

    /// The flags once the task was let write and answered `r`.
    pub open spec fn after_io(self, r: Poll<bool, ()>) -> EntryFlags {
        match r {
            Ok(Async::Ready(done)) => EntryFlags {
                eof: true,
                finished: done || self.finished,
                ..self
            },
            Ok(Async::NotReady) => self,
            Err(_) => EntryFlags { eof: true, error: true, write_done: true, ..self },
        }
    }

    /// The flags once the task was let finish and answered `r`.
    pub open spec fn after_completed(self, r: Poll<(), ()>) -> EntryFlags {
        match r {
            Ok(Async::Ready(_)) => EntryFlags { finished: true, write_done: true, ..self },
            Ok(Async::NotReady) => self,
            Err(_) => EntryFlags { error: true, write_done: true, finished: true, ..self },
        }
    }

    /// The flags once the response writer was let finish and answered `r`.
    pub open spec fn after_flush(self, r: Poll<(), ()>) -> EntryFlags {
        match r {
            Ok(Async::Ready(_)) => EntryFlags { write_done: true, ..self },
            Ok(Async::NotReady) => self,
            Err(_) => EntryFlags { error: true, ..self },
        }
    }

    /// Notes what the task answered when it was let write.
    pub fn set_io(&mut self, r: Poll<bool, ()>)
        ensures
            *final(self) == old(self).after_io(r),
    {
        match r {
            Ok(Async::Ready(done)) => {
                self.eof = true;
                if done {
                    self.finished = true;
                }
            },
            Ok(Async::NotReady) => {},
            Err(_) => {
                self.eof = true;
                self.error = true;
                self.write_done = true;
            },
        }
    }

    /// Notes what the task answered when it was let finish.
    pub fn set_completed(&mut self, r: Poll<(), ()>)
        ensures
            *final(self) == old(self).after_completed(r),
    {
        match r {
            Ok(Async::Ready(_)) => {
                self.finished = true;
                self.write_done = true;
            },
            Ok(Async::NotReady) => {},
            Err(_) => {
                self.error = true;
                self.write_done = true;
                self.finished = true;
            },
        }
    }

    /// Notes what the response writer answered when it was let finish.
    pub fn set_flush(&mut self, r: Poll<(), ()>)
        ensures
            *final(self) == old(self).after_flush(r),
    {
        match r {
            Ok(Async::Ready(_)) => {
                self.write_done = true;
            },
            Ok(Async::NotReady) => {},
            Err(_) => {
                self.error = true;
            },
        }
    }

    /// The flags of a request of which nothing was done yet.
    pub fn empty() -> (f: EntryFlags)
        ensures
            f == EntryFlags::none(),
    {
        EntryFlags { eof: false, reof: false, error: false, finished: false, write_done: false }
    }

    /// Whether a request with these flags leaves the queue once it is in front.
    pub fn is_over(&self) -> (r: bool)
        ensures
            r == self.over(),
    {
        self.finished && self.write_done || self.error
    }
}

/// A request in the queue of its connection. `W` is where its response is written, `R`
/// where its body comes from and goes to.
pub struct Entry<T, E, W, R> {
    pub task: EntryPipe<T, E>,
    pub stream: W,
    pub body: R,
    pub flags: EntryFlags,
}

/// What came of a [`PayloadStep`].
pub enum PayloadEvent {
    /// Nothing was asked yet.
    Start,
    /// Whether whoever consumes the body wants more of it.
    NeedRead(bool),
    /// What the stream had: a piece of the body, its end, nothing yet, or its error.
    Recv(Poll<Option<Bytes>, String>),
    /// Whether the stream took back the room of a piece that was fed, or its error.
    Released(Result<(), String>),
}

/// What is to be done next to move a request body on.
pub enum PayloadStep {
    /// Ask whoever consumes the body whether more of it is wanted.
    NeedRead,
    /// Ask the stream for the next piece.
    PollRecv,
    /// Feed the piece to whoever consumes the body, then give the stream room for
    /// `release` more bytes.
    Feed { chunk: Bytes, release: usize },
    /// Nothing more for now.
    Pause,
    /// Tell whoever consumes the body that it is complete. Nothing more after that.
    FeedEof,
    /// Tell whoever consumes the body what went wrong. Nothing more for now.
    SetError(PayloadError),
}

/// What is to be done next for a body that was read to its end, or not (`reof`),
/// after `event`.
pub open spec fn payload_step(reof: bool, event: PayloadEvent) -> PayloadStep {
    match event {
        PayloadEvent::Start | PayloadEvent::Released(Ok(_)) => if reof {
            PayloadStep::Pause
        } else {
            PayloadStep::NeedRead
        },
        PayloadEvent::NeedRead(wanted) => if wanted {
            PayloadStep::PollRecv
        } else {
            PayloadStep::Pause
        },
        PayloadEvent::Recv(Ok(Async::Ready(Some(chunk)))) => PayloadStep::Feed {
            chunk,
            release: bytes_of(chunk).len() as usize,
        },
        PayloadEvent::Recv(Ok(Async::Ready(None))) => PayloadStep::FeedEof,
        PayloadEvent::Recv(Ok(Async::NotReady)) => PayloadStep::Pause,
        PayloadEvent::Recv(Err(err)) | PayloadEvent::Released(Err(err)) => PayloadStep::SetError(
            PayloadError::Http2(err),
        ),
    }
}

/// Whether the body is known to be read to its end after `event`.
pub open spec fn payload_ended(reof: bool, event: PayloadEvent) -> bool {
    reof || event matches PayloadEvent::Recv(Ok(Async::Ready(None)))
}

/// Whether `task` is who works on a request that its handler took or refused
/// (`handled`): the task that the handler started, or the one that `err` makes to answer
/// "404 Not Found".
pub open spec fn works_on<T, E, Z, F>(
    task: EntryPipe<T, E>,
    handled: Result<T, Z>,
    err: F,
) -> bool where F: FnOnce(Version, u16) -> E {
    match handled {
        Ok(started) => task == EntryPipe::<T, E>::Task(started),
        Err(_) => task matches EntryPipe::Error(refusal) && err.ensures(
            (Version::Http2, NOT_FOUND),
            refusal,
        ),
    }
}

/// Whether `entry` is what becomes of a request with this message: its handler was given
/// the message, and its body is fed as its headers say.
pub open spec fn started_on<T, E, W, R, U, M, A, X, P, Z, G, H, F>(
    entry: Entry<T, E, W, R>,
    message: Message<U, M, A, X, P>,
    stream: W,
    feed: G,
    handle: H,
    err: F,
) -> bool where
    G: FnOnce(&HeaderMap<HeaderValue>) -> R,
    H: FnOnce(Message<U, M, A, X, P>) -> Result<T, Z>,
    F: FnOnce(Version, u16) -> E,
 {
    &&& entry.flags == EntryFlags::none()
    &&& entry.stream == stream
    &&& feed.ensures((&message.headers,), entry.body)
    &&& exists|handled: Result<T, Z>|
        handle.ensures((message,), handled) && #[trigger] works_on(entry.task, handled, err)
}

/// Once a body was read to its end it stays so, and nothing more is asked for it.
pub proof fn law_ended_body_rests(event: PayloadEvent)
    ensures
        payload_ended(true, event),
        payload_step(true, PayloadEvent::Start) is Pause,
{
}

/// A body is at its end exactly when whoever consumes it is told so.
pub proof fn law_end_is_told(event: PayloadEvent)
    ensures
        payload_ended(false, event) <==> payload_step(false, event) is FeedEof,
{
}

/// The stream is asked for a piece only right after whoever consumes the body wanted
/// more of it, and a piece is fed only right after it came, as it came.
pub proof fn law_body_follows_demand(reof: bool, event: PayloadEvent)
    ensures
        payload_step(reof, event) is PollRecv <==> event == PayloadEvent::NeedRead(true),
        payload_step(reof, event) matches PayloadStep::Feed { chunk, release } ==> event
            == PayloadEvent::Recv(Ok(Async::Ready(Some(chunk)))) && release == bytes_of(
            chunk,
        ).len() as usize,
{
}

/// Every piece of a body that comes is fed, as it came, and all of its room is given
/// back.
pub proof fn law_every_piece_is_fed(reof: bool, chunk: Bytes)
    ensures
        payload_step(reof, PayloadEvent::Recv(Ok(Async::Ready(Some(chunk))))) matches
            PayloadStep::Feed { chunk: fed, release } && fed == chunk && release == bytes_of(
            chunk,
        ).len() as usize,
        payload_ended(reof, PayloadEvent::Recv(Ok(Async::Ready(Some(chunk))))) == reof,
{
}

/// What moving a body on leads to, besides a piece that came: a body that is not at its
/// end is moved on while more of it is wanted, its end is told, its errors are told, and
/// otherwise nothing more is done for now.
pub proof fn law_body_is_moved_on(reof: bool, err: String)
    ensures
        payload_step(false, PayloadEvent::Start) is NeedRead,
        payload_step(true, PayloadEvent::Start) is Pause,
        payload_step(false, PayloadEvent::Released(Ok(()))) is NeedRead,
        payload_step(true, PayloadEvent::Released(Ok(()))) is Pause,
        payload_step(reof, PayloadEvent::NeedRead(true)) is PollRecv,
        payload_step(reof, PayloadEvent::NeedRead(false)) is Pause,
        payload_step(reof, PayloadEvent::Recv(Ok(Async::NotReady))) is Pause,
        payload_step(reof, PayloadEvent::Recv(Ok(Async::Ready(None)))) is FeedEof,
        payload_step(reof, PayloadEvent::Recv(Err(err))) == PayloadStep::SetError(
            PayloadError::Http2(err),
        ),
        payload_step(reof, PayloadEvent::Released(Err(err))) == PayloadStep::SetError(
            PayloadError::Http2(err),
        ),
{
}

/// A body is at its end once the stream said so, and not before.
pub proof fn law_end_comes_from_the_stream(reof: bool, event: PayloadEvent)
    ensures
        payload_ended(reof, event) == (reof || event matches PayloadEvent::Recv(
            Ok(Async::Ready(None)),
        )),
{
}

/// The bytes that come in `events`, in order.
pub open spec fn received(events: Seq<PayloadEvent>) -> Seq<u8>
    decreases events.len(),
{
    if events.len() == 0 {
        Seq::empty()
    } else {
        match events.last() {
            PayloadEvent::Recv(Ok(Async::Ready(Some(chunk)))) => received(events.drop_last())
                + bytes_of(chunk),
            _ => received(events.drop_last()),
        }
    }
}

/// The bytes that are fed on `events` to whoever consumes a body that was at its end, or
/// not (`reof`), before them.
pub open spec fn fed(reof: bool, events: Seq<PayloadEvent>) -> Seq<u8>
    decreases events.len(),
{
    if events.len() == 0 {
        Seq::empty()
    } else {
        match payload_step(reof_after(reof, events.drop_last()), events.last()) {
            PayloadStep::Feed { chunk, .. } => fed(reof, events.drop_last()) + bytes_of(chunk),
            _ => fed(reof, events.drop_last()),
        }
    }
}

/// Whether a body is at its end after `events`.
pub open spec fn reof_after(reof: bool, events: Seq<PayloadEvent>) -> bool
    decreases events.len(),
{
    if events.len() == 0 {
        reof
    } else {
        payload_ended(reof_after(reof, events.drop_last()), events.last())
    }
}

/// Whoever consumes a body is fed exactly the bytes that came, in order.
pub proof fn law_body_arrives_whole(reof: bool, events: Seq<PayloadEvent>)
    ensures
        fed(reof, events) == received(events),
    decreases events.len(),
{
    if events.len() > 0 {
        law_body_arrives_whole(reof, events.drop_last());
        let before = reof_after(reof, events.drop_last());
        law_body_follows_demand(before, events.last());
        if let PayloadEvent::Recv(Ok(Async::Ready(Some(chunk)))) = events.last() {
            law_every_piece_is_fed(before, chunk);
        }
    }
}

/// A new request has no flag. One leaves the queue once its task is finished and its
/// response written, or once it failed, and in no other case.
pub proof fn law_request_is_over_when_nothing_is_left(f: EntryFlags)
    ensures
        f.over() <==> f.finished && f.write_done || f.error,
        ({
            let new = EntryFlags::none();
            !new.eof && !new.reof && !new.error && !new.finished && !new.write_done
        }),
{
}

/// Flags are kept exactly if each that was set is still set.
pub proof fn law_kept_flags(f: EntryFlags, later: EntryFlags)
    ensures
        f.kept_in(later) <==> (f.eof ==> later.eof) && (f.reof ==> later.reof) && (f.error
            ==> later.error) && (f.finished ==> later.finished) && (f.write_done
            ==> later.write_done),
{
}

/// Which flags each answer sets, and that it sets no other.
pub proof fn law_flags_that_answers_set(f: EntryFlags, io: Poll<bool, ()>, end: Poll<(), ()>)
    ensures
        ({
            let n = f.after_io(io);
            &&& n.eof == (f.eof || !(io matches Ok(Async::NotReady)))
            &&& n.reof == f.reof
            &&& n.error == (f.error || io is Err)
            &&& n.finished == (f.finished || io matches Ok(Async::Ready(true)))
            &&& n.write_done == (f.write_done || io is Err)
        }),
        ({
            let n = f.after_completed(end);
            &&& n.eof == f.eof
            &&& n.reof == f.reof
            &&& n.error == (f.error || end is Err)
            &&& n.finished == (f.finished || !(end matches Ok(Async::NotReady)))
            &&& n.write_done == (f.write_done || !(end matches Ok(Async::NotReady)))
        }),
        ({
            let n = f.after_flush(end);
            &&& n.eof == f.eof
            &&& n.reof == f.reof
            &&& n.error == (f.error || end is Err)
            &&& n.finished == f.finished
            &&& n.write_done == (f.write_done || end matches Ok(Async::Ready(_)))
        }),
{
}

/// A request that its handler took has the task that the handler started. One that it
/// refused has the task that answers with status 404, in HTTP/2.
pub proof fn law_refused_request_is_not_found<T, E, Z, F>(
    task: EntryPipe<T, E>,
    handled: Result<T, Z>,
    err: F,
) where F: FnOnce(Version, u16) -> E
    requires
        works_on(task, handled, err),
    ensures
        handled matches Ok(started) ==> task == EntryPipe::<T, E>::Task(started),
        handled is Err ==> (task matches EntryPipe::Error(refusal) && err.ensures(
            (Version::Http2, 404u16),
            refusal,
        )),
{
}

/// A request that was started on has no flag yet and the response writer that it was
/// given. Its body is fed as the headers of its message say, and its handler was given
/// the message and is answered for.
pub proof fn law_handler_gets_the_message<T, E, W, R, U, M, A, X, P, Z, G, H, F>(
    entry: Entry<T, E, W, R>,
    message: Message<U, M, A, X, P>,
    stream: W,
    feed: G,
    handle: H,
    err: F,
) where
    G: FnOnce(&HeaderMap<HeaderValue>) -> R,
    H: FnOnce(Message<U, M, A, X, P>) -> Result<T, Z>,
    F: FnOnce(Version, u16) -> E,

    requires
        started_on(entry, message, stream, feed, handle, err),
    ensures
        entry.flags == (EntryFlags {
            eof: false,
            reof: false,
            error: false,
            finished: false,
            write_done: false,
        }),
        entry.stream == stream,
        feed.ensures((&message.headers,), entry.body),
        match entry.task {
            EntryPipe::Task(task) => handle.ensures((message,), Ok(task)),
            EntryPipe::Error(refusal) => (exists|z: Z| handle.ensures((message,), Err(z)))
                && err.ensures((Version::Http2, 404u16), refusal),
        },
{
    let handled = choose|handled: Result<T, Z>|
        handle.ensures((message,), handled) && #[trigger] works_on(entry.task, handled, err);
    law_refused_request_is_not_found(entry.task, handled, err);
    if let Err(z) = handled {
        assert(handle.ensures((message,), Err(z)));
    }
}

impl<T, E, W, R> Entry<T, E, W, R> {
    /// Starts on a request: puts its message together, says by its headers how its body
    /// is fed to `payload` (`feed`), and hands it to its handler. What is queued is what
    /// [`Entry::queued`] makes of the answer.
    pub fn new<U, M, A, X, P, Z, G, H, F>(
        parts: Parts<U, M>,
        payload: P,
        addr: Option<A>,
        extensions: Option<X>,
        stream: W,
        feed: G,
        handle: H,
        err: F,
    ) -> (entry: Entry<T, E, W, R>) where
        G: FnOnce(&HeaderMap<HeaderValue>) -> R,
        H: FnOnce(Message<U, M, A, X, P>) -> Result<T, Z>,
        F: FnOnce(Version, u16) -> E,

        requires
            feed.requires((&parts.headers,)),
            handle.requires((Message::of(parts, payload, addr, extensions),)),
            err.requires((Version::Http2, NOT_FOUND)),
        ensures
            started_on(
                entry,
                Message::of(parts, payload, addr, extensions),
                stream,
                feed,
                handle,
                err,
            ),
    {
        let message = Message::new(parts, payload, addr, extensions);
        let body = feed(&message.headers);
        let handled = handle(message);
        Entry::queued(handled, stream, body, err)
    }

    /// Queues a request that its handler took (`handled` is then the task that it
    /// started) or refused. A refused request is answered with "404 Not Found": `err`
    /// makes the task that answers with a status.
    pub fn queued<Z, F>(handled: Result<T, Z>, stream: W, body: R, err: F) -> (entry: Entry<
        T,
        E,
        W,
        R,
    >) where F: FnOnce(Version, u16) -> E
        requires
            err.requires((Version::Http2, NOT_FOUND)),
        ensures
            entry.flags == EntryFlags::none(),
            entry.stream == stream,
            entry.body == body,
            works_on(entry.task, handled, err),
    {
        let task = match handled {
            Ok(task) => EntryPipe::Task(task),
            Err(_) => EntryPipe::Error(err(Version::Http2, NOT_FOUND)),
        };
        Entry { task, stream, body, flags: EntryFlags::empty() }
    }

    /// Moves the request body on: takes what came of the last step and says which is
    /// next.
    pub fn poll_payload(&mut self, event: PayloadEvent) -> (step: PayloadStep)
        ensures
            step == payload_step(old(self).flags.reof, event),
            *final(self) == (Entry {
                flags: EntryFlags {
                    reof: payload_ended(old(self).flags.reof, event),
                    ..old(self).flags
                },
                ..*old(self)
            }),
    {
        match event {
            PayloadEvent::Start | PayloadEvent::Released(Ok(_)) => {
                if self.flags.reof {
                    PayloadStep::Pause
                } else {
                    PayloadStep::NeedRead
                }
            },
            PayloadEvent::NeedRead(wanted) => {
                if wanted {
                    PayloadStep::PollRecv
                } else {
                    PayloadStep::Pause
                }
            },
            PayloadEvent::Recv(Ok(Async::Ready(Some(chunk)))) => {
                let release: usize = chunk.len();
                PayloadStep::Feed { chunk, release }
            },
            PayloadEvent::Recv(Ok(Async::Ready(None))) => {
                self.flags.reof = true;
                PayloadStep::FeedEof
            },
            PayloadEvent::Recv(Ok(Async::NotReady)) => PayloadStep::Pause,
            PayloadEvent::Recv(Err(err)) | PayloadEvent::Released(Err(err)) => {
                PayloadStep::SetError(PayloadError::Http2(err))
            },
        }
    }
}

} // verus!
