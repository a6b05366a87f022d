//! What each answer leads to, question by question, in terms of the flags of the
//! requests and of the connection.

use vstd::prelude::*;

use crate::error::HttpDispatchError;
use crate::server::entry::{Entry, EntryFlags};
use crate::server::h2::{
    all_told, awaits, completed, law_settled, lemma_advance, outcome, same_but_tasks, settled,
    tells_all, wrote, Conn, Event, Flags, Phase, Stage, State, Step,
};
use crate::server::pipe::{EntryPipe, HttpHandlerTask};
use crate::task::{Async, Poll};

verus! {

/// Whether nothing is left to do for a request: its task is finished and its response
/// written, or it failed.
pub open spec fn nothing_left(f: EntryFlags) -> bool {
    f.finished && f.write_done || f.error
}

/// Whether `after` is `before` without the requests in front for which nothing is left
/// to do, and with all others.
pub open spec fn front_dropped<T, E, W, R>(
    before: Seq<Entry<T, E, W, R>>,
    after: Seq<Entry<T, E, W, R>>,
) -> bool {
    let gone = before.len() - after.len();
    &&& gone >= 0
    &&& after == before.skip(gone)
    &&& forall|i: int| 0 <= i < gone ==> nothing_left((#[trigger] before[i]).flags)
    &&& gone < before.len() ==> !nothing_left(before[gone].flags)
}

/// The queue with the flags of request `i` replaced.
pub open spec fn flagged<T, E, W, R>(
    queue: Seq<Entry<T, E, W, R>>,
    i: int,
    flags: EntryFlags,
) -> Seq<Entry<T, E, W, R>> {
    queue.update(
        i,
        Entry {
            task: queue[i].task,
            stream: queue[i].stream,
            body: queue[i].body,
            flags,
        },
    )
}

/// Whether a round on an open connection leaves request `i`: it goes on to the next one,
/// and from the last one to the question for a new request.
pub open spec fn leaves_request<T, E, W, R, K>(
    c: Conn<T, E, W, R, K>,
    queue: Seq<Entry<T, E, W, R>>,
    i: int,
    n: Conn<T, E, W, R, K>,
    step: Step,
) -> bool {
    if i + 1 < queue.len() {
        &&& step == Step::PollPayload((i + 1) as usize)
        &&& n == (Conn { tasks: queue, phase: Phase::Payload((i + 1) as usize), ..c })
    } else {
        &&& step is PollRequest
        &&& n == (Conn { tasks: n.tasks, phase: Phase::Request, ..c })
        &&& front_dropped(queue, n.tasks)
    }
}

/// Whether a round on an open connection leaves request `i` only if its response is not
/// there yet or is written; otherwise the response is flushed.
pub open spec fn flushes_or_leaves<T, E, W, R, K>(
    c: Conn<T, E, W, R, K>,
    queue: Seq<Entry<T, E, W, R>>,
    i: int,
    n: Conn<T, E, W, R, K>,
    step: Step,
) -> bool {
    if queue[i].flags.finished && !queue[i].flags.write_done {
        &&& step == Step::Flush(i as usize)
        &&& n == (Conn { tasks: queue, phase: Phase::Flush(i as usize), ..c })
    } else {
        leaves_request(c, queue, i, n, step)
    }
}

/// Whether a task that is done writing and not finished is let finish before the round
/// goes on with its response.
pub open spec fn finishes_first<T, E, W, R, K>(
    c: Conn<T, E, W, R, K>,
    queue: Seq<Entry<T, E, W, R>>,
    i: int,
    n: Conn<T, E, W, R, K>,
    step: Step,
) -> bool {
    if queue[i].flags.eof && !queue[i].flags.finished {
        &&& step == Step::PollCompleted(i as usize)
        &&& n == (Conn { tasks: queue, phase: Phase::Completed(i as usize), ..c })
    } else {
        flushes_or_leaves(c, queue, i, n, step)
    }
}

/// Whether a connection is set up, works and gets requests, and has a request `i`.
pub open spec fn serves<T, E, W, R, K>(c: Conn<T, E, W, R, K>, i: usize) -> bool {
    &&& c.state is Connection
    &&& !c.flags.shutdown
    &&& !c.flags.disconnected
    &&& i < c.tasks.len() <= usize::MAX
}

/// Once the body of a request was moved on, its task is let write, unless it is done
/// writing.
pub proof fn law_writing_follows_reading<T, E, W, R, K>(c: Conn<T, E, W, R, K>, i: usize)
    requires
        serves(c, i),
        c.phase == Phase::Payload(i),
    ensures
        ({
            let (n, step) = c.next(Event::Done);
            if !c.tasks[i as int].flags.eof {
                step == Step::NeedRead(i) && n == (Conn { phase: Phase::NeedRead(i), ..c })
            } else {
                finishes_first(c, c.tasks, i as int, n, step)
            }
        }),
{
    lemma_open(c, i as int);
}

/// A task is let write whether or not more of its body is wanted; what was wanted is
/// remembered.
pub proof fn law_task_is_let_write<T, E, W, R, K>(
    c: Conn<T, E, W, R, K>,
    i: usize,
    wanted: bool,
)
    requires
        c.phase == Phase::NeedRead(i),
    ensures
        c.next(Event::NeedRead(wanted)) == (
            Conn { phase: Phase::Io { entry: i, retry: wanted }, ..c },
            Step::PollIo(i),
        ),
{
}

/// What a task answers when it was let write. "Done" sets its flag, and so does
/// "finished"; a failure is noted and the stream is reset; with nothing written it is
/// asked whether more of the body is wanted now.
pub proof fn law_writing_is_noted<T, E, W, R, K>(
    c: Conn<T, E, W, R, K>,
    i: usize,
    retry: bool,
    r: Poll<bool, ()>,
)
    requires
        serves(c, i),
        c.phase == (Phase::Io { entry: i, retry }),
    ensures
        ({
            let (n, step) = c.next(Event::Io(r));
            let f = c.tasks[i as int].flags;
            match r {
                Ok(Async::Ready(finished)) => finishes_first(
                    c,
                    flagged(
                        c.tasks,
                        i as int,
                        EntryFlags {
                            eof: true,
                            reof: f.reof,
                            error: f.error,
                            finished: f.finished || finished,
                            write_done: f.write_done,
                        },
                    ),
                    i as int,
                    n,
                    step,
                ),
                Ok(Async::NotReady) => step == Step::NeedRead(i) && n == (Conn {
                    phase: Phase::NeedReadAgain { entry: i, retry },
                    ..c
                }),
                Err(_) => step == Step::ResetStream(i) && n == (Conn {
                    tasks: flagged(
                        c.tasks,
                        i as int,
                        EntryFlags {
                            eof: true,
                            reof: f.reof,
                            error: true,
                            finished: f.finished,
                            write_done: true,
                        },
                    ),
                    phase: Phase::Reset(i),
                    ..c
                }),
            }
        }),
{
    let n = c.next(Event::Io(r)).0;
    assert(r matches Ok(Async::NotReady) ==> n.tasks =~= c.tasks);
    lemma_open(c.mark(i as int, c.tasks[i as int].flags.after_io(r)), i as int);
}

/// A task that had nothing to write is let write again only if more of its body is
/// wanted now and was not before.
pub proof fn law_writing_is_tried_again<T, E, W, R, K>(
    c: Conn<T, E, W, R, K>,
    i: usize,
    retry: bool,
    wanted: bool,
)
    requires
        serves(c, i),
        c.phase == (Phase::NeedReadAgain { entry: i, retry }),
    ensures
        ({
            let (n, step) = c.next(Event::NeedRead(wanted));
            if wanted && !retry {
                step == Step::PollIo(i) && n == (Conn {
                    phase: Phase::Io { entry: i, retry: false },
                    ..c
                })
            } else {
                finishes_first(c, c.tasks, i as int, n, step)
            }
        }),
{
    lemma_open(c, i as int);
}

/// Once the stream of a failed request was reset, its task is let finish, unless it is
/// finished.
pub proof fn law_reset_goes_on<T, E, W, R, K>(c: Conn<T, E, W, R, K>, i: usize)
    requires
        serves(c, i),
        c.phase == Phase::Reset(i),
    ensures
        finishes_first(
            c,
            c.tasks,
            i as int,
            c.next(Event::Done).0,
            c.next(Event::Done).1,
        ),
{
    lemma_open(c, i as int);
}

/// The flags of a request once its task was let finish and answered `r`.
pub open spec fn once_finished(f: EntryFlags, r: Poll<(), ()>) -> EntryFlags {
    let waits = r matches Ok(Async::NotReady);
    EntryFlags {
        eof: f.eof,
        reof: f.reof,
        error: f.error || r is Err,
        finished: f.finished || !waits,
        write_done: f.write_done || !waits,
    }
}

/// What a task answers when it was let finish, on an open connection. Unless it is not
/// finished yet, it is, well or not, and nothing of its response is left to write.
pub proof fn law_finishing_is_noted<T, E, W, R, K>(
    c: Conn<T, E, W, R, K>,
    i: usize,
    r: Poll<(), ()>,
)
    requires
        serves(c, i),
        c.phase == Phase::Completed(i),
    ensures
        flushes_or_leaves(
            c,
            flagged(c.tasks, i as int, once_finished(c.tasks[i as int].flags, r)),
            i as int,
            c.next(Event::Completed(r)).0,
            c.next(Event::Completed(r)).1,
        ),
{
    let f = c.tasks[i as int].flags;
    assert(f.after_completed(r) == once_finished(f, r));
    lemma_open(c.mark(i as int, f.after_completed(r)), i as int);
}

/// What the response writer answers when it was let finish: the response is written, or
/// not yet, or the request failed. The round leaves the request in any case.
pub proof fn law_flushing_is_noted<T, E, W, R, K>(
    c: Conn<T, E, W, R, K>,
    i: usize,
    r: Poll<(), ()>,
)
    requires
        serves(c, i),
        c.phase == Phase::Flush(i),
    ensures
        ({
            let f = c.tasks[i as int].flags;
            leaves_request(
                c,
                flagged(
                    c.tasks,
                    i as int,
                    EntryFlags {
                        eof: f.eof,
                        reof: f.reof,
                        error: f.error || r is Err,
                        finished: f.finished,
                        write_done: f.write_done || r matches Ok(Async::Ready(_)),
                    },
                ),
                i as int,
                c.next(Event::Flushed(r)).0,
                c.next(Event::Flushed(r)).1,
            )
        }),
{
    let f = c.tasks[i as int].flags.after_flush(r);
    lemma_open(c.mark(i as int, f), i as int);
}

/// Nothing that is due is passed over. From the body of a request a round on an open
/// connection leaves the request only if its task is done writing. Before its task was
/// let finish it leaves one that is done writing only if it is finished. Before its
/// response was flushed it leaves one that is finished only if its response is written.
pub proof fn law_what_is_due_is_asked<T, E, W, R, K>(
    c: Conn<T, E, W, R, K>,
    event: Event<T, E, W, R>,
    i: usize,
)
    requires
        serves(c, i),
        match c.phase {
            Phase::Payload(k) | Phase::Reset(k) => k == i && event is Done,
            Phase::NeedRead(k) => k == i && event is NeedRead,
            Phase::Io { entry, .. } => entry == i && event is Io,
            Phase::NeedReadAgain { entry, .. } => entry == i && event is NeedRead,
            Phase::Completed(k) => k == i && event is Completed,
            Phase::Flush(k) => k == i && event is Flushed,
            _ => false,
        },
    ensures
        ({
            let f = c.tasks[i as int].flags;
            let step = c.next(event).1;
            let finished = f.finished || event matches Event::Io(Ok(Async::Ready(true))) || (
            event matches Event::Completed(r) && !(r matches Ok(Async::NotReady)));
            let written = f.write_done || (event matches Event::Completed(r) && !(
            r matches Ok(Async::NotReady)));
            let eof = f.eof || event matches Event::Io(Ok(Async::Ready(_)));
            let left = step is PollRequest || step matches Step::PollPayload(_);
            &&& left && (c.phase is Payload || c.phase is Io) ==> eof
            &&& left && eof && !(c.phase is Completed || c.phase is Flush) ==> finished
            &&& left && finished && !(c.phase is Flush) ==> written
            &&& left || step == Step::NeedRead(i) || step == Step::PollIo(i) || step
                == Step::ResetStream(i) || step == Step::PollCompleted(i) || step == Step::Flush(i)
        }),
{
    match (c.phase, event) {
        (Phase::Payload(_), _) => law_writing_follows_reading(c, i),
        (Phase::NeedRead(_), Event::NeedRead(wanted)) => law_task_is_let_write(c, i, wanted),
        (Phase::Io { retry, .. }, Event::Io(r)) => law_writing_is_noted(c, i, retry, r),
        (Phase::NeedReadAgain { retry, .. }, Event::NeedRead(wanted)) => {
            law_writing_is_tried_again(c, i, retry, wanted)
        },
        (Phase::Reset(_), _) => law_reset_goes_on(c, i),
        (Phase::Completed(_), Event::Completed(r)) => law_finishing_is_noted(c, i, r),
        (Phase::Flush(_), Event::Flushed(r)) => law_flushing_is_noted(c, i, r),
        _ => {},
    }
}

/// Whether the round of a connection that gets no more requests goes on behind the first
/// `from` of them: no task writes any more, the first one that is not finished is let
/// finish, and where all are, the connection waits for those in the queue or, if there
/// are none, is closed.
pub open spec fn winds_up<T, E, W, R, K>(
    c: Conn<T, E, W, R, K>,
    queue: Seq<Entry<T, E, W, R>>,
    from: int,
    n: Conn<T, E, W, R, K>,
    step: Step,
) -> bool {
    match step {
        Step::PollCompleted(i) => {
            &&& from <= i < queue.len()
            &&& n == (Conn { tasks: n.tasks, phase: Phase::Completed(i), ..c })
            &&& n.tasks.len() == queue.len()
            &&& !queue[i as int].flags.finished
            &&& forall|k: int| from <= k < i ==> (#[trigger] queue[k]).flags.finished
            &&& forall|k: int|
                0 <= k < queue.len() ==> #[trigger] n.tasks[k] == (if from <= k <= i {
                    silenced(queue[k])
                } else {
                    queue[k]
                })
        },
        _ => {
            let quiet = Seq::new(
                queue.len(),
                |k: int|
                    if from <= k {
                        silenced(queue[k])
                    } else {
                        queue[k]
                    },
            );
            &&& forall|k: int| from <= k < queue.len() ==> (#[trigger] queue[k]).flags.finished
            &&& front_dropped(quiet, n.tasks)
            &&& n == (Conn { tasks: n.tasks, phase: n.phase, ..c })
            &&& if n.tasks.len() == 0 {
                step is PollClose && n.phase is Close
            } else {
                step == Step::Return(Ok(Async::NotReady)) && n.phase is Idle
            }
        },
    }
}

/// A request whose task writes no more.
pub open spec fn silenced<T, E, W, R>(entry: Entry<T, E, W, R>) -> Entry<T, E, W, R> {
    Entry {
        task: entry.task,
        stream: entry.stream,
        body: entry.body,
        flags: EntryFlags {
            eof: true,
            reof: entry.flags.reof,
            error: entry.flags.error,
            finished: entry.flags.finished,
            write_done: entry.flags.write_done,
        },
    }
}

/// What a task answers when it was let finish, on a connection that gets no more
/// requests.
pub proof fn law_finishing_is_noted_when_winding_up<T, E, W, R, K>(
    c: Conn<T, E, W, R, K>,
    i: usize,
    r: Poll<(), ()>,
)
    requires
        c.state is Connection,
        !c.flags.shutdown,
        c.flags.disconnected,
        i < c.tasks.len() <= usize::MAX,
        c.phase == Phase::Completed(i),
    ensures
        winds_up(
            c,
            flagged(c.tasks, i as int, once_finished(c.tasks[i as int].flags, r)),
            i + 1,
            c.next(Event::Completed(r)).0,
            c.next(Event::Completed(r)).1,
        ),
{
    let f = c.tasks[i as int].flags;
    assert(f.after_completed(r) == once_finished(f, r));
    let m = c.mark(i as int, once_finished(f, r));
    lemma_winds_up(m, i as nat + 1);
    assert(m.advance(i as nat, Stage::Flush) == m.advance(i as nat + 1, Stage::Payload));
}

/// Whether a connection goes on as one that was polled and whose timer has nothing to
/// say: with its handshake, with its closing, or with a round over its requests from the
/// first one on.
pub open spec fn goes_on<T, E, W, R, K>(
    c: Conn<T, E, W, R, K>,
    n: Conn<T, E, W, R, K>,
    step: Step,
) -> bool {
    if c.state is Handshake {
        step is PollHandshake && n == (Conn { phase: Phase::Handshake, ..c })
    } else if c.flags.shutdown {
        step is PollClose && n == (Conn { phase: Phase::Close, ..c })
    } else if c.flags.disconnected {
        winds_up(c, c.tasks, 0, n, step)
    } else if c.tasks.len() > 0 {
        step == Step::PollPayload(0) && n == (Conn { phase: Phase::Payload(0), ..c })
    } else {
        step is PollRequest && n == (Conn { phase: Phase::Request, ..c })
    }
}

/// A poll begins with the timer, if there is one.
pub proof fn law_poll_begins_with_the_timer<T, E, W, R, K>(c: Conn<T, E, W, R, K>)
    requires
        c.phase is Idle,
        c.tasks.len() <= usize::MAX,
    ensures
        ({
            let (n, step) = c.next(Event::Poll);
            if c.ka_timer {
                step is PollTimer && n == (Conn { phase: Phase::Timer, ..c })
            } else {
                goes_on(c, n, step)
            }
        }),
{
    lemma_goes_on(c);
}

/// What the timer decides. Where it did not fire, the connection goes on. Where it fired
/// on a failed connection, or once the connection has expired and has no request, the
/// connection is dropped. Where it fired too early it is set to the expiry, and where
/// there are requests, the expiry is asked for anew.
pub proof fn law_timer_decides<T, E, W, R, K>(c: Conn<T, E, W, R, K>, fired: Poll<u64, ()>)
    requires
        c.phase is Timer,
        c.tasks.len() <= usize::MAX,
    ensures
        ({
            let (n, step) = c.next(Event::Timer(fired));
            match fired {
                Ok(Async::NotReady) => goes_on(c, n, step),
                Err(_) => step == Step::Return(Err(HttpDispatchError::Unknown)) && n == (Conn {
                    phase: Phase::Idle,
                    ..c
                }),
                Ok(Async::Ready(deadline)) => if c.flags.shutdown || deadline >= c.ka_expire
                    && c.tasks.len() == 0 {
                    step == Step::Return(Err(HttpDispatchError::ShutdownTimeout)) && n == (Conn {
                        phase: Phase::Idle,
                        ..c
                    })
                } else if deadline < c.ka_expire {
                    step == Step::ResetTimer(c.ka_expire) && n == (Conn {
                        phase: Phase::TimerReset,
                        ..c
                    })
                } else {
                    step is KeepAliveExpire && n == (Conn { phase: Phase::TimerExpire, ..c })
                },
            }
        }),
{
    lemma_goes_on(c);
}

/// A busy connection whose timer fired gets a new expiry for its timer, if there is one,
/// and goes on either way, as it does once its timer was set.
pub proof fn law_timer_is_set<T, E, W, R, K>(c: Conn<T, E, W, R, K>, at: u64)
    requires
        c.tasks.len() <= usize::MAX,
    ensures
        c.phase is TimerExpire ==> c.next(Event::Expire(Some(at))) == (
            Conn { phase: Phase::TimerReset, ..c },
            Step::ResetTimer(at),
        ),
        c.phase is TimerExpire ==> goes_on(
            c,
            c.next(Event::Expire(None)).0,
            c.next(Event::Expire(None)).1,
        ),
        c.phase is TimerReset ==> goes_on(c, c.next(Event::Done).0, c.next(Event::Done).1),
{
    lemma_goes_on(c);
}

/// What comes of the handshake. Once it is done, the connection serves requests, and the
/// poll starts over.
pub proof fn law_handshake_is_taken<T, E, W, R, K>(
    c: Conn<T, E, W, R, K>,
    r: Poll<(), String>,
)
    requires
        c.phase is Handshake,
        c.tasks.len() <= usize::MAX,
    ensures
        ({
            let (n, step) = c.next(Event::Handshake(r));
            let up = Conn { state: State::Connection, ..c };
            match r {
                Ok(Async::Ready(_)) => if c.ka_timer {
                    step is PollTimer && n == (Conn { phase: Phase::Timer, ..up })
                } else {
                    goes_on(up, n, step)
                },
                Ok(Async::NotReady) => step == Step::Return(Ok(Async::NotReady)) && n == (Conn {
                    phase: Phase::Idle,
                    ..c
                }),
                Err(err) => step == Step::Return(Err(HttpDispatchError::Http2(err))) && n == (
                Conn { phase: Phase::Idle, ..c }),
            }
        }),
{
    lemma_goes_on(Conn { state: State::Connection, ..c });
}

/// What it means that there is a new request, none yet, none any more, or that the
/// connection failed.
pub proof fn law_request_is_taken<T, E, W, R, K>(
    c: Conn<T, E, W, R, K>,
    r: Poll<Option<()>, ()>,
)
    requires
        c.state is Connection,
        !c.flags.shutdown,
        c.phase is Request,
        c.tasks.len() <= usize::MAX,
    ensures
        ({
            let (n, step) = c.next(Event::Request(r));
            match r {
                Ok(Async::Ready(Some(_))) => if c.ka_timer {
                    step is KeepAliveExpire && n == (Conn { phase: Phase::RequestExpire, ..c })
                } else {
                    step is Accept && n == (Conn { phase: Phase::Accept, ..c })
                },
                Ok(Async::Ready(None)) => winds_up(
                    Conn { flags: Flags { disconnected: true, shutdown: false }, ..c },
                    c.tasks,
                    0,
                    n,
                    step,
                ),
                Ok(Async::NotReady) => step == Step::Return(Ok(Async::NotReady)) && n == (Conn {
                    phase: Phase::Idle,
                    ..c
                }),
                Err(_) => step is PollClose && n == (Conn {
                    flags: Flags { disconnected: c.flags.disconnected, shutdown: true },
                    phase: Phase::Close,
                    ..c
                }),
            }
        }),
{
    if r matches Ok(Async::Ready(None)) {
        lemma_winds_up(
            Conn { flags: Flags { disconnected: true, shutdown: false }, ..c },
            0,
        );
    }
}

/// Every new request on a connection with a timer puts its expiry off, whatever is in
/// its queue, if there is an expiry. The request is then accepted.
pub proof fn law_request_puts_expiry_off<T, E, W, R, K>(
    c: Conn<T, E, W, R, K>,
    at: Option<u64>,
)
    requires
        c.phase is RequestExpire,
    ensures
        c.next(Event::Expire(at)).1 is Accept,
        c.next(Event::Expire(at)).0 == (Conn {
            ka_expire: match at {
                Some(at) => at,
                None => c.ka_expire,
            },
            phase: Phase::Accept,
            ..c
        }),
{
}

/// A new request is queued behind all others, and a round starts at the first one.
pub proof fn law_request_is_queued<T, E, W, R, K>(
    c: Conn<T, E, W, R, K>,
    entry: Entry<T, E, W, R>,
)
    requires
        c.state is Connection,
        !c.flags.shutdown,
        !c.flags.disconnected,
        c.phase is Accept,
    ensures
        c.next(Event::Accepted(entry)) == (
            Conn { tasks: c.tasks.push(entry), phase: Phase::Payload(0), ..c },
            Step::PollPayload(0),
        ),
{
}

/// What comes of closing the connection is the answer to the poll.
pub proof fn law_closing_is_answered<T, E, W, R, K>(
    c: Conn<T, E, W, R, K>,
    r: Poll<(), String>,
)
    requires
        c.phase is Close,
    ensures
        c.next(Event::Closed(r)).0 == (Conn { phase: Phase::Idle, ..c }),
        match r {
            Ok(done) => c.next(Event::Closed(r)).1 == Step::Return(Ok(done)),
            Err(err) => c.next(Event::Closed(r)).1 == Step::Return(
                Err(HttpDispatchError::Http2(err)),
            ),
        },
{
}

/// What an event can change besides the queue: the expiry changes when a new request
/// puts it off, the handshake ends once, the other side is gone when it says so, the
/// connection fails when it says so, and nothing changes who is on the other side or
/// whether there is a timer.
pub proof fn law_nothing_else_changes<T, E, W, R, K>(
    c: Conn<T, E, W, R, K>,
    event: Event<T, E, W, R>,
)
    ensures
        ({
            let n = c.next(event).0;
            &&& n.peer == c.peer
            &&& n.ka_timer == c.ka_timer
            &&& n.ka_expire == (match (c.phase, event) {
                (Phase::RequestExpire, Event::Expire(Some(at))) => at,
                _ => c.ka_expire,
            })
            &&& n.state == (match (c.phase, event) {
                (Phase::Handshake, Event::Handshake(Ok(Async::Ready(_)))) => State::Connection,
                _ => c.state,
            })
            &&& n.flags.disconnected == (c.flags.disconnected || c.phase is Request
                && event matches Event::Request(Ok(Async::Ready(None))))
            &&& n.flags.shutdown == (c.flags.shutdown || c.phase is Request
                && event matches Event::Request(Err(_)))
        }),
{
    assert forall|n: Conn<T, E, W, R, K>, i: nat, stage: Stage|
        n.peer == (#[trigger] n.advance(i, stage)).0.peer && n.ka_timer == n.advance(
            i,
            stage,
        ).0.ka_timer && n.ka_expire == n.advance(i, stage).0.ka_expire && n.state == n.advance(
            i,
            stage,
        ).0.state && n.flags == n.advance(i, stage).0.flags by {
        lemma_advance(n, i, stage);
    }
}

/// A connection takes exactly the events that answer what it waits for.
pub proof fn law_events_that_are_taken<T, E, W, R, K>(
    c: Conn<T, E, W, R, K>,
    event: Event<T, E, W, R>,
)
    ensures
        c.expects(event) <==> match event {
            Event::Poll => c.phase is Idle,
            Event::Timer(_) => c.phase is Timer,
            Event::Expire(_) => c.phase is TimerExpire || c.phase is RequestExpire,
            Event::Done => c.phase is TimerReset || c.phase is Payload || c.phase is Reset,
            Event::Handshake(_) => c.phase is Handshake,
            Event::NeedRead(_) => c.phase is NeedRead || c.phase is NeedReadAgain,
            Event::Io(_) => c.phase is Io,
            Event::Completed(_) => c.phase is Completed,
            Event::Flushed(_) => c.phase is Flush,
            Event::Request(_) => c.phase is Request,
            Event::Accepted(_) => c.phase is Accept,
            Event::Closed(_) => c.phase is Close,
        },
{
}

/// What is waited for after a step is what comes of it, of the same request.
pub proof fn law_answers_are_awaited(phase: Phase, step: Step)
    requires
        awaits(phase, step),
    ensures
        match phase {
            Phase::Idle => step is Return,
            Phase::Timer => step is PollTimer,
            Phase::TimerExpire | Phase::RequestExpire => step is KeepAliveExpire,
            Phase::TimerReset => step is ResetTimer,
            Phase::Handshake => step is PollHandshake,
            Phase::Payload(i) => step == Step::PollPayload(i),
            Phase::NeedRead(i) => step == Step::NeedRead(i),
            Phase::Io { entry, .. } => step == Step::PollIo(entry),
            Phase::NeedReadAgain { entry, .. } => step == Step::NeedRead(entry),
            Phase::Reset(i) => step == Step::ResetStream(i),
            Phase::Completed(i) => step == Step::PollCompleted(i),
            Phase::Flush(i) => step == Step::Flush(i),
            Phase::Request => step is PollRequest,
            Phase::Accept => step is Accept,
            Phase::Close => step is PollClose,
        },
{
}

/// All tasks are told that the connection is gone, each of them and nobody else, exactly
/// when the other side sends no more requests or the connection failed.
pub proof fn law_all_are_told<T, E, W, R>(
    event: Event<T, E, W, R>,
    before: Seq<Entry<T, E, W, R>>,
    after: Seq<Entry<T, E, W, R>>,
    i: int,
) where T: HttpHandlerTask<Writer = W>, E: HttpHandlerTask<Writer = W, Error = T::Error>
    ensures
        tells_all(event) <==> (event matches Event::Request(Ok(Async::Ready(None)))
            || event matches Event::Request(Err(_))),
        all_told(before, after) && 0 <= i < before.len() ==> {
            &&& after.len() == before.len()
            &&& after[i].stream == before[i].stream
            &&& after[i].body == before[i].body
            &&& after[i].flags == before[i].flags
            &&& match before[i].task {
                EntryPipe::Task(b) => after[i].task matches EntryPipe::Task(a)
                    && T::may_disconnect(b, a),
                EntryPipe::Error(b) => after[i].task matches EntryPipe::Error(a)
                    && E::may_disconnect(b, a),
            }
        },
{
    if all_told(before, after) && 0 <= i < before.len() {
        assert(same_but_tasks(before, after));
        assert(EntryPipe::<T, E>::may_disconnect(before[i].task, after[i].task));
        assert(before[i].body == after[i].body);
    }
}

/// A task that is let write is let write once, to the stream of its request, and the
/// connection goes on with what it answered; and in the same way for one that is let
/// finish. Nothing else of the queue changes before that.
pub proof fn law_tasks_work_on_their_requests<T, E, W, R, K>(
    before: Conn<T, E, W, R, K>,
    i: int,
    task: EntryPipe<T, E>,
    stream: W,
    io: Poll<bool, T::Error>,
    end: Poll<(), T::Error>,
    after: Conn<T, E, W, R, K>,
    step: Step,
) where T: HttpHandlerTask<Writer = W>, E: HttpHandlerTask<Writer = W, Error = T::Error>
    requires
        0 <= i < before.tasks.len(),
    ensures
        wrote(before, i, task, stream, io, after, step) ==> {
            let entry = before.tasks[i];
            let worked = Conn {
                tasks: before.tasks.update(
                    i,
                    Entry { task, stream, body: entry.body, flags: entry.flags },
                ),
                ..before
            };
            &&& EntryPipe::<T, E>::may_poll_io(entry.task, entry.stream, task, stream, io)
            &&& (after, step) == worked.next(
                Event::Io(
                    match io {
                        Ok(answer) => Ok(answer),
                        Err(_) => Err(()),
                    },
                ),
            )
        },
        completed(before, i, task, end, after, step) ==> {
            let entry = before.tasks[i];
            let worked = Conn {
                tasks: before.tasks.update(
                    i,
                    Entry {
                        task,
                        stream: entry.stream,
                        body: entry.body,
                        flags: entry.flags,
                    },
                ),
                ..before
            };
            &&& EntryPipe::<T, E>::may_complete(entry.task, task, end)
            &&& (after, step) == worked.next(
                Event::Completed(
                    match end {
                        Ok(answer) => Ok(answer),
                        Err(_) => Err(()),
                    },
                ),
            )
        },
{
    assert(io is Ok ==> outcome(io) == Ok::<Async<bool>, ()>(io->Ok_0));
    assert(end is Ok ==> outcome(end) == Ok::<Async<()>, ()>(end->Ok_0));
}

/// The flags of one request are replaced, and nothing else.
pub proof fn law_marking_touches_one_request<T, E, W, R, K>(
    c: Conn<T, E, W, R, K>,
    i: int,
    flags: EntryFlags,
)
    requires
        0 <= i < c.tasks.len(),
    ensures
        c.mark(i, flags) == (Conn { tasks: flagged(c.tasks, i, flags), ..c }),
{
}

proof fn lemma_front_dropped<T, E, W, R>(queue: Seq<Entry<T, E, W, R>>)
    ensures
        front_dropped(queue, settled(queue)),
{
    law_settled(queue);
}

/// The rest of a round over request `i` of an open connection.
proof fn lemma_open<T, E, W, R, K>(c: Conn<T, E, W, R, K>, i: int)
    requires
        0 <= i < c.tasks.len() <= usize::MAX,
        !c.flags.disconnected,
    ensures
        !c.tasks[i].flags.eof ==> c.advance(i as nat, Stage::Io) == (
            c.at(Phase::NeedRead(i as usize)),
            Step::NeedRead(i as usize),
        ),
        c.tasks[i].flags.eof ==> c.advance(i as nat, Stage::Io) == c.advance(
            i as nat,
            Stage::Completed,
        ),
        finishes_first(
            c,
            c.tasks,
            i,
            c.advance(i as nat, Stage::Completed).0,
            c.advance(i as nat, Stage::Completed).1,
        ),
        flushes_or_leaves(
            c,
            c.tasks,
            i,
            c.advance(i as nat, Stage::Flush).0,
            c.advance(i as nat, Stage::Flush).1,
        ),
        leaves_request(
            c,
            c.tasks,
            i,
            c.advance(i as nat + 1, Stage::Payload).0,
            c.advance(i as nat + 1, Stage::Payload).1,
        ),
{
    lemma_front_dropped(c.tasks);
    assert(leaves_request(
        c,
        c.tasks,
        i,
        c.advance(i as nat + 1, Stage::Payload).0,
        c.advance(i as nat + 1, Stage::Payload).1,
    ));
    assert(flushes_or_leaves(
        c,
        c.tasks,
        i,
        c.advance(i as nat, Stage::Flush).0,
        c.advance(i as nat, Stage::Flush).1,
    ));
}

/// A round over the requests behind the first `from` of a connection that gets no more.
proof fn lemma_winds_up<T, E, W, R, K>(c: Conn<T, E, W, R, K>, from: nat)
    requires
        from <= c.tasks.len() <= usize::MAX,
        c.flags.disconnected,
    ensures
        winds_up(
            c,
            c.tasks,
            from as int,
            c.advance(from, Stage::Payload).0,
            c.advance(from, Stage::Payload).1,
        ),
    decreases c.tasks.len() - from,
{
    let (n, step) = c.advance(from, Stage::Payload);
    if from == c.tasks.len() {
        lemma_front_dropped(c.tasks);
        let quiet = Seq::new(
            c.tasks.len(),
            |k: int|
                if from <= k {
                    silenced(c.tasks[k])
                } else {
                    c.tasks[k]
                },
        );
        assert(quiet =~= c.tasks);
    } else {
        let f = EntryFlags { eof: true, ..c.tasks[from as int].flags };
        let m = c.mark(from as int, f);
        assert(c.advance(from, Stage::Payload) == c.advance(from, Stage::Io));
        assert(c.advance(from, Stage::Io) == m.advance(from, Stage::Completed));
        assert(m.tasks[from as int] == silenced(c.tasks[from as int]));
        if f.finished {
            assert(m.advance(from, Stage::Completed) == m.advance(from, Stage::Flush));
            assert(m.advance(from, Stage::Flush) == m.advance(from + 1, Stage::Payload));
            lemma_winds_up(m, from + 1);
            if !(step is PollCompleted) {
                let quiet_m = Seq::new(
                    m.tasks.len(),
                    |k: int|
                        if from + 1 <= k {
                            silenced(m.tasks[k])
                        } else {
                            m.tasks[k]
                        },
                );
                let quiet_c = Seq::new(
                    c.tasks.len(),
                    |k: int|
                        if from <= k {
                            silenced(c.tasks[k])
                        } else {
                            c.tasks[k]
                        },
                );
                assert(quiet_m =~= quiet_c);
                assert forall|k: int| from <= k < c.tasks.len() implies (
                #[trigger] c.tasks[k]).flags.finished by {
                    assert(k > from ==> m.tasks[k].flags.finished);
                }
            } else {
                let i = step->PollCompleted_0;
                assert forall|k: int| from <= k < i implies (
                #[trigger] c.tasks[k]).flags.finished by {
                    assert(k > from ==> m.tasks[k].flags.finished);
                }
                assert forall|k: int| 0 <= k < c.tasks.len() implies #[trigger] n.tasks[k] == (
                if from <= k <= i {
                    silenced(c.tasks[k])
                } else {
                    c.tasks[k]
                }) by {
                    assert(n.tasks[k] == (if from + 1 <= k <= i {
                        silenced(m.tasks[k])
                    } else {
                        m.tasks[k]
                    }));
                }
            }
        }
    }
}

proof fn lemma_goes_on<T, E, W, R, K>(c: Conn<T, E, W, R, K>)
    requires
        c.tasks.len() <= usize::MAX,
    ensures
        goes_on(c, c.proceed().0, c.proceed().1),
{
    if c.state is Connection && !c.flags.shutdown {
        if c.flags.disconnected {
            lemma_winds_up(c, 0);
        } else {
            lemma_front_dropped(c.tasks);
            assert(c.tasks.len() == 0 ==> settled(c.tasks) =~= c.tasks);
        }
    }
}

} // verus!
