//! Who works on a request: the task that its handler started, or the one that
//! answers in its place.

use vstd::prelude::*;

use crate::task::Poll;

verus! {

/// The HTTP versions that a response can be written in.
#[derive(Clone, Copy, Debug, PartialEq, Eq, Structural)]
pub enum Version {
    Http09,
    Http10,
    Http11,
    Http2,
}

/// The status of the response to a request that no handler took.
pub const NOT_FOUND: u16 = 404;

/// A request in progress.
///
/// The contract of each method is a relation that the implementor chooses: it says
/// which states and results one call may lead to. An implementor that chooses none
/// promises nothing.
pub trait HttpHandlerTask: Sized {
    /// Where the response is written.
    type Writer;

    /// What goes wrong.
    type Error;

    /// Whether a task that was `before` may be `after` once it was told that the
    /// connection is gone.
    open spec fn may_disconnect(before: Self, after: Self) -> bool {
        true
    }

    /// Whether a task that was `before`, let write to what was `io_before`, may
    /// leave `after` and `io_after` and answer `result`.
    open spec fn may_poll_io(
        before: Self,
        io_before: Self::Writer,
        after: Self,
        io_after: Self::Writer,
        result: Poll<bool, Self::Error>,
    ) -> bool {
        true
    }

    /// Whether a task that was `before`, let finish, may leave `after` and answer
    /// `result`.
    open spec fn may_complete(before: Self, after: Self, result: Poll<(), Self::Error>) -> bool {
        true
    }

    /// Tells the task that the connection is gone.
    fn disconnected(&mut self)
        ensures
            Self::may_disconnect(*old(self), *final(self)),
    ;

    /// Lets the task write to `io`. `Ready(true)` says that the task is finished,
    /// `Ready(false)` that only its writing is.
    fn poll_io(&mut self, io: &mut Self::Writer) -> (r: Poll<bool, Self::Error>)
        ensures
            Self::may_poll_io(*old(self), *old(io), *final(self), *final(io), r),
    ;

    /// Lets the task finish what is left after its writing.
    fn poll_completed(&mut self) -> (r: Poll<(), Self::Error>)
        ensures
            Self::may_complete(*old(self), *final(self), r),
    ;
}

/// The task of a request, or the one that answers because there is none.
pub enum EntryPipe<T, E> {
    Task(T),
    Error(E),
}

impl<T, E> EntryPipe<T, E> where
    T: HttpHandlerTask,
    E: HttpHandlerTask<Writer = T::Writer, Error = T::Error>,
 {
    /// Whether a pipe that was `before` may be `after` once its task was told that
    /// the connection is gone.
    pub open spec fn may_disconnect(before: Self, after: Self) -> bool {
        match (before, after) {
            (EntryPipe::Task(b), EntryPipe::Task(a)) => T::may_disconnect(b, a),
            (EntryPipe::Error(b), EntryPipe::Error(a)) => E::may_disconnect(b, a),
            _ => false,
        }
    }

    /// Whether a pipe that was `before`, let write to what was `io_before`, may
    /// leave `after` and `io_after` and answer `result`.
    pub open spec fn may_poll_io(
        before: Self,
        io_before: T::Writer,
        after: Self,
        io_after: T::Writer,
        result: Poll<bool, T::Error>,
    ) -> bool {
        match (before, after) {
            (EntryPipe::Task(b), EntryPipe::Task(a)) => T::may_poll_io(
                b,
                io_before,
                a,
                io_after,
                result,
            ),
            (EntryPipe::Error(b), EntryPipe::Error(a)) => E::may_poll_io(
                b,
                io_before,
                a,
                io_after,
                result,
            ),
            _ => false,
        }
    }

    /// Whether a pipe that was `before`, let finish, may leave `after` and answer
    /// `result`.
    pub open spec fn may_complete(before: Self, after: Self, result: Poll<(), T::Error>) -> bool {
        match (before, after) {
            (EntryPipe::Task(b), EntryPipe::Task(a)) => T::may_complete(b, a, result),
            (EntryPipe::Error(b), EntryPipe::Error(a)) => E::may_complete(b, a, result),
            _ => false,
        }
    }

    /// Tells the task, whichever it is, that the connection is gone.
    pub fn disconnected(&mut self)
        ensures
            Self::may_disconnect(*old(self), *final(self)),
    {
        match self {
            EntryPipe::Task(task) => task.disconnected(),
            EntryPipe::Error(task) => task.disconnected(),
        }
    }

    /// Lets the task, whichever it is, write to `io`.
    pub fn poll_io(&mut self, io: &mut T::Writer) -> (r: Poll<bool, T::Error>)
        ensures
            Self::may_poll_io(*old(self), *old(io), *final(self), *final(io), r),
    {
        match self {
            EntryPipe::Task(task) => task.poll_io(io),
            EntryPipe::Error(task) => task.poll_io(io),
        }
    }

    /// Lets the task, whichever it is, finish.
    pub fn poll_completed(&mut self) -> (r: Poll<(), T::Error>)
        ensures
            Self::may_complete(*old(self), *final(self), r),
    {
        match self {
            EntryPipe::Task(task) => task.poll_completed(),
            EntryPipe::Error(task) => task.poll_completed(),
        }
    }
}

/// A pipe hands on to its task, whichever it is: what may come of a call is what may come
/// of the call of the task, with the writer that was given, and the pipe keeps its task.
pub proof fn law_pipe_hands_on<T, E>(
    before: EntryPipe<T, E>,
    after: EntryPipe<T, E>,
    io_before: T::Writer,
    io_after: T::Writer,
    io: Poll<bool, T::Error>,
    end: Poll<(), T::Error>,
) where T: HttpHandlerTask, E: HttpHandlerTask<Writer = T::Writer, Error = T::Error>
    ensures
        EntryPipe::<T, E>::may_disconnect(before, after) <==> match before {
            EntryPipe::Task(b) => after matches EntryPipe::Task(a) && T::may_disconnect(b, a),
            EntryPipe::Error(b) => after matches EntryPipe::Error(a) && E::may_disconnect(b, a),
        },
        EntryPipe::<T, E>::may_poll_io(before, io_before, after, io_after, io) <==> match before {
            EntryPipe::Task(b) => after matches EntryPipe::Task(a) && T::may_poll_io(
                b,
                io_before,
                a,
                io_after,
                io,
            ),
            EntryPipe::Error(b) => after matches EntryPipe::Error(a) && E::may_poll_io(
                b,
                io_before,
                a,
                io_after,
                io,
            ),
        },
        EntryPipe::<T, E>::may_complete(before, after, end) <==> match before {
            EntryPipe::Task(b) => after matches EntryPipe::Task(a) && T::may_complete(b, a, end),
            EntryPipe::Error(b) => after matches EntryPipe::Error(a) && E::may_complete(b, a, end),
        },
{
}

} // verus!
