//! What holds of every connection, whatever is answered to it.

use vstd::prelude::*;

use crate::server::entry::{Entry, EntryFlags};
use crate::server::h2::{
    law_next_wf, law_settled, law_step_awaited, lemma_advance, order_at, order_of, request_of,
    settled, stages_left, wants, Conn, Event, Flags, Phase, Stage, State, Step,
};
use crate::task::{Async, Poll};

verus! {

/// The queue that an event finds: a new request stands at its end.
pub open spec fn queue_at<T, E, W, R, K>(c: Conn<T, E, W, R, K>, event: Event<T, E, W, R>) -> Seq<
    Entry<T, E, W, R>,
> {
    match event {
        Event::Accepted(entry) => c.tasks.push(entry),
        _ => c.tasks,
    }
}

/// Whether `later` is the request `earlier` once some of its flags were set.
pub open spec fn same_request<T, E, W, R>(
    earlier: Entry<T, E, W, R>,
    later: Entry<T, E, W, R>,
) -> bool {
    &&& later.task == earlier.task
    &&& later.stream == earlier.stream
    &&& later.body == earlier.body
    &&& earlier.flags.kept_in(later.flags)
}

/// Whether `after` is what is left of `before` once the requests `gone`, which were in
/// front and are over, have left, and some flags of the others were set.
pub open spec fn moved_on<T, E, W, R>(
    before: Seq<Entry<T, E, W, R>>,
    gone: Seq<Entry<T, E, W, R>>,
    after: Seq<Entry<T, E, W, R>>,
) -> bool {
    &&& before.len() == gone.len() + after.len()
    &&& forall|i: int|
        0 <= i < gone.len() ==> same_request(before[i], #[trigger] gone[i])
            && gone[i].flags.over()
    &&& forall|i: int|
        0 <= i < after.len() ==> same_request(before[gone.len() + i], #[trigger] after[i])
}

proof fn lemma_advance_moves_on<T, E, W, R, K>(
    c: Conn<T, E, W, R, K>,
    i: nat,
    stage: Stage,
) -> (gone:
    Seq<Entry<T, E, W, R>>)
    ensures
        moved_on(c.tasks, gone, c.advance(i, stage).0.tasks),
    decreases c.tasks.len() - i, stages_left(stage), 0nat,
{
    if i >= c.tasks.len() {
        law_settled(c.tasks);
        c.tasks.take(c.tasks.len() - settled(c.tasks).len())
    } else if wants(c.tasks[i as int].flags, c.flags.disconnected, stage) {
        Seq::empty()
    } else {
        match stage {
            Stage::Payload => lemma_advance_moves_on(c, i, Stage::Io),
            Stage::Io => if c.flags.disconnected {
                let f = EntryFlags { eof: true, ..c.tasks[i as int].flags };
                lemma_marked_moves_on(c, i as int, f, i, Stage::Completed)
            } else {
                lemma_advance_moves_on(c, i, Stage::Completed)
            },
            Stage::Completed => lemma_advance_moves_on(c, i, Stage::Flush),
            Stage::Flush => lemma_advance_moves_on(c, i + 1, Stage::Payload),
        }
    }
}

proof fn lemma_marked_moves_on<T, E, W, R, K>(
    c: Conn<T, E, W, R, K>,
    k: int,
    f: EntryFlags,
    i: nat,
    stage: Stage,
) -> (gone: Seq<Entry<T, E, W, R>>)
    requires
        0 <= k < c.tasks.len(),
        c.tasks[k].flags.kept_in(f),
    ensures
        moved_on(c.tasks, gone, c.mark(k, f).advance(i, stage).0.tasks),
    decreases c.tasks.len() - i, stages_left(stage), 1nat,
{
    let marked = c.mark(k, f);
    let gone = lemma_advance_moves_on(marked, i, stage);
    let after = marked.advance(i, stage).0.tasks;
    assert forall|j: int| 0 <= j < c.tasks.len() implies same_request(
        c.tasks[j],
        #[trigger] marked.tasks[j],
    ) by {}
    assert forall|j: int| 0 <= j < gone.len() implies same_request(
        c.tasks[j],
        #[trigger] gone[j],
    ) by {
        assert(same_request(marked.tasks[j], gone[j]));
    }
    assert forall|j: int| 0 <= j < after.len() implies same_request(
        c.tasks[gone.len() + j],
        #[trigger] after[j],
    ) by {
        assert(same_request(marked.tasks[gone.len() + j], after[j]));
    }
    gone
}

/// Requests keep their order and leave from the front alone, each that leaves is over,
/// nothing but their flags changes while they are in the queue, and what is known of a
/// request or of the connection stays known.
pub proof fn law_queue_moves_on<T, E, W, R, K>(c: Conn<T, E, W, R, K>, event: Event<T, E, W, R>)
    requires
        c.wf(),
        c.expects(event),
    ensures
        exists|gone: Seq<Entry<T, E, W, R>>|
            moved_on(queue_at(c, event), gone, c.next(event).0.tasks),
        c.flags.disconnected ==> c.next(event).0.flags.disconnected,
        c.flags.shutdown ==> c.next(event).0.flags.shutdown,
        c.state is Connection ==> c.next(event).0.state is Connection,
{
    let none = Seq::<Entry<T, E, W, R>>::empty();
    assert forall|n: Conn<T, E, W, R, K>, i: nat, stage: Stage|
        (#[trigger] n.advance(i, stage)).0.flags == n.flags && n.advance(i, stage).0.state
            == n.state by {
        lemma_advance(n, i, stage);
    }
    let first = lemma_advance_moves_on(c, 0, Stage::Payload);
    let gone = match (c.phase, event) {
        (Phase::Handshake, _) => lemma_advance_moves_on(
            Conn { state: State::Connection, ..c },
            0,
            Stage::Payload,
        ),
        (Phase::Payload(i), _) => lemma_advance_moves_on(c, i as nat, Stage::Io),
        (Phase::Io { entry, retry }, Event::Io(r)) => {
            let f = c.tasks[entry as int].flags.after_io(r);
            match r {
                Ok(Async::Ready(_)) => lemma_marked_moves_on(
                    c,
                    entry as int,
                    f,
                    entry as nat,
                    Stage::Completed,
                ),
                _ => none,
            }
        },
        (Phase::NeedReadAgain { entry, retry }, _) => lemma_advance_moves_on(
            c,
            entry as nat,
            Stage::Completed,
        ),
        (Phase::Reset(i), _) => lemma_advance_moves_on(c, i as nat, Stage::Completed),
        (Phase::Completed(i), Event::Completed(r)) => lemma_marked_moves_on(
            c,
            i as int,
            c.tasks[i as int].flags.after_completed(r),
            i as nat,
            Stage::Flush,
        ),
        (Phase::Flush(i), Event::Flushed(r)) => lemma_marked_moves_on(
            c,
            i as int,
            c.tasks[i as int].flags.after_flush(r),
            i as nat + 1,
            Stage::Payload,
        ),
        (Phase::Request, _) => lemma_advance_moves_on(
            Conn { flags: Flags { disconnected: true, ..c.flags }, ..c },
            0,
            Stage::Payload,
        ),
        (Phase::Accept, Event::Accepted(entry)) => lemma_advance_moves_on(
            Conn { tasks: c.tasks.push(entry), ..c },
            0,
            Stage::Payload,
        ),
        _ => none,
    };
    let before = queue_at(c, event);
    let after = c.next(event).0.tasks;
    assert(moved_on(before, none, before));
    assert(moved_on(before, none, after) || moved_on(before, first, after) || moved_on(
        before,
        gone,
        after,
    ));
}

/// When a poll is answered, the queue is empty or the request in front is not over.
pub proof fn law_answer_leaves_no_finished_front<T, E, W, R, K>(
    c: Conn<T, E, W, R, K>,
    event: Event<T, E, W, R>,
)
    requires
        c.wf(),
        c.expects(event),
        c.tasks.len() < usize::MAX,
    ensures
        c.next(event).1 is Return ==> c.next(event).0.front_waits(),
{
    law_next_wf(c, event);
    law_step_awaited(c, event);
}

/// An event, and the connection when the next one comes. Between events the tasks and
/// the streams of the requests are worked on.
pub struct Turn<T, E, W, R, K> {
    pub event: Event<T, E, W, R>,
    pub after: Conn<T, E, W, R, K>,
}

/// Whether `b` is the connection `a` once its requests were worked on. `key` is what
/// work does not change of a request body, and so tells requests apart.
pub open spec fn worked_on<T, E, W, R, K>(
    a: Conn<T, E, W, R, K>,
    b: Conn<T, E, W, R, K>,
    key: spec_fn(R) -> int,
) -> bool {
    &&& b == (Conn { tasks: b.tasks, ..a })
    &&& b.tasks.len() == a.tasks.len()
    &&& forall|i: int|
        0 <= i < a.tasks.len() ==> key((#[trigger] b.tasks[i]).body) == key(a.tasks[i].body)
            && a.tasks[i].flags.kept_in(b.tasks[i].flags) && b.tasks[i].flags == (EntryFlags {
            reof: b.tasks[i].flags.reof,
            ..a.tasks[i].flags
        })
}

/// Whether a connection that was `c` can go through `turns`.
pub open spec fn goes_through<T, E, W, R, K>(
    c: Conn<T, E, W, R, K>,
    turns: Seq<Turn<T, E, W, R, K>>,
    key: spec_fn(R) -> int,
) -> bool
    decreases turns.len(),
{
    turns.len() > 0 ==> {
        &&& c.expects(turns[0].event)
        &&& worked_on(c.next(turns[0].event).0, turns[0].after, key)
        &&& turns[0].after.tasks.len() <= usize::MAX
        &&& goes_through(turns[0].after, turns.skip(1), key)
    }
}

/// The connection at the end of `turns`.
pub open spec fn at_end<T, E, W, R, K>(
    c: Conn<T, E, W, R, K>,
    turns: Seq<Turn<T, E, W, R, K>>,
) -> Conn<
    T,
    E,
    W,
    R,
    K,
> {
    if turns.len() == 0 {
        c
    } else {
        turns.last().after
    }
}

/// The requests that come in `turns`, in order.
pub open spec fn accepted<T, E, W, R, K>(turns: Seq<Turn<T, E, W, R, K>>) -> Seq<Entry<T, E, W, R>>
    decreases turns.len(),
{
    if turns.len() == 0 {
        Seq::empty()
    } else {
        match turns[0].event {
            Event::Accepted(entry) => seq![entry] + accepted(turns.skip(1)),
            _ => accepted(turns.skip(1)),
        }
    }
}

/// Which requests a queue holds, in order.
pub open spec fn keys<T, E, W, R>(
    queue: Seq<Entry<T, E, W, R>>,
    key: spec_fn(R) -> int,
) -> Seq<int> {
    queue.map_values(|e: Entry<T, E, W, R>| key(e.body))
}

/// Whether `gone` are the requests that left a queue that was `before` and is `after`,
/// with the requests `new` come meanwhile: they are over, the others are not reordered,
/// none is lost, and what was known of those that stay is known still.
pub open spec fn left<T, E, W, R>(
    before: Seq<Entry<T, E, W, R>>,
    new: Seq<Entry<T, E, W, R>>,
    gone: Seq<Entry<T, E, W, R>>,
    after: Seq<Entry<T, E, W, R>>,
    key: spec_fn(R) -> int,
) -> bool {
    &&& keys(before, key) + keys(new, key) == keys(gone, key) + keys(after, key)
    &&& forall|i: int| 0 <= i < gone.len() ==> (#[trigger] gone[i]).flags.over()
    &&& forall|i: int|
        0 <= i < after.len() && gone.len() + i < before.len() ==> before[gone.len()
            + i].flags.kept_in((#[trigger] after[i]).flags)
}

proof fn lemma_worked_on_wf<T, E, W, R, K>(
    a: Conn<T, E, W, R, K>,
    b: Conn<T, E, W, R, K>,
    key: spec_fn(R) -> int,
)
    requires
        a.wf(),
        worked_on(a, b, key),
    ensures
        b.wf(),
{
    assert forall|i: int| 0 <= i < a.tasks.len() implies (#[trigger] a.tasks[i]).flags
        == (EntryFlags { reof: a.tasks[i].flags.reof, ..b.tasks[i].flags }) by {
        assert(key(b.tasks[i].body) == key(a.tasks[i].body));
    }
}

/// Whatever a connection goes through, in one poll or in many, its queue holds the
/// requests that it held and those that came, in the order of their arrival, but for
/// some in front. Each of these was over when it left. Whenever a poll was answered, the
/// queue is empty or the request in front is not over.
pub proof fn law_requests_leave_in_order<T, E, W, R, K>(
    c: Conn<T, E, W, R, K>,
    turns: Seq<Turn<T, E, W, R, K>>,
    key: spec_fn(R) -> int,
)
    requires
        c.wf(),
        c.tasks.len() <= usize::MAX,
        goes_through(c, turns, key),
    ensures
        at_end(c, turns).wf(),
        exists|gone: Seq<Entry<T, E, W, R>>|
            left(c.tasks, accepted(turns), gone, at_end(c, turns).tasks, key),
        at_end(c, turns).phase is Idle ==> at_end(c, turns).front_waits(),
    decreases turns.len(),
{
    if turns.len() == 0 {
        let none = Seq::<Entry<T, E, W, R>>::empty();
        assert(keys(c.tasks, key) + keys(none, key) =~= keys(none, key) + keys(c.tasks, key));
        assert(left(c.tasks, accepted(turns), none, at_end(c, turns).tasks, key));
    } else {
        let event = turns[0].event;
        let next = c.next(event).0;
        let after = turns[0].after;
        let rest = turns.skip(1);
        law_next_wf(c, event);
        lemma_worked_on_wf(next, after, key);
        law_requests_leave_in_order(after, rest, key);
        law_queue_moves_on(c, event);
        let queue = queue_at(c, event);
        let now = choose|gone: Seq<Entry<T, E, W, R>>| moved_on(queue, gone, next.tasks);
        let later = choose|gone: Seq<Entry<T, E, W, R>>|
            left(after.tasks, accepted(rest), gone, at_end(after, rest).tasks, key);
        let end = at_end(c, turns);
        assert(end == at_end(after, rest));
        assert(keys(queue, key) =~= keys(now, key) + keys(after.tasks, key)) by {
            assert forall|i: int| 0 <= i < queue.len() implies #[trigger] keys(queue, key)[i] == (
            keys(now, key) + keys(after.tasks, key))[i] by {
                if i < now.len() {
                    assert(same_request(queue[i], now[i]));
                } else {
                    let j = i - now.len();
                    assert(same_request(queue[now.len() + j], next.tasks[j]));
                    assert(key(after.tasks[j].body) == key(next.tasks[j].body));
                }
            }
        }
        assert(keys(c.tasks, key) + keys(accepted(turns), key) =~= keys(queue, key) + keys(
            accepted(rest),
            key,
        ));
        assert(keys(now + later, key) =~= keys(now, key) + keys(later, key));
        let (first, then_gone) = (keys(now, key), keys(later, key));
        let (held, new) = (keys(after.tasks, key), keys(accepted(rest), key));
        assert((first + held) + new =~= first + (held + new));
        assert(first + (then_gone + keys(end.tasks, key)) =~= (first + then_gone) + keys(
            end.tasks,
            key,
        ));
        assert forall|i: int|
            0 <= i < end.tasks.len() && now.len() + later.len() + i
                < c.tasks.len() implies c.tasks[now.len() + later.len() + i].flags.kept_in(
            (#[trigger] end.tasks[i]).flags,
        ) by {
            let j = later.len() + i;
            assert(same_request(queue[now.len() + j], next.tasks[j]));
            assert(next.tasks[j].flags.kept_in(after.tasks[j].flags));
            assert(after.tasks[j].flags.kept_in(end.tasks[i].flags));
        }
        assert(left(c.tasks, accepted(turns), now + later, end.tasks, key));
    }
}

/// A task that was done writing is never let write again, and one that is finished is
/// never let finish again, whatever the connection goes through. Request `k` of the
/// queue is then the one as many places further in front as requests have left.
pub proof fn law_task_is_not_asked_again<T, E, W, R, K>(
    c: Conn<T, E, W, R, K>,
    turns: Seq<Turn<T, E, W, R, K>>,
    key: spec_fn(R) -> int,
    k: int,
)
    requires
        c.wf(),
        c.tasks.len() <= usize::MAX,
        goes_through(c, turns, key),
        0 <= k < c.tasks.len(),
    ensures
        ({
            let end = at_end(c, turns);
            let gone = c.tasks.len() + accepted(turns).len() - end.tasks.len();
            &&& c.tasks[k].flags.eof ==> !(end.phase matches Phase::Io { entry, .. } && gone
                + entry == k)
            &&& c.tasks[k].flags.finished ==> !(end.phase matches Phase::Completed(i) && gone + i
                == k)
        }),
{
    law_requests_leave_in_order(c, turns, key);
    let end = at_end(c, turns);
    let gone = choose|gone: Seq<Entry<T, E, W, R>>|
        left(c.tasks, accepted(turns), gone, end.tasks, key);
    assert((keys(c.tasks, key) + keys(accepted(turns), key)).len() == c.tasks.len() + accepted(
        turns,
    ).len());
    assert((keys(gone, key) + keys(end.tasks, key)).len() == gone.len() + end.tasks.len());
    let i = k - gone.len();
    if 0 <= i < end.tasks.len() {
        assert(c.tasks[gone.len() + i].flags.kept_in(end.tasks[i].flags));
    }
}

/// An answer that ends the writing of a task, or its work, is noted at once: a task that
/// answered that it is done writing, or failed to write, is done writing, and one that
/// answered that it is finished, or failed to finish, is finished.
pub proof fn law_answers_are_noted(f: EntryFlags, io: Poll<bool, ()>, completed: Poll<(), ()>)
    ensures
        f.after_io(io).eof <==> f.eof || !(io matches Ok(Async::NotReady)),
        f.after_completed(completed).finished <==> f.finished || !(completed matches Ok(
            Async::NotReady,
        )),
        f.kept_in(f.after_io(io)),
        f.kept_in(f.after_completed(completed)),
{
}

/// Nothing is asked that is past: a task writes until it says that it is done, is
/// let finish until it has, and its response is flushed until it is written; once
/// the other side is gone, no request is awaited, no body read and nothing written;
/// and a connection is closed only when it failed, or when the other side is gone
/// and the queue is empty.
pub proof fn law_steps_are_due<T, E, W, R, K>(c: Conn<T, E, W, R, K>, event: Event<T, E, W, R>)
    requires
        c.wf(),
        c.expects(event),
        c.tasks.len() < usize::MAX,
    ensures
        ({
            let n = c.next(event).0;
            let gone = n.flags.disconnected || n.flags.shutdown;
            match c.next(event).1 {
                Step::PollPayload(i) => !gone && i < n.tasks.len(),
                Step::NeedRead(i) | Step::PollIo(i) => !gone && i < n.tasks.len()
                    && !n.tasks[i as int].flags.eof,
                Step::PollCompleted(i) => i < n.tasks.len() && n.tasks[i as int].flags.eof
                    && !n.tasks[i as int].flags.finished,
                Step::Flush(i) => !gone && i < n.tasks.len() && n.tasks[i as int].flags.finished
                    && !n.tasks[i as int].flags.write_done,
                Step::PollRequest | Step::Accept => !gone,
                Step::PollHandshake => n.state is Handshake,
                Step::PollClose => n.flags.shutdown || n.flags.disconnected && n.tasks.len() == 0,
                _ => true,
            }
        }),
{
    law_next_wf(c, event);
    law_step_awaited(c, event);
}

/// A connection that failed is only ever closed: besides that its timer is polled,
/// and nothing else is asked of it.
pub proof fn law_failed_connection_closes<T, E, W, R, K>(
    c: Conn<T, E, W, R, K>,
    event: Event<T, E, W, R>,
)
    requires
        c.wf(),
        c.expects(event),
        c.flags.shutdown,
    ensures
        c.next(event).1 is PollTimer || c.next(event).1 is PollClose || c.next(event).1 is Return,
{
}

/// The timer ends a connection exactly when it fires while the connection is being
/// closed, or fires once the connection has expired and its queue is empty.
pub proof fn law_idle_connection_is_dropped<T, E, W, R, K>(
    c: Conn<T, E, W, R, K>,
    event: Event<T, E, W, R>,
)
    requires
        c.wf(),
        c.expects(event),
    ensures
        (c.next(event).1 matches Step::Return(Err(err)) && err is ShutdownTimeout) <==> (
        event matches Event::Timer(Ok(Async::Ready(deadline))) && (c.flags.shutdown || deadline
            >= c.ka_expire && c.tasks.len() == 0)),
{
    assert forall|n: Conn<T, E, W, R, K>, i: nat, stage: Stage|
        (#[trigger] n.advance(i, stage)).1 matches Step::Return(r) ==> r is Ok by {
        lemma_advance(n, i, stage);
    }
}

/// A round on an open connection starts with the first request in the queue.
pub proof fn law_round_starts_in_front<T, E, W, R, K>(c: Conn<T, E, W, R, K>)
    requires
        !c.flags.shutdown,
        !c.flags.disconnected,
    ensures
        c.round().1 == (if c.tasks.len() > 0 {
            Step::PollPayload(0)
        } else {
            Step::PollRequest
        }),
{
}

/// A round on an open connection skips no request: after one comes the next, and
/// after the last a new request is asked for.
pub proof fn law_round_skips_no_request<T, E, W, R, K>(
    c: Conn<T, E, W, R, K>,
    event: Event<T, E, W, R>,
)
    requires
        c.wf(),
        c.expects(event),
        request_of(c.phase) is Some,
        !c.flags.disconnected,
        c.tasks.len() <= usize::MAX,
    ensures
        ({
            let i = request_of(c.phase)->0;
            ||| request_of(c.next(event).0.phase) == Some(i)
            ||| i + 1 < c.tasks.len() && c.next(event).1 == Step::PollPayload((i + 1) as usize)
            ||| i + 1 == c.tasks.len() && c.next(event).1 is PollRequest
        }),
{
    reveal_with_fuel(Conn::advance, 6);
}

/// A round comes to its end: every answer moves it on to a later question or a later
/// request. The one exception is a task that had nothing to write and made more of its
/// body wanted meanwhile, which is let write again.
pub proof fn law_round_moves_forward<T, E, W, R, K>(
    c: Conn<T, E, W, R, K>,
    event: Event<T, E, W, R>,
)
    requires
        c.wf(),
        c.expects(event),
        request_of(c.phase) is Some,
        c.tasks.len() <= usize::MAX,
    ensures
        ({
            let i = request_of(c.phase)->0;
            let n = c.next(event).0.phase;
            request_of(n) matches Some(j) ==> {
                ||| j > i
                ||| j == i && order_of(n) > order_of(c.phase)
                ||| j == i && c.phase is NeedReadAgain && n is Io && event == Event::<
                    T,
                    E,
                    W,
                    R,
                >::NeedRead(true) && !c.phase->NeedReadAgain_retry
            }
        }),
{
    assert forall|n: Conn<T, E, W, R, K>, i: nat, stage: Stage|
        n.tasks.len() <= usize::MAX implies (request_of(
        (#[trigger] n.advance(i, stage)).0.phase,
    ) matches Some(j) ==> j > i || j == i && order_of(n.advance(i, stage).0.phase) >= order_at(
        stage,
    )) by {
        lemma_advance(n, i, stage);
    }
}

} // verus!
