//! How a body arrives and is read, and that it makes no difference how it arrives.

use vstd::prelude::*;

use crate::error::PayloadError;
use crate::multipart::{blank_line, closing, Ask, FieldAsk, Pending, Place, Walk};
use crate::task::Async;

verus! {

/// Whether `line` stands at `at` in `bytes`.
pub open spec fn stands_at(bytes: Seq<u8>, line: Seq<u8>, at: int) -> bool {
    0 <= at && at + line.len() <= bytes.len() && bytes.subrange(at, at + line.len()) == line
}

/// Whether `line` stands at `at` in `bytes`, and nowhere before.
pub open spec fn first_at(bytes: Seq<u8>, line: Seq<u8>, at: int) -> bool {
    stands_at(bytes, line, at) && forall|k: int| k < at ==> !stands_at(bytes, line, k)
}

/// Where the first occurrence of `line` in `bytes` ends.
pub open spec fn end_of_first(bytes: Seq<u8>, line: Seq<u8>) -> Option<int> {
    if exists|at: int| first_at(bytes, line, at) {
        Some((choose|at: int| first_at(bytes, line, at)) + line.len())
    } else {
        None
    }
}

/// What a stream has next.
pub enum Arrival {
    /// A piece of the body.
    Chunk(Seq<u8>),
    /// Nothing yet.
    Wait,
}

/// A body on its way: what arrived and was not taken, what is still to come, and the
/// error with which the stream ends, if it does not end well.
pub struct Source {
    pub buffered: Seq<u8>,
    pub coming: Seq<Arrival>,
    pub failure: Option<PayloadError>,
}

/// What comes of a reading.
pub enum Reply {
    /// Nothing yet.
    Waiting,
    /// The bytes, or that the body ended without them.
    Got(Option<Seq<u8>>),
    /// The stream failed.
    Failed(PayloadError),
}

/// The bytes that are still to come, in order.
pub open spec fn joined(coming: Seq<Arrival>) -> Seq<u8>
    decreases coming.len(),
{
    if coming.len() == 0 {
        Seq::empty()
    } else {
        match coming[0] {
            Arrival::Chunk(chunk) => chunk + joined(coming.skip(1)),
            Arrival::Wait => joined(coming.skip(1)),
        }
    }
}

/// What is asked for, if `buffered` has it, and what is left then. Bytes that are only
/// looked at stay.
pub open spec fn taken(ask: Ask, buffered: Seq<u8>) -> Option<(Seq<u8>, Seq<u8>)> {
    match ask {
        Ask::Peek(n) => if n <= buffered.len() {
            Some((buffered.take(n as int), buffered))
        } else {
            None
        },
        Ask::ReadUntil(line) => match end_of_first(buffered, line) {
            Some(end) => Some((buffered.take(end), buffered.skip(end))),
            None => None,
        },
        _ => None,
    }
}

impl Source {
    /// All bytes of the body that were not taken yet.
    pub open spec fn ahead(self) -> Seq<u8> {
        self.buffered + joined(self.coming)
    }

    /// The same body, all of it there.
    pub open spec fn at_once(self) -> Source {
        Source { buffered: self.ahead(), coming: Seq::empty(), ..self }
    }

    /// One reading: as much of the stream is taken in as the answer needs, unless the
    /// stream has nothing yet.
    pub open spec fn read(self, ask: Ask) -> (Source, Reply)
        decreases self.coming.len(),
    {
        match taken(ask, self.buffered) {
            Some((got, rest)) => (Source { buffered: rest, ..self }, Reply::Got(Some(got))),
            None => if self.coming.len() == 0 {
                match self.failure {
                    Some(err) => (self, Reply::Failed(err)),
                    None => (self, Reply::Got(None)),
                }
            } else {
                let rest = self.coming.skip(1);
                match self.coming[0] {
                    Arrival::Chunk(chunk) => Source {
                        buffered: self.buffered + chunk,
                        coming: rest,
                        ..self
                    }.read(ask),
                    Arrival::Wait => (Source { coming: rest, ..self }, Reply::Waiting),
                }
            },
        }
    }
}

/// How far a walk is from its answer.
pub open spec fn readings_left(pending: Pending) -> nat {
    match pending {
        Pending::FirstBoundary | Pending::Skip => 3,
        Pending::Close => 2,
        Pending::Headers => 1,
        _ => 0,
    }
}

/// Polls a walk until it is answered with something else than "not yet": the walk and
/// the body after that, and the answer. The walk waits for what comes of `ask`.
pub open spec fn answered(walk: Walk, ask: Ask, body: Source) -> (Walk, Ask, Source)
    decreases body.coming.len(), readings_left(walk.pending),
{
    if walk.waiting() && (ask is Peek || ask is ReadUntil) {
        proof {
            law_reading_sees_the_whole(body, ask);
        }
        let (rest, reply) = body.read(ask);
        match reply {
            Reply::Waiting => {
                let (again, ask) = walk.resume(Ok(Async::NotReady)).0.begin();
                answered(again, ask, rest)
            },
            Reply::Got(got) => {
                let (next, ask) = walk.arrived(got);
                answered(next, ask, rest)
            },
            Reply::Failed(err) => {
                let (next, ask) = walk.resume(Err(err));
                (next, ask, rest)
            },
        }
    } else {
        (walk, ask, body)
    }
}

/// As [`answered`], for the field that is current: whether it is done, the walk under it
/// and the body after that, and the answer.
pub open spec fn field_answered(walk: Walk, done: bool, body: Source) -> (
    bool,
    Walk,
    FieldAsk,
    Source,
)
    decreases body.coming.len(),
{
    match walk.begin_field(done) {
        (_, reading, FieldAsk::ReadUntil(line)) => {
            proof {
                law_reading_sees_the_whole(body, Ask::ReadUntil(line));
            }
            let (rest, reply) = body.read(Ask::ReadUntil(line));
            match reply {
                Reply::Waiting => {
                    let (done, again, _) = reading.resume_field(Ok(Async::NotReady));
                    field_answered(again, done, rest)
                },
                Reply::Got(got) => {
                    let (done, next, ask) = reading.field_arrived(got);
                    (done, next, ask, rest)
                },
                Reply::Failed(err) => {
                    let (done, next, ask) = reading.resume_field(Err(err));
                    (done, next, ask, rest)
                },
            }
        },
        (done, next, ask) => (done, next, ask, body),
    }
}

/// What a poll for the next part is answered with, once it is answered, depends on the
/// bytes of the body alone, and so do the walk and the bytes that are left then. How the
/// body is cut into pieces, and where there is nothing yet, makes no difference.
pub proof fn law_arrival_makes_no_difference(walk: Walk, a: Source, b: Source)
    requires
        a.ahead() == b.ahead(),
        a.failure == b.failure,
    ensures
        ({
            let (start, ask) = walk.begin();
            let (walk_a, answer_a, rest_a) = answered(start, ask, a);
            let (walk_b, answer_b, rest_b) = answered(start, ask, b);
            &&& walk_a == walk_b
            &&& answer_a == answer_b
            &&& rest_a.ahead() == rest_b.ahead()
            &&& rest_a.failure == rest_b.failure
            &&& answer_a is Done || answer_a is Item || answer_a is Fail || answer_a is Oversized
        }),
{
    let (start, ask) = walk.begin();
    if start.waiting() {
        lemma_answered(start, ask, a);
        lemma_answered(start, ask, b);
    }
}

/// The same holds of a poll for the data of a field.
pub proof fn law_arrival_makes_no_difference_to_a_field(
    walk: Walk,
    done: bool,
    a: Source,
    b: Source,
)
    requires
        a.ahead() == b.ahead(),
        a.failure == b.failure,
    ensures
        ({
            let (done_a, walk_a, answer_a, rest_a) = field_answered(walk, done, a);
            let (done_b, walk_b, answer_b, rest_b) = field_answered(walk, done, b);
            &&& done_a == done_b
            &&& walk_a == walk_b
            &&& answer_a == answer_b
            &&& rest_a.ahead() == rest_b.ahead()
            &&& rest_a.failure == rest_b.failure
            &&& answer_a is Data || answer_a is Done || answer_a is Fail
        }),
{
    lemma_field_answered(walk, done, a);
    lemma_field_answered(walk, done, b);
}

/// What a poll for a part is answered with: the answer, where the walk is then, and what
/// the field is answered with, if one was handed out and is read.
pub struct Answer {
    pub answer: Ask,
    pub place: Place,
    pub field: Option<FieldAsk>,
}

/// What as many polls for a part as there are `reads` are answered with, one after the
/// other. Each of `reads` says whether the field that is handed out is read before it is
/// given up.
pub open spec fn answers(walk: Walk, body: Source, reads: Seq<bool>) -> Seq<Answer>
    decreases reads.len(),
{
    if reads.len() == 0 {
        Seq::empty()
    } else {
        let (start, ask) = walk.begin();
        let (next, answer, rest) = answered(start, ask, body);
        if answer is Item && reads[0] {
            let (_, under, said, left) = field_answered(next, false, rest);
            seq![Answer { answer, place: next.place, field: Some(said) }] + answers(
                under,
                left,
                reads.skip(1),
            )
        } else {
            seq![Answer { answer, place: next.place, field: None }] + answers(
                next,
                rest,
                reads.skip(1),
            )
        }
    }
}

/// What is found in a body depends on its bytes alone: two walks over the same bytes,
/// however they arrive, are answered alike, poll by poll and field by field.
pub proof fn law_findings_depend_on_the_bytes(walk: Walk, a: Source, b: Source, reads: Seq<bool>)
    requires
        a.ahead() == b.ahead(),
        a.failure == b.failure,
    ensures
        answers(walk, a, reads) == answers(walk, b, reads),
    decreases reads.len(),
{
    if reads.len() > 0 {
        let (start, ask) = walk.begin();
        let (next, answer, rest_a) = answered(start, ask, a);
        let rest_b = answered(start, ask, b).2;
        law_arrival_makes_no_difference(walk, a, b);
        if answer is Item && reads[0] {
            let (_, under, _, left_a) = field_answered(next, false, rest_a);
            let left_b = field_answered(next, false, rest_b).3;
            law_arrival_makes_no_difference_to_a_field(next, false, rest_a, rest_b);
            law_findings_depend_on_the_bytes(under, left_a, left_b, reads.skip(1));
        } else {
            law_findings_depend_on_the_bytes(next, rest_a, rest_b, reads.skip(1));
        }
    }
}

/// What is found first in `head` is found there whatever follows.
pub proof fn lemma_first_in_longer(head: Seq<u8>, line: Seq<u8>, at: int, rest: Seq<u8>)
    requires
        first_at(head, line, at),
    ensures
        end_of_first(head, line) == Some(at + line.len()),
        end_of_first(head + rest, line) == Some(at + line.len()),
{
    let bytes = head + rest;
    assert(bytes.subrange(at, at + line.len()) =~= head.subrange(at, at + line.len()));
    assert forall|k: int| k < at implies !stands_at(bytes, line, k) by {
        if stands_at(bytes, line, k) {
            assert(head.subrange(k, k + line.len()) =~= bytes.subrange(k, k + line.len()));
            assert(stands_at(head, line, k));
        }
    }
    assert(first_at(bytes, line, at));
    let found = choose|k: int| first_at(bytes, line, k);
    assert(first_at(bytes, line, found) && found == at);
    let found = choose|k: int| first_at(head, line, k);
    assert(first_at(head, line, found) && found == at);
}

/// A reading answers what the whole body would, unless it has to wait, and takes in
/// nothing that it does not leave.
pub proof fn law_reading_sees_the_whole(body: Source, ask: Ask)
    ensures
        ({
            let (rest, reply) = body.read(ask);
            &&& rest.coming.len() <= body.coming.len()
            &&& rest.failure == body.failure
            &&& reply is Waiting ==> rest.coming.len() < body.coming.len() && rest.ahead()
                == body.ahead()
            &&& !(reply is Waiting) ==> body.at_once().read(ask) == (rest.at_once(), reply)
        }),
    decreases body.coming.len(),
{
    let whole = body.at_once();
    assert(whole.ahead() =~= whole.buffered);
    match taken(ask, body.buffered) {
        Some((got, left)) => {
            let more = joined(body.coming);
            if let Ask::ReadUntil(line) = ask {
                let at = choose|at: int| first_at(body.buffered, line, at);
                lemma_first_in_longer(body.buffered, line, at, more);
            }
            assert(taken(ask, whole.buffered) matches Some((g, l)) && g =~= got && l =~= left
                + more);
        },
        None => if body.coming.len() == 0 {
            assert(whole.buffered =~= body.buffered);
            assert(whole.coming =~= body.coming);
        } else {
            match body.coming[0] {
                Arrival::Chunk(chunk) => {
                    let next = Source {
                        buffered: body.buffered + chunk,
                        coming: body.coming.skip(1),
                        ..body
                    };
                    assert(next.ahead() =~= body.ahead());
                    law_reading_sees_the_whole(next, ask);
                },
                Arrival::Wait => {},
            }
        },
    }
}

/// Whether a walk over a body with these bytes can wait for what comes of `ask`.
spec fn can_wait(walk: Walk, ask: Ask, body: Source) -> bool {
    &&& walk.waiting()
    &&& if walk.pending is Headers {
        &&& walk.place is Headers
        &&& ask == Ask::ReadUntil(blank_line())
        &&& if body.ahead().len() >= 2 {
            body.ahead().take(2) != closing()
        } else {
            body.failure is None
        }
    } else {
        (walk, ask) == walk.begin()
    }
}

/// Whether two polls were answered alike, for good.
spec fn alike(a: (Walk, Ask, Source), b: (Walk, Ask, Source)) -> bool {
    &&& a.0 == b.0
    &&& a.1 == b.1
    &&& a.2.at_once() == b.2.at_once()
    &&& a.1 is Done || a.1 is Item || a.1 is Fail || a.1 is Oversized
}

proof fn lemma_answered(walk: Walk, ask: Ask, body: Source)
    requires
        can_wait(walk, ask, body),
    ensures
        alike(answered(walk, ask, body), answered(walk, ask, body.at_once())),
    decreases body.coming.len(), readings_left(walk.pending),
{
    let whole = body.at_once();
    let (rest, reply) = body.read(ask);
    law_reading_sees_the_whole(body, ask);
    assert(whole.at_once() == whole) by {
        assert(whole.ahead() =~= whole.buffered);
    }
    match reply {
        Reply::Waiting => {
            let (again, first) = walk.at(Pending::Nothing).begin();
            assert(rest.at_once() == whole);
            lemma_answered(again, first, rest);
            assert(answered(walk, ask, body) == answered(again, first, rest));
            if !(walk.pending is Headers) {
                assert(again == walk && first == ask);
            } else {
                assert(again == walk.at(Pending::Close) && first == Ask::Peek(2));
                let (after, seen) = whole.read(first);
                assert(after == whole);
                assert(seen is Got && again.arrived(seen->Got_0) == (walk, ask));
            }
            assert(answered(again, first, rest.at_once()) == answered(walk, ask, whole));
        },
        Reply::Got(got) => {
            let (next, then_ask) = walk.arrived(got);
            assert(answered(walk, ask, whole) == answered(next, then_ask, rest.at_once()));
            if next.waiting() {
                lemma_answered(next, then_ask, rest);
            } else {
                assert(rest.at_once().at_once() == rest.at_once()) by {
                    assert(rest.at_once().ahead() =~= rest.ahead());
                }
                assert(answered(next, then_ask, rest) == (next, then_ask, rest));
                assert(alike(answered(walk, ask, body), answered(walk, ask, whole)));
            }
        },
        Reply::Failed(err) => {},
    }
}

proof fn lemma_field_answered(walk: Walk, done: bool, body: Source)
    ensures
        ({
            let (done_a, walk_a, answer_a, rest_a) = field_answered(walk, done, body);
            let (done_b, walk_b, answer_b, rest_b) = field_answered(walk, done, body.at_once());
            &&& done_a == done_b
            &&& walk_a == walk_b
            &&& answer_a == answer_b
            &&& rest_a.at_once() == rest_b.at_once()
            &&& answer_a is Data || answer_a is Done || answer_a is Fail
        }),
    decreases body.coming.len(),
{
    let whole = body.at_once();
    assert(whole.at_once() == whole) by {
        assert(whole.ahead() =~= whole.buffered);
    }
    if let (_, reading, FieldAsk::ReadUntil(line)) = walk.begin_field(done) {
        let (rest, reply) = body.read(Ask::ReadUntil(line));
        law_reading_sees_the_whole(body, Ask::ReadUntil(line));
        if reply is Waiting {
            let again = reading.at(Pending::Nothing);
            lemma_field_answered(again, false, rest);
            assert(rest.at_once() == whole);
            assert(again.begin_field(false) == walk.begin_field(done));
        }
    }
}

} // verus!
