//! A multipart message as a whole, and what a walk of it finds.

use vstd::prelude::*;

use crate::arrival::{
    answered, answers, field_answered, first_at, law_findings_depend_on_the_bytes,
    lemma_first_in_longer, Answer, Reply, Source,
};
use crate::error::HeadError;
use crate::headers::{begins_empty, head_of, no_headers};
use crate::multipart::{
    before_delimiter, blank_line, closing, delimiter, gathered, head_in, names_fit, Ask, FieldAsk,
    Pending, Place, Walk, MAX_HEADERS,
};
use crate::task::Async;

verus! {

/// A part of a message.
pub struct Part {
    /// The header block: everything behind the delimiter, up to and with an empty
    /// line.
    pub block: Seq<u8>,
    /// The data.
    pub data: Seq<u8>,
}

impl Part {
    /// The headers of the part.
    pub open spec fn headers(self) -> Map<Seq<u8>, Seq<Seq<u8>>> {
        match head_in(self.block) {
            Ok(Some(lines)) => gathered(lines),
            _ => no_headers(),
        }
    }

    /// What a walk over the part is answered with, if it is read or not (`read`).
    pub open spec fn found(self, read: bool) -> Answer {
        Answer {
            answer: Ask::Item,
            place: Place::Boundary(self.headers()),
            field: if !read {
                None
            } else if self.data.len() == 0 {
                Some(FieldAsk::Done)
            } else {
                Some(FieldAsk::Data(self.data))
            },
        }
    }

    /// Whether the part can stand in a message: its header block is not closing, it
    /// parses and ends where its first empty line does, and the delimiter does not
    /// stand in its data.
    pub open spec fn fits_in(self, boundary: Seq<char>) -> bool {
        &&& self.block.take(2) != closing()
        &&& first_at(self.block, blank_line(), self.block.len() - 4)
        &&& head_in(self.block) matches Ok(Some(lines)) && names_fit(lines)
        &&& first_at(
            self.data + delimiter(boundary),
            delimiter(boundary),
            self.data.len() as int,
        )
    }
}

/// What follows the first delimiter of a message.
pub open spec fn after_delimiter(
    parts: Seq<Part>,
    boundary: Seq<char>,
    epilogue: Seq<u8>,
) -> Seq<u8>
    decreases parts.len(),
{
    if parts.len() == 0 {
        closing() + epilogue
    } else {
        parts[0].block + (parts[0].data + delimiter(boundary)) + after_delimiter(
            parts.skip(1),
            boundary,
            epilogue,
        )
    }
}

/// A message: a preamble, the parts with delimiters around them, and an epilogue.
pub open spec fn message(
    preamble: Seq<u8>,
    parts: Seq<Part>,
    boundary: Seq<char>,
    epilogue: Seq<u8>,
) -> Seq<u8> {
    preamble + delimiter(boundary) + after_delimiter(parts, boundary, epilogue)
}

/// The walk of a body of which nothing was read yet.
pub open spec fn fresh(boundary: Seq<char>) -> Walk {
    Walk { boundary, place: Place::FirstBoundary, pending: Pending::Nothing }
}

/// What a walk over a message is answered with: one item for each part, in order, with
/// its headers and, if it is read, its data; after that, that all parts were walked.
pub open spec fn expected(parts: Seq<Part>, reads: Seq<bool>) -> Seq<Answer> {
    Seq::new(
        reads.len(),
        |i: int|
            if i < parts.len() {
                parts[i].found(reads[i])
            } else {
                Answer { answer: Ask::Done, place: Place::Eof, field: None }
            },
    )
}

/// A walk over a message is answered with its parts, and then that there are no more,
/// however the message arrives and whichever fields are read. The preamble and the
/// epilogue are passed over.
pub proof fn law_message_is_walked(
    preamble: Seq<u8>,
    parts: Seq<Part>,
    boundary: Seq<char>,
    epilogue: Seq<u8>,
    body: Source,
    reads: Seq<bool>,
)
    requires
        body.ahead() == message(preamble, parts, boundary, epilogue),
        body.failure is None,
        first_at(preamble + delimiter(boundary), delimiter(boundary), preamble.len() as int),
    ensures
        (forall|i: int| 0 <= i < parts.len() ==> (#[trigger] parts[i]).fits_in(boundary))
            ==> answers(fresh(boundary), body, reads) == expected(parts, reads),
{
    let rest = after_delimiter(parts, boundary, epilogue);
    let line = delimiter(boundary);
    if forall|i: int| 0 <= i < parts.len() ==> (#[trigger] parts[i]).fits_in(boundary) {
        assert(body.ahead() =~= preamble + line + rest);
        assert(there(preamble + line + rest).ahead() =~= body.ahead());
        law_findings_depend_on_the_bytes(
            fresh(boundary),
            body,
            there(preamble + line + rest),
            reads,
        );
        lemma_to_delimiter(fresh(boundary), preamble, rest, reads);
        lemma_after_delimiter(
            fresh(boundary).moved(Place::Headers),
            parts,
            boundary,
            epilogue,
            reads,
        );
    }
}

/// A body that has arrived.
spec fn there(bytes: Seq<u8>) -> Source {
    Source { buffered: bytes, coming: Seq::empty(), failure: None }
}

/// A walk that looks for a delimiter is answered as one that stands behind it.
proof fn lemma_to_delimiter(walk: Walk, skipped: Seq<u8>, rest: Seq<u8>, reads: Seq<bool>)
    requires
        walk.place is FirstBoundary || walk.place is Boundary,
        first_at(
            skipped + delimiter(walk.boundary),
            delimiter(walk.boundary),
            skipped.len() as int,
        ),
    ensures
        answers(walk, there(skipped + delimiter(walk.boundary) + rest), reads) == answers(
            walk.moved(Place::Headers),
            there(rest),
            reads,
        ),
{
    let line = delimiter(walk.boundary);
    let head = skipped + line;
    let bytes = head + rest;
    lemma_first_in_longer(head, line, skipped.len() as int, rest);
    assert(bytes.take(head.len() as int) =~= head);
    assert(bytes.skip(head.len() as int) =~= rest);
    let (start, ask) = walk.begin();
    let (next, then_ask) = walk.moved(Place::Headers).begin();
    assert(there(bytes).read(ask) == (there(rest), Reply::Got(Some(head))));
    assert(start.arrived(Some(head)) == (next, then_ask));
    assert(answered(start, ask, there(bytes)) == answered(next, then_ask, there(rest)));
}

/// Once all parts were walked, every poll is answered so.
proof fn lemma_at_end(walk: Walk, body: Source, reads: Seq<bool>)
    requires
        walk.place is Eof,
    ensures
        answers(walk, body, reads) == expected(Seq::empty(), reads),
    decreases reads.len(),
{
    if reads.len() > 0 {
        let (next, answer, rest) = answered(walk.begin().0, walk.begin().1, body);
        assert(answer is Done && next.place is Eof);
        lemma_at_end(next, rest, reads.skip(1));
        assert(expected(Seq::empty(), reads) =~= expected(Seq::empty(), reads.take(1)) + expected(
            Seq::empty(),
            reads.skip(1),
        ));
        assert(answers(walk, body, reads) =~= expected(Seq::empty(), reads));
    } else {
        assert(answers(walk, body, reads) =~= expected(Seq::empty(), reads));
    }
}

/// What a poll in front of the header block of a part is answered with.
proof fn lemma_head(walk: Walk, part: Part, rest: Seq<u8>)
    requires
        walk.place is Headers,
        part.fits_in(walk.boundary),
    ensures
        answered(walk.begin().0, walk.begin().1, there(part.block + rest)) == (
            walk.moved(Place::Boundary(part.headers())),
            Ask::Item,
            there(rest),
        ),
{
    let bytes = part.block + rest;
    let (close, peek) = walk.begin();
    let reading = walk.at(Pending::Headers);
    let until = Ask::ReadUntil(blank_line());
    let item = walk.moved(Place::Boundary(part.headers()));
    lemma_first_in_longer(part.block, blank_line(), part.block.len() - 4, rest);
    assert(bytes.take(part.block.len() as int) =~= part.block);
    assert(bytes.skip(part.block.len() as int) =~= rest);
    assert(bytes.take(2) =~= part.block.take(2));
    assert(there(bytes).read(peek) == (there(bytes), Reply::Got(Some(part.block.take(2)))));
    assert(close.arrived(Some(part.block.take(2))) == (reading, until));
    assert(there(bytes).read(until) == (there(rest), Reply::Got(Some(part.block))));
    assert(reading.arrived(Some(part.block)) == (item, Ask::Item));
    assert(answered(item, Ask::Item, there(rest)) == (item, Ask::Item, there(rest)));
    assert(answered(reading, until, there(bytes)) == answered(item, Ask::Item, there(rest)));
    assert(answered(close, peek, there(bytes)) == answered(reading, until, there(bytes)));
}

/// What a poll for the data of a part is answered with.
proof fn lemma_data(item: Walk, data: Seq<u8>, rest: Seq<u8>)
    requires
        item.place is Boundary,
        first_at(data + delimiter(item.boundary), delimiter(item.boundary), data.len() as int),
    ensures
        field_answered(item, false, there(data + delimiter(item.boundary) + rest)) == (
            true,
            item.moved(Place::Headers),
            if data.len() == 0 {
                FieldAsk::Done
            } else {
                FieldAsk::Data(data)
            },
            there(rest),
        ),
{
    let line = delimiter(item.boundary);
    let body = data + line;
    lemma_first_in_longer(body, line, data.len() as int, rest);
    assert((body + rest).take(body.len() as int) =~= body);
    assert((body + rest).skip(body.len() as int) =~= rest);
    assert(before_delimiter(body, item.boundary) =~= data);
    assert(there(body + rest).read(Ask::ReadUntil(line)) == (
        there(rest),
        Reply::Got(Some(body)),
    ));
}

proof fn lemma_after_delimiter(
    walk: Walk,
    parts: Seq<Part>,
    boundary: Seq<char>,
    epilogue: Seq<u8>,
    reads: Seq<bool>,
)
    requires
        walk.place is Headers,
        walk.boundary == boundary,
        forall|i: int| 0 <= i < parts.len() ==> (#[trigger] parts[i]).fits_in(boundary),
    ensures
        answers(walk, there(after_delimiter(parts, boundary, epilogue)), reads) == expected(
            parts,
            reads,
        ),
    decreases reads.len(),
{
    let bytes = after_delimiter(parts, boundary, epilogue);
    if reads.len() == 0 {
        assert(answers(walk, there(bytes), reads) =~= expected(parts, reads));
    } else if parts.len() == 0 {
        let (close, peek) = walk.begin();
        let end = walk.moved(Place::Eof);
        assert(bytes.take(2) =~= closing());
        assert(there(bytes).read(peek) == (there(bytes), Reply::Got(Some(closing()))));
        assert(answered(end, Ask::Done, there(bytes)) == (end, Ask::Done, there(bytes)));
        assert(answered(close, peek, there(bytes)) == (end, Ask::Done, there(bytes)));
        lemma_at_end(end, there(bytes), reads.skip(1));
        assert(answers(walk, there(bytes), reads) =~= expected(parts, reads));
    } else {
        let part = parts[0];
        let others = parts.skip(1);
        let rest = after_delimiter(others, boundary, epilogue);
        let body = part.data + delimiter(boundary);
        let item = walk.moved(Place::Boundary(part.headers()));
        assert(bytes =~= part.block + (body + rest));
        lemma_head(walk, part, body + rest);
        lemma_data(item, part.data, rest);
        lemma_to_delimiter(item, part.data, rest, reads.skip(1));
        lemma_after_delimiter(
            item.moved(Place::Headers),
            others,
            boundary,
            epilogue,
            reads.skip(1),
        );
        assert(answers(walk, there(bytes), reads) == seq![part.found(reads[0])] + expected(
            others,
            reads.skip(1),
        ));
        assert(seq![part.found(reads[0])] + expected(others, reads.skip(1)) =~= expected(
            parts,
            reads,
        ));
    }
}

/// A part whose header block begins with the line break that ends the line of its
/// delimiter can stand in a message if its header lines parse, its block ends at the
/// first empty line, and the delimiter does not stand in its data. Its headers are what
/// the lines below that line break make.
pub proof fn law_usual_part_fits(
    part: Part,
    boundary: Seq<char>,
    lines: Seq<(Seq<u8>, Seq<u8>)>,
)
    requires
        begins_empty(part.block),
        !begins_empty(part.block.skip(2)),
        first_at(part.block, blank_line(), part.block.len() - 4),
        first_at(
            part.data + delimiter(boundary),
            delimiter(boundary),
            part.data.len() as int,
        ),
    ensures
        head_of(part.block.skip(2), MAX_HEADERS as nat) == Ok::<
            Option<Seq<(Seq<u8>, Seq<u8>)>>,
            HeadError,
        >(Some(lines)) && names_fit(lines) ==> part.fits_in(boundary) && part.headers()
            == gathered(lines),
{
    assert(part.block.take(2)[0] == 13);
}

/// A part whose header block is nothing but an empty line below its delimiter can stand
/// in a message if the delimiter does not stand in its data. It has no headers.
pub proof fn law_part_without_headers_fits(data: Seq<u8>, boundary: Seq<char>)
    requires
        first_at(data + delimiter(boundary), delimiter(boundary), data.len() as int),
    ensures
        ({
            let part = Part { block: blank_line(), data };
            part.fits_in(boundary) && part.headers() == no_headers()
        }),
{
    let block = blank_line();
    assert(block.take(2)[0] == 13);
    assert(block.subrange(0, 4) =~= block);
}

/// A field that nobody reads makes no difference to what follows it: the walk asks for
/// the same bytes as the field would, and is then where it would be with the field
/// read and given up.
pub proof fn law_skipping_is_reading(walk: Walk, got: Seq<u8>)
    requires
        walk.place is Boundary,
    ensures
        walk.begin().1 == Ask::ReadUntil(delimiter(walk.boundary)),
        walk.begin_field(false).2 == FieldAsk::ReadUntil(delimiter(walk.boundary)),
        walk.begin().0.arrived(Some(got)) == walk.begin_field(false).1.field_arrived(
            Some(got),
        ).1.begin(),
{
}

/// Once all parts were walked, the walk says so whenever it is asked.
pub proof fn law_end_is_final(walk: Walk)
    requires
        walk.place is Eof,
    ensures
        walk.begin().1 is Done,
        walk.begin().0.place is Eof,
{
}

/// A reading that has to wait leaves the walk where it was: when it is polled again it
/// asks for the same bytes as a walk that never asked.
pub proof fn law_waiting_changes_nothing(walk: Walk)
    ensures
        walk.resume(Ok(Async::NotReady)).1 is Pause,
        walk.resume(Ok(Async::NotReady)).0.begin() == walk.begin(),
        walk.resume_field(Ok(Async::NotReady)).2 is Pause,
        walk.place is Boundary ==> walk.resume_field(Ok(Async::NotReady)).1.begin_field(false)
            == walk.begin_field(false),
{
}

} // verus!
