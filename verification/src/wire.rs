//! A multipart body byte by byte: what its walk looks for, and what it makes of what it
//! finds.

use bytes::Bytes;
use vstd::prelude::*;
use vstd::utf8::encode_utf8;

use crate::arrival::{answers, first_at, Answer, Source};
use crate::buf::bytes_of;
use crate::error::{HeadError, MultipartError, ParseError, PayloadError};
use crate::headers::{
    ascii_text, first_param, head_of, head_view, in_lower_case, is_name, is_value, lines_of,
    media_type, values_in, RawHeader, MAX_NAMES, MAX_NAME_LEN,
};
use crate::message::{after_delimiter, expected, fresh, law_message_is_walked, message, Part};
use crate::multipart::{
    before_delimiter, boundary_of, delimiter, field_says, gathered, head_in, names_fit, says, Ask,
    FieldAsk, FieldStep, MultipartItem, Pending, Place, Reading, Step, Walk,
    MAX_HEADERS,
};
use crate::task::Async;

verus! {

/// What stands between parts is a line break, two hyphens and all bytes of the boundary,
/// whatever its length.
pub proof fn law_delimiter_has_the_whole_boundary(boundary: Seq<char>)
    ensures
        delimiter(boundary).len() == 4 + encode_utf8(boundary).len(),
        delimiter(boundary)[0] == 13,
        delimiter(boundary)[1] == 10,
        delimiter(boundary)[2] == 45,
        delimiter(boundary)[3] == 45,
        forall|i: int|
            0 <= i < encode_utf8(boundary).len() ==> delimiter(boundary)[4 + i]
                == #[trigger] encode_utf8(boundary)[i],
{
}

/// What a poll starts with, wherever the walk is.
pub proof fn law_walk_asks_for_what_comes_next(walk: Walk)
    ensures
        match walk.place {
            Place::Eof => walk.begin() == (
                Walk { pending: Pending::Nothing, ..walk },
                Ask::Done,
            ),
            Place::FirstBoundary => walk.begin() == (
                Walk { pending: Pending::FirstBoundary, ..walk },
                Ask::ReadUntil(seq![13u8, 10, 45, 45] + encode_utf8(walk.boundary)),
            ),
            Place::Headers => walk.begin() == (
                Walk { pending: Pending::Close, ..walk },
                Ask::Peek(2),
            ),
            Place::Boundary(_) => walk.begin() == (
                Walk { pending: Pending::Skip, ..walk },
                Ask::ReadUntil(seq![13u8, 10, 45, 45] + encode_utf8(walk.boundary)),
            ),
        },
        walk.begin_field(true) == (true, walk, FieldAsk::Done),
        walk.begin_field(false) == (if walk.place is Boundary {
            (
                false,
                Walk { pending: Pending::Data, ..walk },
                FieldAsk::ReadUntil(seq![13u8, 10, 45, 45] + encode_utf8(walk.boundary)),
            )
        } else {
            (true, walk, FieldAsk::Done)
        }),
{
}

/// What the bytes behind a delimiter, or up to one, lead to. A delimiter is followed by
/// two hyphens where it is the last one, and else by a header block, which ends with an
/// empty line. A body that ends without what is looked for is not complete.
pub proof fn law_walk_goes_from_delimiter_to_delimiter(walk: Walk, got: Seq<u8>)
    ensures
        walk.pending is FirstBoundary || walk.pending is Skip ==> {
            &&& walk.arrived(Some(got)) == (
                Walk { boundary: walk.boundary, place: Place::Headers, pending: Pending::Close },
                Ask::Peek(2),
            )
            &&& walk.arrived(None) == (
                Walk { pending: Pending::Nothing, ..walk },
                Ask::Fail(MultipartError::Incomplete),
            )
        },
        walk.pending is Close ==> {
            &&& walk.arrived(Some(got)) == (if got == seq![45u8, 45] {
                (
                    Walk {
                        boundary: walk.boundary,
                        place: Place::Eof,
                        pending: Pending::Nothing,
                    },
                    Ask::Done,
                )
            } else {
                (
                    Walk { pending: Pending::Headers, ..walk },
                    Ask::ReadUntil(seq![13u8, 10, 13, 10]),
                )
            })
            &&& walk.arrived(None) == (
                Walk { pending: Pending::Headers, ..walk },
                Ask::ReadUntil(seq![13u8, 10, 13, 10]),
            )
        },
        walk.pending is Headers ==> walk.arrived(None) == (
            Walk { pending: Pending::Nothing, ..walk },
            Ask::Fail(MultipartError::Incomplete),
        ),
{
}

/// Whether bytes begin with a line break.
pub open spec fn breaks_first(bytes: Seq<u8>) -> bool {
    bytes.len() >= 2 && bytes[0] == 13 && bytes[1] == 10
}

/// The header lines of a block: what `httparse` finds in it, with room for 32 headers,
/// below the line break that ends the line of the delimiter; none where another line
/// break follows that one.
pub open spec fn lines_below(block: Seq<u8>) -> Result<
    Option<Seq<(Seq<u8>, Seq<u8>)>>,
    HeadError,
> {
    let text = if breaks_first(block) {
        block.subrange(2, block.len() as int)
    } else {
        block
    };
    if breaks_first(text) {
        Ok(Some(Seq::empty()))
    } else {
        head_of(text, 32)
    }
}

/// What a header block leads to. One that parses makes a part, with all its headers,
/// unless a header name is longer than 65535 bytes. One that goes on, or does not parse,
/// is an error, and the walk stays where it is.
pub proof fn law_header_block_makes_a_part(walk: Walk, block: Seq<u8>)
    requires
        walk.pending is Headers,
    ensures
        ({
            let (next, ask) = walk.arrived(Some(block));
            match lines_below(block) {
                Ok(Some(lines)) => if forall|i: int|
                    0 <= i < lines.len() ==> (#[trigger] lines[i]).0.len() <= 65535 {
                    &&& ask is Item
                    &&& next == (Walk {
                        boundary: walk.boundary,
                        place: Place::Boundary(gathered(lines)),
                        pending: Pending::Nothing,
                    })
                } else {
                    ask is Oversized && next == (Walk { pending: Pending::Nothing, ..walk })
                },
                Ok(None) => ask == Ask::Fail(MultipartError::Parse(ParseError::Header)) && next == (
                Walk { pending: Pending::Nothing, ..walk }),
                Err(err) => {
                    &&& ask == Ask::Fail(
                        MultipartError::Parse(
                            match err {
                                HeadError::TooManyHeaders => ParseError::TooLarge,
                                HeadError::BadStatus => ParseError::Status,
                                HeadError::BadVersion => ParseError::Version,
                                _ => ParseError::Header,
                            },
                        ),
                    )
                    &&& next == (Walk { pending: Pending::Nothing, ..walk })
                },
            }
        }),
{
    lemma_lines_below(block);
    if let Ok(Some(lines)) = lines_below(block) {
        lemma_names_fit(lines);
    }
}

/// The same holds of a block that was parsed already.
pub proof fn law_parsed_head_makes_a_part(
    walk: Walk,
    head: Result<Option<Seq<(Seq<u8>, Seq<u8>)>>, HeadError>,
)
    ensures
        ({
            let (next, ask) = walk.after_head(head);
            match head {
                Ok(Some(lines)) => if forall|i: int|
                    0 <= i < lines.len() ==> (#[trigger] lines[i]).0.len() <= 65535 {
                    &&& ask is Item
                    &&& next == (Walk {
                        boundary: walk.boundary,
                        place: Place::Boundary(gathered(lines)),
                        pending: Pending::Nothing,
                    })
                } else {
                    ask is Oversized && next == (Walk { pending: Pending::Nothing, ..walk })
                },
                Ok(None) => ask == Ask::Fail(MultipartError::Parse(ParseError::Header)) && next == (
                Walk { pending: Pending::Nothing, ..walk }),
                Err(err) => {
                    &&& ask == Ask::Fail(
                        MultipartError::Parse(
                            match err {
                                HeadError::TooManyHeaders => ParseError::TooLarge,
                                HeadError::BadStatus => ParseError::Status,
                                HeadError::BadVersion => ParseError::Version,
                                _ => ParseError::Header,
                            },
                        ),
                    )
                    &&& next == (Walk { pending: Pending::Nothing, ..walk })
                },
            }
        }),
{
    if let Ok(Some(lines)) = head {
        lemma_names_fit(lines);
    }
}

/// The headers of a part are its valid lines, and nothing else: a name is there exactly
/// if a valid line has it, in any case, and its values are the values of all valid lines
/// that have it, in order.
pub proof fn law_headers_are_the_valid_lines(lines: Seq<(Seq<u8>, Seq<u8>)>, name: Seq<u8>)
    ensures
        gathered(lines).contains_key(name) <==> exists|i: int|
            0 <= i < lines.len() && is_name((#[trigger] lines[i]).0) && is_value(lines[i].1)
                && in_lower_case(lines[i].0) == name,
        values_in(gathered(lines), name) == lines.filter(
            |line: (Seq<u8>, Seq<u8>)|
                is_name(line.0) && is_value(line.1) && in_lower_case(line.0) == name,
        ).map_values(|line: (Seq<u8>, Seq<u8>)| line.1),
        gathered(lines).contains_key(name) ==> gathered(lines)[name] == lines.filter(
            |line: (Seq<u8>, Seq<u8>)|
                is_name(line.0) && is_value(line.1) && in_lower_case(line.0) == name,
        ).map_values(|line: (Seq<u8>, Seq<u8>)| line.1),
{
    lemma_gathered(lines, name);
}

/// No header is lost: each valid line has its value under its name in lower case.
pub proof fn law_every_valid_line_is_kept(lines: Seq<(Seq<u8>, Seq<u8>)>, i: int)
    requires
        0 <= i < lines.len(),
        is_name(lines[i].0),
        is_value(lines[i].1),
    ensures
        gathered(lines).contains_key(in_lower_case(lines[i].0)),
        gathered(lines)[in_lower_case(lines[i].0)].contains(lines[i].1),
{
    lemma_gathered(lines, in_lower_case(lines[i].0));
    lemma_kept(lines, i);
}

/// A name in lower case is as long as it was, differs from it in capital letters alone,
/// and has none.
pub proof fn law_lower_case(text: Seq<u8>)
    ensures
        in_lower_case(text).len() == text.len(),
        forall|i: int|
            0 <= i < text.len() ==> #[trigger] in_lower_case(text)[i] == (if 65 <= text[i]
                && text[i] <= 90 {
                text[i] + 32
            } else {
                text[i] as int
            }),
        in_lower_case(in_lower_case(text)) == in_lower_case(text),
{
    assert(in_lower_case(in_lower_case(text)) =~= in_lower_case(text));
}

/// The data of a field is all that stands in front of the delimiter that ends it. With
/// it the field is done, and the walk stands behind that delimiter.
pub proof fn law_field_has_all_its_data(walk: Walk, data: Seq<u8>)
    ensures
        walk.field_arrived(Some(data + (seq![13u8, 10, 45, 45] + encode_utf8(walk.boundary)))) == (
            true,
            Walk { boundary: walk.boundary, place: Place::Headers, pending: Pending::Nothing },
            if data.len() == 0 {
                FieldAsk::Done
            } else {
                FieldAsk::Data(data)
            },
        ),
        walk.field_arrived(None) == (
            false,
            Walk { pending: Pending::Nothing, ..walk },
            FieldAsk::Fail(MultipartError::Incomplete),
        ),
{
    let got = data + (seq![13u8, 10, 45, 45] + encode_utf8(walk.boundary));
    assert(before_delimiter(got, walk.boundary) =~= data);
}

/// Whatever bytes are taken for a field, its data is all of them but as many at the end
/// as the delimiter has.
pub proof fn law_field_loses_the_delimiter_alone(walk: Walk, got: Seq<u8>)
    requires
        got.len() >= 4 + encode_utf8(walk.boundary).len(),
    ensures
        ({
            let n = got.len() - 4 - encode_utf8(walk.boundary).len();
            let (done, next, said) = walk.field_arrived(Some(got));
            &&& done
            &&& next == (Walk {
                boundary: walk.boundary,
                place: Place::Headers,
                pending: Pending::Nothing,
            })
            &&& if n == 0 {
                said is Done
            } else {
                said matches FieldAsk::Data(data) && data.len() == n && forall|i: int|
                    0 <= i < n ==> #[trigger] data[i] == got[i]
            }
        }),
{
}

/// What came of a reading is taken as it came; one that has to wait, or fails, leaves the
/// walk where it is.
pub proof fn law_readings_are_taken_as_they_come(walk: Walk, bytes: Bytes, err: PayloadError)
    ensures
        walk.resume(Ok(Async::Ready(Some(bytes)))) == walk.arrived(Some(bytes_of(bytes))),
        walk.resume(Ok(Async::Ready(None))) == walk.arrived(None),
        walk.resume(Ok(Async::NotReady)) == (
            Walk { pending: Pending::Nothing, ..walk },
            Ask::Pause,
        ),
        walk.resume(Err(err)) == (
            Walk { pending: Pending::Nothing, ..walk },
            Ask::Fail(MultipartError::Payload(err)),
        ),
        walk.resume_field(Ok(Async::Ready(Some(bytes)))) == walk.field_arrived(
            Some(bytes_of(bytes)),
        ),
        walk.resume_field(Ok(Async::Ready(None))) == walk.field_arrived(None),
        walk.resume_field(Ok(Async::NotReady)) == (
            false,
            Walk { pending: Pending::Nothing, ..walk },
            FieldAsk::Pause,
        ),
        walk.resume_field(Err(err)) == (
            false,
            Walk { pending: Pending::Nothing, ..walk },
            FieldAsk::Fail(MultipartError::Payload(err)),
        ),
{
}

/// A walk waits for bytes exactly while it looks for a delimiter, for what follows one or
/// for a header block.
pub proof fn law_walk_waits(walk: Walk)
    ensures
        walk.waiting() <==> match walk.pending {
            Pending::FirstBoundary | Pending::Close | Pending::Headers | Pending::Skip => true,
            Pending::Nothing | Pending::Data => false,
        },
{
}

/// A step asks for, or answers, exactly what the walk does. A field that is handed out
/// has the claim and the task that were given for it, and none of its data was read.
pub proof fn law_step_says_it<S, T>(
    step: Step<S, T>,
    ask: Ask,
    level: nat,
    task: Option<T>,
)
    ensures
        says(step, ask, level, task) <==> match step {
            Step::Peek(k) => ask == Ask::Peek(k as nat),
            Step::ReadUntil(line) => ask == Ask::ReadUntil(line@),
            Step::Oversized => ask is Oversized,
            Step::Return(Ok(Async::NotReady)) => ask is Pause,
            Step::Return(Ok(Async::Ready(None))) => ask is Done,
            Step::Return(Ok(Async::Ready(Some(MultipartItem::Field(field))))) => ask is Item
                && field.level() == level && field.task() == task && !field.done(),
            Step::Return(Ok(Async::Ready(Some(MultipartItem::Nested(_))))) => false,
            Step::Return(Err(err)) => ask == Ask::Fail(err),
        },
{
}

/// The same of a step of a field.
pub proof fn law_field_step_says_it(step: FieldStep, ask: FieldAsk)
    ensures
        field_says(step, ask) <==> match step {
            FieldStep::ReadUntil(line) => ask == FieldAsk::ReadUntil(line@),
            FieldStep::Return(Ok(Async::NotReady)) => ask is Pause,
            FieldStep::Return(Ok(Async::Ready(None))) => ask is Done,
            FieldStep::Return(Ok(Async::Ready(Some(bytes)))) => ask == FieldAsk::Data(
                bytes_of(bytes),
            ),
            FieldStep::Return(Err(err)) => ask == FieldAsk::Fail(err),
        },
{
}

/// A walk is polled only while no field is on top of it, and moving it on touches neither
/// its body nor who claims it.
pub proof fn law_walk_is_on_top_alone<S>(reading: Reading<S>, walk: Walk)
    ensures
        reading.current() <==> reading.holders == 1,
        reading.inner matches Some((_, body)) ==> reading.walked(walk) == (Reading {
            error: reading.error,
            holders: reading.holders,
            inner: Some((walk, body)),
        }),
{
}

/// The boundary of a request is the first parameter called `boundary` of the media type
/// that its first content type spells.
pub proof fn law_boundary_is_the_first_parameter(
    headers: Map<Seq<u8>, Seq<Seq<u8>>>,
    text: Seq<char>,
    i: int,
)
    requires
        headers.contains_key(encode_utf8("content-type"@)),
        ({
            let values = headers[encode_utf8("content-type"@)];
            &&& values.len() > 0
            &&& text.len() == values[0].len()
            &&& forall|k: int|
                0 <= k < text.len() ==> (32 <= values[0][k] && values[0][k] < 127
                    || values[0][k] == 9) && #[trigger] text[k] == values[0][k] as char
        }),
    ensures
        match media_type(text) {
            Some(params) => {
                &&& 0 <= i < params.len() && params[i].0 == "boundary"@ && (forall|k: int|
                    0 <= k < i ==> (#[trigger] params[k]).0 != "boundary"@) ==> boundary_of(headers)
                    == Ok::<Seq<char>, MultipartError>(params[i].1)
                &&& (forall|k: int|
                    0 <= k < params.len() ==> (#[trigger] params[k]).0 != "boundary"@)
                    ==> boundary_of(headers) == Err::<Seq<char>, MultipartError>(
                    MultipartError::MissingBoundary,
                )
            },
            None => boundary_of(headers) == Err::<Seq<char>, MultipartError>(
                MultipartError::ParseContentType,
            ),
        },
{
    let value = headers[encode_utf8("content-type"@)][0];
    assert(ascii_text(value) =~= text);
    assert forall|k: int| 0 <= k < value.len() implies 32 <= #[trigger] value[k] < 127 || value[k]
        == 9 by {
        assert(text[k] == value[k] as char);
    }
    if let Some(params) = media_type(text) {
        if 0 <= i < params.len() && params[i].0 == "boundary"@ && (forall|k: int|
            0 <= k < i ==> (#[trigger] params[k]).0 != "boundary"@) {
            law_first_parameter(params, "boundary"@, i);
        }
        if forall|k: int| 0 <= k < params.len() ==> (#[trigger] params[k]).0 != "boundary"@ {
            lemma_no_parameter(params, "boundary"@);
        }
    }
}

/// Why a request has no boundary: it has no content type, or one that is no readable
/// text.
pub proof fn law_boundary_needs_a_content_type(headers: Map<Seq<u8>, Seq<Seq<u8>>>, k: int)
    ensures
        !headers.contains_key(encode_utf8("content-type"@)) ==> boundary_of(headers) == Err::<
            Seq<char>,
            MultipartError,
        >(MultipartError::NoContentType),
        headers.contains_key(encode_utf8("content-type"@)) ==> {
            let values = headers[encode_utf8("content-type"@)];
            values.len() > 0 && 0 <= k < values[0].len() && (values[0][k] >= 127 || values[0][k]
                < 32 && values[0][k] != 9) ==> boundary_of(headers) == Err::<
                Seq<char>,
                MultipartError,
            >(MultipartError::ParseContentType)
        },
{
}

/// The first parameter with a name is the first one in the list that has it.
pub proof fn law_first_parameter(params: Seq<(Seq<char>, Seq<char>)>, name: Seq<char>, i: int)
    requires
        0 <= i < params.len(),
        params[i].0 == name,
        forall|k: int| 0 <= k < i ==> (#[trigger] params[k]).0 != name,
    ensures
        first_param(params, name) == Some(params[i].1),
    decreases i,
{
    if i > 0 {
        assert(params[0].0 != name);
        assert forall|k: int| 0 <= k < i - 1 implies (#[trigger] params.skip(1)[k]).0 != name by {
            assert(params.skip(1)[k] == params[k + 1]);
        }
        law_first_parameter(params.skip(1), name, i - 1);
    }
}

proof fn lemma_no_parameter(params: Seq<(Seq<char>, Seq<char>)>, name: Seq<char>)
    requires
        forall|k: int| 0 <= k < params.len() ==> (#[trigger] params[k]).0 != name,
    ensures
        first_param(params, name) is None,
    decreases params.len(),
{
    if params.len() > 0 {
        assert forall|k: int| 0 <= k < params.len() - 1 implies (
        #[trigger] params.skip(1)[k]).0 != name by {
            assert(params.skip(1)[k] == params[k + 1]);
        }
        lemma_no_parameter(params.skip(1), name);
    }
}

/// Header lines keep their names, their values and their order.
pub proof fn law_lines_are_kept(headers: Seq<RawHeader>, i: int)
    ensures
        lines_of(headers).len() == headers.len(),
        0 <= i < headers.len() ==> lines_of(headers)[i] == (headers[i].name@, headers[i].value@),
{
}

/// What was parsed is taken as it was found.
pub proof fn law_head_is_taken_as_found(r: Result<Option<Vec<RawHeader>>, HeadError>)
    ensures
        match r {
            Ok(Some(headers)) => head_view(r) matches Ok(Some(lines)) && lines.len()
                == headers@.len() && forall|i: int|
                0 <= i < lines.len() ==> #[trigger] lines[i] == (
                    headers@[i].name@,
                    headers@[i].value@,
                ),
            Ok(None) => head_view(r) matches Ok(None),
            Err(err) => head_view(r) == Err::<Option<Seq<(Seq<u8>, Seq<u8>)>>, HeadError>(err),
        },
{
}

/// A part as it stands in a message, byte by byte, with the header lines that are found
/// in it.
pub struct Piece {
    pub block: Seq<u8>,
    pub lines: Seq<(Seq<u8>, Seq<u8>)>,
    pub data: Seq<u8>,
}

/// Whether a piece can stand in a message: its block is not two hyphens, ends with its
/// first empty line and has these header lines, with names of up to 65535 bytes, and the
/// boundary line does not stand in its data.
pub open spec fn can_stand(piece: Piece, boundary: Seq<char>) -> bool {
    let between = seq![13u8, 10, 45, 45] + encode_utf8(boundary);
    &&& !(piece.block[0] == 45 && piece.block[1] == 45)
    &&& first_at(piece.block, seq![13u8, 10, 13, 10], piece.block.len() - 4)
    &&& lines_below(piece.block) == Ok::<Option<Seq<(Seq<u8>, Seq<u8>)>>, HeadError>(
        Some(piece.lines),
    )
    &&& forall|i: int| 0 <= i < piece.lines.len() ==> (#[trigger] piece.lines[i]).0.len() <= 65535
    &&& first_at(piece.data + between, between, piece.data.len() as int)
}

/// The bytes of a message behind its first boundary line.
pub open spec fn pieces_and_end(
    pieces: Seq<Piece>,
    boundary: Seq<char>,
    epilogue: Seq<u8>,
) -> Seq<u8>
    decreases pieces.len(),
{
    if pieces.len() == 0 {
        seq![45u8, 45] + epilogue
    } else {
        pieces[0].block + pieces[0].data + (seq![13u8, 10, 45, 45] + encode_utf8(boundary))
            + pieces_and_end(pieces.skip(1), boundary, epilogue)
    }
}

/// What a poll for a part is answered with in a walk over `pieces`. The headers are any
/// that have exactly the valid lines of the piece.
pub open spec fn is_answer(pieces: Seq<Piece>, read: bool, i: int, answer: Answer) -> bool {
    if i < pieces.len() {
        &&& answer.answer is Item
        &&& answer.place matches Place::Boundary(headers) && forall|name: Seq<u8>|
            #[trigger] values_in(headers, name) == pieces[i].lines.filter(
                |line: (Seq<u8>, Seq<u8>)|
                    is_name(line.0) && is_value(line.1) && in_lower_case(line.0) == name,
            ).map_values(|line: (Seq<u8>, Seq<u8>)| line.1)
        &&& answer.field == (if !read {
            None
        } else if pieces[i].data.len() == 0 {
            Some(FieldAsk::Done)
        } else {
            Some(FieldAsk::Data(pieces[i].data))
        })
    } else {
        &&& answer.answer is Done
        &&& answer.place is Eof
        &&& answer.field is None
    }
}

/// A walk over the bytes of a message, however they arrive and whichever fields are read,
/// is answered with one item for each of its pieces, in order, with exactly the headers
/// and the data of the piece, and after that with the end.
pub proof fn law_bytes_of_a_message_are_walked(
    preamble: Seq<u8>,
    pieces: Seq<Piece>,
    boundary: Seq<char>,
    epilogue: Seq<u8>,
    body: Source,
    reads: Seq<bool>,
    i: int,
)
    requires
        ({
            let between = seq![13u8, 10, 45, 45] + encode_utf8(boundary);
            &&& body.ahead() == preamble + between + pieces_and_end(pieces, boundary, epilogue)
            &&& first_at(preamble + between, between, preamble.len() as int)
        }),
        body.failure is None,
        0 <= i < reads.len(),
    ensures
        (forall|k: int| 0 <= k < pieces.len() ==> can_stand(#[trigger] pieces[k], boundary)) ==> {
            let start = Walk { boundary, place: Place::FirstBoundary, pending: Pending::Nothing };
            &&& answers(start, body, reads).len() == reads.len()
            &&& is_answer(pieces, reads[i], i, answers(start, body, reads)[i])
        },
{
    let parts = pieces.map_values(|p: Piece| Part { block: p.block, data: p.data });
    if forall|k: int| 0 <= k < pieces.len() ==> can_stand(#[trigger] pieces[k], boundary) {
        let between = seq![13u8, 10, 45, 45] + encode_utf8(boundary);
        assert(delimiter(boundary) =~= between);
        assert forall|k: int| 0 <= k < parts.len() implies (#[trigger] parts[k]).fits_in(
            boundary,
        ) by {
            lemma_piece_fits(pieces[k], boundary);
        }
        lemma_same_message(pieces, boundary, epilogue);
        assert(body.ahead() =~= message(preamble, parts, boundary, epilogue));
        law_message_is_walked(preamble, parts, boundary, epilogue, body, reads);
        assert(answers(fresh(boundary), body, reads) == expected(parts, reads));
        if i < pieces.len() {
            lemma_piece_fits(pieces[i], boundary);
            assert forall|name: Seq<u8>| #[trigger]
                values_in(gathered(pieces[i].lines), name) == pieces[i].lines.filter(
                    |line: (Seq<u8>, Seq<u8>)|
                        is_name(line.0) && is_value(line.1) && in_lower_case(line.0) == name,
                ).map_values(|line: (Seq<u8>, Seq<u8>)| line.1) by {
                law_headers_are_the_valid_lines(pieces[i].lines, name);
            }
        }
    }
}

proof fn lemma_lines_below(block: Seq<u8>)
    ensures
        head_in(block) == lines_below(block),
{
    assert(breaks_first(block) ==> block.skip(2) =~= block.subrange(2, block.len() as int));
}

proof fn lemma_names_fit(lines: Seq<(Seq<u8>, Seq<u8>)>)
    ensures
        names_fit(lines) <==> forall|i: int|
            0 <= i < lines.len() ==> (#[trigger] lines[i]).0.len() <= 65535,
{
}

proof fn lemma_piece_fits(piece: Piece, boundary: Seq<char>)
    requires
        can_stand(piece, boundary),
    ensures
        (Part { block: piece.block, data: piece.data }).fits_in(boundary),
        (Part { block: piece.block, data: piece.data }).headers() == gathered(piece.lines),
{
    lemma_lines_below(piece.block);
    lemma_names_fit(piece.lines);
    assert(delimiter(boundary) =~= seq![13u8, 10, 45, 45] + encode_utf8(boundary));
    let two = piece.block.take(2);
    assert(two[0] == piece.block[0] && two[1] == piece.block[1]);
}

proof fn lemma_same_message(pieces: Seq<Piece>, boundary: Seq<char>, epilogue: Seq<u8>)
    ensures
        pieces_and_end(pieces, boundary, epilogue) == after_delimiter(
            pieces.map_values(|p: Piece| Part { block: p.block, data: p.data }),
            boundary,
            epilogue,
        ),
    decreases pieces.len(),
{
    let parts = pieces.map_values(|p: Piece| Part { block: p.block, data: p.data });
    assert(delimiter(boundary) =~= seq![13u8, 10, 45, 45] + encode_utf8(boundary));
    if pieces.len() > 0 {
        lemma_same_message(pieces.skip(1), boundary, epilogue);
        assert(parts.skip(1) =~= pieces.skip(1).map_values(
            |p: Piece| Part { block: p.block, data: p.data },
        ));
        assert(pieces_and_end(pieces, boundary, epilogue) =~= after_delimiter(
            parts,
            boundary,
            epilogue,
        ));
    } else {
        assert(pieces_and_end(pieces, boundary, epilogue) =~= after_delimiter(
            parts,
            boundary,
            epilogue,
        ));
    }
}

proof fn lemma_gathered(lines: Seq<(Seq<u8>, Seq<u8>)>, name: Seq<u8>)
    ensures
        gathered(lines).contains_key(name) <==> exists|i: int|
            0 <= i < lines.len() && is_name((#[trigger] lines[i]).0) && is_value(lines[i].1)
                && in_lower_case(lines[i].0) == name,
        values_in(gathered(lines), name) == lines.filter(
            |line: (Seq<u8>, Seq<u8>)|
                is_name(line.0) && is_value(line.1) && in_lower_case(line.0) == name,
        ).map_values(|line: (Seq<u8>, Seq<u8>)| line.1),
    decreases lines.len(),
{
    reveal(Seq::filter);
    let valid = |line: (Seq<u8>, Seq<u8>)|
        is_name(line.0) && is_value(line.1) && in_lower_case(line.0) == name;
    let value = |line: (Seq<u8>, Seq<u8>)| line.1;
    if lines.len() == 0 {
        assert(lines.filter(valid).map_values(value) =~= Seq::empty());
    } else {
        let before = lines.drop_last();
        lemma_gathered(before, name);
        let last = lines.last();
        if valid(last) {
            assert(lines.filter(valid) == before.filter(valid).push(last));
            assert(lines.filter(valid).map_values(value) =~= before.filter(valid).map_values(
                value,
            ).push(last.1));
            assert(lines[lines.len() - 1] == last);
        } else {
            assert(lines.filter(valid) == before.filter(valid));
        }
        if gathered(before).contains_key(name) {
            let i = choose|i: int|
                0 <= i < before.len() && is_name((#[trigger] before[i]).0) && is_value(before[i].1)
                    && in_lower_case(before[i].0) == name;
            assert(lines[i] == before[i]);
        }
        if exists|i: int|
            0 <= i < lines.len() && is_name((#[trigger] lines[i]).0) && is_value(lines[i].1)
                && in_lower_case(lines[i].0) == name {
            let i = choose|i: int|
                0 <= i < lines.len() && is_name((#[trigger] lines[i]).0) && is_value(lines[i].1)
                    && in_lower_case(lines[i].0) == name;
            if i < before.len() {
                assert(before[i] == lines[i]);
            }
        }
    }
}

proof fn lemma_kept(lines: Seq<(Seq<u8>, Seq<u8>)>, i: int)
    requires
        0 <= i < lines.len(),
        is_name(lines[i].0),
        is_value(lines[i].1),
    ensures
        values_in(gathered(lines), in_lower_case(lines[i].0)).contains(lines[i].1),
    decreases lines.len(),
{
    let name = in_lower_case(lines[i].0);
    let before = gathered(lines.drop_last());
    if i == lines.len() - 1 {
        let values = values_in(before, name).push(lines[i].1);
        assert(values[values.len() - 1] == lines[i].1);
    } else {
        assert(lines.drop_last()[i] == lines[i]);
        lemma_kept(lines.drop_last(), i);
        let old_values = values_in(before, name);
        let k = choose|k: int| 0 <= k < old_values.len() && old_values[k] == lines[i].1;
        let values = values_in(gathered(lines), name);
        assert(k < values.len() && values[k] == lines[i].1);
    }
}

/// How much there is room for: 32 headers in a part, names of up to 65535 bytes, and
/// 32768 names.
pub proof fn law_limits()
    ensures
        MAX_HEADERS == 32,
        MAX_NAME_LEN == 65535,
        MAX_NAMES == 32768,
{
}

} // verus!
