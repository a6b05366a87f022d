//! The parts of a `multipart/form-data` request body.
//!
//! A body is a preamble, then parts. A delimiter, which is a line break, two hyphens
//! and the boundary, stands in front of each part and behind the last one, where two
//! more hyphens follow it. A part is a block of headers, ended by an empty line, and
//! data.

use bytes::Bytes;
use http::header::{HeaderMap, HeaderName, HeaderValue};
use mime::Mime;
use vstd::prelude::*;
use vstd::slice::slice_subrange;
use vstd::utf8::encode_utf8;

use crate::buf::{as_slice, bytes_of};
use crate::error::{HeadError, MultipartError, ParseError, PayloadError};
use crate::headers::{
    append_header, ascii_text, begins_empty, first_param, fits, get_boundary, get_header, head_of,
    head_view, headers_of, in_lower_case, is_name, is_value, is_visible, lines_of, media_type,
    no_headers, params_of, parse_head, parse_mime, values_in, RawHeader, MAX_NAMES, MAX_NAME_LEN,
};
use crate::safety::{Holders, PayloadRef, Safety};
use crate::task::{Async, Poll};

verus! {

/// The most headers that a part can have.
pub const MAX_HEADERS: usize = 32;

/// Whether every header name is short enough to be looked at.
pub open spec fn names_fit(lines: Seq<(Seq<u8>, Seq<u8>)>) -> bool {
    forall|i: int| 0 <= i < lines.len() ==> (#[trigger] lines[i]).0.len() <= MAX_NAME_LEN
}

/// The headers that lines make: those with a name or a value that is not valid are
/// passed over, and a name that comes again gets one more value.
pub open spec fn gathered(lines: Seq<(Seq<u8>, Seq<u8>)>) -> Map<Seq<u8>, Seq<Seq<u8>>>
    decreases lines.len(),
{
    if lines.len() == 0 {
        no_headers()
    } else {
        let before = gathered(lines.drop_last());
        let (name, value) = lines.last();
        if is_name(name) && is_value(value) {
            before.insert(
                in_lower_case(name),
                values_in(before, in_lower_case(name)).push(value),
            )
        } else {
            before
        }
    }
}

/// What is left of a header block without the line break that ends the line of the
/// delimiter in front of it.
pub open spec fn below_delimiter(block: Seq<u8>) -> Seq<u8> {
    if begins_empty(block) {
        block.skip(2)
    } else {
        block
    }
}

/// The header lines of a part whose header block this is: everything behind the
/// delimiter, up to and with an empty line. Where the line of the delimiter is followed
/// by an empty line at once, there are none.
pub open spec fn head_in(block: Seq<u8>) -> Result<Option<Seq<(Seq<u8>, Seq<u8>)>>, HeadError> {
    let lines = below_delimiter(block);
    if begins_empty(lines) {
        Ok(Some(Seq::empty()))
    } else {
        head_of(lines, MAX_HEADERS as nat)
    }
}

/// Gathers the headers of a part.
pub fn collect_headers(lines: &Vec<RawHeader>) -> (headers: HeaderMap<HeaderValue>)
    requires
        lines@.len() <= MAX_NAMES,
        names_fit(lines_of(lines@)),
    ensures
        headers_of(headers) == gathered(lines_of(lines@)),
{
    let mut headers = HeaderMap::new();
    let mut i: usize = 0;
    while i < lines.len()
        invariant
            i <= lines@.len() <= MAX_NAMES,
            names_fit(lines_of(lines@)),
            headers_of(headers) == gathered(lines_of(lines@).take(i as int)),
            headers_of(headers).dom().finite(),
            headers_of(headers).dom().len() <= i,
        decreases lines@.len() - i,
    {
        let line = &lines[i];
        proof {
            let all = lines_of(lines@);
            assert(all[i as int] == (line.name@, line.value@));
            assert(all.take(i + 1).drop_last() =~= all.take(i as int));
            assert(all.take(i + 1).last() == all[i as int]);
        }
        if let Ok(name) = HeaderName::from_bytes(line.name.as_slice()) {
            if let Ok(value) = HeaderValue::from_bytes(line.value.as_slice()) {
                append_header(&mut headers, name, value);
            }
        }
        i = i + 1;
    }
    assert(lines_of(lines@).take(i as int) =~= lines_of(lines@));
    headers
}

/// The boundary that a media type has.
pub fn boundary_param(mime: &Mime) -> (r: Result<String, MultipartError>)
    ensures
        match first_param(params_of(*mime), "boundary"@) {
            Some(text) => r matches Ok(s) && s@ == text,
            None => r == Err::<String, MultipartError>(MultipartError::MissingBoundary),
        },
{
    match get_boundary(mime) {
        Some(text) => Ok(text.to_owned()),
        None => Err(MultipartError::MissingBoundary),
    }
}

/// The bytes that stand between parts.
pub open spec fn delimiter(boundary: Seq<char>) -> Seq<u8> {
    seq![13u8, 10, 45, 45] + encode_utf8(boundary)
}

/// The end of a header block.
pub open spec fn blank_line() -> Seq<u8> {
    seq![13u8, 10, 13, 10]
}

/// What follows the last delimiter.
pub open spec fn closing() -> Seq<u8> {
    seq![45u8, 45]
}

/// Where the reading of a body stands.
pub enum Place {
    /// All parts were walked.
    Eof,
    /// Looking for the first boundary, ignoring everything until it.
    FirstBoundary,
    /// Looking for the headers of the current part.
    Headers,
    /// Looking for the boundary at the end of the current part, which has these
    /// headers.
    Boundary(Map<Seq<u8>, Seq<Seq<u8>>>),
}

/// What a reader waits to hear.
#[derive(Clone, Copy, Debug, PartialEq, Eq, Structural)]
pub enum Pending {
    /// Nothing.
    Nothing,
    /// The bytes up to the first boundary.
    FirstBoundary,
    /// The bytes behind a delimiter, which tell whether it is the last one.
    Close,
    /// The header block of a part.
    Headers,
    /// The rest of a part that nobody reads.
    Skip,
    /// The data of a part.
    Data,
}

/// A reader as its contracts speak of it.
pub struct Walk {
    pub boundary: Seq<char>,
    pub place: Place,
    pub pending: Pending,
}

/// What a reader asks for, or says.
pub enum Ask {
    /// The next bytes of the body, which stay in it. Fewer than this many can be had
    /// where the body ends.
    Peek(nat),
    /// The bytes of the body up to and with the first occurrence of these.
    ReadUntil(Seq<u8>),
    /// All parts were walked.
    Done,
    /// There is a part.
    Item,
    /// Nothing more for now.
    Pause,
    /// The body cannot be walked.
    Fail(MultipartError),
    /// A header has a name that is too long to be looked at.
    Oversized,
}

impl Walk {
    /// The reader, waiting for `pending`.
    pub open spec fn at(self, pending: Pending) -> Walk {
        Walk { pending, ..self }
    }

    /// The reader, at `place` and waiting for nothing.
    pub open spec fn moved(self, place: Place) -> Walk {
        Walk { place, pending: Pending::Nothing, ..self }
    }

    /// The start of a poll.
    pub open spec fn begin(self) -> (Walk, Ask) {
        match self.place {
            Place::Eof => (self.at(Pending::Nothing), Ask::Done),
            Place::FirstBoundary => (
                self.at(Pending::FirstBoundary),
                Ask::ReadUntil(delimiter(self.boundary)),
            ),
            Place::Headers => (self.at(Pending::Close), Ask::Peek(2)),
            Place::Boundary(_) => (
                self.at(Pending::Skip),
                Ask::ReadUntil(delimiter(self.boundary)),
            ),
        }
    }

    /// What a header block that parsed, or did not, leads to.
    pub open spec fn after_head(
        self,
        head: Result<Option<Seq<(Seq<u8>, Seq<u8>)>>, HeadError>,
    ) -> (Walk, Ask) {
        match head {
            Ok(Some(lines)) => if names_fit(lines) {
                (self.moved(Place::Boundary(gathered(lines))), Ask::Item)
            } else {
                (self.at(Pending::Nothing), Ask::Oversized)
            },
            Ok(None) => (
                self.at(Pending::Nothing),
                Ask::Fail(MultipartError::Parse(ParseError::Header)),
            ),
            Err(err) => (
                self.at(Pending::Nothing),
                Ask::Fail(MultipartError::Parse(ParseError::of_head(err))),
            ),
        }
    }

    /// What the bytes that were asked for lead to. `None` says that the body ended
    /// without them.
    pub open spec fn arrived(self, got: Option<Seq<u8>>) -> (Walk, Ask) {
        match self.pending {
            Pending::FirstBoundary => match got {
                Some(_) => self.moved(Place::Headers).begin(),
                None => (self.at(Pending::Nothing), Ask::Fail(MultipartError::Incomplete)),
            },
            Pending::Close => if got == Some(closing()) {
                (self.moved(Place::Eof), Ask::Done)
            } else {
                (self.at(Pending::Headers), Ask::ReadUntil(blank_line()))
            },
            Pending::Headers => match got {
                Some(block) => self.after_head(head_in(block)),
                None => (self.at(Pending::Nothing), Ask::Fail(MultipartError::Incomplete)),
            },
            Pending::Skip => match got {
                Some(_) => self.moved(Place::Headers).begin(),
                None => (self.at(Pending::Nothing), Ask::Fail(MultipartError::Incomplete)),
            },
            _ => (self, Ask::Pause),
        }
    }

    /// What came of the reading leads to.
    pub open spec fn resume(self, r: Poll<Option<Bytes>, PayloadError>) -> (Walk, Ask) {
        match r {
            Ok(Async::Ready(Some(b))) => self.arrived(Some(bytes_of(b))),
            Ok(Async::Ready(None)) => self.arrived(None),
            Ok(Async::NotReady) => (self.at(Pending::Nothing), Ask::Pause),
            Err(err) => (self.at(Pending::Nothing), Ask::Fail(MultipartError::Payload(err))),
        }
    }

    /// Whether the reader waits for bytes that tell where the next part is.
    pub open spec fn waiting(self) -> bool {
        self.pending is FirstBoundary || self.pending is Close || self.pending is Headers
            || self.pending is Skip
    }
}

enum InnerState {
    EOF,
    FirstBoundary,
    Headers,
    Boundary(HeaderMap<HeaderValue>),
}

impl InnerState {
    spec fn place(&self) -> Place {
        match self {
            InnerState::EOF => Place::Eof,
            InnerState::FirstBoundary => Place::FirstBoundary,
            InnerState::Headers => Place::Headers,
            InnerState::Boundary(headers) => Place::Boundary(headers_of(*headers)),
        }
    }
}

enum InnerStep {
    Peek(usize),
    ReadUntil(Vec<u8>),
    Done,
    Item,
    Pause,
    Fail(MultipartError),
    Oversized,
}

impl InnerStep {
    spec fn ask(&self) -> Ask {
        match self {
            InnerStep::Peek(n) => Ask::Peek(*n as nat),
            InnerStep::ReadUntil(line) => Ask::ReadUntil(line@),
            InnerStep::Done => Ask::Done,
            InnerStep::Item => Ask::Item,
            InnerStep::Pause => Ask::Pause,
            InnerStep::Fail(err) => Ask::Fail(*err),
            InnerStep::Oversized => Ask::Oversized,
        }
    }
}

struct InnerMultipart<S> {
    boundary: String,
    payload: PayloadRef<S>,
    state: InnerState,
    pending: Pending,
}

impl<S> InnerMultipart<S> {
    spec fn walk(&self) -> Walk {
        Walk { boundary: self.boundary@, place: self.state.place(), pending: self.pending }
    }

    fn delimiter(&self) -> (line: Vec<u8>)
        ensures
            line@ == delimiter(self.boundary@),
    {
        let mut line: Vec<u8> = Vec::new();
        line.push(13);
        line.push(10);
        line.push(45);
        line.push(45);
        line.extend_from_slice(self.boundary.as_str().as_bytes());
        assert(line@ =~= delimiter(self.boundary@));
        line
    }

    fn begin(&mut self) -> (step: InnerStep)
        ensures
            (final(self).walk(), step.ask()) == old(self).walk().begin(),
            final(self).payload == old(self).payload,
    {
        match self.state {
            InnerState::EOF => {
                self.pending = Pending::Nothing;
                InnerStep::Done
            },
            InnerState::FirstBoundary => {
                self.pending = Pending::FirstBoundary;
                InnerStep::ReadUntil(self.delimiter())
            },
            InnerState::Headers => {
                self.pending = Pending::Close;
                InnerStep::Peek(2)
            },
            InnerState::Boundary(_) => {
                self.pending = Pending::Skip;
                InnerStep::ReadUntil(self.delimiter())
            },
        }
    }

    fn after_head(&mut self, head: Result<Option<Vec<RawHeader>>, HeadError>) -> (step: InnerStep)
        requires
            fits(head, MAX_HEADERS as nat),
        ensures
            (final(self).walk(), step.ask()) == old(self).walk().after_head(head_view(head)),
            final(self).payload == old(self).payload,
    {
        self.pending = Pending::Nothing;
        match head {
            Ok(Some(lines)) => {
                if short_names(&lines) {
                    self.state = InnerState::Boundary(collect_headers(&lines));
                    InnerStep::Item
                } else {
                    InnerStep::Oversized
                }
            },
            Ok(None) => InnerStep::Fail(MultipartError::Parse(ParseError::Header)),
            Err(err) => InnerStep::Fail(MultipartError::Parse(ParseError::from_head(err))),
        }
    }

    fn resume(&mut self, r: Poll<Option<Bytes>, PayloadError>) -> (step: InnerStep)
        requires
            old(self).walk().waiting(),
        ensures
            (final(self).walk(), step.ask()) == old(self).walk().resume(r),
            final(self).payload == old(self).payload,
    {
        let got = match r {
            Ok(Async::Ready(got)) => got,
            Ok(Async::NotReady) => {
                self.pending = Pending::Nothing;
                return InnerStep::Pause;
            },
            Err(err) => {
                self.pending = Pending::Nothing;
                return InnerStep::Fail(MultipartError::Payload(err));
            },
        };
        match self.pending {
            Pending::Close => {
                if is_closing(&got) {
                    self.state = InnerState::EOF;
                    self.pending = Pending::Nothing;
                    InnerStep::Done
                } else {
                    self.pending = Pending::Headers;
                    let line: Vec<u8> = vec![13u8, 10, 13, 10];
                    assert(line@ =~= blank_line());
                    InnerStep::ReadUntil(line)
                }
            },
            Pending::Headers => match got {
                Some(block) => {
                    let lines = after_line_break(as_slice(&block));
                    let head = parse_head(lines, MAX_HEADERS);
                    assert(head_view(head) == head_in(bytes_of(block))) by {
                        if let Ok(Some(found)) = head {
                            assert(found@.len() == 0 ==> lines_of(found@) =~= Seq::empty());
                        }
                    }
                    self.after_head(head)
                },
                None => {
                    self.pending = Pending::Nothing;
                    InnerStep::Fail(MultipartError::Incomplete)
                },
            },
            _ => match got {
                Some(_) => {
                    self.state = InnerState::Headers;
                    self.begin()
                },
                None => {
                    self.pending = Pending::Nothing;
                    InnerStep::Fail(MultipartError::Incomplete)
                },
            },
        }
    }
}

fn after_line_break(block: &[u8]) -> (lines: &[u8])
    ensures
        lines@ == below_delimiter(block@),
{
    if block.len() >= 2 && block[0] == 13 && block[1] == 10 {
        let lines = slice_subrange(block, 2, block.len());
        assert(lines@ =~= block@.skip(2));
        lines
    } else {
        block
    }
}

fn is_closing(got: &Option<Bytes>) -> (r: bool)
    ensures
        r == (got matches Some(b) && bytes_of(*b) == closing()),
{
    match got {
        Some(b) => {
            let s = as_slice(b);
            let r: bool = s.len() == 2 && s[0] == 45 && s[1] == 45;
            assert(r ==> s@ =~= closing());
            r
        },
        None => false,
    }
}

fn short_names(lines: &Vec<RawHeader>) -> (r: bool)
    ensures
        r == names_fit(lines_of(lines@)),
{
    let mut i: usize = 0;
    while i < lines.len()
        invariant
            i <= lines@.len(),
            forall|k: int|
                0 <= k < i ==> (#[trigger] lines_of(lines@)[k]).0.len() <= MAX_NAME_LEN,
        decreases lines@.len() - i,
    {
        if lines[i].name.len() > MAX_NAME_LEN {
            assert(lines_of(lines@)[i as int].0.len() > MAX_NAME_LEN);
            return false;
        }
        i = i + 1;
    }
    true
}

/// The name of the header that says what a body is.
pub open spec fn content_type() -> Seq<u8> {
    encode_utf8("content-type"@)
}

/// The boundary that the headers of a request give, or why they give none.
pub open spec fn boundary_of(headers: Map<Seq<u8>, Seq<Seq<u8>>>) -> Result<
    Seq<char>,
    MultipartError,
> {
    let values = values_in(headers, content_type());
    if values.len() == 0 {
        Err(MultipartError::NoContentType)
    } else if !is_visible(values[0]) {
        Err(MultipartError::ParseContentType)
    } else {
        match media_type(ascii_text(values[0])) {
            None => Err(MultipartError::ParseContentType),
            Some(params) => match first_param(params, "boundary"@) {
                None => Err(MultipartError::MissingBoundary),
                Some(text) => Ok(text),
            },
        }
    }
}

proof fn lemma_content_type_is_name()
    ensures
        content_type().len() <= MAX_NAME_LEN,
        is_name(content_type()),
        in_lower_case(content_type()) == content_type(),
{
    let text = "content-type"@;
    reveal_strlit("content-type");
    vstd::utf8::is_ascii_chars_encode_utf8(text);
    assert(in_lower_case(content_type()) =~= content_type());
}

impl Multipart<(), ()> {
    /// Extracts the boundary from the headers of a request.
    pub fn boundary(headers: &HeaderMap<HeaderValue>) -> (r: Result<String, MultipartError>)
        ensures
            match boundary_of(headers_of(*headers)) {
                Ok(text) => r matches Ok(s) && s@ == text,
                Err(err) => r == Err::<String, MultipartError>(err),
            },
    {
        proof {
            lemma_content_type_is_name();
        }
        let name = match HeaderName::from_bytes("content-type".as_bytes()) {
            Ok(name) => name,
            Err(_) => return Err(MultipartError::NoContentType),
        };
        let value = match get_header(headers, &name) {
            Some(value) => value,
            None => return Err(MultipartError::NoContentType),
        };
        let text = match value.to_str() {
            Ok(text) => text,
            Err(_) => return Err(MultipartError::ParseContentType),
        };
        match parse_mime(text) {
            Ok(mime) => boundary_param(&mime),
            Err(_) => Err(MultipartError::ParseContentType),
        }
    }
}

/// The server-side walk of a `multipart/form-data` body.
///
/// `S` is the body, from which whoever drives the walk reads. `T` is a task that can
/// be woken.
pub struct Multipart<S, T> {
    safety: Safety<T>,
    holders: Holders,
    error: Option<MultipartError>,
    inner: Option<InnerMultipart<S>>,
}

/// A part of a body.
pub enum MultipartItem<S, T> {
    Field(Field<T>),
    Nested(Multipart<S, T>),
}

/// A part that is data.
///
/// While there is a field, the body is read through it, and the walk of the body
/// waits.
#[derive(Debug)]
pub struct Field<T> {
    safety: Safety<T>,
    done: bool,
}

/// A body as its contracts speak of it.
pub struct Reading<S> {
    /// What the first poll is answered with, if the body cannot be walked at all.
    pub error: Option<MultipartError>,
    /// How many can claim the body: the walk, and a field on top of it.
    pub holders: nat,
    /// The walk and the body.
    pub inner: Option<(Walk, S)>,
}

impl<S> Reading<S> {
    /// Whether no field is on top of the walk.
    pub open spec fn current(self) -> bool {
        self.holders == 1
    }

    /// The walk, moved on to `walk`.
    pub open spec fn walked(self, walk: Walk) -> Reading<S> {
        Reading { inner: Some((walk, (self.inner->0).1)), ..self }
    }
}

/// What is to be done next.
pub enum Step<S, T> {
    /// Look at the next bytes of the body, and leave them in it. Where the body ends
    /// before as many, `None` is what came of it.
    Peek(usize),
    /// Take the bytes of the body up to and with the first occurrence of these. Where
    /// the body ends before one, `None` is what came of it.
    ReadUntil(Vec<u8>),
    /// Nothing: this is the answer to the poll.
    Return(Poll<Option<MultipartItem<S, T>>, MultipartError>),
    /// Nothing can be done: a header has a name that is too long to be looked at.
    Oversized,
}

/// Whether `step` asks for, or says, what `ask` does. `level` is the claim of a field
/// that is handed out, and `task` the task that is woken when it is given up.
pub open spec fn says<S, T>(step: Step<S, T>, ask: Ask, level: nat, task: Option<T>) -> bool {
    match ask {
        Ask::Peek(n) => step matches Step::Peek(k) && k == n,
        Ask::ReadUntil(line) => step matches Step::ReadUntil(v) && v@ == line,
        Ask::Done => step matches Step::Return(Ok(Async::Ready(None))),
        Ask::Item => step matches Step::Return(Ok(Async::Ready(Some(MultipartItem::Field(field)))))
            && field.level() == level && field.task() == task && !field.done(),
        Ask::Pause => step matches Step::Return(Ok(Async::NotReady)),
        Ask::Fail(err) => step == Step::<S, T>::Return(Err(err)),
        Ask::Oversized => step is Oversized,
    }
}

impl<T> Field<T> {
    /// The place of the claim of this field.
    pub closed spec fn level(&self) -> nat {
        self.safety.level()
    }

    /// The task that is woken when this field is given up.
    pub closed spec fn task(&self) -> Option<T> {
        self.safety.task()
    }

    /// Whether all data of the field was handed out.
    pub closed spec fn done(&self) -> bool {
        self.done
    }
}

impl<S, T> View for Multipart<S, T> {
    type V = Reading<S>;

    closed spec fn view(&self) -> Reading<S> {
        Reading {
            error: self.error,
            holders: self.holders@,
            inner: match self.inner {
                Some(inner) => Some((inner.walk(), inner.payload@)),
                None => None,
            },
        }
    }
}

impl<S, T> Multipart<S, T> {
    /// Whether the walk holds the first claim on its body.
    pub closed spec fn wf(&self) -> bool {
        self.safety.level() == 1 && self.safety.task() is None && self.holders@ >= 1
    }

    /// Walks `stream`, whose parts `boundary` separates. An error in its place is what
    /// the first poll is answered with.
    pub fn new(boundary: Result<String, MultipartError>, stream: S) -> (body: Multipart<S, T>)
        ensures
            body.wf(),
            body@.current(),
            match boundary {
                Ok(text) => body@.error is None && body@.inner == Some(
                    (
                        Walk {
                            boundary: text@,
                            place: Place::FirstBoundary,
                            pending: Pending::Nothing,
                        },
                        stream,
                    ),
                ),
                Err(err) => body@.error == Some(err) && body@.inner is None,
            },
    {
        let (safety, holders) = Safety::new();
        match boundary {
            Ok(boundary) => Multipart {
                error: None,
                safety,
                holders,
                inner: Some(
                    InnerMultipart {
                        boundary,
                        payload: PayloadRef::new(stream),
                        state: InnerState::FirstBoundary,
                        pending: Pending::Nothing,
                    },
                ),
            },
            Err(err) => Multipart { error: Some(err), safety, holders, inner: None },
        }
    }

    /// Starts a poll for the next part. A poll that is answered with an error once
    /// may not be repeated where there is nothing to walk.
    pub fn poll(&mut self) -> (step: Step<S, T>)
        requires
            old(self).wf(),
            old(self)@.error is Some || old(self)@.inner is Some || !old(self)@.current(),
        ensures
            final(self).wf(),
            match old(self)@.error {
                Some(err) => step == Step::<S, T>::Return(Err(err)) && final(self)@ == (Reading {
                    error: None,
                    ..old(self)@
                }),
                None => if old(self)@.current() {
                    let (walk, ask) = (old(self)@.inner->0).0.begin();
                    says(step, ask, 0, None) && final(self)@ == old(self)@.walked(walk)
                } else {
                    step matches Step::Return(Ok(Async::NotReady)) && final(self)@ == old(self)@
                },
            },
    {
        if let Some(err) = self.error.take() {
            Step::Return(Err(err))
        } else if self.safety.current(&self.holders) {
            match self.inner.as_mut() {
                Some(inner) => match inner.begin() {
                    InnerStep::Peek(n) => Step::Peek(n),
                    InnerStep::ReadUntil(line) => Step::ReadUntil(line),
                    InnerStep::Fail(err) => Step::Return(Err(err)),
                    InnerStep::Pause => Step::Return(Ok(Async::NotReady)),
                    _ => Step::Return(Ok(Async::Ready(None))),
                },
                None => Step::Return(Ok(Async::Ready(None))),
            }
        } else {
            Step::Return(Ok(Async::NotReady))
        }
    }

    fn hand_out(&mut self, step: InnerStep, task: T) -> (r: Step<S, T>)
        requires
            old(self).wf(),
            old(self)@.current(),
        ensures
            final(self).wf(),
            says(r, step.ask(), 2, Some(task)),
            final(self)@ == (Reading {
                holders: if step.ask() is Item {
                    2
                } else {
                    1
                },
                ..old(self)@
            }),
    {
        match step {
            InnerStep::Peek(n) => Step::Peek(n),
            InnerStep::ReadUntil(line) => Step::ReadUntil(line),
            InnerStep::Done => Step::Return(Ok(Async::Ready(None))),
            InnerStep::Item => {
                let safety = self.safety.clone_for(&mut self.holders, task);
                let field = Field { safety, done: false };
                Step::Return(Ok(Async::Ready(Some(MultipartItem::Field(field)))))
            },
            InnerStep::Pause => Step::Return(Ok(Async::NotReady)),
            InnerStep::Fail(err) => Step::Return(Err(err)),
            InnerStep::Oversized => Step::Oversized,
        }
    }

    /// Takes what came of the reading that the last step asked for. `task` is the one
    /// that polls: it is woken when the field that is handed out, if one is, is given
    /// up.
    pub fn resume(&mut self, r: Poll<Option<Bytes>, PayloadError>, task: T) -> (step: Step<S, T>)
        requires
            old(self).wf(),
            old(self)@.current(),
            old(self)@.inner is Some,
            (old(self)@.inner->0).0.waiting(),
        ensures
            final(self).wf(),
            ({
                let (walk, ask) = (old(self)@.inner->0).0.resume(r);
                &&& says(step, ask, 2, Some(task))
                &&& final(self)@ == (Reading {
                    holders: if ask is Item {
                        2
                    } else {
                        1
                    },
                    ..old(self)@.walked(walk)
                })
            }),
    {
        let step = match self.inner.as_mut() {
            Some(inner) => inner.resume(r),
            None => InnerStep::Pause,
        };
        self.hand_out(step, task)
    }

    /// Takes what came of parsing the header block of a part.
    pub fn resume_head(
        &mut self,
        head: Result<Option<Vec<RawHeader>>, HeadError>,
        task: T,
    ) -> (step: Step<S, T>)
        requires
            old(self).wf(),
            old(self)@.current(),
            old(self)@.inner is Some,
            fits(head, MAX_HEADERS as nat),
        ensures
            final(self).wf(),
            ({
                let (walk, ask) = (old(self)@.inner->0).0.after_head(head_view(head));
                &&& says(step, ask, 2, Some(task))
                &&& final(self)@ == (Reading {
                    holders: if ask is Item {
                        2
                    } else {
                        1
                    },
                    ..old(self)@.walked(walk)
                })
            }),
    {
        let step = match self.inner.as_mut() {
            Some(inner) => inner.after_head(head),
            None => InnerStep::Pause,
        };
        self.hand_out(step, task)
    }

    /// The body, unless a field is on top of the walk.
    pub fn payload(&mut self) -> (r: Option<&mut S>)
        requires
            old(self).wf(),
        ensures
            final(self).wf(),
            match r {
                Some(payload) => old(self)@.current() && old(self)@.inner is Some && *payload == (
                old(self)@.inner->0).1 && final(self)@ == (Reading {
                    inner: Some(((old(self)@.inner->0).0, *final(payload))),
                    ..old(self)@
                }),
                None => (!old(self)@.current() || old(self)@.inner is None) && final(self)@
                    == old(self)@,
            },
    {
        match self.inner.as_mut() {
            Some(inner) => inner.payload.get_mut(&self.safety, &self.holders),
            None => None,
        }
    }

    /// The headers of the part whose data comes next, if one is there.
    pub fn headers(&self) -> (r: Option<&HeaderMap<HeaderValue>>)
        ensures
            match r {
                Some(headers) => self@.inner matches Some(inner) && inner.0.place
                    == Place::Boundary(headers_of(*headers)),
                None => self@.inner matches Some(inner) ==> !(inner.0.place is Boundary),
            },
    {
        match &self.inner {
            Some(inner) => match &inner.state {
                InnerState::Boundary(headers) => Some(headers),
                _ => None,
            },
            None => None,
        }
    }

    /// Gives a field up, whether or not its data was read, and says which task is to
    /// be woken for it.
    pub fn release(&mut self, field: Field<T>) -> (task: Option<T>)
        requires
            old(self).wf(),
            field.level() == old(self)@.holders,
            old(self)@.holders > 1,
        ensures
            final(self).wf(),
            task == field.task(),
            final(self)@ == (Reading {
                holders: (old(self)@.holders - 1) as nat,
                ..old(self)@
            }),
    {
        field.safety.release(&mut self.holders)
    }
}

/// What is to be done next to read a field.
pub enum FieldStep {
    /// As [`Step::ReadUntil`].
    ReadUntil(Vec<u8>),
    /// Nothing: this is the answer to the poll. `Ready(None)` says that all data was
    /// handed out.
    Return(Poll<Option<Bytes>, MultipartError>),
}

/// What a field asks for, or says.
pub enum FieldAsk {
    /// As [`Ask::ReadUntil`].
    ReadUntil(Seq<u8>),
    /// The data of the field.
    Data(Seq<u8>),
    /// All data was handed out.
    Done,
    /// Nothing more for now.
    Pause,
    /// The field cannot be read.
    Fail(MultipartError),
}

/// Whether `step` asks for, or says, what `ask` does.
pub open spec fn field_says(step: FieldStep, ask: FieldAsk) -> bool {
    match ask {
        FieldAsk::ReadUntil(line) => step matches FieldStep::ReadUntil(v) && v@ == line,
        FieldAsk::Data(data) => step matches FieldStep::Return(Ok(Async::Ready(Some(b))))
            && bytes_of(b) == data,
        FieldAsk::Done => step matches FieldStep::Return(Ok(Async::Ready(None))),
        FieldAsk::Pause => step matches FieldStep::Return(Ok(Async::NotReady)),
        FieldAsk::Fail(err) => step == FieldStep::Return(Err(err)),
    }
}

/// What is in front of the delimiter that ends `got`.
pub open spec fn before_delimiter(got: Seq<u8>, boundary: Seq<char>) -> Seq<u8> {
    let n = delimiter(boundary).len();
    if got.len() >= n {
        got.take(got.len() - n)
    } else {
        Seq::empty()
    }
}

impl Walk {
    /// The start of a poll of the field that is current, of which all data was handed
    /// out or not (`done`): the field, the walk under it, and what it asks for.
    pub open spec fn begin_field(self, done: bool) -> (bool, Walk, FieldAsk) {
        match self.place {
            Place::Boundary(_) if !done => (
                false,
                self.at(Pending::Data),
                FieldAsk::ReadUntil(delimiter(self.boundary)),
            ),
            _ => (true, self, FieldAsk::Done),
        }
    }

    /// What the data of a field that arrived leads to.
    pub open spec fn field_arrived(self, got: Option<Seq<u8>>) -> (bool, Walk, FieldAsk) {
        match got {
            Some(got) => {
                let data = before_delimiter(got, self.boundary);
                (
                    true,
                    self.moved(Place::Headers),
                    if data.len() == 0 {
                        FieldAsk::Done
                    } else {
                        FieldAsk::Data(data)
                    },
                )
            },
            None => (
                false,
                self.at(Pending::Nothing),
                FieldAsk::Fail(MultipartError::Incomplete),
            ),
        }
    }

    /// What came of the reading for a field leads to.
    pub open spec fn resume_field(self, r: Poll<Option<Bytes>, PayloadError>) -> (
        bool,
        Walk,
        FieldAsk,
    ) {
        match r {
            Ok(Async::Ready(Some(b))) => self.field_arrived(Some(bytes_of(b))),
            Ok(Async::Ready(None)) => self.field_arrived(None),
            Ok(Async::NotReady) => (false, self.at(Pending::Nothing), FieldAsk::Pause),
            Err(err) => (
                false,
                self.at(Pending::Nothing),
                FieldAsk::Fail(MultipartError::Payload(err)),
            ),
        }
    }
}

impl<T> Field<T> {
    /// Starts a poll for the data of the field.
    pub fn poll<S>(&mut self, body: &mut Multipart<S, T>) -> (step: FieldStep)
        requires
            old(body).wf(),
            old(body)@.inner is Some,
        ensures
            final(body).wf(),
            final(self).level() == old(self).level(),
            final(self).task() == old(self).task(),
            if old(self).level() == old(body)@.holders {
                let (done, walk, ask) = (old(body)@.inner->0).0.begin_field(old(self).done());
                &&& field_says(step, ask)
                &&& final(self).done() == done
                &&& final(body)@ == old(body)@.walked(walk)
            } else {
                &&& field_says(
                    step,
                    if old(self).done() {
                        FieldAsk::Done
                    } else {
                        FieldAsk::Pause
                    },
                )
                &&& final(self).done() == old(self).done()
                &&& final(body)@ == old(body)@
            },
    {
        if self.done {
            return FieldStep::Return(Ok(Async::Ready(None)));
        }
        if !self.safety.current(&body.holders) {
            return FieldStep::Return(Ok(Async::NotReady));
        }
        match body.inner.as_mut() {
            Some(inner) => match inner.state {
                InnerState::Boundary(_) => {
                    inner.pending = Pending::Data;
                    FieldStep::ReadUntil(inner.delimiter())
                },
                _ => {
                    self.done = true;
                    FieldStep::Return(Ok(Async::Ready(None)))
                },
            },
            None => FieldStep::Return(Ok(Async::Ready(None))),
        }
    }

    /// Takes what came of the reading that [`Field::poll`] asked for.
    pub fn resume<S>(
        &mut self,
        body: &mut Multipart<S, T>,
        r: Poll<Option<Bytes>, PayloadError>,
    ) -> (step: FieldStep)
        requires
            old(body).wf(),
            old(body)@.inner is Some,
            (old(body)@.inner->0).0.pending is Data,
            !old(self).done(),
        ensures
            final(body).wf(),
            final(self).level() == old(self).level(),
            final(self).task() == old(self).task(),
            ({
                let (done, walk, ask) = (old(body)@.inner->0).0.resume_field(r);
                &&& field_says(step, ask)
                &&& final(self).done() == done
                &&& final(body)@ == old(body)@.walked(walk)
            }),
    {
        let inner = match body.inner.as_mut() {
            Some(inner) => inner,
            None => return FieldStep::Return(Ok(Async::Ready(None))),
        };
        inner.pending = Pending::Nothing;
        match r {
            Ok(Async::Ready(Some(mut got))) => {
                let have: usize = got.len();
                let end: usize = inner.delimiter().len();
                inner.state = InnerState::Headers;
                self.done = true;
                if have > end {
                    FieldStep::Return(Ok(Async::Ready(Some(got.split_to(have - end)))))
                } else {
                    FieldStep::Return(Ok(Async::Ready(None)))
                }
            },
            Ok(Async::Ready(None)) => FieldStep::Return(Err(MultipartError::Incomplete)),
            Ok(Async::NotReady) => FieldStep::Return(Ok(Async::NotReady)),
            Err(err) => FieldStep::Return(Err(MultipartError::Payload(err))),
        }
    }

    /// The body, if this field is on top of its walk.
    pub fn payload<'a, S>(&self, body: &'a mut Multipart<S, T>) -> (r: Option<&'a mut S>)
        requires
            old(body).wf(),
        ensures
            final(body).wf(),
            match r {
                Some(payload) => self.level() == old(body)@.holders && old(body)@.inner is Some
                    && *payload == (old(body)@.inner->0).1 && final(body)@ == (Reading {
                    inner: Some(((old(body)@.inner->0).0, *final(payload))),
                    ..old(body)@
                }),
                None => (self.level() != old(body)@.holders || old(body)@.inner is None)
                    && final(body)@ == old(body)@,
            },
    {
        match body.inner.as_mut() {
            Some(inner) => inner.payload.get_mut(&self.safety, &body.holders),
            None => None,
        }
    }
}

} // verus!
