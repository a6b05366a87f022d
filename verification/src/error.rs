//! What can go wrong.

use vstd::prelude::*;

verus! {

/// A request body could not be read.
#[derive(Clone, Debug)]
pub enum PayloadError {
    /// The body ended too early.
    Incomplete,
    /// The body does not decode.
    EncodingCorrupted,
    /// The body is larger than allowed.
    Overflow,
    /// The length of the body is not known.
    UnknownLength,
    /// The stream under the connection failed, as its error says.
    Io(String),
    /// The HTTP/2 stream failed, as its error says.
    Http2(String),
}

/// Why a block of header lines does not parse.
#[derive(Clone, Copy, Debug, PartialEq, Eq, Structural)]
pub enum HeadError {
    /// A byte that no header name can hold.
    BadName,
    /// A byte that no header value can hold.
    BadValue,
    /// A byte that does not belong in a line break.
    BadNewLine,
    /// A byte that does not belong in a response status.
    BadStatus,
    /// A byte that does not belong in a token.
    BadToken,
    /// More headers than there was room for.
    TooManyHeaders,
    /// A byte that does not belong in an HTTP version.
    BadVersion,
}

/// A message could not be parsed.
#[derive(Clone, Copy, Debug, PartialEq, Eq, Structural)]
pub enum ParseError {
    /// The HTTP version is not valid.
    Version,
    /// A header is not valid.
    Header,
    /// The message is larger than allowed.
    TooLarge,
    /// The status is not valid.
    Status,
}

impl ParseError {
    /// What the failure of a header block means for the message.
    pub open spec fn of_head(err: HeadError) -> ParseError {
        match err {
            HeadError::BadName | HeadError::BadValue | HeadError::BadNewLine
            | HeadError::BadToken => ParseError::Header,
            HeadError::BadStatus => ParseError::Status,
            HeadError::TooManyHeaders => ParseError::TooLarge,
            HeadError::BadVersion => ParseError::Version,
        }
    }

    /// What the failure of a header block means for the message.
    pub fn from_head(err: HeadError) -> (r: ParseError)
        ensures
            r == ParseError::of_head(err),
    {
        match err {
            HeadError::BadName | HeadError::BadValue | HeadError::BadNewLine
            | HeadError::BadToken => ParseError::Header,
            HeadError::BadStatus => ParseError::Status,
            HeadError::TooManyHeaders => ParseError::TooLarge,
            HeadError::BadVersion => ParseError::Version,
        }
    }
}

/// Each failure of a header block has one meaning for the message.
pub proof fn law_head_errors_keep_their_meaning(err: HeadError)
    ensures
        ParseError::of_head(err) is TooLarge <==> err is TooManyHeaders,
        ParseError::of_head(err) is Status <==> err is BadStatus,
        ParseError::of_head(err) is Version <==> err is BadVersion,
        ParseError::of_head(err) is Header <==> err is BadName || err is BadValue
            || err is BadNewLine || err is BadToken,
{
}

/// A multipart body could not be walked.
#[derive(Clone, Debug)]
pub enum MultipartError {
    /// The request has no content type.
    NoContentType,
    /// The content type does not parse.
    ParseContentType,
    /// The content type has no boundary.
    MissingBoundary,
    /// The body ended before its last boundary.
    Incomplete,
    /// The headers of a part do not parse.
    Parse(ParseError),
    /// The body could not be read.
    Payload(PayloadError),
}

/// A connection has to be given up.
#[derive(Clone, Debug)]
pub enum HttpDispatchError {
    /// The HTTP/2 connection failed, as its error says.
    Http2(String),
    /// The connection was idle, or shutting down, for too long.
    ShutdownTimeout,
    /// The timer of the connection failed.
    Unknown,
}

} // verus!
