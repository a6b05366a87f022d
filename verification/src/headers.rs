//! What the crate states about the header types of the `http` crate, about media
//! types of the `mime` crate, and about the header parser of the `httparse` crate.

use http::header::{
    HeaderMap, HeaderName, HeaderValue, InvalidHeaderName, InvalidHeaderValue, ToStrError,
};
use mime::Mime;
use vstd::prelude::*;

use crate::error::HeadError;

verus! {

/// Lets `http::HeaderName` stand in signatures; its text is named by [`name_of`].
#[verifier::external_type_specification]
#[verifier::external_body]
pub struct ExHeaderName(HeaderName);

/// Lets `http::header::InvalidHeaderName` stand in signatures.
#[verifier::external_type_specification]
#[verifier::external_body]
pub struct ExInvalidHeaderName(InvalidHeaderName);

/// Lets `http::HeaderValue` stand in signatures; its bytes are named by
/// [`value_of`].
#[verifier::external_type_specification]
#[verifier::external_body]
pub struct ExHeaderValue(HeaderValue);

/// Lets `http::header::InvalidHeaderValue` stand in signatures.
#[verifier::external_type_specification]
#[verifier::external_body]
pub struct ExInvalidHeaderValue(InvalidHeaderValue);

/// Lets `http::header::ToStrError` stand in signatures.
#[verifier::external_type_specification]
#[verifier::external_body]
pub struct ExToStrError(ToStrError);

/// Lets `http::HeaderMap` stand in signatures and fields; what it holds is named by
/// [`headers_of`].
#[verifier::external_type_specification]
#[verifier::external_body]
#[verifier::reject_recursive_types(T)]
pub struct ExHeaderMap<T>(HeaderMap<T>);

/// Lets `mime::Mime` stand in signatures; its parameters are named by
/// [`params_of`].
#[verifier::external_type_specification]
#[verifier::external_body]
pub struct ExMime(Mime);

/// Lets `mime::FromStrError` stand in signatures.
#[verifier::external_type_specification]
#[verifier::external_body]
pub struct ExMimeFromStrError(mime::FromStrError);

/// The text of a header name, in lower case.
pub uninterp spec fn name_of(name: HeaderName) -> Seq<u8>;

/// The bytes of a header value.
pub uninterp spec fn value_of(value: HeaderValue) -> Seq<u8>;

/// The values of each header name in a map, in the order in which they were added.
pub uninterp spec fn headers_of(map: HeaderMap<HeaderValue>) -> Map<Seq<u8>, Seq<Seq<u8>>>;

/// The parameters of a media type, in order: name and value.
pub uninterp spec fn params_of(mime: Mime) -> Seq<(Seq<char>, Seq<char>)>;

/// The parameters of the media type that `text` spells, `None` where it spells none.
pub uninterp spec fn media_type(text: Seq<char>) -> Option<Seq<(Seq<char>, Seq<char>)>>;

/// The headers that `httparse` finds in `block` when it has room for `max` of them:
/// name and value. `None` says that the block goes on.
pub uninterp spec fn head_of(block: Seq<u8>, max: nat) -> Result<
    Option<Seq<(Seq<u8>, Seq<u8>)>>,
    HeadError,
>;

/// Whether a header name can hold the byte.
pub open spec fn is_name_byte(b: u8) -> bool {
    ||| 33 <= b <= 39
    ||| b == 42 || b == 43 || b == 45 || b == 46
    ||| 48 <= b <= 57
    ||| 65 <= b <= 90
    ||| 94 <= b <= 122
    ||| b == 124 || b == 126
}

/// Whether the bytes spell a header name.
pub open spec fn is_name(text: Seq<u8>) -> bool {
    text.len() > 0 && forall|i: int| 0 <= i < text.len() ==> is_name_byte(#[trigger] text[i])
}

/// The bytes with `A` to `Z` in lower case.
pub open spec fn in_lower_case(text: Seq<u8>) -> Seq<u8> {
    text.map_values(
        |b: u8|
            if 65 <= b <= 90 {
                (b + 32) as u8
            } else {
                b
            },
    )
}

/// Whether the bytes can be a header value: no control characters but the tab.
pub open spec fn is_value(bytes: Seq<u8>) -> bool {
    forall|i: int|
        0 <= i < bytes.len() ==> 32 <= #[trigger] bytes[i] && bytes[i] != 127 || bytes[i] == 9
}

/// Whether the bytes are visible ASCII characters, blanks and tabs.
pub open spec fn is_visible(bytes: Seq<u8>) -> bool {
    forall|i: int| 0 <= i < bytes.len() ==> 32 <= #[trigger] bytes[i] < 127 || bytes[i] == 9
}

/// The characters of ASCII bytes.
pub open spec fn ascii_text(bytes: Seq<u8>) -> Seq<char> {
    bytes.map_values(|b: u8| b as char)
}

/// The longest header name that can be looked at: a longer one makes
/// `HeaderName::from_bytes` panic.
pub const MAX_NAME_LEN: usize = 65535;

/// The most header names that a map holds: one more makes `HeaderMap::append` panic.
pub const MAX_NAMES: usize = 32768;

/// No headers at all.
pub open spec fn no_headers() -> Map<Seq<u8>, Seq<Seq<u8>>> {
    Map::empty()
}

/// The values of `name`, none where the map does not have it.
pub open spec fn values_in(map: Map<Seq<u8>, Seq<Seq<u8>>>, name: Seq<u8>) -> Seq<Seq<u8>> {
    if map.contains_key(name) {
        map[name]
    } else {
        Seq::empty()
    }
}

/// The first parameter called `name`.
pub open spec fn first_param(params: Seq<(Seq<char>, Seq<char>)>, name: Seq<char>) -> Option<
    Seq<char>,
>
    decreases params.len(),
{
    if params.len() == 0 {
        None
    } else if params[0].0 == name {
        Some(params[0].1)
    } else {
        first_param(params.skip(1), name)
    }
}

/// `http::HeaderName::from_bytes`: takes exactly the texts of [`is_name`], and puts
/// them in lower case. It panics on a text longer than [`MAX_NAME_LEN`].
pub assume_specification[ HeaderName::from_bytes ](src: &[u8]) -> (r: Result<
    HeaderName,
    InvalidHeaderName,
>)
    requires
        src@.len() <= MAX_NAME_LEN,
    ensures
        r is Ok <==> is_name(src@),
        r matches Ok(name) ==> name_of(name) == in_lower_case(src@),
;

/// `http::HeaderValue::from_bytes`: takes exactly the bytes of [`is_value`], as they
/// are.
pub assume_specification[ HeaderValue::from_bytes ](src: &[u8]) -> (r: Result<
    HeaderValue,
    InvalidHeaderValue,
>)
    ensures
        r is Ok <==> is_value(src@),
        r matches Ok(value) ==> value_of(value) == src@,
;

/// `http::HeaderValue::to_str`: the value as text, exactly where all of it is
/// visible ASCII.
pub assume_specification[ HeaderValue::to_str ](value: &HeaderValue) -> (r: Result<
    &str,
    ToStrError,
>)
    ensures
        r is Ok <==> is_visible(value_of(*value)),
        r matches Ok(text) ==> text@ == ascii_text(value_of(*value)),
;

/// `http::HeaderMap::new`: a map without headers.
pub assume_specification[ HeaderMap::<HeaderValue>::new ]() -> (map: HeaderMap<HeaderValue>)
    ensures
        headers_of(map) == no_headers(),
;

/// `http::HeaderMap::append`: the value becomes the last one of its name, and
/// everything else stays. It panics where the map is full.
#[verifier::external_body]
pub(crate) fn append_header(map: &mut HeaderMap<HeaderValue>, name: HeaderName, value: HeaderValue)
    requires
        headers_of(*old(map)).dom().finite(),
        headers_of(*old(map)).dom().len() < MAX_NAMES,
    ensures
        headers_of(*final(map)) == headers_of(*old(map)).insert(
            name_of(name),
            values_in(headers_of(*old(map)), name_of(name)).push(value_of(value)),
        ),
{
    map.append(name, value);
}

/// `http::HeaderMap::get`: the first value of a name, if the map has it.
#[verifier::external_body]
pub(crate) fn get_header<'a>(map: &'a HeaderMap<HeaderValue>, name: &HeaderName) -> (r: Option<
    &'a HeaderValue,
>)
    ensures
        match r {
            Some(value) => values_in(headers_of(*map), name_of(*name)).len() > 0 && value_of(*value)
                == values_in(headers_of(*map), name_of(*name))[0],
            None => !headers_of(*map).contains_key(name_of(*name)),
        },
{
    map.get(name)
}

/// `<mime::Mime as FromStr>::from_str`: the media type that a text spells. Which
/// texts spell one, and with which parameters, is what [`media_type`] names.
#[verifier::external_body]
pub(crate) fn parse_mime(text: &str) -> (r: Result<Mime, mime::FromStrError>)
    ensures
        match r {
            Ok(mime) => media_type(text@) == Some(params_of(mime)),
            Err(_) => media_type(text@) is None,
        },
{
    text.parse::<Mime>()
}

/// `mime::Mime::get_param` for `mime::BOUNDARY`: the first parameter called
/// `boundary`.
#[verifier::external_body]
pub(crate) fn get_boundary<'a>(mime: &'a Mime) -> (r: Option<&'a str>)
    ensures
        match r {
            Some(text) => first_param(params_of(*mime), "boundary"@) == Some(text@),
            None => first_param(params_of(*mime), "boundary"@) is None,
        },
{
    mime.get_param(mime::BOUNDARY).map(|value| value.as_str())
}

/// A header line as it was found.
#[derive(Clone, Debug)]
pub struct RawHeader {
    pub name: Vec<u8>,
    pub value: Vec<u8>,
}

/// The names and values of header lines.
pub open spec fn lines_of(headers: Seq<RawHeader>) -> Seq<(Seq<u8>, Seq<u8>)> {
    headers.map_values(|h: RawHeader| (h.name@, h.value@))
}

/// What a parsed block holds, as [`head_of`] has it.
pub open spec fn head_view(r: Result<Option<Vec<RawHeader>>, HeadError>) -> Result<
    Option<Seq<(Seq<u8>, Seq<u8>)>>,
    HeadError,
> {
    match r {
        Ok(Some(headers)) => Ok(Some(lines_of(headers@))),
        Ok(None) => Ok(None),
        Err(err) => Err(err),
    }
}

/// Whether no more than `max` lines were found.
pub open spec fn fits(r: Result<Option<Vec<RawHeader>>, HeadError>, max: nat) -> bool {
    r matches Ok(Some(headers)) ==> headers@.len() <= max
}

/// Whether a block was parsed to its end and no line was found in it.
pub open spec fn has_no_lines(r: Result<Option<Vec<RawHeader>>, HeadError>) -> bool {
    r matches Ok(Some(headers)) && headers@.len() == 0
}

/// Whether the first line of a block is empty.
pub open spec fn begins_empty(block: Seq<u8>) -> bool {
    block.len() >= 2 && block[0] == 13 && block[1] == 10
}

/// `httparse::parse_headers`, with room for `max` headers; the room is allocated, so
/// that it has to be small. What it finds is what [`head_of`] names. It finds no more
/// headers than there is room for, and a block that begins with an empty line has
/// none.
#[verifier::external_body]
pub(crate) fn parse_head(block: &[u8], max: usize) -> (r: Result<
    Option<Vec<RawHeader>>,
    HeadError,
>)
    requires
        max <= 4096,
    ensures
        head_view(r) == head_of(block@, max as nat),
        fits(r, max as nat),
        begins_empty(block@) ==> has_no_lines(r),
{
    let mut room = vec![httparse::EMPTY_HEADER; max];
    match httparse::parse_headers(block, &mut room) {
        Ok(httparse::Status::Complete((_, lines))) => Ok(Some(lines.iter().map(
            |h| RawHeader { name: h.name.as_bytes().to_vec(), value: h.value.to_vec() }).collect())),
        Ok(httparse::Status::Partial) => Ok(None),
        Err(err) => Err(match err {
            httparse::Error::HeaderName => HeadError::BadName,
            httparse::Error::HeaderValue => HeadError::BadValue,
            httparse::Error::NewLine => HeadError::BadNewLine,
            httparse::Error::Status => HeadError::BadStatus,
            httparse::Error::Token => HeadError::BadToken,
            httparse::Error::TooManyHeaders => HeadError::TooManyHeaders,
            httparse::Error::Version => HeadError::BadVersion,
        }),
    }
}

} // verus!
