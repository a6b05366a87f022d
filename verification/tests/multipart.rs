use bytes::Bytes;
use http::header::{HeaderMap, HeaderValue, CONTENT_TYPE};
use web_transport::error::{HeadError, MultipartError, ParseError, PayloadError};
use web_transport::headers::RawHeader;
use web_transport::multipart::{
    boundary_param, collect_headers, Field, FieldStep, Multipart, MultipartItem, Step, MAX_HEADERS,
};
use web_transport::task::{Async, Poll};

/// A body of which all, or only the beginning, has arrived.
struct Body {
    bytes: Vec<u8>,
    complete: bool,
    failure: Option<PayloadError>,
}

impl Body {
    fn peek(&mut self, n: usize) -> Poll<Option<Bytes>, PayloadError> {
        if let Some(err) = self.failure.take() {
            return Err(err);
        }
        if self.bytes.len() >= n {
            Ok(Async::Ready(Some(Bytes::from(&self.bytes[..n]))))
        } else if self.complete {
            Ok(Async::Ready(None))
        } else {
            Ok(Async::NotReady)
        }
    }

    fn read_until(&mut self, line: &[u8]) -> Poll<Option<Bytes>, PayloadError> {
        if let Some(err) = self.failure.take() {
            return Err(err);
        }
        match self.bytes.windows(line.len()).position(|w| w == line) {
            Some(at) => {
                let rest = self.bytes.split_off(at + line.len());
                let got = std::mem::replace(&mut self.bytes, rest);
                Ok(Async::Ready(Some(Bytes::from(got))))
            }
            None if self.complete => Ok(Async::Ready(None)),
            None => Ok(Async::NotReady),
        }
    }
}

type Walk = Multipart<Body, u32>;

fn walk(boundary: &str, bytes: &[u8], complete: bool) -> Walk {
    Multipart::new(Ok(boundary.to_owned()), Body { bytes: bytes.to_vec(), complete, failure: None })
}

fn whole(bytes: &[u8]) -> Walk {
    walk("b", bytes, true)
}

fn poll(body: &mut Walk, task: u32) -> Poll<Option<MultipartItem<Body, u32>>, MultipartError> {
    let mut step = body.poll();
    loop {
        let r = match step {
            Step::Peek(n) => body.payload().unwrap().peek(n),
            Step::ReadUntil(line) => body.payload().unwrap().read_until(&line),
            Step::Return(r) => return r,
            Step::Oversized => panic!("a header name is too long"),
        };
        step = body.resume(r, task);
    }
}

fn poll_field(field: &mut Field<u32>, body: &mut Walk) -> Poll<Option<Bytes>, MultipartError> {
    match field.poll(body) {
        FieldStep::ReadUntil(line) => {
            let r = field.payload(body).unwrap().read_until(&line);
            match field.resume(body, r) {
                FieldStep::Return(r) => r,
                FieldStep::ReadUntil(_) => unreachable!(),
            }
        }
        FieldStep::Return(r) => r,
    }
}

fn field(body: &mut Walk, task: u32) -> Field<u32> {
    match poll(body, task) {
        Ok(Async::Ready(Some(MultipartItem::Field(field)))) => field,
        _ => panic!("no field"),
    }
}

fn read_all(body: &mut Walk) -> Vec<Vec<u8>> {
    let mut parts = Vec::new();
    while let Async::Ready(Some(MultipartItem::Field(mut field))) = poll(body, 0).unwrap() {
        let mut data = Vec::new();
        while let Async::Ready(Some(chunk)) = poll_field(&mut field, body).unwrap() {
            data.extend_from_slice(&chunk);
        }
        parts.push(data);
        body.release(field);
    }
    parts
}

fn content_type(value: &'static str) -> HeaderMap {
    let mut headers = HeaderMap::new();
    headers.insert(CONTENT_TYPE, HeaderValue::from_static(value));
    headers
}

fn line(name: &str, value: &str) -> RawHeader {
    RawHeader { name: name.as_bytes().to_vec(), value: value.as_bytes().to_vec() }
}

#[test]
fn rfc1341_appendix_c_example() {
    // source: https://tools.ietf.org/html/rfc1341#page-62
    let bytes = Bytes::from(
        "
                    This is the preamble area of a multipart message.
                    Mail readers that understand multipart format
                    should ignore this preamble.
                    If you are reading this text, you might want to
                    consider changing to a mail reader that understands
                    how to properly display multipart messages.
                    \r\n--unique-boundary-1\r\n\
                    \r\n\
                    ...Some text appears here...
                    [Note that the preceding blank line means
                    no header fields were given and this is text,
                    with charset US ASCII.  It could have been
                    done with explicit typing as in the next part.]
                    \r\n--unique-boundary-1\r\n\
                    Content-type: text/plain; charset=US-ASCII\r\n\
                    \r\n\
                    This could have been part of the previous part,
                    but illustrates explicit versus implicit
                    typing of body parts.
                    \r\n--unique-boundary-1\r\n\
                    Content-Type: multipart/parallel; boundary=unique-boundary-2\r\n\
                    \r\n--unique-boundary-2\r\n\
                    Content-Type: audio/basic\r\n\
                    Content-Transfer-Encoding: base64\r\n\
                    \r\n\
                    ... base64-encoded 8000 Hz single-channel
                    u-law-format audio data goes here....
                    \r\n--unique-boundary-2\r\n\
                    Content-Type: image/gif\r\n\
                    Content-Transfer-Encoding: Base64\r\n\
                    \r\n\
                    ... base64-encoded image data goes here....
                    \r\n--unique-boundary-2--\r\n\
                    \r\n--unique-boundary-1\r\n\
                    Content-type: text/richtext\r\n\
                    \r\n\
                    This is <bold><italic>richtext.</italic></bold>
                    <nl><nl>Isn't it
                    <bigger><bigger>cool?</bigger></bigger>
                    \r\n--unique-boundary-1\r\n\
                    Content-Type: message/rfc822\r\n\
                    \r\n\
                    From: (name in US-ASCII)
                    Subject: (subject in US-ASCII)
                    Content-Type: Text/plain; charset=ISO-8859-1
                    Content-Transfer-Encoding: Quoted-printable

                    ... Additional text in ISO-8859-1 goes here ...
                    \r\n--unique-boundary-1--",
    );
    let mut multipart = walk("unique-boundary-1", &bytes, false);
    let mut parts: Vec<Vec<u8>> = Vec::new();
    let mut types: Vec<Option<String>> = Vec::new();

    loop {
        match poll(&mut multipart, 0) {
            Ok(Async::Ready(Some(item))) => match item {
                MultipartItem::Field(mut field) => {
                    println!("field: {:?}", field);
                    let headers = multipart.headers().unwrap();
                    types.push(headers.get(CONTENT_TYPE).map(|v| v.to_str().unwrap().to_owned()));
                    let mut data = Vec::new();

                    loop {
                        match poll_field(&mut field, &mut multipart) {
                            Ok(Async::Ready(Some(chunk))) => {
                                println!("data: {:?}", chunk);
                                data.extend_from_slice(&chunk);
                            }
                            Ok(Async::Ready(None)) => break,
                            _ => unreachable!(),
                        }
                    }
                    multipart.release(field);
                    parts.push(data);
                }
                _ => unreachable!(),
            },
            Ok(Async::NotReady) => panic!("not ready"),
            Ok(Async::Ready(None)) => break,
            Err(err) => panic!("err: {:?}", err),
        }
    }

    assert_eq!(parts.len(), 5);
    assert_eq!(types[0], None);
    assert_eq!(types[1].as_deref(), Some("text/plain; charset=US-ASCII"));
    assert_eq!(types[2].as_deref(), Some("multipart/parallel; boundary=unique-boundary-2"));
    assert_eq!(types[3].as_deref(), Some("text/richtext"));
    assert_eq!(types[4].as_deref(), Some("message/rfc822"));
    assert!(parts[0].starts_with(b"...Some text appears here..."));
    assert!(parts[1].starts_with(b"This could have been part of the previous part,"));
    assert!(parts[2].starts_with(b"--unique-boundary-2\r\nContent-Type: audio/basic"));
    assert!(parts[2].ends_with(b"\r\n--unique-boundary-2--\r\n"));
    assert!(parts[3].starts_with(b"This is <bold>"));
    assert!(parts[4].starts_with(b"From: (name in US-ASCII)"));
}

#[test]
fn parts_come_out_in_order_and_whole() {
    let mut body = whole(
        b"preamble\r\n--b\r\n\r\none\r\n--b\r\nA: 1\r\n\r\ntwo\r\n\r\n\r\n--b--epilogue",
    );
    assert_eq!(read_all(&mut body), vec![b"one".to_vec(), b"two\r\n\r\n".to_vec()]);
}

#[test]
fn message_without_parts() {
    assert_eq!(read_all(&mut whole(b"\r\n--b--")), Vec::<Vec<u8>>::new());
}

#[test]
fn part_without_data() {
    let mut body = whole(b"\r\n--b\r\n\r\n\r\n--b--");
    assert_eq!(read_all(&mut body), vec![Vec::<u8>::new()]);
}

#[test]
fn end_is_final() {
    let mut body = whole(b"\r\n--b--");
    assert!(matches!(poll(&mut body, 0), Ok(Async::Ready(None))));
    assert!(matches!(poll(&mut body, 0), Ok(Async::Ready(None))));
}

#[test]
fn data_is_read_once() {
    let mut body = whole(b"\r\n--b\r\n\r\none\r\n--b--");
    let mut part = field(&mut body, 7);
    match poll_field(&mut part, &mut body) {
        Ok(Async::Ready(Some(data))) => assert_eq!(&data[..], b"one"),
        _ => panic!("no data"),
    }
    assert!(matches!(poll_field(&mut part, &mut body), Ok(Async::Ready(None))));
    assert!(matches!(poll_field(&mut part, &mut body), Ok(Async::Ready(None))));
}

#[test]
fn walk_waits_for_its_field() {
    let mut body = whole(b"\r\n--b\r\n\r\none\r\n--b--");
    let part = field(&mut body, 7);
    assert!(matches!(poll(&mut body, 7), Ok(Async::NotReady)));
    assert!(body.payload().is_none());
    assert!(part.payload(&mut body).is_some());
    assert_eq!(body.release(part), Some(7));
    assert!(body.payload().is_some());
    assert!(matches!(poll(&mut body, 7), Ok(Async::Ready(None))));
}

#[test]
fn field_that_nobody_reads_is_skipped() {
    let mut body = whole(b"\r\n--b\r\n\r\none\r\n--b\r\n\r\ntwo\r\n--b--");
    let first = field(&mut body, 1);
    body.release(first);
    let mut second = field(&mut body, 2);
    match poll_field(&mut second, &mut body) {
        Ok(Async::Ready(Some(data))) => assert_eq!(&data[..], b"two"),
        _ => panic!("no data"),
    }
}

#[test]
fn waiting_changes_nothing() {
    let mut body = walk("b", b"pre\r\n--", false);
    assert!(matches!(poll(&mut body, 0), Ok(Async::NotReady)));
    body.payload().unwrap().bytes.extend_from_slice(b"b\r\n\r");
    assert!(matches!(poll(&mut body, 0), Ok(Async::NotReady)));
    body.payload().unwrap().bytes.extend_from_slice(b"\none\r\n");
    let mut part = field(&mut body, 0);
    assert!(matches!(poll_field(&mut part, &mut body), Ok(Async::NotReady)));
    part.payload(&mut body).unwrap().bytes.extend_from_slice(b"--b--");
    match poll_field(&mut part, &mut body) {
        Ok(Async::Ready(Some(data))) => assert_eq!(&data[..], b"one"),
        _ => panic!("no data"),
    }
}

#[test]
fn body_without_boundary_is_incomplete() {
    let mut body = whole(b"nothing here");
    assert!(matches!(poll(&mut body, 0), Err(MultipartError::Incomplete)));
}

#[test]
fn closing_without_boundary_is_incomplete() {
    assert!(matches!(poll(&mut whole(b"--b--"), 0), Err(MultipartError::Incomplete)));
    assert!(matches!(poll(&mut whole(b"--"), 0), Err(MultipartError::Incomplete)));
}

#[test]
fn headers_without_boundary_are_no_part() {
    assert!(matches!(poll(&mut whole(b"A: x\r\n\r\n"), 0), Err(MultipartError::Incomplete)));
}

#[test]
fn headers_of_a_part_are_found() {
    let mut body = whole(b"\r\n--b\r\nA: x\r\n\r\nbody\r\n--b--");
    assert!(body.headers().is_none());
    let mut part = field(&mut body, 0);
    let headers = body.headers().unwrap();
    assert_eq!(headers.len(), 1);
    assert_eq!(headers.get("a").unwrap(), "x");
    match poll_field(&mut part, &mut body) {
        Ok(Async::Ready(Some(data))) => assert_eq!(&data[..], b"body"),
        _ => panic!("no data"),
    }
    assert!(body.headers().is_none());
}

#[test]
fn each_part_has_its_own_headers() {
    let mut body = whole(
        b"\r\n--b\r\nA: 1\r\nB: 2\r\na: 3\r\n\r\none\r\n--b\r\n\r\ntwo\r\n--b\r\nC: 4\r\n\r\n\r\n--b--",
    );
    let first = field(&mut body, 0);
    let headers = body.headers().unwrap();
    let values: Vec<&str> = headers.get_all("a").iter().map(|v| v.to_str().unwrap()).collect();
    assert_eq!(values, vec!["1", "3"]);
    assert_eq!(headers.get("b").unwrap(), "2");
    assert_eq!(headers.len(), 3);
    body.release(first);
    let second = field(&mut body, 0);
    assert!(body.headers().unwrap().is_empty());
    body.release(second);
    let third = field(&mut body, 0);
    assert_eq!(body.headers().unwrap().get("c").unwrap(), "4");
    assert_eq!(body.headers().unwrap().len(), 1);
    body.release(third);
}

/// What is found in a body that arrives `size` bytes at a time.
fn read_arriving(bytes: &[u8], size: usize) -> Vec<(usize, Vec<u8>)> {
    let mut body = walk("b", b"", false);
    let mut coming = bytes.chunks(size);
    let mut parts = Vec::new();
    loop {
        match poll(&mut body, 0).unwrap() {
            Async::Ready(Some(MultipartItem::Field(mut part))) => {
                let headers = body.headers().unwrap().len();
                let mut data = Vec::new();
                loop {
                    match poll_field(&mut part, &mut body).unwrap() {
                        Async::Ready(Some(chunk)) => data.extend_from_slice(&chunk),
                        Async::Ready(None) => break,
                        Async::NotReady => {
                            let next = coming.next().unwrap();
                            part.payload(&mut body).unwrap().bytes.extend_from_slice(next);
                        }
                    }
                }
                parts.push((headers, data));
                body.release(part);
            }
            Async::Ready(None) => return parts,
            Async::NotReady => {
                body.payload().unwrap().bytes.extend_from_slice(coming.next().unwrap());
            }
            _ => unreachable!(),
        }
    }
}

#[test]
fn arrival_makes_no_difference() {
    let bytes = b"pre--b\r\n--b\r\nA: 1\r\n\r\n--one\r\n--b\r\n\r\n\r\n--b--";
    let expected = vec![(1, b"--one".to_vec()), (0, Vec::new())];
    for size in 1..bytes.len() + 1 {
        assert_eq!(read_arriving(bytes, size), expected);
    }
}

#[test]
fn headers_without_end_are_incomplete() {
    let mut body = whole(b"\r\n--b\r\nA: 1");
    assert!(matches!(poll(&mut body, 0), Err(MultipartError::Incomplete)));
}

#[test]
fn field_without_end_is_incomplete() {
    let mut body = whole(b"\r\n--b\r\n\r\none");
    let mut part = field(&mut body, 0);
    assert!(matches!(poll_field(&mut part, &mut body), Err(MultipartError::Incomplete)));
    body.release(part);
    assert!(matches!(poll(&mut body, 0), Err(MultipartError::Incomplete)));
}

#[test]
fn failing_payload_is_reported() {
    let mut body = whole(b"\r\n--b\r\n\r\none\r\n--b--");
    body.payload().unwrap().failure = Some(PayloadError::Overflow);
    assert!(matches!(poll(&mut body, 0), Err(MultipartError::Payload(PayloadError::Overflow))));
    let mut part = field(&mut body, 0);
    part.payload(&mut body).unwrap().failure = Some(PayloadError::Io("gone".to_owned()));
    match poll_field(&mut part, &mut body) {
        Err(MultipartError::Payload(PayloadError::Io(text))) => assert_eq!(text, "gone"),
        _ => panic!("no error"),
    }
}

#[test]
fn boundary_error_comes_with_first_poll() {
    let body = Body { bytes: Vec::new(), complete: true, failure: None };
    let mut body: Walk = Multipart::new(Err(MultipartError::MissingBoundary), body);
    assert!(body.payload().is_none());
    assert!(matches!(poll(&mut body, 0), Err(MultipartError::MissingBoundary)));
}

#[test]
fn malformed_headers_are_refused() {
    let mut body = whole(b"\r\n--b@\r\n\r\none\r\n--b--");
    assert!(matches!(poll(&mut body, 0), Err(MultipartError::Parse(ParseError::Header))));
}

#[test]
fn headers_on_the_line_of_the_boundary_are_found() {
    let mut body = whole(b"\r\n--bA: 1\r\nB: 2\r\n\r\none\r\n--b--");
    assert_eq!(read_all(&mut body), vec![b"one".to_vec()]);
}

#[test]
fn as_many_headers_as_there_is_room_for() {
    let mut bytes = b"\r\n--b".to_vec();
    for _ in 0..MAX_HEADERS {
        bytes.extend_from_slice(b"A: 1\r\n");
    }
    bytes.extend_from_slice(b"\r\none\r\n--b--");
    assert_eq!(read_all(&mut whole(&bytes)), vec![b"one".to_vec()]);
}

#[test]
fn one_header_more_is_too_many() {
    let mut bytes = b"\r\n--b".to_vec();
    for _ in 0..MAX_HEADERS + 1 {
        bytes.extend_from_slice(b"A: 1\r\n");
    }
    bytes.extend_from_slice(b"\r\none\r\n--b--");
    assert!(matches!(
        poll(&mut whole(&bytes), 0),
        Err(MultipartError::Parse(ParseError::TooLarge))
    ));
}

#[test]
fn header_name_can_be_too_long() {
    let mut bytes = b"\r\n--b".to_vec();
    bytes.resize(4 + 1 + 65536, b'a');
    bytes.extend_from_slice(b": 1\r\n\r\none\r\n--b--");
    let mut body = whole(&bytes);
    let mut step = body.poll();
    while !matches!(step, Step::Oversized) {
        let r = match step {
            Step::Peek(n) => body.payload().unwrap().peek(n),
            Step::ReadUntil(line) => body.payload().unwrap().read_until(&line),
            _ => panic!("answered"),
        };
        step = body.resume(r, 0);
    }
}

#[test]
fn head_that_goes_on_is_refused() {
    let mut body = whole(b"");
    assert!(matches!(
        body.resume_head(Ok(None), 0),
        Step::Return(Err(MultipartError::Parse(ParseError::Header)))
    ));
}

#[test]
fn head_errors_keep_their_meaning() {
    let cases = [
        (HeadError::BadName, ParseError::Header),
        (HeadError::BadValue, ParseError::Header),
        (HeadError::BadNewLine, ParseError::Header),
        (HeadError::BadToken, ParseError::Header),
        (HeadError::BadStatus, ParseError::Status),
        (HeadError::TooManyHeaders, ParseError::TooLarge),
        (HeadError::BadVersion, ParseError::Version),
    ];
    for (head, parse) in cases {
        match whole(b"").resume_head(Err(head), 0) {
            Step::Return(Err(MultipartError::Parse(err))) => assert_eq!(err, parse),
            _ => panic!("no error"),
        }
    }
}

#[test]
fn head_that_parsed_hands_out_a_field() {
    let mut body = whole(b"one\r\n--b--");
    let part = match body.resume_head(Ok(Some(vec![line("A", "1")])), 9) {
        Step::Return(Ok(Async::Ready(Some(MultipartItem::Field(part))))) => part,
        _ => panic!("no field"),
    };
    assert_eq!(body.release(part), Some(9));
}

#[test]
fn headers_are_gathered_by_name() {
    let headers = collect_headers(&vec![
        line("Content-Type", "text/plain"),
        line("x-tag", "a"),
        line("X-Tag", "b"),
    ]);
    assert_eq!(headers.len(), 3);
    assert_eq!(headers.get("content-type").unwrap(), "text/plain");
    let tags: Vec<&str> = headers.get_all("x-tag").iter().map(|v| v.to_str().unwrap()).collect();
    assert_eq!(tags, vec!["a", "b"]);
}

#[test]
fn headers_that_are_not_valid_are_passed_over() {
    let headers = collect_headers(&vec![
        line("", "1"),
        line("a b", "2"),
        line("ok", "new\nline"),
        line("ok", "fine\there"),
    ]);
    assert_eq!(headers.len(), 1);
    assert_eq!(headers.get("ok").unwrap(), "fine\there");
}

#[test]
fn boundary_is_found() {
    let headers = content_type("multipart/form-data; charset=utf-8; boundary=\"un que\"");
    assert_eq!(Multipart::boundary(&headers).unwrap(), "un que");
}

#[test]
fn boundary_parameter_can_be_in_any_case() {
    let headers = content_type("Multipart/Form-Data; BOUNDARY=AbC");
    assert_eq!(Multipart::boundary(&headers).unwrap(), "AbC");
}

#[test]
fn boundary_needs_a_content_type() {
    let headers = HeaderMap::new();
    assert!(matches!(Multipart::boundary(&headers), Err(MultipartError::NoContentType)));
}

#[test]
fn boundary_needs_a_readable_content_type() {
    let mut headers = HeaderMap::new();
    headers.insert(CONTENT_TYPE, HeaderValue::from_bytes(b"multipart/\xff").unwrap());
    assert!(matches!(Multipart::boundary(&headers), Err(MultipartError::ParseContentType)));
}

#[test]
fn boundary_needs_a_media_type() {
    let headers = content_type("multipart");
    assert!(matches!(Multipart::boundary(&headers), Err(MultipartError::ParseContentType)));
}

#[test]
fn boundary_can_be_missing() {
    let headers = content_type("multipart/form-data; charset=utf-8");
    assert!(matches!(Multipart::boundary(&headers), Err(MultipartError::MissingBoundary)));
}

#[test]
fn first_content_type_counts() {
    let mut headers = content_type("multipart/form-data; boundary=first");
    headers.append(CONTENT_TYPE, HeaderValue::from_static("multipart/form-data; boundary=second"));
    assert_eq!(Multipart::boundary(&headers).unwrap(), "first");
}

#[test]
fn boundary_of_a_media_type() {
    let with: mime::Mime = "multipart/mixed; boundary=x".parse().unwrap();
    assert_eq!(boundary_param(&with).unwrap(), "x");
    let without: mime::Mime = "multipart/mixed".parse().unwrap();
    assert!(matches!(boundary_param(&without), Err(MultipartError::MissingBoundary)));
}
