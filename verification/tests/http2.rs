use std::rc::Rc;

use bytes::Bytes;
use http::header::{HeaderMap, HeaderValue, CONTENT_LENGTH};
use web_transport::error::{HttpDispatchError, PayloadError};
use web_transport::server::entry::{Entry, EntryFlags, PayloadEvent, PayloadStep};
use web_transport::server::h2::{Event, Http2, Step};
use web_transport::server::io::IoWrapper;
use web_transport::server::pipe::{EntryPipe, HttpHandlerTask, Version, NOT_FOUND};
use web_transport::server::request::{Message, Parts};
use web_transport::task::{Async, Poll};

/// A task that notes what it is told.
struct Work {
    name: &'static str,
    gone: bool,
}

impl HttpHandlerTask for Work {
    type Writer = Vec<&'static str>;
    type Error = &'static str;

    fn disconnected(&mut self) {
        self.gone = true;
    }

    fn poll_io(&mut self, io: &mut Vec<&'static str>) -> Poll<bool, &'static str> {
        io.push(self.name);
        if self.gone {
            Err(self.name)
        } else {
            Ok(Async::Ready(true))
        }
    }

    fn poll_completed(&mut self) -> Poll<(), &'static str> {
        if self.gone {
            Ok(Async::Ready(()))
        } else {
            Err(self.name)
        }
    }
}

/// A task that answers with a status.
struct Refusal {
    version: Version,
    status: u16,
    gone: bool,
}

impl HttpHandlerTask for Refusal {
    type Writer = Vec<&'static str>;
    type Error = &'static str;

    fn disconnected(&mut self) {
        self.gone = true;
    }

    fn poll_io(&mut self, io: &mut Vec<&'static str>) -> Poll<bool, &'static str> {
        io.push("refused");
        Ok(Async::NotReady)
    }

    fn poll_completed(&mut self) -> Poll<(), &'static str> {
        Ok(Async::NotReady)
    }
}

fn refuse(version: Version, status: u16) -> Refusal {
    Refusal { version, status, gone: false }
}

type Conn = Http2<Work, Refusal, Vec<&'static str>, u32, u8, char>;
type Request = Entry<Work, Refusal, Vec<&'static str>, u32>;

fn request(name: &'static str, body: u32) -> Request {
    Entry::queued(Ok::<Work, ()>(Work { name, gone: false }), Vec::new(), body, refuse)
}

fn fresh(timer: Option<u64>) -> Conn {
    let (conn, _): (Conn, IoWrapper<()>) = Http2::new((), None, None, Bytes::new(), timer, None, 0);
    conn
}

fn connected() -> Conn {
    let mut conn = fresh(None);
    assert!(matches!(conn.poll(Event::Poll), Step::PollHandshake));
    assert!(matches!(conn.poll(Event::Handshake(Ok(Async::Ready(())))), Step::PollRequest));
    conn
}

/// A connection that waits for a request and has served none of `n`.
fn with_requests(n: u32) -> Conn {
    let mut conn = connected();
    for i in 0..n {
        assert!(matches!(conn.poll(Event::Request(Ok(Async::Ready(Some(()))))), Step::Accept));
        let mut step = conn.poll(Event::Accepted(request("work", i)));
        while !matches!(step, Step::PollRequest) {
            step = match step {
                Step::PollPayload(_) => conn.poll(Event::Done),
                Step::NeedRead(_) => conn.poll(Event::NeedRead(false)),
                Step::PollIo(_) => conn.poll(Event::Io(Ok(Async::NotReady))),
                _ => panic!("unexpected step"),
            };
        }
    }
    assert_eq!(conn.len(), n as usize);
    conn
}

/// Ends the poll and starts the next one.
fn next_poll(conn: &mut Conn) -> Step {
    let answer = conn.poll(Event::Request(Ok(Async::NotReady)));
    assert!(matches!(answer, Step::Return(Ok(Async::NotReady))));
    conn.poll(Event::Poll)
}

/// Moves the request in front on to where its task writes.
fn writing(conn: &mut Conn) {
    assert!(matches!(next_poll(conn), Step::PollPayload(0)));
    assert!(matches!(conn.poll(Event::Done), Step::NeedRead(0)));
    assert!(matches!(conn.poll(Event::NeedRead(false)), Step::PollIo(0)));
}

#[test]
fn handshake_comes_first() {
    let mut conn = fresh(None);
    assert!(matches!(conn.poll(Event::Poll), Step::PollHandshake));
    let step = conn.poll(Event::Handshake(Ok(Async::NotReady)));
    assert!(matches!(step, Step::Return(Ok(Async::NotReady))));
    assert!(matches!(conn.poll(Event::Poll), Step::PollHandshake));
    assert!(matches!(conn.poll(Event::Handshake(Ok(Async::Ready(())))), Step::PollRequest));
}

#[test]
fn handshake_can_fail() {
    let mut conn = fresh(None);
    conn.poll(Event::Poll);
    match conn.poll(Event::Handshake(Err("bad preface".to_owned()))) {
        Step::Return(Err(HttpDispatchError::Http2(text))) => assert_eq!(text, "bad preface"),
        _ => panic!("no error"),
    }
}

#[test]
fn timer_is_polled_again_after_handshake() {
    let mut conn = fresh(Some(10));
    assert!(matches!(conn.poll(Event::Poll), Step::PollTimer));
    assert!(matches!(conn.poll(Event::Timer(Ok(Async::NotReady))), Step::PollHandshake));
    assert!(matches!(conn.poll(Event::Handshake(Ok(Async::Ready(())))), Step::PollTimer));
    assert!(matches!(conn.poll(Event::Timer(Ok(Async::NotReady))), Step::PollRequest));
}

#[test]
fn idle_connection_is_dropped() {
    let mut conn = fresh(Some(10));
    conn.poll(Event::Poll);
    let step = conn.poll(Event::Timer(Ok(Async::Ready(10))));
    assert!(matches!(step, Step::Return(Err(HttpDispatchError::ShutdownTimeout))));
}

#[test]
fn failing_timer_drops_the_connection() {
    let mut conn = fresh(Some(10));
    conn.poll(Event::Poll);
    let step = conn.poll(Event::Timer(Err(())));
    assert!(matches!(step, Step::Return(Err(HttpDispatchError::Unknown))));
}

#[test]
fn timer_that_fires_early_is_set_anew() {
    let mut conn = fresh(Some(10));
    conn.poll(Event::Poll);
    assert!(matches!(conn.poll(Event::Timer(Ok(Async::Ready(9)))), Step::ResetTimer(10)));
    assert!(matches!(conn.poll(Event::Done), Step::PollHandshake));
}

#[test]
fn settings_start_the_timer() {
    let (mut conn, _): (Conn, IoWrapper<()>) =
        Http2::new((), None, None, Bytes::new(), None, Some(20), 0);
    assert!(matches!(conn.poll(Event::Poll), Step::PollTimer));
    assert!(matches!(conn.poll(Event::Timer(Ok(Async::Ready(19)))), Step::ResetTimer(20)));
}

#[test]
fn timer_that_runs_already_is_kept() {
    let (mut conn, _): (Conn, IoWrapper<()>) =
        Http2::new((), None, None, Bytes::new(), Some(5), Some(20), 0);
    conn.poll(Event::Poll);
    assert!(matches!(conn.poll(Event::Timer(Ok(Async::Ready(4)))), Step::ResetTimer(5)));
}

fn serving_with_timer(expire: Option<u64>) -> Conn {
    let mut conn = fresh(Some(10));
    conn.poll(Event::Poll);
    conn.poll(Event::Timer(Ok(Async::NotReady)));
    conn.poll(Event::Handshake(Ok(Async::Ready(()))));
    assert!(matches!(conn.poll(Event::Timer(Ok(Async::NotReady))), Step::PollRequest));
    let step = conn.poll(Event::Request(Ok(Async::Ready(Some(())))));
    assert!(matches!(step, Step::KeepAliveExpire));
    assert!(matches!(conn.poll(Event::Expire(expire)), Step::Accept));
    assert!(matches!(conn.poll(Event::Accepted(request("work", 0))), Step::PollPayload(0)));
    conn.poll(Event::Done);
    conn.poll(Event::NeedRead(false));
    conn.poll(Event::Io(Ok(Async::NotReady)));
    assert!(matches!(conn.poll(Event::NeedRead(false)), Step::PollRequest));
    assert!(matches!(next_poll(&mut conn), Step::PollTimer));
    conn
}

#[test]
fn request_puts_the_expiry_off() {
    let mut conn = serving_with_timer(Some(30));
    assert!(matches!(conn.poll(Event::Timer(Ok(Async::Ready(29)))), Step::ResetTimer(30)));
}

#[test]
fn expiry_stays_where_none_is_set() {
    let mut conn = serving_with_timer(None);
    assert!(matches!(conn.poll(Event::Timer(Ok(Async::Ready(9)))), Step::ResetTimer(10)));
}

#[test]
fn busy_connection_is_kept_alive() {
    let mut conn = serving_with_timer(None);
    assert!(matches!(conn.poll(Event::Timer(Ok(Async::Ready(10)))), Step::KeepAliveExpire));
    assert!(matches!(conn.poll(Event::Expire(Some(50))), Step::ResetTimer(50)));
    assert!(matches!(conn.poll(Event::Done), Step::PollPayload(0)));
}

#[test]
fn busy_connection_without_expiry_goes_on() {
    let mut conn = serving_with_timer(None);
    conn.poll(Event::Timer(Ok(Async::Ready(10))));
    assert!(matches!(conn.poll(Event::Expire(None)), Step::PollPayload(0)));
}

#[test]
fn request_is_served() {
    let mut conn = with_requests(1);
    writing(&mut conn);
    assert!(matches!(conn.poll(Event::Io(Ok(Async::Ready(true)))), Step::Flush(0)));
    assert!(matches!(conn.poll(Event::Flushed(Ok(Async::Ready(())))), Step::PollRequest));
    assert_eq!(conn.len(), 0);
}

#[test]
fn task_finishes_after_writing() {
    let mut conn = with_requests(1);
    writing(&mut conn);
    assert!(matches!(conn.poll(Event::Io(Ok(Async::Ready(false)))), Step::PollCompleted(0)));
    assert!(matches!(conn.poll(Event::Completed(Ok(Async::NotReady))), Step::PollRequest));
    assert_eq!(conn.len(), 1);
    assert!(matches!(next_poll(&mut conn), Step::PollPayload(0)));
    assert!(matches!(conn.poll(Event::Done), Step::PollCompleted(0)));
    assert!(matches!(conn.poll(Event::Completed(Ok(Async::Ready(())))), Step::PollRequest));
    assert_eq!(conn.len(), 0);
}

#[test]
fn task_that_fails_to_finish_leaves() {
    let mut conn = with_requests(1);
    writing(&mut conn);
    conn.poll(Event::Io(Ok(Async::Ready(false))));
    assert!(matches!(conn.poll(Event::Completed(Err(()))), Step::PollRequest));
    assert_eq!(conn.len(), 0);
}

#[test]
fn task_that_fails_to_write_is_reset() {
    let mut conn = with_requests(1);
    writing(&mut conn);
    assert!(matches!(conn.poll(Event::Io(Err(()))), Step::ResetStream(0)));
    assert!(matches!(conn.poll(Event::Done), Step::PollCompleted(0)));
    assert!(matches!(conn.poll(Event::Completed(Ok(Async::NotReady))), Step::PollRequest));
    assert_eq!(conn.len(), 0);
}

#[test]
fn task_is_let_write() {
    let mut conn = with_requests(1);
    writing(&mut conn);
    assert!(matches!(conn.poll_io(), Step::Flush(0)));
    assert_eq!(*conn.request(0).1, vec!["work"]);
}

#[test]
fn task_that_cannot_write_is_reset() {
    let mut conn = with_requests(1);
    writing(&mut conn);
    conn.request(0).0.disconnected();
    assert!(matches!(conn.poll_io(), Step::ResetStream(0)));
}

#[test]
fn task_is_let_finish() {
    let mut conn = with_requests(2);
    let step = conn.poll(Event::Request(Ok(Async::Ready(None))));
    assert!(matches!(step, Step::PollCompleted(0)));
    assert!(matches!(conn.poll_completed(), Step::PollCompleted(1)));
    assert!(matches!(conn.poll_completed(), Step::PollClose));
    assert_eq!(conn.len(), 0);
}

#[test]
fn task_that_cannot_finish_leaves() {
    let mut conn = with_requests(1);
    writing(&mut conn);
    assert!(matches!(conn.poll(Event::Io(Ok(Async::Ready(false)))), Step::PollCompleted(0)));
    assert!(matches!(conn.poll_completed(), Step::PollRequest));
    assert_eq!(conn.len(), 0);
}

#[test]
fn response_is_flushed_until_it_is_written() {
    let mut conn = with_requests(1);
    writing(&mut conn);
    conn.poll(Event::Io(Ok(Async::Ready(true))));
    assert!(matches!(conn.poll(Event::Flushed(Ok(Async::NotReady))), Step::PollRequest));
    assert_eq!(conn.len(), 1);
    assert!(matches!(next_poll(&mut conn), Step::PollPayload(0)));
    assert!(matches!(conn.poll(Event::Done), Step::Flush(0)));
    assert!(matches!(conn.poll(Event::Flushed(Err(()))), Step::PollRequest));
    assert_eq!(conn.len(), 0);
}

#[test]
fn task_that_made_room_writes_again() {
    let mut conn = with_requests(1);
    writing(&mut conn);
    assert!(matches!(conn.poll(Event::Io(Ok(Async::NotReady))), Step::NeedRead(0)));
    assert!(matches!(conn.poll(Event::NeedRead(true)), Step::PollIo(0)));
    assert!(matches!(conn.poll(Event::Io(Ok(Async::NotReady))), Step::NeedRead(0)));
    assert!(matches!(conn.poll(Event::NeedRead(false)), Step::PollRequest));
}

#[test]
fn task_that_had_room_before_does_not_write_again() {
    let mut conn = with_requests(1);
    assert!(matches!(next_poll(&mut conn), Step::PollPayload(0)));
    assert!(matches!(conn.poll(Event::Done), Step::NeedRead(0)));
    assert!(matches!(conn.poll(Event::NeedRead(true)), Step::PollIo(0)));
    assert!(matches!(conn.poll(Event::Io(Ok(Async::NotReady))), Step::NeedRead(0)));
    assert!(matches!(conn.poll(Event::NeedRead(true)), Step::PollRequest));
}

#[test]
fn requests_leave_from_the_front() {
    let mut conn = with_requests(2);
    assert!(matches!(next_poll(&mut conn), Step::PollPayload(0)));
    conn.poll(Event::Done);
    conn.poll(Event::NeedRead(false));
    conn.poll(Event::Io(Ok(Async::NotReady)));
    assert!(matches!(conn.poll(Event::NeedRead(false)), Step::PollPayload(1)));
    conn.poll(Event::Done);
    conn.poll(Event::NeedRead(false));
    assert!(matches!(conn.poll(Event::Io(Ok(Async::Ready(true)))), Step::Flush(1)));
    assert!(matches!(conn.poll(Event::Flushed(Ok(Async::Ready(())))), Step::PollRequest));
    assert_eq!(conn.len(), 2);
    writing(&mut conn);
    assert!(matches!(conn.poll(Event::Io(Ok(Async::Ready(true)))), Step::Flush(0)));
    assert!(matches!(conn.poll(Event::Flushed(Ok(Async::Ready(())))), Step::PollPayload(1)));
    assert!(matches!(conn.poll(Event::Done), Step::PollRequest));
    assert_eq!(conn.len(), 0);
}

#[test]
fn requests_stay_in_order_through_polls() {
    let mut conn = with_requests(3);
    writing(&mut conn);
    assert!(matches!(conn.poll(Event::Io(Err(()))), Step::ResetStream(0)));
    let mut step = conn.poll(Event::Done);
    while !matches!(step, Step::PollRequest) {
        step = match step {
            Step::PollPayload(_) => conn.poll(Event::Done),
            Step::NeedRead(_) => conn.poll(Event::NeedRead(false)),
            Step::PollIo(1) => conn.poll(Event::Io(Ok(Async::NotReady))),
            Step::PollIo(_) => conn.poll(Event::Io(Ok(Async::Ready(true)))),
            Step::PollCompleted(_) => conn.poll(Event::Completed(Ok(Async::NotReady))),
            Step::Flush(_) => conn.poll(Event::Flushed(Ok(Async::Ready(())))),
            _ => panic!("unexpected step"),
        };
    }
    assert!(matches!(conn.poll(Event::Request(Ok(Async::Ready(Some(()))))), Step::Accept));
    conn.poll(Event::Accepted(request("work", 3)));
    assert_eq!(conn.len(), 3);
    assert_eq!(*conn.request(0).2, 1);
    assert_eq!(*conn.request(1).2, 2);
    assert_eq!(*conn.request(2).2, 3);
}

#[test]
fn tasks_are_told_when_the_other_side_is_gone() {
    let mut conn = with_requests(2);
    let step = conn.poll(Event::Request(Ok(Async::Ready(None))));
    assert!(matches!(step, Step::PollCompleted(0)));
    for i in 0..2 {
        match conn.request(i).0 {
            EntryPipe::Task(task) => assert!(task.gone),
            EntryPipe::Error(_) => panic!("not a task"),
        }
    }
    assert!(matches!(conn.poll(Event::Completed(Ok(Async::Ready(())))), Step::PollCompleted(1)));
    let step = conn.poll(Event::Completed(Ok(Async::NotReady)));
    assert!(matches!(step, Step::Return(Ok(Async::NotReady))));
    assert_eq!(conn.len(), 1);
    assert_eq!(*conn.request(0).2, 1);
    assert!(matches!(conn.poll(Event::Poll), Step::PollCompleted(0)));
    assert!(matches!(conn.poll(Event::Completed(Ok(Async::Ready(())))), Step::PollClose));
    let step = conn.poll(Event::Closed(Ok(Async::Ready(()))));
    assert!(matches!(step, Step::Return(Ok(Async::Ready(())))));
}

#[test]
fn connection_without_requests_closes_at_once() {
    let mut conn = connected();
    assert!(matches!(conn.poll(Event::Request(Ok(Async::Ready(None)))), Step::PollClose));
    let step = conn.poll(Event::Closed(Ok(Async::NotReady)));
    assert!(matches!(step, Step::Return(Ok(Async::NotReady))));
    assert!(matches!(conn.poll(Event::Poll), Step::PollClose));
}

#[test]
fn failed_connection_is_closed() {
    let mut conn = with_requests(1);
    assert!(matches!(conn.poll(Event::Request(Err(()))), Step::PollClose));
    match conn.request(0).0 {
        EntryPipe::Task(task) => assert!(task.gone),
        EntryPipe::Error(_) => panic!("not a task"),
    }
    match conn.poll(Event::Closed(Err("reset".to_owned()))) {
        Step::Return(Err(HttpDispatchError::Http2(text))) => assert_eq!(text, "reset"),
        _ => panic!("no error"),
    }
    assert!(matches!(conn.poll(Event::Poll), Step::PollClose));
}

#[test]
fn timer_drops_a_connection_that_does_not_close() {
    let mut conn = fresh(Some(10));
    conn.poll(Event::Poll);
    conn.poll(Event::Timer(Ok(Async::NotReady)));
    conn.poll(Event::Handshake(Ok(Async::Ready(()))));
    conn.poll(Event::Timer(Ok(Async::NotReady)));
    assert!(matches!(conn.poll(Event::Request(Err(()))), Step::PollClose));
    conn.poll(Event::Closed(Ok(Async::NotReady)));
    assert!(matches!(conn.poll(Event::Poll), Step::PollTimer));
    let step = conn.poll(Event::Timer(Ok(Async::Ready(1))));
    assert!(matches!(step, Step::Return(Err(HttpDispatchError::ShutdownTimeout))));
}

#[test]
fn handled_request_has_its_task() {
    let entry = request("work", 3);
    assert_eq!(entry.body, 3);
    assert!(entry.stream.is_empty());
    assert_eq!(entry.flags, EntryFlags::empty());
    assert!(!entry.flags.is_over());
    assert!(matches!(entry.task, EntryPipe::Task(Work { name: "work", gone: false })));
}

#[test]
fn refused_request_is_not_found() {
    let entry: Request = Entry::queued(Err(()), vec!["out"], 3, refuse);
    assert_eq!(entry.body, 3);
    assert_eq!(entry.stream, vec!["out"]);
    match entry.task {
        EntryPipe::Error(task) => {
            assert_eq!(task.version, Version::Http2);
            assert_eq!(task.status, 404);
            assert_eq!(NOT_FOUND, 404);
        }
        EntryPipe::Task(_) => panic!("not refused"),
    }
}

fn parts() -> Parts<&'static str, &'static str> {
    let mut headers = HeaderMap::new();
    headers.insert(CONTENT_LENGTH, HeaderValue::from_static("5"));
    Parts { uri: "/index", method: "POST", version: Version::Http2, headers }
}

type Asked = Message<&'static str, &'static str, u8, char, &'static str>;

#[test]
fn handler_gets_the_whole_message() {
    let mut seen: Option<Asked> = None;
    let entry: Request = Entry::new(
        parts(),
        "payload",
        Some(1),
        Some('x'),
        vec!["out"],
        |headers: &HeaderMap| headers.len() as u32,
        |message: Asked| {
            seen = Some(message);
            Ok::<Work, ()>(Work { name: "work", gone: false })
        },
        refuse,
    );
    assert_eq!(entry.body, 1);
    assert_eq!(entry.stream, vec!["out"]);
    assert_eq!(entry.flags, EntryFlags::empty());
    assert!(matches!(entry.task, EntryPipe::Task(Work { name: "work", .. })));
    let message = seen.unwrap();
    assert_eq!(message.url, "/index");
    assert_eq!(message.method, "POST");
    assert_eq!(message.version, Version::Http2);
    assert_eq!(message.headers.get(CONTENT_LENGTH).unwrap(), "5");
    assert_eq!(message.stream_extensions, Some('x'));
    assert_eq!(message.payload, Some("payload"));
    assert_eq!(message.addr, Some(1));
}

#[test]
fn request_that_the_handler_refuses_is_not_found() {
    let entry: Request = Entry::new(
        parts(),
        "payload",
        None,
        None,
        Vec::new(),
        |_: &HeaderMap| 0,
        |_: Asked| Err::<Work, ()>(()),
        refuse,
    );
    assert!(matches!(
        entry.task,
        EntryPipe::Error(Refusal { version: Version::Http2, status: 404, gone: false })
    ));
}

#[test]
fn handler_learns_who_is_on_the_other_side() {
    let (mut conn, _): (Conn, IoWrapper<()>) =
        Http2::new((), Some(9), Some(Rc::new('x')), Bytes::new(), None, None, 0);
    conn.poll(Event::Poll);
    conn.poll(Event::Handshake(Ok(Async::Ready(()))));
    for i in 0..2 {
        assert!(matches!(conn.poll(Event::Request(Ok(Async::Ready(Some(()))))), Step::Accept));
        let mut seen: Option<Message<&str, &str, u8, Rc<char>, &str>> = None;
        let mut step = conn.accept(
            parts(),
            "payload",
            Vec::new(),
            |headers: &HeaderMap| headers.len() as u32,
            |message| {
                seen = Some(message);
                Ok::<Work, ()>(Work { name: "work", gone: false })
            },
            refuse,
        );
        let message = seen.unwrap();
        assert_eq!(message.addr, Some(9));
        assert_eq!(message.stream_extensions, Some(Rc::new('x')));
        assert_eq!(message.url, "/index");
        assert_eq!(conn.len(), i + 1);
        while !matches!(step, Step::PollRequest) {
            step = match step {
                Step::PollPayload(_) => conn.poll(Event::Done),
                Step::NeedRead(_) => conn.poll(Event::NeedRead(false)),
                Step::PollIo(_) => conn.poll(Event::Io(Ok(Async::NotReady))),
                _ => panic!("unexpected step"),
            };
        }
    }
}

#[test]
fn task_is_not_asked_again() {
    let mut conn = with_requests(1);
    writing(&mut conn);
    assert!(matches!(conn.poll(Event::Io(Ok(Async::Ready(false)))), Step::PollCompleted(0)));
    conn.poll(Event::Completed(Ok(Async::NotReady)));
    for _ in 0..3 {
        assert!(matches!(next_poll(&mut conn), Step::PollPayload(0)));
        assert!(matches!(conn.poll(Event::Done), Step::PollCompleted(0)));
        assert!(matches!(conn.poll(Event::Completed(Ok(Async::NotReady))), Step::PollRequest));
    }
}

#[test]
fn answers_are_noted() {
    let mut flags = EntryFlags::empty();
    flags.set_io(Ok(Async::NotReady));
    flags.set_completed(Ok(Async::NotReady));
    flags.set_flush(Ok(Async::NotReady));
    assert_eq!(flags, EntryFlags::empty());
    flags.set_io(Ok(Async::Ready(false)));
    assert_eq!(flags, EntryFlags { eof: true, ..EntryFlags::empty() });
    flags.set_completed(Ok(Async::Ready(())));
    assert!(flags.finished && flags.write_done && !flags.error && flags.is_over());
    let mut failed = EntryFlags::empty();
    failed.set_io(Err(()));
    assert!(failed.eof && failed.error && failed.write_done && !failed.finished);
    let mut unwritten = EntryFlags::empty();
    unwritten.set_io(Ok(Async::Ready(true)));
    assert!(unwritten.eof && unwritten.finished && !unwritten.is_over());
    unwritten.set_flush(Err(()));
    assert!(unwritten.error && !unwritten.write_done && unwritten.is_over());
}

#[test]
fn pipe_hands_on_to_its_task() {
    let mut out: Vec<&'static str> = Vec::new();
    let mut task: EntryPipe<Work, Refusal> = EntryPipe::Task(Work { name: "work", gone: false });
    assert_eq!(task.poll_io(&mut out), Ok(Async::Ready(true)));
    assert_eq!(task.poll_completed(), Err("work"));
    task.disconnected();
    assert_eq!(task.poll_io(&mut out), Err("work"));
    assert_eq!(task.poll_completed(), Ok(Async::Ready(())));
    let mut refused: EntryPipe<Work, Refusal> = EntryPipe::Error(refuse(Version::Http2, 404));
    assert_eq!(refused.poll_io(&mut out), Ok(Async::NotReady));
    assert_eq!(refused.poll_completed(), Ok(Async::NotReady));
    refused.disconnected();
    assert!(matches!(refused, EntryPipe::Error(Refusal { gone: true, .. })));
    assert_eq!(out, vec!["work", "work", "refused"]);
}

#[test]
fn body_is_fed_as_it_comes() {
    let mut entry = request("work", 0);
    assert!(matches!(entry.poll_payload(PayloadEvent::Start), PayloadStep::NeedRead));
    assert!(matches!(entry.poll_payload(PayloadEvent::NeedRead(true)), PayloadStep::PollRecv));
    match entry.poll_payload(PayloadEvent::Recv(Ok(Async::Ready(Some(Bytes::from("chunk")))))) {
        PayloadStep::Feed { chunk, release } => {
            assert_eq!(&chunk[..], b"chunk");
            assert_eq!(release, 5);
        }
        _ => panic!("not fed"),
    }
    assert!(matches!(entry.poll_payload(PayloadEvent::Released(Ok(()))), PayloadStep::NeedRead));
}

#[test]
fn body_waits_for_demand_and_for_data() {
    let mut entry = request("work", 0);
    assert!(matches!(entry.poll_payload(PayloadEvent::NeedRead(false)), PayloadStep::Pause));
    let step = entry.poll_payload(PayloadEvent::Recv(Ok(Async::NotReady)));
    assert!(matches!(step, PayloadStep::Pause));
}

#[test]
fn ended_body_rests() {
    let mut conn = with_requests(1);
    let step = conn.poll_payload(0, PayloadEvent::Recv(Ok(Async::Ready(None))));
    assert!(matches!(step, PayloadStep::FeedEof));
    assert!(matches!(conn.poll_payload(0, PayloadEvent::Start), PayloadStep::Pause));
}

#[test]
fn failing_body_is_reported() {
    let mut entry = request("work", 0);
    match entry.poll_payload(PayloadEvent::Recv(Err("reset".to_owned()))) {
        PayloadStep::SetError(PayloadError::Http2(text)) => assert_eq!(text, "reset"),
        _ => panic!("no error"),
    }
    match entry.poll_payload(PayloadEvent::Released(Err("too much".to_owned()))) {
        PayloadStep::SetError(PayloadError::Http2(text)) => assert_eq!(text, "too much"),
        _ => panic!("no error"),
    }
    assert!(!entry.flags.reof);
}

#[test]
fn bytes_that_were_put_back_come_first() {
    let (_, mut io): (Conn, IoWrapper<u32>) =
        Http2::new(8, None, None, Bytes::from("hello"), None, None, 0);
    let mut room = [0u8; 3];
    assert_eq!(io.read(&mut room), Some(3));
    assert_eq!(&room, b"hel");
    assert_eq!(io.read(&mut room), Some(2));
    assert_eq!(&room, b"lol");
    assert!(io.unread.is_none());
    assert_eq!(io.read(&mut room), None);
    assert_eq!(&room, b"lol");
    assert_eq!(io.inner, 8);
}

#[test]
fn nothing_put_back_means_the_stream_is_read() {
    let mut io = IoWrapper::new(Bytes::new(), ());
    assert!(io.unread.is_none());
    assert_eq!(io.read(&mut [0u8; 3]), None);
}

#[test]
fn read_without_room_takes_nothing() {
    let mut io = IoWrapper::new(Bytes::from("hello"), ());
    assert_eq!(io.read(&mut []), Some(0));
    assert_eq!(io.unread, Some(Bytes::from("hello")));
}
