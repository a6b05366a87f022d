# web_transport

The decisions of a web server's transport layer, verified with Verus.

- `src/multipart.rs` walks the parts of a `multipart/form-data` body;
  `src/message.rs` states what a walk finds in a whole message, and
  `src/arrival.rs` that it does not matter how the message arrives.
- `src/safety.rs` says who may touch a payload that several tasks share.
- `src/server/` runs an HTTP/2 connection: `h2.rs` decides what is asked next,
  `entry.rs`, `request.rs` and `pipe.rs` hold one request, `io.rs` the stream under
  the connection, and `laws.rs` what holds of every connection.
- `src/buf.rs` and `src/headers.rs` state what is relied on of the `bytes`,
  `http`, `httparse` and `mime` crates.

The library neither reads from a socket nor sleeps: each call says what is to be
done next, and the next call takes what came of it. `app/` does these things over
`futures`, `h2`, `tokio-io` and `tokio-timer`.
