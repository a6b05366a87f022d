//! A request as its handler gets it.

use http::header::{HeaderMap, HeaderValue};
use vstd::prelude::*;

use crate::server::pipe::Version;

verus! {

/// What a request begins with. `U` is the type of its target, `M` that of its method.
pub struct Parts<U, M> {
    pub uri: U,
    pub method: M,
    pub version: Version,
    pub headers: HeaderMap<HeaderValue>,
}

/// A request with all that its handler can know of it. `A` is the address of a peer, `X`
/// what a byte stream has besides, `P` a request body.
pub struct Message<U, M, A, X, P> {
    pub url: U,
    pub method: M,
    pub version: Version,
    pub headers: HeaderMap<HeaderValue>,
    /// What the stream under the connection has besides.
    pub stream_extensions: Option<X>,
    /// The body.
    pub payload: Option<P>,
    /// The address of the other side.
    pub addr: Option<A>,
}

impl<U, M, A, X, P> Message<U, M, A, X, P> {
    /// The message of a request on a connection.
    pub open spec fn of(
        parts: Parts<U, M>,
        payload: P,
        addr: Option<A>,
        extensions: Option<X>,
    ) -> Self {
        Message {
            url: parts.uri,
            method: parts.method,
            version: parts.version,
            headers: parts.headers,
            stream_extensions: extensions,
            payload: Some(payload),
            addr,
        }
    }

    /// The message of a request on a connection.
    pub fn new(parts: Parts<U, M>, payload: P, addr: Option<A>, extensions: Option<X>) -> (message:
        Self)
        ensures
            message == Message::of(parts, payload, addr, extensions),
    {
        Message {
            url: parts.uri,
            method: parts.method,
            version: parts.version,
            headers: parts.headers,
            stream_extensions: extensions,
            payload: Some(payload),
            addr,
        }
    }
}

/// A message holds what the request began with, its body, and who sent it.
pub proof fn law_message_holds_everything<U, M, A, X, P>(
    parts: Parts<U, M>,
    payload: P,
    addr: Option<A>,
    extensions: Option<X>,
)
    ensures
        ({
            let message = Message::of(parts, payload, addr, extensions);
            &&& message.url == parts.uri
            &&& message.method == parts.method
            &&& message.version == parts.version
            &&& message.headers == parts.headers
            &&& message.stream_extensions == extensions
            &&& message.payload == Some(payload)
            &&& message.addr == addr
        }),
{
}

} // verus!
