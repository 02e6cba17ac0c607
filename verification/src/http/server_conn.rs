//! Unified HTTP server connection trait.
//!
//! [`HttpServerConn`] is one interface to HTTP/1.1, HTTP/2 and HTTP/3 server
//! connections, so that the connection manager handles all of them in one
//! event loop.

use vstd::prelude::*;

/// What a connection is modelled by, for those who implement one.
pub use vstd::view::View as Modelled;

use crate::bytes;
use crate::bytes::{Field, HeaderField};
use crate::error::Error;
use crate::tls::{kit_returned, TlsBufKit, TlsWire};

verus! {

/// Unified event from any HTTP protocol.
#[derive(Debug, Clone, Copy, PartialEq, Eq, Structural)]
pub enum HttpEvent {
    /// Connection/settings exchange complete.
    Connected,
    /// Headers received on a stream.
    Headers(u64),
    /// Body data available on a stream.
    Data(u64),
    /// Stream finished (FIN / END_STREAM received).
    Finished(u64),
    /// Peer reset a stream.
    StreamReset { stream_id: u64, error_code: u64 },
    /// Peer sent GOAWAY or CONNECTION_CLOSE.
    GoAway { error_code: u64 },
    /// A timeout fired.
    Timeout,
}

/// An HTTP server connection.
///
/// What each method does is stated by a spec function from the connection's
/// view to the view after it and what is returned.
pub trait HttpServerConn: View + Sized {
    /// The connection is well-formed.
    spec fn conn_wf(&self) -> bool;

    spec fn event_polled(s: Self::V) -> (Self::V, Option<HttpEvent>);

    spec fn headers_read(s: Self::V, id: u64) -> (Self::V, Seq<Field>, Result<(), Error>);

    spec fn body_read(s: Self::V, id: u64, room: int) -> (
        Self::V,
        Seq<u8>,
        Result<(usize, bool), Error>,
    );

    spec fn response_sent(s: Self::V, id: u64, status: u16, fs: Seq<Field>, end: bool) -> (
        Self::V,
        Result<(), Error>,
    );

    spec fn body_sent(s: Self::V, id: u64, data: Seq<u8>, end: bool) -> (
        Self::V,
        Result<usize, Error>,
    );

    spec fn established(s: Self::V) -> bool;

    spec fn closed(s: Self::V) -> bool;

    spec fn deadline(s: Self::V) -> Option<u64>;

    spec fn timed_out(s: Self::V, now: u64) -> Self::V;

    spec fn fed(s: Self::V, data: Seq<u8>) -> (Self::V, Result<(), Error>);

    spec fn fed_timed(s: Self::V, data: Seq<u8>, now: u64) -> (Self::V, Result<(), Error>);

    spec fn output_polled(s: Self::V, room: int) -> (Self::V, Option<Seq<u8>>);

    spec fn blocked(s: Self::V) -> bool;

    /// What the lent buffers hold that are taken back, if there are any.
    spec fn reclaimed(s: Self::V) -> (Self::V, Option<TlsWire>);

    /// Polls for the next HTTP event. `scratch` is for temporary stream reads;
    /// protocols over TCP ignore it.
    fn poll_event(&mut self, scratch: &mut [u8]) -> (r: Option<HttpEvent>)
        requires
            old(self).conn_wf(),
        ensures
            final(self).conn_wf(),
            (final(self)@, r) == Self::event_polled(old(self)@),
            final(scratch)@.len() == old(scratch)@.len(),
    ;

    /// Reads the decoded headers of a stream, appending them to `out`.
    fn recv_headers(&mut self, stream_id: u64, out: &mut Vec<HeaderField>) -> (r: Result<(), Error>)
        requires
            old(self).conn_wf(),
        ensures
            final(self).conn_wf(),
            final(self)@ == Self::headers_read(old(self)@, stream_id).0,
            bytes::fields(final(out)@) == bytes::fields(old(out)@) + Self::headers_read(
                old(self)@,
                stream_id,
            ).1,
            r == Self::headers_read(old(self)@, stream_id).2,
    ;

    /// Reads body data of a stream. Returns how much, and whether it was the last.
    fn recv_body(&mut self, stream_id: u64, buf: &mut [u8]) -> (r: Result<(usize, bool), Error>)
        requires
            old(self).conn_wf(),
        ensures
            final(self).conn_wf(),
            final(self)@ == Self::body_read(old(self)@, stream_id, old(buf)@.len() as int).0,
            final(buf)@ == bytes::splice(
                old(buf)@,
                0,
                Self::body_read(old(self)@, stream_id, old(buf)@.len() as int).1,
            ),
            r == Self::body_read(old(self)@, stream_id, old(buf)@.len() as int).2,
    ;

    /// Sends response headers on a stream.
    fn send_response(
        &mut self,
        stream_id: u64,
        status: u16,
        headers: &[(&[u8], &[u8])],
        end_stream: bool,
    ) -> (r: Result<(), Error>)
        requires
            old(self).conn_wf(),
        ensures
            final(self).conn_wf(),
            (final(self)@, r) == Self::response_sent(
                old(self)@,
                stream_id,
                status,
                bytes::pairs(headers@),
                end_stream,
            ),
    ;

    /// Sends body data on a stream. Returns how much was taken.
    fn send_body(&mut self, stream_id: u64, data: &[u8], end_stream: bool) -> (r: Result<
        usize,
        Error,
    >)
        requires
            old(self).conn_wf(),
        ensures
            final(self).conn_wf(),
            (final(self)@, r) == Self::body_sent(old(self)@, stream_id, data@, end_stream),
    ;

    /// Whether the connection is established (handshake/settings complete).
    fn is_established(&self) -> (r: bool)
        ensures
            r == Self::established(self@),
    ;

    /// Whether the connection is closed.
    fn is_closed(&self) -> (r: bool)
        ensures
            r == Self::closed(self@),
    ;

    /// The earliest timeout deadline, or `None`.
    fn next_timeout(&self) -> (r: Option<u64>)
        ensures
            r == Self::deadline(self@),
    ;

    /// Checks and handles timeout expiration.
    fn handle_timeout(&mut self, now: u64)
        requires
            old(self).conn_wf(),
        ensures
            final(self).conn_wf(),
            final(self)@ == Self::timed_out(old(self)@, now),
    ;

    /// Feeds TCP data into the connection. Connections over UDP take none.
    fn tcp_feed_data(&mut self, data: &[u8]) -> (r: Result<(), Error>)
        requires
            old(self).conn_wf(),
        ensures
            final(self).conn_wf(),
            (final(self)@, r) == Self::fed(old(self)@, data@),
    ;

    /// Feeds TCP data with a timestamp, so that idle timeouts measure real
    /// idleness. The manager always feeds through this method.
    fn tcp_feed_data_timed(&mut self, data: &[u8], now: u64) -> (r: Result<(), Error>)
        requires
            old(self).conn_wf(),
        ensures
            final(self).conn_wf(),
            (final(self)@, r) == Self::fed_timed(old(self)@, data@, now),
    ;

    /// Pulls outgoing TCP data. Connections over UDP have none.
    fn tcp_poll_output<'a>(&mut self, buf: &'a mut [u8]) -> (r: Option<&'a [u8]>)
        requires
            old(self).conn_wf(),
        ensures
            bytes::chunk_at_start(old(buf)@, final(buf)@, r),
            final(self).conn_wf(),
            final(self)@ == Self::output_polled(old(self)@, old(buf)@.len() as int).0,
            match r {
                Some(chunk) => Self::output_polled(old(self)@, old(buf)@.len() as int).1 == Some(
                    chunk@,
                ),
                None => Self::output_polled(old(self)@, old(buf)@.len() as int).1 is None,
            },
    ;

    /// Whether the connection holds received data behind a full application
    /// buffer. No more should be read for it then; feeding an empty slice
    /// resumes it once the application has read.
    fn recv_blocked(&self) -> (r: bool)
        ensures
            r == Self::blocked(self@),
    ;

    /// Takes back the lent buffers behind this connection, if it was built on
    /// such. Called once on teardown. The contract says what the storage holds, not
    /// that it is the very storage that was lent.
    fn reclaim_buffers(&mut self) -> (r: Option<TlsBufKit>)
        requires
            old(self).conn_wf(),
        ensures
            final(self).conn_wf(),
            final(self)@ == Self::reclaimed(old(self)@).0,
            kit_returned(r, Self::reclaimed(old(self)@).1),
    ;
}

} // verus!
