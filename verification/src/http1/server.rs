//! HTTP/1.1 server wrapper.

use vstd::prelude::*;

use super::connection::{Http1Connection, Http1Event};
use super::model::{H1, H1Sys};
use crate::bytes;
use crate::bytes::{Field, HeaderField};
use crate::error::Error;
use crate::http;
use crate::http::headers;
use crate::http::headers::{HeaderList, MAX_HEADERS};
use crate::http::server_conn::{HttpEvent, HttpServerConn};
use crate::http::{StatusCode, TimeoutConfig};
use crate::io::{IoBufs, Wire};
use crate::tls::{TlsBufKit, TlsWire};

verus! {

/// The unified event that an HTTP/1.1 event stands for.
pub open spec fn unified_event(ev: Http1Event) -> HttpEvent {
    match ev {
        Http1Event::Connected => HttpEvent::Connected,
        Http1Event::Headers(s) => HttpEvent::Headers(s),
        Http1Event::Data(s) => HttpEvent::Data(s),
        Http1Event::Finished(s) => HttpEvent::Finished(s),
        Http1Event::Timeout => HttpEvent::Timeout,
    }
}

/// The unified event that an HTTP/1.1 event stands for.
pub fn map_http1_event(ev: Http1Event) -> (r: HttpEvent)
    ensures
        r == unified_event(ev),
{
    match ev {
        Http1Event::Connected => HttpEvent::Connected,
        Http1Event::Headers(s) => HttpEvent::Headers(s),
        Http1Event::Data(s) => HttpEvent::Data(s),
        Http1Event::Finished(s) => HttpEvent::Finished(s),
        Http1Event::Timeout => HttpEvent::Timeout,
    }
}

impl H1 {
    /// The next event.
    pub open spec fn event_polled(self) -> (H1, Option<Http1Event>) {
        if self.events.len() == 0 {
            (self, None)
        } else {
            (H1 { events: self.events.skip(1), ..self }, Some(self.events[0]))
        }
    }
}

impl H1Sys {
    /// A response with this status and these headers is sent.
    pub open spec fn status_sent(self, id: u64, status: u16, fs: Seq<Field>) -> (
        H1Sys,
        Result<(), Error>,
    ) {
        if fs.len() >= MAX_HEADERS {
            (self, Err(Error::TooManyHeaders))
        } else {
            self.response_sent(id, headers::response_list(http::status_digits(status), fs))
        }
    }

    /// With another connection state.
    pub open spec fn with_conn(self, c: H1) -> H1Sys {
        H1Sys { c, ..self }
    }
}

/// HTTP/1.1 server: the connection with its I/O buffers.
#[derive(Debug)]
pub struct Http1Server<const BUF: usize, const HDRBUF: usize, const DATABUF: usize> {
    pub inner: Http1Connection<HDRBUF, DATABUF>,
    pub io: IoBufs<BUF>,
}

impl<const BUF: usize, const HDRBUF: usize, const DATABUF: usize> View for Http1Server<
    BUF,
    HDRBUF,
    DATABUF,
> {
    type V = H1Sys;

    open spec fn view(&self) -> H1Sys {
        self.inner.sys(self.io)
    }
}

impl<const BUF: usize, const HDRBUF: usize, const DATABUF: usize> Default for Http1Server<
    BUF,
    HDRBUF,
    DATABUF,
> {
    fn default() -> (r: Self)
        ensures
            r.wf(),
            r@ == Self::initial(),
    {
        Self::new()
    }
}

impl<const BUF: usize, const HDRBUF: usize, const DATABUF: usize> Http1Server<
    BUF,
    HDRBUF,
    DATABUF,
> {
    pub open spec fn wf(&self) -> bool {
        self.inner.wf() && self.io.wf()
    }

    /// A new server connection.
    pub open spec fn initial() -> H1Sys {
        H1Sys {
            c: H1::initial(true),
            io: Wire { recv: Seq::empty(), send: Seq::empty() },
            headers_cap: HDRBUF as int,
            data_cap: DATABUF as int,
            io_cap: BUF as int,
        }
    }

    /// Creates an HTTP/1.1 server connection.
    pub fn new() -> (r: Self)
        ensures
            r.wf(),
            r@ == Self::initial(),
    {
        Http1Server { inner: Http1Connection::new_server(), io: IoBufs::new() }
    }

    /// Feeds received TCP data.
    pub fn feed_data(&mut self, data: &[u8]) -> (r: Result<(), Error>)
        requires
            old(self).wf(),
        ensures
            final(self).wf(),
            (final(self)@, r) == old(self)@.fed(data@),
    {
        self.inner.feed_data(&mut self.io, data)
    }

    /// Pulls outgoing data to send on TCP.
    pub fn poll_output<'a>(&mut self, buf: &'a mut [u8]) -> (r: Option<&'a [u8]>)
        requires
            old(self).wf(),
        ensures
            bytes::chunk_at_start(old(buf)@, final(buf)@, r),
            final(self).wf(),
            final(self)@ == old(self)@.polled(old(buf)@.len() as int).0,
            match r {
                Some(chunk) => old(self)@.polled(old(buf)@.len() as int).1 == Some(chunk@),
                None => old(self)@.polled(old(buf)@.len() as int).1 is None,
            },
    {
        self.inner.poll_output(&mut self.io, buf)
    }

    /// Polls for events.
    pub fn poll_event(&mut self) -> (r: Option<Http1Event>)
        requires
            old(self).wf(),
        ensures
            final(self).wf(),
            final(self)@ == old(self)@.with_conn(old(self)@.c.event_polled().0),
            r == old(self)@.c.event_polled().1,
    {
        self.inner.poll_event()
    }

    /// Reads request headers, appending them to `out`.
    pub fn recv_headers(&mut self, stream_id: u64, out: &mut Vec<HeaderField>) -> (r: Result<
        (),
        Error,
    >)
        requires
            old(self).wf(),
        ensures
            final(self).wf(),
            final(self)@ == old(self)@.with_conn(old(self)@.c.headers_read(stream_id).0),
            bytes::fields(final(out)@) == bytes::fields(old(out)@) + old(self)@.c.headers_read(
                stream_id,
            ).1,
            r == old(self)@.c.headers_read(stream_id).2,
    {
        self.inner.recv_headers(stream_id, out)
    }

    /// Reads request body.
    pub fn recv_body(&mut self, stream_id: u64, buf: &mut [u8]) -> (r: Result<(usize, bool), Error>)
        requires
            old(self).wf(),
        ensures
            final(self).wf(),
            final(self)@ == old(self)@.with_conn(
                old(self)@.c.body_read(stream_id, old(buf)@.len() as int).0,
            ),
            final(buf)@ == bytes::splice(
                old(buf)@,
                0,
                old(self)@.c.body_read(stream_id, old(buf)@.len() as int).1,
            ),
            r == old(self)@.c.body_read(stream_id, old(buf)@.len() as int).2,
    {
        self.inner.recv_body(stream_id, buf)
    }

    /// Sends response headers.
    ///
    /// Encodes `HTTP/1.1 {status} {reason}\r\n` + headers + `\r\n`. A message
    /// carries one pseudo-header and up to 19 headers.
    pub fn send_response(
        &mut self,
        stream_id: u64,
        status: u16,
        headers: &[(&[u8], &[u8])],
        end_stream: bool,
    ) -> (r: Result<(), Error>)
        requires
            old(self).wf(),
        ensures
            final(self).wf(),
            (final(self)@, r) == old(self)@.status_sent(
                stream_id,
                status,
                bytes::pairs(headers@),
            ),
    {
        let status_str: [u8; 3] = StatusCode(status).to_bytes();
        let list: HeaderList<'_> = headers::response_headers(&status_str, headers)?;
        self.inner.send_headers(&mut self.io, stream_id, list.as_slice(), end_stream)
    }

    /// Sends response body data.
    pub fn send_body(&mut self, stream_id: u64, data: &[u8], end_stream: bool) -> (r: Result<
        usize,
        Error,
    >)
        requires
            old(self).wf(),
        ensures
            final(self).wf(),
            (final(self)@, r) == old(self)@.data_sent(stream_id, data@),
    {
        self.inner.send_data(&mut self.io, stream_id, data, end_stream)
    }

    /// Configures timeouts. `now` is the current timestamp in microseconds.
    pub fn set_timeouts(&mut self, config: TimeoutConfig, now: u64)
        requires
            old(self).wf(),
        ensures
            final(self).wf(),
            final(self)@ == old(self)@.with_conn(
                H1 {
                    timeouts: config,
                    last_activity: now,
                    connection_start: now,
                    ..old(self)@.c
                },
            ),
    {
        self.inner.set_timeouts(config, now);
    }

    /// The earliest deadline at which `handle_timeout` should be called.
    pub fn next_timeout(&self) -> (r: Option<u64>)
        ensures
            r == self@.c.next_deadline(),
    {
        self.inner.next_timeout()
    }

    /// Checks timeouts and emits events if they fire.
    pub fn handle_timeout(&mut self, now: u64)
        requires
            old(self).wf(),
        ensures
            final(self).wf(),
            final(self)@ == old(self)@.with_conn(old(self)@.c.timed(now)),
    {
        self.inner.handle_timeout(now);
    }

    /// Feeds data with timestamp tracking.
    pub fn feed_data_timed(&mut self, data: &[u8], now: u64) -> (r: Result<(), Error>)
        requires
            old(self).wf(),
        ensures
            final(self).wf(),
            (final(self)@, r) == old(self)@.fed_at(data@, now),
    {
        self.inner.feed_data_timed(&mut self.io, data, now)
    }

    /// Whether the connection is closed.
    pub fn is_closed(&self) -> (r: bool)
        ensures
            r == self@.c.closed,
    {
        self.inner.is_closed()
    }

    /// Whether the connection is usable.
    pub fn is_established(&self) -> (r: bool)
        ensures
            r == !self@.c.closed,
    {
        self.inner.is_established()
    }
}

/// Cleartext HTTP/1.1 over a plain TCP byte stream: data is fed and pulled
/// without a TLS layer.
impl<const BUF: usize, const HDRBUF: usize, const DATABUF: usize> HttpServerConn for Http1Server<
    BUF,
    HDRBUF,
    DATABUF,
> {
    open spec fn conn_wf(&self) -> bool {
        self.wf()
    }

    open spec fn event_polled(s: H1Sys) -> (H1Sys, Option<HttpEvent>) {
        let (c, ev) = s.c.event_polled();
        (
            s.with_conn(c),
            match ev {
                Some(e) => Some(unified_event(e)),
                None => None,
            },
        )
    }

    open spec fn headers_read(s: H1Sys, id: u64) -> (H1Sys, Seq<Field>, Result<(), Error>) {
        let (c, fs, r) = s.c.headers_read(id);
        (s.with_conn(c), fs, r)
    }

    open spec fn body_read(s: H1Sys, id: u64, room: int) -> (
        H1Sys,
        Seq<u8>,
        Result<(usize, bool), Error>,
    ) {
        let (c, body, r) = s.c.body_read(id, room);
        (s.with_conn(c), body, r)
    }

    open spec fn response_sent(s: H1Sys, id: u64, status: u16, fs: Seq<Field>, end: bool) -> (
        H1Sys,
        Result<(), Error>,
    ) {
        s.status_sent(id, status, fs)
    }

    open spec fn body_sent(s: H1Sys, id: u64, data: Seq<u8>, end: bool) -> (
        H1Sys,
        Result<usize, Error>,
    ) {
        s.data_sent(id, data)
    }

    open spec fn established(s: H1Sys) -> bool {
        !s.c.closed
    }

    open spec fn closed(s: H1Sys) -> bool {
        s.c.closed
    }

    open spec fn deadline(s: H1Sys) -> Option<u64> {
        s.c.next_deadline()
    }

    open spec fn timed_out(s: H1Sys, now: u64) -> H1Sys {
        s.with_conn(s.c.timed(now))
    }

    open spec fn fed(s: H1Sys, data: Seq<u8>) -> (H1Sys, Result<(), Error>) {
        s.fed(data)
    }

    open spec fn fed_timed(s: H1Sys, data: Seq<u8>, now: u64) -> (H1Sys, Result<(), Error>) {
        s.fed_at(data, now)
    }

    open spec fn output_polled(s: H1Sys, room: int) -> (H1Sys, Option<Seq<u8>>) {
        s.polled(room)
    }

    open spec fn blocked(s: H1Sys) -> bool {
        false
    }

    open spec fn reclaimed(s: H1Sys) -> (H1Sys, Option<TlsWire>) {
        (s, None)
    }

    fn poll_event(&mut self, scratch: &mut [u8]) -> (r: Option<HttpEvent>) {
        match Http1Server::poll_event(self) {
            Some(ev) => Some(map_http1_event(ev)),
            None => None,
        }
    }

    fn recv_headers(&mut self, stream_id: u64, out: &mut Vec<HeaderField>) -> (r: Result<
        (),
        Error,
    >) {
        Http1Server::recv_headers(self, stream_id, out)
    }

    fn recv_body(&mut self, stream_id: u64, buf: &mut [u8]) -> (r: Result<(usize, bool), Error>) {
        Http1Server::recv_body(self, stream_id, buf)
    }

    fn send_response(
        &mut self,
        stream_id: u64,
        status: u16,
        headers: &[(&[u8], &[u8])],
        end_stream: bool,
    ) -> (r: Result<(), Error>) {
        Http1Server::send_response(self, stream_id, status, headers, end_stream)
    }

    fn send_body(&mut self, stream_id: u64, data: &[u8], end_stream: bool) -> (r: Result<
        usize,
        Error,
    >) {
        Http1Server::send_body(self, stream_id, data, end_stream)
    }

    fn is_established(&self) -> (r: bool) {
        Http1Server::is_established(self)
    }

    fn is_closed(&self) -> (r: bool) {
        Http1Server::is_closed(self)
    }

    fn next_timeout(&self) -> (r: Option<u64>) {
        Http1Server::next_timeout(self)
    }

    fn handle_timeout(&mut self, now: u64) {
        Http1Server::handle_timeout(self, now)
    }

    fn tcp_feed_data(&mut self, data: &[u8]) -> (r: Result<(), Error>) {
        Http1Server::feed_data(self, data)
    }

    fn tcp_feed_data_timed(&mut self, data: &[u8], now: u64) -> (r: Result<(), Error>) {
        Http1Server::feed_data_timed(self, data, now)
    }

    fn tcp_poll_output<'a>(&mut self, buf: &'a mut [u8]) -> (r: Option<&'a [u8]>) {
        Http1Server::poll_output(self, buf)
    }

    fn recv_blocked(&self) -> (r: bool) {
        false
    }

    fn reclaim_buffers(&mut self) -> (r: Option<TlsBufKit>) {
        None
    }
}

} // verus!
