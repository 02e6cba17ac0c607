//! HTTPS/1.1: TLS and HTTP/1.1 with shared buffers.
//!
//! Three buffers instead of six:
//!
//! | Buffer | Purpose |
//! |--------|---------|
//! | received | decrypted by TLS, and what HTTP receives from |
//! | to be sent | what HTTP sends, and what TLS encrypts |
//! | network | encrypted bytes for the network |

use vstd::prelude::*;

use crate::bytes;
use crate::bytes::{Field, HeaderField};
use crate::error::Error;
use crate::http;
use crate::http::headers;
use crate::http::headers::{HeaderList, MAX_HEADERS};
use crate::http::server_conn::{HttpEvent, HttpServerConn};
use crate::http::{StatusCode, TimeoutConfig};
use crate::http1::connection::{Http1Connection, Http1Event};
use crate::http1::model::{H1, H1Sys};
use crate::http1::server::{map_http1_event, unified_event};
use crate::tls::{
    PartsModel, ServerTlsConfig, TlsBufKit, TlsBufs, TlsConfig, TlsParts, TlsSession, TlsWire,
};

verus! {

/// A TLS session with an HTTP connection on top, and the buffers between them.
pub struct Secured<V, C> {
    pub tls: V,
    pub http: C,
    pub wire: TlsWire,
    pub lent: bool,
}

/// A TLS session with an HTTP/1.1 connection on top: what client and server have in
/// common.
pub struct Https1Link<S: TlsSession, const BUF: usize, const HDRBUF: usize, const DATABUF: usize> {
    pub tls: S,
    pub http: Http1Connection<HDRBUF, DATABUF>,
    pub bufs: TlsBufs<BUF>,
}

impl<S: TlsSession, const BUF: usize, const HDRBUF: usize, const DATABUF: usize> View for Https1Link<S, BUF, HDRBUF, DATABUF> {
    type V = Secured<S::V, H1>;

    open spec fn view(&self) -> Secured<S::V, H1> {
        Secured { tls: self.tls@, http: self.http@, wire: self.bufs@, lent: self.bufs.lent }
    }
}

impl<S: TlsSession, const BUF: usize, const HDRBUF: usize, const DATABUF: usize> Https1Link<S, BUF, HDRBUF, DATABUF> {
    pub open spec fn wf(&self) -> bool {
        self.http.wf() && self.bufs.wf()
    }

    /// The HTTP connection with the buffers that it uses.
    pub open spec fn sys(s: Secured<S::V, H1>) -> H1Sys {
        H1Sys {
            c: s.http,
            io: s.wire.io,
            headers_cap: HDRBUF as int,
            data_cap: DATABUF as int,
            io_cap: BUF as int,
        }
    }

    /// With what the HTTP connection has made of itself and its buffers.
    pub open spec fn with_sys(s: Secured<S::V, H1>, h: H1Sys) -> Secured<S::V, H1> {
        Secured { http: h.c, wire: TlsWire { io: h.io, ..s.wire }, ..s }
    }

    /// Bytes arrive from the network: TLS decrypts them, and where there is
    /// plaintext the HTTP connection processes it.
    pub open spec fn fed(s: Secured<S::V, H1>, data: Seq<u8>) -> (
        Secured<S::V, H1>,
        Result<(), Error>,
    ) {
        let (tls, wire, r) = S::fed(s.tls, s.wire, data, BUF as int);
        let t = Secured { tls, wire, ..s };
        match r {
            Err(e) => (t, Err(e)),
            Ok(()) => if wire.io.recv.len() == 0 {
                (t, Ok(()))
            } else {
                let (h, r2) = Self::sys(t).fed(Seq::empty());
                (Self::with_sys(t, h), r2)
            },
        }
    }

    /// Bytes arrive from the network at a known time.
    pub open spec fn fed_at(s: Secured<S::V, H1>, data: Seq<u8>, now: u64) -> (
        Secured<S::V, H1>,
        Result<(), Error>,
    ) {
        let (tls, wire, r) = S::fed(s.tls, s.wire, data, BUF as int);
        let t = Secured { tls, wire, ..s };
        match r {
            Err(e) => (t, Err(e)),
            Ok(()) => if wire.io.recv.len() == 0 {
                (t, Ok(()))
            } else {
                let (h, r2) = Self::sys(t).fed_at(Seq::empty(), now);
                (Self::with_sys(t, h), r2)
            },
        }
    }

    /// TLS encrypts and puts out what waits to be sent.
    pub open spec fn polled(s: Secured<S::V, H1>, room: int) -> (
        Secured<S::V, H1>,
        Option<Seq<u8>>,
    ) {
        let t = s;
        let (tls, wire, out) = S::polled(t.tls, t.wire, room, BUF as int);
        (Secured { tls, wire, ..t }, out)
    }

    /// The next event.
    pub open spec fn event_polled(s: Secured<S::V, H1>) -> (
        Secured<S::V, H1>,
        Option<Http1Event>,
    ) {
        let (c, ev) = s.http.event_polled();
        (Secured { http: c, ..s }, ev)
    }

    /// Whether the connection can be used.
    pub open spec fn established(s: Secured<S::V, H1>) -> bool {
        S::active(s.tls)
    }

    /// Whether either layer is closed.
    pub open spec fn closed(s: Secured<S::V, H1>) -> bool {
        S::shut(s.tls) || s.http.closed
    }

    /// Headers of a message are read.
    pub open spec fn headers_read(s: Secured<S::V, H1>, id: u64) -> (
        Secured<S::V, H1>,
        Seq<Field>,
        Result<(), Error>,
    ) {
        let (c, fs, r) = s.http.headers_read(id);
        (Secured { http: c, ..s }, fs, r)
    }

    /// Body bytes are read.
    pub open spec fn body_read(s: Secured<S::V, H1>, id: u64, room: int) -> (
        Secured<S::V, H1>,
        Seq<u8>,
        Result<(usize, bool), Error>,
    ) {
        let (c, body, r) = s.http.body_read(id, room);
        (Secured { http: c, ..s }, body, r)
    }

    /// A response is sent, once the handshake is complete.
    pub open spec fn response_sent(
        s: Secured<S::V, H1>,
        id: u64,
        status: u16,
        fs: Seq<Field>,
        end: bool,
    ) -> (Secured<S::V, H1>, Result<(), Error>) {
        if !S::active(s.tls) {
            (s, Err(Error::InvalidState))
        } else {
            let (h, r) = Self::sys(s).status_sent(id, status, fs);
            (Self::with_sys(s, h), r)
        }
    }

    /// A request is sent, once the handshake is complete.
    pub open spec fn request_sent(
        s: Secured<S::V, H1>,
        method: Seq<u8>,
        path: Seq<u8>,
        authority: Seq<u8>,
        fs: Seq<Field>,
        end: bool,
    ) -> (Secured<S::V, H1>, Result<u64, Error>) {
        let all = headers::request_list(method, path, None, authority, fs);
        if !S::active(s.tls) {
            (s, Err(Error::InvalidState))
        } else if all.len() > MAX_HEADERS {
            (s, Err(Error::TooManyHeaders))
        } else {
            let (h, r) = Self::sys(s).request_sent(all);
            (Self::with_sys(s, h), r)
        }
    }

    /// Body bytes are sent, once the handshake is complete.
    pub open spec fn body_sent(s: Secured<S::V, H1>, id: u64, data: Seq<u8>, end: bool) -> (
        Secured<S::V, H1>,
        Result<usize, Error>,
    ) {
        if !S::active(s.tls) {
            (s, Err(Error::InvalidState))
        } else {
            let (h, r) = Self::sys(s).data_sent(id, data);
            (Self::with_sys(s, h), r)
        }
    }

    /// Time passes.
    pub open spec fn timed(s: Secured<S::V, H1>, now: u64) -> Secured<S::V, H1> {
        Secured { http: s.http.timed(now), ..s }
    }

    /// TLS starts a graceful close.
    pub open spec fn closing(s: Secured<S::V, H1>) -> (Secured<S::V, H1>, Result<(), Error>) {
        let (tls, wire, r) = S::closing(s.tls, s.wire, BUF as int);
        (Secured { tls, wire, ..s }, r)
    }

    /// Lent buffers are given back.
    pub open spec fn reclaimed(s: Secured<S::V, H1>) -> (Secured<S::V, H1>, Option<TlsWire>) {
        if s.lent {
            (Secured { wire: TlsWire::empty(), lent: false, ..s }, Some(s.wire))
        } else {
            (s, None)
        }
    }

    fn feed_data(&mut self, data: &[u8]) -> (r: Result<(), Error>)
        requires
            old(self).wf(),
        ensures
            final(self).wf(),
            (final(self)@, r) == Self::fed(old(self)@, data@),
    {
        self.tls.feed_data(&mut self.bufs, data)?;
        if !self.bufs.io.recv_buf.is_empty() {
            let none: [u8; 0] = [];
            assert(none@ =~= Seq::<u8>::empty());
            self.http.feed_data(&mut self.bufs.io, &none)?;
        }
        Ok(())
    }

    fn feed_data_timed(&mut self, data: &[u8], now: u64) -> (r: Result<(), Error>)
        requires
            old(self).wf(),
        ensures
            final(self).wf(),
            (final(self)@, r) == Self::fed_at(old(self)@, data@, now),
    {
        self.tls.feed_data(&mut self.bufs, data)?;
        if !self.bufs.io.recv_buf.is_empty() {
            let none: [u8; 0] = [];
            assert(none@ =~= Seq::<u8>::empty());
            self.http.feed_data_timed(&mut self.bufs.io, &none, now)?;
        }
        Ok(())
    }

    fn poll_output<'a>(&mut self, buf: &'a mut [u8]) -> (r: Option<&'a [u8]>)
        requires
            old(self).wf(),
        ensures
            bytes::chunk_at_start(old(buf)@, final(buf)@, r),
            final(self).wf(),
            final(self)@ == Self::polled(old(self)@, old(buf)@.len() as int).0,
            match r {
                Some(chunk) => Self::polled(old(self)@, old(buf)@.len() as int).1 == Some(chunk@),
                None => Self::polled(old(self)@, old(buf)@.len() as int).1 is None,
            },
    {
        self.tls.poll_output(&mut self.bufs, buf)
    }

    fn poll_event(&mut self) -> (r: Option<Http1Event>)
        requires
            old(self).wf(),
        ensures
            final(self).wf(),
            (final(self)@, r) == Self::event_polled(old(self)@),
    {
        self.http.poll_event()
    }

    fn is_established(&self) -> (r: bool)
        ensures
            r == Self::established(self@),
    {
        self.tls.is_active()
    }

    fn is_closed(&self) -> (r: bool)
        ensures
            r == Self::closed(self@),
    {
        self.tls.is_closed() || self.http.is_closed()
    }

    fn send_request(
        &mut self,
        method: &[u8],
        path: &[u8],
        authority: &[u8],
        extra_headers: &[(&[u8], &[u8])],
        end_stream: bool,
    ) -> (r: Result<u64, Error>)
        requires
            old(self).wf(),
        ensures
            final(self).wf(),
            (final(self)@, r) == Self::request_sent(
                old(self)@,
                method@,
                path@,
                authority@,
                bytes::pairs(extra_headers@),
                end_stream,
            ),
    {
        if !self.tls.is_active() {
            return Err(Error::InvalidState);
        }
        let list: HeaderList<'_> = headers::request_headers(
            method,
            path,
            false,
            authority,
            extra_headers,
        )?;
        self.http.open_stream(&mut self.bufs.io, list.as_slice(), end_stream)
    }

    fn send_response(
        &mut self,
        stream_id: u64,
        status: u16,
        headers: &[(&[u8], &[u8])],
        end_stream: bool,
    ) -> (r: Result<(), Error>)
        requires
            old(self).wf(),
        ensures
            final(self).wf(),
            (final(self)@, r) == Self::response_sent(
                old(self)@,
                stream_id,
                status,
                bytes::pairs(headers@),
                end_stream,
            ),
    {
        if !self.tls.is_active() {
            return Err(Error::InvalidState);
        }
        let status_str: [u8; 3] = StatusCode(status).to_bytes();
        let list: HeaderList<'_> = headers::response_headers(&status_str, headers)?;
        self.http.send_headers(&mut self.bufs.io, stream_id, list.as_slice(), end_stream)
    }

    fn send_body(&mut self, stream_id: u64, data: &[u8], end_stream: bool) -> (r: Result<
        usize,
        Error,
    >)
        requires
            old(self).wf(),
        ensures
            final(self).wf(),
            (final(self)@, r) == Self::body_sent(old(self)@, stream_id, data@, end_stream),
    {
        if !self.tls.is_active() {
            return Err(Error::InvalidState);
        }
        self.http.send_data(&mut self.bufs.io, stream_id, data, end_stream)
    }

    fn recv_headers(&mut self, stream_id: u64, out: &mut Vec<HeaderField>) -> (r: Result<(), Error>)
        requires
            old(self).wf(),
        ensures
            final(self).wf(),
            final(self)@ == Self::headers_read(old(self)@, stream_id).0,
            bytes::fields(final(out)@) == bytes::fields(old(out)@) + Self::headers_read(
                old(self)@,
                stream_id,
            ).1,
            r == Self::headers_read(old(self)@, stream_id).2,
    {
        self.http.recv_headers(stream_id, out)
    }

    fn recv_body(&mut self, stream_id: u64, buf: &mut [u8]) -> (r: Result<(usize, bool), Error>)
        requires
            old(self).wf(),
        ensures
            final(self).wf(),
            final(self)@ == Self::body_read(old(self)@, stream_id, old(buf)@.len() as int).0,
            final(buf)@ == bytes::splice(
                old(buf)@,
                0,
                Self::body_read(old(self)@, stream_id, old(buf)@.len() as int).1,
            ),
            r == Self::body_read(old(self)@, stream_id, old(buf)@.len() as int).2,
    {
        self.http.recv_body(stream_id, buf)
    }

    fn set_timeouts(&mut self, config: TimeoutConfig, now: u64)
        requires
            old(self).wf(),
        ensures
            final(self).wf(),
            final(self)@ == (Secured {
                http: H1 {
                    timeouts: config,
                    last_activity: now,
                    connection_start: now,
                    ..old(self)@.http
                },
                ..old(self)@
            }),
    {
        self.http.set_timeouts(config, now);
    }

    fn handle_timeout(&mut self, now: u64)
        requires
            old(self).wf(),
        ensures
            final(self).wf(),
            final(self)@ == Self::timed(old(self)@, now),
    {
        self.http.handle_timeout(now);
    }

    fn close(&mut self) -> (r: Result<(), Error>)
        requires
            old(self).wf(),
        ensures
            final(self).wf(),
            (final(self)@, r) == Self::closing(old(self)@),
    {
        self.tls.close(&mut self.bufs)
    }
}

/// HTTPS/1.1 client.
///
/// Generic parameters:
/// - `S`: TLS session
/// - `BUF`: capacity of each I/O buffer
/// - `HDRBUF`: header storage
/// - `DATABUF`: body data storage
pub struct Https1Client<S: TlsSession, const BUF: usize, const HDRBUF: usize, const DATABUF: usize> {
    pub link: Https1Link<S, BUF, HDRBUF, DATABUF>,
}

impl<S: TlsSession, const BUF: usize, const HDRBUF: usize, const DATABUF: usize> View for Https1Client<S, BUF, HDRBUF, DATABUF> {
    type V = Secured<S::V, H1>;

    open spec fn view(&self) -> Secured<S::V, H1> {
        self.link@
    }
}

impl<S: TlsSession, const BUF: usize, const HDRBUF: usize, const DATABUF: usize> Https1Client<S, BUF, HDRBUF, DATABUF> {
    pub open spec fn wf(&self) -> bool {
        self.link.wf()
    }

    /// Creates a HTTPS/1.1 client connection.
    pub fn new(config: &TlsConfig, secret: [u8; 32], random: [u8; 32]) -> (r: Self)
        ensures
            r.wf(),
            r@ == (Secured {
                tls: S::client(*config, secret@, random@),
                http: H1::initial(false),
                wire: TlsWire::empty(),
                lent: false,
            }),
    {
        Https1Client {
            link: Https1Link {
                tls: S::new_client(config, secret, random),
                http: Http1Connection::new_client(),
                bufs: TlsBufs::new(),
            },
        }
    }

    /// Feeds received TCP data (encrypted). What it decrypts to is processed.
    pub fn feed_data(&mut self, data: &[u8]) -> (r: Result<(), Error>)
        requires
            old(self).wf(),
        ensures
            final(self).wf(),
            (final(self)@, r) == Https1Link::<S, BUF, HDRBUF, DATABUF>::fed(old(self)@, data@),
    {
        self.link.feed_data(data)
    }

    /// Feeds data with timestamp tracking.
    pub fn feed_data_timed(&mut self, data: &[u8], now: u64) -> (r: Result<(), Error>)
        requires
            old(self).wf(),
        ensures
            final(self).wf(),
            (final(self)@, r) == Https1Link::<S, BUF, HDRBUF, DATABUF>::fed_at(old(self)@, data@, now),
    {
        self.link.feed_data_timed(data, now)
    }

    /// Pulls outgoing TCP data (encrypted).
    pub fn poll_output<'a>(&mut self, buf: &'a mut [u8]) -> (r: Option<&'a [u8]>)
        requires
            old(self).wf(),
        ensures
            bytes::chunk_at_start(old(buf)@, final(buf)@, r),
            final(self).wf(),
            final(self)@ == Https1Link::<S, BUF, HDRBUF, DATABUF>::polled(old(self)@, old(buf)@.len() as int).0,
            match r {
                Some(chunk) => Https1Link::<S, BUF, HDRBUF, DATABUF>::polled(
                    old(self)@,
                    old(buf)@.len() as int,
                ).1 == Some(chunk@),
                None => Https1Link::<S, BUF, HDRBUF, DATABUF>::polled(old(self)@, old(buf)@.len() as int).1 is None,
            },
    {
        self.link.poll_output(buf)
    }

    /// Polls for HTTP events.
    pub fn poll_event(&mut self) -> (r: Option<Http1Event>)
        requires
            old(self).wf(),
        ensures
            final(self).wf(),
            (final(self)@, r) == Https1Link::<S, BUF, HDRBUF, DATABUF>::event_polled(old(self)@),
    {
        self.link.poll_event()
    }

    /// Whether the TLS handshake is complete.
    pub fn is_established(&self) -> (r: bool)
        ensures
            r == Https1Link::<S, BUF, HDRBUF, DATABUF>::established(self@),
    {
        self.link.is_established()
    }

    /// Whether the connection is closed.
    pub fn is_closed(&self) -> (r: bool)
        ensures
            r == Https1Link::<S, BUF, HDRBUF, DATABUF>::closed(self@),
    {
        self.link.is_closed()
    }

    /// Sends a request: 3 pseudo-headers and up to 17 headers. Returns the stream
    /// ID. Fails if the TLS handshake is not complete.
    pub fn send_request(
        &mut self,
        method: &str,
        path: &str,
        authority: &str,
        extra_headers: &[(&[u8], &[u8])],
        end_stream: bool,
    ) -> (r: Result<u64, Error>)
        requires
            old(self).wf(),
        ensures
            final(self).wf(),
            (final(self)@, r) == Https1Link::<S, BUF, HDRBUF, DATABUF>::request_sent(
                old(self)@,
                vstd::utf8::encode_utf8(method@),
                vstd::utf8::encode_utf8(path@),
                vstd::utf8::encode_utf8(authority@),
                bytes::pairs(extra_headers@),
                end_stream,
            ),
    {
        self.link.send_request(
            method.as_bytes(),
            path.as_bytes(),
            authority.as_bytes(),
            extra_headers,
            end_stream,
        )
    }

    /// Sends body data on a stream.
    pub fn send_body(&mut self, stream_id: u64, data: &[u8], end_stream: bool) -> (r: Result<
        usize,
        Error,
    >)
        requires
            old(self).wf(),
        ensures
            final(self).wf(),
            (final(self)@, r) == Https1Link::<S, BUF, HDRBUF, DATABUF>::body_sent(
                old(self)@,
                stream_id,
                data@,
                end_stream,
            ),
    {
        self.link.send_body(stream_id, data, end_stream)
    }

    /// Reads response headers, appending them to `out`.
    pub fn recv_headers(&mut self, stream_id: u64, out: &mut Vec<HeaderField>) -> (r: Result<
        (),
        Error,
    >)
        requires
            old(self).wf(),
        ensures
            final(self).wf(),
            final(self)@ == Https1Link::<S, BUF, HDRBUF, DATABUF>::headers_read(old(self)@, stream_id).0,
            bytes::fields(final(out)@) == bytes::fields(old(out)@) + Https1Link::<S, BUF, HDRBUF, DATABUF>::headers_read(
                old(self)@,
                stream_id,
            ).1,
            r == Https1Link::<S, BUF, HDRBUF, DATABUF>::headers_read(old(self)@, stream_id).2,
    {
        self.link.recv_headers(stream_id, out)
    }

    /// Reads response body.
    pub fn recv_body(&mut self, stream_id: u64, buf: &mut [u8]) -> (r: Result<(usize, bool), Error>)
        requires
            old(self).wf(),
        ensures
            final(self).wf(),
            ({
                let (s, body, result) = Https1Link::<S, BUF, HDRBUF, DATABUF>::body_read(
                    old(self)@,
                    stream_id,
                    old(buf)@.len() as int,
                );
                &&& final(self)@ == s
                &&& final(buf)@ == bytes::splice(old(buf)@, 0, body)
                &&& r == result
            }),
    {
        self.link.recv_body(stream_id, buf)
    }

    /// Configures timeouts.
    pub fn set_timeouts(&mut self, config: TimeoutConfig, now: u64)
        requires
            old(self).wf(),
        ensures
            final(self).wf(),
            final(self)@ == (Secured {
                http: H1 {
                    timeouts: config,
                    last_activity: now,
                    connection_start: now,
                    ..old(self)@.http
                },
                ..old(self)@
            }),
    {
        self.link.set_timeouts(config, now);
    }

    /// The earliest deadline at which `handle_timeout` should be called.
    pub fn next_timeout(&self) -> (r: Option<u64>)
        ensures
            r == self@.http.next_deadline(),
    {
        self.link.http.next_timeout()
    }

    /// Checks timeouts and emits events if they fire.
    pub fn handle_timeout(&mut self, now: u64)
        requires
            old(self).wf(),
        ensures
            final(self).wf(),
            final(self)@ == Https1Link::<S, BUF, HDRBUF, DATABUF>::timed(old(self)@, now),
    {
        self.link.handle_timeout(now);
    }

    /// The negotiated application protocol.
    pub fn alpn(&self) -> (r: Option<&[u8]>)
        ensures
            match r {
                Some(p) => S::protocol(self@.tls) == Some(p@),
                None => S::protocol(self@.tls) is None,
            },
    {
        self.link.tls.alpn()
    }

    /// Starts a graceful close.
    pub fn close(&mut self) -> (r: Result<(), Error>)
        requires
            old(self).wf(),
        ensures
            final(self).wf(),
            (final(self)@, r) == Https1Link::<S, BUF, HDRBUF, DATABUF>::closing(old(self)@),
    {
        self.link.close()
    }
}

impl<S: TlsSession, const BUF: usize, const HDRBUF: usize, const DATABUF: usize> HttpServerConn for Https1Client<S, BUF, HDRBUF, DATABUF> {
    open spec fn conn_wf(&self) -> bool {
        self.wf()
    }

    open spec fn event_polled(s: Secured<S::V, H1>) -> (Secured<S::V, H1>, Option<HttpEvent>) {
        let (t, ev) = Https1Link::<S, BUF, HDRBUF, DATABUF>::event_polled(s);
        (
            t,
            match ev {
                Some(e) => Some(unified_event(e)),
                None => None,
            },
        )
    }

    open spec fn headers_read(s: Secured<S::V, H1>, id: u64) -> (Secured<S::V, H1>, Seq<Field>, Result<(), Error>) {
        Https1Link::<S, BUF, HDRBUF, DATABUF>::headers_read(s, id)
    }

    open spec fn body_read(s: Secured<S::V, H1>, id: u64, room: int) -> (
        Secured<S::V, H1>,
        Seq<u8>,
        Result<(usize, bool), Error>,
    ) {
        Https1Link::<S, BUF, HDRBUF, DATABUF>::body_read(s, id, room)
    }

    open spec fn response_sent(s: Secured<S::V, H1>, id: u64, status: u16, fs: Seq<Field>, end: bool) -> (
        Secured<S::V, H1>,
        Result<(), Error>,
    ) {
        (s, Err(Error::InvalidState))
    }

    open spec fn body_sent(s: Secured<S::V, H1>, id: u64, data: Seq<u8>, end: bool) -> (
        Secured<S::V, H1>,
        Result<usize, Error>,
    ) {
        Https1Link::<S, BUF, HDRBUF, DATABUF>::body_sent(s, id, data, end)
    }

    open spec fn established(s: Secured<S::V, H1>) -> bool {
        Https1Link::<S, BUF, HDRBUF, DATABUF>::established(s)
    }

    open spec fn closed(s: Secured<S::V, H1>) -> bool {
        Https1Link::<S, BUF, HDRBUF, DATABUF>::closed(s)
    }

    open spec fn deadline(s: Secured<S::V, H1>) -> Option<u64> {
        s.http.next_deadline()
    }

    open spec fn timed_out(s: Secured<S::V, H1>, now: u64) -> Secured<S::V, H1> {
        Https1Link::<S, BUF, HDRBUF, DATABUF>::timed(s, now)
    }

    open spec fn fed(s: Secured<S::V, H1>, data: Seq<u8>) -> (Secured<S::V, H1>, Result<(), Error>) {
        Https1Link::<S, BUF, HDRBUF, DATABUF>::fed(s, data)
    }

    open spec fn fed_timed(s: Secured<S::V, H1>, data: Seq<u8>, now: u64) -> (Secured<S::V, H1>, Result<(), Error>) {
        Https1Link::<S, BUF, HDRBUF, DATABUF>::fed(s, data)
    }

    open spec fn output_polled(s: Secured<S::V, H1>, room: int) -> (Secured<S::V, H1>, Option<Seq<u8>>) {
        Https1Link::<S, BUF, HDRBUF, DATABUF>::polled(s, room)
    }

    open spec fn blocked(s: Secured<S::V, H1>) -> bool {
        false
    }

    open spec fn reclaimed(s: Secured<S::V, H1>) -> (Secured<S::V, H1>, Option<TlsWire>) {
        (s, None)
    }

    fn poll_event(&mut self, scratch: &mut [u8]) -> (r: Option<HttpEvent>) {
        match self.link.poll_event() {
            Some(ev) => Some(map_http1_event(ev)),
            None => None,
        }
    }

    fn recv_headers(&mut self, stream_id: u64, out: &mut Vec<HeaderField>) -> (r: Result<
        (),
        Error,
    >) {
        self.link.recv_headers(stream_id, out)
    }

    fn recv_body(&mut self, stream_id: u64, buf: &mut [u8]) -> (r: Result<(usize, bool), Error>) {
        self.link.recv_body(stream_id, buf)
    }

    fn send_response(
        &mut self,
        stream_id: u64,
        status: u16,
        headers: &[(&[u8], &[u8])],
        end_stream: bool,
    ) -> (r: Result<(), Error>) {
        // Clients do not send responses.
        Err(Error::InvalidState)
    }

    fn send_body(&mut self, stream_id: u64, data: &[u8], end_stream: bool) -> (r: Result<
        usize,
        Error,
    >) {
        self.link.send_body(stream_id, data, end_stream)
    }

    fn is_established(&self) -> (r: bool) {
        self.link.is_established()
    }

    fn is_closed(&self) -> (r: bool) {
        self.link.is_closed()
    }

    fn next_timeout(&self) -> (r: Option<u64>) {
        self.link.http.next_timeout()
    }

    fn handle_timeout(&mut self, now: u64) {
        self.link.handle_timeout(now)
    }

    fn tcp_feed_data(&mut self, data: &[u8]) -> (r: Result<(), Error>) {
        self.link.feed_data(data)
    }

    fn tcp_feed_data_timed(&mut self, data: &[u8], now: u64) -> (r: Result<(), Error>) {
        self.link.feed_data(data)
    }

    fn tcp_poll_output<'a>(&mut self, buf: &'a mut [u8]) -> (r: Option<&'a [u8]>) {
        self.link.poll_output(buf)
    }

    fn recv_blocked(&self) -> (r: bool) {
        false
    }

    fn reclaim_buffers(&mut self) -> (r: Option<TlsBufKit>) {
        None
    }
}

/// HTTPS/1.1 server.
///
/// Generic parameters:
/// - `S`: TLS session
/// - `BUF`: capacity of each I/O buffer
/// - `HDRBUF`: header storage
/// - `DATABUF`: body data storage
pub struct Https1Server<S: TlsSession, const BUF: usize, const HDRBUF: usize, const DATABUF: usize> {
    pub link: Https1Link<S, BUF, HDRBUF, DATABUF>,
}

impl<S: TlsSession, const BUF: usize, const HDRBUF: usize, const DATABUF: usize> View for Https1Server<S, BUF, HDRBUF, DATABUF> {
    type V = Secured<S::V, H1>;

    open spec fn view(&self) -> Secured<S::V, H1> {
        self.link@
    }
}

impl<S: TlsSession, const BUF: usize, const HDRBUF: usize, const DATABUF: usize> Https1Server<S, BUF, HDRBUF, DATABUF> {
    pub open spec fn wf(&self) -> bool {
        self.link.wf()
    }

    /// Creates a HTTPS/1.1 server connection.
    pub fn new(config: &ServerTlsConfig, secret: [u8; 32], random: [u8; 32]) -> (r: Self)
        ensures
            r.wf(),
            r@ == (Secured {
                tls: S::server(*config, secret@, random@),
                http: H1::initial(true),
                wire: TlsWire::empty(),
                lent: false,
            }),
    {
        Https1Server {
            link: Https1Link {
                tls: S::new_server(config, secret, random),
                http: Http1Connection::new_server(),
                bufs: TlsBufs::new(),
            },
        }
    }

    /// What is built on a session whose handshake is complete.
    pub open spec fn from_model(parts: PartsModel<S::V>) -> Secured<S::V, H1> {
        Secured {
            tls: parts.tls,
            http: H1::initial(true),
            wire: parts.wire,
            lent: parts.lent,
        }
    }

    /// Builds on a session whose handshake is complete.
    pub fn from_parts(parts: TlsParts<S, BUF>) -> (r: Self)
        requires
            parts.wf(),
        ensures
            r.wf(),
            r@ == Self::from_model(parts@),
    {
        Https1Server {
            link: Https1Link {
                tls: parts.tls,
                http: Http1Connection::new_server(),
                bufs: parts.bufs,
            },
        }
    }

    /// Feeds received TCP data (encrypted). What it decrypts to is processed.
    pub fn feed_data(&mut self, data: &[u8]) -> (r: Result<(), Error>)
        requires
            old(self).wf(),
        ensures
            final(self).wf(),
            (final(self)@, r) == Https1Link::<S, BUF, HDRBUF, DATABUF>::fed(old(self)@, data@),
    {
        self.link.feed_data(data)
    }

    /// Feeds data with timestamp tracking.
    pub fn feed_data_timed(&mut self, data: &[u8], now: u64) -> (r: Result<(), Error>)
        requires
            old(self).wf(),
        ensures
            final(self).wf(),
            (final(self)@, r) == Https1Link::<S, BUF, HDRBUF, DATABUF>::fed_at(old(self)@, data@, now),
    {
        self.link.feed_data_timed(data, now)
    }

    /// Pulls outgoing TCP data (encrypted).
    pub fn poll_output<'a>(&mut self, buf: &'a mut [u8]) -> (r: Option<&'a [u8]>)
        requires
            old(self).wf(),
        ensures
            bytes::chunk_at_start(old(buf)@, final(buf)@, r),
            final(self).wf(),
            final(self)@ == Https1Link::<S, BUF, HDRBUF, DATABUF>::polled(old(self)@, old(buf)@.len() as int).0,
            match r {
                Some(chunk) => Https1Link::<S, BUF, HDRBUF, DATABUF>::polled(
                    old(self)@,
                    old(buf)@.len() as int,
                ).1 == Some(chunk@),
                None => Https1Link::<S, BUF, HDRBUF, DATABUF>::polled(old(self)@, old(buf)@.len() as int).1 is None,
            },
    {
        self.link.poll_output(buf)
    }

    /// Polls for HTTP events.
    pub fn poll_event(&mut self) -> (r: Option<Http1Event>)
        requires
            old(self).wf(),
        ensures
            final(self).wf(),
            (final(self)@, r) == Https1Link::<S, BUF, HDRBUF, DATABUF>::event_polled(old(self)@),
    {
        self.link.poll_event()
    }

    /// Whether the TLS handshake is complete.
    pub fn is_established(&self) -> (r: bool)
        ensures
            r == Https1Link::<S, BUF, HDRBUF, DATABUF>::established(self@),
    {
        self.link.is_established()
    }

    /// Whether the connection is closed.
    pub fn is_closed(&self) -> (r: bool)
        ensures
            r == Https1Link::<S, BUF, HDRBUF, DATABUF>::closed(self@),
    {
        self.link.is_closed()
    }

    /// Sends response headers: one pseudo-header and up to 19 headers.
    pub fn send_response(
        &mut self,
        stream_id: u64,
        status: u16,
        headers: &[(&[u8], &[u8])],
        end_stream: bool,
    ) -> (r: Result<(), Error>)
        requires
            old(self).wf(),
        ensures
            final(self).wf(),
            (final(self)@, r) == Https1Link::<S, BUF, HDRBUF, DATABUF>::response_sent(
                old(self)@,
                stream_id,
                status,
                bytes::pairs(headers@),
                end_stream,
            ),
    {
        self.link.send_response(stream_id, status, headers, end_stream)
    }

    /// Sends body data on a stream.
    pub fn send_body(&mut self, stream_id: u64, data: &[u8], end_stream: bool) -> (r: Result<
        usize,
        Error,
    >)
        requires
            old(self).wf(),
        ensures
            final(self).wf(),
            (final(self)@, r) == Https1Link::<S, BUF, HDRBUF, DATABUF>::body_sent(
                old(self)@,
                stream_id,
                data@,
                end_stream,
            ),
    {
        self.link.send_body(stream_id, data, end_stream)
    }

    /// Reads request headers, appending them to `out`.
    pub fn recv_headers(&mut self, stream_id: u64, out: &mut Vec<HeaderField>) -> (r: Result<
        (),
        Error,
    >)
        requires
            old(self).wf(),
        ensures
            final(self).wf(),
            final(self)@ == Https1Link::<S, BUF, HDRBUF, DATABUF>::headers_read(old(self)@, stream_id).0,
            bytes::fields(final(out)@) == bytes::fields(old(out)@) + Https1Link::<S, BUF, HDRBUF, DATABUF>::headers_read(
                old(self)@,
                stream_id,
            ).1,
            r == Https1Link::<S, BUF, HDRBUF, DATABUF>::headers_read(old(self)@, stream_id).2,
    {
        self.link.recv_headers(stream_id, out)
    }

    /// Reads request body.
    pub fn recv_body(&mut self, stream_id: u64, buf: &mut [u8]) -> (r: Result<(usize, bool), Error>)
        requires
            old(self).wf(),
        ensures
            final(self).wf(),
            ({
                let (s, body, result) = Https1Link::<S, BUF, HDRBUF, DATABUF>::body_read(
                    old(self)@,
                    stream_id,
                    old(buf)@.len() as int,
                );
                &&& final(self)@ == s
                &&& final(buf)@ == bytes::splice(old(buf)@, 0, body)
                &&& r == result
            }),
    {
        self.link.recv_body(stream_id, buf)
    }

    /// Configures timeouts.
    pub fn set_timeouts(&mut self, config: TimeoutConfig, now: u64)
        requires
            old(self).wf(),
        ensures
            final(self).wf(),
            final(self)@ == (Secured {
                http: H1 {
                    timeouts: config,
                    last_activity: now,
                    connection_start: now,
                    ..old(self)@.http
                },
                ..old(self)@
            }),
    {
        self.link.set_timeouts(config, now);
    }

    /// The earliest deadline at which `handle_timeout` should be called.
    pub fn next_timeout(&self) -> (r: Option<u64>)
        ensures
            r == self@.http.next_deadline(),
    {
        self.link.http.next_timeout()
    }

    /// Checks timeouts and emits events if they fire.
    pub fn handle_timeout(&mut self, now: u64)
        requires
            old(self).wf(),
        ensures
            final(self).wf(),
            final(self)@ == Https1Link::<S, BUF, HDRBUF, DATABUF>::timed(old(self)@, now),
    {
        self.link.handle_timeout(now);
    }

    /// The negotiated application protocol.
    pub fn alpn(&self) -> (r: Option<&[u8]>)
        ensures
            match r {
                Some(p) => S::protocol(self@.tls) == Some(p@),
                None => S::protocol(self@.tls) is None,
            },
    {
        self.link.tls.alpn()
    }

    /// Starts a graceful close.
    pub fn close(&mut self) -> (r: Result<(), Error>)
        requires
            old(self).wf(),
        ensures
            final(self).wf(),
            (final(self)@, r) == Https1Link::<S, BUF, HDRBUF, DATABUF>::closing(old(self)@),
    {
        self.link.close()
    }
}

impl<S: TlsSession, const BUF: usize, const HDRBUF: usize, const DATABUF: usize> HttpServerConn for Https1Server<S, BUF, HDRBUF, DATABUF> {
    open spec fn conn_wf(&self) -> bool {
        self.wf()
    }

    open spec fn event_polled(s: Secured<S::V, H1>) -> (Secured<S::V, H1>, Option<HttpEvent>) {
        let (t, ev) = Https1Link::<S, BUF, HDRBUF, DATABUF>::event_polled(s);
        (
            t,
            match ev {
                Some(e) => Some(unified_event(e)),
                None => None,
            },
        )
    }

    open spec fn headers_read(s: Secured<S::V, H1>, id: u64) -> (Secured<S::V, H1>, Seq<Field>, Result<(), Error>) {
        Https1Link::<S, BUF, HDRBUF, DATABUF>::headers_read(s, id)
    }

    open spec fn body_read(s: Secured<S::V, H1>, id: u64, room: int) -> (
        Secured<S::V, H1>,
        Seq<u8>,
        Result<(usize, bool), Error>,
    ) {
        Https1Link::<S, BUF, HDRBUF, DATABUF>::body_read(s, id, room)
    }

    open spec fn response_sent(s: Secured<S::V, H1>, id: u64, status: u16, fs: Seq<Field>, end: bool) -> (
        Secured<S::V, H1>,
        Result<(), Error>,
    ) {
        Https1Link::<S, BUF, HDRBUF, DATABUF>::response_sent(s, id, status, fs, end)
    }

    open spec fn body_sent(s: Secured<S::V, H1>, id: u64, data: Seq<u8>, end: bool) -> (
        Secured<S::V, H1>,
        Result<usize, Error>,
    ) {
        Https1Link::<S, BUF, HDRBUF, DATABUF>::body_sent(s, id, data, end)
    }

    open spec fn established(s: Secured<S::V, H1>) -> bool {
        Https1Link::<S, BUF, HDRBUF, DATABUF>::established(s)
    }

    open spec fn closed(s: Secured<S::V, H1>) -> bool {
        Https1Link::<S, BUF, HDRBUF, DATABUF>::closed(s)
    }

    open spec fn deadline(s: Secured<S::V, H1>) -> Option<u64> {
        s.http.next_deadline()
    }

    open spec fn timed_out(s: Secured<S::V, H1>, now: u64) -> Secured<S::V, H1> {
        Https1Link::<S, BUF, HDRBUF, DATABUF>::timed(s, now)
    }

    open spec fn fed(s: Secured<S::V, H1>, data: Seq<u8>) -> (Secured<S::V, H1>, Result<(), Error>) {
        Https1Link::<S, BUF, HDRBUF, DATABUF>::fed(s, data)
    }

    open spec fn fed_timed(s: Secured<S::V, H1>, data: Seq<u8>, now: u64) -> (Secured<S::V, H1>, Result<(), Error>) {
        Https1Link::<S, BUF, HDRBUF, DATABUF>::fed_at(s, data, now)
    }

    open spec fn output_polled(s: Secured<S::V, H1>, room: int) -> (Secured<S::V, H1>, Option<Seq<u8>>) {
        Https1Link::<S, BUF, HDRBUF, DATABUF>::polled(s, room)
    }

    open spec fn blocked(s: Secured<S::V, H1>) -> bool {
        false
    }

    open spec fn reclaimed(s: Secured<S::V, H1>) -> (Secured<S::V, H1>, Option<TlsWire>) {
        Https1Link::<S, BUF, HDRBUF, DATABUF>::reclaimed(s)
    }

    fn poll_event(&mut self, scratch: &mut [u8]) -> (r: Option<HttpEvent>) {
        match self.link.poll_event() {
            Some(ev) => Some(map_http1_event(ev)),
            None => None,
        }
    }

    fn recv_headers(&mut self, stream_id: u64, out: &mut Vec<HeaderField>) -> (r: Result<
        (),
        Error,
    >) {
        self.link.recv_headers(stream_id, out)
    }

    fn recv_body(&mut self, stream_id: u64, buf: &mut [u8]) -> (r: Result<(usize, bool), Error>) {
        self.link.recv_body(stream_id, buf)
    }

    fn send_response(
        &mut self,
        stream_id: u64,
        status: u16,
        headers: &[(&[u8], &[u8])],
        end_stream: bool,
    ) -> (r: Result<(), Error>) {
        self.link.send_response(stream_id, status, headers, end_stream)
    }

    fn send_body(&mut self, stream_id: u64, data: &[u8], end_stream: bool) -> (r: Result<
        usize,
        Error,
    >) {
        self.link.send_body(stream_id, data, end_stream)
    }

    fn is_established(&self) -> (r: bool) {
        self.link.is_established()
    }

    fn is_closed(&self) -> (r: bool) {
        self.link.is_closed()
    }

    fn next_timeout(&self) -> (r: Option<u64>) {
        self.link.http.next_timeout()
    }

    fn handle_timeout(&mut self, now: u64) {
        self.link.handle_timeout(now)
    }

    fn tcp_feed_data(&mut self, data: &[u8]) -> (r: Result<(), Error>) {
        self.link.feed_data(data)
    }

    fn tcp_feed_data_timed(&mut self, data: &[u8], now: u64) -> (r: Result<(), Error>) {
        self.link.feed_data_timed(data, now)
    }

    fn tcp_poll_output<'a>(&mut self, buf: &'a mut [u8]) -> (r: Option<&'a [u8]>) {
        self.link.poll_output(buf)
    }

    fn recv_blocked(&self) -> (r: bool) {
        false
    }

    fn reclaim_buffers(&mut self) -> (r: Option<TlsBufKit>) {
        self.link.bufs.reclaim()
    }
}

} // verus!
