//! TCP connections of the server manager.

use vstd::prelude::*;

use super::{ConnId, ConnProtocol, ServerEvent};
use crate::bytes;
use crate::bytes::{Field, HeaderField};
use crate::error::Error;
use crate::h2::model::Conn;
use crate::h2_tls::H2TlsServer;
use crate::http::server_conn::{HttpEvent, HttpServerConn};
use crate::http1::model::{H1, H1Sys};
use crate::http1::server::Http1Server;
use crate::https1::{Https1Server, Secured};
use crate::tls::{kit_returned, PartsModel, TlsBufKit, TlsParts, TlsSession, TlsWire};

verus! {

/// `h2`
pub const ALPN_H2: [u8; 2] = [0x68, 0x32];

/// `http/1.1`
pub const ALPN_HTTP1: [u8; 8] = [0x68, 0x74, 0x74, 0x70, 0x2f, 0x31, 0x2e, 0x31];

/// An HTTP connection over TCP: cleartext HTTP/1.1, HTTP/1.1 over TLS, or
/// HTTP/2 over TLS.
pub enum EstablishedConn<S: TlsSession, const BUF: usize> {
    Plain(Http1Server<BUF, 2048, 4096>),
    Https1(Https1Server<S, BUF, 2048, 4096>),
    H2(H2TlsServer<S, BUF, 8, 2048, 4096>),
}

/// What is known of an HTTP connection over TCP.
pub enum EstModel<V> {
    Plain(H1Sys),
    Https1(Secured<V, H1>),
    H2(Secured<V, Conn>),
}

impl<V> EstModel<V> {
    /// How many events wait.
    pub open spec fn waiting(self) -> nat {
        match self {
            EstModel::Plain(s) => s.c.events.len(),
            EstModel::Https1(s) => s.http.events.len(),
            EstModel::H2(s) => s.http.events.len(),
        }
    }
}

impl<S: TlsSession, const BUF: usize> View for EstablishedConn<S, BUF> {
    type V = EstModel<S::V>;

    open spec fn view(&self) -> EstModel<S::V> {
        match self {
            EstablishedConn::Plain(c) => EstModel::Plain(c@),
            EstablishedConn::Https1(c) => EstModel::Https1(c@),
            EstablishedConn::H2(c) => EstModel::H2(c@),
        }
    }
}

impl<S: TlsSession, const BUF: usize> HttpServerConn for EstablishedConn<S, BUF> {
    open spec fn conn_wf(&self) -> bool {
        match self {
            EstablishedConn::Plain(c) => c.wf(),
            EstablishedConn::Https1(c) => c.wf(),
            EstablishedConn::H2(c) => c.wf(),
        }
    }

    open spec fn event_polled(s: EstModel<S::V>) -> (EstModel<S::V>, Option<HttpEvent>) {
        match s {
            EstModel::Plain(c) => {
                let x = Http1Server::<BUF, 2048, 4096>::event_polled(c);
                (EstModel::Plain(x.0), x.1)
            },
            EstModel::Https1(c) => {
                let x = Https1Server::<S, BUF, 2048, 4096>::event_polled(c);
                (EstModel::Https1(x.0), x.1)
            },
            EstModel::H2(c) => {
                let x = H2TlsServer::<S, BUF, 8, 2048, 4096>::event_polled(c);
                (EstModel::H2(x.0), x.1)
            },
        }
    }

    open spec fn headers_read(s: EstModel<S::V>, id: u64) -> (EstModel<S::V>, Seq<Field>, Result<(), Error>) {
        match s {
            EstModel::Plain(c) => {
                let x = Http1Server::<BUF, 2048, 4096>::headers_read(c, id);
                (EstModel::Plain(x.0), x.1, x.2)
            },
            EstModel::Https1(c) => {
                let x = Https1Server::<S, BUF, 2048, 4096>::headers_read(c, id);
                (EstModel::Https1(x.0), x.1, x.2)
            },
            EstModel::H2(c) => {
                let x = H2TlsServer::<S, BUF, 8, 2048, 4096>::headers_read(c, id);
                (EstModel::H2(x.0), x.1, x.2)
            },
        }
    }

    open spec fn body_read(s: EstModel<S::V>, id: u64, room: int) -> (
        EstModel<S::V>,
        Seq<u8>,
        Result<(usize, bool), Error>,
    ) {
        match s {
            EstModel::Plain(c) => {
                let x = Http1Server::<BUF, 2048, 4096>::body_read(c, id, room);
                (EstModel::Plain(x.0), x.1, x.2)
            },
            EstModel::Https1(c) => {
                let x = Https1Server::<S, BUF, 2048, 4096>::body_read(c, id, room);
                (EstModel::Https1(x.0), x.1, x.2)
            },
            EstModel::H2(c) => {
                let x = H2TlsServer::<S, BUF, 8, 2048, 4096>::body_read(c, id, room);
                (EstModel::H2(x.0), x.1, x.2)
            },
        }
    }

    open spec fn response_sent(s: EstModel<S::V>, id: u64, status: u16, fs: Seq<Field>, end: bool) -> (
        EstModel<S::V>,
        Result<(), Error>,
    ) {
        match s {
            EstModel::Plain(c) => {
                let x = Http1Server::<BUF, 2048, 4096>::response_sent(c, id, status, fs, end);
                (EstModel::Plain(x.0), x.1)
            },
            EstModel::Https1(c) => {
                let x = Https1Server::<S, BUF, 2048, 4096>::response_sent(c, id, status, fs, end);
                (EstModel::Https1(x.0), x.1)
            },
            EstModel::H2(c) => {
                let x = H2TlsServer::<S, BUF, 8, 2048, 4096>::response_sent(c, id, status, fs, end);
                (EstModel::H2(x.0), x.1)
            },
        }
    }

    open spec fn body_sent(s: EstModel<S::V>, id: u64, data: Seq<u8>, end: bool) -> (
        EstModel<S::V>,
        Result<usize, Error>,
    ) {
        match s {
            EstModel::Plain(c) => {
                let x = Http1Server::<BUF, 2048, 4096>::body_sent(c, id, data, end);
                (EstModel::Plain(x.0), x.1)
            },
            EstModel::Https1(c) => {
                let x = Https1Server::<S, BUF, 2048, 4096>::body_sent(c, id, data, end);
                (EstModel::Https1(x.0), x.1)
            },
            EstModel::H2(c) => {
                let x = H2TlsServer::<S, BUF, 8, 2048, 4096>::body_sent(c, id, data, end);
                (EstModel::H2(x.0), x.1)
            },
        }
    }

    open spec fn established(s: EstModel<S::V>) -> bool {
        match s {
            EstModel::Plain(c) => Http1Server::<BUF, 2048, 4096>::established(c),
            EstModel::Https1(c) => Https1Server::<S, BUF, 2048, 4096>::established(c),
            EstModel::H2(c) => H2TlsServer::<S, BUF, 8, 2048, 4096>::established(c),
        }
    }

    open spec fn closed(s: EstModel<S::V>) -> bool {
        match s {
            EstModel::Plain(c) => Http1Server::<BUF, 2048, 4096>::closed(c),
            EstModel::Https1(c) => Https1Server::<S, BUF, 2048, 4096>::closed(c),
            EstModel::H2(c) => H2TlsServer::<S, BUF, 8, 2048, 4096>::closed(c),
        }
    }

    open spec fn deadline(s: EstModel<S::V>) -> Option<u64> {
        match s {
            EstModel::Plain(c) => Http1Server::<BUF, 2048, 4096>::deadline(c),
            EstModel::Https1(c) => Https1Server::<S, BUF, 2048, 4096>::deadline(c),
            EstModel::H2(c) => H2TlsServer::<S, BUF, 8, 2048, 4096>::deadline(c),
        }
    }

    open spec fn timed_out(s: EstModel<S::V>, now: u64) -> EstModel<S::V> {
        match s {
            EstModel::Plain(c) => EstModel::Plain(Http1Server::<BUF, 2048, 4096>::timed_out(c, now)),
            EstModel::Https1(c) => EstModel::Https1(Https1Server::<S, BUF, 2048, 4096>::timed_out(c, now)),
            EstModel::H2(c) => EstModel::H2(H2TlsServer::<S, BUF, 8, 2048, 4096>::timed_out(c, now)),
        }
    }

    open spec fn fed(s: EstModel<S::V>, data: Seq<u8>) -> (EstModel<S::V>, Result<(), Error>) {
        match s {
            EstModel::Plain(c) => {
                let x = Http1Server::<BUF, 2048, 4096>::fed(c, data);
                (EstModel::Plain(x.0), x.1)
            },
            EstModel::Https1(c) => {
                let x = Https1Server::<S, BUF, 2048, 4096>::fed(c, data);
                (EstModel::Https1(x.0), x.1)
            },
            EstModel::H2(c) => {
                let x = H2TlsServer::<S, BUF, 8, 2048, 4096>::fed(c, data);
                (EstModel::H2(x.0), x.1)
            },
        }
    }

    open spec fn fed_timed(s: EstModel<S::V>, data: Seq<u8>, now: u64) -> (EstModel<S::V>, Result<(), Error>) {
        match s {
            EstModel::Plain(c) => {
                let x = Http1Server::<BUF, 2048, 4096>::fed_timed(c, data, now);
                (EstModel::Plain(x.0), x.1)
            },
            EstModel::Https1(c) => {
                let x = Https1Server::<S, BUF, 2048, 4096>::fed_timed(c, data, now);
                (EstModel::Https1(x.0), x.1)
            },
            EstModel::H2(c) => {
                let x = H2TlsServer::<S, BUF, 8, 2048, 4096>::fed_timed(c, data, now);
                (EstModel::H2(x.0), x.1)
            },
        }
    }

    open spec fn output_polled(s: EstModel<S::V>, room: int) -> (EstModel<S::V>, Option<Seq<u8>>) {
        match s {
            EstModel::Plain(c) => {
                let x = Http1Server::<BUF, 2048, 4096>::output_polled(c, room);
                (EstModel::Plain(x.0), x.1)
            },
            EstModel::Https1(c) => {
                let x = Https1Server::<S, BUF, 2048, 4096>::output_polled(c, room);
                (EstModel::Https1(x.0), x.1)
            },
            EstModel::H2(c) => {
                let x = H2TlsServer::<S, BUF, 8, 2048, 4096>::output_polled(c, room);
                (EstModel::H2(x.0), x.1)
            },
        }
    }

    open spec fn blocked(s: EstModel<S::V>) -> bool {
        match s {
            EstModel::Plain(c) => Http1Server::<BUF, 2048, 4096>::blocked(c),
            EstModel::Https1(c) => Https1Server::<S, BUF, 2048, 4096>::blocked(c),
            EstModel::H2(c) => H2TlsServer::<S, BUF, 8, 2048, 4096>::blocked(c),
        }
    }

    open spec fn reclaimed(s: EstModel<S::V>) -> (EstModel<S::V>, Option<TlsWire>) {
        match s {
            EstModel::Plain(c) => {
                let x = Http1Server::<BUF, 2048, 4096>::reclaimed(c);
                (EstModel::Plain(x.0), x.1)
            },
            EstModel::Https1(c) => {
                let x = Https1Server::<S, BUF, 2048, 4096>::reclaimed(c);
                (EstModel::Https1(x.0), x.1)
            },
            EstModel::H2(c) => {
                let x = H2TlsServer::<S, BUF, 8, 2048, 4096>::reclaimed(c);
                (EstModel::H2(x.0), x.1)
            },
        }
    }

    fn poll_event(&mut self, scratch: &mut [u8]) -> (r: Option<HttpEvent>) {
        match self {
            EstablishedConn::Plain(c) => HttpServerConn::poll_event(c, scratch),
            EstablishedConn::Https1(c) => HttpServerConn::poll_event(c, scratch),
            EstablishedConn::H2(c) => HttpServerConn::poll_event(c, scratch),
        }
    }

    fn recv_headers(&mut self, stream_id: u64, out: &mut Vec<HeaderField>) -> (r: Result<
        (),
        Error,
    >) {
        match self {
            EstablishedConn::Plain(c) => HttpServerConn::recv_headers(c, stream_id, out),
            EstablishedConn::Https1(c) => HttpServerConn::recv_headers(c, stream_id, out),
            EstablishedConn::H2(c) => HttpServerConn::recv_headers(c, stream_id, out),
        }
    }

    fn recv_body(&mut self, stream_id: u64, buf: &mut [u8]) -> (r: Result<(usize, bool), Error>) {
        match self {
            EstablishedConn::Plain(c) => HttpServerConn::recv_body(c, stream_id, buf),
            EstablishedConn::Https1(c) => HttpServerConn::recv_body(c, stream_id, buf),
            EstablishedConn::H2(c) => HttpServerConn::recv_body(c, stream_id, buf),
        }
    }

    fn send_response(
        &mut self,
        stream_id: u64,
        status: u16,
        headers: &[(&[u8], &[u8])],
        end_stream: bool,
    ) -> (r: Result<(), Error>) {
        match self {
            EstablishedConn::Plain(c) => HttpServerConn::send_response(c, stream_id, status, headers, end_stream),
            EstablishedConn::Https1(c) => HttpServerConn::send_response(c, stream_id, status, headers, end_stream),
            EstablishedConn::H2(c) => HttpServerConn::send_response(c, stream_id, status, headers, end_stream),
        }
    }

    fn send_body(&mut self, stream_id: u64, data: &[u8], end_stream: bool) -> (r: Result<
        usize,
        Error,
    >) {
        match self {
            EstablishedConn::Plain(c) => HttpServerConn::send_body(c, stream_id, data, end_stream),
            EstablishedConn::Https1(c) => HttpServerConn::send_body(c, stream_id, data, end_stream),
            EstablishedConn::H2(c) => HttpServerConn::send_body(c, stream_id, data, end_stream),
        }
    }

    fn is_established(&self) -> (r: bool) {
        match self {
            EstablishedConn::Plain(c) => HttpServerConn::is_established(c),
            EstablishedConn::Https1(c) => HttpServerConn::is_established(c),
            EstablishedConn::H2(c) => HttpServerConn::is_established(c),
        }
    }

    fn is_closed(&self) -> (r: bool) {
        match self {
            EstablishedConn::Plain(c) => HttpServerConn::is_closed(c),
            EstablishedConn::Https1(c) => HttpServerConn::is_closed(c),
            EstablishedConn::H2(c) => HttpServerConn::is_closed(c),
        }
    }

    fn next_timeout(&self) -> (r: Option<u64>) {
        match self {
            EstablishedConn::Plain(c) => HttpServerConn::next_timeout(c),
            EstablishedConn::Https1(c) => HttpServerConn::next_timeout(c),
            EstablishedConn::H2(c) => HttpServerConn::next_timeout(c),
        }
    }

    fn handle_timeout(&mut self, now: u64) {
        match self {
            EstablishedConn::Plain(c) => HttpServerConn::handle_timeout(c, now),
            EstablishedConn::Https1(c) => HttpServerConn::handle_timeout(c, now),
            EstablishedConn::H2(c) => HttpServerConn::handle_timeout(c, now),
        }
    }

    fn tcp_feed_data(&mut self, data: &[u8]) -> (r: Result<(), Error>) {
        match self {
            EstablishedConn::Plain(c) => HttpServerConn::tcp_feed_data(c, data),
            EstablishedConn::Https1(c) => HttpServerConn::tcp_feed_data(c, data),
            EstablishedConn::H2(c) => HttpServerConn::tcp_feed_data(c, data),
        }
    }

    fn tcp_feed_data_timed(&mut self, data: &[u8], now: u64) -> (r: Result<(), Error>) {
        match self {
            EstablishedConn::Plain(c) => HttpServerConn::tcp_feed_data_timed(c, data, now),
            EstablishedConn::Https1(c) => HttpServerConn::tcp_feed_data_timed(c, data, now),
            EstablishedConn::H2(c) => HttpServerConn::tcp_feed_data_timed(c, data, now),
        }
    }

    fn tcp_poll_output<'a>(&mut self, buf: &'a mut [u8]) -> (r: Option<&'a [u8]>) {
        match self {
            EstablishedConn::Plain(c) => HttpServerConn::tcp_poll_output(c, buf),
            EstablishedConn::Https1(c) => HttpServerConn::tcp_poll_output(c, buf),
            EstablishedConn::H2(c) => HttpServerConn::tcp_poll_output(c, buf),
        }
    }

    fn recv_blocked(&self) -> (r: bool) {
        match self {
            EstablishedConn::Plain(c) => HttpServerConn::recv_blocked(c),
            EstablishedConn::Https1(c) => HttpServerConn::recv_blocked(c),
            EstablishedConn::H2(c) => HttpServerConn::recv_blocked(c),
        }
    }

    fn reclaim_buffers(&mut self) -> (r: Option<TlsBufKit>) {
        match self {
            EstablishedConn::Plain(c) => HttpServerConn::reclaim_buffers(c),
            EstablishedConn::Https1(c) => HttpServerConn::reclaim_buffers(c),
            EstablishedConn::H2(c) => HttpServerConn::reclaim_buffers(c),
        }
    }
}

/// Polling takes the first of the events that wait, if there is one.
pub proof fn polling_takes_one<S: TlsSession, const BUF: usize>(s: EstModel<S::V>)
    ensures
        match EstablishedConn::<S, BUF>::event_polled(s) {
            (t, Some(e)) => t.waiting() + 1 == s.waiting(),
            (t, None) => t == s && s.waiting() == 0,
        },
{
}

/// All events of an HTTP connection, behind those in `acc`.
pub open spec fn all_events<S: TlsSession, const BUF: usize>(
    e: EstModel<S::V>,
    id: ConnId,
    acc: Seq<ServerEvent>,
) -> (EstModel<S::V>, Seq<ServerEvent>)
    decreases e.waiting(),
{
    proof {
        polling_takes_one::<S, BUF>(e);
    }
    match EstablishedConn::<S, BUF>::event_polled(e) {
        (f, Some(x)) => all_events::<S, BUF>(
            f,
            id,
            acc.push(ServerEvent::Http { conn: id, event: x }),
        ),
        (f, None) => (f, acc),
    }
}

/// State of a TCP connection.
pub enum TcpState<S: TlsSession, const BUF: usize> {
    /// TLS handshake in progress.
    Handshaking(TlsParts<S, BUF>),
    /// HTTP protocol established.
    Established(EstablishedConn<S, BUF>),
    /// Closed, pending removal.
    Closed,
}

/// A TCP connection of the manager.
pub struct TcpConn<S: TlsSession, const BUF: usize> {
    pub id: ConnId,
    pub state: TcpState<S, BUF>,
    /// Negotiated protocol (set after the TLS handshake completes).
    pub protocol: ConnProtocol,
    /// When the connection was accepted, for the handshake timeout.
    pub accepted_at: u64,
}

/// What is known of the state of a TCP connection.
pub enum StateModel<V> {
    Handshaking(PartsModel<V>),
    Established(EstModel<V>),
    Closed,
}

/// What is known of a TCP connection.
pub struct TcpModel<V> {
    pub id: ConnId,
    pub state: StateModel<V>,
    pub protocol: ConnProtocol,
    pub accepted_at: u64,
}

impl<S: TlsSession, const BUF: usize> View for TcpConn<S, BUF> {
    type V = TcpModel<S::V>;

    open spec fn view(&self) -> TcpModel<S::V> {
        TcpModel {
            id: self.id,
            state: match self.state {
                TcpState::Handshaking(p) => StateModel::Handshaking(p@),
                TcpState::Established(e) => StateModel::Established(e@),
                TcpState::Closed => StateModel::Closed,
            },
            protocol: self.protocol,
            accepted_at: self.accepted_at,
        }
    }
}

impl<V> TcpModel<V> {
    pub open spec fn with_state(self, state: StateModel<V>) -> TcpModel<V> {
        TcpModel { state, ..self }
    }

    /// What the lent buffers behind the connection hold, if there are any.
    pub open spec fn held(self) -> Option<TlsWire> {
        match self.state {
            StateModel::Handshaking(p) if p.lent => Some(p.wire),
            StateModel::Established(EstModel::Https1(s)) if s.lent => Some(s.wire),
            StateModel::Established(EstModel::H2(s)) if s.lent => Some(s.wire),
            _ => None,
        }
    }

    /// Whether lent buffers are behind the connection.
    pub open spec fn lent(self) -> bool {
        self.held() is Some
    }

    /// Closed.
    pub open spec fn shut(self) -> TcpModel<V> {
        self.with_state(StateModel::Closed)
    }
}

/// What comes of a handshake that is complete: the HTTP version that was agreed
/// on, HTTP/1.1 where none was. Any other protocol is refused.
pub open spec fn upgraded<S: TlsSession, const BUF: usize>(p: PartsModel<S::V>) -> Option<
    (ConnProtocol, EstModel<S::V>),
> {
    let http1 = (
        ConnProtocol::Http1,
        EstModel::Https1(Https1Server::<S, BUF, 2048, 4096>::from_model(p)),
    );
    match S::protocol(p.tls) {
        None => Some(http1),
        Some(alpn) => if alpn == ALPN_H2@ {
            Some(
                (
                    ConnProtocol::H2,
                    EstModel::H2(H2TlsServer::<S, BUF, 8, 2048, 4096>::from_model(p)),
                ),
            )
        } else if alpn == ALPN_HTTP1@ {
            Some(http1)
        } else {
            None
        },
    }
}

/// Which HTTP version a handshake agreed on.
enum Agreed {
    Http1,
    H2,
    Other,
}

impl<S: TlsSession, const BUF: usize> TcpConn<S, BUF> {
    pub open spec fn wf(&self) -> bool {
        match self.state {
            TcpState::Handshaking(p) => p.wf(),
            TcpState::Established(e) => e.conn_wf(),
            TcpState::Closed => true,
        }
    }

    pub fn is_handshaking(&self) -> (r: bool)
        ensures
            r == self@.state is Handshaking,
    {
        match self.state {
            TcpState::Handshaking(_) => true,
            _ => false,
        }
    }

    pub fn is_established(&self) -> (r: bool)
        ensures
            r == self@.state is Established,
    {
        match self.state {
            TcpState::Established(_) => true,
            _ => false,
        }
    }

    pub fn is_closed(&self) -> (r: bool)
        ensures
            r == self@.state is Closed,
    {
        match self.state {
            TcpState::Closed => true,
            _ => false,
        }
    }

    /// Closes the connection and recovers the buffers that it was lent. Every
    /// connection is closed through here, or its buffers would be lost.
    pub fn reclaim_and_close(&mut self) -> (r: Option<TlsBufKit>)
        requires
            old(self).wf(),
        ensures
            final(self).wf(),
            final(self)@ == old(self)@.shut(),
            kit_returned(r, old(self)@.held()),
    {
        let kit = match &mut self.state {
            TcpState::Handshaking(parts) => parts.reclaim_buffers(),
            TcpState::Established(http) => http.reclaim_buffers(),
            TcpState::Closed => None,
        };
        self.state = TcpState::Closed;
        kit
    }

    /// Feeds handshake data.
    pub fn feed_handshake(&mut self, data: &[u8]) -> (r: Result<(), Error>)
        requires
            old(self).wf(),
            old(self)@.state is Handshaking,
        ensures
            final(self).wf(),
            final(self)@ == old(self)@.with_state(
                StateModel::Handshaking(
                    TlsParts::<S, BUF>::fed(old(self)@.state->Handshaking_0, data@).0,
                ),
            ),
            r == TlsParts::<S, BUF>::fed(old(self)@.state->Handshaking_0, data@).1,
    {
        match &mut self.state {
            TcpState::Handshaking(parts) => parts.feed_data(data),
            _ => Err(Error::InvalidState),
        }
    }

    /// Feeds an HTTP connection.
    pub fn feed_established(&mut self, data: &[u8], now: u64) -> (r: Result<(), Error>)
        requires
            old(self).wf(),
            old(self)@.state is Established,
        ensures
            final(self).wf(),
            final(self)@ == old(self)@.with_state(
                StateModel::Established(
                    EstablishedConn::<S, BUF>::fed_timed(
                        old(self)@.state->Established_0,
                        data@,
                        now,
                    ).0,
                ),
            ),
            r == EstablishedConn::<S, BUF>::fed_timed(
                old(self)@.state->Established_0,
                data@,
                now,
            ).1,
    {
        match &mut self.state {
            TcpState::Established(http) => http.tcp_feed_data_timed(data, now),
            _ => Err(Error::InvalidState),
        }
    }

    /// Polls the HTTP connection, if there is one: whether there is, its next
    /// event, and whether it is closed.
    pub fn poll_http(&mut self, scratch: &mut [u8]) -> (r: (bool, Option<HttpEvent>, bool))
        requires
            old(self).wf(),
        ensures
            final(self).wf(),
            final(scratch)@.len() == old(scratch)@.len(),
            match old(self)@.state {
                StateModel::Established(e) => {
                    let (f, ev) = EstablishedConn::<S, BUF>::event_polled(e);
                    &&& r == (true, ev, EstablishedConn::<S, BUF>::closed(f))
                    &&& final(self)@ == old(self)@.with_state(StateModel::Established(f))
                },
                _ => r == (false, None::<HttpEvent>, false) && final(self)@ == old(self)@,
            },
    {
        match &mut self.state {
            TcpState::Established(http) => {
                let ev: Option<HttpEvent> = http.poll_event(scratch);
                let closed: bool = http.is_closed();
                (true, ev, closed)
            },
            _ => (false, None, false),
        }
    }

    /// Takes all events of the HTTP connection.
    pub fn drain_http(&mut self, id: ConnId) -> (es: Vec<ServerEvent>)
        requires
            old(self).wf(),
            old(self)@.state is Established,
        ensures
            final(self).wf(),
            final(self)@ == old(self)@.with_state(
                StateModel::Established(
                    all_events::<S, BUF>(
                        old(self)@.state->Established_0,
                        id,
                        Seq::empty(),
                    ).0,
                ),
            ),
            es@ == all_events::<S, BUF>(old(self)@.state->Established_0, id, Seq::empty()).1,
    {
        let mut es: Vec<ServerEvent> = Vec::new();
        // Connections over TCP do not use it.
        let mut scratch: [u8; 0] = [];
        let ghost e0 = self@.state->Established_0;
        let mut more: bool = true;
        while more
            invariant
                self.wf(),
                self@.state is Established,
                self@ == old(self)@.with_state(self@.state),
                more ==> all_events::<S, BUF>(self@.state->Established_0, id, es@) == all_events::<
                    S,
                    BUF,
                >(e0, id, Seq::empty()),
                !more ==> all_events::<S, BUF>(e0, id, Seq::empty()) == (
                    self@.state->Established_0,
                    es@,
                ),
            decreases
                self@.state->Established_0.waiting(),
                if more {
                    1int
                } else {
                    0int
                },
        {
            proof {
                polling_takes_one::<S, BUF>(self@.state->Established_0);
            }
            let (_, ev, _) = self.poll_http(&mut scratch);
            match ev {
                Some(event) => {
                    es.push(ServerEvent::Http { conn: id, event });
                },
                None => {
                    more = false;
                },
            }
        }
        es
    }

    /// Runs the timers of the HTTP connection.
    pub fn time_http(&mut self, now: u64)
        requires
            old(self).wf(),
            old(self)@.state is Established,
        ensures
            final(self).wf(),
            final(self)@ == old(self)@.with_state(
                StateModel::Established(
                    EstablishedConn::<S, BUF>::timed_out(old(self)@.state->Established_0, now),
                ),
            ),
    {
        match &mut self.state {
            TcpState::Established(http) => http.handle_timeout(now),
            _ => {},
        }
    }

    /// Reads headers of the HTTP connection.
    pub fn recv_headers(&mut self, stream_id: u64, out: &mut Vec<HeaderField>) -> (r: Result<
        (),
        Error,
    >)
        requires
            old(self).wf(),
            old(self)@.state is Established,
        ensures
            final(self).wf(),
            ({
                let (f, fs, result) = EstablishedConn::<S, BUF>::headers_read(
                    old(self)@.state->Established_0,
                    stream_id,
                );
                &&& final(self)@ == old(self)@.with_state(StateModel::Established(f))
                &&& bytes::fields(final(out)@) == bytes::fields(old(out)@) + fs
                &&& r == result
            }),
    {
        match &mut self.state {
            TcpState::Established(http) => http.recv_headers(stream_id, out),
            _ => Err(Error::InvalidState),
        }
    }

    /// Reads body data of the HTTP connection.
    pub fn recv_body(&mut self, stream_id: u64, buf: &mut [u8]) -> (r: Result<(usize, bool), Error>)
        requires
            old(self).wf(),
            old(self)@.state is Established,
        ensures
            final(self).wf(),
            ({
                let (f, body, result) = EstablishedConn::<S, BUF>::body_read(
                    old(self)@.state->Established_0,
                    stream_id,
                    old(buf)@.len() as int,
                );
                &&& final(self)@ == old(self)@.with_state(StateModel::Established(f))
                &&& final(buf)@ == bytes::splice(old(buf)@, 0, body)
                &&& r == result
            }),
    {
        match &mut self.state {
            TcpState::Established(http) => http.recv_body(stream_id, buf),
            _ => Err(Error::InvalidState),
        }
    }

    /// Sends response headers on the HTTP connection.
    pub fn send_response(
        &mut self,
        stream_id: u64,
        status: u16,
        headers: &[(&[u8], &[u8])],
        end_stream: bool,
    ) -> (r: Result<(), Error>)
        requires
            old(self).wf(),
            old(self)@.state is Established,
        ensures
            final(self).wf(),
            ({
                let (f, result) = EstablishedConn::<S, BUF>::response_sent(
                    old(self)@.state->Established_0,
                    stream_id,
                    status,
                    bytes::pairs(headers@),
                    end_stream,
                );
                &&& final(self)@ == old(self)@.with_state(StateModel::Established(f))
                &&& r == result
            }),
    {
        match &mut self.state {
            TcpState::Established(http) => http.send_response(
                stream_id,
                status,
                headers,
                end_stream,
            ),
            _ => Err(Error::InvalidState),
        }
    }

    /// Sends body data on the HTTP connection.
    pub fn send_body(&mut self, stream_id: u64, data: &[u8], end_stream: bool) -> (r: Result<
        usize,
        Error,
    >)
        requires
            old(self).wf(),
            old(self)@.state is Established,
        ensures
            final(self).wf(),
            ({
                let (f, result) = EstablishedConn::<S, BUF>::body_sent(
                    old(self)@.state->Established_0,
                    stream_id,
                    data@,
                    end_stream,
                );
                &&& final(self)@ == old(self)@.with_state(StateModel::Established(f))
                &&& r == result
            }),
    {
        match &mut self.state {
            TcpState::Established(http) => http.send_body(stream_id, data, end_stream),
            _ => Err(Error::InvalidState),
        }
    }

    /// What pulling output gives.
    pub open spec fn polled(c: TcpModel<S::V>, room: int) -> (TcpModel<S::V>, Option<Seq<u8>>) {
        match c.state {
            StateModel::Handshaking(p) => {
                let (q, out) = TlsParts::<S, BUF>::polled(p, room);
                (c.with_state(StateModel::Handshaking(q)), out)
            },
            StateModel::Established(e) => {
                let (f, out) = EstablishedConn::<S, BUF>::output_polled(e, room);
                (c.with_state(StateModel::Established(f)), out)
            },
            StateModel::Closed => (c, None),
        }
    }

    /// Pulls output.
    pub fn poll_output<'a>(&mut self, buf: &'a mut [u8]) -> (r: Option<&'a [u8]>)
        requires
            old(self).wf(),
        ensures
            bytes::chunk_at_start(old(buf)@, final(buf)@, r),
            final(self).wf(),
            final(self)@ == Self::polled(old(self)@, old(buf)@.len() as int).0,
            match r {
                Some(chunk) => Self::polled(old(self)@, old(buf)@.len() as int).1 == Some(chunk@),
                None => Self::polled(old(self)@, old(buf)@.len() as int).1 is None,
            },
    {
        match &mut self.state {
            TcpState::Handshaking(parts) => parts.poll_output(buf),
            TcpState::Established(http) => http.tcp_poll_output(buf),
            TcpState::Closed => None,
        }
    }

    /// Whether the handshake is complete.
    pub fn handshake_done(&self) -> (r: bool)
        ensures
            r == (self@.state matches StateModel::Handshaking(p) && S::active(p.tls)),
    {
        match &self.state {
            TcpState::Handshaking(parts) => parts.is_active(),
            _ => false,
        }
    }

    /// Which HTTP version the handshake agreed on.
    fn agreed(parts: &TlsParts<S, BUF>) -> (r: Agreed)
        ensures
            match r {
                Agreed::Http1 => S::protocol(parts@.tls) is None || S::protocol(parts@.tls) == Some(
                    ALPN_HTTP1@,
                ),
                Agreed::H2 => S::protocol(parts@.tls) == Some(ALPN_H2@),
                Agreed::Other => S::protocol(parts@.tls) is Some && S::protocol(parts@.tls) != Some(
                    ALPN_HTTP1@,
                ) && S::protocol(parts@.tls) != Some(ALPN_H2@),
            },
    {
        match parts.alpn() {
            None => Agreed::Http1,
            Some(p) => if bytes::bytes_equal(p, &ALPN_H2) {
                Agreed::H2
            } else if bytes::bytes_equal(p, &ALPN_HTTP1) {
                Agreed::Http1
            } else {
                Agreed::Other
            },
        }
    }

    /// Turns a complete handshake into an HTTP connection, or closes the
    /// connection where no known protocol was agreed on.
    pub fn upgrade(&mut self) -> (r: (bool, Option<TlsBufKit>))
        requires
            old(self).wf(),
            old(self)@.state is Handshaking,
        ensures
            final(self).wf(),
            match upgraded::<S, BUF>(old(self)@.state->Handshaking_0) {
                Some((protocol, e)) => r.0 && r.1 is None && final(self)@ == (TcpModel {
                    state: StateModel::Established(e),
                    protocol,
                    ..old(self)@
                }),
                None => !r.0 && kit_returned(r.1, old(self)@.held()) && final(self)@
                    == old(self)@.shut(),
            },
    {
        assert(ALPN_H2@.len() != ALPN_HTTP1@.len());
        let mut state: TcpState<S, BUF> = TcpState::Closed;
        std::mem::swap(&mut state, &mut self.state);
        match state {
            TcpState::Handshaking(parts) => {
                let mut parts = parts;
                match Self::agreed(&parts) {
                    Agreed::H2 => {
                        self.protocol = ConnProtocol::H2;
                        self.state = TcpState::Established(
                            EstablishedConn::H2(H2TlsServer::from_parts(parts)),
                        );
                        (true, None)
                    },
                    Agreed::Http1 => {
                        self.protocol = ConnProtocol::Http1;
                        self.state = TcpState::Established(
                            EstablishedConn::Https1(Https1Server::from_parts(parts)),
                        );
                        (true, None)
                    },
                    Agreed::Other => (false, parts.reclaim_buffers()),
                }
            },
            _ => (false, None),
        }
    }
}

} // verus!
