//! Events, HTTP and lifecycle of the connection manager.

use vstd::prelude::*;

use super::conn;
use super::conn::{EstModel, EstablishedConn, StateModel, TcpModel, TcpState};
use super::manager;
use super::manager::{Mgr, ServerManager};
use super::timers;
use super::{ConnId, ConnProtocol, ServerEvent};
use crate::bytes;
use crate::bytes::{Field, HeaderField};
use crate::error::Error;
use crate::http;
use crate::http::server_conn::{HttpEvent, HttpServerConn};
use crate::quic::{HandshakePoolAccess, QuicServer};
use crate::tls::TlsSession;
use crate::transport::Address;

verus! {

/// Where the HTTP connection with a handle is.
pub enum Target {
    Tcp(int),
    Quic(int),
    Nowhere,
}

/// Whether the manager reports a connection as closed. One that is not there is.
pub open spec fn reported_closed<Q: HttpServerConn, TV, A>(m: Mgr<TV, Q::V, A>, id: ConnId) -> bool {
    match (m.find_tcp(id), m.find_quic(id)) {
        (Some(i), _) => m.tcp[i].state is Closed,
        (None, Some(i)) => Q::closed(m.quic[i].server),
        (None, None) => true,
    }
}

impl<S: TlsSession, Q: HttpServerConn, A: Address, const BUF: usize> ServerManager<S, Q, A, BUF> {
    // -----------------------------------------------------------------------
    // Events
    // -----------------------------------------------------------------------

    /// The TCP connection at `i` is polled. One that has closed itself is closed
    /// here too.
    pub open spec fn tcp_conn_polled(m: Mgr<S::V, Q::V, A>, i: int) -> (Mgr<S::V, Q::V, A>, Option<ServerEvent>) {
        match m.tcp[i].state {
            StateModel::Established(e) => {
                let (f, ev) = EstablishedConn::<S, BUF>::event_polled(e);
                let t = m.with_state(i, StateModel::Established(f));
                match ev {
                    Some(x) => (t, Some(ServerEvent::Http { conn: m.tcp[i].id, event: x })),
                    None => if EstablishedConn::<S, BUF>::closed(f) {
                        (t.shut(i), Some(ServerEvent::Closed(m.tcp[i].id)))
                    } else {
                        (t, None)
                    },
                }
            },
            _ => (m, None),
        }
    }

    /// The TCP connections from `i` on are polled until one has an event.
    pub open spec fn tcp_scanned(m: Mgr<S::V, Q::V, A>, i: int) -> (Mgr<S::V, Q::V, A>, Option<ServerEvent>)
        decreases m.tcp.len() - i,
    {
        if i < 0 || i >= m.tcp.len() {
            (m, None)
        } else {
            match Self::tcp_conn_polled(m, i) {
                (t, Some(e)) => (t, Some(e)),
                (t, None) => Self::tcp_scanned(t, i + 1),
            }
        }
    }

    /// The QUIC connections from `i` on are polled until one has an event.
    pub open spec fn quic_scanned(m: Mgr<S::V, Q::V, A>, i: int) -> (Mgr<S::V, Q::V, A>, Option<ServerEvent>)
        decreases m.quic.len() - i,
    {
        if i < 0 || i >= m.quic.len() {
            (m, None)
        } else {
            let (s, ev) = Q::event_polled(m.quic[i].server);
            match ev {
                Some(x) => (
                    m.with_quic(i, s),
                    Some(ServerEvent::Http { conn: m.quic[i].id, event: x }),
                ),
                None => Self::quic_scanned(m.with_quic(i, s), i + 1),
            }
        }
    }

    /// The next event: one that is queued, or one of the connections. Where there
    /// is none, closed TCP connections are removed.
    pub open spec fn event_polled(m: Mgr<S::V, Q::V, A>) -> (Mgr<S::V, Q::V, A>, Option<ServerEvent>) {
        if m.events.len() > 0 {
            (Mgr { events: m.events.skip(1), ..m }, Some(m.events[0]))
        } else {
            match Self::tcp_scanned(m, 0) {
                (t, Some(e)) => (t, Some(e)),
                (t, None) => match Self::quic_scanned(t, 0) {
                    (u, Some(e)) => (u, Some(e)),
                    (u, None) => (Mgr { tcp: manager::not_closed(u.tcp), ..u }, None),
                },
            }
        }
    }

    fn poll_tcp_conn(&mut self, i: usize, scratch: &mut [u8]) -> (r: Option<ServerEvent>)
        requires
            old(self).wf(),
            i < old(self)@.tcp.len(),
        ensures
            final(self).wf(),
            final(scratch)@.len() == old(scratch)@.len(),
            (final(self)@, r) == Self::tcp_conn_polled(old(self)@, i as int),
            final(self)@.tcp.len() == old(self)@.tcp.len(),
    {
        let ghost conns = self.tcp_conns@;
        proof {
            manager::lemma_tcp_at(conns, i as int);
        }
        let id: ConnId = self.tcp_conns[i].id;
        let (established, ev, closed) = self.tcp_conns[i].poll_http(scratch);
        proof {
            manager::lemma_tcp_update(conns, i as int, self.tcp_conns@[i as int]);
            assert(self.tcp_conns@ =~= conns.update(i as int, self.tcp_conns@[i as int]));
            if !established {
                assert(self@.tcp =~= old(self)@.tcp);
            }
        }
        if let Some(event) = ev {
            return Some(ServerEvent::Http { conn: id, event });
        }
        if established && closed {
            self.shut_tcp(i);
            return Some(ServerEvent::Closed(id));
        }
        None
    }

    fn scan_tcp(&mut self, scratch: &mut [u8]) -> (r: Option<ServerEvent>)
        requires
            old(self).wf(),
        ensures
            final(self).wf(),
            final(scratch)@.len() == old(scratch)@.len(),
            (final(self)@, r) == Self::tcp_scanned(old(self)@, 0),
    {
        let mut i: usize = 0;
        while i < self.tcp_conns.len()
            invariant
                self.wf(),
                i <= self.tcp_conns@.len(),
                scratch@.len() == old(scratch)@.len(),
                Self::tcp_scanned(self@, i as int) == Self::tcp_scanned(old(self)@, 0),
            decreases self.tcp_conns@.len() - i,
        {
            let ghost before = self@.tcp.len();
            assert(before == self.tcp_conns@.len());
            if let Some(e) = self.poll_tcp_conn(i, scratch) {
                return Some(e);
            }
            assert(self@.tcp.len() == self.tcp_conns@.len());
            i = i + 1;
        }
        assert(self@.tcp.len() == self.tcp_conns@.len());
        None
    }

    fn scan_quic(&mut self, scratch: &mut [u8]) -> (r: Option<ServerEvent>)
        requires
            old(self).wf(),
        ensures
            final(self).wf(),
            final(scratch)@.len() == old(scratch)@.len(),
            (final(self)@, r) == Self::quic_scanned(old(self)@, 0),
    {
        let mut i: usize = 0;
        while i < self.quic_conns.len()
            invariant
                self.wf(),
                i <= self.quic_conns@.len(),
                scratch@.len() == old(scratch)@.len(),
                Self::quic_scanned(self@, i as int) == Self::quic_scanned(old(self)@, 0),
            decreases self.quic_conns@.len() - i,
        {
            let ghost conns = self.quic_conns@;
            proof {
                manager::lemma_quic_at(conns, i as int);
            }
            let ev: Option<HttpEvent> = self.quic_conns[i].server.poll_event(scratch);
            proof {
                manager::lemma_quic_update(conns, i as int, self.quic_conns@[i as int]);
                assert(self.quic_conns@ =~= conns.update(i as int, self.quic_conns@[i as int]));
            }
            if let Some(event) = ev {
                return Some(ServerEvent::Http { conn: self.quic_conns[i].id, event });
            }
            i = i + 1;
        }
        assert(self@.quic.len() == self.quic_conns@.len());
        None
    }

    /// Removes closed TCP connections.
    fn sweep_tcp(&mut self)
        requires
            old(self).wf(),
        ensures
            final(self).wf(),
            final(self)@ == (Mgr { tcp: manager::not_closed(old(self)@.tcp), ..old(self)@ }),
    {
        let ghost all = self@.tcp;
        let ghost mut k: int = 0;
        let mut i: usize = 0;
        proof {
            assert(all.take(0).len() == 0);
            assert(self@.tcp =~= manager::not_closed(all.take(0)) + all.skip(0));
        }
        while i < self.tcp_conns.len()
            invariant
                self.wf(),
                all == old(self)@.tcp,
                0 <= k <= all.len(),
                i == manager::not_closed(all.take(k)).len(),
                self@ == (Mgr { tcp: self@.tcp, ..old(self)@ }),
                self@.tcp == manager::not_closed(all.take(k)) + all.skip(k),
            decreases all.len() - k,
        {
            let ghost before = self@.tcp;
            proof {
                assert(before.len() == self.tcp_conns@.len());
                assert(k < all.len());
                assert(before[i as int] == all[k]);
                assert(all.take(k + 1).drop_last() =~= all.take(k));
                assert(all.take(k + 1).last() == all[k]);
                manager::lemma_tcp_at(self.tcp_conns@, i as int);
            }
            if self.tcp_conns[i].is_closed() {
                proof {
                    manager::lemma_tcp_remove(self.tcp_conns@, i as int);
                }
                let _ = self.tcp_conns.remove(i);
                assert(self@.tcp =~= manager::not_closed(all.take(k + 1)) + all.skip(k + 1));
            } else {
                i = i + 1;
                assert(self@.tcp =~= manager::not_closed(all.take(k + 1)) + all.skip(k + 1));
            }
            proof {
                k = k + 1;
            }
        }
        proof {
            assert(self@.tcp.len() == self.tcp_conns@.len());
            assert(k == all.len());
            assert(all.take(k) =~= all);
            assert(self@.tcp =~= manager::not_closed(all));
        }
    }

    /// Polls for the next server event. `scratch` is for temporary stream reads
    /// of HTTP/3 connections.
    pub fn poll_event(&mut self, scratch: &mut [u8]) -> (r: Option<ServerEvent>)
        requires
            old(self).wf(),
        ensures
            final(self).wf(),
            final(scratch)@.len() == old(scratch)@.len(),
            (final(self)@, r) == Self::event_polled(old(self)@),
    {
        if let Some(ev) = self.events.pop_front() {
            assert(self.events@ =~= old(self).events@.skip(1));
            return Some(ev);
        }
        if let Some(ev) = self.scan_tcp(scratch) {
            return Some(ev);
        }
        if let Some(ev) = self.scan_quic(scratch) {
            return Some(ev);
        }
        self.sweep_tcp();
        None
    }

    // -----------------------------------------------------------------------
    // HTTP
    // -----------------------------------------------------------------------

    /// Where the HTTP connection with a handle is.
    pub open spec fn target(m: Mgr<S::V, Q::V, A>, id: ConnId) -> Target {
        match m.find_tcp(id) {
            Some(i) if m.tcp[i].state is Established => Target::Tcp(i),
            _ => match m.find_quic(id) {
                Some(i) => Target::Quic(i),
                None => Target::Nowhere,
            },
        }
    }

    /// The HTTP connection over TCP at `i`.
    pub open spec fn http_at(m: Mgr<S::V, Q::V, A>, i: int) -> EstModel<S::V> {
        m.tcp[i].state->Established_0
    }

    /// The TCP connection with a handle, where it is established.
    fn find_established(&self, id: ConnId) -> (r: Option<usize>)
        requires
            self.wf(),
        ensures
            match r {
                Some(i) => Self::target(self@, id) == Target::Tcp(i as int) && i
                    < self.tcp_conns@.len() && self@.tcp[i as int].state is Established,
                None => !(Self::target(self@, id) is Tcp),
            },
    {
        match self.find_tcp(id) {
            Some(i) => {
                proof {
                    manager::lemma_tcp_at(self.tcp_conns@, i as int);
                }
                if self.tcp_conns[i].is_established() {
                    Some(i)
                } else {
                    None
                }
            },
            None => None,
        }
    }

    /// Request headers are read.
    pub open spec fn headers_read(m: Mgr<S::V, Q::V, A>, id: ConnId, stream: u64) -> (
        Mgr<S::V, Q::V, A>,
        Seq<Field>,
        Result<(), Error>,
    ) {
        match Self::target(m, id) {
            Target::Tcp(i) => {
                let (f, fs, r) = EstablishedConn::<S, BUF>::headers_read(
                    Self::http_at(m, i),
                    stream,
                );
                (m.with_state(i, StateModel::Established(f)), fs, r)
            },
            Target::Quic(i) => {
                let (s, fs, r) = Q::headers_read(m.quic[i].server, stream);
                (m.with_quic(i, s), fs, r)
            },
            Target::Nowhere => (m, Seq::empty(), Err(Error::InvalidState)),
        }
    }

    /// Body data is read.
    pub open spec fn body_read(m: Mgr<S::V, Q::V, A>, id: ConnId, stream: u64, room: int) -> (
        Mgr<S::V, Q::V, A>,
        Seq<u8>,
        Result<(usize, bool), Error>,
    ) {
        match Self::target(m, id) {
            Target::Tcp(i) => {
                let (f, body, r) = EstablishedConn::<S, BUF>::body_read(
                    Self::http_at(m, i),
                    stream,
                    room,
                );
                (m.with_state(i, StateModel::Established(f)), body, r)
            },
            Target::Quic(i) => {
                let (s, body, r) = Q::body_read(m.quic[i].server, stream, room);
                (m.with_quic(i, s), body, r)
            },
            Target::Nowhere => (m, Seq::empty(), Err(Error::InvalidState)),
        }
    }

    /// Response headers are sent.
    pub open spec fn response_sent(
        m: Mgr<S::V, Q::V, A>,
        id: ConnId,
        stream: u64,
        status: u16,
        fs: Seq<Field>,
        end: bool,
    ) -> (Mgr<S::V, Q::V, A>, Result<(), Error>) {
        match Self::target(m, id) {
            Target::Tcp(i) => {
                let (f, r) = EstablishedConn::<S, BUF>::response_sent(
                    Self::http_at(m, i),
                    stream,
                    status,
                    fs,
                    end,
                );
                (m.with_state(i, StateModel::Established(f)), r)
            },
            Target::Quic(i) => {
                let (s, r) = Q::response_sent(m.quic[i].server, stream, status, fs, end);
                (m.with_quic(i, s), r)
            },
            Target::Nowhere => (m, Err(Error::InvalidState)),
        }
    }

    /// Body data is sent.
    pub open spec fn body_sent(m: Mgr<S::V, Q::V, A>, id: ConnId, stream: u64, data: Seq<u8>, end: bool) -> (
        Mgr<S::V, Q::V, A>,
        Result<usize, Error>,
    ) {
        match Self::target(m, id) {
            Target::Tcp(i) => {
                let (f, r) = EstablishedConn::<S, BUF>::body_sent(
                    Self::http_at(m, i),
                    stream,
                    data,
                    end,
                );
                (m.with_state(i, StateModel::Established(f)), r)
            },
            Target::Quic(i) => {
                let (s, r) = Q::body_sent(m.quic[i].server, stream, data, end);
                (m.with_quic(i, s), r)
            },
            Target::Nowhere => (m, Err(Error::InvalidState)),
        }
    }

    /// Reads request headers of a stream of a connection, appending them to `out`.
    pub fn recv_headers(&mut self, id: ConnId, stream_id: u64, out: &mut Vec<HeaderField>) -> (r:
        Result<(), Error>)
        requires
            old(self).wf(),
        ensures
            final(self).wf(),
            final(self)@ == Self::headers_read(old(self)@, id, stream_id).0,
            bytes::fields(final(out)@) == bytes::fields(old(out)@) + Self::headers_read(
                old(self)@,
                id,
                stream_id,
            ).1,
            r == Self::headers_read(old(self)@, id, stream_id).2,
    {
        if let Some(i) = self.find_established(id) {
            let ghost conns = self.tcp_conns@;
            proof {
                manager::lemma_tcp_at(conns, i as int);
            }
            let r = self.tcp_conns[i].recv_headers(stream_id, out);
            proof {
                manager::lemma_tcp_update(conns, i as int, self.tcp_conns@[i as int]);
                assert(self.tcp_conns@ =~= conns.update(i as int, self.tcp_conns@[i as int]));
            }
            return r;
        }
        if let Some(i) = self.find_quic(id) {
            let ghost conns = self.quic_conns@;
            proof {
                manager::lemma_quic_at(conns, i as int);
            }
            let r = self.quic_conns[i].server.recv_headers(stream_id, out);
            proof {
                manager::lemma_quic_update(conns, i as int, self.quic_conns@[i as int]);
                assert(self.quic_conns@ =~= conns.update(i as int, self.quic_conns@[i as int]));
            }
            return r;
        }
        assert(bytes::fields(out@) =~= bytes::fields(out@) + Seq::empty());
        Err(Error::InvalidState)
    }

    /// Reads body data of a stream of a connection.
    pub fn recv_body(&mut self, id: ConnId, stream_id: u64, buf: &mut [u8]) -> (r: Result<
        (usize, bool),
        Error,
    >)
        requires
            old(self).wf(),
        ensures
            final(self).wf(),
            ({
                let (m, body, result) = Self::body_read(
                    old(self)@,
                    id,
                    stream_id,
                    old(buf)@.len() as int,
                );
                &&& final(self)@ == m
                &&& final(buf)@ == bytes::splice(old(buf)@, 0, body)
                &&& r == result
            }),
    {
        if let Some(i) = self.find_established(id) {
            let ghost conns = self.tcp_conns@;
            proof {
                manager::lemma_tcp_at(conns, i as int);
            }
            let r = self.tcp_conns[i].recv_body(stream_id, buf);
            proof {
                manager::lemma_tcp_update(conns, i as int, self.tcp_conns@[i as int]);
                assert(self.tcp_conns@ =~= conns.update(i as int, self.tcp_conns@[i as int]));
            }
            return r;
        }
        if let Some(i) = self.find_quic(id) {
            let ghost conns = self.quic_conns@;
            proof {
                manager::lemma_quic_at(conns, i as int);
            }
            let r = self.quic_conns[i].server.recv_body(stream_id, buf);
            proof {
                manager::lemma_quic_update(conns, i as int, self.quic_conns@[i as int]);
                assert(self.quic_conns@ =~= conns.update(i as int, self.quic_conns@[i as int]));
            }
            return r;
        }
        assert(buf@ =~= bytes::splice(buf@, 0, Seq::empty()));
        Err(Error::InvalidState)
    }

    /// Sends response headers on a stream of a connection.
    pub fn send_response(
        &mut self,
        id: ConnId,
        stream_id: u64,
        status: u16,
        headers: &[(&[u8], &[u8])],
        end_stream: bool,
    ) -> (r: Result<(), Error>)
        requires
            old(self).wf(),
        ensures
            final(self).wf(),
            (final(self)@, r) == Self::response_sent(
                old(self)@,
                id,
                stream_id,
                status,
                bytes::pairs(headers@),
                end_stream,
            ),
    {
        if let Some(i) = self.find_established(id) {
            let ghost conns = self.tcp_conns@;
            proof {
                manager::lemma_tcp_at(conns, i as int);
            }
            let r = self.tcp_conns[i].send_response(stream_id, status, headers, end_stream);
            proof {
                manager::lemma_tcp_update(conns, i as int, self.tcp_conns@[i as int]);
                assert(self.tcp_conns@ =~= conns.update(i as int, self.tcp_conns@[i as int]));
            }
            return r;
        }
        if let Some(i) = self.find_quic(id) {
            let ghost conns = self.quic_conns@;
            proof {
                manager::lemma_quic_at(conns, i as int);
            }
            let r = self.quic_conns[i].server.send_response(stream_id, status, headers, end_stream);
            proof {
                manager::lemma_quic_update(conns, i as int, self.quic_conns@[i as int]);
                assert(self.quic_conns@ =~= conns.update(i as int, self.quic_conns@[i as int]));
            }
            return r;
        }
        Err(Error::InvalidState)
    }

    /// Sends body data on a stream of a connection.
    pub fn send_body(&mut self, id: ConnId, stream_id: u64, data: &[u8], end_stream: bool) -> (r:
        Result<usize, Error>)
        requires
            old(self).wf(),
        ensures
            final(self).wf(),
            (final(self)@, r) == Self::body_sent(old(self)@, id, stream_id, data@, end_stream),
    {
        if let Some(i) = self.find_established(id) {
            let ghost conns = self.tcp_conns@;
            proof {
                manager::lemma_tcp_at(conns, i as int);
            }
            let r = self.tcp_conns[i].send_body(stream_id, data, end_stream);
            proof {
                manager::lemma_tcp_update(conns, i as int, self.tcp_conns@[i as int]);
                assert(self.tcp_conns@ =~= conns.update(i as int, self.tcp_conns@[i as int]));
            }
            return r;
        }
        if let Some(i) = self.find_quic(id) {
            let ghost conns = self.quic_conns@;
            proof {
                manager::lemma_quic_at(conns, i as int);
            }
            let r = self.quic_conns[i].server.send_body(stream_id, data, end_stream);
            proof {
                manager::lemma_quic_update(conns, i as int, self.quic_conns@[i as int]);
                assert(self.quic_conns@ =~= conns.update(i as int, self.quic_conns@[i as int]));
            }
            return r;
        }
        Err(Error::InvalidState)
    }

    // -----------------------------------------------------------------------
    // Lifecycle
    // -----------------------------------------------------------------------

    /// The deadline of a TCP connection.
    pub open spec fn tcp_deadline(m: Mgr<S::V, Q::V, A>, i: int) -> Option<u64> {
        match m.tcp[i].state {
            StateModel::Handshaking(_) => Some(m.handshake_deadline(m.tcp[i].accepted_at)),
            StateModel::Established(e) => EstablishedConn::<S, BUF>::deadline(e),
            StateModel::Closed => None,
        }
    }

    /// The deadline of a QUIC connection.
    pub open spec fn quic_deadline(m: Mgr<S::V, Q::V, A>, i: int) -> Option<u64> {
        http::earlier(
            if Q::established(m.quic[i].server) {
                None
            } else {
                Some(m.handshake_deadline(m.quic[i].created_at))
            },
            Q::deadline(m.quic[i].server),
        )
    }

    /// The earliest deadline of the first `n` TCP connections.
    pub open spec fn tcp_earliest(m: Mgr<S::V, Q::V, A>, n: int) -> Option<u64>
        decreases n,
    {
        if n <= 0 {
            None
        } else {
            http::earlier(Self::tcp_earliest(m, n - 1), Self::tcp_deadline(m, n - 1))
        }
    }

    /// The earliest deadline of the first `n` QUIC connections.
    pub open spec fn quic_earliest(m: Mgr<S::V, Q::V, A>, n: int) -> Option<u64>
        decreases n,
    {
        if n <= 0 {
            None
        } else {
            http::earlier(Self::quic_earliest(m, n - 1), Self::quic_deadline(m, n - 1))
        }
    }

    /// The earliest deadline of all connections.
    pub open spec fn next_deadline(m: Mgr<S::V, Q::V, A>) -> Option<u64> {
        http::earlier(
            Self::tcp_earliest(m, m.tcp.len() as int),
            Self::quic_earliest(m, m.quic.len() as int),
        )
    }

    /// The earliest timeout deadline across all connections.
    pub fn next_timeout(&self) -> (r: Option<u64>)
        requires
            self.wf(),
        ensures
            r == Self::next_deadline(self@),
            timers::earliest_due::<S, Q, A, BUF>(self@, r),
    {
        proof {
            timers::next_timeout_is_the_earliest_due::<S, Q, A, BUF>(self@);
        }
        let mut tcp: Option<u64> = None;
        let mut i: usize = 0;
        while i < self.tcp_conns.len()
            invariant
                self.wf(),
                i <= self.tcp_conns@.len(),
                tcp == Self::tcp_earliest(self@, i as int),
            decreases self.tcp_conns@.len() - i,
        {
            proof {
                manager::lemma_tcp_at(self.tcp_conns@, i as int);
            }
            let d: Option<u64> = match &self.tcp_conns[i].state {
                TcpState::Handshaking(_) => Some(
                    self.tcp_conns[i].accepted_at.saturating_add(self.config.handshake_timeout_us),
                ),
                TcpState::Established(http) => http.next_timeout(),
                TcpState::Closed => None,
            };
            tcp = http::earlier_deadline(tcp, d);
            i = i + 1;
        }
        let mut udp: Option<u64> = None;
        let mut j: usize = 0;
        while j < self.quic_conns.len()
            invariant
                self.wf(),
                j <= self.quic_conns@.len(),
                udp == Self::quic_earliest(self@, j as int),
            decreases self.quic_conns@.len() - j,
        {
            proof {
                manager::lemma_quic_at(self.quic_conns@, j as int);
            }
            let handshake: Option<u64> = if self.quic_conns[j].server.is_established() {
                None
            } else {
                Some(
                    self.quic_conns[j].created_at.saturating_add(self.config.handshake_timeout_us),
                )
            };
            let timer: Option<u64> = self.quic_conns[j].server.next_timeout();
            udp = http::earlier_deadline(udp, http::earlier_deadline(handshake, timer));
            j = j + 1;
        }
        assert(self@.tcp.len() == self.tcp_conns@.len());
        assert(self@.quic.len() == self.quic_conns@.len());
        http::earlier_deadline(tcp, udp)
    }

    /// Time passes for the TCP connection at `i`: a handshake past its deadline
    /// is closed, an HTTP connection runs its timers.
    pub open spec fn tcp_conn_timed(m: Mgr<S::V, Q::V, A>, i: int, now: u64) -> Mgr<S::V, Q::V, A> {
        match m.tcp[i].state {
            StateModel::Handshaking(_) => if now >= m.handshake_deadline(m.tcp[i].accepted_at) {
                m.dropped(i)
            } else {
                m
            },
            StateModel::Established(e) => m.with_state(
                i,
                StateModel::Established(EstablishedConn::<S, BUF>::timed_out(e, now)),
            ),
            StateModel::Closed => m,
        }
    }

    /// Time passes for the TCP connections from `i` on.
    pub open spec fn tcp_timed_from(m: Mgr<S::V, Q::V, A>, i: int, now: u64) -> Mgr<S::V, Q::V, A>
        decreases m.tcp.len() - i,
    {
        if i < 0 || i >= m.tcp.len() {
            m
        } else {
            Self::tcp_timed_from(Self::tcp_conn_timed(m, i, now), i + 1, now)
        }
    }

    fn time_tcp_conn(&mut self, i: usize, now: u64)
        requires
            old(self).wf(),
            i < old(self)@.tcp.len(),
        ensures
            final(self).wf(),
            final(self)@ == Self::tcp_conn_timed(old(self)@, i as int, now),
            final(self)@.tcp.len() == old(self)@.tcp.len(),
    {
        let ghost conns = self.tcp_conns@;
        proof {
            manager::lemma_tcp_at(conns, i as int);
        }
        if self.tcp_conns[i].is_handshaking() {
            let deadline: u64 = self.tcp_conns[i].accepted_at.saturating_add(
                self.config.handshake_timeout_us,
            );
            if now >= deadline {
                self.drop_tcp(i);
            }
        } else if self.tcp_conns[i].is_established() {
            self.tcp_conns[i].time_http(now);
            proof {
                manager::lemma_tcp_update(conns, i as int, self.tcp_conns@[i as int]);
                assert(self.tcp_conns@ =~= conns.update(i as int, self.tcp_conns@[i as int]));
            }
        }
    }

    /// Closes TLS handshakes past their deadline and runs the timers of HTTP
    /// connections over TCP.
    fn handle_tcp_timeouts(&mut self, now: u64)
        requires
            old(self).wf(),
        ensures
            final(self).wf(),
            final(self)@ == Self::tcp_timed_from(old(self)@, 0, now),
    {
        let mut i: usize = 0;
        while i < self.tcp_conns.len()
            invariant
                self.wf(),
                i <= self.tcp_conns@.len(),
                Self::tcp_timed_from(self@, i as int, now) == Self::tcp_timed_from(
                    old(self)@,
                    0,
                    now,
                ),
            decreases self.tcp_conns@.len() - i,
        {
            assert(self@.tcp.len() == self.tcp_conns@.len());
            self.time_tcp_conn(i, now);
            assert(self@.tcp.len() == self.tcp_conns@.len());
            i = i + 1;
        }
        assert(self@.tcp.len() == self.tcp_conns@.len());
    }

    /// Handles timeouts on all connections, and reaps dead QUIC connections. It
    /// takes the handshake pool because a connection that closes during its
    /// handshake still holds a slot of it.
    pub fn handle_timeouts<P: HandshakePoolAccess>(&mut self, now: u64, pool: &mut P) where Q: QuicServer<P>
        requires
            old(self).wf(),
        ensures
            final(self).wf(),
            (final(self)@, final(pool)@) == Self::reaped_from::<P>(
                Self::tcp_timed_from(old(self)@, 0, now),
                0,
                now,
                old(pool)@,
            ),
            timers::too_early(now, Self::next_deadline(old(self)@)) ==> final(self)@.tcp
                == old(self)@.tcp,
    {
        proof {
            if timers::too_early(now, Self::next_deadline(self@)) {
                timers::nothing_times_out_early::<S, Q, A, P, BUF>(self@, pool@, now);
            }
        }
        self.handle_tcp_timeouts(now);
        self.reap_quic_conns(now, pool);
    }

    /// The peer of a TCP connection has sent all it will: its events are kept,
    /// and it is closed.
    pub open spec fn ended(m: Mgr<S::V, Q::V, A>, id: ConnId) -> Mgr<S::V, Q::V, A> {
        match m.find_tcp(id) {
            None => m,
            Some(i) => match m.tcp[i].state {
                StateModel::Closed => m,
                StateModel::Handshaking(_) => m.dropped(i),
                StateModel::Established(e) => {
                    let (f, es) = conn::all_events::<S, BUF>(e, id, Seq::empty());
                    m.with_state(i, StateModel::Established(f)).shut(i).pushed_all(es).pushed(
                        ServerEvent::Closed(id),
                    )
                },
            },
        }
    }

    /// Takes all events of the HTTP connection at `i`.
    fn drain_events(&mut self, i: usize, id: ConnId) -> (es: Vec<ServerEvent>)
        requires
            old(self).wf(),
            i < old(self)@.tcp.len(),
            old(self)@.tcp[i as int].state is Established,
        ensures
            final(self).wf(),
            ({
                let (f, all) = conn::all_events::<S, BUF>(
                    Self::http_at(old(self)@, i as int),
                    id,
                    Seq::empty(),
                );
                &&& final(self)@ == old(self)@.with_state(i as int, StateModel::Established(f))
                &&& es@ == all
            }),
    {
        let ghost conns = self.tcp_conns@;
        proof {
            manager::lemma_tcp_at(conns, i as int);
        }
        let es: Vec<ServerEvent> = self.tcp_conns[i].drain_http(id);
        proof {
            manager::lemma_tcp_update(conns, i as int, self.tcp_conns@[i as int]);
            assert(self.tcp_conns@ =~= conns.update(i as int, self.tcp_conns@[i as int]));
        }
        es
    }

    fn push_all(&mut self, es: &Vec<ServerEvent>)
        requires
            old(self).wf(),
        ensures
            final(self).wf(),
            final(self)@ == old(self)@.pushed_all(es@),
    {
        let mut k: usize = 0;
        assert(es@.take(0) =~= Seq::<ServerEvent>::empty());
        while k < es.len()
            invariant
                self.wf(),
                k <= es@.len(),
                self@ == old(self)@.pushed_all(es@.take(k as int)),
            decreases es@.len() - k,
        {
            assert(es@.take(k + 1).drop_last() =~= es@.take(k as int));
            self.push_server_event(es[k]);
            k = k + 1;
        }
        assert(es@.take(k as int) =~= es@);
    }

    /// Takes note that the TCP peer has sent all it will (a read returned 0).
    /// Queued HTTP events are kept, so that a request that arrives with the end
    /// of the stream is not lost.
    pub fn tcp_eof(&mut self, id: ConnId)
        requires
            old(self).wf(),
        ensures
            final(self).wf(),
            final(self)@ == Self::ended(old(self)@, id),
    {
        if let Some(i) = self.find_tcp(id) {
            proof {
                manager::lemma_tcp_at(self.tcp_conns@, i as int);
                tcp_found(self@.tcp, id, 0);
            }
            if self.tcp_conns[i].is_closed() {
                return;
            }
            if self.tcp_conns[i].is_handshaking() {
                self.drop_tcp(i);
                return;
            }
            let es: Vec<ServerEvent> = self.drain_events(i, id);
            self.shut_tcp(i);
            self.push_all(&es);
            self.push_server_event(ServerEvent::Closed(id));
        }
    }

    /// Closes a specific connection.
    pub fn close<P: HandshakePoolAccess>(&mut self, id: ConnId) -> (r: Result<(), Error>) where Q: QuicServer<P>
        requires
            old(self).wf(),
        ensures
            final(self).wf(),
            match (old(self)@.find_tcp(id), old(self)@.find_quic(id)) {
                (Some(i), _) => r == Ok::<(), Error>(()) && final(self)@
                    == if old(self)@.tcp[i].state is Closed {
                    old(self)@
                } else {
                    old(self)@.dropped(i)
                },
                (None, Some(i)) => r == Ok::<(), Error>(()) && final(self)@
                    == old(self)@.with_quic(
                    i,
                    <Q as QuicServer<P>>::closing(old(self)@.quic[i].server),
                ),
                (None, None) => r == Err::<(), Error>(Error::InvalidState) && final(self)@ == old(self)@,
            },
    {
        if let Some(i) = self.find_tcp(id) {
            proof {
                manager::lemma_tcp_at(self.tcp_conns@, i as int);
            }
            if !self.tcp_conns[i].is_closed() {
                self.drop_tcp(i);
            }
            return Ok(());
        }
        if let Some(i) = self.find_quic(id) {
            let ghost conns = self.quic_conns@;
            proof {
                manager::lemma_quic_at(conns, i as int);
            }
            QuicServer::<P>::close(&mut self.quic_conns[i].server);
            proof {
                manager::lemma_quic_update(conns, i as int, self.quic_conns@[i as int]);
                assert(self.quic_conns@ =~= conns.update(i as int, self.quic_conns@[i as int]));
            }
            return Ok(());
        }
        Err(Error::InvalidState)
    }

    /// Whether a connection is closed. One that is not there is.
    pub fn is_closed(&self, id: ConnId) -> (r: bool)
        requires
            self.wf(),
        ensures
            r == reported_closed::<Q, S::V, A>(self@, id),
    {
        if let Some(i) = self.find_tcp(id) {
            proof {
                manager::lemma_tcp_at(self.tcp_conns@, i as int);
            }
            return self.tcp_conns[i].is_closed();
        }
        if let Some(i) = self.find_quic(id) {
            proof {
                manager::lemma_quic_at(self.quic_conns@, i as int);
            }
            return self.quic_conns[i].server.is_closed();
        }
        true
    }

    /// Number of TCP connections.
    pub fn tcp_conn_count(&self) -> (n: usize)
        ensures
            n == self@.tcp.len(),
    {
        self.tcp_conns.len()
    }

    /// The protocol that a connection uses, or `None` if it is not there.
    pub fn conn_protocol(&self, id: ConnId) -> (r: Option<ConnProtocol>)
        requires
            self.wf(),
        ensures
            r == match (self@.find_tcp(id), self@.find_quic(id)) {
                (Some(i), _) => Some(self@.tcp[i].protocol),
                (None, Some(_)) => Some(ConnProtocol::H3),
                (None, None) => None,
            },
    {
        if let Some(i) = self.find_tcp(id) {
            proof {
                manager::lemma_tcp_at(self.tcp_conns@, i as int);
            }
            return Some(self.tcp_conns[i].protocol);
        }
        if self.find_quic(id).is_some() {
            return Some(ConnProtocol::H3);
        }
        None
    }
}

/// What is found has the handle.
pub proof fn tcp_found<TV>(ss: Seq<TcpModel<TV>>, id: ConnId, i: int)
    ensures
        match manager::tcp_from(ss, id, i) {
            Some(k) => 0 <= i <= k < ss.len() && ss[k].id == id,
            None => i >= 0 ==> forall|j: int| i <= j < ss.len() ==> (#[trigger] ss[j]).id != id,
        },
    decreases ss.len() - i,
{
    if 0 <= i < ss.len() && ss[i].id != id {
        tcp_found(ss, id, i + 1);
    }
}

} // verus!
