//! The connection manager.

use std::collections::VecDeque;

use vstd::prelude::*;

use super::conn;
use super::conn::{EstModel, EstablishedConn, StateModel, TcpConn, TcpModel, TcpState};
use super::{ConnId, ConnProtocol, ServerConfig, ServerEvent};
use crate::bytes;
use crate::error::Error;
use crate::http;
use crate::http::server_conn::HttpServerConn;
use crate::http1::server::Http1Server;
use crate::quic;
use crate::tls::{
    PartsModel, ServerTlsConfig, TlsBufKit, TlsParts, TlsSession, TlsWire,
};
use crate::transport::{Address, Rng};

verus! {

// ---------------------------------------------------------------------------
// Model
// ---------------------------------------------------------------------------

/// What is known of a QUIC connection.
pub struct QuicModel<QV, A> {
    pub id: ConnId,
    pub server: QV,
    pub peer_addr: A,
    pub cids: Seq<Seq<u8>>,
    pub dcid: Seq<u8>,
    pub created_at: u64,
}

/// What the manager knows.
pub struct Mgr<TV, QV, A> {
    pub config: ServerConfig,
    pub tls_config: ServerTlsConfig,
    pub tcp: Seq<TcpModel<TV>>,
    pub quic: Seq<QuicModel<QV, A>>,
    pub events: Seq<ServerEvent>,
    pub next_id: u32,
    /// How many buffer kits are free.
    pub kits: int,
}

/// The first TCP connection with this handle, from `i` on.
pub open spec fn tcp_from<TV>(ss: Seq<TcpModel<TV>>, id: ConnId, i: int) -> Option<int>
    decreases ss.len() - i,
{
    if i < 0 || i >= ss.len() {
        None
    } else if ss[i].id == id {
        Some(i)
    } else {
        tcp_from(ss, id, i + 1)
    }
}

/// The first QUIC connection with this handle, from `i` on.
pub open spec fn quic_from<QV, A>(ss: Seq<QuicModel<QV, A>>, id: ConnId, i: int) -> Option<int>
    decreases ss.len() - i,
{
    if i < 0 || i >= ss.len() {
        None
    } else if ss[i].id == id {
        Some(i)
    } else {
        quic_from(ss, id, i + 1)
    }
}

/// Whether a datagram with this destination is for a connection: it carries one
/// of the connection's own IDs, or the one that the client chose at first. An
/// empty one of the latter matches nothing.
pub open spec fn addressed<QV, A>(q: QuicModel<QV, A>, dcid: Seq<u8>) -> bool {
    (exists|i: int| 0 <= i < q.cids.len() && q.cids[i] == dcid) || (q.dcid.len() > 0 && q.dcid
        == dcid)
}

/// The first QUIC connection that a datagram is for, from `i` on.
pub open spec fn route_from<QV, A>(ss: Seq<QuicModel<QV, A>>, dcid: Seq<u8>, i: int) -> Option<int>
    decreases ss.len() - i,
{
    if i < 0 || i >= ss.len() {
        None
    } else if addressed(ss[i], dcid) {
        Some(i)
    } else {
        route_from(ss, dcid, i + 1)
    }
}

/// The TCP connections that are not closed.
pub open spec fn not_closed<TV>(ss: Seq<TcpModel<TV>>) -> Seq<TcpModel<TV>>
    decreases ss.len(),
{
    if ss.len() == 0 {
        Seq::empty()
    } else if ss.last().state is Closed {
        not_closed(ss.drop_last())
    } else {
        not_closed(ss.drop_last()).push(ss.last())
    }
}

impl<TV, QV, A> Mgr<TV, QV, A> {
    /// A new manager.
    pub open spec fn initial(tls_config: ServerTlsConfig, config: ServerConfig) -> Self {
        Mgr {
            config,
            tls_config,
            tcp: Seq::empty(),
            quic: Seq::empty(),
            events: Seq::empty(),
            next_id: 0,
            kits: 0,
        }
    }

    pub open spec fn find_tcp(self, id: ConnId) -> Option<int> {
        tcp_from(self.tcp, id, 0)
    }

    pub open spec fn find_quic(self, id: ConnId) -> Option<int> {
        quic_from(self.quic, id, 0)
    }

    /// With one more event; the oldest makes room in a full queue.
    pub open spec fn pushed(self, e: ServerEvent) -> Self {
        Mgr {
            events: if self.events.len() >= self.config.max_events && self.events.len() > 0 {
                self.events.skip(1).push(e)
            } else {
                self.events.push(e)
            },
            ..self
        }
    }

    /// With events pushed in order.
    pub open spec fn pushed_all(self, es: Seq<ServerEvent>) -> Self
        decreases es.len(),
    {
        if es.len() == 0 {
            self
        } else {
            self.pushed_all(es.drop_last()).pushed(es.last())
        }
    }

    pub open spec fn with_tcp(self, i: int, c: TcpModel<TV>) -> Self {
        Mgr { tcp: self.tcp.update(i, c), ..self }
    }

    pub open spec fn with_state(self, i: int, s: StateModel<TV>) -> Self {
        self.with_tcp(i, self.tcp[i].with_state(s))
    }

    pub open spec fn with_quic(self, i: int, s: QV) -> Self {
        Mgr { quic: self.quic.update(i, QuicModel { server: s, ..self.quic[i] }), ..self }
    }

    /// The TCP connection at `i` is closed, and the buffers that it was lent are
    /// free again.
    pub open spec fn shut(self, i: int) -> Self {
        Mgr {
            tcp: self.tcp.update(i, self.tcp[i].shut()),
            kits: self.kits + if self.tcp[i].lent() {
                1int
            } else {
                0int
            },
            ..self
        }
    }

    /// The TCP connection at `i` is closed, and the application is told.
    pub open spec fn dropped(self, i: int) -> Self {
        self.shut(i).pushed(ServerEvent::Closed(self.tcp[i].id))
    }

    /// When a handshake that began then has to be over.
    pub open spec fn handshake_deadline(self, start: u64) -> u64 {
        http::deadline(start, self.config.handshake_timeout_us)
    }
}

// ---------------------------------------------------------------------------
// Manager
// ---------------------------------------------------------------------------

/// A QUIC connection of the manager.
pub struct QuicConn<Q: HttpServerConn, A: Address> {
    pub id: ConnId,
    pub server: Q,
    pub peer_addr: A,
    pub local_cids: Vec<Vec<u8>>,
    /// The destination that the client chose in its first datagram. Until it has
    /// processed a packet of the server it keeps addressing it by this.
    pub original_dcid: Vec<u8>,
    /// When the connection was created, for the handshake deadline.
    pub created_at: u64,
}

impl<Q: HttpServerConn, A: Address> View for QuicConn<Q, A> {
    type V = QuicModel<Q::V, A>;

    open spec fn view(&self) -> QuicModel<Q::V, A> {
        QuicModel {
            id: self.id,
            server: self.server@,
            peer_addr: self.peer_addr,
            cids: Seq::new(self.local_cids@.len(), |i: int| self.local_cids@[i]@),
            dcid: self.original_dcid@,
            created_at: self.created_at,
        }
    }
}

/// Multi-protocol connection manager.
///
/// Manages TCP (HTTP/1.1, HTTP/2 over TLS) and UDP (HTTP/3 over QUIC)
/// connections, providing one event stream.
///
/// Generic parameters:
/// - `S`: TLS session
/// - `Q`: HTTP/3 connection
/// - `A`: address type for UDP peers
/// - `BUF`: capacity of the TLS I/O buffers
pub struct ServerManager<S: TlsSession, Q: HttpServerConn, A: Address, const BUF: usize> {
    pub tls_config: ServerTlsConfig,
    pub config: ServerConfig,
    pub tcp_conns: Vec<TcpConn<S, BUF>>,
    pub quic_conns: Vec<QuicConn<Q, A>>,
    pub events: VecDeque<ServerEvent>,
    pub next_id: u32,
    /// Buffer kits that can be lent to a new TLS connection. A kit is taken on
    /// accept and comes back when its connection is closed.
    pub free_kits: Vec<TlsBufKit>,
}

/// What is known of the TCP connections.
pub open spec fn tcp_views<S: TlsSession, const BUF: usize>(ss: Seq<TcpConn<S, BUF>>) -> Seq<
    TcpModel<S::V>,
> {
    Seq::new(ss.len(), |i: int| ss[i]@)
}

/// What is known of the QUIC connections.
pub open spec fn quic_views<Q: HttpServerConn, A: Address>(ss: Seq<QuicConn<Q, A>>) -> Seq<
    QuicModel<Q::V, A>,
> {
    Seq::new(ss.len(), |i: int| ss[i]@)
}

/// All TCP connections are well-formed.
#[verifier::opaque]
pub open spec fn tcp_wf<S: TlsSession, const BUF: usize>(ss: Seq<TcpConn<S, BUF>>) -> bool {
    forall|i: int| 0 <= i < ss.len() ==> (#[trigger] ss[i]).wf()
}

/// All QUIC connections are well-formed.
#[verifier::opaque]
pub open spec fn quic_wf<Q: HttpServerConn, A: Address>(ss: Seq<QuicConn<Q, A>>) -> bool {
    forall|i: int| 0 <= i < ss.len() ==> (#[trigger] ss[i]).server.conn_wf()
}

pub proof fn lemma_tcp_at<S: TlsSession, const BUF: usize>(ss: Seq<TcpConn<S, BUF>>, i: int)
    requires
        tcp_wf(ss),
        0 <= i < ss.len(),
    ensures
        ss[i].wf(),
        tcp_views(ss)[i] == ss[i]@,
{
    reveal(tcp_wf);
}

pub proof fn lemma_tcp_update<S: TlsSession, const BUF: usize>(
    ss: Seq<TcpConn<S, BUF>>,
    i: int,
    c: TcpConn<S, BUF>,
)
    requires
        tcp_wf(ss),
        0 <= i < ss.len(),
        c.wf(),
    ensures
        tcp_wf(ss.update(i, c)),
        tcp_views(ss.update(i, c)) == tcp_views(ss).update(i, c@),
{
    reveal(tcp_wf);
    assert forall|j: int| 0 <= j < ss.len() implies (#[trigger] ss.update(i, c)[j]).wf() by {
        if j != i {
            assert(ss.update(i, c)[j] == ss[j]);
        }
    }
    assert(tcp_views(ss.update(i, c)) =~= tcp_views(ss).update(i, c@));
}

pub proof fn lemma_tcp_push<S: TlsSession, const BUF: usize>(
    ss: Seq<TcpConn<S, BUF>>,
    c: TcpConn<S, BUF>,
)
    requires
        tcp_wf(ss),
        c.wf(),
    ensures
        tcp_wf(ss.push(c)),
        tcp_views(ss.push(c)) == tcp_views(ss).push(c@),
{
    reveal(tcp_wf);
    assert forall|j: int| 0 <= j < ss.len() + 1 implies (#[trigger] ss.push(c)[j]).wf() by {
        if j < ss.len() {
            assert(ss.push(c)[j] == ss[j]);
        }
    }
    assert(tcp_views(ss.push(c)) =~= tcp_views(ss).push(c@));
}

pub proof fn lemma_tcp_remove<S: TlsSession, const BUF: usize>(ss: Seq<TcpConn<S, BUF>>, i: int)
    requires
        tcp_wf(ss),
        0 <= i < ss.len(),
    ensures
        tcp_wf(ss.remove(i)),
        tcp_views(ss.remove(i)) == tcp_views(ss).remove(i),
{
    reveal(tcp_wf);
    assert forall|j: int| 0 <= j < ss.len() - 1 implies (#[trigger] ss.remove(i)[j]).wf() by {
        if j < i {
            assert(ss.remove(i)[j] == ss[j]);
        } else {
            assert(ss.remove(i)[j] == ss[j + 1]);
        }
    }
    assert(tcp_views(ss.remove(i)) =~= tcp_views(ss).remove(i));
}

pub proof fn lemma_quic_at<Q: HttpServerConn, A: Address>(ss: Seq<QuicConn<Q, A>>, i: int)
    requires
        quic_wf(ss),
        0 <= i < ss.len(),
    ensures
        ss[i].server.conn_wf(),
        quic_views(ss)[i] == ss[i]@,
{
    reveal(quic_wf);
}

pub proof fn lemma_quic_update<Q: HttpServerConn, A: Address>(
    ss: Seq<QuicConn<Q, A>>,
    i: int,
    c: QuicConn<Q, A>,
)
    requires
        quic_wf(ss),
        0 <= i < ss.len(),
        c.server.conn_wf(),
    ensures
        quic_wf(ss.update(i, c)),
        quic_views(ss.update(i, c)) == quic_views(ss).update(i, c@),
{
    reveal(quic_wf);
    assert forall|j: int| 0 <= j < ss.len() implies (#[trigger] ss.update(
        i,
        c,
    )[j]).server.conn_wf() by {
        if j != i {
            assert(ss.update(i, c)[j] == ss[j]);
        }
    }
    assert(quic_views(ss.update(i, c)) =~= quic_views(ss).update(i, c@));
}

pub proof fn lemma_quic_push<Q: HttpServerConn, A: Address>(
    ss: Seq<QuicConn<Q, A>>,
    c: QuicConn<Q, A>,
)
    requires
        quic_wf(ss),
        c.server.conn_wf(),
    ensures
        quic_wf(ss.push(c)),
        quic_views(ss.push(c)) == quic_views(ss).push(c@),
{
    reveal(quic_wf);
    assert forall|j: int| 0 <= j < ss.len() + 1 implies (#[trigger] ss.push(
        c,
    )[j]).server.conn_wf() by {
        if j < ss.len() {
            assert(ss.push(c)[j] == ss[j]);
        }
    }
    assert(quic_views(ss.push(c)) =~= quic_views(ss).push(c@));
}

pub proof fn lemma_quic_remove<Q: HttpServerConn, A: Address>(ss: Seq<QuicConn<Q, A>>, i: int)
    requires
        quic_wf(ss),
        0 <= i < ss.len(),
    ensures
        quic_wf(ss.remove(i)),
        quic_views(ss.remove(i)) == quic_views(ss).remove(i),
{
    reveal(quic_wf);
    assert forall|j: int| 0 <= j < ss.len() - 1 implies (#[trigger] ss.remove(
        i,
    )[j]).server.conn_wf() by {
        if j < i {
            assert(ss.remove(i)[j] == ss[j]);
        } else {
            assert(ss.remove(i)[j] == ss[j + 1]);
        }
    }
    assert(quic_views(ss.remove(i)) =~= quic_views(ss).remove(i));
}

impl<S: TlsSession, Q: HttpServerConn, A: Address, const BUF: usize> View for ServerManager<
    S,
    Q,
    A,
    BUF,
> {
    type V = Mgr<S::V, Q::V, A>;

    open spec fn view(&self) -> Mgr<S::V, Q::V, A> {
        Mgr {
            config: self.config,
            tls_config: self.tls_config,
            tcp: tcp_views(self.tcp_conns@),
            quic: quic_views(self.quic_conns@),
            events: self.events@,
            next_id: self.next_id,
            kits: self.free_kits@.len() as int,
        }
    }
}

impl<S: TlsSession, Q: HttpServerConn, A: Address, const BUF: usize> ServerManager<S, Q, A, BUF> {
    pub open spec fn wf(&self) -> bool {
        tcp_wf(self.tcp_conns@) && quic_wf(self.quic_conns@)
    }

    /// Creates a server manager.
    pub fn new(tls_config: ServerTlsConfig, config: ServerConfig) -> (r: Self)
        ensures
            r.wf(),
            r@ == Mgr::<S::V, Q::V, A>::initial(tls_config, config),
    {
        reveal(tcp_wf);
        reveal(quic_wf);
        let r = ServerManager {
            tls_config,
            config,
            tcp_conns: Vec::new(),
            quic_conns: Vec::new(),
            events: VecDeque::new(),
            next_id: 0,
            free_kits: Vec::new(),
        };
        assert(r@.tcp =~= Seq::<TcpModel<S::V>>::empty());
        assert(r@.quic =~= Seq::<QuicModel<Q::V, A>>::empty());
        assert(r@.events =~= Seq::<ServerEvent>::empty());
        r
    }

    /// Donates a kit of buffers to lend to TLS connections, so that they need
    /// not allocate their own. Without a free one a connection gets its own.
    pub fn add_tls_buffer_kit(&mut self, kit: TlsBufKit)
        requires
            old(self).wf(),
        ensures
            final(self).wf(),
            final(self)@ == (Mgr { kits: old(self)@.kits + 1, ..old(self)@ }),
            final(self).free_kits@ == old(self).free_kits@.push(kit),
    {
        self.free_kits.push(kit);
    }

    /// Number of buffer kits that are donated and not lent.
    pub fn free_tls_buffer_kits(&self) -> (n: usize)
        ensures
            n == self@.kits,
    {
        self.free_kits.len()
    }

    /// Removes and returns one free buffer kit, if any: the one that came last.
    pub fn take_tls_buffer_kit(&mut self) -> (r: Option<TlsBufKit>)
        requires
            old(self).wf(),
        ensures
            final(self).wf(),
            r == if old(self)@.kits > 0 {
                Some(old(self).free_kits@.last())
            } else {
                None
            },
            old(self)@.kits > 0 ==> final(self).free_kits@ == old(self).free_kits@.drop_last(),
            final(self)@ == (Mgr {
                kits: if old(self)@.kits > 0 {
                    old(self)@.kits - 1
                } else {
                    0
                },
                ..old(self)@
            }),
    {
        self.free_kits.pop()
    }

    /// Puts a recovered kit back.
    fn restore_kit(&mut self, kit: Option<TlsBufKit>)
        requires
            old(self).wf(),
        ensures
            final(self).wf(),
            final(self)@ == (Mgr {
                kits: old(self)@.kits + if kit is Some {
                    1int
                } else {
                    0int
                },
                ..old(self)@
            }),
    {
        if let Some(k) = kit {
            self.free_kits.push(k);
        }
    }

    /// Pushes an event into the queue, dropping the oldest if at capacity.
    pub(crate) fn push_server_event(&mut self, event: ServerEvent)
        requires
            old(self).wf(),
        ensures
            final(self).wf(),
            final(self)@ == old(self)@.pushed(event),
    {
        if self.events.len() >= self.config.max_events {
            let popped = self.events.pop_front();
            assert(popped is Some ==> self.events@ =~= old(self).events@.skip(1));
        }
        self.events.push_back(event);
    }

    pub(crate) fn find_tcp(&self, id: ConnId) -> (r: Option<usize>)
        ensures
            match r {
                Some(i) => self@.find_tcp(id) == Some(i as int) && i < self.tcp_conns@.len(),
                None => self@.find_tcp(id) is None,
            },
    {
        let mut i: usize = 0;
        while i < self.tcp_conns.len()
            invariant
                i <= self.tcp_conns@.len(),
                self@.find_tcp(id) == tcp_from(self@.tcp, id, i as int),
            decreases self.tcp_conns@.len() - i,
        {
            if self.tcp_conns[i].id == id {
                return Some(i);
            }
            i = i + 1;
        }
        None
    }

    pub(crate) fn find_quic(&self, id: ConnId) -> (r: Option<usize>)
        ensures
            match r {
                Some(i) => self@.find_quic(id) == Some(i as int) && i < self.quic_conns@.len(),
                None => self@.find_quic(id) is None,
            },
    {
        let mut i: usize = 0;
        while i < self.quic_conns.len()
            invariant
                i <= self.quic_conns@.len(),
                self@.find_quic(id) == quic_from(self@.quic, id, i as int),
            decreases self.quic_conns@.len() - i,
        {
            if self.quic_conns[i].id == id {
                return Some(i);
            }
            i = i + 1;
        }
        None
    }

    /// Closes the TCP connection at `i` and puts its buffers back.
    pub(crate) fn shut_tcp(&mut self, i: usize)
        requires
            old(self).wf(),
            i < old(self)@.tcp.len(),
        ensures
            final(self).wf(),
            final(self)@ == old(self)@.shut(i as int),
    {
        let ghost conns = self.tcp_conns@;
        proof {
            lemma_tcp_at(conns, i as int);
        }
        let kit: Option<TlsBufKit> = self.tcp_conns[i].reclaim_and_close();
        proof {
            lemma_tcp_update(conns, i as int, self.tcp_conns@[i as int]);
            assert(self.tcp_conns@ =~= conns.update(i as int, self.tcp_conns@[i as int]));
        }
        self.restore_kit(kit);
    }

    /// Closes the TCP connection at `i` and tells the application.
    pub(crate) fn drop_tcp(&mut self, i: usize)
        requires
            old(self).wf(),
            i < old(self)@.tcp.len(),
        ensures
            final(self).wf(),
            final(self)@ == old(self)@.dropped(i as int),
    {
        let id: ConnId = self.tcp_conns[i].id;
        self.shut_tcp(i);
        self.push_server_event(ServerEvent::Closed(id));
    }

    // -----------------------------------------------------------------------
    // TCP
    // -----------------------------------------------------------------------

    /// Whether a TCP connection can be accepted.
    pub open spec fn acceptable(m: Mgr<S::V, Q::V, A>) -> bool {
        m.tcp.len() < m.config.max_tcp_conns && m.next_id < u32::MAX
    }

    /// A TCP connection is accepted, to begin with a TLS handshake. It gets a
    /// buffer kit where one is free.
    pub open spec fn accepted(m: Mgr<S::V, Q::V, A>, secret: Seq<u8>, random: Seq<u8>, now: u64) -> (
        Mgr<S::V, Q::V, A>,
        Result<ConnId, Error>,
    ) {
        if !Self::acceptable(m) {
            (m, Err(Error::StreamLimitExhausted))
        } else {
            let c = TcpModel {
                id: ConnId(m.next_id),
                state: StateModel::Handshaking(
                    PartsModel {
                        tls: S::server(m.tls_config, secret, random),
                        wire: TlsWire::empty(),
                        lent: m.kits > 0,
                    },
                ),
                protocol: ConnProtocol::Handshaking,
                accepted_at: now,
            };
            (
                Mgr {
                    tcp: m.tcp.push(c),
                    next_id: (m.next_id + 1) as u32,
                    kits: if m.kits > 0 {
                        m.kits - 1
                    } else {
                        0
                    },
                    ..m
                },
                Ok(ConnId(m.next_id)),
            )
        }
    }

    /// What was drawn from the generator after a TCP connection is asked for: its
    /// secret and its random bytes, where it is accepted.
    pub open spec fn accept_drawn(
        m: Mgr<S::V, Q::V, A>,
        drawn: Seq<Seq<u8>>,
        secret: Seq<u8>,
        random: Seq<u8>,
    ) -> Seq<Seq<u8>> {
        if Self::acceptable(m) {
            drawn.push(secret).push(random)
        } else {
            drawn
        }
    }

    /// A cleartext TCP connection is accepted: HTTP/1.1 without a handshake.
    pub open spec fn accepted_cleartext(m: Mgr<S::V, Q::V, A>, now: u64) -> (Mgr<S::V, Q::V, A>, Result<ConnId, Error>) {
        if !Self::acceptable(m) {
            (m, Err(Error::StreamLimitExhausted))
        } else {
            let id = ConnId(m.next_id);
            let c = TcpModel {
                id,
                state: StateModel::Established(
                    EstModel::Plain(Http1Server::<BUF, 2048, 4096>::initial()),
                ),
                protocol: ConnProtocol::Http1,
                accepted_at: now,
            };
            (
                Mgr {
                    tcp: m.tcp.push(c),
                    next_id: (m.next_id + 1) as u32,
                    ..m
                }.pushed(ServerEvent::Connected(id)),
                Ok(id),
            )
        }
    }

    /// Accepts a new TCP connection, whose TLS handshake uses these random bytes.
    pub fn accept_tcp_with(&mut self, secret: [u8; 32], random: [u8; 32], now: u64) -> (r: Result<
        ConnId,
        Error,
    >)
        requires
            old(self).wf(),
        ensures
            final(self).wf(),
            (final(self)@, r) == Self::accepted(old(self)@, secret@, random@, now),
    {
        if self.tcp_conns.len() >= self.config.max_tcp_conns || self.next_id == u32::MAX {
            return Err(Error::StreamLimitExhausted);
        }
        let id = ConnId(self.next_id);
        self.next_id = self.next_id + 1;
        let parts: TlsParts<S, BUF> = match self.free_kits.pop() {
            Some(kit) => TlsParts::new_server_in(&self.tls_config, secret, random, kit),
            None => TlsParts::new_server(&self.tls_config, secret, random),
        };
        let c = TcpConn {
            id,
            state: TcpState::Handshaking(parts),
            protocol: ConnProtocol::Handshaking,
            accepted_at: now,
        };
        proof {
            lemma_tcp_push(self.tcp_conns@, c);
        }
        self.tcp_conns.push(c);
        Ok(id)
    }

    /// Accepts a new TCP connection and starts its TLS handshake.
    ///
    /// Returns the connection ID, or an error if at capacity. The caller should
    /// then feed TCP data via `tcp_feed` and drain output via `tcp_poll_output`.
    pub fn accept_tcp<R: Rng>(&mut self, rng: &mut R, now: u64) -> (r: Result<ConnId, Error>)
        requires
            old(self).wf(),
        ensures
            final(self).wf(),
            r is Ok == Self::acceptable(old(self)@),
            exists|secret: Seq<u8>, random: Seq<u8>|
                secret.len() == 32 && random.len() == 32 && (final(self)@, r)
                    == #[trigger] Self::accepted(old(self)@, secret, random, now)
                    && final(rng).drawn() == Self::accept_drawn(
                    old(self)@,
                    old(rng).drawn(),
                    secret,
                    random,
                ),
    {
        let mut secret: [u8; 32] = [0; 32];
        let mut random: [u8; 32] = [0; 32];
        if self.tcp_conns.len() < self.config.max_tcp_conns && self.next_id < u32::MAX {
            rng.fill(&mut secret);
            rng.fill(&mut random);
        }
        self.accept_tcp_with(secret, random, now)
    }

    /// Accepts a new cleartext TCP connection: it starts as established
    /// HTTP/1.1, without a TLS handshake.
    pub fn accept_tcp_cleartext(&mut self, now: u64) -> (r: Result<ConnId, Error>)
        requires
            old(self).wf(),
        ensures
            final(self).wf(),
            (final(self)@, r) == Self::accepted_cleartext(old(self)@, now),
    {
        if self.tcp_conns.len() >= self.config.max_tcp_conns || self.next_id == u32::MAX {
            return Err(Error::StreamLimitExhausted);
        }
        let id = ConnId(self.next_id);
        self.next_id = self.next_id + 1;
        let c = TcpConn {
            id,
            state: TcpState::Established(EstablishedConn::Plain(Http1Server::new())),
            protocol: ConnProtocol::Http1,
            accepted_at: now,
        };
        proof {
            lemma_tcp_push(self.tcp_conns@, c);
        }
        self.tcp_conns.push(c);
        self.push_server_event(ServerEvent::Connected(id));
        Ok(id)
    }

    /// The handshake of connection `i` is complete. Data that was decrypted with
    /// its last message is processed at once.
    pub open spec fn tcp_upgraded(m: Mgr<S::V, Q::V, A>, i: int, now: u64) -> (Mgr<S::V, Q::V, A>, Result<(), Error>) {
        match conn::upgraded::<S, BUF>(m.tcp[i].state->Handshaking_0) {
            None => (m.dropped(i), Err(Error::InvalidState)),
            Some((protocol, e)) => {
                let f = EstablishedConn::<S, BUF>::fed_timed(e, Seq::empty(), now).0;
                (
                    m.with_tcp(
                        i,
                        TcpModel { state: StateModel::Established(f), protocol, ..m.tcp[i] },
                    ).pushed(ServerEvent::Connected(m.tcp[i].id)),
                    Ok(()),
                )
            },
        }
    }

    /// Data arrives for connection `i`, which is in its handshake. A handshake
    /// that fails closes the connection.
    pub open spec fn handshake_fed(m: Mgr<S::V, Q::V, A>, i: int, data: Seq<u8>, now: u64) -> (
        Mgr<S::V, Q::V, A>,
        Result<(), Error>,
    ) {
        let (p, r) = TlsParts::<S, BUF>::fed(m.tcp[i].state->Handshaking_0, data);
        let t = m.with_state(i, StateModel::Handshaking(p));
        match r {
            Err(e) => (t.dropped(i), Err(e)),
            Ok(()) => if S::active(p.tls) {
                Self::tcp_upgraded(t, i, now)
            } else {
                (t, Ok(()))
            },
        }
    }

    /// Data arrives for a TCP connection.
    pub open spec fn tcp_fed(m: Mgr<S::V, Q::V, A>, id: ConnId, data: Seq<u8>, now: u64) -> (
        Mgr<S::V, Q::V, A>,
        Result<(), Error>,
    ) {
        match m.find_tcp(id) {
            None => (m, Err(Error::InvalidState)),
            Some(i) => match m.tcp[i].state {
                StateModel::Handshaking(_) => Self::handshake_fed(m, i, data, now),
                StateModel::Established(e) => {
                    let (f, r) = EstablishedConn::<S, BUF>::fed_timed(e, data, now);
                    (m.with_state(i, StateModel::Established(f)), r)
                },
                StateModel::Closed => (m, Err(Error::InvalidState)),
            },
        }
    }

    /// Turns a complete handshake into an HTTP connection.
    fn upgrade_tcp(&mut self, i: usize, now: u64) -> (r: Result<(), Error>)
        requires
            old(self).wf(),
            i < old(self)@.tcp.len(),
            old(self)@.tcp[i as int].state is Handshaking,
        ensures
            final(self).wf(),
            (final(self)@, r) == Self::tcp_upgraded(old(self)@, i as int, now),
    {
        let ghost conns = self.tcp_conns@;
        proof {
            lemma_tcp_at(conns, i as int);
        }
        let id: ConnId = self.tcp_conns[i].id;
        let (ok, kit) = self.tcp_conns[i].upgrade();
        if !ok {
            proof {
                lemma_tcp_update(conns, i as int, self.tcp_conns@[i as int]);
                assert(self.tcp_conns@ =~= conns.update(i as int, self.tcp_conns@[i as int]));
            }
            self.restore_kit(kit);
            self.push_server_event(ServerEvent::Closed(id));
            return Err(Error::InvalidState);
        }
        let none: [u8; 0] = [];
        assert(none@ =~= Seq::<u8>::empty());
        let _ = self.tcp_conns[i].feed_established(&none, now);
        proof {
            lemma_tcp_update(conns, i as int, self.tcp_conns@[i as int]);
            assert(self.tcp_conns@ =~= conns.update(i as int, self.tcp_conns@[i as int]));
        }
        self.push_server_event(ServerEvent::Connected(id));
        Ok(())
    }

    /// Feeds a connection that is in its handshake.
    fn feed_handshake(&mut self, i: usize, data: &[u8], now: u64) -> (r: Result<(), Error>)
        requires
            old(self).wf(),
            i < old(self)@.tcp.len(),
            old(self)@.tcp[i as int].state is Handshaking,
        ensures
            final(self).wf(),
            (final(self)@, r) == Self::handshake_fed(old(self)@, i as int, data@, now),
    {
        let ghost conns = self.tcp_conns@;
        proof {
            lemma_tcp_at(conns, i as int);
        }
        let fed: Result<(), Error> = self.tcp_conns[i].feed_handshake(data);
        proof {
            lemma_tcp_update(conns, i as int, self.tcp_conns@[i as int]);
            assert(self.tcp_conns@ =~= conns.update(i as int, self.tcp_conns@[i as int]));
        }
        match fed {
            Err(e) => {
                self.drop_tcp(i);
                Err(e)
            },
            Ok(()) => {
                proof {
                    lemma_tcp_at(self.tcp_conns@, i as int);
                }
                if self.tcp_conns[i].handshake_done() {
                    self.upgrade_tcp(i, now)
                } else {
                    Ok(())
                }
            },
        }
    }

    /// Feeds TCP data into a connection.
    pub fn tcp_feed(&mut self, id: ConnId, data: &[u8], now: u64) -> (r: Result<(), Error>)
        requires
            old(self).wf(),
        ensures
            final(self).wf(),
            (final(self)@, r) == Self::tcp_fed(old(self)@, id, data@, now),
    {
        match self.find_tcp(id) {
            None => Err(Error::InvalidState),
            Some(i) => {
                let ghost conns = self.tcp_conns@;
                proof {
                    lemma_tcp_at(conns, i as int);
                }
                if self.tcp_conns[i].is_handshaking() {
                    self.feed_handshake(i, data, now)
                } else if self.tcp_conns[i].is_established() {
                    let r: Result<(), Error> = self.tcp_conns[i].feed_established(data, now);
                    proof {
                        lemma_tcp_update(conns, i as int, self.tcp_conns@[i as int]);
                        assert(self.tcp_conns@ =~= conns.update(
                            i as int,
                            self.tcp_conns@[i as int],
                        ));
                    }
                    r
                } else {
                    Err(Error::InvalidState)
                }
            },
        }
    }

    /// Whether a connection holds received data behind a full application buffer.
    pub open spec fn recv_blocked(m: Mgr<S::V, Q::V, A>, id: ConnId) -> bool {
        match m.find_tcp(id) {
            None => false,
            Some(i) => match m.tcp[i].state {
                StateModel::Established(e) => EstablishedConn::<S, BUF>::blocked(e),
                _ => false,
            },
        }
    }

    /// Whether an established connection applies receive backpressure: it holds
    /// body data behind a full application buffer, so no more should be read for
    /// it until the application has read.
    pub fn conn_recv_blocked(&self, id: ConnId) -> (r: bool)
        requires
            self.wf(),
        ensures
            r == Self::recv_blocked(self@, id),
    {
        match self.find_tcp(id) {
            None => false,
            Some(i) => {
                proof {
                    lemma_tcp_at(self.tcp_conns@, i as int);
                }
                match &self.tcp_conns[i].state {
                    TcpState::Established(http) => http.recv_blocked(),
                    _ => false,
                }
            },
        }
    }

    /// Output is pulled from a TCP connection.
    pub open spec fn tcp_polled(m: Mgr<S::V, Q::V, A>, id: ConnId, room: int) -> (
        Mgr<S::V, Q::V, A>,
        Option<Seq<u8>>,
    ) {
        match m.find_tcp(id) {
            None => (m, None),
            Some(i) => {
                let (c, out) = TcpConn::<S, BUF>::polled(m.tcp[i], room);
                (m.with_tcp(i, c), out)
            },
        }
    }

    /// Pulls outgoing TCP data from a connection.
    pub fn tcp_poll_output<'a>(&mut self, id: ConnId, buf: &'a mut [u8]) -> (r: Option<&'a [u8]>)
        requires
            old(self).wf(),
        ensures
            bytes::chunk_at_start(old(buf)@, final(buf)@, r),
            final(self).wf(),
            final(self)@ == Self::tcp_polled(old(self)@, id, old(buf)@.len() as int).0,
            match r {
                Some(chunk) => Self::tcp_polled(old(self)@, id, old(buf)@.len() as int).1 == Some(
                    chunk@,
                ),
                None => Self::tcp_polled(old(self)@, id, old(buf)@.len() as int).1 is None,
            },
    {
        match self.find_tcp(id) {
            None => None,
            Some(i) => {
                let ghost conns = self.tcp_conns@;
                proof {
                    lemma_tcp_at(conns, i as int);
                }
                let out = self.tcp_conns[i].poll_output(buf);
                proof {
                    lemma_tcp_update(conns, i as int, self.tcp_conns@[i as int]);
                    assert(self.tcp_conns@ =~= conns.update(i as int, self.tcp_conns@[i as int]));
                }
                out
            },
        }
    }
}

} // verus!
