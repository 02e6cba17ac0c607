//! How connections are accepted, and what comes of their handshakes.

use vstd::prelude::*;

use super::conn::{EstModel, EstablishedConn, StateModel, TcpModel};
use super::lifecycle;
use super::manager::{Mgr, ServerManager};
use super::requests::{h2_of, is_h2, is_https, left, left_h2};
use super::{ConnId, ConnProtocol, ServerEvent};
use crate::error::Error;
use crate::h2::connection::{H2Event, Role};
use crate::h2::model::{Conn, Limits, Sys};
use crate::h2::wire;
use crate::http::server_conn::{HttpEvent, HttpServerConn};
use crate::http1::connection::Http1Event;
use crate::http1::model::{H1, H1Sys};
use crate::https1::Secured;
use crate::io::Wire;
use crate::quic::{HandshakePoolAccess, QuicServer};
use crate::tls::{PartsModel, TlsSession, TlsWire};
use crate::transport::Address;

verus! {

// ---------------------------------------------------------------------------
// Accepting
// ---------------------------------------------------------------------------

/// A manager that has its limit of TCP connections refuses another, and nothing changes.
/// Else the connection comes behind the others, with the next handle, and begins with a
/// TLS handshake of its own secret and random bytes; it borrows a buffer kit where one is
/// free. The application is not told of it yet.
pub proof fn connections_are_accepted<
    S: TlsSession,
    Q: HttpServerConn,
    A: Address,
    const BUF: usize,
>(m: Mgr<S::V, Q::V, A>, secret: Seq<u8>, random: Seq<u8>, now: u64)
    requires
        m.next_id < u32::MAX,
        m.kits >= 0,
    ensures
        ({
            let (t, r) = ServerManager::<S, Q, A, BUF>::accepted(m, secret, random, now);
            let n = m.tcp.len() as int;
            if n >= m.config.max_tcp_conns {
                t == m && r == Err::<ConnId, Error>(Error::StreamLimitExhausted)
            } else {
                &&& r == Ok::<ConnId, Error>(ConnId(m.next_id))
                &&& t.next_id == m.next_id + 1
                &&& t.tcp.len() == n + 1
                &&& t.tcp.take(n) == m.tcp
                &&& t.tcp[n].id == ConnId(m.next_id)
                &&& t.tcp[n].accepted_at == now
                &&& t.tcp[n].protocol is Handshaking
                &&& t.tcp[n].state matches StateModel::Handshaking(p) && {
                    &&& p.tls == S::server(m.tls_config, secret, random)
                    &&& p.wire.io.recv.len() == 0 && p.wire.io.send.len() == 0 && p.wire.out.len()
                        == 0
                    &&& p.lent == (m.kits > 0)
                    &&& t.kits + (if p.lent {
                        1int
                    } else {
                        0int
                    }) == m.kits
                }
                &&& t.events == m.events
                &&& t.quic == m.quic
            }
        }),
{
    let t = ServerManager::<S, Q, A, BUF>::accepted(m, secret, random, now).0;
    if m.tcp.len() < m.config.max_tcp_conns {
        assert(t.tcp.take(m.tcp.len() as int) =~= m.tcp);
    }
}

/// A connection in the clear is an HTTP/1.1 connection at once, and the application is
/// told that it is connected.
pub proof fn clear_connections_are_accepted<
    S: TlsSession,
    Q: HttpServerConn,
    A: Address,
    const BUF: usize,
>(m: Mgr<S::V, Q::V, A>, now: u64)
    requires
        m.next_id < u32::MAX,
        m.events.len() < m.config.max_events,
    ensures
        ({
            let (t, r) = ServerManager::<S, Q, A, BUF>::accepted_cleartext(m, now);
            let n = m.tcp.len() as int;
            if n >= m.config.max_tcp_conns {
                t == m && r == Err::<ConnId, Error>(Error::StreamLimitExhausted)
            } else {
                &&& r == Ok::<ConnId, Error>(ConnId(m.next_id))
                &&& t.next_id == m.next_id + 1
                &&& t.tcp.len() == n + 1
                &&& t.tcp.take(n) == m.tcp
                &&& t.tcp[n].id == ConnId(m.next_id)
                &&& t.tcp[n].accepted_at == now
                &&& t.tcp[n].protocol is Http1
                &&& t.tcp[n].state matches StateModel::Established(EstModel::Plain(c)) && c.c
                    == H1::initial(true) && c.io.recv.len() == 0 && c.io.send.len() == 0
                &&& t.events == m.events.push(ServerEvent::Connected(ConnId(m.next_id)))
                &&& t.quic == m.quic
                &&& t.kits == m.kits
            }
        }),
{
    let t = ServerManager::<S, Q, A, BUF>::accepted_cleartext(m, now).0;
    if m.tcp.len() < m.config.max_tcp_conns {
        assert(t.tcp.take(m.tcp.len() as int) =~= m.tcp);
    }
}

// ---------------------------------------------------------------------------
// Handshakes
// ---------------------------------------------------------------------------

/// The handle is that of a connection in its handshake.
pub open spec fn in_handshake<TV, QV, A>(
    m: Mgr<TV, QV, A>,
    id: ConnId,
    i: int,
    p: PartsModel<TV>,
) -> bool {
    m.find_tcp(id) == Some(i) && m.tcp[i].state == StateModel::Handshaking(p)
}

/// Bytes of a handshake go to TLS, and what it answers goes out. Until it is complete
/// nothing else happens.
pub proof fn handshakes_go_on<S: TlsSession, Q: HttpServerConn, A: Address, const BUF: usize>(
    m: Mgr<S::V, Q::V, A>,
    id: ConnId,
    i: int,
    p: PartsModel<S::V>,
    data: Seq<u8>,
    now: u64,
    room: int,
)
    requires
        in_handshake(m, id, i, p),
    ensures
        ({
            let (tls, w, r) = S::fed(p.tls, p.wire, data, BUF as int);
            r is Ok && !S::active(tls) ==> ServerManager::<S, Q, A, BUF>::tcp_fed(m, id, data, now)
                == (
                Mgr {
                    tcp: m.tcp.update(
                        i,
                        TcpModel {
                            state: StateModel::Handshaking(PartsModel { tls, wire: w, lent: p.lent }),
                            ..m.tcp[i]
                        },
                    ),
                    ..m
                },
                Ok::<(), Error>(()),
            )
        }),
        ({
            let (tls, w, out) = S::polled(p.tls, p.wire, room, BUF as int);
            ServerManager::<S, Q, A, BUF>::tcp_polled(m, id, room) == (
                Mgr {
                    tcp: m.tcp.update(
                        i,
                        TcpModel {
                            state: StateModel::Handshaking(PartsModel { tls, wire: w, lent: p.lent }),
                            ..m.tcp[i]
                        },
                    ),
                    ..m
                },
                out,
            )
        }),
{
}

/// The manager has closed the connection at `i` and says so; a kit that it had borrowed
/// is free again. Nothing else changes.
pub open spec fn closed_and_told<TV, QV, A>(
    t: Mgr<TV, QV, A>,
    m: Mgr<TV, QV, A>,
    i: int,
    lent: bool,
) -> bool {
    &&& t.tcp.len() == m.tcp.len()
    &&& t.tcp[i].state is Closed
    &&& t.tcp[i].id == m.tcp[i].id
    &&& forall|j: int| 0 <= j < m.tcp.len() && j != i ==> #[trigger] t.tcp[j] == m.tcp[j]
    &&& t.events == m.events.push(ServerEvent::Closed(m.tcp[i].id))
    &&& t.kits == m.kits + if lent {
        1int
    } else {
        0int
    }
    &&& t.quic == m.quic
    &&& t.next_id == m.next_id
}

/// A handshake that fails closes its connection with the error of TLS.
pub proof fn failed_handshakes_close<S: TlsSession, Q: HttpServerConn, A: Address, const BUF: usize>(
    m: Mgr<S::V, Q::V, A>,
    id: ConnId,
    i: int,
    p: PartsModel<S::V>,
    data: Seq<u8>,
    now: u64,
    e: Error,
)
    requires
        in_handshake(m, id, i, p),
        m.events.len() < m.config.max_events,
        S::fed(p.tls, p.wire, data, BUF as int).2 == Err::<(), Error>(e),
    ensures
        ({
            let (t, r) = ServerManager::<S, Q, A, BUF>::tcp_fed(m, id, data, now);
            r == Err::<(), Error>(e) && closed_and_told(t, m, i, p.lent)
        }),
{
    lifecycle::tcp_found(m.tcp, id, 0);
}

/// `h2`
pub open spec fn h2_name() -> Seq<u8> {
    seq![0x68u8, 0x32]
}

/// `http/1.1`
pub open spec fn http1_name() -> Seq<u8> {
    seq![0x68u8, 0x74, 0x74, 0x70, 0x2f, 0x31, 0x2e, 0x31]
}

proof fn lemma_names()
    ensures
        super::conn::ALPN_H2@ == h2_name(),
        super::conn::ALPN_HTTP1@ == http1_name(),
        h2_name() != http1_name(),
{
    assert(super::conn::ALPN_H2@ =~= h2_name());
    assert(super::conn::ALPN_HTTP1@ =~= http1_name());
    assert(h2_name().len() != http1_name().len());
}

/// A new connection whose peer has sent this much in the clear behind its handshake.
pub open spec fn fresh_h2(buf: usize, w: TlsWire) -> Sys {
    Sys {
        c: Conn::initial(Role::Server, 8, 4096),
        io: Wire { recv: Seq::empty(), send: w.io.send },
        lim: Limits { streams: 8, headers: 2048, data: 4096, io: buf as int },
    }
}

pub open spec fn fresh_h1(buf: usize, w: TlsWire) -> H1Sys {
    H1Sys {
        c: H1::initial(true),
        io: Wire { recv: Seq::empty(), send: w.io.send },
        headers_cap: 2048,
        data_cap: 4096,
        io_cap: buf as int,
    }
}

/// The connection at `i` is established, and the application is told. Nothing else
/// changes.
pub open spec fn established_and_told<TV, QV, A>(
    t: Mgr<TV, QV, A>,
    m: Mgr<TV, QV, A>,
    i: int,
    protocol: ConnProtocol,
    e: EstModel<TV>,
) -> bool {
    &&& t.tcp == m.tcp.update(
        i,
        TcpModel { state: StateModel::Established(e), protocol, ..m.tcp[i] },
    )
    &&& t.events == m.events.push(ServerEvent::Connected(m.tcp[i].id))
    &&& t.kits == m.kits
    &&& t.quic == m.quic
    &&& t.next_id == m.next_id
}

/// A handshake that is complete makes an HTTP connection of the protocol that was agreed
/// on, or of HTTP/1.1 where none was. What came behind the handshake is not lost: the
/// HTTP connection is fed it at once. A protocol that is neither closes the connection.
pub proof fn handshakes_agree_on_a_protocol<
    S: TlsSession,
    Q: HttpServerConn,
    A: Address,
    const BUF: usize,
>(
    m: Mgr<S::V, Q::V, A>,
    id: ConnId,
    i: int,
    p: PartsModel<S::V>,
    data: Seq<u8>,
    now: u64,
)
    requires
        in_handshake(m, id, i, p),
        m.events.len() < m.config.max_events,
        S::fed(p.tls, p.wire, data, BUF as int).2 is Ok,
        S::active(S::fed(p.tls, p.wire, data, BUF as int).0),
        ({
            let (tls, w, _) = S::fed(p.tls, p.wire, data, BUF as int);
            let (tls2, w2, r2) = S::fed(tls, w, Seq::empty(), BUF as int);
            r2 is Ok && 0 < w2.io.recv.len() <= BUF
        }),
    ensures
        ({
            let (tls, w, _) = S::fed(p.tls, p.wire, data, BUF as int);
            let (tls2, w2, _) = S::fed(tls, w, Seq::empty(), BUF as int);
            let (t, r) = ServerManager::<S, Q, A, BUF>::tcp_fed(m, id, data, now);
            let h2 = fresh_h2(BUF, w2).fed_at(w2.io.recv, now).0;
            let h1 = fresh_h1(BUF, w2).fed_at(w2.io.recv, now).0;
            let agreed = S::protocol(tls);
            &&& agreed == Some(h2_name()) ==> r == Ok::<(), Error>(()) && established_and_told(
                t,
                m,
                i,
                ConnProtocol::H2,
                EstModel::H2(
                    Secured {
                        tls: tls2,
                        http: h2.c,
                        wire: TlsWire { io: h2.io, out: w2.out },
                        lent: p.lent,
                    },
                ),
            )
            &&& agreed is None || agreed == Some(http1_name()) ==> r == Ok::<(), Error>(())
                && established_and_told(
                t,
                m,
                i,
                ConnProtocol::Http1,
                EstModel::Https1(
                    Secured {
                        tls: tls2,
                        http: h1.c,
                        wire: TlsWire { io: h1.io, out: w2.out },
                        lent: p.lent,
                    },
                ),
            )
            &&& agreed is Some && agreed != Some(h2_name()) && agreed != Some(http1_name()) ==> r
                == Err::<(), Error>(Error::InvalidState) && closed_and_told(t, m, i, p.lent)
        }),
{
    lemma_names();
    lifecycle::tcp_found(m.tcp, id, 0);
    let (tls, w, _) = S::fed(p.tls, p.wire, data, BUF as int);
    let (tls2, w2, _) = S::fed(tls, w, Seq::empty(), BUF as int);
    let x = w2.io.recv;
    let f2 = fresh_h2(BUF, w2);
    wire::received_is_fed(Sys { c: Conn { last_activity: now, ..f2.c }, ..f2 }, x);
    assert(Seq::<u8>::empty() + x =~= x);
    assert(x + Seq::<u8>::empty() =~= x);
    let t = ServerManager::<S, Q, A, BUF>::tcp_fed(m, id, data, now).0;
    assert(t.tcp =~= m.tcp.update(i, t.tcp[i]));
}

// ---------------------------------------------------------------------------
// Output and events of established connections
// ---------------------------------------------------------------------------

/// What goes out for an HTTP/2 connection is what TLS makes of the frames that it has
/// queued; for an HTTP/1.1 connection under TLS it is what TLS makes of its bytes.
pub proof fn output_goes_through_tls<S: TlsSession, Q: HttpServerConn, A: Address, const BUF: usize>(
    m: Mgr<S::V, Q::V, A>,
    id: ConnId,
    i: int,
    c: Secured<S::V, Conn>,
    d: Secured<S::V, H1>,
    room: int,
)
    ensures
        is_h2(m, id, i, c) ==> {
            let h = h2_of(c, BUF).generated();
            let (tls, w, out) = S::polled(
                c.tls,
                TlsWire { io: h.io, out: c.wire.out },
                room,
                BUF as int,
            );
            ServerManager::<S, Q, A, BUF>::tcp_polled(m, id, room) == (
                left(m, i, EstModel::H2(Secured { tls, http: h.c, wire: w, lent: c.lent })),
                out,
            )
        },
        is_https(m, id, i, d) ==> {
            let (tls, w, out) = S::polled(d.tls, d.wire, room, BUF as int);
            ServerManager::<S, Q, A, BUF>::tcp_polled(m, id, room) == (
                left(m, i, EstModel::Https1(Secured { tls, http: d.http, wire: w, lent: d.lent })),
                out,
            )
        },
{
}

/// What the application is told for an event of an HTTP/2 connection.
pub open spec fn h2_told(e: H2Event, told: HttpEvent) -> bool {
    &&& e is Connected ==> told is Connected
    &&& e matches H2Event::Headers(s) ==> told == HttpEvent::Headers(s)
    &&& e matches H2Event::Data(s) ==> told == HttpEvent::Data(s)
    &&& e matches H2Event::Finished(s) ==> told == HttpEvent::Finished(s)
    &&& e matches H2Event::StreamReset(s, code) ==> (told matches HttpEvent::StreamReset {
        stream_id,
        error_code,
    } && stream_id == s && error_code == code)
    &&& e matches H2Event::GoAway(last, code) ==> (told matches HttpEvent::GoAway { error_code }
        && error_code == code)
    &&& e is Timeout ==> told is Timeout
}

/// What the application is told for an event of an HTTP/1.1 connection.
pub open spec fn h1_told(e: Http1Event, told: HttpEvent) -> bool {
    &&& e is Connected ==> told is Connected
    &&& e matches Http1Event::Headers(s) ==> told == HttpEvent::Headers(s)
    &&& e matches Http1Event::Data(s) ==> told == HttpEvent::Data(s)
    &&& e matches Http1Event::Finished(s) ==> told == HttpEvent::Finished(s)
    &&& e is Timeout ==> told is Timeout
}

/// The events of an HTTP connection are told in the order in which they came, each as
/// what it is and with its stream and its error code, and each once.
pub proof fn events_are_told<S: TlsSession, const BUF: usize>(
    c: Secured<S::V, Conn>,
    e2: H2Event,
    rest2: Seq<H2Event>,
    d: Secured<S::V, H1>,
    p: H1Sys,
    e1: Http1Event,
    rest1: Seq<Http1Event>,
)
    requires
        c.http.events == seq![e2] + rest2,
        d.http.events == seq![e1] + rest1,
        p.c.events == seq![e1] + rest1,
    ensures
        EstablishedConn::<S, BUF>::event_polled(EstModel::H2(c)) matches (
            EstModel::H2(t),
            Some(told),
        ) && h2_told(e2, told) && t == (Secured {
            http: Conn { events: rest2, ..c.http },
            ..c
        }),
        EstablishedConn::<S, BUF>::event_polled(EstModel::Https1(d)) matches (
            EstModel::Https1(t),
            Some(told),
        ) && h1_told(e1, told) && t == (Secured { http: H1 { events: rest1, ..d.http }, ..d }),
        EstablishedConn::<S, BUF>::event_polled(EstModel::Plain(p)) matches (
            EstModel::Plain(t),
            Some(told),
        ) && h1_told(e1, told) && t == (H1Sys { c: H1 { events: rest1, ..p.c }, ..p }),
{
    assert((seq![e2] + rest2).skip(1) =~= rest2);
    assert((seq![e1] + rest1).skip(1) =~= rest1);
    assert((seq![e2] + rest2)[0] == e2);
    assert((seq![e1] + rest1)[0] == e1);
}

// ---------------------------------------------------------------------------
// Time
// ---------------------------------------------------------------------------

/// What time makes of a TCP connection: a handshake that has taken as long as it may is
/// closed, one that has not goes on, and an HTTP connection runs its own timers.
pub open spec fn timed_well<S: TlsSession, const BUF: usize>(
    before: TcpModel<S::V>,
    after: TcpModel<S::V>,
    limit: u64,
    now: u64,
) -> bool {
    match before.state {
        StateModel::Handshaking(_) => if now - before.accepted_at >= limit {
            after.state is Closed && after.id == before.id
        } else {
            after == before
        },
        StateModel::Established(EstModel::H2(c)) => after == (TcpModel {
            state: StateModel::Established(EstModel::H2(left_h2(c, h2_of(c, BUF).timed(now)))),
            ..before
        }),
        StateModel::Established(EstModel::Https1(c)) => after == (TcpModel {
            state: StateModel::Established(
                EstModel::Https1(Secured { http: c.http.timed(now), ..c }),
            ),
            ..before
        }),
        StateModel::Established(EstModel::Plain(c)) => after == (TcpModel {
            state: StateModel::Established(EstModel::Plain(H1Sys { c: c.c.timed(now), ..c })),
            ..before
        }),
        StateModel::Closed => after == before,
    }
}

/// Time passes for every TCP connection, and for each as it stands.
pub proof fn time_passes_for_all<S: TlsSession, Q: HttpServerConn, A: Address, const BUF: usize>(
    m: Mgr<S::V, Q::V, A>,
    k: int,
    now: u64,
)
    requires
        0 <= k <= m.tcp.len(),
        now < u64::MAX,
    ensures
        ({
            let t = ServerManager::<S, Q, A, BUF>::tcp_timed_from(m, k, now);
            &&& t.tcp.len() == m.tcp.len()
            &&& t.config == m.config
            &&& forall|j: int| 0 <= j < k ==> #[trigger] t.tcp[j] == m.tcp[j]
            &&& forall|j: int|
                k <= j < m.tcp.len() ==> timed_well::<S, BUF>(
                    m.tcp[j],
                    #[trigger] t.tcp[j],
                    m.config.handshake_timeout_us,
                    now,
                )
        }),
    decreases m.tcp.len() - k,
{
    if k < m.tcp.len() {
        let n = ServerManager::<S, Q, A, BUF>::tcp_conn_timed(m, k, now);
        assert(n.tcp.len() == m.tcp.len() && n.config == m.config);
        assert forall|j: int| 0 <= j < m.tcp.len() && j != k implies #[trigger] n.tcp[j]
            == m.tcp[j] by {}
        time_passes_for_all::<S, Q, A, BUF>(n, k + 1, now);
        let t = ServerManager::<S, Q, A, BUF>::tcp_timed_from(m, k, now);
        assert(t.tcp[k] == n.tcp[k]);
        assert(timed_well::<S, BUF>(m.tcp[k], n.tcp[k], m.config.handshake_timeout_us, now));
        assert forall|j: int| k <= j < m.tcp.len() implies timed_well::<S, BUF>(
            m.tcp[j],
            #[trigger] t.tcp[j],
            m.config.handshake_timeout_us,
            now,
        ) by {
            if j > k {
                assert(n.tcp[j] == m.tcp[j]);
            }
        }
    }
}

/// A QUIC connection runs its timers, and is given up when it is closed, or when its
/// handshake has taken as long as it may; it then gives its slot back.
pub proof fn quic_handshakes_are_bounded<
    S: TlsSession,
    Q: QuicServer<P>,
    A: Address,
    P: HandshakePoolAccess,
    const BUF: usize,
>(m: Mgr<S::V, Q::V, A>, i: int, now: u64, pool: P::V)
    requires
        0 <= i < m.quic.len(),
        now < u64::MAX,
    ensures
        ({
            let (t, p, dead) = ServerManager::<S, Q, A, BUF>::quic_timed::<P>(m, i, now, pool);
            let s = Q::timed_out(m.quic[i].server, now);
            &&& dead <==> Q::closed(s) || (!Q::established(s) && now - m.quic[i].created_at
                >= m.config.handshake_timeout_us)
            &&& (t.quic[i].server, p) == if dead {
                Q::slot_released(s, pool)
            } else {
                (s, pool)
            }
            &&& forall|j: int| 0 <= j < m.quic.len() && j != i ==> #[trigger] t.quic[j] == m.quic[j]
        }),
{
}

} // verus!
