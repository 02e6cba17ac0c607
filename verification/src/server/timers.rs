//! What holds of the manager's timers, and of QUIC connections that are closed.

use vstd::prelude::*;

use super::conn::{EstablishedConn, StateModel, TcpModel};
use super::history;
use super::history::{moved, raised};
use super::laws;
use super::laws::{after, run, sound, Call};
use super::lifecycle;
use super::lifecycle::{reported_closed, Target};
use super::limits;
use super::manager::{Mgr, QuicModel, ServerManager};
use super::{ConnId, ServerConfig, ServerEvent};
use crate::bytes::Field;
use crate::http;
use crate::http::server_conn::HttpServerConn;
use crate::quic::{HandshakePoolAccess, QuicServer};
use crate::tls::{ServerTlsConfig, TlsSession};
use crate::transport::Address;

verus! {

// ---------------------------------------------------------------------------
// The next deadline
// ---------------------------------------------------------------------------

/// A deadline is not before another, where there are both.
pub open spec fn not_before(d: Option<u64>, earliest: Option<u64>) -> bool {
    d matches Some(x) ==> earliest matches Some(y) && y <= x
}

proof fn lemma_tcp_earliest<S: TlsSession, Q: HttpServerConn, A: Address, const BUF: usize>(
    m: Mgr<S::V, Q::V, A>,
    n: int,
)
    ensures
        ({
            let e = ServerManager::<S, Q, A, BUF>::tcp_earliest(m, n);
            &&& forall|i: int|
                0 <= i < n ==> not_before(
                    #[trigger] ServerManager::<S, Q, A, BUF>::tcp_deadline(m, i),
                    e,
                )
            &&& e is Some ==> exists|i: int|
                0 <= i < n && #[trigger] ServerManager::<S, Q, A, BUF>::tcp_deadline(m, i) == e
        }),
    decreases n,
{
    if n > 0 {
        lemma_tcp_earliest::<S, Q, A, BUF>(m, n - 1);
        let e = ServerManager::<S, Q, A, BUF>::tcp_earliest(m, n);
        let before = ServerManager::<S, Q, A, BUF>::tcp_earliest(m, n - 1);
        assert(e is Some ==> e == before || e == ServerManager::<S, Q, A, BUF>::tcp_deadline(
            m,
            n - 1,
        ));
    }
}

proof fn lemma_quic_earliest<S: TlsSession, Q: HttpServerConn, A: Address, const BUF: usize>(
    m: Mgr<S::V, Q::V, A>,
    n: int,
)
    ensures
        ({
            let e = ServerManager::<S, Q, A, BUF>::quic_earliest(m, n);
            &&& forall|i: int|
                0 <= i < n ==> not_before(
                    #[trigger] ServerManager::<S, Q, A, BUF>::quic_deadline(m, i),
                    e,
                )
            &&& e is Some ==> exists|i: int|
                0 <= i < n && #[trigger] ServerManager::<S, Q, A, BUF>::quic_deadline(m, i) == e
        }),
    decreases n,
{
    if n > 0 {
        lemma_quic_earliest::<S, Q, A, BUF>(m, n - 1);
        let e = ServerManager::<S, Q, A, BUF>::quic_earliest(m, n);
        let before = ServerManager::<S, Q, A, BUF>::quic_earliest(m, n - 1);
        assert(e is Some ==> e == before || e == ServerManager::<S, Q, A, BUF>::quic_deadline(
            m,
            n - 1,
        ));
    }
}

proof fn lemma_next_deadline<S: TlsSession, Q: HttpServerConn, A: Address, const BUF: usize>(
    m: Mgr<S::V, Q::V, A>,
)
    ensures
        ({
            let e = ServerManager::<S, Q, A, BUF>::next_deadline(m);
            &&& forall|i: int|
                0 <= i < m.tcp.len() ==> not_before(
                    #[trigger] ServerManager::<S, Q, A, BUF>::tcp_deadline(m, i),
                    e,
                )
            &&& forall|i: int|
                0 <= i < m.quic.len() ==> not_before(
                    #[trigger] ServerManager::<S, Q, A, BUF>::quic_deadline(m, i),
                    e,
                )
            &&& e is Some ==> (exists|i: int|
                0 <= i < m.tcp.len() && #[trigger] ServerManager::<S, Q, A, BUF>::tcp_deadline(m, i)
                    == e) || (exists|i: int|
                0 <= i < m.quic.len() && #[trigger] ServerManager::<S, Q, A, BUF>::quic_deadline(
                    m,
                    i,
                ) == e)
        }),
{
    lemma_tcp_earliest::<S, Q, A, BUF>(m, m.tcp.len() as int);
    lemma_quic_earliest::<S, Q, A, BUF>(m, m.quic.len() as int);
    let e = ServerManager::<S, Q, A, BUF>::next_deadline(m);
    let t = ServerManager::<S, Q, A, BUF>::tcp_earliest(m, m.tcp.len() as int);
    let q = ServerManager::<S, Q, A, BUF>::quic_earliest(m, m.quic.len() as int);
    assert(e is Some ==> e == t || e == q);
}

/// A deadline of a TCP connection: that of its handshake while it lasts, then one of
/// its HTTP connection. A closed connection has none.
pub open spec fn tcp_due<S: TlsSession, const BUF: usize>(
    config: ServerConfig,
    c: TcpModel<S::V>,
    d: u64,
) -> bool {
    match c.state {
        StateModel::Handshaking(_) => d == http::deadline(
            c.accepted_at,
            config.handshake_timeout_us,
        ),
        StateModel::Established(e) => EstablishedConn::<S, BUF>::deadline(e) == Some(d),
        StateModel::Closed => false,
    }
}

/// A deadline of a QUIC connection: that of its handshake while it lasts, or its own.
pub open spec fn quic_due<Q: HttpServerConn, A>(
    config: ServerConfig,
    c: QuicModel<Q::V, A>,
    d: u64,
) -> bool {
    ||| !Q::established(c.server) && d == http::deadline(
        c.created_at,
        config.handshake_timeout_us,
    )
    ||| Q::deadline(c.server) == Some(d)
}

/// A deadline of one of the connections.
pub open spec fn due<S: TlsSession, Q: HttpServerConn, A: Address, const BUF: usize>(
    m: Mgr<S::V, Q::V, A>,
    d: u64,
) -> bool {
    ||| exists|i: int|
        0 <= i < m.tcp.len() && tcp_due::<S, BUF>(m.config, #[trigger] m.tcp[i], d)
    ||| exists|i: int|
        0 <= i < m.quic.len() && quic_due::<Q, A>(m.config, #[trigger] m.quic[i], d)
}

/// The earliest of the deadlines of the connections, or none, if there is none.
pub open spec fn earliest_due<S: TlsSession, Q: HttpServerConn, A: Address, const BUF: usize>(
    m: Mgr<S::V, Q::V, A>,
    e: Option<u64>,
) -> bool {
    match e {
        Some(x) => due::<S, Q, A, BUF>(m, x) && forall|d: u64| #[trigger]
            due::<S, Q, A, BUF>(m, d) ==> x <= d,
        None => forall|d: u64| !#[trigger] due::<S, Q, A, BUF>(m, d),
    }
}

/// The next timeout is the earliest deadline of any connection, and there is none
/// only where no connection has one.
pub proof fn next_timeout_is_the_earliest_due<
    S: TlsSession,
    Q: HttpServerConn,
    A: Address,
    const BUF: usize,
>(m: Mgr<S::V, Q::V, A>)
    ensures
        earliest_due::<S, Q, A, BUF>(m, ServerManager::<S, Q, A, BUF>::next_deadline(m)),
{
    let e = ServerManager::<S, Q, A, BUF>::next_deadline(m);
    lemma_next_deadline::<S, Q, A, BUF>(m);
    assert forall|d: u64| #[trigger] due::<S, Q, A, BUF>(m, d) implies e matches Some(x) && x
        <= d by {
        if exists|i: int|
            0 <= i < m.tcp.len() && tcp_due::<S, BUF>(m.config, #[trigger] m.tcp[i], d) {
            let i = choose|i: int|
                0 <= i < m.tcp.len() && tcp_due::<S, BUF>(m.config, #[trigger] m.tcp[i], d);
            assert(not_before(ServerManager::<S, Q, A, BUF>::tcp_deadline(m, i), e));
        } else {
            let i = choose|i: int|
                0 <= i < m.quic.len() && quic_due::<Q, A>(m.config, #[trigger] m.quic[i], d);
            assert(not_before(ServerManager::<S, Q, A, BUF>::quic_deadline(m, i), e));
        }
    }
    match e {
        Some(x) => {
            if exists|i: int|
                0 <= i < m.tcp.len() && #[trigger] ServerManager::<S, Q, A, BUF>::tcp_deadline(
                    m,
                    i,
                ) == e {
                let i = choose|i: int|
                    0 <= i < m.tcp.len() && #[trigger] ServerManager::<S, Q, A, BUF>::tcp_deadline(
                        m,
                        i,
                    ) == e;
                assert(tcp_due::<S, BUF>(m.config, m.tcp[i], x));
            } else {
                let i = choose|i: int|
                    0 <= i < m.quic.len()
                        && #[trigger] ServerManager::<S, Q, A, BUF>::quic_deadline(m, i) == e;
                assert(quic_due::<Q, A>(m.config, m.quic[i], x));
            }
        },
        None => {},
    }
}

// ---------------------------------------------------------------------------
// Before the next deadline
// ---------------------------------------------------------------------------

/// It is earlier than a deadline, where there is one.
pub open spec fn too_early(now: u64, d: Option<u64>) -> bool {
    d matches Some(x) ==> now < x
}

proof fn lemma_tcp_untouched<S: TlsSession, Q: HttpServerConn, A: Address, const BUF: usize>(
    m: Mgr<S::V, Q::V, A>,
    i: int,
    now: u64,
)
    requires
        0 <= i,
        forall|j: int|
            0 <= j < m.tcp.len() ==> too_early(
                now,
                #[trigger] ServerManager::<S, Q, A, BUF>::tcp_deadline(m, j),
            ),
    ensures
        ServerManager::<S, Q, A, BUF>::tcp_timed_from(m, i, now) == m,
    decreases m.tcp.len() - i,
{
    if i < m.tcp.len() {
        assert(too_early(now, ServerManager::<S, Q, A, BUF>::tcp_deadline(m, i)));
        let t = ServerManager::<S, Q, A, BUF>::tcp_conn_timed(m, i, now);
        assert(t.tcp =~= m.tcp);
        assert(t == m);
        lemma_tcp_untouched::<S, Q, A, BUF>(m, i + 1, now);
    }
}

/// A QUIC connection whose own timers have run.
pub open spec fn timed<Q: HttpServerConn, A>(c: QuicModel<Q::V, A>, now: u64) -> QuicModel<Q::V, A> {
    QuicModel { server: Q::timed_out(c.server, now), ..c }
}

/// A QUIC connection that its own timers close, or take out of use.
pub open spec fn dies<Q: HttpServerConn, A>(
    config: ServerConfig,
    c: QuicModel<Q::V, A>,
    now: u64,
) -> bool {
    let s = Q::timed_out(c.server, now);
    Q::closed(s) || (!Q::established(s) && now >= http::deadline(
        c.created_at,
        config.handshake_timeout_us,
    ))
}

/// Removing dead connections leaves those alone that were looked at before.
proof fn lemma_kept<
    S: TlsSession,
    Q: QuicServer<P>,
    A: Address,
    P: HandshakePoolAccess,
    const BUF: usize,
>(m: Mgr<S::V, Q::V, A>, i: int, now: u64, pool: P::V, j: int)
    requires
        0 <= j < i <= m.quic.len(),
    ensures
        ({
            let t = ServerManager::<S, Q, A, BUF>::reaped_from::<P>(m, i, now, pool).0;
            j < t.quic.len() && t.quic[j] == m.quic[j]
        }),
    decreases m.quic.len() - i,
{
    if i < m.quic.len() {
        let (t, p, dead) = ServerManager::<S, Q, A, BUF>::quic_timed::<P>(m, i, now, pool);
        if dead {
            lemma_kept::<S, Q, A, P, BUF>(
                Mgr { quic: t.quic.remove(i), ..t }.pushed(
                    ServerEvent::Closed(m.quic[i].id),
                ),
                i,
                now,
                p,
                j,
            );
        } else {
            lemma_kept::<S, Q, A, P, BUF>(t, i + 1, now, p, j);
        }
    }
}

/// A connection that does not die is still there after dead ones are removed.
proof fn lemma_survives<
    S: TlsSession,
    Q: QuicServer<P>,
    A: Address,
    P: HandshakePoolAccess,
    const BUF: usize,
>(m: Mgr<S::V, Q::V, A>, i: int, now: u64, pool: P::V, j: int)
    requires
        0 <= i <= j < m.quic.len(),
        !dies::<Q, A>(m.config, m.quic[j], now),
    ensures
        ServerManager::<S, Q, A, BUF>::reaped_from::<P>(m, i, now, pool).0.quic.contains(
            timed::<Q, A>(m.quic[j], now),
        ),
    decreases m.quic.len() - i,
{
    let (t, p, dead) = ServerManager::<S, Q, A, BUF>::quic_timed::<P>(m, i, now, pool);
    if dead {
        let u = Mgr { quic: t.quic.remove(i), ..t }.pushed(
            ServerEvent::Closed(m.quic[i].id),
        );
        assert(u.quic[j - 1] == m.quic[j]);
        lemma_survives::<S, Q, A, P, BUF>(u, i, now, p, j - 1);
    } else if j == i {
        lemma_kept::<S, Q, A, P, BUF>(t, i + 1, now, p, j);
    } else {
        assert(t.quic[j] == m.quic[j]);
        lemma_survives::<S, Q, A, P, BUF>(t, i + 1, now, p, j);
    }
}

/// Handling timeouts before the next deadline closes no TCP connection and ends no
/// handshake: nothing changes for TCP connections, and of QUIC connections only
/// those are removed that their own timers closed or took out of use.
pub proof fn nothing_times_out_early<
    S: TlsSession,
    Q: QuicServer<P>,
    A: Address,
    P: HandshakePoolAccess,
    const BUF: usize,
>(m: Mgr<S::V, Q::V, A>, pool: P::V, now: u64)
    requires
        too_early(now, ServerManager::<S, Q, A, BUF>::next_deadline(m)),
    ensures
        ServerManager::<S, Q, A, BUF>::tcp_timed_from(m, 0, now) == m,
        after::<S, Q, A, P, BUF>(m, pool, Call::HandleTimeouts(now)).0.tcp == m.tcp,
        forall|i: int|
            0 <= i < m.quic.len() && ({
                let s = (#[trigger] m.quic[i]).server;
                let t = Q::timed_out(s, now);
                !Q::closed(t) && (Q::established(s) ==> Q::established(t))
            }) ==> after::<S, Q, A, P, BUF>(
                m,
                pool,
                Call::HandleTimeouts(now),
            ).0.quic.contains(timed::<Q, A>(m.quic[i], now)),
{
    lemma_next_deadline::<S, Q, A, BUF>(m);
    assert forall|j: int| 0 <= j < m.tcp.len() implies too_early(
        now,
        #[trigger] ServerManager::<S, Q, A, BUF>::tcp_deadline(m, j),
    ) by {}
    lemma_tcp_untouched::<S, Q, A, BUF>(m, 0, now);
    limits::dead_connections_are_removed::<S, Q, A, P, BUF>(m, now, pool);
    assert forall|i: int|
        0 <= i < m.quic.len() && ({
            let s = (#[trigger] m.quic[i]).server;
            let t = Q::timed_out(s, now);
            !Q::closed(t) && (Q::established(s) ==> Q::established(t))
        }) implies after::<S, Q, A, P, BUF>(
        m,
        pool,
        Call::HandleTimeouts(now),
    ).0.quic.contains(timed::<Q, A>(m.quic[i], now)) by {
        assert(not_before(
            ServerManager::<S, Q, A, BUF>::quic_deadline(m, i),
            ServerManager::<S, Q, A, BUF>::next_deadline(m),
        ));
        assert(!dies::<Q, A>(m.config, m.quic[i], now));
        lemma_survives::<S, Q, A, P, BUF>(m, 0, now, pool, i);
    }
}

// ---------------------------------------------------------------------------
// Closed QUIC connections
// ---------------------------------------------------------------------------

/// A QUIC connection was there before, and is closed if it was.
pub open spec fn kept_at<Q: HttpServerConn, A>(
    a: Seq<QuicModel<Q::V, A>>,
    c: QuicModel<Q::V, A>,
    i: int,
) -> bool {
    &&& 0 <= i < a.len()
    &&& a[i].id == c.id
    &&& Q::closed(a[i].server) ==> Q::closed(c.server)
}

/// QUIC connections are new, or stay closed if they were.
#[verifier::opaque]
pub open spec fn quic_kept<Q: HttpServerConn, A>(
    a: Seq<QuicModel<Q::V, A>>,
    b: Seq<QuicModel<Q::V, A>>,
    next: u32,
) -> bool {
    forall|j: int|
        0 <= j < b.len() ==> (#[trigger] b[j]).id.0 >= next || exists|i: int|
            #[trigger] kept_at::<Q, A>(a, b[j], i)
}

proof fn lemma_quic_same<Q: HttpServerConn, A>(a: Seq<QuicModel<Q::V, A>>, next: u32)
    ensures
        quic_kept::<Q, A>(a, a, next),
{
    reveal(quic_kept);
    assert forall|j: int| 0 <= j < a.len() implies (#[trigger] a[j]).id.0 >= next || exists|i: int|
        #[trigger] kept_at::<Q, A>(a, a[j], i) by {
        assert(kept_at::<Q, A>(a, a[j], j));
    }
}

proof fn lemma_quic_kept_on<Q: HttpServerConn, A>(
    a: Seq<QuicModel<Q::V, A>>,
    b: Seq<QuicModel<Q::V, A>>,
    c: Seq<QuicModel<Q::V, A>>,
    next: u32,
    later: u32,
)
    requires
        quic_kept::<Q, A>(a, b, next),
        quic_kept::<Q, A>(b, c, later),
        next <= later,
    ensures
        quic_kept::<Q, A>(a, c, next),
{
    reveal(quic_kept);
    assert forall|j: int| 0 <= j < c.len() implies (#[trigger] c[j]).id.0 >= next || exists|i: int|
        #[trigger] kept_at::<Q, A>(a, c[j], i) by {
        if c[j].id.0 < next {
            let k = choose|k: int| #[trigger] kept_at::<Q, A>(b, c[j], k);
            assert(kept_at::<Q, A>(b, c[j], k));
            let i = choose|i: int| #[trigger] kept_at::<Q, A>(a, b[k], i);
            assert(kept_at::<Q, A>(a, b[k], i));
            assert(kept_at::<Q, A>(a, c[j], i));
        }
    }
}

proof fn lemma_quic_one<Q: HttpServerConn, TV, A>(m: Mgr<TV, Q::V, A>, i: int, s: Q::V)
    requires
        0 <= i < m.quic.len(),
        Q::closed(m.quic[i].server) ==> Q::closed(s),
    ensures
        quic_kept::<Q, A>(m.quic, m.with_quic(i, s).quic, m.next_id),
{
    reveal(quic_kept);
    let b = m.with_quic(i, s).quic;
    assert forall|j: int| 0 <= j < b.len() implies (#[trigger] b[j]).id.0 >= m.next_id
        || exists|k: int| #[trigger] kept_at::<Q, A>(m.quic, b[j], k) by {
        assert(kept_at::<Q, A>(m.quic, b[j], j));
    }
}

proof fn lemma_quic_less<Q: HttpServerConn, A>(a: Seq<QuicModel<Q::V, A>>, i: int, next: u32)
    requires
        0 <= i < a.len(),
    ensures
        quic_kept::<Q, A>(a, a.remove(i), next),
{
    reveal(quic_kept);
    let b = a.remove(i);
    assert forall|j: int| 0 <= j < b.len() implies (#[trigger] b[j]).id.0 >= next || exists|k: int|
        #[trigger] kept_at::<Q, A>(a, b[j], k) by {
        let k = if j < i {
            j
        } else {
            j + 1
        };
        assert(kept_at::<Q, A>(a, b[j], k));
    }
}

proof fn lemma_use_closed<Q: QuicServer<P>, P: HandshakePoolAccess>(
    s: Q::V,
    id: u64,
    room: int,
    status: u16,
    fs: Seq<Field>,
    data: Seq<u8>,
    end: bool,
)
    ensures
        Q::closed(s) ==> {
            &&& Q::closed(Q::event_polled(s).0)
            &&& Q::closed(Q::headers_read(s, id).0)
            &&& Q::closed(Q::body_read(s, id, room).0)
            &&& Q::closed(Q::response_sent(s, id, status, fs, end).0)
            &&& Q::closed(Q::body_sent(s, id, data, end).0)
            &&& Q::closed(<Q as QuicServer<P>>::closing(s))
        },
{
    if Q::closed(s) {
        <Q as QuicServer<P>>::stays_closed_in_use(s, id, room, status, fs, data, end);
    }
}

proof fn lemma_wire_closed<Q: QuicServer<P>, P: HandshakePoolAccess>(
    s: Q::V,
    data: Seq<u8>,
    room: int,
    now: u64,
    pool: P::V,
)
    ensures
        Q::closed(s) ==> {
            &&& Q::closed(<Q as QuicServer<P>>::datagram(s, data, now, pool).0)
            &&& Q::closed(<Q as QuicServer<P>>::transmitted(s, room, now, pool).0)
            &&& Q::closed(Q::timed_out(s, now))
            &&& Q::closed(<Q as QuicServer<P>>::slot_released(s, pool).0)
        },
{
    if Q::closed(s) {
        <Q as QuicServer<P>>::stays_closed_on_the_wire(s, data, room, now, pool);
    }
}

proof fn lemma_reaped_kept<
    S: TlsSession,
    Q: QuicServer<P>,
    A: Address,
    P: HandshakePoolAccess,
    const BUF: usize,
>(m: Mgr<S::V, Q::V, A>, i: int, now: u64, pool: P::V)
    requires
        0 <= i,
    ensures
        ({
            let t = ServerManager::<S, Q, A, BUF>::reaped_from::<P>(m, i, now, pool).0;
            quic_kept::<Q, A>(m.quic, t.quic, m.next_id) && t.next_id == m.next_id
        }),
    decreases m.quic.len() - i,
{
    if i < m.quic.len() {
        let (t, p, dead) = ServerManager::<S, Q, A, BUF>::quic_timed::<P>(m, i, now, pool);
        let s = Q::timed_out(m.quic[i].server, now);
        lemma_wire_closed::<Q, P>(m.quic[i].server, Seq::empty(), 0, now, pool);
        lemma_wire_closed::<Q, P>(s, Seq::empty(), 0, now, pool);
        lemma_quic_one::<Q, S::V, A>(m, i, s);
        lemma_quic_one::<Q, S::V, A>(m, i, <Q as QuicServer<P>>::slot_released(s, pool).0);
        if dead {
            let u = Mgr { quic: t.quic.remove(i), ..t }.pushed(
                ServerEvent::Closed(m.quic[i].id),
            );
            lemma_quic_less::<Q, A>(t.quic, i, t.next_id);
            lemma_reaped_kept::<S, Q, A, P, BUF>(u, i, now, p);
            let w = ServerManager::<S, Q, A, BUF>::reaped_from::<P>(u, i, now, p).0;
            lemma_quic_kept_on::<Q, A>(m.quic, t.quic, u.quic, m.next_id, m.next_id);
            lemma_quic_kept_on::<Q, A>(m.quic, u.quic, w.quic, m.next_id, m.next_id);
        } else {
            lemma_reaped_kept::<S, Q, A, P, BUF>(t, i + 1, now, p);
            let w = ServerManager::<S, Q, A, BUF>::reaped_from::<P>(t, i + 1, now, p).0;
            lemma_quic_kept_on::<Q, A>(m.quic, t.quic, w.quic, m.next_id, m.next_id);
        }
    } else {
        lemma_quic_same::<Q, A>(m.quic, m.next_id);
    }
}

proof fn lemma_scanned_kept<
    S: TlsSession,
    Q: QuicServer<P>,
    A: Address,
    P: HandshakePoolAccess,
    const BUF: usize,
>(m: Mgr<S::V, Q::V, A>, i: int)
    requires
        0 <= i,
    ensures
        quic_kept::<Q, A>(
            m.quic,
            ServerManager::<S, Q, A, BUF>::quic_scanned(m, i).0.quic,
            m.next_id,
        ),
    decreases m.quic.len() - i,
{
    if i < m.quic.len() {
        let (s, ev) = Q::event_polled(m.quic[i].server);
        let t = m.with_quic(i, s);
        lemma_use_closed::<Q, P>(m.quic[i].server, 0, 0, 0, Seq::empty(), Seq::empty(), false);
        lemma_quic_one::<Q, S::V, A>(m, i, s);
        if ev is None {
            lemma_scanned_kept::<S, Q, A, P, BUF>(t, i + 1);
            lemma_quic_kept_on::<Q, A>(
                m.quic,
                t.quic,
                ServerManager::<S, Q, A, BUF>::quic_scanned(t, i + 1).0.quic,
                m.next_id,
                m.next_id,
            );
        }
    } else {
        lemma_quic_same::<Q, A>(m.quic, m.next_id);
    }
}

proof fn lemma_transmitted_kept<
    S: TlsSession,
    Q: QuicServer<P>,
    A: Address,
    P: HandshakePoolAccess,
    const BUF: usize,
>(m: Mgr<S::V, Q::V, A>, i: int, room: int, now: u64, pool: P::V)
    requires
        0 <= i,
    ensures
        quic_kept::<Q, A>(
            m.quic,
            ServerManager::<S, Q, A, BUF>::transmitted_from::<P>(m, i, room, now, pool).0.quic,
            m.next_id,
        ),
    decreases m.quic.len() - i,
{
    if i < m.quic.len() {
        let (s, p, out) = <Q as QuicServer<P>>::transmitted(m.quic[i].server, room, now, pool);
        let t = m.with_quic(i, s);
        lemma_wire_closed::<Q, P>(m.quic[i].server, Seq::empty(), room, now, pool);
        lemma_quic_one::<Q, S::V, A>(m, i, s);
        if out is None {
            lemma_transmitted_kept::<S, Q, A, P, BUF>(t, i + 1, room, now, p);
            lemma_quic_kept_on::<Q, A>(
                m.quic,
                t.quic,
                ServerManager::<S, Q, A, BUF>::transmitted_from::<P>(
                    t,
                    i + 1,
                    room,
                    now,
                    p,
                ).0.quic,
                m.next_id,
                m.next_id,
            );
        }
    } else {
        lemma_quic_same::<Q, A>(m.quic, m.next_id);
    }
}

proof fn lemma_udp_kept<
    S: TlsSession,
    Q: QuicServer<P>,
    A: Address,
    P: HandshakePoolAccess,
    const BUF: usize,
>(m: Mgr<S::V, Q::V, A>, pool: P::V, data: Seq<u8>, from: A, now: u64, seed: Seq<u8>)
    requires
    ensures
        quic_kept::<Q, A>(
            m.quic,
            ServerManager::<S, Q, A, BUF>::udp_fed::<P>(m, data, from, now, seed, pool).0.quic,
            m.next_id,
        ),
{
    match ServerManager::<S, Q, A, BUF>::route(m, data) {
        Some(i) => {
            let dcid = crate::quic::dcid_of(data, crate::quic::LOCAL_CID_LEN as int)->0;
            laws::lemma_routed(m.quic, dcid, 0);
            lemma_wire_closed::<Q, P>(m.quic[i].server, data, 0, now, pool);
            lemma_quic_one::<Q, S::V, A>(
                m,
                i,
                <Q as QuicServer<P>>::datagram(m.quic[i].server, data, now, pool).0,
            );
        },
        None => {
            lemma_reaped_kept::<S, Q, A, P, BUF>(m, 0, now, pool);
            lemma_quic_same::<Q, A>(m.quic, m.next_id);
            let (t, p) = ServerManager::<S, Q, A, BUF>::room_made::<P>(m, now, pool);
            let u = ServerManager::<S, Q, A, BUF>::udp_fed::<P>(m, data, from, now, seed, pool).0;
            lemma_quic_same::<Q, A>(t.quic, t.next_id);
            assert(quic_kept::<Q, A>(t.quic, u.quic, t.next_id)) by {
                if u.quic != t.quic {
                    reveal(quic_kept);
                    assert(u.quic == t.quic.push(u.quic.last()));
                    assert forall|j: int|
                        0 <= j < u.quic.len() implies (#[trigger] u.quic[j]).id.0 >= t.next_id
                        || exists|k: int| #[trigger] kept_at::<Q, A>(t.quic, u.quic[j], k) by {
                        if j < t.quic.len() {
                            assert(kept_at::<Q, A>(t.quic, u.quic[j], j));
                        }
                    }
                }
            }
            lemma_quic_kept_on::<Q, A>(m.quic, t.quic, u.quic, m.next_id, t.next_id);
        },
    }
}

/// Every call leaves closed QUIC connections closed.
proof fn lemma_call_kept<
    S: TlsSession,
    Q: QuicServer<P>,
    A: Address,
    P: HandshakePoolAccess,
    const BUF: usize,
>(m: Mgr<S::V, Q::V, A>, pool: P::V, call: Call<A>)
    requires
        sound(m),
    ensures
        quic_kept::<Q, A>(m.quic, after::<S, Q, A, P, BUF>(m, pool, call).0.quic, m.next_id),
{
    lemma_quic_same::<Q, A>(m.quic, m.next_id);
    match call {
        Call::TcpFeed(id, data, now) => {
            history::lemma_fed_moves::<S, Q, A, BUF>(m, id, data, now);
        },
        Call::TcpEof(id) => {
            history::lemma_ended_moves::<S, Q, A, BUF>(m, id);
        },
        Call::UdpFeed(data, from, now, seed) => {
            lemma_udp_kept::<S, Q, A, P, BUF>(m, pool, data, from, now, seed);
        },
        Call::UdpPollTransmit(room, now) => {
            lemma_transmitted_kept::<S, Q, A, P, BUF>(m, 0, room as int, now, pool);
        },
        Call::PollEvent => {
            history::lemma_scanned_moves::<S, Q, A, BUF>(m, 0);
            let t = ServerManager::<S, Q, A, BUF>::tcp_scanned(m, 0).0;
            lemma_scanned_kept::<S, Q, A, P, BUF>(t, 0);
            lemma_scan_next::<S, Q, A, BUF>(m, 0);
        },
        Call::RecvHeaders(id, stream) => {
            lemma_http_kept::<S, Q, A, P, BUF>(m, pool, call, id);
        },
        Call::RecvBody(id, stream, room) => {
            lemma_http_kept::<S, Q, A, P, BUF>(m, pool, call, id);
        },
        Call::SendResponse(id, stream, status, fs, end) => {
            lemma_http_kept::<S, Q, A, P, BUF>(m, pool, call, id);
        },
        Call::SendBody(id, stream, data, end) => {
            lemma_http_kept::<S, Q, A, P, BUF>(m, pool, call, id);
        },
        Call::HandleTimeouts(now) => {
            history::lemma_timed_moves::<S, Q, A, BUF>(m, 0, now);
            let t = ServerManager::<S, Q, A, BUF>::tcp_timed_from(m, 0, now);
            lemma_reaped_kept::<S, Q, A, P, BUF>(t, 0, now, pool);
            lemma_quic_kept_on::<Q, A>(
                m.quic,
                t.quic,
                ServerManager::<S, Q, A, BUF>::reaped_from::<P>(t, 0, now, pool).0.quic,
                m.next_id,
                t.next_id,
            );
        },
        Call::Close(id) => {
            laws::quic_found(m.quic, id, 0);
            match (m.find_tcp(id), m.find_quic(id)) {
                (None, Some(i)) => {
                    lemma_use_closed::<Q, P>(
                        m.quic[i].server,
                        0,
                        0,
                        0,
                        Seq::empty(),
                        Seq::empty(),
                        false,
                    );
                    lemma_quic_one::<Q, S::V, A>(
                        m,
                        i,
                        <Q as QuicServer<P>>::closing(m.quic[i].server),
                    );
                },
                _ => {},
            }
        },
        _ => {},
    }
}

proof fn lemma_scan_next<S: TlsSession, Q: HttpServerConn, A: Address, const BUF: usize>(
    m: Mgr<S::V, Q::V, A>,
    i: int,
)
    ensures
        ServerManager::<S, Q, A, BUF>::tcp_scanned(m, i).0.next_id == m.next_id,
    decreases m.tcp.len() - i,
{
    if 0 <= i < m.tcp.len() {
        lemma_scan_next::<S, Q, A, BUF>(
            ServerManager::<S, Q, A, BUF>::tcp_conn_polled(m, i).0,
            i + 1,
        );
    }
}

proof fn lemma_http_kept<
    S: TlsSession,
    Q: QuicServer<P>,
    A: Address,
    P: HandshakePoolAccess,
    const BUF: usize,
>(m: Mgr<S::V, Q::V, A>, pool: P::V, call: Call<A>, id: ConnId)
    requires
        match call {
            Call::RecvHeaders(x, _) => x == id,
            Call::RecvBody(x, _, _) => x == id,
            Call::SendResponse(x, _, _, _, _) => x == id,
            Call::SendBody(x, _, _, _) => x == id,
            _ => false,
        },
    ensures
        quic_kept::<Q, A>(m.quic, after::<S, Q, A, P, BUF>(m, pool, call).0.quic, m.next_id),
{
    laws::quic_found(m.quic, id, 0);
    lemma_quic_same::<Q, A>(m.quic, m.next_id);
    match ServerManager::<S, Q, A, BUF>::target(m, id) {
        Target::Quic(i) => {
            let q = m.quic[i].server;
            let none = Seq::<Field>::empty();
            let s = match call {
                Call::RecvHeaders(_, stream) => {
                    lemma_use_closed::<Q, P>(q, stream, 0, 0, none, Seq::empty(), false);
                    Q::headers_read(q, stream).0
                },
                Call::RecvBody(_, stream, room) => {
                    lemma_use_closed::<Q, P>(q, stream, room as int, 0, none, Seq::empty(), false);
                    Q::body_read(q, stream, room as int).0
                },
                Call::SendResponse(_, stream, status, fs, end) => {
                    lemma_use_closed::<Q, P>(q, stream, 0, status, fs, Seq::empty(), end);
                    Q::response_sent(q, stream, status, fs, end).0
                },
                Call::SendBody(_, stream, data, end) => {
                    lemma_use_closed::<Q, P>(q, stream, 0, 0, none, data, end);
                    Q::body_sent(q, stream, data, end).0
                },
                _ => q,
            };
            lemma_quic_one::<Q, S::V, A>(m, i, s);
        },
        _ => {},
    }
}

/// All connections with this handle are closed.
pub open spec fn all_closed<Q: HttpServerConn, TV, A>(m: Mgr<TV, Q::V, A>, id: ConnId) -> bool {
    &&& id.0 < m.next_id
    &&& forall|i: int|
        0 <= i < m.tcp.len() && (#[trigger] m.tcp[i]).id == id ==> m.tcp[i].state is Closed
    &&& forall|i: int|
        0 <= i < m.quic.len() && (#[trigger] m.quic[i]).id == id ==> Q::closed(m.quic[i].server)
}

proof fn lemma_all_closed<Q: HttpServerConn, TV, A>(m: Mgr<TV, Q::V, A>, id: ConnId)
    requires
        sound(m),
        id.0 < m.next_id,
        reported_closed::<Q, TV, A>(m, id),
    ensures
        all_closed::<Q, TV, A>(m, id),
{
    lifecycle::tcp_found(m.tcp, id, 0);
    laws::quic_found(m.quic, id, 0);
    reveal(laws::tcp_distinct);
    reveal(laws::quic_distinct);
    reveal(laws::kinds_distinct);
    assert forall|j: int|
        0 <= j < m.tcp.len() && (#[trigger] m.tcp[j]).id == id implies m.tcp[j].state is Closed by {
        let i = m.find_tcp(id)->0;
        if i < j {
            assert(m.tcp[i].id != m.tcp[j].id);
        } else if j < i {
            assert(m.tcp[j].id != m.tcp[i].id);
        }
    }
    assert forall|j: int|
        0 <= j < m.quic.len() && (#[trigger] m.quic[j]).id == id implies Q::closed(
        m.quic[j].server,
    ) by {
        match m.find_tcp(id) {
            Some(i) => {
                assert(m.tcp[i].id != m.quic[j].id);
            },
            None => {
                let i = m.find_quic(id)->0;
                if i < j {
                    assert(m.quic[i].id != m.quic[j].id);
                } else if j < i {
                    assert(m.quic[j].id != m.quic[i].id);
                }
            },
        }
    }
}

/// A connection that the manager reports as closed is reported so from then on,
/// whatever is called, before and after it is removed.
pub proof fn reported_closed_for_good<
    S: TlsSession,
    Q: QuicServer<P>,
    A: Address,
    P: HandshakePoolAccess,
    const BUF: usize,
>(m: Mgr<S::V, Q::V, A>, pool: P::V, calls: Seq<Call<A>>, id: ConnId)
    requires
        sound(m),
        id.0 < m.next_id,
        reported_closed::<Q, S::V, A>(m, id),
    ensures
        ({
            let t = run::<S, Q, A, P, BUF>(m, pool, calls).0;
            sound(t) && all_closed::<Q, S::V, A>(t, id) && reported_closed::<Q, S::V, A>(t, id)
        }),
    decreases calls.len(),
{
    let u = run::<S, Q, A, P, BUF>(m, pool, calls).0;
    if calls.len() == 0 {
        lemma_all_closed::<Q, S::V, A>(m, id);
    } else {
        reported_closed_for_good::<S, Q, A, P, BUF>(m, pool, calls.drop_last(), id);
        let (t, p) = run::<S, Q, A, P, BUF>(m, pool, calls.drop_last());
        history::lemma_call_moves::<S, Q, A, P, BUF>(t, p, calls.last());
        laws::call_keeps_the_manager_sound::<S, Q, A, P, BUF>(t, p, calls.last());
        lemma_call_kept::<S, Q, A, P, BUF>(t, p, calls.last());
        lemma_stays_closed::<Q, S::V, A>(
            t,
            u,
            raised::<S, Q, A, P, BUF>(t, p, calls.last()),
            id,
        );
    }
    lifecycle::tcp_found(u.tcp, id, 0);
    laws::quic_found(u.quic, id, 0);
}

proof fn lemma_stays_closed<Q: HttpServerConn, TV, A>(
    m: Mgr<TV, Q::V, A>,
    t: Mgr<TV, Q::V, A>,
    es: Seq<ServerEvent>,
    id: ConnId,
)
    requires
        moved(m, t, es),
        quic_kept::<Q, A>(m.quic, t.quic, m.next_id),
        all_closed::<Q, TV, A>(m, id),
    ensures
        all_closed::<Q, TV, A>(t, id),
{
    reveal(history::tcp_moved);
    reveal(quic_kept);
    assert forall|j: int|
        0 <= j < t.tcp.len() && (#[trigger] t.tcp[j]).id == id implies t.tcp[j].state is Closed by {
        assert(history::grown(m.tcp, t.tcp[j], m.next_id, es));
        let i = choose|i: int| #[trigger] history::was_there(m.tcp, t.tcp[j], es, i);
        assert(history::was_there(m.tcp, t.tcp[j], es, i));
        assert(m.tcp[i].state is Closed);
    }
    assert forall|j: int|
        0 <= j < t.quic.len() && (#[trigger] t.quic[j]).id == id implies Q::closed(
        t.quic[j].server,
    ) by {
        let i = choose|i: int| #[trigger] kept_at::<Q, A>(m.quic, t.quic[j], i);
        assert(kept_at::<Q, A>(m.quic, t.quic[j], i));
        assert(m.quic[i].id == id);
    }
}

/// In every state that a manager can come to, a connection that it reports as closed
/// is reported so from then on. A handle that was not given out yet is reported as
/// closed too.
pub proof fn closed_is_for_good<
    S: TlsSession,
    Q: QuicServer<P>,
    A: Address,
    P: HandshakePoolAccess,
    const BUF: usize,
>(
    tls_config: ServerTlsConfig,
    config: ServerConfig,
    pool: P::V,
    calls: Seq<Call<A>>,
    more: Seq<Call<A>>,
    id: ConnId,
)
    ensures
        ({
            let (m, p) = run::<S, Q, A, P, BUF>(
                Mgr::<S::V, Q::V, A>::initial(tls_config, config),
                pool,
                calls,
            );
            &&& id.0 < m.next_id && reported_closed::<Q, S::V, A>(m, id) ==> reported_closed::<
                Q,
                S::V,
                A,
            >(run::<S, Q, A, P, BUF>(m, p, more).0, id)
            &&& id.0 >= m.next_id ==> reported_closed::<Q, S::V, A>(m, id)
        }),
{
    let (m, p) = run::<S, Q, A, P, BUF>(
        Mgr::<S::V, Q::V, A>::initial(tls_config, config),
        pool,
        calls,
    );
    laws::manager_is_always_sound::<S, Q, A, P, BUF>(tls_config, config, pool, calls);
    if id.0 >= m.next_id {
        reveal(laws::handles_below);
        lifecycle::tcp_found(m.tcp, id, 0);
        laws::quic_found(m.quic, id, 0);
    } else if reported_closed::<Q, S::V, A>(m, id) {
        reported_closed_for_good::<S, Q, A, P, BUF>(m, p, more, id);
    }
}

/// A handle is given out once: a connection that was not there before a call has one
/// that was not given out before it.
pub proof fn handles_are_given_out_once<
    S: TlsSession,
    Q: QuicServer<P>,
    A: Address,
    P: HandshakePoolAccess,
    const BUF: usize,
>(m: Mgr<S::V, Q::V, A>, pool: P::V, call: Call<A>, id: ConnId)
    requires
        sound(m),
    ensures
        ({
            let t = after::<S, Q, A, P, BUF>(m, pool, call).0;
            &&& m.next_id <= t.next_id
            &&& t.find_tcp(id) is Some && m.find_tcp(id) is None ==> m.next_id <= id.0
                < t.next_id
            &&& t.find_quic(id) is Some && m.find_quic(id) is None ==> m.next_id <= id.0
                < t.next_id
        }),
{
    let t = after::<S, Q, A, P, BUF>(m, pool, call).0;
    let es = raised::<S, Q, A, P, BUF>(m, pool, call);
    history::lemma_call_moves::<S, Q, A, P, BUF>(m, pool, call);
    laws::call_keeps_the_manager_sound::<S, Q, A, P, BUF>(m, pool, call);
    lifecycle::tcp_found(m.tcp, id, 0);
    lifecycle::tcp_found(t.tcp, id, 0);
    laws::quic_found(m.quic, id, 0);
    laws::quic_found(t.quic, id, 0);
    reveal(laws::handles_below);
    match t.find_tcp(id) {
        Some(j) => {
            reveal(history::tcp_moved);
            assert(t.tcp[j].id.0 < t.next_id);
            assert(history::grown(m.tcp, t.tcp[j], m.next_id, es));
        },
        None => {},
    }
    match t.find_quic(id) {
        Some(j) => {
            reveal(history::quic_moved);
            assert(t.quic[j].id.0 < t.next_id);
        },
        None => {},
    }
}

} // verus!
