//! How many connections the manager has, and how dead ones leave it.

use vstd::prelude::*;

use super::conn;
use super::conn::{EstablishedConn, StateModel};
use super::history;
use super::history::{delivery, raised};
use super::laws;
use super::laws::{after, run, sound, Call};
use super::manager;
use super::manager::{Mgr, QuicModel, ServerManager};
use super::timers::{dies, timed};
use super::{ServerConfig, ServerEvent};
use crate::http::server_conn::HttpServerConn;
use crate::quic::{HandshakePoolAccess, QuicServer};
use crate::tls::{ServerTlsConfig, TlsSession};
use crate::transport::Address;

verus! {

// ---------------------------------------------------------------------------
// Dead QUIC connections
// ---------------------------------------------------------------------------

/// The QUIC connections that are dead once their timers have run.
pub open spec fn dead<Q: HttpServerConn, A>(
    config: ServerConfig,
    qs: Seq<QuicModel<Q::V, A>>,
    now: u64,
) -> Seq<QuicModel<Q::V, A>>
    decreases qs.len(),
{
    if qs.len() == 0 {
        Seq::empty()
    } else {
        (if dies::<Q, A>(config, qs[0], now) {
            seq![qs[0]]
        } else {
            Seq::empty()
        }) + dead::<Q, A>(config, qs.skip(1), now)
    }
}

/// The other ones, after their timers have run.
pub open spec fn spared<Q: HttpServerConn, A>(
    config: ServerConfig,
    qs: Seq<QuicModel<Q::V, A>>,
    now: u64,
) -> Seq<QuicModel<Q::V, A>>
    decreases qs.len(),
{
    if qs.len() == 0 {
        Seq::empty()
    } else {
        (if dies::<Q, A>(config, qs[0], now) {
            Seq::empty()
        } else {
            seq![timed::<Q, A>(qs[0], now)]
        }) + spared::<Q, A>(config, qs.skip(1), now)
    }
}

/// One event for each connection, that it is closed.
pub open spec fn closings<QV, A>(qs: Seq<QuicModel<QV, A>>) -> Seq<ServerEvent> {
    qs.map_values(|c: QuicModel<QV, A>| ServerEvent::Closed(c.id))
}

/// The handshake slots after each of these connections, in order, has given its
/// own back.
pub open spec fn slots_after<Q: QuicServer<P>, A, P: HandshakePoolAccess>(
    qs: Seq<QuicModel<Q::V, A>>,
    now: u64,
    pool: P::V,
) -> P::V
    decreases qs.len(),
{
    if qs.len() == 0 {
        pool
    } else {
        slots_after::<Q, A, P>(
            qs.skip(1),
            now,
            <Q as QuicServer<P>>::slot_released(Q::timed_out(qs[0].server, now), pool).1,
        )
    }
}

proof fn lemma_pushed_first<TV, QV, A>(m: Mgr<TV, QV, A>, e: ServerEvent, es: Seq<ServerEvent>)
    ensures
        m.pushed(e).pushed_all(es) == m.pushed_all(seq![e] + es),
    decreases es.len(),
{
    let all = seq![e] + es;
    if es.len() == 0 {
        assert(all =~= seq![e]);
        assert(all.drop_last() =~= Seq::<ServerEvent>::empty());
        assert(m.pushed_all(Seq::<ServerEvent>::empty()) == m);
    } else {
        lemma_pushed_first(m, e, es.drop_last());
        assert(all.drop_last() =~= seq![e] + es.drop_last());
    }
}

proof fn lemma_pushed_beside<TV, QV, A>(
    m: Mgr<TV, QV, A>,
    es: Seq<ServerEvent>,
    qs: Seq<QuicModel<QV, A>>,
)
    ensures
        m.pushed_all(es).quic == m.quic,
        m.pushed_all(es).tcp == m.tcp,
        (Mgr { quic: qs, ..m.pushed_all(es) }) == (Mgr { quic: qs, ..m }).pushed_all(es),
    decreases es.len(),
{
    if es.len() > 0 {
        lemma_pushed_beside(m, es.drop_last(), qs);
    }
}

/// What becomes of the QUIC connections from `i` on when their timers run.
proof fn lemma_reaped<
    S: TlsSession,
    Q: QuicServer<P>,
    A: Address,
    P: HandshakePoolAccess,
    const BUF: usize,
>(m: Mgr<S::V, Q::V, A>, i: int, now: u64, pool: P::V)
    requires
        0 <= i <= m.quic.len(),
    ensures
        ({
            let (t, p) = ServerManager::<S, Q, A, BUF>::reaped_from::<P>(m, i, now, pool);
            let ds = dead::<Q, A>(m.config, m.quic.skip(i), now);
            &&& t == (Mgr {
                quic: m.quic.take(i) + spared::<Q, A>(m.config, m.quic.skip(i), now),
                ..m
            }).pushed_all(closings(ds))
            &&& p == slots_after::<Q, A, P>(ds, now, pool)
            &&& history::reap_events::<S, Q, A, P, BUF>(m, i, now, pool) == closings(ds)
        }),
    decreases m.quic.len() - i,
{
    let rest = m.quic.skip(i);
    let (t, p) = ServerManager::<S, Q, A, BUF>::reaped_from::<P>(m, i, now, pool);
    let ds = dead::<Q, A>(m.config, rest, now);
    if i == m.quic.len() {
        assert(rest =~= Seq::empty());
        assert(closings(ds) =~= Seq::empty());
        assert(m.quic.take(i) + spared::<Q, A>(m.config, rest, now) =~= m.quic);
    } else {
        let (u, q, gone) = ServerManager::<S, Q, A, BUF>::quic_timed::<P>(m, i, now, pool);
        let later = m.quic.skip(i + 1);
        assert(rest[0] == m.quic[i]);
        assert(rest.skip(1) =~= later);
        let ds1 = dead::<Q, A>(m.config, later, now);
        let ss1 = spared::<Q, A>(m.config, later, now);
        if gone {
            let c = ServerEvent::Closed(m.quic[i].id);
            let less = Mgr { quic: u.quic.remove(i), ..u };
            let v = less.pushed(c);
            lemma_reaped::<S, Q, A, P, BUF>(v, i, now, q);
            assert(v.quic.skip(i) =~= later);
            assert(v.quic.take(i) =~= m.quic.take(i));
            assert(ds == seq![m.quic[i]] + ds1);
            assert(closings(ds) =~= seq![c] + closings(ds1));
            assert(spared::<Q, A>(m.config, rest, now) =~= ss1);
            assert(ds[0] == m.quic[i]);
            assert(ds.skip(1) =~= ds1);
            let qs = m.quic.take(i) + ss1;
            let n = Mgr { quic: qs, ..m };
            assert(Mgr { quic: qs, ..v } == n.pushed(c));
            lemma_pushed_first(n, c, closings(ds1));
        } else {
            lemma_reaped::<S, Q, A, P, BUF>(u, i + 1, now, q);
            assert(u.quic.skip(i + 1) =~= later);
            assert(ds =~= ds1);
            let c = timed::<Q, A>(m.quic[i], now);
            assert(u.quic.take(i + 1) =~= m.quic.take(i).push(c));
            assert(spared::<Q, A>(m.config, rest, now) == seq![c] + ss1);
            assert(m.quic.take(i).push(c) + ss1 =~= m.quic.take(i) + (seq![c] + ss1));
        }
    }
}

/// When the timers of the QUIC connections run, those that are closed, or whose
/// handshake is not over by its deadline, are removed, each once it has given its
/// handshake slot back, and with one event that says so. The others stay, in order.
pub proof fn dead_connections_are_removed<
    S: TlsSession,
    Q: QuicServer<P>,
    A: Address,
    P: HandshakePoolAccess,
    const BUF: usize,
>(m: Mgr<S::V, Q::V, A>, now: u64, pool: P::V)
    ensures
        ({
            let (t, p) = ServerManager::<S, Q, A, BUF>::reaped_from::<P>(m, 0, now, pool);
            let ds = dead::<Q, A>(m.config, m.quic, now);
            &&& t == (Mgr {
                quic: spared::<Q, A>(m.config, m.quic, now),
                ..m
            }).pushed_all(closings(ds))
            &&& t.quic == spared::<Q, A>(m.config, m.quic, now)
            &&& t.tcp == m.tcp
            &&& t.quic.len() + ds.len() == m.quic.len()
            &&& p == slots_after::<Q, A, P>(ds, now, pool)
            &&& history::reap_events::<S, Q, A, P, BUF>(m, 0, now, pool) == closings(ds)
        }),
{
    lemma_reaped::<S, Q, A, P, BUF>(m, 0, now, pool);
    let ss = spared::<Q, A>(m.config, m.quic, now);
    let ds = dead::<Q, A>(m.config, m.quic, now);
    assert(m.quic.skip(0) =~= m.quic);
    assert(m.quic.take(0) + ss =~= ss);
    lemma_pushed_beside(Mgr { quic: ss, ..m }, closings(ds), ss);
    lemma_parted::<Q, A>(m.config, m.quic, now);
}

proof fn lemma_parted<Q: HttpServerConn, A>(
    config: ServerConfig,
    qs: Seq<QuicModel<Q::V, A>>,
    now: u64,
)
    ensures
        spared::<Q, A>(config, qs, now).len() + dead::<Q, A>(config, qs, now).len() == qs.len(),
    decreases qs.len(),
{
    if qs.len() > 0 {
        lemma_parted::<Q, A>(config, qs.skip(1), now);
    }
}

// ---------------------------------------------------------------------------
// The numbers of connections
// ---------------------------------------------------------------------------

/// A manager has the configuration that it was made with.
proof fn lemma_config<
    S: TlsSession,
    Q: QuicServer<P>,
    A: Address,
    P: HandshakePoolAccess,
    const BUF: usize,
>(tls_config: ServerTlsConfig, config: ServerConfig, pool: P::V, calls: Seq<Call<A>>)
    ensures
        ({
            let m = Mgr::<S::V, Q::V, A>::initial(tls_config, config);
            run::<S, Q, A, P, BUF>(m, pool, calls).0.config == config
        }),
    decreases calls.len(),
{
    if calls.len() > 0 {
        let init = calls.drop_last();
        lemma_config::<S, Q, A, P, BUF>(tls_config, config, pool, init);
        laws::manager_is_always_sound::<S, Q, A, P, BUF>(tls_config, config, pool, init);
        let m = Mgr::<S::V, Q::V, A>::initial(tls_config, config);
        let (t, p) = run::<S, Q, A, P, BUF>(m, pool, init);
        laws::call_keeps_the_manager_sound::<S, Q, A, P, BUF>(t, p, calls.last());
    }
}

/// TCP connections that have no event are as they were before they were polled.
proof fn lemma_nothing_polled<S: TlsSession, Q: HttpServerConn, A: Address, const BUF: usize>(
    m: Mgr<S::V, Q::V, A>,
    i: int,
)
    requires
        0 <= i,
    ensures
        ServerManager::<S, Q, A, BUF>::tcp_scanned(m, i).1 is None ==> ServerManager::<
            S,
            Q,
            A,
            BUF,
        >::tcp_scanned(m, i).0 == m,
    decreases m.tcp.len() - i,
{
    if i < m.tcp.len() {
        let (t, e) = ServerManager::<S, Q, A, BUF>::tcp_conn_polled(m, i);
        if e is None {
            match m.tcp[i].state {
                StateModel::Established(x) => {
                    conn::polling_takes_one::<S, BUF>(x);
                    assert(EstablishedConn::<S, BUF>::event_polled(x).0 == x);
                    assert(t.tcp =~= m.tcp);
                },
                _ => {},
            }
            assert(t == m);
            lemma_nothing_polled::<S, Q, A, BUF>(m, i + 1);
        }
    }
}

/// In every state that a manager can come to it has no more TCP connections than it
/// may have. Their number grows by one when one is accepted, and only then. It
/// shrinks only when the application is told that there are no more events: the
/// connections that are closed are removed then, and no others.
pub proof fn tcp_connections_come_and_go<
    S: TlsSession,
    Q: QuicServer<P>,
    A: Address,
    P: HandshakePoolAccess,
    const BUF: usize,
>(
    tls_config: ServerTlsConfig,
    config: ServerConfig,
    pool: P::V,
    calls: Seq<Call<A>>,
    call: Call<A>,
)
    ensures
        ({
            let (m, p) = run::<S, Q, A, P, BUF>(
                Mgr::<S::V, Q::V, A>::initial(tls_config, config),
                pool,
                calls,
            );
            let t = after::<S, Q, A, P, BUF>(m, p, call).0;
            &&& m.tcp.len() <= config.max_tcp_conns
            &&& t.tcp.len() <= config.max_tcp_conns
            &&& match call {
                Call::AcceptTcp(secret, random, now) => match ServerManager::<
                    S,
                    Q,
                    A,
                    BUF,
                >::accepted(m, secret, random, now).1 {
                    Ok(_) => t.tcp.len() == m.tcp.len() + 1,
                    Err(_) => t.tcp == m.tcp,
                },
                Call::AcceptTcpCleartext(now) => match ServerManager::<
                    S,
                    Q,
                    A,
                    BUF,
                >::accepted_cleartext(m, now).1 {
                    Ok(_) => t.tcp.len() == m.tcp.len() + 1,
                    Err(_) => t.tcp == m.tcp,
                },
                Call::PollEvent => match delivery::<S, Q, A, BUF>(m, call) {
                    Some(_) => t.tcp.len() == m.tcp.len(),
                    None => t.tcp == manager::not_closed(m.tcp),
                },
                _ => t.tcp.len() == m.tcp.len(),
            }
        }),
{
    let start = Mgr::<S::V, Q::V, A>::initial(tls_config, config);
    let (m, p) = run::<S, Q, A, P, BUF>(start, pool, calls);
    laws::manager_is_always_sound::<S, Q, A, P, BUF>(tls_config, config, pool, calls);
    lemma_config::<S, Q, A, P, BUF>(tls_config, config, pool, calls);
    laws::call_keeps_the_manager_sound::<S, Q, A, P, BUF>(m, p, call);
    history::lemma_tcp_count::<S, Q, A, P, BUF>(m, p, call);
    lemma_nothing_polled::<S, Q, A, BUF>(m, 0);
}

/// The QUIC connections that a call removes.
pub open spec fn removed<S: TlsSession, Q: HttpServerConn, A: Address, const BUF: usize>(
    m: Mgr<S::V, Q::V, A>,
    call: Call<A>,
) -> Seq<QuicModel<Q::V, A>> {
    match call {
        Call::UdpFeed(data, _, now, _) if ServerManager::<S, Q, A, BUF>::route(m, data) is None
            && m.quic.len() >= m.config.max_quic_conns => dead::<Q, A>(m.config, m.quic, now),
        Call::HandleTimeouts(now) => dead::<Q, A>(m.config, m.quic, now),
        _ => Seq::empty(),
    }
}

/// Room for a QUIC connection is made by removing dead ones.
proof fn lemma_room_made<
    S: TlsSession,
    Q: QuicServer<P>,
    A: Address,
    P: HandshakePoolAccess,
    const BUF: usize,
>(m: Mgr<S::V, Q::V, A>, pool: P::V, data: Seq<u8>, from: A, now: u64, seed: Seq<u8>)
    ensures
        ({
            let call = Call::UdpFeed(data, from, now, seed);
            let gone = removed::<S, Q, A, BUF>(m, call);
            &&& raised::<S, Q, A, P, BUF>(m, pool, call) == closings(gone)
            &&& ServerManager::<S, Q, A, BUF>::route(m, data) is None ==> ServerManager::<
                S,
                Q,
                A,
                BUF,
            >::room_made::<P>(m, now, pool).1 == slots_after::<Q, A, P>(gone, now, pool)
        }),
{
    let gone = removed::<S, Q, A, BUF>(m, Call::UdpFeed(data, from, now, seed));
    dead_connections_are_removed::<S, Q, A, P, BUF>(m, now, pool);
    if gone.len() == 0 {
        assert(closings(gone) =~= Seq::<ServerEvent>::empty());
    }
}

/// When timers run, dead QUIC connections are removed.
proof fn lemma_time_passed<
    S: TlsSession,
    Q: QuicServer<P>,
    A: Address,
    P: HandshakePoolAccess,
    const BUF: usize,
>(m: Mgr<S::V, Q::V, A>, pool: P::V, now: u64)
    requires
        sound(m),
    ensures
        ({
            let call = Call::<A>::HandleTimeouts(now);
            let (t, q) = after::<S, Q, A, P, BUF>(m, pool, call);
            let gone = dead::<Q, A>(m.config, m.quic, now);
            &&& t.quic == spared::<Q, A>(m.config, m.quic, now)
            &&& t.quic.len() == m.quic.len() - gone.len()
            &&& raised::<S, Q, A, P, BUF>(m, pool, call) == history::time_events::<S, Q, A, BUF>(
                m,
                0,
                now,
            ) + closings(gone)
            &&& q == slots_after::<Q, A, P>(gone, now, pool)
        }),
{
    history::lemma_timed_moves::<S, Q, A, BUF>(m, 0, now);
    dead_connections_are_removed::<S, Q, A, P, BUF>(
        ServerManager::<S, Q, A, BUF>::tcp_timed_from(m, 0, now),
        now,
        pool,
    );
}

/// In every state that a manager can come to it has no more QUIC connections than
/// it may have. Their number grows by one when a datagram starts a connection, and
/// only then. It shrinks only by those that are dead, when timers run or when room
/// is needed for another: each of them has given its handshake slot back, and is
/// said to be closed in one event.
pub proof fn quic_connections_come_and_go<
    S: TlsSession,
    Q: QuicServer<P>,
    A: Address,
    P: HandshakePoolAccess,
    const BUF: usize,
>(
    tls_config: ServerTlsConfig,
    config: ServerConfig,
    pool: P::V,
    calls: Seq<Call<A>>,
    call: Call<A>,
)
    ensures
        ({
            let (m, p) = run::<S, Q, A, P, BUF>(
                Mgr::<S::V, Q::V, A>::initial(tls_config, config),
                pool,
                calls,
            );
            let (t, q) = after::<S, Q, A, P, BUF>(m, p, call);
            let gone = removed::<S, Q, A, BUF>(m, call);
            &&& m.quic.len() <= config.max_quic_conns
            &&& t.quic.len() <= config.max_quic_conns
            &&& match call {
                Call::UdpFeed(data, from, now, seed) => {
                    let r = ServerManager::<S, Q, A, BUF>::udp_fed::<P>(
                        m,
                        data,
                        from,
                        now,
                        seed,
                        p,
                    ).2;
                    let started = ServerManager::<S, Q, A, BUF>::route(m, data) is None && r is Ok;
                    &&& t.quic.len() == m.quic.len() - gone.len() + if started {
                        1int
                    } else {
                        0int
                    }
                    &&& raised::<S, Q, A, P, BUF>(m, p, call) == closings(gone)
                    &&& ServerManager::<S, Q, A, BUF>::route(m, data) is None ==> ServerManager::<
                        S,
                        Q,
                        A,
                        BUF,
                    >::room_made::<P>(m, now, p).1 == slots_after::<Q, A, P>(gone, now, p)
                },
                Call::HandleTimeouts(now) => {
                    &&& t.quic == spared::<Q, A>(config, m.quic, now)
                    &&& t.quic.len() == m.quic.len() - gone.len()
                    &&& raised::<S, Q, A, P, BUF>(m, p, call) == history::time_events::<
                        S,
                        Q,
                        A,
                        BUF,
                    >(m, 0, now) + closings(gone)
                    &&& q == slots_after::<Q, A, P>(gone, now, p)
                },
                _ => t.quic.len() == m.quic.len(),
            }
        }),
{
    let start = Mgr::<S::V, Q::V, A>::initial(tls_config, config);
    let (m, p) = run::<S, Q, A, P, BUF>(start, pool, calls);
    laws::manager_is_always_sound::<S, Q, A, P, BUF>(tls_config, config, pool, calls);
    lemma_config::<S, Q, A, P, BUF>(tls_config, config, pool, calls);
    laws::call_keeps_the_manager_sound::<S, Q, A, P, BUF>(m, p, call);
    history::lemma_quic_count::<S, Q, A, P, BUF>(m, p, call);
    match call {
        Call::UdpFeed(data, from, now, seed) => {
            lemma_room_made::<S, Q, A, P, BUF>(m, p, data, from, now, seed);
        },
        Call::HandleTimeouts(now) => {
            lemma_time_passed::<S, Q, A, P, BUF>(m, p, now);
        },
        _ => {},
    }
}

} // verus!
