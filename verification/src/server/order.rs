//! In which order the manager hands out events.

use vstd::prelude::*;

use super::conn;
use super::conn::{EstModel, EstablishedConn, StateModel};
use super::history;
use super::history::{conn_of, delivered, has_quic, log, nothing_lost, raised};
use super::laws;
use super::laws::{after, run, sound, Call};
use super::lifecycle;
use super::manager::{Mgr, ServerManager};
use super::{ConnId, ServerConfig, ServerEvent};
use crate::h2::connection::H2Event;
use crate::h2_tls;
use crate::http::server_conn::{HttpEvent, HttpServerConn};
use crate::http1::connection::Http1Event;
use crate::http1::server;
use crate::quic::{HandshakePoolAccess, QuicServer};
use crate::tls::{ServerTlsConfig, TlsSession};
use crate::transport::Address;

verus! {

// ---------------------------------------------------------------------------
// Connected first, closed last
// ---------------------------------------------------------------------------

/// The handle was one of a connection over TCP, now or after an earlier call.
pub open spec fn over_tcp<
    S: TlsSession,
    Q: QuicServer<P>,
    A: Address,
    P: HandshakePoolAccess,
    const BUF: usize,
>(m: Mgr<S::V, Q::V, A>, pool: P::V, calls: Seq<Call<A>>, id: ConnId) -> bool
    decreases calls.len(),
{
    ||| run::<S, Q, A, P, BUF>(m, pool, calls).0.find_tcp(id) is Some
    ||| calls.len() > 0 && over_tcp::<S, Q, A, P, BUF>(m, pool, calls.drop_last(), id)
}

/// That a connection is connected was said before event `k` of it.
pub open spec fn connected_before(es: Seq<ServerEvent>, k: int) -> bool {
    exists|l: int| 0 <= l < k && #[trigger] es[l] == ServerEvent::Connected(conn_of(es[k]))
}

/// A handle of a connection over TCP is none of a QUIC connection.
proof fn lemma_over_tcp<
    S: TlsSession,
    Q: QuicServer<P>,
    A: Address,
    P: HandshakePoolAccess,
    const BUF: usize,
>(
    tls_config: ServerTlsConfig,
    config: ServerConfig,
    pool: P::V,
    calls: Seq<Call<A>>,
    id: ConnId,
)
    requires
        over_tcp::<S, Q, A, P, BUF>(
            Mgr::<S::V, Q::V, A>::initial(tls_config, config),
            pool,
            calls,
            id,
        ),
    ensures
        ({
            let t = run::<S, Q, A, P, BUF>(
                Mgr::<S::V, Q::V, A>::initial(tls_config, config),
                pool,
                calls,
            ).0;
            id.0 < t.next_id && !has_quic(t.quic, id)
        }),
    decreases calls.len(),
{
    let m = Mgr::<S::V, Q::V, A>::initial(tls_config, config);
    let u = run::<S, Q, A, P, BUF>(m, pool, calls).0;
    laws::manager_is_always_sound::<S, Q, A, P, BUF>(tls_config, config, pool, calls);
    if u.find_tcp(id) is Some {
        lifecycle::tcp_found(u.tcp, id, 0);
        let i = u.find_tcp(id)->0;
        reveal(laws::handles_below);
        reveal(laws::kinds_distinct);
        assert(u.tcp[i].id == id);
        if has_quic(u.quic, id) {
            let j = choose|j: int| 0 <= j < u.quic.len() && (#[trigger] u.quic[j]).id == id;
            assert(u.tcp[i].id != u.quic[j].id);
        }
    } else {
        lemma_over_tcp::<S, Q, A, P, BUF>(tls_config, config, pool, calls.drop_last(), id);
        let (t, p) = run::<S, Q, A, P, BUF>(m, pool, calls.drop_last());
        laws::manager_is_always_sound::<S, Q, A, P, BUF>(
            tls_config,
            config,
            pool,
            calls.drop_last(),
        );
        history::lemma_call_moves::<S, Q, A, P, BUF>(t, p, calls.last());
        reveal(history::quic_moved);
        if has_quic(u.quic, id) {
            let j = choose|j: int| 0 <= j < u.quic.len() && (#[trigger] u.quic[j]).id == id;
            assert(has_quic(t.quic, u.quic[j].id));
        }
    }
}

/// A handle that a connection over TCP has, and that was given out before the last
/// call, was one over TCP then.
proof fn lemma_was_over_tcp<
    S: TlsSession,
    Q: QuicServer<P>,
    A: Address,
    P: HandshakePoolAccess,
    const BUF: usize,
>(
    tls_config: ServerTlsConfig,
    config: ServerConfig,
    pool: P::V,
    calls: Seq<Call<A>>,
    id: ConnId,
)
    requires
        calls.len() > 0,
        over_tcp::<S, Q, A, P, BUF>(
            Mgr::<S::V, Q::V, A>::initial(tls_config, config),
            pool,
            calls,
            id,
        ),
        id.0 < run::<S, Q, A, P, BUF>(
            Mgr::<S::V, Q::V, A>::initial(tls_config, config),
            pool,
            calls.drop_last(),
        ).0.next_id,
    ensures
        over_tcp::<S, Q, A, P, BUF>(
            Mgr::<S::V, Q::V, A>::initial(tls_config, config),
            pool,
            calls.drop_last(),
            id,
        ),
{
    let m = Mgr::<S::V, Q::V, A>::initial(tls_config, config);
    let u = run::<S, Q, A, P, BUF>(m, pool, calls).0;
    let (t, p) = run::<S, Q, A, P, BUF>(m, pool, calls.drop_last());
    if !over_tcp::<S, Q, A, P, BUF>(m, pool, calls.drop_last(), id) {
        laws::manager_is_always_sound::<S, Q, A, P, BUF>(
            tls_config,
            config,
            pool,
            calls.drop_last(),
        );
        history::lemma_call_moves::<S, Q, A, P, BUF>(t, p, calls.last());
        lifecycle::tcp_found(u.tcp, id, 0);
        lifecycle::tcp_found(t.tcp, id, 0);
        reveal(history::tcp_moved);
        let es = raised::<S, Q, A, P, BUF>(t, p, calls.last());
        let c = u.tcp[u.find_tcp(id)->0];
        assert(history::grown(t.tcp, c, t.next_id, es));
        let i = choose|i: int| #[trigger] history::was_there(t.tcp, c, es, i);
        assert(history::was_there(t.tcp, c, es, i));
        assert(t.tcp[i].id == id);
    }
}

/// HTTP events of a connection over TCP come only after it was said to be
/// connected, in whatever order a manager is called.
pub proof fn connected_comes_first<
    S: TlsSession,
    Q: QuicServer<P>,
    A: Address,
    P: HandshakePoolAccess,
    const BUF: usize,
>(
    tls_config: ServerTlsConfig,
    config: ServerConfig,
    pool: P::V,
    calls: Seq<Call<A>>,
    k: int,
)
    requires
        ({
            let m = Mgr::<S::V, Q::V, A>::initial(tls_config, config);
            let es = log::<S, Q, A, P, BUF>(m, pool, calls);
            &&& 0 <= k < es.len() && es[k] is Http
            &&& over_tcp::<S, Q, A, P, BUF>(m, pool, calls, conn_of(es[k]))
        }),
    ensures
        connected_before(
            log::<S, Q, A, P, BUF>(
                Mgr::<S::V, Q::V, A>::initial(tls_config, config),
                pool,
                calls,
            ),
            k,
        ),
    decreases calls.len(),
{
    let m = Mgr::<S::V, Q::V, A>::initial(tls_config, config);
    let es = log::<S, Q, A, P, BUF>(m, pool, calls);
    let id = conn_of(es[k]);
    let init = calls.drop_last();
    let (t, p) = run::<S, Q, A, P, BUF>(m, pool, init);
    let fs = log::<S, Q, A, P, BUF>(m, pool, init);
    let gs = raised::<S, Q, A, P, BUF>(t, p, calls.last());
    assert(es == fs + gs);
    history::lemma_told::<S, Q, A, P, BUF>(tls_config, config, pool, init);
    reveal(history::told);
    if k < fs.len() {
        assert(es[k] == fs[k]);
        assert(conn_of(fs[k]).0 < t.next_id);
        lemma_was_over_tcp::<S, Q, A, P, BUF>(tls_config, config, pool, calls, id);
        connected_comes_first::<S, Q, A, P, BUF>(tls_config, config, pool, init, k);
        let l = choose|l: int| 0 <= l < k && #[trigger] fs[l] == ServerEvent::Connected(id);
        assert(es[l] == ServerEvent::Connected(id));
    } else {
        assert(es[k] == gs[k - fs.len()]);
        history::lemma_http_source::<S, Q, A, P, BUF>(t, p, calls.last(), k - fs.len());
        if !history::serves(t, id) {
            reveal(laws::handles_below);
            let j = choose|j: int| 0 <= j < t.quic.len() && (#[trigger] t.quic[j]).id == id;
            assert(t.quic[j].id.0 < t.next_id);
            lemma_was_over_tcp::<S, Q, A, P, BUF>(tls_config, config, pool, calls, id);
            lemma_over_tcp::<S, Q, A, P, BUF>(tls_config, config, pool, init, id);
        }
        history::lemma_serving_was_told::<S, Q, A, P, BUF>(tls_config, config, pool, init, id);
        let l = choose|l: int| 0 <= l < fs.len() && fs[l] == ServerEvent::Connected(id);
        assert(es[l] == ServerEvent::Connected(id));
    }
}

/// What the application is handed, over any number of calls, where the queue has
/// room for all that is queued: that a connection is closed comes once, and no
/// event of it comes after that; HTTP events of a connection over TCP come after
/// the event that it is connected; and events come in the order in which they were
/// raised.
pub proof fn events_come_in_order<
    S: TlsSession,
    Q: QuicServer<P>,
    A: Address,
    P: HandshakePoolAccess,
    const BUF: usize,
>(tls_config: ServerTlsConfig, config: ServerConfig, pool: P::V, calls: Seq<Call<A>>)
    requires
        nothing_lost::<S, Q, A, P, BUF>(
            Mgr::<S::V, Q::V, A>::initial(tls_config, config),
            pool,
            calls,
        ),
    ensures
        ({
            let m = Mgr::<S::V, Q::V, A>::initial(tls_config, config);
            let es = delivered::<S, Q, A, P, BUF>(m, pool, calls);
            &&& forall|k: int, l: int|
                0 <= k < l < es.len() && (#[trigger] es[k]) is Closed ==> conn_of(
                    #[trigger] es[l],
                ) != conn_of(es[k])
            &&& forall|k: int|
                0 <= k < es.len() && (#[trigger] es[k]) is Http && over_tcp::<S, Q, A, P, BUF>(
                    m,
                    pool,
                    calls,
                    conn_of(es[k]),
                ) ==> connected_before(es, k)
            &&& es + run::<S, Q, A, P, BUF>(m, pool, calls).0.events == log::<S, Q, A, P, BUF>(
                m,
                pool,
                calls,
            )
        }),
{
    let m = Mgr::<S::V, Q::V, A>::initial(tls_config, config);
    let es = delivered::<S, Q, A, P, BUF>(m, pool, calls);
    let all = log::<S, Q, A, P, BUF>(m, pool, calls);
    history::events_are_handed_out_in_order::<S, Q, A, P, BUF>(tls_config, config, pool, calls);
    assert forall|k: int| 0 <= k < es.len() implies #[trigger] es[k] == all[k] by {}
    assert forall|k: int, l: int|
        0 <= k < l < es.len() && (#[trigger] es[k]) is Closed implies conn_of(#[trigger] es[l])
        != conn_of(es[k]) by {
        history::closed_comes_last::<S, Q, A, P, BUF>(tls_config, config, pool, calls, k, l);
    }
    assert forall|k: int|
        0 <= k < es.len() && (#[trigger] es[k]) is Http && over_tcp::<S, Q, A, P, BUF>(
            m,
            pool,
            calls,
            conn_of(es[k]),
        ) implies connected_before(es, k) by {
        connected_comes_first::<S, Q, A, P, BUF>(tls_config, config, pool, calls, k);
        let l = choose|l: int|
            0 <= l < k && #[trigger] all[l] == ServerEvent::Connected(conn_of(all[k]));
        assert(es[l] == all[l]);
    }
}

// ---------------------------------------------------------------------------
// Queued events, and those of the HTTP connections
// ---------------------------------------------------------------------------

/// Events that are queued come first: while there are any, the oldest is handed
/// out, and no connection is polled.
pub proof fn queued_events_come_first<
    S: TlsSession,
    Q: HttpServerConn,
    A: Address,
    const BUF: usize,
>(m: Mgr<S::V, Q::V, A>)
    requires
        m.events.len() > 0,
    ensures
        ServerManager::<S, Q, A, BUF>::event_polled(m) == (
            Mgr { events: m.events.skip(1), ..m },
            Some(m.events[0]),
        ),
{
}

/// The events that an HTTP connection over TCP has raised and not handed out, the
/// oldest first.
pub open spec fn http_queue<TV>(e: EstModel<TV>) -> Seq<HttpEvent> {
    match e {
        EstModel::Plain(s) => s.c.events.map_values(|x: Http1Event| server::unified_event(x)),
        EstModel::Https1(s) => s.http.events.map_values(|x: Http1Event| server::unified_event(x)),
        EstModel::H2(s) => s.http.events.map_values(|x: H2Event| h2_tls::unified_event(x)),
    }
}

/// The HTTP events of one connection.
pub open spec fn http_of(es: Seq<ServerEvent>, id: ConnId) -> Seq<HttpEvent>
    decreases es.len(),
{
    if es.len() == 0 {
        Seq::empty()
    } else {
        let before = http_of(es.drop_last(), id);
        match es.last() {
            ServerEvent::Http { conn, event } if conn == id => before.push(event),
            _ => before,
        }
    }
}

proof fn lemma_queue_polled<S: TlsSession, const BUF: usize>(e: EstModel<S::V>)
    ensures
        match EstablishedConn::<S, BUF>::event_polled(e) {
            (f, Some(x)) => http_queue(e).len() > 0 && x == http_queue(e)[0] && http_queue(f)
                == http_queue(e).skip(1),
            (f, None) => f == e && http_queue(e).len() == 0,
        },
{
    let f = EstablishedConn::<S, BUF>::event_polled(e).0;
    if http_queue(e).len() > 0 {
        assert(http_queue(f) =~= http_queue(e).skip(1));
    }
}

proof fn lemma_none_of(es: Seq<ServerEvent>, id: ConnId)
    requires
        forall|k: int| 0 <= k < es.len() ==> !((#[trigger] es[k]) is Http && conn_of(es[k]) == id),
    ensures
        http_of(es, id) == Seq::<HttpEvent>::empty(),
    decreases es.len(),
{
    if es.len() > 0 {
        assert(!(es[es.len() - 1] is Http && conn_of(es[es.len() - 1]) == id));
        assert forall|k: int| 0 <= k < es.drop_last().len() implies !((#[trigger] es.drop_last()[k]) is Http
            && conn_of(es.drop_last()[k]) == id) by {
            assert(es.drop_last()[k] == es[k]);
        }
        lemma_none_of(es.drop_last(), id);
    }
}

/// All events of an HTTP connection are its queue, in order.
proof fn lemma_drained<S: TlsSession, const BUF: usize>(
    e: EstModel<S::V>,
    id: ConnId,
    acc: Seq<ServerEvent>,
)
    ensures
        http_of(conn::all_events::<S, BUF>(e, id, acc).1, id) == http_of(acc, id) + http_queue(e),
    decreases e.waiting(),
{
    conn::polling_takes_one::<S, BUF>(e);
    lemma_queue_polled::<S, BUF>(e);
    match EstablishedConn::<S, BUF>::event_polled(e) {
        (f, Some(x)) => {
            let more = acc.push(ServerEvent::Http { conn: id, event: x });
            lemma_drained::<S, BUF>(f, id, more);
            assert(more.drop_last() =~= acc);
            assert(http_of(acc, id).push(x) + http_queue(f) =~= http_of(acc, id) + http_queue(e));
        },
        (f, None) => {
            assert(http_of(acc, id) + http_queue(e) =~= http_of(acc, id));
        },
    }
}

/// Looking at the TCP connections from `k` on takes at most the first event of
/// the connection at `i`, and one that is not looked at, or has no event, keeps its
/// events.
proof fn lemma_scan_takes<S: TlsSession, Q: HttpServerConn, A: Address, const BUF: usize>(
    m: Mgr<S::V, Q::V, A>,
    k: int,
    i: int,
)
    requires
        0 <= k,
        0 <= i < m.tcp.len(),
        m.tcp[i].state is Established,
        forall|j: int| 0 <= j < m.tcp.len() && j != i ==> (#[trigger] m.tcp[j]).id != m.tcp[i].id,
    ensures
        ({
            let (t, e) = ServerManager::<S, Q, A, BUF>::tcp_scanned(m, k);
            let q = http_queue(m.tcp[i].state->Established_0);
            let taken = http_of(history::listed(e), m.tcp[i].id);
            &&& t.tcp.len() == m.tcp.len()
            &&& t.tcp[i].id == m.tcp[i].id
            &&& taken.len() <= q.len()
            &&& taken == q.take(taken.len() as int)
            &&& match t.tcp[i].state {
                StateModel::Established(f) => http_queue(f) == q.skip(taken.len() as int),
                _ => q.len() == 0,
            }
            &&& e is None && k <= i ==> q.len() == 0
        }),
    decreases m.tcp.len() - k,
{
    let id = m.tcp[i].id;
    let q = http_queue(m.tcp[i].state->Established_0);
    reveal_with_fuel(http_of, 2);
    assert(q.take(0) =~= Seq::<HttpEvent>::empty());
    assert(q.skip(0) =~= q);
    if k < m.tcp.len() {
        let (t, e) = ServerManager::<S, Q, A, BUF>::tcp_conn_polled(m, k);
        if k == i {
            lemma_queue_polled::<S, BUF>(m.tcp[i].state->Established_0);
            if q.len() > 0 {
                assert(q.take(1) =~= Seq::<HttpEvent>::empty().push(q[0]));
                assert(history::listed(e).drop_last() =~= Seq::<ServerEvent>::empty());
            } else {
                assert(q.skip(0) =~= q);
                if e is None {
                    lemma_scan_takes::<S, Q, A, BUF>(t, k + 1, i);
                }
            }
        } else {
            assert(m.tcp[k].id != id);
            assert(t.tcp[i] == m.tcp[i]);
            if e is None {
                assert forall|j: int| 0 <= j < t.tcp.len() && j != i implies (#[trigger] t.tcp[j]).id
                    != id by {
                    assert(m.tcp[j].id != id);
                }
                lemma_scan_takes::<S, Q, A, BUF>(t, k + 1, i);
            } else {
                lemma_none_of(history::listed(e), id);
            }
        }
    }
}

/// The HTTP events of a connection over TCP come in the order in which its HTTP
/// connection raised them: whatever a call hands out or queues of them is what was
/// raised first and not handed out yet, and it is taken from there. When the peer
/// ends its stream all of them are taken. Where the application is told that there
/// are no more events, the connection has none.
pub proof fn http_events_come_in_order<
    S: TlsSession,
    Q: QuicServer<P>,
    A: Address,
    P: HandshakePoolAccess,
    const BUF: usize,
>(m: Mgr<S::V, Q::V, A>, pool: P::V, call: Call<A>, i: int)
    requires
        sound(m),
        0 <= i < m.tcp.len(),
        m.tcp[i].state is Established,
    ensures
        ({
            let id = m.tcp[i].id;
            let q = http_queue(m.tcp[i].state->Established_0);
            let t = after::<S, Q, A, P, BUF>(m, pool, call).0;
            let taken = http_of(raised::<S, Q, A, P, BUF>(m, pool, call), id);
            &&& taken.len() <= q.len()
            &&& taken == q.take(taken.len() as int)
            &&& call is PollEvent && history::delivery::<S, Q, A, BUF>(m, call) is Some ==> {
                &&& t.tcp.len() == m.tcp.len()
                &&& t.tcp[i].id == id
                &&& match t.tcp[i].state {
                    StateModel::Established(f) => http_queue(f) == q.skip(taken.len() as int),
                    _ => q.len() == 0,
                }
            }
            &&& call is PollEvent && history::delivery::<S, Q, A, BUF>(m, call) is None ==> q.len()
                == 0
            &&& call == Call::<A>::TcpEof(id) ==> taken == q
            &&& !(call is PollEvent) && call != Call::<A>::TcpEof(id) ==> taken.len() == 0
        }),
{
    let id = m.tcp[i].id;
    let e = m.tcp[i].state->Established_0;
    let q = http_queue(e);
    let es = raised::<S, Q, A, P, BUF>(m, pool, call);
    assert(q.take(0) =~= Seq::<HttpEvent>::empty());
    assert(q.skip(0) =~= q);
    assert forall|j: int| 0 <= j < m.tcp.len() && j != i implies (#[trigger] m.tcp[j]).id != id by {
        reveal(laws::tcp_distinct);
        if i < j {
            assert(m.tcp[i].id != m.tcp[j].id);
        } else {
            assert(m.tcp[j].id != m.tcp[i].id);
        }
    }
    match call {
        Call::PollEvent => {
            lemma_scan_takes::<S, Q, A, BUF>(m, 0, i);
            lemma_poll_takes::<S, Q, A, BUF>(m, i);
        },
        Call::TcpEof(x) => {
            lifecycle::tcp_found(m.tcp, x, 0);
            lemma_end_takes::<S, Q, A, BUF>(m, x, i);
        },
        Call::TcpFeed(x, data, _) => {
            lemma_none_of(es, id);
        },
        Call::HandleTimeouts(now) => {
            history::lemma_only_closings::<S, Q, A, BUF>(m, 0, now);
            history::lemma_only_closings_quic::<S, Q, A, P, BUF>(
                ServerManager::<S, Q, A, BUF>::tcp_timed_from(m, 0, now),
                0,
                now,
                pool,
            );
            lemma_none_of(es, id);
        },
        Call::UdpFeed(_, _, now, _) => {
            history::lemma_only_closings_quic::<S, Q, A, P, BUF>(m, 0, now, pool);
            lemma_none_of(es, id);
        },
        _ => {
            lemma_none_of(es, id);
        },
    }
}

proof fn lemma_poll_takes<S: TlsSession, Q: HttpServerConn, A: Address, const BUF: usize>(
    m: Mgr<S::V, Q::V, A>,
    i: int,
)
    requires
        sound(m),
        0 <= i < m.tcp.len(),
        m.tcp[i].state is Established,
    ensures
        ({
            let (t, e) = ServerManager::<S, Q, A, BUF>::tcp_scanned(m, 0);
            let (u, f) = ServerManager::<S, Q, A, BUF>::quic_scanned(t, 0);
            u.tcp == t.tcp && (e is None ==> http_of(history::listed(f), m.tcp[i].id) == Seq::<
                HttpEvent,
            >::empty())
        }),
{
    let t = ServerManager::<S, Q, A, BUF>::tcp_scanned(m, 0).0;
    let f = ServerManager::<S, Q, A, BUF>::quic_scanned(t, 0).1;
    history::lemma_scan_source::<S, Q, A, BUF>(m, 0);
    history::lemma_quic_scan_source::<S, Q, A, BUF>(t, 0);
    lemma_quic_scan_leaves::<S, Q, A, BUF>(t, 0);
    reveal(laws::kinds_distinct);
    assert forall|j: int| 0 <= j < m.quic.len() implies (#[trigger] m.quic[j]).id != m.tcp[i].id by {
        assert(m.tcp[i].id != m.quic[j].id);
    }
    lemma_none_of(history::listed(f), m.tcp[i].id);
}

proof fn lemma_quic_scan_leaves<S: TlsSession, Q: HttpServerConn, A: Address, const BUF: usize>(
    m: Mgr<S::V, Q::V, A>,
    i: int,
)
    ensures
        ServerManager::<S, Q, A, BUF>::quic_scanned(m, i).0.tcp == m.tcp,
    decreases m.quic.len() - i,
{
    if 0 <= i < m.quic.len() {
        let s = Q::event_polled(m.quic[i].server).0;
        lemma_quic_scan_leaves::<S, Q, A, BUF>(m.with_quic(i, s), i + 1);
    }
}

proof fn lemma_end_takes<S: TlsSession, Q: HttpServerConn, A: Address, const BUF: usize>(
    m: Mgr<S::V, Q::V, A>,
    x: ConnId,
    i: int,
)
    requires
        0 <= i < m.tcp.len(),
        m.tcp[i].state is Established,
        forall|j: int| 0 <= j < m.tcp.len() && j != i ==> (#[trigger] m.tcp[j]).id != m.tcp[i].id,
    ensures
        http_of(history::end_events::<S, Q, A, BUF>(m, x), m.tcp[i].id) == if x == m.tcp[i].id {
            http_queue(m.tcp[i].state->Established_0)
        } else {
            Seq::empty()
        },
{
    let id = m.tcp[i].id;
    let es = history::end_events::<S, Q, A, BUF>(m, x);
    lifecycle::tcp_found(m.tcp, x, 0);
    match m.find_tcp(x) {
        Some(j) => {
            if x == id {
                assert(j == i);
            }
            match m.tcp[j].state {
                StateModel::Established(e) => {
                    let all = conn::all_events::<S, BUF>(e, x, Seq::empty()).1;
                    history::lemma_drained_of_one::<S, BUF>(e, x, Seq::empty());
                    if x == id {
                        lemma_drained::<S, BUF>(e, x, Seq::empty());
                        assert(es.drop_last() =~= all);
                        assert(Seq::<HttpEvent>::empty() + http_queue(e) =~= http_queue(e));
                    } else {
                        assert forall|k: int| 0 <= k < es.len() implies !((#[trigger] es[k]) is Http
                            && conn_of(es[k]) == id) by {
                            if k < all.len() {
                                assert(es[k] == all[k]);
                            }
                        }
                        lemma_none_of(es, id);
                    }
                },
                _ => {
                    lemma_none_of(es, id);
                },
            }
        },
        None => {
            lemma_none_of(es, id);
        },
    }
}

} // verus!
