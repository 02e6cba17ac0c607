//! What the sockets give reaches the manager, and what the manager gives reaches them.

use vstd::prelude::*;

use super::cycle;
use super::cycle::{ConnIo, Pass, Reading, Receiving, RunnerModel, Script, Sending, UdpIo};
use super::manager::{Mgr, ServerManager};
use super::ConnId;
use crate::http::server_conn::HttpServerConn;
use crate::quic::{HandshakePoolAccess, QuicServer};
use crate::tls::TlsSession;
use crate::transport::{Address, ReadOutcome, ReceiveOutcome, SendOutcome};

verus! {

// ---------------------------------------------------------------------------
// Datagrams that come
// ---------------------------------------------------------------------------

/// The manager after it was fed these datagrams, each with the address that it came
/// from, in order. Those that start a connection use these random bytes.
pub open spec fn fed_datagrams<
    S: TlsSession,
    Q: QuicServer<P>,
    A: Address,
    P: HandshakePoolAccess,
    const BUF: usize,
>(
    m: Mgr<S::V, Q::V, A>,
    pool: P::V,
    ds: Seq<(Seq<u8>, A)>,
    seeds: Seq<Seq<u8>>,
    now: u64,
) -> (Mgr<S::V, Q::V, A>, P::V)
    decreases ds.len(),
{
    if ds.len() == 0 {
        (m, pool)
    } else {
        let (t, p) = fed_datagrams::<S, Q, A, P, BUF>(
            m,
            pool,
            ds.drop_last(),
            seeds.drop_last(),
            now,
        );
        let (u, q, _) = ServerManager::<S, Q, A, BUF>::udp_fed::<P>(
            t,
            ds.last().0,
            ds.last().1,
            now,
            seeds.last(),
            p,
        );
        (u, q)
    }
}

/// The manager was fed the datagrams that came, and nothing else.
pub open spec fn datagrams_fed<
    S: TlsSession,
    Q: QuicServer<P>,
    A: Address,
    P: HandshakePoolAccess,
    const BUF: usize,
>(
    s: Receiving<S::V, Q::V, A, P::V>,
    r: Receiving<S::V, Q::V, A, P::V>,
    ds: Seq<(Seq<u8>, A)>,
    seeds: Seq<Seq<u8>>,
    now: u64,
) -> bool {
    &&& seeds.len() == ds.len()
    &&& r.udp.io.received == s.udp.io.received + ds
    &&& (r.m, r.pool) == fed_datagrams::<S, Q, A, P, BUF>(s.m, s.pool, ds, seeds, now)
}

/// The datagrams that a socket gave, from the answers to attempts to receive.
pub open spec fn datagrams_of<A>(os: Seq<ReceiveOutcome<A>>) -> Seq<(Seq<u8>, A)>
    decreases os.len(),
{
    if os.len() == 0 {
        Seq::empty()
    } else {
        let before = datagrams_of(os.drop_last());
        match os.last() {
            ReceiveOutcome::Datagram(d, from) => before.push((d, from)),
            _ => before,
        }
    }
}

proof fn lemma_datagrams_fed<
    S: TlsSession,
    Q: QuicServer<P>,
    A: Address,
    P: HandshakePoolAccess,
    const BUF: usize,
>(s: Receiving<S::V, Q::V, A, P::V>, os: Seq<(ReceiveOutcome<A>, Seq<u8>)>, now: u64) -> (r: (
    Seq<(Seq<u8>, A)>,
    Seq<Seq<u8>>,
    Seq<ReceiveOutcome<A>>,
))
    ensures
        ({
            let t = ServerManager::<S, Q, A, BUF>::receives::<P>(s, os, now);
            &&& datagrams_fed::<S, Q, A, P, BUF>(s, t, r.0, r.1, now)
            &&& t.udp.io.receives == s.udp.io.receives + r.2
            &&& r.0 == datagrams_of(r.2)
            &&& forall|k: int| 0 <= k < r.1.len() ==> exists|j: int|
                0 <= j < os.len() && (#[trigger] os[j]).1 == #[trigger] r.1[k]
        }),
    decreases os.len(),
{
    reveal(ServerManager::receive_step);
    let none = Seq::<(Seq<u8>, A)>::empty();
    if os.len() == 0 {
        assert(s.udp.io.received + none =~= s.udp.io.received);
        assert(s.udp.io.receives + Seq::<ReceiveOutcome<A>>::empty() =~= s.udp.io.receives);
        (none, Seq::empty(), Seq::empty())
    } else {
        let (ds, seeds, rs) = lemma_datagrams_fed::<S, Q, A, P, BUF>(s, os.drop_last(), now);
        let t = ServerManager::<S, Q, A, BUF>::receives::<P>(s, os.drop_last(), now);
        let (o, seed) = os.last();
        assert forall|k: int| 0 <= k < seeds.len() implies exists|j: int|
            0 <= j < os.len() && (#[trigger] os[j]).1 == #[trigger] seeds[k] by {
            let j = choose|j: int|
                0 <= j < os.drop_last().len() && (#[trigger] os.drop_last()[j]).1 == seeds[k];
            assert(os[j].1 == seeds[k]);
        }
        if t.going {
            assert(rs.push(o).drop_last() =~= rs);
            assert(s.udp.io.receives + rs.push(o) =~= (s.udp.io.receives + rs).push(o));
            match o {
                ReceiveOutcome::Datagram(d, from) => {
                    assert(ds.push((d, from)).drop_last() =~= ds);
                    assert(seeds.push(seed).drop_last() =~= seeds);
                    assert(s.udp.io.received + ds.push((d, from)) =~= (s.udp.io.received + ds).push(
                        (d, from),
                    ));
                    assert(os[os.len() - 1].1 == seed);
                    assert forall|k: int| 0 <= k < seeds.push(seed).len() implies exists|j: int|
                        0 <= j < os.len() && (#[trigger] os[j]).1 == #[trigger] seeds.push(
                            seed,
                        )[k] by {
                        if k < seeds.len() {
                            assert(seeds.push(seed)[k] == seeds[k]);
                        }
                    }
                    (ds.push((d, from)), seeds.push(seed), rs.push(o))
                },
                _ => (ds, seeds, rs.push(o)),
            }
        } else {
            (ds, seeds, rs)
        }
    }
}

/// The manager was fed these datagrams, its timers ran, and so many pulls took from it
/// what went to the socket behind the datagram that waited.
pub open spec fn carried<
    S: TlsSession,
    Q: QuicServer<P>,
    A: Address,
    P: HandshakePoolAccess,
    const BUF: usize,
>(
    s: RunnerModel<S::V, Q::V, A, P::V>,
    t: RunnerModel<S::V, Q::V, A, P::V>,
    ds: Seq<(Seq<u8>, A)>,
    seeds: Seq<Seq<u8>>,
    pulls: nat,
    now: u64,
) -> bool {
    let (m, p) = fed_datagrams::<S, Q, A, P, BUF>(s.mgr, s.pool, ds, seeds, now);
    let (u, q) = ServerManager::<S, Q, A, BUF>::reaped_from::<P>(
        ServerManager::<S, Q, A, BUF>::tcp_timed_from(m, 0, now),
        0,
        now,
        p,
    );
    let (v, w, out) = pulled_datagrams::<S, Q, A, P, BUF>(u, q, now, pulls);
    &&& seeds.len() == ds.len()
    &&& forall|k: int| 0 <= k < seeds.len() ==> (#[trigger] seeds[k]).len() == 32
    &&& t.mgr == v
    &&& t.pool == w
    &&& passed_on(waiting(s.udp) + out, sent_since(t.udp, s.udp) + waiting(t.udp))
}

/// In every cycle the manager is fed the datagrams that the socket gave in it, each of
/// them whole and with the address that it came from, in the order in which they came,
/// and no others; then its timers run; and then the datagrams that it gives go to the
/// socket, each of them whole and to the address of its peer, in order, behind one that
/// the socket did not take before.
pub proof fn datagrams_reach_the_manager<
    S: TlsSession,
    Q: QuicServer<P>,
    A: Address,
    P: HandshakePoolAccess,
    const BUF: usize,
>(s: RunnerModel<S::V, Q::V, A, P::V>, script: Script<A>, now: u64)
    requires
        ServerManager::<S, Q, A, BUF>::udp_cycle::<P>(s, script, now).2,
    ensures
        ({
            let t = ServerManager::<S, Q, A, BUF>::udp_cycle::<P>(s, script, now).0;
            let n = s.udp.io.received.len() as int;
            let ds = t.udp.io.received.skip(n);
            &&& t.udp.io.received.take(n) == s.udp.io.received
            &&& ds == datagrams_of(t.udp.io.receives.skip(s.udp.io.receives.len() as int))
            &&& exists|seeds: Seq<Seq<u8>>, pulls: nat| #[trigger]
                carried::<S, Q, A, P, BUF>(s, t, ds, seeds, pulls, now)
        }),
{
    let r0 = Receiving {
        m: s.mgr,
        pool: s.pool,
        udp: s.udp,
        drawn: s.drawn,
        done: 0,
        going: true,
    };
    let r = ServerManager::<S, Q, A, BUF>::receives::<P>(r0, script.datagrams, now);
    let (ds, seeds, rs) = lemma_datagrams_fed::<S, Q, A, P, BUF>(r0, script.datagrams, now);
    let (u, q) = ServerManager::<S, Q, A, BUF>::reaped_from::<P>(
        ServerManager::<S, Q, A, BUF>::tcp_timed_from(r.m, 0, now),
        0,
        now,
        r.pool,
    );
    lemma_receiving_keeps::<S, Q, A, P, BUF>(r0, script.datagrams, now);
    let start = Sending {
        m: u,
        pool: q,
        udp: r.udp,
        held: true,
        left: cycle::MAX_WRITES as int,
        going: true,
        more: false,
        ok: true,
    };
    let first = ServerManager::<S, Q, A, BUF>::loaded::<P>(start, now);
    let t = ServerManager::<S, Q, A, BUF>::sends::<P>(first, script.sends, now);
    let pulls = lemma_sent_all::<S, Q, A, P, BUF>(start, script.sends, now);
    lemma_sending_keeps::<S, Q, A, P, BUF>(first, script.sends, now);
    let n = s.udp.io.received.len() as int;
    assert(t.udp.io.received == s.udp.io.received + ds);
    assert((s.udp.io.received + ds).skip(n) =~= ds);
    assert((s.udp.io.received + ds).take(n) =~= s.udp.io.received);
    assert((s.udp.io.receives + rs).skip(s.udp.io.receives.len() as int) =~= rs);
    assert forall|k: int| 0 <= k < seeds.len() implies (#[trigger] seeds[k]).len() == 32 by {
        let j = choose|j: int|
            0 <= j < script.datagrams.len() && (#[trigger] script.datagrams[j]).1 == seeds[k];
        assert(cycle::is_draw(script.datagrams[j].1));
    }
    let fed = fed_datagrams::<S, Q, A, P, BUF>(s.mgr, s.pool, ds, seeds, now);
    assert(fed == (r.m, r.pool));
    let out = pulled_datagrams::<S, Q, A, P, BUF>(u, q, now, pulls);
    assert(out.0 == t.m && out.1 == t.pool);
    assert(carried::<S, Q, A, P, BUF>(
        s,
        ServerManager::<S, Q, A, BUF>::udp_cycle::<P>(s, script, now).0,
        ds,
        seeds,
        pulls,
        now,
    ));
}

proof fn lemma_receiving_keeps<
    S: TlsSession,
    Q: QuicServer<P>,
    A: Address,
    P: HandshakePoolAccess,
    const BUF: usize,
>(s: Receiving<S::V, Q::V, A, P::V>, os: Seq<(ReceiveOutcome<A>, Seq<u8>)>, now: u64)
    ensures
        ({
            let r = ServerManager::<S, Q, A, BUF>::receives::<P>(s, os, now);
            r.udp.io.sends == s.udp.io.sends && r.udp.pending == s.udp.pending && r.udp.io.sent
                == s.udp.io.sent
        }),
    decreases os.len(),
{
    reveal(ServerManager::receive_step);
    if os.len() > 0 {
        lemma_receiving_keeps::<S, Q, A, P, BUF>(s, os.drop_last(), now);
    }
}

// ---------------------------------------------------------------------------
// Datagrams that go
// ---------------------------------------------------------------------------

/// What so many pulls take from the manager: the datagrams that it gives, each with the
/// address of its peer.
pub open spec fn pulled_datagrams<
    S: TlsSession,
    Q: QuicServer<P>,
    A: Address,
    P: HandshakePoolAccess,
    const BUF: usize,
>(m: Mgr<S::V, Q::V, A>, pool: P::V, now: u64, n: nat) -> (
    Mgr<S::V, Q::V, A>,
    P::V,
    Seq<(Seq<u8>, A)>,
)
    decreases n,
{
    if n == 0 {
        (m, pool, Seq::empty())
    } else {
        let (t, p, ds) = pulled_datagrams::<S, Q, A, P, BUF>(m, pool, now, (n - 1) as nat);
        match ServerManager::<S, Q, A, BUF>::transmitted_from::<P>(t, 0, 1200, now, p) {
            (u, q, Some((i, d))) => (u, q, ds.push((d, u.quic[i].peer_addr))),
            (u, q, None) => (u, q, ds),
        }
    }
}

/// The datagram that waits to be sent.
pub open spec fn waiting<A>(u: UdpIo<A>) -> Seq<(Seq<u8>, A)> {
    match u.pending {
        Some(d) => seq![d],
        None => Seq::empty(),
    }
}

/// The datagrams that a socket took or refused for good, from what it was given.
pub open spec fn answered<A>(os: Seq<(Seq<u8>, A, SendOutcome)>) -> Seq<(Seq<u8>, A)>
    decreases os.len(),
{
    if os.len() == 0 {
        Seq::empty()
    } else {
        let before = answered(os.drop_last());
        let (d, to, o) = os.last();
        if o is Wait {
            before
        } else {
            before.push((d, to))
        }
    }
}

/// The datagrams that the socket took or refused since.
pub open spec fn sent_since<A>(t: UdpIo<A>, s: UdpIo<A>) -> Seq<(Seq<u8>, A)> {
    answered(t.io.sends.skip(s.io.sends.len() as int))
}

/// The same datagrams in the same order, each to the same address or a clone of it.
pub open spec fn passed_on<A: Clone>(xs: Seq<(Seq<u8>, A)>, ys: Seq<(Seq<u8>, A)>) -> bool {
    &&& xs.len() == ys.len()
    &&& forall|k: int|
        0 <= k < xs.len() ==> (#[trigger] xs[k]).0 == ys[k].0 && (xs[k].1 == ys[k].1 || cloned(
            xs[k].1,
            ys[k].1,
        ))
}

/// How far sending has come.
pub open spec fn sent_so_far<
    S: TlsSession,
    Q: QuicServer<P>,
    A: Address,
    P: HandshakePoolAccess,
    const BUF: usize,
>(
    s: Sending<S::V, Q::V, A, P::V>,
    t: Sending<S::V, Q::V, A, P::V>,
    now: u64,
    n: nat,
) -> bool {
    let (m, p, ds) = pulled_datagrams::<S, Q, A, P, BUF>(s.m, s.pool, now, n);
    let xs = waiting(s.udp) + ds;
    let ys = sent_since(t.udp, s.udp) + waiting(t.udp);
    &&& t.m == m && t.pool == p
    &&& t.udp.io.sends.len() >= s.udp.io.sends.len()
    &&& passed_on(xs, ys)
    &&& t.going && t.udp.pending is Some ==> xs.last() == t.udp.pending->0
}

proof fn lemma_loaded<
    S: TlsSession,
    Q: QuicServer<P>,
    A: Address,
    P: HandshakePoolAccess,
    const BUF: usize,
>(s: Sending<S::V, Q::V, A, P::V>, t: Sending<S::V, Q::V, A, P::V>, now: u64, n: nat) -> (k: nat)
    requires
        sent_so_far::<S, Q, A, P, BUF>(s, t, now, n),
    ensures
        sent_so_far::<S, Q, A, P, BUF>(
            s,
            ServerManager::<S, Q, A, BUF>::loaded::<P>(t, now),
            now,
            k,
        ),
{
    if t.going && t.udp.pending is None && t.left > 0 {
        let u = ServerManager::<S, Q, A, BUF>::loaded::<P>(t, now);
        let (m, p, ds) = pulled_datagrams::<S, Q, A, P, BUF>(s.m, s.pool, now, n);
        let (m2, p2, es) = pulled_datagrams::<S, Q, A, P, BUF>(s.m, s.pool, now, n + 1);
        let done = sent_since(t.udp, s.udp);
        assert(sent_since(u.udp, s.udp) == done);
        assert(done + waiting(t.udp) =~= done);
        match ServerManager::<S, Q, A, BUF>::transmitted_from::<P>(m, 0, 1200, now, p) {
            (x, y, Some((i, d))) => {
                let e = (d, x.quic[i].peer_addr);
                assert(es == ds.push(e));
                assert(waiting(s.udp) + es =~= (waiting(s.udp) + ds).push(e));
                assert(done + waiting(u.udp) =~= done.push(e));
            },
            (x, y, None) => {
                assert(done + waiting(u.udp) =~= done);
            },
        }
        n + 1
    } else {
        n
    }
}

proof fn lemma_send_step<
    S: TlsSession,
    Q: QuicServer<P>,
    A: Address,
    P: HandshakePoolAccess,
    const BUF: usize,
>(
    s: Sending<S::V, Q::V, A, P::V>,
    t: Sending<S::V, Q::V, A, P::V>,
    to: A,
    o: SendOutcome,
    now: u64,
    n: nat,
) -> (k: nat)
    requires
        sent_so_far::<S, Q, A, P, BUF>(s, t, now, n),
        ServerManager::<S, Q, A, BUF>::send_step::<P>(t, to, o, now).ok,
    ensures
        t.ok,
        sent_so_far::<S, Q, A, P, BUF>(
            s,
            ServerManager::<S, Q, A, BUF>::send_step::<P>(t, to, o, now),
            now,
            k,
        ),
{
    reveal(ServerManager::send_step);
    if !t.going || t.udp.pending is None {
        n
    } else {
        let (d, addr) = t.udp.pending->0;
        let io = t.udp.io.after_send(d, to, o);
        let (m, p, ds) = pulled_datagrams::<S, Q, A, P, BUF>(s.m, s.pool, now, n);
        let xs = waiting(s.udp) + ds;
        let done = sent_since(t.udp, s.udp);
        let base = s.udp.io.sends.len() as int;
        assert(io.sends.skip(base) =~= t.udp.io.sends.skip(base).push((d, to, o)));
        assert(io.sends.skip(base).drop_last() =~= t.udp.io.sends.skip(base));
        assert(done + waiting(t.udp) =~= done.push((d, addr)));
        assert(xs.last() == xs[xs.len() - 1]);
        match o {
            SendOutcome::Wait => {
                let u = ServerManager::<S, Q, A, BUF>::send_step::<P>(t, to, o, now);
                assert(sent_since(u.udp, s.udp) =~= done);
                assert(done + waiting(u.udp) =~= done.push((d, to)));
                n
            },
            _ => {
                let u = Sending {
                    udp: UdpIo {
                        pending: None,
                        io,
                        send_errors: if o is Failed {
                            cycle::counted(t.udp.send_errors)
                        } else {
                            t.udp.send_errors
                        },
                        ..t.udp
                    },
                    ok: t.ok && if t.held {
                        to == addr
                    } else {
                        cloned(addr, to)
                    },
                    ..t
                };
                assert(sent_since(u.udp, s.udp) =~= done.push((d, to)));
                assert(done.push((d, to)) + waiting(u.udp) =~= done.push((d, to)));
                assert(u.ok);
                assert(sent_so_far::<S, Q, A, P, BUF>(s, u, now, n));
                lemma_loaded::<S, Q, A, P, BUF>(s, u, now, n)
            },
        }
    }
}

proof fn lemma_sent_all<
    S: TlsSession,
    Q: QuicServer<P>,
    A: Address,
    P: HandshakePoolAccess,
    const BUF: usize,
>(s: Sending<S::V, Q::V, A, P::V>, os: Seq<(A, SendOutcome)>, now: u64) -> (n: nat)
    requires
        ServerManager::<S, Q, A, BUF>::sends::<P>(
            ServerManager::<S, Q, A, BUF>::loaded::<P>(s, now),
            os,
            now,
        ).ok,
    ensures
        sent_so_far::<S, Q, A, P, BUF>(
            s,
            ServerManager::<S, Q, A, BUF>::sends::<P>(
                ServerManager::<S, Q, A, BUF>::loaded::<P>(s, now),
                os,
                now,
            ),
            now,
            n,
        ),
    decreases os.len(),
{
    let first = ServerManager::<S, Q, A, BUF>::loaded::<P>(s, now);
    if os.len() == 0 {
        let none = Seq::<(Seq<u8>, A)>::empty();
        assert(s.udp.io.sends.skip(s.udp.io.sends.len() as int) =~= Seq::empty());
        assert(sent_since(s.udp, s.udp) =~= none);
        assert(waiting(s.udp) + none =~= waiting(s.udp));
        assert(none + waiting(s.udp) =~= waiting(s.udp));
        assert(sent_so_far::<S, Q, A, P, BUF>(s, s, now, 0));
        lemma_loaded::<S, Q, A, P, BUF>(s, s, now, 0)
    } else {
        let t = ServerManager::<S, Q, A, BUF>::sends::<P>(first, os.drop_last(), now);
        lemma_ok_before::<S, Q, A, P, BUF>(t, os.last().0, os.last().1, now);
        let n = lemma_sent_all::<S, Q, A, P, BUF>(s, os.drop_last(), now);
        lemma_send_step::<S, Q, A, P, BUF>(s, t, os.last().0, os.last().1, now, n)
    }
}

proof fn lemma_ok_before<
    S: TlsSession,
    Q: QuicServer<P>,
    A: Address,
    P: HandshakePoolAccess,
    const BUF: usize,
>(t: Sending<S::V, Q::V, A, P::V>, to: A, o: SendOutcome, now: u64)
    requires
        ServerManager::<S, Q, A, BUF>::send_step::<P>(t, to, o, now).ok,
    ensures
        t.ok,
{
    reveal(ServerManager::send_step);
}

proof fn lemma_sending_keeps<
    S: TlsSession,
    Q: QuicServer<P>,
    A: Address,
    P: HandshakePoolAccess,
    const BUF: usize,
>(s: Sending<S::V, Q::V, A, P::V>, os: Seq<(A, SendOutcome)>, now: u64)
    ensures
        ({
            let t = ServerManager::<S, Q, A, BUF>::sends::<P>(s, os, now);
            t.udp.io.received == s.udp.io.received && t.udp.io.receives == s.udp.io.receives
        }),
    decreases os.len(),
{
    reveal(ServerManager::send_step);
    if os.len() > 0 {
        lemma_sending_keeps::<S, Q, A, P, BUF>(s, os.drop_last(), now);
    }
}

// ---------------------------------------------------------------------------
// Bytes that come
// ---------------------------------------------------------------------------

/// The bytes that a stream gave, from the answers to reads.
pub open spec fn bytes_of(os: Seq<ReadOutcome>) -> Seq<u8>
    decreases os.len(),
{
    if os.len() == 0 {
        Seq::empty()
    } else {
        match os.last() {
            ReadOutcome::Data(d) => bytes_of(os.drop_last()) + d,
            _ => bytes_of(os.drop_last()),
        }
    }
}

/// The manager after these answers to reads of a connection, in order: bytes are fed to
/// it, as they came. The end of the stream, a read that fails and bytes that are refused
/// end the connection.
pub open spec fn fed_reads<S: TlsSession, Q: HttpServerConn, A: Address, const BUF: usize>(
    m: Mgr<S::V, Q::V, A>,
    id: ConnId,
    os: Seq<ReadOutcome>,
    now: u64,
) -> Mgr<S::V, Q::V, A>
    decreases os.len(),
{
    if os.len() == 0 {
        m
    } else {
        let t = fed_reads::<S, Q, A, BUF>(m, id, os.drop_last(), now);
        match os.last() {
            ReadOutcome::Data(d) if d.len() > 0 => {
                let (u, r) = ServerManager::<S, Q, A, BUF>::tcp_fed(t, id, d, now);
                if r is Ok {
                    u
                } else {
                    ServerManager::<S, Q, A, BUF>::ended(u, id)
                }
            },
            ReadOutcome::Wait => t,
            _ => ServerManager::<S, Q, A, BUF>::ended(t, id),
        }
    }
}

proof fn lemma_reads_fed<S: TlsSession, Q: HttpServerConn, A: Address, const BUF: usize>(
    m: Mgr<S::V, Q::V, A>,
    c: ConnIo,
    os: Seq<ReadOutcome>,
    now: u64,
)
    ensures
        ({
            let r = ServerManager::<S, Q, A, BUF>::reads(
                Reading { m, c, done: 0, going: true },
                os,
                now,
            );
            let n = c.io.reads.len() as int;
            let new = r.c.io.reads.skip(n);
            &&& r.c.io.reads.len() >= n
            &&& r.c.io.received == c.io.received + bytes_of(new)
            &&& r.m == fed_reads::<S, Q, A, BUF>(m, c.id, new, now)
            &&& r.c.id == c.id
        }),
    decreases os.len(),
{
    reveal(ServerManager::read_step);
    let n = c.io.reads.len() as int;
    if os.len() == 0 {
        assert(c.io.reads.skip(n) =~= Seq::<ReadOutcome>::empty());
        assert(c.io.received + Seq::<u8>::empty() =~= c.io.received);
    } else {
        lemma_reads_fed::<S, Q, A, BUF>(m, c, os.drop_last(), now);
        let s = ServerManager::<S, Q, A, BUF>::reads(
            Reading { m, c, done: 0, going: true },
            os.drop_last(),
            now,
        );
        let o = os.last();
        let r = ServerManager::<S, Q, A, BUF>::read_step(s, o, now);
        if s.going {
            let old = s.c.io.reads.skip(n);
            assert(r.c.io.reads.skip(n) =~= old.push(o));
            assert(old.push(o).drop_last() =~= old);
            match o {
                ReadOutcome::Data(d) => {
                    assert(c.io.received + (bytes_of(old) + d) =~= c.io.received + bytes_of(old)
                        + d);
                },
                _ => {},
            }
        }
    }
}

/// When a connection is read from, the manager is fed what its stream gives, all of it
/// and in order, under its handle; and it is told of the end of the stream. A stream that
/// has ended is left alone. Of a connection that holds data behind a full buffer nothing
/// is read: the manager goes on with what it holds.
pub proof fn bytes_reach_the_manager<
    S: TlsSession,
    Q: HttpServerConn,
    A: Address,
    const BUF: usize,
>(p: Pass<S::V, Q::V, A>, i: int, os: Seq<ReadOutcome>, now: u64)
    requires
        0 <= i < p.conns.len(),
    ensures
        ({
            let c = p.conns[i];
            let q = ServerManager::<S, Q, A, BUF>::conn_read(p, i, os, now);
            let d = q.conns[i];
            let new = d.io.reads.skip(c.io.reads.len() as int);
            let (t, r) = ServerManager::<S, Q, A, BUF>::tcp_fed(p.m, c.id, Seq::empty(), now);
            &&& q.conns.len() == p.conns.len()
            &&& forall|j: int|
                0 <= j < p.conns.len() && j != i ==> #[trigger] q.conns[j] == p.conns[j]
            &&& d.id == c.id
            &&& if c.eof {
                q == p
            } else if ServerManager::<S, Q, A, BUF>::recv_blocked(p.m, c.id) {
                &&& d.io == c.io
                &&& q.m == if r is Ok {
                    t
                } else {
                    ServerManager::<S, Q, A, BUF>::ended(t, c.id)
                }
            } else {
                &&& d.io.received == c.io.received + bytes_of(new)
                &&& q.m == fed_reads::<S, Q, A, BUF>(p.m, c.id, new, now)
            }
        }),
{
    reveal(ServerManager::conn_read);
    reveal(ServerManager::redriven);
    lemma_reads_fed::<S, Q, A, BUF>(p.m, p.conns[i], os, now);
}

} // verus!
