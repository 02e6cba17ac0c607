//! A stream that ends closes its connection, in every cycle of the runner.

use vstd::prelude::*;

use super::cycle;
use super::cycle::{ConnIo, Pass, Reading, Receiving, RunnerModel, Script, Sending, Writing};
use super::history;
use super::history::{gone, has_quic, raised};
use super::laws;
use super::laws::{after, sound, Call};
use super::lifecycle;
use super::lifecycle::reported_closed;
use super::manager::{Mgr, ServerManager};
use super::turns;
use super::{ConnId, ServerEvent};
use crate::http::server_conn::HttpServerConn;
use crate::quic::{HandshakePoolAccess, QuicServer};
use crate::tls::TlsSession;
use crate::transport::{
    AcceptOutcome, Address, ReadOutcome, ReceiveOutcome, SendOutcome, WriteOutcome,
};

verus! {

/// A socket belongs to a connection over TCP that the manager knows or knew. Where
/// its stream has ended, the connection is closed or removed.
pub open spec fn in_step<TV, QV, A>(m: Mgr<TV, QV, A>, c: ConnIo) -> bool {
    &&& c.id.0 < m.next_id
    &&& !has_quic(m.quic, c.id)
    &&& c.eof ==> gone(m, c.id)
}

/// All sockets are in step with the manager.
#[verifier::opaque]
pub open spec fn all_in_step<TV, QV, A>(m: Mgr<TV, QV, A>, cs: Seq<ConnIo>) -> bool {
    &&& sound(m)
    &&& forall|i: int| 0 <= i < cs.len() ==> in_step(m, #[trigger] cs[i])
}

/// Every call of the manager leaves the sockets in step.
proof fn lemma_call<
    S: TlsSession,
    Q: QuicServer<P>,
    A: Address,
    P: HandshakePoolAccess,
    const BUF: usize,
>(m: Mgr<S::V, Q::V, A>, pool: P::V, call: Call<A>, cs: Seq<ConnIo>)
    requires
        all_in_step(m, cs),
    ensures
        all_in_step(after::<S, Q, A, P, BUF>(m, pool, call).0, cs),
{
    reveal(all_in_step);
    let t = after::<S, Q, A, P, BUF>(m, pool, call).0;
    let es = raised::<S, Q, A, P, BUF>(m, pool, call);
    laws::call_keeps_the_manager_sound::<S, Q, A, P, BUF>(m, pool, call);
    history::lemma_call_moves::<S, Q, A, P, BUF>(m, pool, call);
    assert forall|i: int| 0 <= i < cs.len() implies in_step(t, #[trigger] cs[i]) by {
        let c = cs[i];
        assert(in_step(m, c));
        if has_quic(t.quic, c.id) {
            reveal(history::quic_moved);
            let j = choose|j: int| 0 <= j < t.quic.len() && (#[trigger] t.quic[j]).id == c.id;
            assert(has_quic(m.quic, t.quic[j].id));
        }
        if c.eof {
            history::lemma_stays_gone(m, t, es, c.id);
        }
    }
}

/// A connection whose stream has ended is gone.
proof fn lemma_ended_is_gone<S: TlsSession, Q: HttpServerConn, A: Address, const BUF: usize>(
    m: Mgr<S::V, Q::V, A>,
    id: ConnId,
)
    requires
        sound(m),
        id.0 < m.next_id,
        !has_quic(m.quic, id),
    ensures
        gone(ServerManager::<S, Q, A, BUF>::ended(m, id), id),
{
    let t = ServerManager::<S, Q, A, BUF>::ended(m, id);
    history::lemma_ended_moves::<S, Q, A, BUF>(m, id);
    laws::lemma_ended::<S, Q, A, BUF>(m, id);
    lifecycle::tcp_found(m.tcp, id, 0);
    match m.find_tcp(id) {
        Some(i) => {
            laws::ended_connections_are_closed::<S, Q, A, BUF>(m, id);
            lifecycle::tcp_found(t.tcp, id, 0);
            reveal(laws::tcp_distinct);
            assert forall|j: int|
                0 <= j < t.tcp.len() && (#[trigger] t.tcp[j]).id == id implies t.tcp[j].state is Closed by {
                if i < j {
                    assert(t.tcp[i].id != t.tcp[j].id);
                } else if j < i {
                    assert(t.tcp[j].id != t.tcp[i].id);
                }
            }
        },
        None => {},
    }
}

/// The socket at `i` changes; whether its stream has ended does not.
proof fn lemma_same_end<TV, QV, A>(m: Mgr<TV, QV, A>, cs: Seq<ConnIo>, i: int, c: ConnIo)
    requires
        all_in_step(m, cs),
        0 <= i < cs.len(),
        c.id == cs[i].id,
        c.eof == cs[i].eof,
    ensures
        all_in_step(m, cs.update(i, c)),
{
    reveal(all_in_step);
    assert forall|j: int| 0 <= j < cs.len() implies in_step(
        m,
        #[trigger] cs.update(i, c)[j],
    ) by {
        assert(in_step(m, cs[j]));
    }
}

/// The stream of the socket at `i` ends, and the manager is told.
proof fn lemma_end<
    S: TlsSession,
    Q: QuicServer<P>,
    A: Address,
    P: HandshakePoolAccess,
    const BUF: usize,
>(m: Mgr<S::V, Q::V, A>, pool: P::V, cs: Seq<ConnIo>, i: int, c: ConnIo)
    requires
        all_in_step(m, cs),
        0 <= i < cs.len(),
        c.id == cs[i].id,
    ensures
        all_in_step(ServerManager::<S, Q, A, BUF>::ended(m, c.id), cs.update(i, c)),
{
    lemma_call::<S, Q, A, P, BUF>(m, pool, Call::TcpEof(c.id), cs);
    reveal(all_in_step);
    let t = ServerManager::<S, Q, A, BUF>::ended(m, c.id);
    assert(in_step(m, cs[i]));
    lemma_ended_is_gone::<S, Q, A, BUF>(m, c.id);
    assert forall|j: int| 0 <= j < cs.len() implies in_step(
        t,
        #[trigger] cs.update(i, c)[j],
    ) by {
        assert(in_step(t, cs[j]));
    }
}

proof fn lemma_reads<
    S: TlsSession,
    Q: QuicServer<P>,
    A: Address,
    P: HandshakePoolAccess,
    const BUF: usize,
>(
    m: Mgr<S::V, Q::V, A>,
    pool: P::V,
    cs: Seq<ConnIo>,
    i: int,
    os: Seq<ReadOutcome>,
    now: u64,
)
    requires
        all_in_step(m, cs),
        0 <= i < cs.len(),
    ensures
        ({
            let r = ServerManager::<S, Q, A, BUF>::reads(
                Reading { m, c: cs[i], done: 0, going: true },
                os,
                now,
            );
            r.c.id == cs[i].id && all_in_step(r.m, cs.update(i, r.c))
        }),
    decreases os.len(),
{
    if os.len() == 0 {
        assert(cs.update(i, cs[i]) =~= cs);
    } else {
        lemma_reads::<S, Q, A, P, BUF>(m, pool, cs, i, os.drop_last(), now);
        let s = ServerManager::<S, Q, A, BUF>::reads(
            Reading { m, c: cs[i], done: 0, going: true },
            os.drop_last(),
            now,
        );
        lemma_read_step::<S, Q, A, P, BUF>(s, pool, cs.update(i, s.c), i, os.last(), now);
        let r = ServerManager::<S, Q, A, BUF>::read_step(s, os.last(), now);
        assert(cs.update(i, s.c).update(i, r.c) =~= cs.update(i, r.c));
    }
}

proof fn lemma_read_step<
    S: TlsSession,
    Q: QuicServer<P>,
    A: Address,
    P: HandshakePoolAccess,
    const BUF: usize,
>(
    s: Reading<S::V, Q::V, A>,
    pool: P::V,
    cs: Seq<ConnIo>,
    i: int,
    o: ReadOutcome,
    now: u64,
)
    requires
        all_in_step(s.m, cs),
        0 <= i < cs.len(),
        s.c == cs[i],
    ensures
        ({
            let r = ServerManager::<S, Q, A, BUF>::read_step(s, o, now);
            r.c.id == s.c.id && all_in_step(r.m, cs.update(i, r.c))
        }),
{
    reveal(ServerManager::read_step);
    let r = ServerManager::<S, Q, A, BUF>::read_step(s, o, now);
    let c = ConnIo { io: s.c.io.after_read(o), ..s.c };
    assert(cs.update(i, s.c) =~= cs);
    lemma_same_end(s.m, cs, i, c);
    lemma_end::<S, Q, A, P, BUF>(s.m, pool, cs, i, c.ended());
    match o {
        ReadOutcome::Data(d) if s.going && d.len() > 0 => {
            lemma_call::<S, Q, A, P, BUF>(s.m, pool, Call::TcpFeed(s.c.id, d, now), cs);
            let t = ServerManager::<S, Q, A, BUF>::tcp_fed(s.m, s.c.id, d, now).0;
            lemma_same_end(t, cs, i, c);
            lemma_end::<S, Q, A, P, BUF>(t, pool, cs, i, c.ended());
        },
        _ => {},
    }
}

proof fn lemma_conn_read<
    S: TlsSession,
    Q: QuicServer<P>,
    A: Address,
    P: HandshakePoolAccess,
    const BUF: usize,
>(p: Pass<S::V, Q::V, A>, pool: P::V, i: int, os: Seq<ReadOutcome>, now: u64)
    requires
        all_in_step(p.m, p.conns),
        0 <= i < p.conns.len(),
    ensures
        ({
            let q = ServerManager::<S, Q, A, BUF>::conn_read(p, i, os, now);
            q.conns.len() == p.conns.len() && all_in_step(q.m, q.conns)
        }),
{
    reveal(ServerManager::conn_read);
    reveal(ServerManager::redriven);
    let c = p.conns[i];
    let none = Seq::<u8>::empty();
    lemma_reads::<S, Q, A, P, BUF>(p.m, pool, p.conns, i, os, now);
    lemma_call::<S, Q, A, P, BUF>(p.m, pool, Call::TcpFeed(c.id, none, now), p.conns);
    let t = ServerManager::<S, Q, A, BUF>::tcp_fed(p.m, c.id, none, now).0;
    lemma_same_end(t, p.conns, i, c);
    lemma_end::<S, Q, A, P, BUF>(t, pool, p.conns, i, c.ended());
}

proof fn lemma_all_read<
    S: TlsSession,
    Q: QuicServer<P>,
    A: Address,
    P: HandshakePoolAccess,
    const BUF: usize,
>(
    m: Mgr<S::V, Q::V, A>,
    pool: P::V,
    cs: Seq<ConnIo>,
    os: Seq<Seq<ReadOutcome>>,
    now: u64,
)
    requires
        all_in_step(m, cs),
        os.len() <= cs.len(),
    ensures
        ({
            let p = ServerManager::<S, Q, A, BUF>::all_read(m, cs, os, now);
            p.conns.len() == cs.len() && all_in_step(p.m, p.conns)
        }),
    decreases os.len(),
{
    if os.len() > 0 {
        lemma_all_read::<S, Q, A, P, BUF>(m, pool, cs, os.drop_last(), now);
        lemma_conn_read::<S, Q, A, P, BUF>(
            ServerManager::<S, Q, A, BUF>::all_read(m, cs, os.drop_last(), now),
            pool,
            os.len() - 1,
            os.last(),
            now,
        );
    }
}

proof fn lemma_settled<
    S: TlsSession,
    Q: QuicServer<P>,
    A: Address,
    P: HandshakePoolAccess,
    const BUF: usize,
>(s: Writing<S::V, Q::V, A>, pool: P::V, cs: Seq<ConnIo>, i: int)
    requires
        all_in_step(s.m, cs),
        0 <= i < cs.len(),
        s.c == cs[i],
    ensures
        ({
            let t = ServerManager::<S, Q, A, BUF>::settled(s);
            t.c.id == s.c.id && all_in_step(t.m, cs.update(i, t.c))
        }),
    decreases s.left,
{
    assert(cs.update(i, s.c) =~= cs);
    if s.going && s.c.pending.len() == 0 && BUF > 0 && s.left > 0 {
        lemma_call::<S, Q, A, P, BUF>(
            s.m,
            pool,
            Call::TcpPollOutput(s.c.id, cycle::IO_BUF as nat),
            cs,
        );
        match ServerManager::<S, Q, A, BUF>::tcp_polled(s.m, s.c.id, cycle::IO_BUF as int) {
            (m, Some(d)) => {
                let u = Writing {
                    m,
                    c: ConnIo { pending: d, pulled: s.c.pulled + d, ..s.c },
                    left: s.left - 1,
                    ..s
                };
                lemma_same_end(m, cs, i, u.c);
                lemma_settled::<S, Q, A, P, BUF>(u, pool, cs.update(i, u.c), i);
                let t = ServerManager::<S, Q, A, BUF>::settled(u);
                assert(cs.update(i, u.c).update(i, t.c) =~= cs.update(i, t.c));
            },
            (m, None) => {},
        }
    }
}

proof fn lemma_write_step<
    S: TlsSession,
    Q: QuicServer<P>,
    A: Address,
    P: HandshakePoolAccess,
    const BUF: usize,
>(s: Writing<S::V, Q::V, A>, pool: P::V, cs: Seq<ConnIo>, i: int, o: WriteOutcome)
    requires
        all_in_step(s.m, cs),
        0 <= i < cs.len(),
        s.c == cs[i],
    ensures
        ({
            let t = ServerManager::<S, Q, A, BUF>::write_step(s, o);
            t.c.id == s.c.id && all_in_step(t.m, cs.update(i, t.c))
        }),
{
    reveal(ServerManager::write_step);
    assert(cs.update(i, s.c) =~= cs);
    let c = ConnIo { io: s.c.io.after_write(s.c.pending, o), ..s.c };
    lemma_same_end(s.m, cs, i, c);
    lemma_end::<S, Q, A, P, BUF>(s.m, pool, cs, i, c.ended());
    match o {
        WriteOutcome::Took(n) if s.going => {
            let u = Writing {
                c: ConnIo { pending: s.c.pending.skip(n), ..c },
                ok: s.ok && 0 <= n <= s.c.pending.len(),
                ..s
            };
            lemma_same_end(s.m, cs, i, u.c);
            lemma_settled::<S, Q, A, P, BUF>(u, pool, cs.update(i, u.c), i);
            let t = ServerManager::<S, Q, A, BUF>::settled(u);
            assert(cs.update(i, u.c).update(i, t.c) =~= cs.update(i, t.c));
        },
        _ => {},
    }
}

proof fn lemma_writes<
    S: TlsSession,
    Q: QuicServer<P>,
    A: Address,
    P: HandshakePoolAccess,
    const BUF: usize,
>(s: Writing<S::V, Q::V, A>, pool: P::V, cs: Seq<ConnIo>, i: int, os: Seq<WriteOutcome>)
    requires
        all_in_step(s.m, cs),
        0 <= i < cs.len(),
        s.c == cs[i],
    ensures
        ({
            let t = ServerManager::<S, Q, A, BUF>::writes(s, os);
            t.c.id == s.c.id && all_in_step(t.m, cs.update(i, t.c))
        }),
    decreases os.len(),
{
    if os.len() == 0 {
        assert(cs.update(i, s.c) =~= cs);
    } else {
        lemma_writes::<S, Q, A, P, BUF>(s, pool, cs, i, os.drop_last());
        let u = ServerManager::<S, Q, A, BUF>::writes(s, os.drop_last());
        lemma_write_step::<S, Q, A, P, BUF>(u, pool, cs.update(i, u.c), i, os.last());
        let t = ServerManager::<S, Q, A, BUF>::write_step(u, os.last());
        assert(cs.update(i, u.c).update(i, t.c) =~= cs.update(i, t.c));
    }
}

proof fn lemma_all_written<
    S: TlsSession,
    Q: QuicServer<P>,
    A: Address,
    P: HandshakePoolAccess,
    const BUF: usize,
>(m: Mgr<S::V, Q::V, A>, pool: P::V, cs: Seq<ConnIo>, os: Seq<Seq<WriteOutcome>>)
    requires
        all_in_step(m, cs),
        os.len() <= cs.len(),
    ensures
        ({
            let p = ServerManager::<S, Q, A, BUF>::all_written(m, cs, os);
            p.conns.len() == cs.len() && all_in_step(p.m, p.conns)
        }),
    decreases os.len(),
{
    if os.len() > 0 {
        reveal(ServerManager::conn_written);
        lemma_all_written::<S, Q, A, P, BUF>(m, pool, cs, os.drop_last());
        let p = ServerManager::<S, Q, A, BUF>::all_written(m, cs, os.drop_last());
        let i = os.len() - 1;
        let w = Writing {
            m: p.m,
            c: p.conns[i],
            left: cycle::MAX_WRITES as int,
            going: true,
            more: false,
            ok: true,
        };
        let v = ServerManager::<S, Q, A, BUF>::settled(w);
        lemma_settled::<S, Q, A, P, BUF>(w, pool, p.conns, i);
        lemma_writes::<S, Q, A, P, BUF>(v, pool, p.conns.update(i, v.c), i, os.last());
        let t = ServerManager::<S, Q, A, BUF>::writes(v, os.last());
        assert(p.conns.update(i, v.c).update(i, t.c) =~= p.conns.update(i, t.c));
    }
}

/// A connection that was just accepted is in step.
proof fn lemma_added<TV, QV, A>(m: Mgr<TV, QV, A>, cs: Seq<ConnIo>, c: ConnIo, i: int)
    requires
        all_in_step(m, cs),
        0 <= i < m.tcp.len(),
        m.tcp[i].id == c.id,
        !c.eof,
    ensures
        all_in_step(m, cs.push(c)),
{
    reveal(all_in_step);
    reveal(laws::kinds_distinct);
    reveal(laws::handles_below);
    assert(m.tcp[i].id.0 < m.next_id);
    if has_quic(m.quic, c.id) {
        let j = choose|j: int| 0 <= j < m.quic.len() && (#[trigger] m.quic[j]).id == c.id;
        assert(m.tcp[i].id != m.quic[j].id);
    }
    assert forall|j: int| 0 <= j < cs.len() + 1 implies in_step(m, #[trigger] cs.push(c)[j]) by {
        if j < cs.len() {
            assert(in_step(m, cs[j]));
        }
    }
}

proof fn lemma_accepts<
    S: TlsSession,
    Q: QuicServer<P>,
    A: Address,
    P: HandshakePoolAccess,
    const BUF: usize,
>(s: RunnerModel<S::V, Q::V, A, P::V>, script: Script<A>, now: u64)
    requires
        all_in_step(s.mgr, s.conns),
    ensures
        ({
            let a = ServerManager::<S, Q, A, BUF>::accepts(s, script, now);
            all_in_step(a.mgr, a.conns)
        }),
{
    let t = ServerManager::<S, Q, A, BUF>::accepts_tls(s, script.tls, now);
    match script.tls {
        Some((AcceptOutcome::Stream(io), secret, random)) => {
            lemma_call::<S, Q, A, P, BUF>(
                s.mgr,
                s.pool,
                Call::AcceptTcp(secret, random, now),
                s.conns,
            );
            if ServerManager::<S, Q, A, BUF>::acceptable(s.mgr) {
                let id = ConnId(s.mgr.next_id);
                lemma_added(t.mgr, s.conns, ConnIo::fresh(id, io), s.mgr.tcp.len() as int);
            }
        },
        _ => {},
    }
    assert(all_in_step(t.mgr, t.conns));
    match script.cleartext {
        Some(AcceptOutcome::Stream(io)) => {
            lemma_call::<S, Q, A, P, BUF>(
                t.mgr,
                t.pool,
                Call::AcceptTcpCleartext(now),
                t.conns,
            );
            let u = ServerManager::<S, Q, A, BUF>::accepted_cleartext(t.mgr, now).0;
            if ServerManager::<S, Q, A, BUF>::acceptable(t.mgr) {
                let id = ConnId(t.mgr.next_id);
                lemma_added(u, t.conns, ConnIo::fresh(id, io), t.mgr.tcp.len() as int);
            }
        },
        _ => {},
    }
}

proof fn lemma_receives<
    S: TlsSession,
    Q: QuicServer<P>,
    A: Address,
    P: HandshakePoolAccess,
    const BUF: usize,
>(
    s: Receiving<S::V, Q::V, A, P::V>,
    cs: Seq<ConnIo>,
    os: Seq<(ReceiveOutcome<A>, Seq<u8>)>,
    now: u64,
)
    requires
        all_in_step(s.m, cs),
    ensures
        all_in_step(ServerManager::<S, Q, A, BUF>::receives::<P>(s, os, now).m, cs),
    decreases os.len(),
{
    if os.len() > 0 {
        reveal(ServerManager::receive_step);
        lemma_receives::<S, Q, A, P, BUF>(s, cs, os.drop_last(), now);
        let t = ServerManager::<S, Q, A, BUF>::receives::<P>(s, os.drop_last(), now);
        match os.last().0 {
            ReceiveOutcome::Datagram(d, from) => {
                lemma_call::<S, Q, A, P, BUF>(
                    t.m,
                    t.pool,
                    Call::UdpFeed(d, from, now, os.last().1),
                    cs,
                );
            },
            _ => {},
        }
    }
}

proof fn lemma_loaded<
    S: TlsSession,
    Q: QuicServer<P>,
    A: Address,
    P: HandshakePoolAccess,
    const BUF: usize,
>(s: Sending<S::V, Q::V, A, P::V>, cs: Seq<ConnIo>, now: u64)
    requires
        all_in_step(s.m, cs),
    ensures
        all_in_step(ServerManager::<S, Q, A, BUF>::loaded::<P>(s, now).m, cs),
{
    lemma_call::<S, Q, A, P, BUF>(
        s.m,
        s.pool,
        Call::UdpPollTransmit(cycle::TX_BUF as nat, now),
        cs,
    );
}

proof fn lemma_sends<
    S: TlsSession,
    Q: QuicServer<P>,
    A: Address,
    P: HandshakePoolAccess,
    const BUF: usize,
>(
    s: Sending<S::V, Q::V, A, P::V>,
    cs: Seq<ConnIo>,
    os: Seq<(A, SendOutcome)>,
    now: u64,
)
    requires
        all_in_step(s.m, cs),
    ensures
        all_in_step(ServerManager::<S, Q, A, BUF>::sends::<P>(s, os, now).m, cs),
    decreases os.len(),
{
    if os.len() > 0 {
        lemma_sends::<S, Q, A, P, BUF>(s, cs, os.drop_last(), now);
        lemma_send_step::<S, Q, A, P, BUF>(
            ServerManager::<S, Q, A, BUF>::sends::<P>(s, os.drop_last(), now),
            cs,
            os.last().0,
            os.last().1,
            now,
        );
    }
}

proof fn lemma_send_step<
    S: TlsSession,
    Q: QuicServer<P>,
    A: Address,
    P: HandshakePoolAccess,
    const BUF: usize,
>(s: Sending<S::V, Q::V, A, P::V>, cs: Seq<ConnIo>, to: A, o: SendOutcome, now: u64)
    requires
        all_in_step(s.m, cs),
    ensures
        all_in_step(ServerManager::<S, Q, A, BUF>::send_step::<P>(s, to, o, now).m, cs),
{
    reveal(ServerManager::send_step);
    if s.going && s.udp.pending is Some {
        let (d, addr) = s.udp.pending->0;
        let ok = s.ok && if s.held {
            to == addr
        } else {
            cloned(addr, to)
        };
        let io = s.udp.io.after_send(d, to, o);
        lemma_loaded::<S, Q, A, P, BUF>(
            Sending { udp: cycle::UdpIo { pending: None, io, ..s.udp }, ok, ..s },
            cs,
            now,
        );
        lemma_loaded::<S, Q, A, P, BUF>(
            Sending {
                udp: cycle::UdpIo {
                    pending: None,
                    io,
                    send_errors: cycle::counted(s.udp.send_errors),
                    ..s.udp
                },
                ok,
                ..s
            },
            cs,
            now,
        );
    }
}

proof fn lemma_udp<
    S: TlsSession,
    Q: QuicServer<P>,
    A: Address,
    P: HandshakePoolAccess,
    const BUF: usize,
>(s: RunnerModel<S::V, Q::V, A, P::V>, script: Script<A>, now: u64)
    requires
        all_in_step(s.mgr, s.conns),
    ensures
        ({
            let t = ServerManager::<S, Q, A, BUF>::udp_cycle::<P>(s, script, now).0;
            t.conns == s.conns && all_in_step(t.mgr, t.conns)
        }),
{
    let r0 = Receiving {
        m: s.mgr,
        pool: s.pool,
        udp: s.udp,
        drawn: s.drawn,
        done: 0,
        going: true,
    };
    lemma_receives::<S, Q, A, P, BUF>(r0, s.conns, script.datagrams, now);
    let r = ServerManager::<S, Q, A, BUF>::receives::<P>(r0, script.datagrams, now);
    lemma_call::<S, Q, A, P, BUF>(r.m, r.pool, Call::HandleTimeouts(now), s.conns);
    let (m, pool) = after::<S, Q, A, P, BUF>(r.m, r.pool, Call::HandleTimeouts(now));
    let w = Sending {
        m,
        pool,
        udp: r.udp,
        held: true,
        left: cycle::MAX_WRITES as int,
        going: true,
        more: false,
        ok: true,
    };
    lemma_loaded::<S, Q, A, P, BUF>(w, s.conns, now);
    lemma_sends::<S, Q, A, P, BUF>(
        ServerManager::<S, Q, A, BUF>::loaded::<P>(w, now),
        s.conns,
        script.sends,
        now,
    );
}

/// A stream that ends, or fails, or whose data the manager refuses, closes its
/// connection: after every cycle, the connection of a stream that has ended is
/// closed or removed.
pub proof fn sockets_stay_in_step<
    S: TlsSession,
    Q: QuicServer<P>,
    A: Address,
    P: HandshakePoolAccess,
    const BUF: usize,
>(s: RunnerModel<S::V, Q::V, A, P::V>, script: Script<A>, now: u64)
    requires
        all_in_step(s.mgr, s.conns),
        ServerManager::<S, Q, A, BUF>::cycle::<P>(s, script, now).3,
    ensures
        ({
            let t = ServerManager::<S, Q, A, BUF>::cycle::<P>(s, script, now).0;
            &&& all_in_step(t.mgr, t.conns)
            &&& forall|i: int|
                0 <= i < t.conns.len() && (#[trigger] t.conns[i]).eof ==> reported_closed::<
                    Q,
                    S::V,
                    A,
                >(t.mgr, t.conns[i].id)
        }),
{
    lemma_accepts::<S, Q, A, P, BUF>(s, script, now);
    let a = ServerManager::<S, Q, A, BUF>::accepts(s, script, now);
    lemma_all_read::<S, Q, A, P, BUF>(a.mgr, a.pool, a.conns, script.reads, now);
    let r = ServerManager::<S, Q, A, BUF>::all_read(a.mgr, a.conns, script.reads, now);
    lemma_all_written::<S, Q, A, P, BUF>(r.m, a.pool, r.conns, script.writes);
    let t = ServerManager::<S, Q, A, BUF>::tcp_cycle(s, script, now).0;
    lemma_udp::<S, Q, A, P, BUF>(t, script, now);
    let u = ServerManager::<S, Q, A, BUF>::udp_cycle::<P>(t, script, now).0;
    lemma_call::<S, Q, A, P, BUF>(u.mgr, u.pool, Call::PollEvent, u.conns);
    let e = ServerManager::<S, Q, A, BUF>::event_cycle(u).0;
    assert(all_in_step(e.mgr, e.conns)) by {
        reveal(all_in_step);
        assert forall|k: int| 0 <= k < e.conns.len() implies in_step(
            e.mgr,
            #[trigger] e.conns[k],
        ) by {
            match ServerManager::<S, Q, A, BUF>::event_cycle(u).1 {
                Some(ServerEvent::Closed(id)) => {
                    turns::lemma_without(u.conns, id, k);
                    let j = choose|j: int| 0 <= j < u.conns.len() && u.conns[j] == e.conns[k];
                    assert(in_step(e.mgr, u.conns[j]));
                },
                _ => {
                    assert(in_step(e.mgr, u.conns[k]));
                },
            }
        }
    }
    assert forall|i: int| 0 <= i < e.conns.len() && (#[trigger] e.conns[i]).eof implies reported_closed::<
        Q,
        S::V,
        A,
    >(e.mgr, e.conns[i].id) by {
        reveal(all_in_step);
        assert(in_step(e.mgr, e.conns[i]));
        history::lemma_gone_is_closed::<Q, S::V, A>(e.mgr, e.conns[i].id);
    }
}

/// A runner that has no sockets yet is in step with its manager.
pub proof fn no_sockets_are_in_step<TV, QV, A>(m: Mgr<TV, QV, A>)
    requires
        sound(m),
    ensures
        all_in_step(m, Seq::empty()),
{
    reveal(all_in_step);
}

} // verus!
