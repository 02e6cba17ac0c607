//! What holds of every poll cycle of the runner.

use vstd::prelude::*;

use super::cycle;
use super::cycle::{ConnIo, Pass, Reading, Receiving, RunnerModel, Script, Sending, Writing};
use super::manager::{Mgr, ServerManager};
use super::{ConnId, ServerEvent};
use crate::http::server_conn::HttpServerConn;
use crate::quic::{HandshakePoolAccess, QuicServer};
use crate::tls::TlsSession;
use crate::transport::{Address, ReadOutcome, ReceiveOutcome, SendOutcome, WriteOutcome};

verus! {

/// One sequence begins with another.
pub open spec fn begins_with(s: Seq<u8>, t: Seq<u8>) -> bool {
    t.len() <= s.len() && s.take(t.len() as int) == t
}

proof fn lemma_begins_with(a: Seq<u8>, b: Seq<u8>, c: Seq<u8>)
    requires
        begins_with(b, a),
        begins_with(c, b),
    ensures
        begins_with(c, a),
{
    assert(c.take(a.len() as int) =~= b.take(a.len() as int)) by {
        assert forall|k: int| 0 <= k < a.len() implies c[k] == b[k] by {
            assert(c.take(b.len() as int)[k] == b[k]);
        }
    }
}

// Reading.

/// How far reading has come: each answer so far but the last gave bytes, and so did
/// the last one where another read follows.
proof fn lemma_reads<S: TlsSession, Q: HttpServerConn, A: Address, const BUF: usize>(
    m: Mgr<S::V, Q::V, A>,
    c: ConnIo,
    os: Seq<ReadOutcome>,
    now: u64,
)
    ensures
        ({
            let r = ServerManager::<S, Q, A, BUF>::reads(
                Reading { m, c, done: 0, going: true },
                os,
                now,
            );
            let n = c.io.reads.len() as int;
            let all = r.c.io.reads;
            &&& r.c.id == c.id
            &&& r.c.pending == c.pending
            &&& r.c.pulled == c.pulled
            &&& r.c.io.written == c.io.written
            &&& r.c.io.writes == c.io.writes
            &&& c.eof ==> r.c.eof
            &&& all.take(n) == c.io.reads
            &&& forall|k: int| n <= k < all.len() - 1 ==> cycle::is_input(#[trigger] all[k])
            &&& if r.going {
                &&& all.len() == n + r.done
                &&& 0 <= r.done < cycle::MAX_READS_PER_CONN
                &&& r.done > 0 ==> cycle::is_input(all.last())
            } else {
                &&& n + 1 <= all.len() <= n + cycle::MAX_READS_PER_CONN
                &&& cycle::is_end(all.last()) ==> r.c.eof
            }
        }),
    decreases os.len(),
{
    reveal(ServerManager::read_step);
    let n = c.io.reads.len() as int;
    if os.len() == 0 {
        assert(c.io.reads.take(n) =~= c.io.reads);
    } else {
        lemma_reads::<S, Q, A, BUF>(m, c, os.drop_last(), now);
        let s = ServerManager::<S, Q, A, BUF>::reads(
            Reading { m, c, done: 0, going: true },
            os.drop_last(),
            now,
        );
        let r = ServerManager::<S, Q, A, BUF>::read_step(s, os.last(), now);
        if s.going {
            let all = r.c.io.reads;
            assert(all == s.c.io.reads.push(os.last()));
            assert(all.take(n) =~= s.c.io.reads.take(n));
            assert forall|k: int| n <= k < all.len() - 1 implies cycle::is_input(
                #[trigger] all[k],
            ) by {
                assert(all[k] == s.c.io.reads[k]);
            }
        }
    }
}

/// A pass that reads sees each connection in its turn, and leaves it alone after.
proof fn lemma_all_read<S: TlsSession, Q: HttpServerConn, A: Address, const BUF: usize>(
    m: Mgr<S::V, Q::V, A>,
    cs: Seq<ConnIo>,
    os: Seq<Seq<ReadOutcome>>,
    now: u64,
)
    requires
        os.len() <= cs.len(),
        ServerManager::<S, Q, A, BUF>::all_read(m, cs, os, now).ok,
    ensures
        ({
            let p = ServerManager::<S, Q, A, BUF>::all_read(m, cs, os, now);
            &&& p.conns.len() == cs.len()
            &&& forall|i: int| os.len() <= i < cs.len() ==> #[trigger] p.conns[i] == cs[i]
            &&& forall|i: int|
                0 <= i < os.len() ==> read_or_left(
                    cs[i],
                    #[trigger] p.conns[i],
                    ServerManager::<S, Q, A, BUF>::recv_blocked(
                        ServerManager::<S, Q, A, BUF>::all_read(m, cs, os.take(i), now).m,
                        cs[i].id,
                    ),
                )
        }),
    decreases os.len(),
{
    if os.len() > 0 {
        reveal(ServerManager::conn_read);
        let init = os.drop_last();
        let k = os.len() - 1;
        let q = ServerManager::<S, Q, A, BUF>::all_read(m, cs, init, now);
        let p = ServerManager::<S, Q, A, BUF>::all_read(m, cs, os, now);
        lemma_all_read::<S, Q, A, BUF>(m, cs, init, now);
        lemma_turn::<S, Q, A, BUF>(q, k, os.last(), now);
        assert(os.take(k) =~= init);
        assert(q.conns[k] == cs[k]);
        assert forall|i: int| 0 <= i < os.len() implies read_or_left(
            cs[i],
            #[trigger] p.conns[i],
            ServerManager::<S, Q, A, BUF>::recv_blocked(
                ServerManager::<S, Q, A, BUF>::all_read(m, cs, os.take(i), now).m,
                cs[i].id,
            ),
        ) by {
            if i < k {
                assert(p.conns[i] == q.conns[i]);
                assert(os.take(i) =~= init.take(i));
            }
        }
        assert forall|i: int| os.len() <= i < cs.len() implies #[trigger] p.conns[i]
            == cs[i] by {
            assert(p.conns[i] == q.conns[i]);
        }
    }
}

/// A connection in its turn to be read from.
pub open spec fn read_or_left(before: ConnIo, after: ConnIo, blocked: bool) -> bool {
    &&& after.id == before.id
    &&& after.pending == before.pending
    &&& after.pulled == before.pulled
    &&& after.io.written == before.io.written
    &&& before.eof ==> after.eof
    &&& if before.eof || blocked {
        cycle::not_read(before, after)
    } else {
        cycle::read_in_turn(before, after)
    }
}

proof fn lemma_turn<S: TlsSession, Q: HttpServerConn, A: Address, const BUF: usize>(
    q: Pass<S::V, Q::V, A>,
    k: int,
    os: Seq<ReadOutcome>,
    now: u64,
)
    requires
        0 <= k < q.conns.len(),
        ServerManager::<S, Q, A, BUF>::conn_read(q, k, os, now).ok,
    ensures
        ({
            let p = ServerManager::<S, Q, A, BUF>::conn_read(q, k, os, now);
            &&& q.ok
            &&& p.conns.len() == q.conns.len()
            &&& forall|i: int|
                0 <= i < q.conns.len() && i != k ==> #[trigger] p.conns[i] == q.conns[i]
            &&& read_or_left(
                q.conns[k],
                p.conns[k],
                ServerManager::<S, Q, A, BUF>::recv_blocked(q.m, q.conns[k].id),
            )
        }),
{
    reveal(ServerManager::conn_read);
    reveal(ServerManager::redriven);
    lemma_reads::<S, Q, A, BUF>(q.m, q.conns[k], os, now);
}

// Writing.

/// What writing does to a connection: output is kept and goes on in order.
pub open spec fn written_in_order(before: ConnIo, after: ConnIo) -> bool {
    &&& after.id == before.id
    &&& after.io.reads == before.io.reads
    &&& after.io.received == before.io.received
    &&& before.eof ==> after.eof
    &&& begins_with(after.pulled, before.pulled)
    &&& begins_with(after.io.written, before.io.written)
    &&& cycle::output_kept(before) ==> cycle::output_kept(after)
}

proof fn lemma_order(a: ConnIo, b: ConnIo, c: ConnIo)
    requires
        written_in_order(a, b),
        written_in_order(b, c),
    ensures
        written_in_order(a, c),
{
    lemma_begins_with(a.pulled, b.pulled, c.pulled);
    lemma_begins_with(a.io.written, b.io.written, c.io.written);
}

proof fn lemma_settled<S: TlsSession, Q: HttpServerConn, A: Address, const BUF: usize>(
    s: Writing<S::V, Q::V, A>,
)
    ensures
        written_in_order(s.c, ServerManager::<S, Q, A, BUF>::settled(s).c),
        ServerManager::<S, Q, A, BUF>::settled(s).ok == s.ok,
    decreases s.left,
{
    let t = ServerManager::<S, Q, A, BUF>::settled(s);
    assert(s.c.pulled.take(s.c.pulled.len() as int) =~= s.c.pulled);
    assert(s.c.io.written.take(s.c.io.written.len() as int) =~= s.c.io.written);
    if s.going && s.c.pending.len() == 0 && BUF > 0 && s.left > 0 {
        match ServerManager::<S, Q, A, BUF>::tcp_polled(s.m, s.c.id, cycle::IO_BUF as int) {
            (m, Some(d)) => {
                let u = Writing {
                    m,
                    c: ConnIo { pending: d, pulled: s.c.pulled + d, ..s.c },
                    left: s.left - 1,
                    ..s
                };
                assert(u.c.pulled.take(s.c.pulled.len() as int) =~= s.c.pulled);
                if cycle::output_kept(s.c) {
                    assert(s.c.io.written =~= s.c.pulled);
                }
                lemma_settled::<S, Q, A, BUF>(u);
                lemma_order(s.c, u.c, t.c);
            },
            (m, None) => {},
        }
    }
}

proof fn lemma_write_step<S: TlsSession, Q: HttpServerConn, A: Address, const BUF: usize>(
    s: Writing<S::V, Q::V, A>,
    o: WriteOutcome,
)
    requires
        ServerManager::<S, Q, A, BUF>::write_step(s, o).ok,
    ensures
        s.ok,
        written_in_order(s.c, ServerManager::<S, Q, A, BUF>::write_step(s, o).c),
{
    reveal(ServerManager::write_step);
    assert(s.c.pulled.take(s.c.pulled.len() as int) =~= s.c.pulled);
    assert(s.c.io.written.take(s.c.io.written.len() as int) =~= s.c.io.written);
    match o {
        WriteOutcome::Took(n) if s.going => {
            let u = Writing {
                c: ConnIo {
                    pending: s.c.pending.skip(n),
                    io: s.c.io.after_write(s.c.pending, o),
                    ..s.c
                },
                ok: s.ok && 0 <= n <= s.c.pending.len(),
                ..s
            };
            lemma_settled::<S, Q, A, BUF>(u);
            assert(u.c.io.written.take(s.c.io.written.len() as int) =~= s.c.io.written);
            assert(u.c.io.written + u.c.pending =~= s.c.io.written + s.c.pending);
            lemma_order(s.c, u.c, ServerManager::<S, Q, A, BUF>::settled(u).c);
        },
        _ => {},
    }
}

proof fn lemma_writes<S: TlsSession, Q: HttpServerConn, A: Address, const BUF: usize>(
    s: Writing<S::V, Q::V, A>,
    os: Seq<WriteOutcome>,
)
    requires
        ServerManager::<S, Q, A, BUF>::writes(s, os).ok,
    ensures
        s.ok,
        written_in_order(s.c, ServerManager::<S, Q, A, BUF>::writes(s, os).c),
    decreases os.len(),
{
    if os.len() == 0 {
        assert(s.c.pulled.take(s.c.pulled.len() as int) =~= s.c.pulled);
        assert(s.c.io.written.take(s.c.io.written.len() as int) =~= s.c.io.written);
    } else {
        let t = ServerManager::<S, Q, A, BUF>::writes(s, os.drop_last());
        lemma_write_step::<S, Q, A, BUF>(t, os.last());
        lemma_writes::<S, Q, A, BUF>(s, os.drop_last());
        lemma_order(s.c, t.c, ServerManager::<S, Q, A, BUF>::writes(s, os).c);
    }
}

proof fn lemma_all_written<S: TlsSession, Q: HttpServerConn, A: Address, const BUF: usize>(
    m: Mgr<S::V, Q::V, A>,
    cs: Seq<ConnIo>,
    os: Seq<Seq<WriteOutcome>>,
)
    requires
        os.len() <= cs.len(),
        ServerManager::<S, Q, A, BUF>::all_written(m, cs, os).ok,
    ensures
        ({
            let p = ServerManager::<S, Q, A, BUF>::all_written(m, cs, os);
            &&& p.conns.len() == cs.len()
            &&& forall|i: int| os.len() <= i < cs.len() ==> #[trigger] p.conns[i] == cs[i]
            &&& forall|i: int|
                0 <= i < os.len() ==> written_in_order(cs[i], #[trigger] p.conns[i])
        }),
    decreases os.len(),
{
    if os.len() > 0 {
        reveal(ServerManager::conn_written);
        let init = os.drop_last();
        let k = os.len() - 1;
        let q = ServerManager::<S, Q, A, BUF>::all_written(m, cs, init);
        let p = ServerManager::<S, Q, A, BUF>::all_written(m, cs, os);
        lemma_all_written::<S, Q, A, BUF>(m, cs, init);
        let w = Writing {
            m: q.m,
            c: q.conns[k],
            left: cycle::MAX_WRITES as int,
            going: true,
            more: false,
            ok: true,
        };
        let v = ServerManager::<S, Q, A, BUF>::settled(w);
        lemma_settled::<S, Q, A, BUF>(w);
        lemma_writes::<S, Q, A, BUF>(v, os.last());
        lemma_order(w.c, v.c, ServerManager::<S, Q, A, BUF>::writes(v, os.last()).c);
        assert(q.conns[k] == cs[k]);
        assert forall|i: int| 0 <= i < os.len() implies written_in_order(
            cs[i],
            #[trigger] p.conns[i],
        ) by {
            if i < k {
                assert(p.conns[i] == q.conns[i]);
            }
        }
        assert forall|i: int| os.len() <= i < cs.len() implies #[trigger] p.conns[i]
            == cs[i] by {
            assert(p.conns[i] == q.conns[i]);
        }
    }
}

// Whole cycles.

/// Each source of input is asked in every cycle, and within its bound: a listener
/// once, and a connection's stream at most so often that others are not starved.
/// A stream is not read again after an answer that gives no bytes, and not at all
/// once it has ended, or while its connection holds data behind a full buffer.
pub proof fn sources_are_asked_in_turn<
    S: TlsSession,
    Q: HttpServerConn,
    A: Address,
    PV,
    const BUF: usize,
>(s: RunnerModel<S::V, Q::V, A, PV>, script: Script<A>, now: u64)
    requires
        ServerManager::<S, Q, A, BUF>::tcp_cycle(s, script, now).2,
    ensures
        ServerManager::<S, Q, A, BUF>::reads_in_turn(s, script, now),
        ServerManager::<S, Q, A, BUF>::accepts_in_turn(
            s,
            ServerManager::<S, Q, A, BUF>::tcp_cycle(s, script, now).0,
        ),
{
    let a = ServerManager::<S, Q, A, BUF>::accepts(s, script, now);
    let r = ServerManager::<S, Q, A, BUF>::all_read(a.mgr, a.conns, script.reads, now);
    lemma_all_read::<S, Q, A, BUF>(a.mgr, a.conns, script.reads, now);
    lemma_all_written::<S, Q, A, BUF>(r.m, r.conns, script.writes);
    let ds = ServerManager::<S, Q, A, BUF>::tcp_cycle(s, script, now).0.conns;
    assert forall|i: int| 0 <= i < a.conns.len() implies (#[trigger] ds[i]).id == a.conns[i].id && (
    a.conns[i].eof ==> ds[i].eof) && if a.conns[i].eof
        || ServerManager::<S, Q, A, BUF>::recv_blocked(
        ServerManager::<S, Q, A, BUF>::at_turn(s, script, i, now),
        a.conns[i].id,
    ) {
        cycle::not_read(a.conns[i], ds[i])
    } else {
        cycle::read_in_turn(a.conns[i], ds[i])
    } by {
        let c = r.conns[i];
        assert(written_in_order(c, ds[i]));
    }
}

/// A connection that was there keeps its place among the sockets while TCP is
/// driven; connections that are accepted come behind.
pub proof fn accepted_connections_come_last<
    S: TlsSession,
    Q: HttpServerConn,
    A: Address,
    PV,
    const BUF: usize,
>(s: RunnerModel<S::V, Q::V, A, PV>, script: Script<A>, now: u64)
    ensures
        ({
            let a = ServerManager::<S, Q, A, BUF>::accepts(s, script, now);
            s.conns.len() <= a.conns.len() <= s.conns.len() + 2 && a.conns.take(
                s.conns.len() as int,
            ) == s.conns
        }),
{
    let a = ServerManager::<S, Q, A, BUF>::accepts(s, script, now);
    assert(a.conns.take(s.conns.len() as int) =~= s.conns);
}

/// A stream that has ended is not read from, and stays ended, in every cycle.
pub proof fn ended_streams_are_not_read<
    S: TlsSession,
    Q: HttpServerConn,
    A: Address,
    PV,
    const BUF: usize,
>(s: RunnerModel<S::V, Q::V, A, PV>, script: Script<A>, now: u64, i: int)
    requires
        ServerManager::<S, Q, A, BUF>::tcp_cycle(s, script, now).2,
        0 <= i < s.conns.len(),
        s.conns[i].eof,
    ensures
        ({
            let ds = ServerManager::<S, Q, A, BUF>::tcp_cycle(s, script, now).0.conns;
            &&& i < ds.len()
            &&& ds[i].id == s.conns[i].id
            &&& ds[i].eof
            &&& cycle::not_read(s.conns[i], ds[i])
        }),
{
    sources_are_asked_in_turn::<S, Q, A, PV, BUF>(s, script, now);
    accepted_connections_come_last::<S, Q, A, PV, BUF>(s, script, now);
    let a = ServerManager::<S, Q, A, BUF>::accepts(s, script, now);
    assert(a.conns.take(s.conns.len() as int)[i] == s.conns[i]);
    let ds = ServerManager::<S, Q, A, BUF>::tcp_cycle(s, script, now).0.conns;
    assert(ds[i].id == a.conns[i].id);
}

/// How far receiving has come.
proof fn lemma_receives<
    S: TlsSession,
    Q: QuicServer<P>,
    A: Address,
    P: HandshakePoolAccess,
    const BUF: usize,
>(s: Receiving<S::V, Q::V, A, P::V>, os: Seq<(ReceiveOutcome<A>, Seq<u8>)>, now: u64)
    requires
        s.done == 0,
        s.going,
    ensures
        ({
            let r = ServerManager::<S, Q, A, BUF>::receives::<P>(s, os, now);
            let n = s.udp.io.receives.len();
            &&& r.udp.io.sends == s.udp.io.sends
            &&& r.udp.pending == s.udp.pending
            &&& if r.going {
                r.udp.io.receives.len() == n + r.done && 0 <= r.done < cycle::MAX_UDP_READS
            } else {
                n + 1 <= r.udp.io.receives.len() <= n + cycle::MAX_UDP_READS
            }
        }),
    decreases os.len(),
{
    reveal(ServerManager::receive_step);
    if os.len() > 0 {
        lemma_receives::<S, Q, A, P, BUF>(s, os.drop_last(), now);
    }
}

proof fn lemma_sends<
    S: TlsSession,
    Q: QuicServer<P>,
    A: Address,
    P: HandshakePoolAccess,
    const BUF: usize,
>(s: Sending<S::V, Q::V, A, P::V>, os: Seq<(A, SendOutcome)>, now: u64)
    ensures
        ServerManager::<S, Q, A, BUF>::sends::<P>(s, os, now).udp.io.receives
            == s.udp.io.receives,
    decreases os.len(),
{
    reveal(ServerManager::send_step);
    if os.len() > 0 {
        lemma_sends::<S, Q, A, P, BUF>(s, os.drop_last(), now);
    }
}

/// Datagrams are asked for in every cycle, and at most so often that others are
/// not starved.
pub proof fn datagrams_are_asked_for_in_turn<
    S: TlsSession,
    Q: QuicServer<P>,
    A: Address,
    P: HandshakePoolAccess,
    const BUF: usize,
>(s: RunnerModel<S::V, Q::V, A, P::V>, script: Script<A>, now: u64)
    requires
        ServerManager::<S, Q, A, BUF>::udp_cycle::<P>(s, script, now).2,
    ensures
        ({
            let n = s.udp.io.receives.len();
            let t = ServerManager::<S, Q, A, BUF>::udp_cycle::<P>(s, script, now).0;
            n + 1 <= t.udp.io.receives.len() <= n + cycle::MAX_UDP_READS
        }),
{
    let r0 = Receiving {
        m: s.mgr,
        pool: s.pool,
        udp: s.udp,
        drawn: s.drawn,
        done: 0,
        going: true,
    };
    lemma_receives::<S, Q, A, P, BUF>(r0, script.datagrams, now);
    let r = ServerManager::<S, Q, A, BUF>::receives::<P>(r0, script.datagrams, now);
    let (m, pool) = ServerManager::<S, Q, A, BUF>::reaped_from::<P>(
        ServerManager::<S, Q, A, BUF>::tcp_timed_from(r.m, 0, now),
        0,
        now,
        r.pool,
    );
    let w = Sending {
        m,
        pool,
        udp: r.udp,
        held: true,
        left: cycle::MAX_WRITES as int,
        going: true,
        more: false,
        ok: true,
    };
    lemma_sends::<S, Q, A, P, BUF>(
        ServerManager::<S, Q, A, BUF>::loaded::<P>(w, now),
        script.sends,
        now,
    );
}

/// Output reaches the sockets in order, and none of it is lost or repeated on the
/// way, whatever the sockets answer: after every cycle, what was written and what
/// waits to be written is all the output that there was for a connection, and what
/// was written before it stays written.
pub proof fn output_reaches_the_sockets_in_order<
    S: TlsSession,
    Q: QuicServer<P>,
    A: Address,
    P: HandshakePoolAccess,
    const BUF: usize,
>(s: RunnerModel<S::V, Q::V, A, P::V>, script: Script<A>, now: u64)
    requires
        ServerManager::<S, Q, A, BUF>::cycle::<P>(s, script, now).3,
        forall|i: int| 0 <= i < s.conns.len() ==> cycle::output_kept(#[trigger] s.conns[i]),
    ensures
        ({
            let ds = ServerManager::<S, Q, A, BUF>::tcp_cycle(s, script, now).0.conns;
            let es = ServerManager::<S, Q, A, BUF>::cycle::<P>(s, script, now).0.conns;
            &&& forall|k: int| 0 <= k < es.len() ==> cycle::output_kept(#[trigger] es[k])
            &&& forall|k: int| 0 <= k < es.len() ==> ds.contains(#[trigger] es[k])
            &&& s.conns.len() <= ds.len()
            &&& forall|i: int|
                0 <= i < s.conns.len() ==> begins_with(
                    (#[trigger] ds[i]).io.written,
                    s.conns[i].io.written,
                ) && begins_with(ds[i].pulled, s.conns[i].pulled)
        }),
{
    let a = ServerManager::<S, Q, A, BUF>::accepts(s, script, now);
    let r = ServerManager::<S, Q, A, BUF>::all_read(a.mgr, a.conns, script.reads, now);
    accepted_connections_come_last::<S, Q, A, P::V, BUF>(s, script, now);
    lemma_all_read::<S, Q, A, BUF>(a.mgr, a.conns, script.reads, now);
    lemma_all_written::<S, Q, A, BUF>(r.m, r.conns, script.writes);
    let ds = ServerManager::<S, Q, A, BUF>::tcp_cycle(s, script, now).0.conns;
    assert forall|i: int| 0 <= i < a.conns.len() implies cycle::output_kept(
        #[trigger] a.conns[i],
    ) by {
        if i < s.conns.len() {
            assert(a.conns.take(s.conns.len() as int)[i] == s.conns[i]);
        } else {
            assert(a.conns[i].io.written + a.conns[i].pending =~= a.conns[i].pulled);
        }
    }
    assert forall|i: int| 0 <= i < ds.len() implies cycle::output_kept(#[trigger] ds[i]) by {
        assert(cycle::output_kept(a.conns[i]));
        let c = r.conns[i];
        assert(cycle::output_kept(c));
        assert(written_in_order(c, ds[i]));
    }
    assert forall|i: int| 0 <= i < s.conns.len() implies begins_with(
        (#[trigger] ds[i]).io.written,
        s.conns[i].io.written,
    ) && begins_with(ds[i].pulled, s.conns[i].pulled) by {
        let c = r.conns[i];
        assert(a.conns.take(s.conns.len() as int)[i] == s.conns[i]);
        assert(written_in_order(c, ds[i]));
    }
    let es = ServerManager::<S, Q, A, BUF>::cycle::<P>(s, script, now).0.conns;
    assert forall|k: int| 0 <= k < es.len() implies ds.contains(#[trigger] es[k])
        && cycle::output_kept(es[k]) by {
        let t = ServerManager::<S, Q, A, BUF>::tcp_cycle(s, script, now).0;
        let u = ServerManager::<S, Q, A, BUF>::udp_cycle::<P>(t, script, now).0;
        assert(u.conns == ds);
        match ServerManager::<S, Q, A, BUF>::event_cycle(u).1 {
            Some(ServerEvent::Closed(id)) => {
                lemma_without(ds, id, k);
            },
            _ => {
                assert(es[k] == ds[k]);
            },
        }
    }
}

/// When the application is told that a connection is closed, its socket is gone.
pub proof fn closed_connections_have_no_socket<
    S: TlsSession,
    Q: HttpServerConn,
    A: Address,
    PV,
    const BUF: usize,
>(s: RunnerModel<S::V, Q::V, A, PV>, id: ConnId, k: int)
    requires
        ServerManager::<S, Q, A, BUF>::event_cycle(s).1 == Some(ServerEvent::Closed(id)),
        0 <= k < ServerManager::<S, Q, A, BUF>::event_cycle(s).0.conns.len(),
    ensures
        ServerManager::<S, Q, A, BUF>::event_cycle(s).0.conns[k].id != id,
{
    lemma_without(s.conns, id, k);
}

pub(crate) proof fn lemma_without(cs: Seq<ConnIo>, id: ConnId, k: int)
    requires
        0 <= k < cycle::without(cs, id).len(),
    ensures
        cycle::without(cs, id)[k].id != id,
        cs.contains(cycle::without(cs, id)[k]),
    decreases cs.len(),
{
    if cs.len() > 0 {
        let pp = cycle::without(cs.drop_last(), id);
        if k < pp.len() {
            lemma_without(cs.drop_last(), id, k);
            let j = choose|j: int| 0 <= j < cs.drop_last().len() && cs.drop_last()[j] == pp[k];
            assert(cs[j] == pp[k]);
        } else {
            assert(cs[cs.len() - 1] == cs.last());
        }
    }
}

} // verus!
