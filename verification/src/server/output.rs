//! Where the output of connections goes, over any number of poll cycles.

use vstd::prelude::*;

use super::cycle;
use super::cycle::{ConnIo, RunnerModel, Script, Writing};
use super::manager::{Mgr, ServerManager};
use super::turns;
use super::turns::begins_with;
use crate::http::server_conn::HttpServerConn;
use crate::quic::{HandshakePoolAccess, QuicServer};
use crate::tls::TlsSession;
use crate::transport::{Address, WriteOutcome};

verus! {

/// A poll cycle: the manager and the handshake slots as the application left them,
/// what the surroundings do, and when.
pub struct Turn<TV, QV, A, PV> {
    pub mgr: Mgr<TV, QV, A>,
    pub pool: PV,
    pub script: Script<A>,
    pub now: u64,
}

/// The runner before the last of these cycles.
pub open spec fn before_last<
    S: TlsSession,
    Q: QuicServer<P>,
    A: Address,
    P: HandshakePoolAccess,
    const BUF: usize,
>(
    s: RunnerModel<S::V, Q::V, A, P::V>,
    turns: Seq<Turn<S::V, Q::V, A, P::V>>,
) -> RunnerModel<S::V, Q::V, A, P::V>
    decreases turns.len(), 0int,
{
    if turns.len() == 0 {
        s
    } else {
        RunnerModel {
            mgr: turns.last().mgr,
            pool: turns.last().pool,
            ..cycles::<S, Q, A, P, BUF>(s, turns.drop_last())
        }
    }
}

/// The runner after these cycles.
pub open spec fn cycles<
    S: TlsSession,
    Q: QuicServer<P>,
    A: Address,
    P: HandshakePoolAccess,
    const BUF: usize,
>(
    s: RunnerModel<S::V, Q::V, A, P::V>,
    turns: Seq<Turn<S::V, Q::V, A, P::V>>,
) -> RunnerModel<S::V, Q::V, A, P::V>
    decreases turns.len(), 1int,
{
    if turns.len() == 0 {
        s
    } else {
        ServerManager::<S, Q, A, BUF>::cycle::<P>(
            before_last::<S, Q, A, P, BUF>(s, turns),
            turns.last().script,
            turns.last().now,
        ).0
    }
}

/// The script of each of these cycles fits.
pub open spec fn cycles_fit<
    S: TlsSession,
    Q: QuicServer<P>,
    A: Address,
    P: HandshakePoolAccess,
    const BUF: usize,
>(s: RunnerModel<S::V, Q::V, A, P::V>, turns: Seq<Turn<S::V, Q::V, A, P::V>>) -> bool
    decreases turns.len(),
{
    turns.len() > 0 ==> {
        &&& cycles_fit::<S, Q, A, P, BUF>(s, turns.drop_last())
        &&& ServerManager::<S, Q, A, BUF>::cycle::<P>(
            before_last::<S, Q, A, P, BUF>(s, turns),
            turns.last().script,
            turns.last().now,
        ).3
    }
}

/// Nothing of a connection's output is lost or repeated: what its stream took is the
/// front of all the output that was pulled for it, and the rest is kept.
pub open spec fn all_kept(cs: Seq<ConnIo>) -> bool {
    forall|i: int|
        0 <= i < cs.len() ==> {
            &&& cycle::output_kept(#[trigger] cs[i])
            &&& begins_with(cs[i].pulled, cs[i].io.written)
            &&& cs[i].pending == cs[i].pulled.skip(cs[i].io.written.len() as int)
        }
}

/// A cycle keeps the output of all connections, of those that it accepts too.
pub proof fn cycles_keep_output<
    S: TlsSession,
    Q: QuicServer<P>,
    A: Address,
    P: HandshakePoolAccess,
    const BUF: usize,
>(s: RunnerModel<S::V, Q::V, A, P::V>, script: Script<A>, now: u64)
    requires
        ServerManager::<S, Q, A, BUF>::cycle::<P>(s, script, now).3,
        all_kept(s.conns),
    ensures
        all_kept(ServerManager::<S, Q, A, BUF>::cycle::<P>(s, script, now).0.conns),
{
    turns::output_reaches_the_sockets_in_order::<S, Q, A, P, BUF>(s, script, now);
    let es = ServerManager::<S, Q, A, BUF>::cycle::<P>(s, script, now).0.conns;
    assert forall|k: int| 0 <= k < es.len() implies {
        &&& cycle::output_kept(#[trigger] es[k])
        &&& begins_with(es[k].pulled, es[k].io.written)
        &&& es[k].pending == es[k].pulled.skip(es[k].io.written.len() as int)
    } by {
        let c = es[k];
        assert(c.pulled.take(c.io.written.len() as int) =~= c.io.written);
        assert(c.pulled.skip(c.io.written.len() as int) =~= c.pending);
    }
}

/// Over any number of cycles, whatever the sockets answer and whatever the
/// application does in between: the bytes that a stream took are the front of all
/// the output that was pulled for its connection, and the rest is kept.
pub proof fn output_is_never_lost<
    S: TlsSession,
    Q: QuicServer<P>,
    A: Address,
    P: HandshakePoolAccess,
    const BUF: usize,
>(s: RunnerModel<S::V, Q::V, A, P::V>, turns: Seq<Turn<S::V, Q::V, A, P::V>>)
    requires
        s.conns.len() == 0,
        cycles_fit::<S, Q, A, P, BUF>(s, turns),
    ensures
        all_kept(cycles::<S, Q, A, P, BUF>(s, turns).conns),
    decreases turns.len(),
{
    if turns.len() > 0 {
        output_is_never_lost::<S, Q, A, P, BUF>(s, turns.drop_last());
        cycles_keep_output::<S, Q, A, P, BUF>(
            before_last::<S, Q, A, P, BUF>(s, turns),
            turns.last().script,
            turns.last().now,
        );
    }
}

/// What the manager gives out for a connection until there is some to write, or
/// none is left.
pub open spec fn polled_output<S: TlsSession, Q: HttpServerConn, A: Address, const BUF: usize>(
    s: Writing<S::V, Q::V, A>,
) -> Seq<u8>
    decreases s.left,
{
    if !s.going || s.c.pending.len() > 0 || BUF == 0 || s.left <= 0 {
        Seq::empty()
    } else {
        match ServerManager::<S, Q, A, BUF>::tcp_polled(s.m, s.c.id, cycle::IO_BUF as int) {
            (m, Some(d)) => d + polled_output::<S, Q, A, BUF>(
                Writing {
                    m,
                    c: ConnIo { pending: d, pulled: s.c.pulled + d, ..s.c },
                    left: s.left - 1,
                    ..s
                },
            ),
            (m, None) => Seq::empty(),
        }
    }
}

/// What is pulled for a connection is what the manager gives out for it, in order.
pub proof fn pulled_output_is_what_was_polled<
    S: TlsSession,
    Q: HttpServerConn,
    A: Address,
    const BUF: usize,
>(s: Writing<S::V, Q::V, A>)
    ensures
        ServerManager::<S, Q, A, BUF>::settled(s).c.pulled == s.c.pulled + polled_output::<
            S,
            Q,
            A,
            BUF,
        >(s),
        ServerManager::<S, Q, A, BUF>::settled(s).c.io == s.c.io,
    decreases s.left,
{
    let p = s.c.pulled;
    assert(p + Seq::<u8>::empty() =~= p);
    if s.going && s.c.pending.len() == 0 && BUF > 0 && s.left > 0 {
        match ServerManager::<S, Q, A, BUF>::tcp_polled(s.m, s.c.id, cycle::IO_BUF as int) {
            (m, Some(d)) => {
                let u = Writing {
                    m,
                    c: ConnIo { pending: d, pulled: p + d, ..s.c },
                    left: s.left - 1,
                    ..s
                };
                pulled_output_is_what_was_polled::<S, Q, A, BUF>(u);
                let rest = polled_output::<S, Q, A, BUF>(u);
                assert(p + d + rest =~= p + (d + rest));
            },
            (m, None) => {},
        }
    }
}

/// Output that is kept is offered first: while there is some, none is pulled, and
/// the next write is given just that.
pub proof fn kept_output_is_offered_first<
    S: TlsSession,
    Q: HttpServerConn,
    A: Address,
    const BUF: usize,
>(s: Writing<S::V, Q::V, A>, o: WriteOutcome)
    requires
        s.going,
        s.c.pending.len() > 0,
    ensures
        ServerManager::<S, Q, A, BUF>::settled(s) == s,
        polled_output::<S, Q, A, BUF>(s) == Seq::<u8>::empty(),
        ServerManager::<S, Q, A, BUF>::write_step(s, o).c.io.writes == s.c.io.writes.push(
            (s.c.pending, o),
        ),
{
    reveal(ServerManager::write_step);
    match o {
        WriteOutcome::Took(n) => {
            pulled_output_is_what_was_polled::<S, Q, A, BUF>(
                Writing {
                    c: ConnIo {
                        pending: s.c.pending.skip(n),
                        io: s.c.io.after_write(s.c.pending, o),
                        ..s.c
                    },
                    ok: s.ok && 0 <= n <= s.c.pending.len(),
                    ..s
                },
            );
        },
        _ => {},
    }
}

} // verus!
