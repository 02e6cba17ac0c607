//! What a poll cycle of the runner does with what its sockets answer.

use vstd::prelude::*;

use super::manager::{Mgr, ServerManager};
use super::{ConnId, ServerEvent};
use crate::http::server_conn::HttpServerConn;
use crate::quic::{HandshakePoolAccess, QuicServer};
use crate::tls::TlsSession;
use crate::transport::{
    AcceptOutcome, Address, ReadOutcome, ReceiveOutcome, SendOutcome, SocketHistory, StreamHistory,
    WriteOutcome,
};

verus! {

/// Maximum reads per TCP connection per cycle, to avoid starvation.
pub const MAX_READS_PER_CONN: usize = 4;

/// Maximum UDP datagrams to process per cycle.
pub const MAX_UDP_READS: usize = 8;

/// Maximum chunks of output per TCP connection, and maximum datagrams to send,
/// per cycle.
pub const MAX_WRITES: usize = 1024;

/// Size of the buffer that TCP data and UDP datagrams are read into, and of that
/// which TCP output is pulled into.
pub const IO_BUF: usize = 1500;

/// Size of the largest datagram that is sent. A QUIC endpoint must not send more
/// until the path is known to carry it (RFC 9000 section 14).
pub const TX_BUF: usize = 1200;

/// What is known of a TCP connection's socket.
#[verifier::ext_equal]
pub struct ConnIo {
    pub id: ConnId,
    /// Output that the socket has not taken yet.
    pub pending: Seq<u8>,
    /// Nothing more is read from it.
    pub eof: bool,
    /// All output for it, behind what it had written when it was accepted.
    pub pulled: Seq<u8>,
    pub io: StreamHistory,
}

/// What is known of the UDP side.
pub struct UdpIo<A> {
    /// A datagram that the socket has not taken yet, and where it goes.
    pub pending: Option<(Seq<u8>, A)>,
    pub io: SocketHistory<A>,
    pub feed_errors: u32,
    pub send_errors: u32,
}

/// What the runner knows.
pub struct RunnerModel<TV, QV, A, PV> {
    pub mgr: Mgr<TV, QV, A>,
    pub conns: Seq<ConnIo>,
    pub udp: UdpIo<A>,
    pub pool: PV,
    pub has_tls: bool,
    pub has_cleartext: bool,
    /// All that the TLS listener has answered.
    pub tls_accepts: Seq<AcceptOutcome>,
    /// All that the cleartext listener has answered.
    pub cleartext_accepts: Seq<AcceptOutcome>,
    /// All that was drawn from the generator.
    pub drawn: Seq<Seq<u8>>,
}

/// What the surroundings do in a cycle.
pub struct Script<A> {
    /// The answer of the TLS listener, and the random bytes for the handshake of
    /// a connection that it gives.
    pub tls: Option<(AcceptOutcome, Seq<u8>, Seq<u8>)>,
    /// The answer of the cleartext listener.
    pub cleartext: Option<AcceptOutcome>,
    /// For each connection, the answers to its reads.
    pub reads: Seq<Seq<ReadOutcome>>,
    /// For each connection, the answers to its writes.
    pub writes: Seq<Seq<WriteOutcome>>,
    /// The answers to attempts to receive a datagram, and the random bytes for a
    /// connection that it starts.
    pub datagrams: Seq<(ReceiveOutcome<A>, Seq<u8>)>,
    /// For each datagram that is sent, the address it is sent to and the answer.
    pub sends: Seq<(A, SendOutcome)>,
}

/// A connection while it is read from.
pub struct Reading<TV, QV, A> {
    pub m: Mgr<TV, QV, A>,
    pub c: ConnIo,
    /// Reads that gave data.
    pub done: int,
    /// Another read follows.
    pub going: bool,
}

/// A connection while it is written to.
pub struct Writing<TV, QV, A> {
    pub m: Mgr<TV, QV, A>,
    pub c: ConnIo,
    /// How many chunks may still be pulled.
    pub left: int,
    /// Another write follows.
    pub going: bool,
    /// Output was left for later.
    pub more: bool,
    /// No write took more than it was given.
    pub ok: bool,
}

/// The UDP side while datagrams are received.
pub struct Receiving<TV, QV, A, PV> {
    pub m: Mgr<TV, QV, A>,
    pub pool: PV,
    pub udp: UdpIo<A>,
    pub drawn: Seq<Seq<u8>>,
    pub done: int,
    pub going: bool,
}

/// The UDP side while datagrams are sent.
pub struct Sending<TV, QV, A, PV> {
    pub m: Mgr<TV, QV, A>,
    pub pool: PV,
    pub udp: UdpIo<A>,
    /// The datagram at hand was held back in an earlier cycle.
    pub held: bool,
    pub left: int,
    pub going: bool,
    pub more: bool,
    /// Every datagram was sent where it should go.
    pub ok: bool,
}

/// The connections after a pass over them.
pub struct Pass<TV, QV, A> {
    pub m: Mgr<TV, QV, A>,
    pub conns: Seq<ConnIo>,
    pub more: bool,
    /// Every connection was seen through.
    pub ok: bool,
}

impl ConnIo {
    /// A connection that was just accepted.
    pub open spec fn fresh(id: ConnId, io: StreamHistory) -> Self {
        ConnIo { id, pending: Seq::empty(), eof: false, pulled: io.written, io }
    }

    pub open spec fn ended(self) -> Self {
        ConnIo { eof: true, ..self }
    }
}

/// As many random bytes as a secret, a nonce or a seed takes.
pub open spec fn is_draw(d: Seq<u8>) -> bool {
    d.len() == 32
}

/// An answer to a read after which another read may follow.
pub open spec fn is_input(o: ReadOutcome) -> bool {
    o matches ReadOutcome::Data(d) && d.len() > 0
}

/// An answer to a read that ends the stream.
pub open spec fn is_end(o: ReadOutcome) -> bool {
    match o {
        ReadOutcome::Data(d) => d.len() == 0,
        ReadOutcome::Failed => true,
        ReadOutcome::Wait => false,
    }
}

/// A stream was read from at least once, at most so often that others are not
/// starved, and not again after an answer that gives no bytes. One that ended is
/// known to have.
pub open spec fn read_in_turn(before: ConnIo, after: ConnIo) -> bool {
    let n = before.io.reads.len() as int;
    let all = after.io.reads;
    &&& n + 1 <= all.len() <= n + MAX_READS_PER_CONN
    &&& all.take(n) == before.io.reads
    &&& forall|k: int| n <= k < all.len() - 1 ==> is_input(#[trigger] all[k])
    &&& is_end(all.last()) ==> after.eof
}

/// A stream was left alone.
pub open spec fn not_read(before: ConnIo, after: ConnIo) -> bool {
    after.io.reads == before.io.reads && after.io.received == before.io.received
}

/// What was written and what waits to be written is all the output there was.
pub open spec fn output_kept(c: ConnIo) -> bool {
    c.io.written + c.pending == c.pulled
}

/// The connections with another handle.
pub open spec fn without(cs: Seq<ConnIo>, id: ConnId) -> Seq<ConnIo>
    decreases cs.len(),
{
    if cs.len() == 0 {
        Seq::empty()
    } else if cs.last().id == id {
        without(cs.drop_last(), id)
    } else {
        without(cs.drop_last(), id).push(cs.last())
    }
}

/// A count that starts over when it cannot grow.
pub open spec fn counted(n: u32) -> u32 {
    if n == u32::MAX {
        0
    } else {
        (n + 1) as u32
    }
}

impl<S: TlsSession, Q: HttpServerConn, A: Address, const BUF: usize> ServerManager<S, Q, A, BUF> {
    /// The TLS listener is asked for a connection, where there is such a listener.
    pub open spec fn accepts_tls<PV>(
        s: RunnerModel<S::V, Q::V, A, PV>,
        got: Option<(AcceptOutcome, Seq<u8>, Seq<u8>)>,
        now: u64,
    ) -> RunnerModel<S::V, Q::V, A, PV> {
        match got {
            Some((o, secret, random)) => {
                let t = RunnerModel { tls_accepts: s.tls_accepts.push(o), ..s };
                match o {
                    AcceptOutcome::Stream(io) => {
                        let (m, r) = Self::accepted(s.mgr, secret, random, now);
                        RunnerModel {
                            mgr: m,
                            conns: match r {
                                Ok(id) => s.conns.push(ConnIo::fresh(id, io)),
                                Err(_) => s.conns,
                            },
                            drawn: Self::accept_drawn(s.mgr, s.drawn, secret, random),
                            ..t
                        }
                    },
                    _ => t,
                }
            },
            None => s,
        }
    }

    /// The cleartext listener is asked for a connection, where there is such a
    /// listener.
    pub open spec fn accepts_cleartext<PV>(
        s: RunnerModel<S::V, Q::V, A, PV>,
        got: Option<AcceptOutcome>,
        now: u64,
    ) -> RunnerModel<S::V, Q::V, A, PV> {
        match got {
            Some(o) => {
                let t = RunnerModel { cleartext_accepts: s.cleartext_accepts.push(o), ..s };
                match o {
                    AcceptOutcome::Stream(io) => {
                        let (m, r) = Self::accepted_cleartext(s.mgr, now);
                        RunnerModel {
                            mgr: m,
                            conns: match r {
                                Ok(id) => s.conns.push(ConnIo::fresh(id, io)),
                                Err(_) => s.conns,
                            },
                            ..t
                        }
                    },
                    _ => t,
                }
            },
            None => s,
        }
    }

    /// Both listeners are asked.
    pub open spec fn accepts<PV>(
        s: RunnerModel<S::V, Q::V, A, PV>,
        script: Script<A>,
        now: u64,
    ) -> RunnerModel<S::V, Q::V, A, PV> {
        Self::accepts_cleartext(Self::accepts_tls(s, script.tls, now), script.cleartext, now)
    }

    /// A read is answered.
    #[verifier::opaque]
    pub open spec fn read_step(s: Reading<S::V, Q::V, A>, o: ReadOutcome, now: u64) -> Reading<
        S::V,
        Q::V,
        A,
    > {
        let c = ConnIo { io: s.c.io.after_read(o), ..s.c };
        match o {
            _ if !s.going => s,
            ReadOutcome::Wait => Reading { c, going: false, ..s },
            ReadOutcome::Failed => Reading {
                m: Self::ended(s.m, s.c.id),
                c: c.ended(),
                going: false,
                ..s
            },
            ReadOutcome::Data(d) => if d.len() == 0 {
                Reading { m: Self::ended(s.m, s.c.id), c: c.ended(), going: false, ..s }
            } else {
                match Self::tcp_fed(s.m, s.c.id, d, now) {
                    (m, Ok(_)) => Reading {
                        m,
                        c,
                        done: s.done + 1,
                        going: s.done + 1 < MAX_READS_PER_CONN,
                    },
                    (m, Err(_)) => Reading {
                        m: Self::ended(m, s.c.id),
                        c: c.ended(),
                        done: s.done + 1,
                        going: false,
                    },
                }
            },
        }
    }

    /// Reads are answered in order.
    pub open spec fn reads(s: Reading<S::V, Q::V, A>, os: Seq<ReadOutcome>, now: u64) -> Reading<
        S::V,
        Q::V,
        A,
    >
        decreases os.len(),
    {
        if os.len() == 0 {
            s
        } else {
            Self::read_step(Self::reads(s, os.drop_last(), now), os.last(), now)
        }
    }

    /// A connection that holds data behind a full buffer is not read from: what
    /// it holds is processed further, as far as there is room.
    #[verifier::opaque]
    pub open spec fn redriven(m: Mgr<S::V, Q::V, A>, c: ConnIo, now: u64) -> (Mgr<S::V, Q::V, A>, ConnIo) {
        match Self::tcp_fed(m, c.id, Seq::empty(), now) {
            (t, Ok(_)) => (t, c),
            (t, Err(_)) => (Self::ended(t, c.id), c.ended()),
        }
    }

    /// A pass that reads from the connections in order.
    pub open spec fn all_read(m: Mgr<S::V, Q::V, A>, cs: Seq<ConnIo>, os: Seq<Seq<ReadOutcome>>, now: u64) -> Pass<
        S::V,
        Q::V,
        A,
    >
        decreases os.len(),
    {
        if os.len() == 0 {
            Pass { m, conns: cs, more: false, ok: true }
        } else {
            Self::conn_read(Self::all_read(m, cs, os.drop_last(), now), os.len() - 1, os.last(), now)
        }
    }

    /// The connection at `i` is read from, in a pass.
    #[verifier::opaque]
    pub open spec fn conn_read(
        p: Pass<S::V, Q::V, A>,
        i: int,
        os: Seq<ReadOutcome>,
        now: u64,
    ) -> Pass<S::V, Q::V, A> {
        let c = p.conns[i];
        if c.eof {
            p
        } else if Self::recv_blocked(p.m, c.id) {
            let (m, d) = Self::redriven(p.m, c, now);
            Pass { m, conns: p.conns.update(i, d), more: true, ok: p.ok }
        } else {
            let r = Self::reads(Reading { m: p.m, c, done: 0, going: true }, os, now);
            Pass {
                m: r.m,
                conns: p.conns.update(i, r.c),
                more: p.more || r.done >= MAX_READS_PER_CONN,
                ok: p.ok && !r.going,
            }
        }
    }

    /// Output is pulled until there is some to write, or none is left.
    pub open spec fn settled(s: Writing<S::V, Q::V, A>) -> Writing<S::V, Q::V, A>
        decreases s.left,
    {
        if !s.going || s.c.pending.len() > 0 {
            s
        } else if BUF == 0 || s.left <= 0 {
            Writing { going: false, more: true, ..s }
        } else {
            match Self::tcp_polled(s.m, s.c.id, IO_BUF as int) {
                (m, Some(d)) => Self::settled(
                    Writing {
                        m,
                        c: ConnIo { pending: d, pulled: s.c.pulled + d, ..s.c },
                        left: s.left - 1,
                        ..s
                    },
                ),
                (m, None) => Writing { m, going: false, ..s },
            }
        }
    }

    /// A write is answered.
    #[verifier::opaque]
    pub open spec fn write_step(s: Writing<S::V, Q::V, A>, o: WriteOutcome) -> Writing<
        S::V,
        Q::V,
        A,
    > {
        let c = ConnIo { io: s.c.io.after_write(s.c.pending, o), ..s.c };
        match o {
            _ if !s.going => s,
            WriteOutcome::Wait => Writing { c, going: false, more: true, ..s },
            WriteOutcome::Failed => Writing {
                m: Self::ended(s.m, s.c.id),
                c: c.ended(),
                going: false,
                more: true,
                ..s
            },
            WriteOutcome::Took(n) => Self::settled(
                Writing {
                    c: ConnIo { pending: s.c.pending.skip(n), ..c },
                    ok: s.ok && 0 <= n <= s.c.pending.len(),
                    ..s
                },
            ),
        }
    }

    /// Writes are answered in order.
    pub open spec fn writes(s: Writing<S::V, Q::V, A>, os: Seq<WriteOutcome>) -> Writing<
        S::V,
        Q::V,
        A,
    >
        decreases os.len(),
    {
        if os.len() == 0 {
            s
        } else {
            Self::write_step(Self::writes(s, os.drop_last()), os.last())
        }
    }

    /// The connection at `i` is written to, in a pass.
    #[verifier::opaque]
    pub open spec fn conn_written(
        p: Pass<S::V, Q::V, A>,
        i: int,
        os: Seq<WriteOutcome>,
    ) -> Pass<S::V, Q::V, A> {
        let w = Self::writes(
            Self::settled(
                Writing {
                    m: p.m,
                    c: p.conns[i],
                    left: MAX_WRITES as int,
                    going: true,
                    more: false,
                    ok: true,
                },
            ),
            os,
        );
        Pass {
            m: w.m,
            conns: p.conns.update(i, w.c),
            more: p.more || w.more,
            ok: p.ok && !w.going && w.ok,
        }
    }

    /// A pass that writes to the connections in order.
    pub open spec fn all_written(m: Mgr<S::V, Q::V, A>, cs: Seq<ConnIo>, os: Seq<Seq<WriteOutcome>>) -> Pass<
        S::V,
        Q::V,
        A,
    >
        decreases os.len(),
    {
        if os.len() == 0 {
            Pass { m, conns: cs, more: false, ok: true }
        } else {
            Self::conn_written(Self::all_written(m, cs, os.drop_last()), os.len() - 1, os.last())
        }
    }

    /// The UDP socket answers a read.
    #[verifier::opaque]
    pub open spec fn receive_step<P: HandshakePoolAccess>(
        s: Receiving<S::V, Q::V, A, P::V>,
        o: ReceiveOutcome<A>,
        seed: Seq<u8>,
        now: u64,
    ) -> Receiving<S::V, Q::V, A, P::V> where Q: QuicServer<P> {
        let io = s.udp.io.after_receive(o);
        match o {
            _ if !s.going => s,
            ReceiveOutcome::Datagram(d, from) => {
                let (m, pool, r) = Self::udp_fed::<P>(s.m, d, from, now, seed, s.pool);
                Receiving {
                    m,
                    pool,
                    udp: UdpIo {
                        io,
                        feed_errors: if r is Err {
                            counted(s.udp.feed_errors)
                        } else {
                            s.udp.feed_errors
                        },
                        ..s.udp
                    },
                    drawn: Self::udp_drawn::<P>(s.m, d, now, s.pool, s.drawn, seed),
                    done: s.done + 1,
                    going: s.done + 1 < MAX_UDP_READS,
                }
            },
            _ => Receiving { udp: UdpIo { io, ..s.udp }, going: false, ..s },
        }
    }

    /// The UDP socket answers reads in order.
    pub open spec fn receives<P: HandshakePoolAccess>(
        s: Receiving<S::V, Q::V, A, P::V>,
        os: Seq<(ReceiveOutcome<A>, Seq<u8>)>,
        now: u64,
    ) -> Receiving<S::V, Q::V, A, P::V> where Q: QuicServer<P>
        decreases os.len(),
    {
        if os.len() == 0 {
            s
        } else {
            Self::receive_step::<P>(
                Self::receives::<P>(s, os.drop_last(), now),
                os.last().0,
                os.last().1,
                now,
            )
        }
    }

    /// The next datagram is pulled, unless one is at hand.
    pub open spec fn loaded<P: HandshakePoolAccess>(s: Sending<S::V, Q::V, A, P::V>, now: u64) -> Sending<
        S::V,
        Q::V,
        A,
        P::V,
    > where Q: QuicServer<P> {
        if !s.going || s.udp.pending is Some {
            s
        } else if s.left <= 0 {
            Sending { going: false, more: true, ..s }
        } else {
            match Self::transmitted_from::<P>(s.m, 0, TX_BUF as int, now, s.pool) {
                (m, pool, Some((i, d))) => Sending {
                    m,
                    pool,
                    udp: UdpIo { pending: Some((d, m.quic[i].peer_addr)), ..s.udp },
                    held: false,
                    left: s.left - 1,
                    ..s
                },
                (m, pool, None) => Sending { m, pool, going: false, ..s },
            }
        }
    }

    /// The UDP socket answers a datagram that is sent: it goes to `to`, which is
    /// the peer's address or a clone of it.
    #[verifier::opaque]
    pub open spec fn send_step<P: HandshakePoolAccess>(
        s: Sending<S::V, Q::V, A, P::V>,
        to: A,
        o: SendOutcome,
        now: u64,
    ) -> Sending<S::V, Q::V, A, P::V> where Q: QuicServer<P> {
        if !s.going || s.udp.pending is None {
            s
        } else {
            let (d, addr) = s.udp.pending->0;
            let ok = s.ok && if s.held {
                to == addr
            } else {
                cloned(addr, to)
            };
            let io = s.udp.io.after_send(d, to, o);
            match o {
                SendOutcome::Sent => Self::loaded::<P>(
                    Sending { udp: UdpIo { pending: None, io, ..s.udp }, ok, ..s },
                    now,
                ),
                SendOutcome::Failed => Self::loaded::<P>(
                    Sending {
                        udp: UdpIo {
                            pending: None,
                            io,
                            send_errors: counted(s.udp.send_errors),
                            ..s.udp
                        },
                        ok,
                        ..s
                    },
                    now,
                ),
                SendOutcome::Wait => Sending {
                    udp: UdpIo { pending: Some((d, to)), io, ..s.udp },
                    ok,
                    going: false,
                    more: true,
                    ..s
                },
            }
        }
    }

    /// The UDP socket answers datagrams that are sent in order.
    pub open spec fn sends<P: HandshakePoolAccess>(
        s: Sending<S::V, Q::V, A, P::V>,
        os: Seq<(A, SendOutcome)>,
        now: u64,
    ) -> Sending<S::V, Q::V, A, P::V> where Q: QuicServer<P>
        decreases os.len(),
    {
        if os.len() == 0 {
            s
        } else {
            Self::send_step::<P>(
                Self::sends::<P>(s, os.drop_last(), now),
                os.last().0,
                os.last().1,
                now,
            )
        }
    }

    /// Input: connections are accepted, the connections are read from and written
    /// to. With it, whether another cycle is wanted, and whether the script fits.
    pub open spec fn tcp_cycle<PV>(
        s: RunnerModel<S::V, Q::V, A, PV>,
        script: Script<A>,
        now: u64,
    ) -> (RunnerModel<S::V, Q::V, A, PV>, bool, bool) {
        let a = Self::accepts(s, script, now);
        let r = Self::all_read(a.mgr, a.conns, script.reads, now);
        let w = Self::all_written(r.m, r.conns, script.writes);
        (
            RunnerModel { mgr: w.m, conns: w.conns, ..a },
            r.more || w.more,
            r.ok && w.ok && script.reads.len() == a.conns.len() && script.writes.len()
                == a.conns.len() && script.tls is Some == s.has_tls && script.cleartext is Some
                == s.has_cleartext && (script.tls matches Some((_, secret, random)) ==> is_draw(
                secret,
            ) && is_draw(random)),
        )
    }

    /// UDP: datagrams are received, timers run, datagrams are sent.
    pub open spec fn udp_cycle<P: HandshakePoolAccess>(
        s: RunnerModel<S::V, Q::V, A, P::V>,
        script: Script<A>,
        now: u64,
    ) -> (RunnerModel<S::V, Q::V, A, P::V>, bool, bool) where Q: QuicServer<P> {
        let r = Self::receives::<P>(
            Receiving {
                m: s.mgr,
                pool: s.pool,
                udp: s.udp,
                drawn: s.drawn,
                done: 0,
                going: true,
            },
            script.datagrams,
            now,
        );
        let (m, pool) = Self::reaped_from::<P>(Self::tcp_timed_from(r.m, 0, now), 0, now, r.pool);
        let t = Self::sends::<P>(
            Self::loaded::<P>(
                Sending {
                    m,
                    pool,
                    udp: r.udp,
                    held: true,
                    left: MAX_WRITES as int,
                    going: true,
                    more: false,
                    ok: true,
                },
                now,
            ),
            script.sends,
            now,
        );
        (
            RunnerModel { mgr: t.m, pool: t.pool, udp: t.udp, drawn: r.drawn, ..s },
            r.done >= MAX_UDP_READS || t.more,
            !r.going && !t.going && t.ok && forall|k: int|
                0 <= k < script.datagrams.len() ==> is_draw((#[trigger] script.datagrams[k]).1),
        )
    }

    /// The next event is taken. A connection that is closed has no socket.
    pub open spec fn event_cycle<PV>(s: RunnerModel<S::V, Q::V, A, PV>) -> (
        RunnerModel<S::V, Q::V, A, PV>,
        Option<ServerEvent>,
    ) {
        let (m, ev) = Self::event_polled(s.mgr);
        (
            RunnerModel {
                mgr: m,
                conns: match ev {
                    Some(ServerEvent::Closed(id)) => without(s.conns, id),
                    _ => s.conns,
                },
                ..s
            },
            ev,
        )
    }

    /// The manager when it is the turn of the connection at `i` to be read from.
    pub open spec fn at_turn<PV>(
        s: RunnerModel<S::V, Q::V, A, PV>,
        script: Script<A>,
        i: int,
        now: u64,
    ) -> Mgr<S::V, Q::V, A> {
        let a = Self::accepts(s, script, now);
        Self::all_read(a.mgr, a.conns, script.reads.take(i), now).m
    }

    /// Each connection is read from in its turn, unless its stream has ended, or it
    /// holds data behind a full buffer. A stream that has ended stays so.
    pub open spec fn reads_in_turn<PV>(
        s: RunnerModel<S::V, Q::V, A, PV>,
        script: Script<A>,
        now: u64,
    ) -> bool {
        let cs = Self::accepts(s, script, now).conns;
        let ds = Self::tcp_cycle(s, script, now).0.conns;
        &&& ds.len() == cs.len()
        &&& forall|i: int|
            0 <= i < cs.len() ==> (#[trigger] ds[i]).id == cs[i].id && (cs[i].eof ==> ds[i].eof)
                && if cs[i].eof || Self::recv_blocked(
                Self::at_turn(s, script, i, now),
                cs[i].id,
            ) {
                not_read(cs[i], ds[i])
            } else {
                read_in_turn(cs[i], ds[i])
            }
    }

    /// Each listener is asked once.
    pub open spec fn accepts_in_turn<PV>(
        s: RunnerModel<S::V, Q::V, A, PV>,
        t: RunnerModel<S::V, Q::V, A, PV>,
    ) -> bool {
        &&& t.tls_accepts.len() == s.tls_accepts.len() + if s.has_tls {
            1int
        } else {
            0int
        }
        &&& t.cleartext_accepts.len() == s.cleartext_accepts.len() + if s.has_cleartext {
            1int
        } else {
            0int
        }
    }

    /// Datagrams are asked for at least once and at most so often that others are
    /// not starved, and none that is sent is too large.
    pub open spec fn datagrams_in_turn(before: SocketHistory<A>, after: SocketHistory<A>) -> bool {
        &&& before.receives.len() + 1 <= after.receives.len() <= before.receives.len()
            + MAX_UDP_READS
        &&& before.sends.len() <= after.sends.len()
        &&& forall|k: int|
            before.sends.len() <= k < after.sends.len() ==> (#[trigger] after.sends[k]).0.len()
                <= TX_BUF
    }

    /// A whole cycle, where the surroundings do what the script says: the state
    /// after it, the event, whether another cycle is wanted for output that is
    /// left, and whether the script fits.
    pub open spec fn cycle<P: HandshakePoolAccess>(
        s: RunnerModel<S::V, Q::V, A, P::V>,
        script: Script<A>,
        now: u64,
    ) -> (RunnerModel<S::V, Q::V, A, P::V>, Option<ServerEvent>, bool, bool) where
        Q: QuicServer<P>,
     {
        let (t, more_tcp, fits_tcp) = Self::tcp_cycle(s, script, now);
        let (u, more_udp, fits_udp) = Self::udp_cycle::<P>(t, script, now);
        let (e, ev) = Self::event_cycle(u);
        (e, ev, more_tcp || more_udp, fits_tcp && fits_udp)
    }
}

} // verus!
