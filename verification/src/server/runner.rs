//! I/O around the connection manager.
//!
//! [`ServerRunner`] owns the manager and refers to the sockets. A poll drives
//! all of them once.

use vstd::prelude::*;
use vstd::slice::{slice_subrange, slice_to_vec};

use super::cycle;
use super::cycle::{
    ConnIo, Pass, Reading, Receiving, RunnerModel, Script, Sending, UdpIo, Writing,
};
use super::manager::ServerManager;
use super::output;
use super::turns;
use super::{ConnId, ServerEvent};
use crate::error::Error;
use crate::http::server_conn::HttpServerConn;
use crate::quic::{HandshakePoolAccess, QuicServer};
use crate::tls::TlsSession;
use crate::transport;
use crate::transport::{
    AcceptOutcome, Address, Context, Poll, ReadOutcome, ReceiveOutcome, Rng, SendOutcome,
    TcpAccept, TcpStream, UdpSocket, WriteOutcome,
};

verus! {

/// A TCP connection's socket, and the output that it has not taken yet.
pub struct TcpConnState<St: TcpStream> {
    pub id: ConnId,
    pub stream: St,
    /// Buffered data waiting to be written (remainder of a partial write).
    pub pending_write: Vec<u8>,
    /// Offset into `pending_write`: bytes before this have been written.
    pub write_offset: usize,
    /// Nothing more is read from the stream.
    pub eof: bool,
    /// All output for it, behind what the stream had written when it was accepted.
    pub pulled: Ghost<Seq<u8>>,
}

impl<St: TcpStream> View for TcpConnState<St> {
    type V = ConnIo;

    open spec fn view(&self) -> ConnIo {
        ConnIo {
            id: self.id,
            pending: self.pending_write@.skip(self.write_offset as int),
            eof: self.eof,
            pulled: self.pulled@,
            io: self.stream.history(),
        }
    }
}

/// What is known of the sockets.
pub open spec fn conn_views<St: TcpStream>(cs: Seq<TcpConnState<St>>) -> Seq<ConnIo> {
    Seq::new(cs.len(), |i: int| cs[i]@)
}

/// All sockets are well-formed.
pub open spec fn conns_wf<St: TcpStream>(cs: Seq<TcpConnState<St>>) -> bool {
    forall|i: int| 0 <= i < cs.len() ==> (#[trigger] cs[i]).wf()
}

impl<St: TcpStream> TcpConnState<St> {
    pub open spec fn wf(&self) -> bool {
        self.write_offset <= self.pending_write@.len()
    }

    fn new(id: ConnId, stream: St) -> (r: Self)
        ensures
            r.wf(),
            r@ == ConnIo::fresh(id, stream.history()),
    {
        let r = TcpConnState {
            id,
            stream,
            pending_write: Vec::new(),
            write_offset: 0,
            eof: false,
            pulled: Ghost(stream.history().written),
        };
        assert(r@ =~= ConnIo::fresh(id, stream.history()));
        r
    }

    /// Reads from the stream, at most so often that others are not starved:
    /// whether there may be more.
    fn read_all<S: TlsSession, Q: HttpServerConn, A: Address, const BUF: usize>(
        &mut self,
        manager: &mut ServerManager<S, Q, A, BUF>,
        cx: &mut Context,
        now: u64,
    ) -> (r: (bool, Ghost<Seq<ReadOutcome>>))
        requires
            old(self).wf(),
            old(manager).wf(),
        ensures
            final(self).wf(),
            final(manager).wf(),
            final(cx).wake_requested == old(cx).wake_requested,
            ({
                let s = ServerManager::<S, Q, A, BUF>::reads(
                    Reading { m: old(manager)@, c: old(self)@, done: 0, going: true },
                    r.1@,
                    now,
                );
                &&& final(manager)@ == s.m
                &&& final(self)@ == s.c
                &&& !s.going
                &&& r.0 == (s.done >= cycle::MAX_READS_PER_CONN)
            }),
    {
        let mut buf: [u8; 1500] = [0; 1500];
        let mut done: usize = 0;
        let mut going: bool = true;
        let ghost s0 = Reading { m: manager@, c: self@, done: 0, going: true };
        let ghost mut os: Seq<ReadOutcome> = Seq::empty();
        while going
            invariant
                self.wf(),
                manager.wf(),
                cx.wake_requested == old(cx).wake_requested,
                done <= cycle::MAX_READS_PER_CONN,
                going ==> done < cycle::MAX_READS_PER_CONN,
                s0 == (Reading { m: old(manager)@, c: old(self)@, done: 0, going: true }),
                ServerManager::<S, Q, A, BUF>::reads(s0, os, now) == (Reading {
                    m: manager@,
                    c: self@,
                    done: done as int,
                    going,
                }),
            decreases
                if going {
                    cycle::MAX_READS_PER_CONN - done + 1
                } else {
                    0
                },
        {
            let ghost was = self@;
            let outcome: Poll<Result<usize, St::Error>> = self.stream.poll_read(cx, &mut buf);
            proof {
                let o = transport::read_outcome(outcome, buf@);
                assert(os.push(o).drop_last() =~= os);
                os = os.push(o);
                reveal(ServerManager::read_step);
            }
            match outcome {
                Poll::Pending => {
                    going = false;
                },
                Poll::Ready(Ok(n)) => {
                    if n == 0 {
                        self.eof = true;
                        manager.tcp_eof(self.id);
                        going = false;
                    } else {
                        done = done + 1;
                        if manager.tcp_feed(
                            self.id,
                            slice_subrange(buf.as_slice(), 0, n),
                            now,
                        ).is_err() {
                            // The connection is ended as if the stream had: without
                            // that it would stay, with no event to tell.
                            self.eof = true;
                            manager.tcp_eof(self.id);
                            going = false;
                        } else if done >= cycle::MAX_READS_PER_CONN {
                            going = false;
                        }
                    }
                },
                Poll::Ready(Err(_)) => {
                    self.eof = true;
                    manager.tcp_eof(self.id);
                    going = false;
                },
            }
        }
        (done >= cycle::MAX_READS_PER_CONN, Ghost(os))
    }

    /// Processes further what a connection holds behind a full buffer. Its
    /// stream is left alone, which paces the peer.
    fn redrive<S: TlsSession, Q: HttpServerConn, A: Address, const BUF: usize>(
        &mut self,
        manager: &mut ServerManager<S, Q, A, BUF>,
        now: u64,
    )
        requires
            old(self).wf(),
            old(manager).wf(),
        ensures
            final(self).wf(),
            final(manager).wf(),
            (final(manager)@, final(self)@) == ServerManager::<S, Q, A, BUF>::redriven(
                old(manager)@,
                old(self)@,
                now,
            ),
    {
        proof {
            reveal(ServerManager::redriven);
        }
        let empty: [u8; 0] = [];
        assert(empty@ =~= Seq::empty());
        if manager.tcp_feed(self.id, &empty, now).is_err() {
            self.eof = true;
            manager.tcp_eof(self.id);
            assert(self@ == old(self)@.ended());
        }
    }

    /// Pulls output until there is some to write, or none is left: how many
    /// chunks may still be pulled, whether there is some, and whether some was
    /// left for later.
    fn settle<S: TlsSession, Q: HttpServerConn, A: Address, const BUF: usize>(
        &mut self,
        manager: &mut ServerManager<S, Q, A, BUF>,
        budget: usize,
        more: bool,
    ) -> (r: (usize, bool, bool))
        requires
            old(self).wf(),
            old(manager).wf(),
        ensures
            final(self).wf(),
            final(manager).wf(),
            ServerManager::<S, Q, A, BUF>::settled(
                Writing {
                    m: old(manager)@,
                    c: old(self)@,
                    left: budget as int,
                    going: true,
                    more,
                    ok: true,
                },
            ) == (Writing {
                m: final(manager)@,
                c: final(self)@,
                left: r.0 as int,
                going: r.1,
                more: r.2,
                ok: true,
            }),
            r.0 <= budget,
            r.0 == budget ==> final(self)@ == old(self)@,
            r.1 ==> final(self)@.pending.len() > 0,
            r.1 && old(self)@.pending.len() == 0 ==> r.0 < budget,
    {
        let mut out: [u8; 1500] = [0; 1500];
        let mut left: usize = budget;
        let ghost s0 = Writing {
            m: manager@,
            c: self@,
            left: left as int,
            going: true,
            more,
            ok: true,
        };
        while self.write_offset >= self.pending_write.len()
            invariant
                self.wf(),
                manager.wf(),
                left <= budget,
                left == budget ==> self@ == old(self)@,
                old(self)@.pending.len() == 0 && self@.pending.len() > 0 ==> left < budget,
                s0 == (Writing {
                    m: old(manager)@,
                    c: old(self)@,
                    left: budget as int,
                    going: true,
                    more,
                    ok: true,
                }),
                ServerManager::<S, Q, A, BUF>::settled(
                    Writing {
                        m: manager@,
                        c: self@,
                        left: left as int,
                        going: true,
                        more,
                        ok: true,
                    },
                ) == ServerManager::<S, Q, A, BUF>::settled(s0),
            decreases left,
        {
            // Nothing more is pulled into a buffer that is full.
            if BUF == 0 || left == 0 {
                return (left, false, true);
            }
            let ghost was = self@;
            match manager.tcp_poll_output(self.id, &mut out) {
                Some(chunk) => {
                    left = left - 1;
                    self.pending_write = slice_to_vec(chunk);
                    self.write_offset = 0;
                    proof {
                        self.pulled@ = self.pulled@ + chunk@;
                        assert(self@.pending =~= chunk@);
                        assert(self@ == (ConnIo {
                            pending: chunk@,
                            pulled: was.pulled + chunk@,
                            ..was
                        }));
                    }
                },
                None => {
                    return (left, false, more);
                },
            }
        }
        (left, true, more)
    }

    /// Writes to the stream what it has not taken yet, and then what is pulled
    /// from the manager, until the stream takes no more or there is none left:
    /// whether output was left for later.
    fn write_all<S: TlsSession, Q: HttpServerConn, A: Address, const BUF: usize>(
        &mut self,
        manager: &mut ServerManager<S, Q, A, BUF>,
        cx: &mut Context,
    ) -> (r: (bool, Ghost<Seq<WriteOutcome>>))
        requires
            old(self).wf(),
            old(manager).wf(),
        ensures
            final(self).wf(),
            final(manager).wf(),
            final(cx).wake_requested == old(cx).wake_requested,
            ({
                let s = ServerManager::<S, Q, A, BUF>::writes(
                    ServerManager::<S, Q, A, BUF>::settled(
                        Writing {
                            m: old(manager)@,
                            c: old(self)@,
                            left: cycle::MAX_WRITES as int,
                            going: true,
                            more: false,
                            ok: true,
                        },
                    ),
                    r.1@,
                );
                &&& final(manager)@ == s.m
                &&& final(self)@ == s.c
                &&& !s.going
                &&& s.ok
                &&& r.0 == s.more
            }),
    {
        let ghost s0 = ServerManager::<S, Q, A, BUF>::settled(
            Writing {
                m: manager@,
                c: self@,
                left: cycle::MAX_WRITES as int,
                going: true,
                more: false,
                ok: true,
            },
        );
        let ghost mut os: Seq<WriteOutcome> = Seq::empty();
        let (mut left, mut going, mut more): (usize, bool, bool) = self.settle(
            manager,
            cycle::MAX_WRITES,
            false,
        );
        while going
            invariant
                self.wf(),
                manager.wf(),
                cx.wake_requested == old(cx).wake_requested,
                going ==> self@.pending.len() > 0,
                ServerManager::<S, Q, A, BUF>::writes(s0, os) == (Writing {
                    m: manager@,
                    c: self@,
                    left: left as int,
                    going,
                    more,
                    ok: true,
                }),
            decreases
                left,
                if going {
                    self@.pending.len() + 1
                } else {
                    0
                },
        {
            let ghost was = self@;
            let ghost is = ServerManager::<S, Q, A, BUF>::writes(s0, os);
            let outcome: Poll<Result<usize, St::Error>> = self.stream.poll_write(
                cx,
                slice_subrange(
                    self.pending_write.as_slice(),
                    self.write_offset,
                    self.pending_write.len(),
                ),
            );
            proof {
                let o = transport::write_outcome(outcome);
                assert(os.push(o).drop_last() =~= os);
                os = os.push(o);
                reveal(ServerManager::write_step);
            }
            match outcome {
                Poll::Pending => {
                    going = false;
                    more = true;
                },
                Poll::Ready(Ok(n)) => {
                    self.write_offset = self.write_offset + n;
                    proof {
                        assert(self@.pending =~= was.pending.skip(n as int));
                    }
                    let (l, g, m): (usize, bool, bool) = self.settle(manager, left, more);
                    left = l;
                    going = g;
                    more = m;
                },
                Poll::Ready(Err(_)) => {
                    self.eof = true;
                    manager.tcp_eof(self.id);
                    going = false;
                    more = true;
                },
            }
        }
        (more, Ghost(os))
    }
}

proof fn lemma_conn_update<St: TcpStream>(
    cs: Seq<TcpConnState<St>>,
    i: int,
    c: TcpConnState<St>,
)
    requires
        conns_wf(cs),
        0 <= i < cs.len(),
        c.wf(),
    ensures
        conns_wf(cs.update(i, c)),
        conn_views(cs.update(i, c)) == conn_views(cs).update(i, c@),
{
    assert forall|j: int| 0 <= j < cs.len() implies (#[trigger] cs.update(i, c)[j]).wf() by {
        if j != i {
            assert(cs.update(i, c)[j] == cs[j]);
        }
    }
    assert(conn_views(cs.update(i, c)) =~= conn_views(cs).update(i, c@));
}

/// I/O wrapper around [`ServerManager`].
///
/// Drives TCP accept, TCP read and write, and UDP receive and send, forwarding
/// everything through the manager. A server over TCP alone names
/// [`NoUdp`](crate::transport::NoUdp) and [`NoQuic`](crate::quic::NoQuic).
#[verifier::reject_recursive_types(A)]
#[verifier::reject_recursive_types(P)]
pub struct ServerRunner<'a, S, Q, L, U, R, A, P, const BUF: usize> where
    S: TlsSession,
    Q: QuicServer<P>,
    L: TcpAccept,
    U: UdpSocket<Addr = A>,
    R: Rng,
    A: Address,
    P: HandshakePoolAccess,
 {
    pub manager: ServerManager<S, Q, A, BUF>,
    /// TLS listener. Accepted connections go through the TLS handshake.
    pub tls_listener: Option<&'a mut L>,
    /// Cleartext listener. Accepted connections start as HTTP/1.1.
    pub cleartext_listener: Option<&'a mut L>,
    pub udp_socket: &'a mut U,
    pub rng: &'a mut R,
    pub pool: &'a mut P,
    pub tcp_conns: Vec<TcpConnState<L::Stream>>,
    /// A datagram that the socket has not taken yet, and where it goes.
    pub pending_udp_tx: Option<(Vec<u8>, A)>,
    /// Datagrams that the manager refused (malformed, too many connections, no
    /// handshake slot). They are dropped; a driver can watch this counter.
    pub udp_feed_errors: u32,
    /// Datagrams that the socket failed to send.
    pub udp_send_errors: u32,
}

impl<'a, S, Q, L, U, R, A, P, const BUF: usize> View for ServerRunner<
    'a,
    S,
    Q,
    L,
    U,
    R,
    A,
    P,
    BUF,
> where
    S: TlsSession,
    Q: QuicServer<P>,
    L: TcpAccept,
    U: UdpSocket<Addr = A>,
    R: Rng,
    A: Address,
    P: HandshakePoolAccess,
 {
    type V = RunnerModel<S::V, Q::V, A, P::V>;

    open spec fn view(&self) -> RunnerModel<S::V, Q::V, A, P::V> {
        RunnerModel {
            mgr: self.manager@,
            conns: conn_views(self.tcp_conns@),
            udp: self.udp(),
            pool: self.pool@,
            has_tls: self.tls_listener is Some,
            has_cleartext: self.cleartext_listener is Some,
            tls_accepts: asked(self.tls_listener),
            cleartext_accepts: asked(self.cleartext_listener),
            drawn: self.rng.drawn(),
        }
    }
}

/// What was given to a socket to send since `before` is small enough.
pub open spec fn sent_within<A>(
    before: Seq<(Seq<u8>, A, SendOutcome)>,
    after: Seq<(Seq<u8>, A, SendOutcome)>,
) -> bool {
    &&& before.len() <= after.len()
    &&& forall|k: int|
        before.len() <= k < after.len() ==> (#[trigger] after[k]).0.len() <= cycle::TX_BUF
}

/// All that a listener has answered, where there is one.
pub open spec fn asked<L: TcpAccept>(listener: Option<&mut L>) -> Seq<AcceptOutcome> {
    match listener {
        Some(l) => l.accepts(),
        None => Seq::empty(),
    }
}

impl<'a, S, Q, L, U, R, A, P, const BUF: usize> ServerRunner<'a, S, Q, L, U, R, A, P, BUF> where
    S: TlsSession,
    Q: QuicServer<P>,
    L: TcpAccept,
    U: UdpSocket<Addr = A>,
    R: Rng,
    A: Address,
    P: HandshakePoolAccess,
 {
    pub open spec fn wf(&self) -> bool {
        &&& self.manager.wf()
        &&& conns_wf(self.tcp_conns@)
        &&& self.pending_udp_tx matches Some((data, _)) ==> data@.len() <= cycle::TX_BUF
    }

    /// What is known of the UDP side.
    pub open spec fn udp(&self) -> UdpIo<A> {
        UdpIo {
            pending: match self.pending_udp_tx {
                Some((data, addr)) => Some((data@, addr)),
                None => None,
            },
            io: self.udp_socket.history(),
            feed_errors: self.udp_feed_errors,
            send_errors: self.udp_send_errors,
        }
    }

    /// Creates a new server runner.
    ///
    /// `tls_listener` and `cleartext_listener` are independent and optional:
    /// pass both for standard dual HTTP and HTTPS, or just one. Both feed the
    /// same manager and event stream.
    pub fn new(
        manager: ServerManager<S, Q, A, BUF>,
        tls_listener: Option<&'a mut L>,
        cleartext_listener: Option<&'a mut L>,
        udp_socket: &'a mut U,
        rng: &'a mut R,
        pool: &'a mut P,
    ) -> (r: Self)
        requires
            manager.wf(),
        ensures
            r.wf(),
            r@ == (RunnerModel {
                mgr: manager@,
                conns: Seq::empty(),
                udp: UdpIo {
                    pending: None,
                    io: old(udp_socket).history(),
                    feed_errors: 0,
                    send_errors: 0,
                },
                pool: old(pool)@,
                has_tls: tls_listener is Some,
                has_cleartext: cleartext_listener is Some,
                tls_accepts: asked(tls_listener),
                cleartext_accepts: asked(cleartext_listener),
                drawn: old(rng).drawn(),
            }),
    {
        let r = ServerRunner {
            manager,
            tls_listener,
            cleartext_listener,
            udp_socket,
            rng,
            pool,
            tcp_conns: Vec::new(),
            pending_udp_tx: None,
            udp_feed_errors: 0,
            udp_send_errors: 0,
        };
        assert(conn_views(r.tcp_conns@) =~= Seq::empty());
        r
    }

    /// A pass that reads from the connections in order: whether another cycle is
    /// wanted.
    fn read_pass(&mut self, cx: &mut Context, now: u64) -> (r: (
        bool,
        Ghost<Seq<Seq<ReadOutcome>>>,
    ))
        requires
            old(self).wf(),
        ensures
            final(self).wf(),
            final(self)@.conns.len() == old(self)@.conns.len(),
            final(cx).wake_requested == old(cx).wake_requested,
            ({
                let p = ServerManager::<S, Q, A, BUF>::all_read(
                    old(self)@.mgr,
                    old(self)@.conns,
                    r.1@,
                    now,
                );
                &&& final(self)@ == (RunnerModel { mgr: p.m, conns: p.conns, ..old(self)@ })
                &&& r.0 == p.more
                &&& p.ok
                &&& r.1@.len() == old(self)@.conns.len()
            }),
    {
        let mut more: bool = false;
        let mut i: usize = 0;
        let ghost mut os: Seq<Seq<ReadOutcome>> = Seq::empty();
        while i < self.tcp_conns.len()
            invariant
                self.wf(),
                cx.wake_requested == old(cx).wake_requested,
                i == os.len(),
                i <= self.tcp_conns@.len(),
                self.tcp_conns@.len() == old(self).tcp_conns@.len(),
                self@ == (RunnerModel { mgr: self@.mgr, conns: self@.conns, ..old(self)@ }),
                ServerManager::<S, Q, A, BUF>::all_read(
                    old(self)@.mgr,
                    old(self)@.conns,
                    os,
                    now,
                ) == (Pass { m: self@.mgr, conns: self@.conns, more, ok: true }),
            decreases self.tcp_conns@.len() - i,
        {
            let ghost conns = self.tcp_conns@;
            let ghost mut o: Seq<ReadOutcome> = Seq::empty();
            proof {
                assert(conn_views(conns)[i as int] == conns[i as int]@);
                reveal(ServerManager::conn_read);
            }
            if !self.tcp_conns[i].eof {
                if self.manager.conn_recv_blocked(self.tcp_conns[i].id) {
                    self.tcp_conns[i].redrive(&mut self.manager, now);
                    more = true;
                } else {
                    let (b, Ghost(script)) = self.tcp_conns[i].read_all(&mut self.manager, cx, now);
                    more = more || b;
                    proof {
                        o = script;
                    }
                }
            }
            proof {
                assert(self.tcp_conns@ =~= conns.update(i as int, self.tcp_conns@[i as int]));
                lemma_conn_update(conns, i as int, self.tcp_conns@[i as int]);
                assert(os.push(o).drop_last() =~= os);
                os = os.push(o);
                assert(self@.conns =~= conn_views(conns).update(
                    i as int,
                    self.tcp_conns@[i as int]@,
                ));
            }
            i = i + 1;
        }
        (more, Ghost(os))
    }

    /// A pass that writes to the connections in order: whether another cycle is
    /// wanted.
    fn write_pass(&mut self, cx: &mut Context) -> (r: (bool, Ghost<Seq<Seq<WriteOutcome>>>))
        requires
            old(self).wf(),
        ensures
            final(self).wf(),
            final(cx).wake_requested == old(cx).wake_requested,
            ({
                let p = ServerManager::<S, Q, A, BUF>::all_written(
                    old(self)@.mgr,
                    old(self)@.conns,
                    r.1@,
                );
                &&& final(self)@ == (RunnerModel { mgr: p.m, conns: p.conns, ..old(self)@ })
                &&& r.0 == p.more
                &&& p.ok
                &&& r.1@.len() == old(self)@.conns.len()
            }),
    {
        let mut more: bool = false;
        let mut i: usize = 0;
        let ghost mut os: Seq<Seq<WriteOutcome>> = Seq::empty();
        while i < self.tcp_conns.len()
            invariant
                self.wf(),
                cx.wake_requested == old(cx).wake_requested,
                i == os.len(),
                i <= self.tcp_conns@.len(),
                self.tcp_conns@.len() == old(self).tcp_conns@.len(),
                self@ == (RunnerModel { mgr: self@.mgr, conns: self@.conns, ..old(self)@ }),
                ServerManager::<S, Q, A, BUF>::all_written(
                    old(self)@.mgr,
                    old(self)@.conns,
                    os,
                ) == (Pass { m: self@.mgr, conns: self@.conns, more, ok: true }),
            decreases self.tcp_conns@.len() - i,
        {
            let ghost conns = self.tcp_conns@;
            proof {
                assert(conn_views(conns)[i as int] == conns[i as int]@);
                reveal(ServerManager::conn_written);
            }
            let (b, Ghost(o)) = self.tcp_conns[i].write_all(&mut self.manager, cx);
            more = more || b;
            proof {
                assert(self.tcp_conns@ =~= conns.update(i as int, self.tcp_conns@[i as int]));
                lemma_conn_update(conns, i as int, self.tcp_conns@[i as int]);
                assert(os.push(o).drop_last() =~= os);
                os = os.push(o);
            }
            i = i + 1;
        }
        (more, Ghost(os))
    }

    fn add_conn(&mut self, id: ConnId, stream: L::Stream)
        requires
            old(self).wf(),
        ensures
            final(self).wf(),
            final(self)@ == (RunnerModel {
                conns: old(self)@.conns.push(
                    ConnIo::fresh(id, stream.history()),
                ),
                ..old(self)@
            }),
    {
        let c = TcpConnState::new(id, stream);
        self.tcp_conns.push(c);
        assert(self@.conns =~= old(self)@.conns.push(c@));
        assert forall|j: int| 0 <= j < self.tcp_conns@.len() implies (
        #[trigger] self.tcp_conns@[j]).wf() by {
            if j < old(self).tcp_conns@.len() {
                assert(self.tcp_conns@[j] == old(self).tcp_conns@[j]);
            }
        }
    }

    /// Asks the TLS listener for a connection.
    fn accept_tls(&mut self, cx: &mut Context, now: u64) -> (r: Ghost<
        Option<(AcceptOutcome, Seq<u8>, Seq<u8>)>,
    >)
        requires
            old(self).wf(),
        ensures
            final(self).wf(),
            final(cx).wake_requested == old(cx).wake_requested,
            r@ is Some == old(self)@.has_tls,
            r@ matches Some((_, secret, random)) ==> cycle::is_draw(secret) && cycle::is_draw(
                random,
            ),
            final(self)@ == ServerManager::<S, Q, A, BUF>::accepts_tls(old(self)@, r@, now),
    {
        let answer: Poll<Result<L::Stream, L::Error>> = match &mut self.tls_listener {
            Some(listener) => listener.poll_accept(cx),
            None => {
                return Ghost(None);
            },
        };
        let ghost o = transport::accept_outcome(answer);
        let ghost s1 = self@;
        match answer {
            Poll::Ready(Ok(stream)) => {
                let r: Result<ConnId, Error> = self.manager.accept_tcp(&mut *self.rng, now);
                let ghost (secret, random) = choose|secret: Seq<u8>, random: Seq<u8>|
                    cycle::is_draw(secret) && cycle::is_draw(random) && (self.manager@, r) == #[trigger] ServerManager::<S, Q, A, BUF>::accepted(
                        s1.mgr,
                        secret,
                        random,
                        now,
                    ) && self.rng.drawn() == ServerManager::<S, Q, A, BUF>::accept_drawn(
                        s1.mgr,
                        s1.drawn,
                        secret,
                        random,
                    );
                match r {
                    Ok(id) => self.add_conn(id, stream),
                    Err(_) => {},
                }
                Ghost(Some((o, secret, random)))
            },
            _ => {
                let ghost unused = Seq::new(32, |i: int| 0u8);
                Ghost(Some((o, unused, unused)))
            },
        }
    }

    /// Asks the cleartext listener for a connection.
    fn accept_cleartext(&mut self, cx: &mut Context, now: u64) -> (r: Ghost<Option<AcceptOutcome>>)
        requires
            old(self).wf(),
        ensures
            final(self).wf(),
            final(cx).wake_requested == old(cx).wake_requested,
            r@ is Some == old(self)@.has_cleartext,
            final(self)@ == ServerManager::<S, Q, A, BUF>::accepts_cleartext(
                old(self)@,
                r@,
                now,
            ),
    {
        let answer: Poll<Result<L::Stream, L::Error>> = match &mut self.cleartext_listener {
            Some(listener) => listener.poll_accept(cx),
            None => {
                return Ghost(None);
            },
        };
        let ghost o = transport::accept_outcome(answer);
        match answer {
            Poll::Ready(Ok(stream)) => {
                match self.manager.accept_tcp_cleartext(now) {
                    Ok(id) => self.add_conn(id, stream),
                    Err(_) => {},
                }
            },
            _ => {},
        }
        Ghost(Some(o))
    }

    /// Receives datagrams, at most so many that others are not starved: whether
    /// there may be more.
    fn receive_all(&mut self, cx: &mut Context, now: u64) -> (r: (
        bool,
        Ghost<Seq<(ReceiveOutcome<A>, Seq<u8>)>>,
    ))
        requires
            old(self).wf(),
        ensures
            final(self).wf(),
            final(cx).wake_requested == old(cx).wake_requested,
            ({
                let s = ServerManager::<S, Q, A, BUF>::receives::<P>(
                    Receiving {
                        m: old(self)@.mgr,
                        pool: old(self)@.pool,
                        udp: old(self)@.udp,
                        drawn: old(self)@.drawn,
                        done: 0,
                        going: true,
                    },
                    r.1@,
                    now,
                );
                &&& final(self)@ == (RunnerModel {
                    mgr: s.m,
                    pool: s.pool,
                    udp: s.udp,
                    drawn: s.drawn,
                    ..old(self)@
                })
                &&& !s.going
                &&& r.0 == (s.done >= cycle::MAX_UDP_READS)
            }),
            final(self)@.udp.io.sends == old(self)@.udp.io.sends,
            forall|k: int| 0 <= k < r.1@.len() ==> cycle::is_draw((#[trigger] r.1@[k]).1),
    {
        let mut buf: [u8; 1500] = [0; 1500];
        let mut done: usize = 0;
        let mut going: bool = true;
        let ghost s0 = Receiving {
            m: self@.mgr,
            pool: self@.pool,
            udp: self@.udp,
            drawn: self@.drawn,
            done: 0,
            going: true,
        };
        let ghost mut os: Seq<(ReceiveOutcome<A>, Seq<u8>)> = Seq::empty();
        while going
            invariant
                self.wf(),
                cx.wake_requested == old(cx).wake_requested,
                done <= cycle::MAX_UDP_READS,
                going ==> done < cycle::MAX_UDP_READS,
                self@.udp.io.sends == old(self)@.udp.io.sends,
                forall|k: int| 0 <= k < os.len() ==> cycle::is_draw((#[trigger] os[k]).1),
                self@ == (RunnerModel {
                    mgr: self@.mgr,
                    pool: self@.pool,
                    udp: self@.udp,
                    drawn: self@.drawn,
                    ..old(self)@
                }),
                s0 == (Receiving {
                    m: old(self)@.mgr,
                    pool: old(self)@.pool,
                    udp: old(self)@.udp,
                    drawn: old(self)@.drawn,
                    done: 0,
                    going: true,
                }),
                ServerManager::<S, Q, A, BUF>::receives::<P>(s0, os, now) == (Receiving {
                    m: self@.mgr,
                    pool: self@.pool,
                    udp: self@.udp,
                    drawn: self@.drawn,
                    done: done as int,
                    going,
                }),
            decreases
                if going {
                    cycle::MAX_UDP_READS - done + 1
                } else {
                    0
                },
        {
            proof {
                reveal(ServerManager::receive_step);
            }
            let outcome: Poll<Result<(usize, A), U::Error>> = self.udp_socket.poll_recv_from(
                cx,
                &mut buf,
            );
            let ghost o = transport::receive_outcome(outcome, buf@);
            match outcome {
                Poll::Ready(Ok((n, addr))) => {
                    done = done + 1;
                    let ghost mgr = self.manager@;
                    let ghost pool = self.pool@;
                    let ghost drawn = self.rng.drawn();
                    let data: &[u8] = slice_subrange(buf.as_slice(), 0, n);
                    let r: Result<(), Error> = self.manager.udp_feed(
                        data,
                        addr,
                        now,
                        &mut *self.rng,
                        &mut *self.pool,
                    );
                    if r.is_err() {
                        self.udp_feed_errors = self.udp_feed_errors.wrapping_add(1);
                    }
                    going = done < cycle::MAX_UDP_READS;
                    proof {
                        let seed = choose|seed: Seq<u8>|
                            cycle::is_draw(seed) && (self.manager@, self.pool@, r) == #[trigger] ServerManager::<
                                S,
                                Q,
                                A,
                                BUF,
                            >::udp_fed::<P>(mgr, data@, addr, now, seed, pool) && self.rng.drawn()
                                == ServerManager::<S, Q, A, BUF>::udp_drawn::<P>(
                                mgr,
                                data@,
                                now,
                                pool,
                                drawn,
                                seed,
                            );
                        assert(os.push((o, seed)).drop_last() =~= os);
                        os = os.push((o, seed));
                    }
                },
                _ => {
                    going = false;
                    proof {
                        let unused = Seq::new(32, |i: int| 0u8);
                        assert(os.push((o, unused)).drop_last() =~= os);
                        os = os.push((o, unused));
                    }
                },
            }
        }
        (done >= cycle::MAX_UDP_READS, Ghost(os))
    }

    /// Pulls the next datagram, and where it goes.
    fn pull(&mut self, now: u64) -> (r: Option<(Vec<u8>, A)>)
        requires
            old(self).wf(),
        ensures
            final(self).wf(),
            ({
                let (m, pool, out) = ServerManager::<S, Q, A, BUF>::transmitted_from::<P>(
                    old(self)@.mgr,
                    0,
                    cycle::TX_BUF as int,
                    now,
                    old(self)@.pool,
                );
                &&& final(self)@ == (RunnerModel { mgr: m, pool, ..old(self)@ })
                &&& final(self).pending_udp_tx == old(self).pending_udp_tx
                &&& match r {
                    Some((data, addr)) => data@.len() <= cycle::TX_BUF && (out matches Some((i, d))
                        && data@ == d && cloned(m.quic[i].peer_addr, addr)),
                    None => out is None,
                }
            }),
    {
        let mut buf: [u8; 1200] = [0; 1200];
        match self.manager.udp_poll_transmit(&mut buf, now, &mut *self.pool) {
            Some((addr, n)) => Some((slice_to_vec(slice_subrange(buf.as_slice(), 0, n)), addr)),
            None => None,
        }
    }

    /// Sends datagrams until the socket takes no more or there is none left:
    /// whether some were left for later.
    fn send_all(&mut self, cx: &mut Context, now: u64) -> (r: (bool, Ghost<Seq<(A, SendOutcome)>>))
        requires
            old(self).wf(),
        ensures
            final(self).wf(),
            final(cx).wake_requested == old(cx).wake_requested,
            ({
                let s = ServerManager::<S, Q, A, BUF>::sends::<P>(
                    ServerManager::<S, Q, A, BUF>::loaded::<P>(
                        Sending {
                            m: old(self)@.mgr,
                            pool: old(self)@.pool,
                            udp: old(self)@.udp,
                            held: true,
                            left: cycle::MAX_WRITES as int,
                            going: true,
                            more: false,
                            ok: true,
                        },
                        now,
                    ),
                    r.1@,
                    now,
                );
                &&& final(self)@ == (RunnerModel {
                    mgr: s.m,
                    pool: s.pool,
                    udp: s.udp,
                    ..old(self)@
                })
                &&& !s.going
                &&& s.ok
                &&& r.0 == s.more
            }),
            sent_within(old(self)@.udp.io.sends, final(self)@.udp.io.sends),
    {
        let ghost s0 = ServerManager::<S, Q, A, BUF>::loaded::<P>(
            Sending {
                m: self@.mgr,
                pool: self@.pool,
                udp: self@.udp,
                held: true,
                left: cycle::MAX_WRITES as int,
                going: true,
                more: false,
                ok: true,
            },
            now,
        );
        let ghost mut os: Seq<(A, SendOutcome)> = Seq::empty();
        let mut left: usize = cycle::MAX_WRITES;
        let mut more: bool = false;
        let mut current: Option<(Vec<u8>, A)> = self.pending_udp_tx.take();
        if current.is_none() {
            current = self.pull(now);
            if current.is_some() {
                left = left - 1;
            }
        }
        let mut going: bool = current.is_some();
        while going
            invariant
                self.wf(),
                cx.wake_requested == old(cx).wake_requested,
                going == (current is Some),
                going ==> self.pending_udp_tx is None,
                current matches Some((data, _)) ==> data@.len() <= cycle::TX_BUF,
                sent_within(old(self)@.udp.io.sends, self@.udp.io.sends),
                self@ == (RunnerModel {
                    mgr: self@.mgr,
                    pool: self@.pool,
                    udp: self@.udp,
                    ..old(self)@
                }),
                ({
                    let s = ServerManager::<S, Q, A, BUF>::sends::<P>(s0, os, now);
                    &&& s.m == self@.mgr
                    &&& s.pool == self@.pool
                    &&& s.left == left
                    &&& s.going == going
                    &&& s.more == more
                    &&& s.ok
                    &&& s.udp == (UdpIo { pending: s.udp.pending, ..self@.udp })
                    &&& match current {
                        Some((data, addr)) => s.udp.pending matches Some((d, to)) && d == data@
                            && if s.held {
                            addr == to
                        } else {
                            cloned(to, addr)
                        },
                        None => s.udp.pending == self@.udp.pending,
                    }
                }),
            decreases
                left,
                if going {
                    1int
                } else {
                    0int
                },
        {
            proof {
                reveal(ServerManager::send_step);
            }
            match current.take() {
                Some((data, addr)) => {
                    let outcome: Poll<Result<(), U::Error>> = self.udp_socket.poll_send_to(
                        cx,
                        data.as_slice(),
                        &addr,
                    );
                    proof {
                        let o = transport::send_outcome(outcome);
                        assert(os.push((addr, o)).drop_last() =~= os);
                        os = os.push((addr, o));
                    }
                    match outcome {
                        Poll::Pending => {
                            self.pending_udp_tx = Some((data, addr));
                            going = false;
                            more = true;
                        },
                        Poll::Ready(r) => {
                            if r.is_err() {
                                self.udp_send_errors = self.udp_send_errors.wrapping_add(1);
                            }
                            if left == 0 {
                                going = false;
                                more = true;
                            } else {
                                current = self.pull(now);
                                going = current.is_some();
                                if going {
                                    left = left - 1;
                                }
                            }
                        },
                    }
                },
                None => {
                    going = false;
                },
            }
        }
        (more, Ghost(os))
    }

    /// Drops the sockets of a connection.
    fn drop_conn(&mut self, id: ConnId)
        requires
            old(self).wf(),
        ensures
            final(self).wf(),
            final(self)@ == (RunnerModel {
                conns: cycle::without(old(self)@.conns, id),
                ..old(self)@
            }),
    {
        let ghost all = self@.conns;
        let ghost mut k: int = 0;
        let mut i: usize = 0;
        proof {
            assert(all.take(0).len() == 0);
            assert(self@.conns =~= cycle::without(all.take(0), id) + all.skip(0));
        }
        while i < self.tcp_conns.len()
            invariant
                self.wf(),
                all == old(self)@.conns,
                0 <= k <= all.len(),
                i == cycle::without(all.take(k), id).len(),
                self@ == (RunnerModel { conns: self@.conns, ..old(self)@ }),
                self@.conns == cycle::without(all.take(k), id) + all.skip(k),
            decreases all.len() - k,
        {
            let ghost before = self@.conns;
            let ghost conns = self.tcp_conns@;
            proof {
                assert(before.len() == self.tcp_conns@.len());
                assert(k < all.len());
                assert(before[i as int] == all[k]);
                assert(all.take(k + 1).drop_last() =~= all.take(k));
                assert(all.take(k + 1).last() == all[k]);
                assert(before[i as int] == self.tcp_conns@[i as int]@);
            }
            if self.tcp_conns[i].id.0 == id.0 {
                let _ = self.tcp_conns.remove(i);
                proof {
                    assert(self.tcp_conns@ == conns.remove(i as int));
                    assert forall|j: int| 0 <= j < self.tcp_conns@.len() implies (
                    #[trigger] self.tcp_conns@[j]).wf() by {
                        if j < i {
                            assert(self.tcp_conns@[j] == conns[j]);
                        } else {
                            assert(self.tcp_conns@[j] == conns[j + 1]);
                        }
                    }
                    assert(self@.conns =~= before.remove(i as int));
                    assert(self@.conns =~= cycle::without(all.take(k + 1), id) + all.skip(k + 1));
                }
            } else {
                i = i + 1;
                assert(self@.conns =~= cycle::without(all.take(k + 1), id) + all.skip(k + 1));
            }
            proof {
                k = k + 1;
            }
        }
        proof {
            assert(self@.conns.len() == self.tcp_conns@.len());
            assert(k == all.len());
            assert(all.take(k) =~= all);
            assert(self@.conns =~= cycle::without(all, id));
        }
    }

    /// Takes the next event of the manager.
    fn take_event(&mut self) -> (r: Option<ServerEvent>)
        requires
            old(self).wf(),
        ensures
            final(self).wf(),
            (final(self)@, r) == ServerManager::<S, Q, A, BUF>::event_cycle(old(self)@),
    {
        let mut scratch: [u8; 2048] = [0; 2048];
        let ev: Option<ServerEvent> = self.manager.poll_event(&mut scratch);
        if let Some(ServerEvent::Closed(id)) = ev {
            self.drop_conn(id);
        }
        ev
    }

    /// Polls for the next server event, driving all I/O.
    ///
    /// Returns `Poll::Pending` when no events are ready. Each source of input and
    /// output is bounded per cycle to prevent starvation. Another poll is asked
    /// for when there is pending work, that is output waiting to be flushed or
    /// input beyond the bound, and not merely because input was consumed.
    pub fn poll_event(&mut self, cx: &mut Context, now: u64) -> (r: Poll<ServerEvent>)
        requires
            old(self).wf(),
        ensures
            final(self).wf(),
            exists|script: Script<A>|
                {
                    let (s, ev, more, fits) = #[trigger] ServerManager::<S, Q, A, BUF>::cycle::<P>(
                        old(self)@,
                        script,
                        now,
                    );
                    &&& fits
                    &&& final(self)@ == s
                    &&& ServerManager::<S, Q, A, BUF>::reads_in_turn(old(self)@, script, now)
                    &&& ServerManager::<S, Q, A, BUF>::accepts_in_turn(old(self)@, s)
                    &&& ServerManager::<S, Q, A, BUF>::datagrams_in_turn(old(self)@.udp.io, s.udp.io)
                    &&& r == match ev {
                        Some(e) => Poll::Ready(e),
                        None => Poll::Pending,
                    }
                    &&& final(cx).wake_requested == (old(cx).wake_requested || (ev is None
                        && more))
                },
            output::all_kept(old(self)@.conns) ==> output::all_kept(final(self)@.conns),
    {
        let ghost s0 = self@;
        let Ghost(tls) = self.accept_tls(cx, now);
        let Ghost(cleartext) = self.accept_cleartext(cx, now);
        let (read_more, Ghost(reads)) = self.read_pass(cx, now);
        let (write_more, Ghost(writes)) = self.write_pass(cx);
        let ghost s1 = self@;
        let (receive_more, Ghost(datagrams)) = self.receive_all(cx, now);
        // Timers run before datagrams are sent, so that what a timer makes due
        // is sent in this cycle and not in the next one.
        self.manager.handle_timeouts(now, &mut *self.pool);
        let (send_more, Ghost(sends)) = self.send_all(cx, now);
        let ghost s2 = self@;
        let ev: Option<ServerEvent> = self.take_event();
        let more: bool = read_more || write_more || receive_more || send_more;
        proof {
            let script = Script { tls, cleartext, reads, writes, datagrams, sends };
            let t = ServerManager::<S, Q, A, BUF>::tcp_cycle(s0, script, now);
            assert(t.0 == s1 && t.1 == (read_more || write_more) && t.2);
            let u = ServerManager::<S, Q, A, BUF>::udp_cycle::<P>(s1, script, now);
            assert(u.0 == s2 && u.1 == (receive_more || send_more) && u.2);
            let c = ServerManager::<S, Q, A, BUF>::cycle::<P>(s0, script, now);
            assert(c == (self@, ev, more, true));
            if output::all_kept(s0.conns) {
                output::cycles_keep_output::<S, Q, A, P, BUF>(s0, script, now);
            }
            turns::sources_are_asked_in_turn::<S, Q, A, P::V, BUF>(s0, script, now);
            turns::datagrams_are_asked_for_in_turn::<S, Q, A, P, BUF>(s1, script, now);
            assert(ServerManager::<S, Q, A, BUF>::accepts_in_turn(s0, self@));
            assert(ServerManager::<S, Q, A, BUF>::datagrams_in_turn(s0.udp.io, self@.udp.io));
        }
        match ev {
            Some(event) => Poll::Ready(event),
            None => {
                if more {
                    cx.wake();
                }
                Poll::Pending
            },
        }
    }

    /// The earliest timeout deadline.
    pub fn next_timeout(&self) -> (r: Option<u64>)
        requires
            self.wf(),
        ensures
            r == ServerManager::<S, Q, A, BUF>::next_deadline(self@.mgr),
    {
        self.manager.next_timeout()
    }
}

} // verus!
