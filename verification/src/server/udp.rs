//! UDP datagrams of the connection manager.

use vstd::prelude::*;

use super::manager;
use super::manager::{Mgr, QuicConn, QuicModel, ServerManager};
use super::{ConnId, ServerEvent};
use crate::bytes;
use crate::error::Error;
use crate::http::server_conn::HttpServerConn;
use crate::quic;
use crate::quic::{HandshakePoolAccess, QuicServer};
use crate::tls::TlsSession;
use crate::transport::{Address, Rng};

verus! {

impl<S: TlsSession, Q: HttpServerConn, A: Address, const BUF: usize> ServerManager<S, Q, A, BUF> {
    /// The timers of the QUIC connection at `i` run. One that is closed, or whose
    /// handshake is not over by its deadline, gives its handshake slot back and
    /// is to be removed.
    pub open spec fn quic_timed<P: HandshakePoolAccess>(m: Mgr<S::V, Q::V, A>, i: int, now: u64, pool: P::V) -> (Mgr<S::V, Q::V, A>, P::V, bool)
        where Q: QuicServer<P>,
    {
        let s = Q::timed_out(m.quic[i].server, now);
        let expired = !Q::established(s) && now >= m.handshake_deadline(m.quic[i].created_at);
        if Q::closed(s) || expired {
            let (t, p) = Q::slot_released(s, pool);
            (m.with_quic(i, t), p, true)
        } else {
            (m.with_quic(i, s), pool, false)
        }
    }

    /// The timers of the QUIC connections from `i` on run, and dead ones are
    /// removed.
    pub open spec fn reaped_from<P: HandshakePoolAccess>(m: Mgr<S::V, Q::V, A>, i: int, now: u64, pool: P::V) -> (Mgr<S::V, Q::V, A>, P::V)
        where Q: QuicServer<P>,
        decreases m.quic.len() - i,
    {
        if i < 0 || i >= m.quic.len() {
            (m, pool)
        } else {
            let (t, p, dead) = Self::quic_timed(m, i, now, pool);
            if dead {
                Self::reaped_from(
                    Mgr { quic: t.quic.remove(i), ..t }.pushed(
                        ServerEvent::Closed(m.quic[i].id),
                    ),
                    i,
                    now,
                    p,
                )
            } else {
                Self::reaped_from(t, i + 1, now, p)
            }
        }
    }

    /// The connection that a datagram is for.
    pub open spec fn route(m: Mgr<S::V, Q::V, A>, data: Seq<u8>) -> Option<int> {
        match quic::dcid_of(data, quic::LOCAL_CID_LEN as int) {
            None => None,
            Some(dcid) => manager::route_from(m.quic, dcid, 0),
        }
    }

    /// Room is made for another QUIC connection, where there is none.
    pub open spec fn room_made<P: HandshakePoolAccess>(m: Mgr<S::V, Q::V, A>, now: u64, pool: P::V) -> (Mgr<S::V, Q::V, A>, P::V)
        where Q: QuicServer<P>,
    {
        if m.quic.len() >= m.config.max_quic_conns {
            Self::reaped_from(m, 0, now, pool)
        } else {
            (m, pool)
        }
    }

    /// Another QUIC connection can be started.
    pub open spec fn has_room(m: Mgr<S::V, Q::V, A>) -> bool {
        m.quic.len() < m.config.max_quic_conns && m.next_id < u32::MAX
    }

    /// A QUIC connection is started with its first datagram. One that refuses it
    /// gives its handshake slot back.
    pub open spec fn quic_started<P: HandshakePoolAccess>(
        m: Mgr<S::V, Q::V, A>,
        data: Seq<u8>,
        from: A,
        now: u64,
        seed: Seq<u8>,
        pool: P::V,
    ) -> (Mgr<S::V, Q::V, A>, P::V, Result<(), Error>) where Q: QuicServer<P> {
        let t = Mgr { next_id: (m.next_id + 1) as u32, ..m };
        match Q::started(m.tls_config, seed, pool) {
            (Err(e), p) => (t, p, Err(e)),
            (Ok(q), p) => {
                let (q1, p1, r) = Q::datagram(q, data, now, p);
                match r {
                    Err(e) => (t, Q::slot_released(q1, p1).1, Err(e)),
                    Ok(()) => (
                        Mgr {
                            quic: t.quic.push(
                                QuicModel {
                                    id: ConnId(m.next_id),
                                    server: q1,
                                    peer_addr: from,
                                    cids: Q::cids(q),
                                    dcid: match quic::dcid_of(data, quic::LOCAL_CID_LEN as int) {
                                        Some(dcid) => dcid,
                                        None => Seq::empty(),
                                    },
                                    created_at: now,
                                },
                            ),
                            ..t
                        },
                        p1,
                        Ok(()),
                    ),
                }
            },
        }
    }

    /// A datagram arrives that is for no connection: it starts a new one, where
    /// there is room.
    pub open spec fn quic_opened<P: HandshakePoolAccess>(
        m: Mgr<S::V, Q::V, A>,
        data: Seq<u8>,
        from: A,
        now: u64,
        seed: Seq<u8>,
        pool: P::V,
    ) -> (Mgr<S::V, Q::V, A>, P::V, Result<(), Error>) where Q: QuicServer<P> {
        let (t, p) = Self::room_made(m, now, pool);
        if !Self::has_room(t) {
            (t, p, Err(Error::StreamLimitExhausted))
        } else {
            Self::quic_started(t, data, from, now, seed, p)
        }
    }

    /// What was drawn from the generator after a datagram arrives: the seed, where
    /// it starts a connection.
    pub open spec fn udp_drawn<P: HandshakePoolAccess>(
        m: Mgr<S::V, Q::V, A>,
        data: Seq<u8>,
        now: u64,
        pool: P::V,
        drawn: Seq<Seq<u8>>,
        seed: Seq<u8>,
    ) -> Seq<Seq<u8>> where Q: QuicServer<P> {
        if Self::route(m, data) is None && Self::has_room(
            Self::room_made::<P>(m, now, pool).0,
        ) {
            drawn.push(seed)
        } else {
            drawn
        }
    }

    /// A datagram arrives.
    pub open spec fn udp_fed<P: HandshakePoolAccess>(
        m: Mgr<S::V, Q::V, A>,
        data: Seq<u8>,
        from: A,
        now: u64,
        seed: Seq<u8>,
        pool: P::V,
    ) -> (Mgr<S::V, Q::V, A>, P::V, Result<(), Error>) where Q: QuicServer<P> {
        match Self::route(m, data) {
            Some(i) => {
                let (s, p, r) = Q::datagram(m.quic[i].server, data, now, pool);
                (m.with_quic(i, s), p, r)
            },
            None => Self::quic_opened(m, data, from, now, seed, pool),
        }
    }

    /// Whether a datagram is for the connection at `i`.
    fn is_addressed(&self, i: usize, dcid: &[u8]) -> (r: bool)
        requires
            i < self@.quic.len(),
        ensures
            r == manager::addressed(self@.quic[i as int], dcid@),
    {
        let ghost q = self@.quic[i as int];
        let cids: &Vec<Vec<u8>> = &self.quic_conns[i].local_cids;
        let mut k: usize = 0;
        while k < cids.len()
            invariant
                k <= cids@.len(),
                i < self@.quic.len(),
                q == self@.quic[i as int],
                q.cids == Seq::new(cids@.len(), |j: int| cids@[j]@),
                forall|j: int| 0 <= j < k ==> q.cids[j] != dcid@,
            decreases cids@.len() - k,
        {
            if bytes::bytes_equal(cids[k].as_slice(), dcid) {
                assert(q.cids[k as int] == dcid@);
                return true;
            }
            assert(q.cids[k as int] != dcid@);
            k = k + 1;
        }
        let original: &Vec<u8> = &self.quic_conns[i].original_dcid;
        original.len() > 0 && bytes::bytes_equal(original.as_slice(), dcid)
    }

    /// The connection that a datagram is for.
    fn find_route(&self, data: &[u8]) -> (r: Option<usize>)
        ensures
            match r {
                Some(i) => Self::route(self@, data@) == Some(i as int) && i
                    < self.quic_conns@.len(),
                None => Self::route(self@, data@) is None,
            },
    {
        match quic::decode_dcid(data, quic::LOCAL_CID_LEN) {
            None => None,
            Some(dcid) => {
                let mut i: usize = 0;
                while i < self.quic_conns.len()
                    invariant
                        i <= self.quic_conns@.len(),
                        quic::dcid_of(data@, quic::LOCAL_CID_LEN as int) == Some(dcid@),
                        Self::route(self@, data@) == manager::route_from(
                            self@.quic,
                            dcid@,
                            i as int,
                        ),
                    decreases self.quic_conns@.len() - i,
                {
                    if self.is_addressed(i, dcid) {
                        return Some(i);
                    }
                    i = i + 1;
                }
                None
            },
        }
    }

    /// Runs the timers of the QUIC connection at `i`. Returns whether it is dead.
    fn time_quic<P: HandshakePoolAccess>(&mut self, i: usize, now: u64, pool: &mut P) -> (dead: bool)
        where Q: QuicServer<P>
        requires
            old(self).wf(),
            i < old(self)@.quic.len(),
        ensures
            final(self).wf(),
            (final(self)@, final(pool)@, dead) == Self::quic_timed::<P>(
                old(self)@,
                i as int,
                now,
                old(pool)@,
            ),
    {
        let ghost conns = self.quic_conns@;
        proof {
            manager::lemma_quic_at(conns, i as int);
        }
        let deadline: u64 = self.quic_conns[i].created_at.saturating_add(
            self.config.handshake_timeout_us,
        );
        self.quic_conns[i].server.handle_timeout(now);
        let expired: bool = !self.quic_conns[i].server.is_established() && now >= deadline;
        let dead: bool = self.quic_conns[i].server.is_closed() || expired;
        if dead {
            self.quic_conns[i].server.release_handshake_slot(pool);
        }
        proof {
            manager::lemma_quic_update(conns, i as int, self.quic_conns@[i as int]);
            assert(self.quic_conns@ =~= conns.update(i as int, self.quic_conns@[i as int]));
        }
        dead
    }

    /// Runs the timers of the QUIC connections and removes dead ones, giving back
    /// the handshake slots that they still hold.
    pub(crate) fn reap_quic_conns<P: HandshakePoolAccess>(&mut self, now: u64, pool: &mut P)
        where Q: QuicServer<P>
        requires
            old(self).wf(),
        ensures
            final(self).wf(),
            (final(self)@, final(pool)@) == Self::reaped_from::<P>(
                old(self)@,
                0,
                now,
                old(pool)@,
            ),
    {
        let mut i: usize = 0;
        while i < self.quic_conns.len()
            invariant
                self.wf(),
                i <= self.quic_conns@.len(),
                Self::reaped_from::<P>(self@, i as int, now, pool@) == Self::reaped_from::<P>(
                    old(self)@,
                    0,
                    now,
                    old(pool)@,
                ),
            decreases self.quic_conns@.len() - i,
        {
            let id: ConnId = self.quic_conns[i].id;
            let ghost before = self@.quic.len();
            let ghost start = self@;
            let ghost slots = pool@;
            assert(before == self.quic_conns@.len());
            let dead: bool = self.time_quic(i, now, pool);
            proof {
                let q = Self::quic_timed::<P>(start, i as int, now, slots).0;
                assert(self@ == q);
                assert(q.quic.len() == before);
                assert(self@.quic.len() == self.quic_conns@.len());
            }
            if dead {
                proof {
                    manager::lemma_quic_remove(self.quic_conns@, i as int);
                }
                let _ = self.quic_conns.remove(i);
                let ghost rest = self@;
                assert(rest.quic.len() == before - 1);
                self.push_server_event(ServerEvent::Closed(id));
                assert(self@.quic == rest.quic);
                assert(self@.quic.len() == self.quic_conns@.len());
            } else {
                i = i + 1;
            }
        }
    }

    /// Starts a QUIC connection with its first datagram.
    fn start_quic<P: HandshakePoolAccess>(
        &mut self,
        data: &[u8],
        from: A,
        now: u64,
        seed: [u8; 32],
        pool: &mut P,
    ) -> (r: Result<(), Error>) where Q: QuicServer<P>
        requires
            old(self).wf(),
            old(self)@.next_id < u32::MAX,
        ensures
            final(self).wf(),
            (final(self)@, final(pool)@, r) == Self::quic_started::<P>(
                old(self)@,
                data@,
                from,
                now,
                seed@,
                old(pool)@,
            ),
    {
        let id = ConnId(self.next_id);
        self.next_id = self.next_id + 1;
        let mut server: Q = Q::server(&self.tls_config, seed, pool)?;
        let ghost fresh = server@;
        let local_cids: Vec<Vec<u8>> = server.local_cids();
        match server.recv(data, now, pool) {
            Err(e) => {
                // The handshake slot must not leak.
                server.release_handshake_slot(pool);
                Err(e)
            },
            Ok(()) => {
                let original_dcid: Vec<u8> = match quic::decode_dcid(data, quic::LOCAL_CID_LEN) {
                    Some(dcid) => vstd::slice::slice_to_vec(dcid),
                    None => Vec::new(),
                };
                let c = QuicConn {
                    id,
                    server,
                    peer_addr: from,
                    local_cids,
                    original_dcid,
                    created_at: now,
                };
                proof {
                    assert(c@.cids =~= Q::cids(fresh));
                    assert(original_dcid@ =~= match quic::dcid_of(
                        data@,
                        quic::LOCAL_CID_LEN as int,
                    ) {
                        Some(dcid) => dcid,
                        None => Seq::empty(),
                    });
                    manager::lemma_quic_push(self.quic_conns@, c);
                }
                self.quic_conns.push(c);
                Ok(())
            },
        }
    }

    /// Makes room for a QUIC connection: whether there is some. At capacity, dead
    /// connections are reaped first: on an otherwise idle server nothing has run
    /// their timers.
    fn make_room<P: HandshakePoolAccess>(&mut self, now: u64, pool: &mut P) -> (r: bool) where
        Q: QuicServer<P>
        requires
            old(self).wf(),
        ensures
            final(self).wf(),
            (final(self)@, final(pool)@) == Self::room_made::<P>(old(self)@, now, old(pool)@),
            r == Self::has_room(final(self)@),
    {
        if self.quic_conns.len() >= self.config.max_quic_conns {
            self.reap_quic_conns(now, pool);
        }
        assert(self@.quic.len() == self.quic_conns@.len());
        self.quic_conns.len() < self.config.max_quic_conns && self.next_id < u32::MAX
    }

    /// Hands a datagram to the connection at `i`.
    fn route_to<P: HandshakePoolAccess>(&mut self, i: usize, data: &[u8], now: u64, pool: &mut P) -> (r:
        Result<(), Error>) where Q: QuicServer<P>
        requires
            old(self).wf(),
            i < old(self).quic_conns@.len(),
        ensures
            final(self).wf(),
            ({
                let (s, p, e) = Q::datagram(
                    old(self)@.quic[i as int].server,
                    data@,
                    now,
                    old(pool)@,
                );
                &&& final(self)@ == old(self)@.with_quic(i as int, s)
                &&& final(pool)@ == p
                &&& r == e
            }),
    {
        let ghost conns = self.quic_conns@;
        proof {
            manager::lemma_quic_at(conns, i as int);
        }
        let r: Result<(), Error> = self.quic_conns[i].server.recv(data, now, pool);
        proof {
            manager::lemma_quic_update(conns, i as int, self.quic_conns@[i as int]);
            assert(self.quic_conns@ =~= conns.update(i as int, self.quic_conns@[i as int]));
        }
        r
    }

    /// Feeds a UDP datagram. A connection that it opens starts from this seed.
    pub fn udp_feed_with<P: HandshakePoolAccess>(
        &mut self,
        data: &[u8],
        from: A,
        now: u64,
        seed: [u8; 32],
        pool: &mut P,
    ) -> (r: Result<(), Error>) where Q: QuicServer<P>
        requires
            old(self).wf(),
        ensures
            final(self).wf(),
            (final(self)@, final(pool)@, r) == Self::udp_fed::<P>(
                old(self)@,
                data@,
                from,
                now,
                seed@,
                old(pool)@,
            ),
    {
        match self.find_route(data) {
            Some(i) => self.route_to(i, data, now, pool),
            None => {
                if !self.make_room(now, pool) {
                    return Err(Error::StreamLimitExhausted);
                }
                self.start_quic(data, from, now, seed, pool)
            },
        }
    }

    /// Feeds a UDP datagram: to the connection that it is for, or to a new one,
    /// whose seed is drawn from `rng`.
    pub fn udp_feed<R: Rng, P: HandshakePoolAccess>(
        &mut self,
        data: &[u8],
        from: A,
        now: u64,
        rng: &mut R,
        pool: &mut P,
    ) -> (r: Result<(), Error>) where Q: QuicServer<P>
        requires
            old(self).wf(),
        ensures
            final(self).wf(),
            exists|seed: Seq<u8>|
                seed.len() == 32 && (final(self)@, final(pool)@, r)
                    == #[trigger] Self::udp_fed::<P>(
                    old(self)@,
                    data@,
                    from,
                    now,
                    seed,
                    old(pool)@,
                ) && final(rng).drawn() == Self::udp_drawn::<P>(
                    old(self)@,
                    data@,
                    now,
                    old(pool)@,
                    old(rng).drawn(),
                    seed,
                ),
    {
        let mut seed: [u8; 32] = [0; 32];
        match self.find_route(data) {
            Some(i) => {
                let r: Result<(), Error> = self.route_to(i, data, now, pool);
                assert((self@, pool@, r) == Self::udp_fed::<P>(
                    old(self)@,
                    data@,
                    from,
                    now,
                    seed@,
                    old(pool)@,
                ));
                r
            },
            None => {
                if !self.make_room(now, pool) {
                    assert((self@, pool@, Err::<(), Error>(Error::StreamLimitExhausted))
                        == Self::udp_fed::<P>(old(self)@, data@, from, now, seed@, old(pool)@));
                    return Err(Error::StreamLimitExhausted);
                }
                rng.fill(&mut seed);
                let r: Result<(), Error> = self.start_quic(data, from, now, seed, pool);
                assert((self@, pool@, r) == Self::udp_fed::<P>(
                    old(self)@,
                    data@,
                    from,
                    now,
                    seed@,
                    old(pool)@,
                ));
                r
            },
        }
    }

    /// The next outgoing datagram of the QUIC connections from `i` on: which
    /// connection it comes from, and the datagram.
    pub open spec fn transmitted_from<P: HandshakePoolAccess>(m: Mgr<S::V, Q::V, A>, i: int, room: int, now: u64, pool: P::V) -> (
        Mgr<S::V, Q::V, A>,
        P::V,
        Option<(int, Seq<u8>)>,
    ) where Q: QuicServer<P>
        decreases m.quic.len() - i,
    {
        if i < 0 || i >= m.quic.len() {
            (m, pool, None)
        } else {
            let (s, p, out) = Q::transmitted(m.quic[i].server, room, now, pool);
            match out {
                Some(d) => (m.with_quic(i, s), p, Some((i, d))),
                None => Self::transmitted_from(m.with_quic(i, s), i + 1, room, now, p),
            }
        }
    }

    /// Pulls the next outgoing UDP datagram: where it goes, and its length in
    /// `buf`. Call repeatedly until `None`.
    pub fn udp_poll_transmit<P: HandshakePoolAccess>(&mut self, buf: &mut [u8], now: u64, pool: &mut P) -> (r:
        Option<(A, usize)>) where Q: QuicServer<P>
        requires
            old(self).wf(),
        ensures
            final(self).wf(),
            final(buf)@.len() == old(buf)@.len(),
            ({
                let (m, p, out) = Self::transmitted_from::<P>(
                    old(self)@,
                    0,
                    old(buf)@.len() as int,
                    now,
                    old(pool)@,
                );
                &&& final(self)@ == m
                &&& final(pool)@ == p
                &&& match r {
                    Some((addr, n)) => n <= final(buf)@.len() && (out matches Some((i, d)) && d
                        == final(buf)@.take(n as int) && cloned(m.quic[i].peer_addr, addr)),
                    None => out is None,
                }
            }),
    {
        let ghost room = buf@.len() as int;
        let mut i: usize = 0;
        while i < self.quic_conns.len()
            invariant
                self.wf(),
                i <= self.quic_conns@.len(),
                buf@.len() == room,
                room == old(buf)@.len(),
                Self::transmitted_from::<P>(self@, i as int, room, now, pool@)
                    == Self::transmitted_from::<P>(old(self)@, 0, room, now, old(pool)@),
            decreases self.quic_conns@.len() - i,
        {
            let ghost conns = self.quic_conns@;
            proof {
                manager::lemma_quic_at(conns, i as int);
            }
            let out: Option<usize> = self.quic_conns[i].server.poll_transmit(buf, now, pool);
            proof {
                manager::lemma_quic_update(conns, i as int, self.quic_conns@[i as int]);
                assert(self.quic_conns@ =~= conns.update(i as int, self.quic_conns@[i as int]));
            }
            if let Some(n) = out {
                let addr: A = self.quic_conns[i].peer_addr.clone();
                return Some((addr, n));
            }
            i = i + 1;
        }
        None
    }

    /// Number of active QUIC connections.
    pub fn quic_conn_count(&self) -> (n: usize)
        ensures
            n == self@.quic.len(),
    {
        self.quic_conns.len()
    }
}

} // verus!
