//! Which QUIC connection a datagram is for, and which one a datagram comes from.

use vstd::prelude::*;

use super::manager;
use super::manager::{Mgr, QuicModel, ServerManager};
use super::ConnId;
use crate::error::Error;
use crate::quic;
use crate::quic::{HandshakePoolAccess, QuicServer};
use crate::tls::TlsSession;
use crate::transport::Address;

verus! {

// ---------------------------------------------------------------------------
// Destinations
// ---------------------------------------------------------------------------

/// A datagram with a long header: a first byte with its top bit set, four bytes of
/// version, the length of the destination, and the destination.
pub open spec fn long_datagram(first: u8, version: Seq<u8>, cid: Seq<u8>, rest: Seq<u8>) -> Seq<u8> {
    seq![first] + version + seq![cid.len() as u8] + cid + rest
}

/// A datagram with a short header: a first byte with its top bit clear, and the
/// destination.
pub open spec fn short_datagram(first: u8, cid: Seq<u8>, rest: Seq<u8>) -> Seq<u8> {
    seq![first] + cid + rest
}

/// A datagram with this destination.
pub open spec fn is_for(data: Seq<u8>, cid: Seq<u8>) -> bool {
    ||| exists|first: u8, version: Seq<u8>, rest: Seq<u8>|
        first >= 128 && version.len() == 4 && cid.len() <= 20 && data == #[trigger] long_datagram(
            first,
            version,
            cid,
            rest,
        )
    ||| exists|first: u8, rest: Seq<u8>|
        first < 128 && cid.len() == 8 && data == #[trigger] short_datagram(first, cid, rest)
}

/// The destination of a datagram is read from either header; the bytes behind it are no
/// part of it.
pub proof fn destinations_are_read(data: Seq<u8>, cid: Seq<u8>)
    requires
        is_for(data, cid),
    ensures
        quic::dcid_of(data, quic::LOCAL_CID_LEN as int) == Some(cid),
{
    if exists|first: u8, version: Seq<u8>, rest: Seq<u8>|
        first >= 128 && version.len() == 4 && cid.len() <= 20 && data == #[trigger] long_datagram(
            first,
            version,
            cid,
            rest,
        ) {
        let (first, version, rest): (u8, Seq<u8>, Seq<u8>) = choose|
            first: u8,
            version: Seq<u8>,
            rest: Seq<u8>,
        |
            first >= 128 && version.len() == 4 && cid.len() <= 20 && data
                == #[trigger] long_datagram(first, version, cid, rest);
        assert(data[0] == first);
        assert(data[5] == cid.len() as u8);
        assert(data.subrange(6, 6 + cid.len() as int) =~= cid);
    } else {
        let (first, rest): (u8, Seq<u8>) = choose|first: u8, rest: Seq<u8>|
            first < 128 && cid.len() == 8 && data == #[trigger] short_datagram(first, cid, rest);
        assert(data[0] == first);
        assert(data.subrange(1, 9) =~= cid);
    }
}

/// A datagram that is cut off before the end of its destination has none, and neither
/// has one whose destination is longer than twenty bytes.
pub proof fn cut_datagrams_have_no_destination(data: Seq<u8>)
    requires
        data.len() > 0 && data[0] < 128 ==> data.len() < 9,
        data.len() > 0 && data[0] >= 128 ==> data.len() < 6 || data[5] > 20 || data.len() < 6
            + data[5],
    ensures
        quic::dcid_of(data, quic::LOCAL_CID_LEN as int) is None,
{
}

// ---------------------------------------------------------------------------
// Datagrams that arrive
// ---------------------------------------------------------------------------

/// The connection answers to this destination.
pub open spec fn answers_to<QV, A>(q: QuicModel<QV, A>, cid: Seq<u8>) -> bool {
    q.cids.contains(cid) || (cid.len() > 0 && q.dcid == cid)
}

proof fn lemma_routed<QV, A>(ss: Seq<QuicModel<QV, A>>, cid: Seq<u8>, i: int, k: int)
    requires
        0 <= k <= i < ss.len(),
        answers_to(ss[i], cid),
        forall|j: int| k <= j < i ==> !answers_to(#[trigger] ss[j], cid),
    ensures
        manager::route_from(ss, cid, k) == Some(i),
    decreases i - k,
{
    assert(manager::addressed(ss[k], cid) == answers_to(ss[k], cid));
    if k < i {
        lemma_routed(ss, cid, i, k + 1);
    }
}

proof fn lemma_unrouted<QV, A>(ss: Seq<QuicModel<QV, A>>, cid: Seq<u8>, k: int)
    requires
        0 <= k <= ss.len(),
        forall|j: int| k <= j < ss.len() ==> !answers_to(#[trigger] ss[j], cid),
    ensures
        manager::route_from(ss, cid, k) is None,
    decreases ss.len() - k,
{
    if k < ss.len() {
        assert(manager::addressed(ss[k], cid) == answers_to(ss[k], cid));
        lemma_unrouted(ss, cid, k + 1);
    }
}

/// A datagram goes, whole and with its time, to the first connection that answers to its
/// destination, and to no other; what that connection answers is the result.
pub proof fn datagrams_reach_their_connection<
    S: TlsSession,
    Q: QuicServer<P>,
    A: Address,
    P: HandshakePoolAccess,
    const BUF: usize,
>(
    m: Mgr<S::V, Q::V, A>,
    data: Seq<u8>,
    cid: Seq<u8>,
    i: int,
    from: A,
    now: u64,
    seed: Seq<u8>,
    pool: P::V,
)
    requires
        is_for(data, cid),
        0 <= i < m.quic.len(),
        answers_to(m.quic[i], cid),
        forall|j: int| 0 <= j < i ==> !answers_to(#[trigger] m.quic[j], cid),
    ensures
        ({
            let (t, p, r) = ServerManager::<S, Q, A, BUF>::udp_fed::<P>(
                m,
                data,
                from,
                now,
                seed,
                pool,
            );
            let (s, p2, r2) = Q::datagram(m.quic[i].server, data, now, pool);
            &&& p == p2
            &&& r == r2
            &&& t == (Mgr {
                quic: m.quic.update(i, QuicModel { server: s, ..m.quic[i] }),
                ..m
            })
        }),
{
    destinations_are_read(data, cid);
    lemma_routed(m.quic, cid, i, 0);
}

/// A datagram that no connection answers to starts one, where there is room: it gets the
/// next handle, is given the datagram, and is remembered with the address that the
/// datagram came from. One that cannot be started, or that refuses the datagram, is not
/// kept, and the error is passed on.
pub proof fn new_peers_get_a_connection<
    S: TlsSession,
    Q: QuicServer<P>,
    A: Address,
    P: HandshakePoolAccess,
    const BUF: usize,
>(
    m: Mgr<S::V, Q::V, A>,
    data: Seq<u8>,
    cid: Seq<u8>,
    from: A,
    now: u64,
    seed: Seq<u8>,
    pool: P::V,
)
    requires
        is_for(data, cid),
        forall|j: int| 0 <= j < m.quic.len() ==> !answers_to(#[trigger] m.quic[j], cid),
        m.quic.len() < m.config.max_quic_conns,
        m.next_id < u32::MAX,
    ensures
        ({
            let (t, p, r) = ServerManager::<S, Q, A, BUF>::udp_fed::<P>(
                m,
                data,
                from,
                now,
                seed,
                pool,
            );
            let n = m.quic.len() as int;
            let (started, p1) = Q::started(m.tls_config, seed, pool);
            &&& t.next_id == m.next_id + 1
            &&& t.tcp == m.tcp && t.events == m.events && t.kits == m.kits && t.config == m.config
                && t.tls_config == m.tls_config
            &&& match started {
                Err(e) => r == Err::<(), Error>(e) && p == p1 && t.quic == m.quic,
                Ok(q) => {
                    let (s, p2, given) = Q::datagram(q, data, now, p1);
                    match given {
                        Err(e) => r == Err::<(), Error>(e) && p == Q::slot_released(s, p2).1
                            && t.quic == m.quic,
                        Ok(_) => {
                            &&& r == Ok::<(), Error>(())
                            &&& p == p2
                            &&& t.quic.len() == n + 1
                            &&& t.quic.take(n) == m.quic
                            &&& t.quic[n].id == ConnId(m.next_id)
                            &&& t.quic[n].server == s
                            &&& t.quic[n].peer_addr == from
                            &&& t.quic[n].created_at == now
                            &&& t.quic[n].cids == Q::cids(q)
                        },
                    }
                },
            }
        }),
{
    destinations_are_read(data, cid);
    lemma_unrouted(m.quic, cid, 0);
    let t = ServerManager::<S, Q, A, BUF>::udp_fed::<P>(m, data, from, now, seed, pool).0;
    assert(t.quic.take(m.quic.len() as int) =~= m.quic);
}

/// The datagrams that follow reach the connection that the first one started: those with
/// the destination that the client chose, and those with one that the connection chose.
pub proof fn new_connections_are_found_again<
    S: TlsSession,
    Q: QuicServer<P>,
    A: Address,
    P: HandshakePoolAccess,
    const BUF: usize,
>(
    m: Mgr<S::V, Q::V, A>,
    data: Seq<u8>,
    cid: Seq<u8>,
    from: A,
    now: u64,
    seed: Seq<u8>,
    pool: P::V,
    next: Seq<u8>,
    to: Seq<u8>,
    later: u64,
    pool2: P::V,
)
    requires
        is_for(data, cid),
        is_for(next, to),
        cid.len() > 0,
        forall|j: int|
            0 <= j < m.quic.len() ==> !answers_to(#[trigger] m.quic[j], cid) && !answers_to(
                m.quic[j],
                to,
            ),
        m.quic.len() < m.config.max_quic_conns,
        m.next_id < u32::MAX,
        Q::started(m.tls_config, seed, pool).0 is Ok,
        ({
            let (started, p1) = Q::started(m.tls_config, seed, pool);
            &&& Q::datagram(started->Ok_0, data, now, p1).2 is Ok
            &&& to == cid || Q::cids(started->Ok_0).contains(to)
        }),
    ensures
        ({
            let t = ServerManager::<S, Q, A, BUF>::udp_fed::<P>(m, data, from, now, seed, pool).0;
            let (u, p, r) = ServerManager::<S, Q, A, BUF>::udp_fed::<P>(
                t,
                next,
                from,
                later,
                seed,
                pool2,
            );
            let n = m.quic.len() as int;
            (u.quic[n].server, p, r) == Q::datagram(t.quic[n].server, next, later, pool2)
                && u.quic.len() == t.quic.len()
        }),
{
    new_peers_get_a_connection::<S, Q, A, P, BUF>(m, data, cid, from, now, seed, pool);
    destinations_are_read(data, cid);
    lemma_unrouted(m.quic, cid, 0);
    let t = ServerManager::<S, Q, A, BUF>::udp_fed::<P>(m, data, from, now, seed, pool).0;
    let n = m.quic.len() as int;
    assert(t.quic[n].dcid == cid);
    assert(answers_to(t.quic[n], to));
    assert forall|j: int| 0 <= j < n implies !answers_to(#[trigger] t.quic[j], to) by {
        assert(t.quic[j] == t.quic.take(n)[j]);
        assert(!answers_to(m.quic[j], cid) && !answers_to(m.quic[j], to));
    }
    datagrams_reach_their_connection::<S, Q, A, P, BUF>(
        t,
        next,
        to,
        n,
        from,
        later,
        seed,
        pool2,
    );
}

// ---------------------------------------------------------------------------
// Datagrams that go out
// ---------------------------------------------------------------------------

/// Connections are asked for a datagram one after the other, with the room and the time
/// that were given, and the first that has one gives it. The connections behind it are
/// not asked. There is none where no connection has one. The pool goes from one
/// connection to the next: these are its states.
pub proof fn datagrams_come_from_the_first_that_has_one<
    S: TlsSession,
    Q: QuicServer<P>,
    A: Address,
    P: HandshakePoolAccess,
    const BUF: usize,
>(m: Mgr<S::V, Q::V, A>, i: int, room: int, now: u64, pool: P::V) -> (ps: Seq<P::V>)
    requires
        0 <= i <= m.quic.len(),
    ensures
        ({
            let (t, p, out) = ServerManager::<S, Q, A, BUF>::transmitted_from::<P>(
                m,
                i,
                room,
                now,
                pool,
            );
            let k = match out {
                Some((k, d)) => k,
                None => m.quic.len() as int,
            };
            &&& i <= k <= m.quic.len()
            &&& t == (Mgr { quic: t.quic, ..m })
            &&& t.quic.len() == m.quic.len()
            &&& ps.len() == k - i + 1
            &&& ps[0] == pool
            &&& forall|j: int|
                i <= j < k ==> #[trigger] Q::transmitted(m.quic[j].server, room, now, ps[j - i])
                    == (t.quic[j].server, ps[j - i + 1], None::<Seq<u8>>)
            &&& match out {
                Some((k, d)) => k < m.quic.len() && (t.quic[k].server, p, Some(d))
                    == Q::transmitted(m.quic[k].server, room, now, ps[k - i]),
                None => p == ps[k - i],
            }
            &&& forall|j: int|
                0 <= j < m.quic.len() && (j < i || j > k) ==> #[trigger] t.quic[j] == m.quic[j]
            &&& forall|j: int|
                0 <= j < m.quic.len() ==> (#[trigger] t.quic[j]).id == m.quic[j].id
                    && t.quic[j].peer_addr == m.quic[j].peer_addr
        }),
    decreases m.quic.len() - i,
{
    if i >= m.quic.len() {
        seq![pool]
    } else {
        let (s, p, out) = Q::transmitted(m.quic[i].server, room, now, pool);
        match out {
            Some(d) => seq![pool],
            None => {
                let n = m.with_quic(i, s);
                let rest = datagrams_come_from_the_first_that_has_one::<S, Q, A, P, BUF>(
                    n,
                    i + 1,
                    room,
                    now,
                    p,
                );
                let ps = seq![pool] + rest;
                let (t, q, o) = ServerManager::<S, Q, A, BUF>::transmitted_from::<P>(
                    m,
                    i,
                    room,
                    now,
                    pool,
                );
                let k = match o {
                    Some((k, d)) => k,
                    None => m.quic.len() as int,
                };
                assert(t.quic[i] == n.quic[i]);
                assert forall|j: int| i <= j < k implies #[trigger] Q::transmitted(
                    m.quic[j].server,
                    room,
                    now,
                    ps[j - i],
                ) == (t.quic[j].server, ps[j - i + 1], None::<Seq<u8>>) by {
                    if j == i {
                        assert(ps[1] == rest[0]);
                    } else {
                        assert(n.quic[j] == m.quic[j]);
                        assert(ps[j - i] == rest[j - (i + 1)]);
                        assert(ps[j - i + 1] == rest[j - (i + 1) + 1]);
                        assert(Q::transmitted(n.quic[j].server, room, now, rest[j - (i + 1)]) == (
                            t.quic[j].server,
                            rest[j - (i + 1) + 1],
                            None::<Seq<u8>>,
                        ));
                    }
                }
                assert(ps[k - i] == rest[k - (i + 1)]);
                ps
            },
        }
    }
}

} // verus!
