//! What holds of the manager in every state.

use vstd::prelude::*;

use super::conn;
use super::conn::{EstModel, EstablishedConn, StateModel, TcpConn, TcpModel};
use super::lifecycle;
use super::lifecycle::Target;
use super::manager;
use super::manager::{Mgr, QuicModel, ServerManager};
use super::{ConnId, ServerConfig, ServerEvent};
use crate::bytes::Field;
use crate::http::server_conn::HttpServerConn;
use crate::quic::{HandshakePoolAccess, QuicServer};
use crate::tls::{ServerTlsConfig, TlsParts, TlsSession};
use crate::transport::Address;

verus! {

/// One if lent buffers are behind a connection.
pub open spec fn lent_one<TV>(c: TcpModel<TV>) -> int {
    if c.lent() {
        1
    } else {
        0
    }
}

/// How many buffer kits are lent.
pub open spec fn lent_kits<TV>(ss: Seq<TcpModel<TV>>) -> int
    decreases ss.len(),
{
    if ss.len() == 0 {
        0
    } else {
        lent_kits(ss.drop_last()) + lent_one(ss.last())
    }
}

/// The handles of TCP connections differ.
#[verifier::opaque]
pub open spec fn tcp_distinct<TV>(ss: Seq<TcpModel<TV>>) -> bool {
    forall|i: int, j: int|
        0 <= i < j < ss.len() ==> (#[trigger] ss[i]).id != (#[trigger] ss[j]).id
}

/// The handles of QUIC connections differ.
#[verifier::opaque]
pub open spec fn quic_distinct<QV, A>(ss: Seq<QuicModel<QV, A>>) -> bool {
    forall|i: int, j: int|
        0 <= i < j < ss.len() ==> (#[trigger] ss[i]).id != (#[trigger] ss[j]).id
}

/// The handles of TCP connections differ from those of QUIC connections.
#[verifier::opaque]
pub open spec fn kinds_distinct<TV, QV, A>(
    tcp: Seq<TcpModel<TV>>,
    quic: Seq<QuicModel<QV, A>>,
) -> bool {
    forall|i: int, j: int|
        0 <= i < tcp.len() && 0 <= j < quic.len() ==> (#[trigger] tcp[i]).id != (
        #[trigger] quic[j]).id
}

/// Handles were given out before the next one.
#[verifier::opaque]
pub open spec fn handles_below<TV, QV, A>(
    tcp: Seq<TcpModel<TV>>,
    quic: Seq<QuicModel<QV, A>>,
    next: u32,
) -> bool {
    &&& forall|i: int| 0 <= i < tcp.len() ==> (#[trigger] tcp[i]).id.0 < next
    &&& forall|i: int| 0 <= i < quic.len() ==> (#[trigger] quic[i]).id.0 < next
}

/// Every connection has a handle of its own.
pub open spec fn distinct<TV, QV, A>(
    tcp: Seq<TcpModel<TV>>,
    quic: Seq<QuicModel<QV, A>>,
    next: u32,
) -> bool {
    &&& tcp_distinct(tcp)
    &&& quic_distinct(quic)
    &&& kinds_distinct(tcp, quic)
    &&& handles_below(tcp, quic, next)
}

/// The manager keeps to its limits, and every connection has a handle of its own.
pub open spec fn sound<TV, QV, A>(m: Mgr<TV, QV, A>) -> bool {
    &&& distinct(m.tcp, m.quic, m.next_id)
    &&& m.tcp.len() <= m.config.max_tcp_conns
    &&& m.quic.len() <= m.config.max_quic_conns
    &&& m.events.len() <= 1 || m.events.len() <= m.config.max_events
    &&& m.kits >= 0
}

/// The buffer kits that the manager has, free or lent.
pub open spec fn all_kits<TV, QV, A>(m: Mgr<TV, QV, A>) -> int {
    m.kits + lent_kits(m.tcp)
}

/// An operation keeps the manager sound, loses no buffer kit and leaves the
/// configuration as it is.
pub open spec fn keeps<TV, QV, A>(m: Mgr<TV, QV, A>, t: Mgr<TV, QV, A>) -> bool {
    &&& sound(t)
    &&& all_kits(t) == all_kits(m)
    &&& t.config == m.config
    &&& t.next_id >= m.next_id
}

proof fn lemma_lent_update<TV>(ss: Seq<TcpModel<TV>>, i: int, c: TcpModel<TV>)
    requires
        0 <= i < ss.len(),
    ensures
        lent_kits(ss.update(i, c)) == lent_kits(ss) - lent_one(ss[i]) + lent_one(c),
    decreases ss.len(),
{
    let tt = ss.update(i, c);
    if i < ss.len() - 1 {
        assert(tt.drop_last() =~= ss.drop_last().update(i, c));
        lemma_lent_update(ss.drop_last(), i, c);
    } else {
        assert(tt.drop_last() =~= ss.drop_last());
    }
}

proof fn lemma_tcp_same_ids<TV, QV, A>(
    tcp: Seq<TcpModel<TV>>,
    tt: Seq<TcpModel<TV>>,
    quic: Seq<QuicModel<QV, A>>,
    next: u32,
)
    requires
        distinct(tcp, quic, next),
        tt.len() == tcp.len(),
        forall|i: int| 0 <= i < tcp.len() ==> (#[trigger] tt[i]).id == tcp[i].id,
    ensures
        distinct(tt, quic, next),
{
    reveal(tcp_distinct);
    reveal(kinds_distinct);
    reveal(handles_below);
    assert forall|i: int, j: int| 0 <= i < j < tt.len() implies (#[trigger] tt[i]).id != (
    #[trigger] tt[j]).id by {
        assert(tcp[i].id != tcp[j].id);
    }
    assert forall|i: int, j: int| 0 <= i < tt.len() && 0 <= j < quic.len() implies (
    #[trigger] tt[i]).id != (#[trigger] quic[j]).id by {
        assert(tcp[i].id != quic[j].id);
    }
    assert forall|i: int| 0 <= i < tt.len() implies (#[trigger] tt[i]).id.0 < next by {
        assert(tcp[i].id.0 < next);
    }
}

proof fn lemma_quic_same_ids<TV, QV, A>(
    tcp: Seq<TcpModel<TV>>,
    quic: Seq<QuicModel<QV, A>>,
    qq: Seq<QuicModel<QV, A>>,
    next: u32,
)
    requires
        distinct(tcp, quic, next),
        qq.len() == quic.len(),
        forall|i: int| 0 <= i < quic.len() ==> (#[trigger] qq[i]).id == quic[i].id,
    ensures
        distinct(tcp, qq, next),
{
    reveal(quic_distinct);
    reveal(kinds_distinct);
    reveal(handles_below);
    assert forall|i: int, j: int| 0 <= i < j < qq.len() implies (#[trigger] qq[i]).id != (
    #[trigger] qq[j]).id by {
        assert(quic[i].id != quic[j].id);
    }
    assert forall|i: int, j: int| 0 <= i < tcp.len() && 0 <= j < qq.len() implies (
    #[trigger] tcp[i]).id != (#[trigger] qq[j]).id by {
        assert(tcp[i].id != quic[j].id);
    }
    assert forall|i: int| 0 <= i < qq.len() implies (#[trigger] qq[i]).id.0 < next by {
        assert(quic[i].id.0 < next);
    }
}

proof fn lemma_later<TV, QV, A>(
    tcp: Seq<TcpModel<TV>>,
    quic: Seq<QuicModel<QV, A>>,
    next: u32,
    later: u32,
)
    requires
        distinct(tcp, quic, next),
        next <= later,
    ensures
        distinct(tcp, quic, later),
{
    reveal(handles_below);
}

proof fn lemma_tcp_added<TV, QV, A>(
    tcp: Seq<TcpModel<TV>>,
    quic: Seq<QuicModel<QV, A>>,
    next: u32,
    c: TcpModel<TV>,
)
    requires
        distinct(tcp, quic, next),
        c.id.0 == next,
        next < u32::MAX,
    ensures
        distinct(tcp.push(c), quic, (next + 1) as u32),
        lent_kits(tcp.push(c)) == lent_kits(tcp) + lent_one(c),
{
    reveal(tcp_distinct);
    reveal(kinds_distinct);
    reveal(handles_below);
    let tt = tcp.push(c);
    assert(tt.drop_last() =~= tcp);
    assert forall|i: int, j: int| 0 <= i < j < tt.len() implies (#[trigger] tt[i]).id != (
    #[trigger] tt[j]).id by {
        assert(tt[i] == tcp[i]);
        if j < tcp.len() {
            assert(tt[j] == tcp[j]);
        }
    }
    assert forall|i: int, j: int| 0 <= i < tt.len() && 0 <= j < quic.len() implies (
    #[trigger] tt[i]).id != (#[trigger] quic[j]).id by {
        if i < tcp.len() {
            assert(tt[i] == tcp[i]);
        }
    }
    assert forall|i: int| 0 <= i < tt.len() implies (#[trigger] tt[i]).id.0 < (next
        + 1) as u32 by {
        if i < tcp.len() {
            assert(tt[i] == tcp[i]);
        }
    }
}

proof fn lemma_quic_added<TV, QV, A>(
    tcp: Seq<TcpModel<TV>>,
    quic: Seq<QuicModel<QV, A>>,
    next: u32,
    c: QuicModel<QV, A>,
)
    requires
        distinct(tcp, quic, next),
        c.id.0 == next,
        next < u32::MAX,
    ensures
        distinct(tcp, quic.push(c), (next + 1) as u32),
{
    reveal(quic_distinct);
    reveal(kinds_distinct);
    reveal(handles_below);
    let qq = quic.push(c);
    assert forall|i: int, j: int| 0 <= i < j < qq.len() implies (#[trigger] qq[i]).id != (
    #[trigger] qq[j]).id by {
        assert(qq[i] == quic[i]);
        if j < quic.len() {
            assert(qq[j] == quic[j]);
        }
    }
    assert forall|i: int, j: int| 0 <= i < tcp.len() && 0 <= j < qq.len() implies (
    #[trigger] tcp[i]).id != (#[trigger] qq[j]).id by {
        if j < quic.len() {
            assert(qq[j] == quic[j]);
        }
    }
    assert forall|i: int| 0 <= i < qq.len() implies (#[trigger] qq[i]).id.0 < (next
        + 1) as u32 by {
        if i < quic.len() {
            assert(qq[i] == quic[i]);
        }
    }
}

pub(crate) proof fn lemma_quic_removed<TV, QV, A>(
    tcp: Seq<TcpModel<TV>>,
    quic: Seq<QuicModel<QV, A>>,
    next: u32,
    k: int,
)
    requires
        distinct(tcp, quic, next),
        0 <= k < quic.len(),
    ensures
        distinct(tcp, quic.remove(k), next),
{
    reveal(quic_distinct);
    reveal(kinds_distinct);
    reveal(handles_below);
    let qq = quic.remove(k);
    assert forall|i: int| 0 <= i < qq.len() implies #[trigger] qq[i] == quic[if i < k {
        i
    } else {
        i + 1
    }] by {}
}

/// Closed connections are removed: what is left had its handle before.
pub(crate) proof fn lemma_swept<TV, QV, A>(
    ss: Seq<TcpModel<TV>>,
    quic: Seq<QuicModel<QV, A>>,
    next: u32,
)
    requires
        distinct(ss, quic, next),
    ensures
        distinct(manager::not_closed(ss), quic, next),
        lent_kits(manager::not_closed(ss)) == lent_kits(ss),
        manager::not_closed(ss).len() <= ss.len(),
        forall|i: int|
            0 <= i < manager::not_closed(ss).len() ==> exists|j: int|
                0 <= j < ss.len() && #[trigger] ss[j] == #[trigger] manager::not_closed(ss)[i],
    decreases ss.len(),
{
    reveal(tcp_distinct);
    reveal(kinds_distinct);
    reveal(handles_below);
    if ss.len() > 0 {
        let pp = ss.drop_last();
        assert forall|i: int| 0 <= i < pp.len() implies #[trigger] pp[i] == ss[i] by {}
        assert(tcp_distinct(pp));
        assert(kinds_distinct(pp, quic));
        assert(handles_below(pp, quic, next));
        lemma_swept(pp, quic, next);
        let kk = manager::not_closed(pp);
        let tt = manager::not_closed(ss);
        if ss.last().state is Closed {
            assert forall|i: int| 0 <= i < tt.len() implies exists|j: int|
                0 <= j < ss.len() && #[trigger] ss[j] == #[trigger] tt[i] by {
                let j = choose|j: int| 0 <= j < pp.len() && #[trigger] pp[j] == kk[i];
                assert(ss[j] == tt[i]);
            }
        } else {
            assert(tt.drop_last() =~= kk);
            assert forall|i: int| 0 <= i < tt.len() implies exists|j: int|
                0 <= j < ss.len() && #[trigger] ss[j] == #[trigger] tt[i] by {
                if i < kk.len() {
                    let j = choose|j: int| 0 <= j < pp.len() && #[trigger] pp[j] == kk[i];
                    assert(tt[i] == kk[i]);
                    assert(ss[j] == tt[i]);
                } else {
                    assert(ss[ss.len() - 1] == tt[i]);
                }
            }
            assert forall|i: int, j: int| 0 <= i < j < tt.len() implies (#[trigger] tt[i]).id != (
            #[trigger] tt[j]).id by {
                assert(tt[i] == kk[i]);
                if j < kk.len() {
                    assert(tt[j] == kk[j]);
                } else {
                    let k = choose|k: int| 0 <= k < pp.len() && #[trigger] pp[k] == kk[i];
                    assert(ss[k].id != ss[ss.len() - 1].id);
                }
            }
            assert forall|i: int, j: int| 0 <= i < tt.len() && 0 <= j < quic.len() implies (
            #[trigger] tt[i]).id != (#[trigger] quic[j]).id by {
                if i < kk.len() {
                    assert(tt[i] == kk[i]);
                }
            }
            assert forall|i: int| 0 <= i < tt.len() implies (#[trigger] tt[i]).id.0 < next by {
                if i < kk.len() {
                    assert(tt[i] == kk[i]);
                }
            }
        }
    }
}

proof fn lemma_pushed<TV, QV, A>(m: Mgr<TV, QV, A>, e: ServerEvent)
    requires
        sound(m),
    ensures
        keeps(m, m.pushed(e)),
        m.pushed(e).tcp == m.tcp,
        m.pushed(e).quic == m.quic,
{
}

proof fn lemma_pushed_all<TV, QV, A>(m: Mgr<TV, QV, A>, es: Seq<ServerEvent>)
    requires
        sound(m),
    ensures
        keeps(m, m.pushed_all(es)),
        m.pushed_all(es).tcp == m.tcp,
        m.pushed_all(es).quic == m.quic,
    decreases es.len(),
{
    if es.len() > 0 {
        lemma_pushed_all(m, es.drop_last());
        lemma_pushed(m.pushed_all(es.drop_last()), es.last());
    }
}

/// A connection changes, and keeps its handle and the buffers behind it.
pub(crate) proof fn lemma_with_tcp<TV, QV, A>(m: Mgr<TV, QV, A>, i: int, c: TcpModel<TV>)
    requires
        sound(m),
        0 <= i < m.tcp.len(),
        c.id == m.tcp[i].id,
        c.lent() == m.tcp[i].lent(),
    ensures
        keeps(m, m.with_tcp(i, c)),
{
    lemma_tcp_same_ids(m.tcp, m.tcp.update(i, c), m.quic, m.next_id);
    lemma_lent_update(m.tcp, i, c);
}

pub(crate) proof fn lemma_with_quic<TV, QV, A>(m: Mgr<TV, QV, A>, i: int, s: QV)
    requires
        sound(m),
        0 <= i < m.quic.len(),
    ensures
        keeps(m, m.with_quic(i, s)),
{
    lemma_quic_same_ids(
        m.tcp,
        m.quic,
        m.quic.update(i, QuicModel { server: s, ..m.quic[i] }),
        m.next_id,
    );
}

/// Closing a connection gives back the buffers that it was lent.
proof fn lemma_shut<TV, QV, A>(m: Mgr<TV, QV, A>, i: int)
    requires
        sound(m),
        0 <= i < m.tcp.len(),
    ensures
        keeps(m, m.shut(i)),
        keeps(m, m.dropped(i)),
{
    let c = m.tcp[i].shut();
    lemma_tcp_same_ids(m.tcp, m.tcp.update(i, c), m.quic, m.next_id);
    lemma_lent_update(m.tcp, i, c);
    lemma_pushed(m.shut(i), ServerEvent::Closed(m.tcp[i].id));
}

/// Whether lent buffers are behind an HTTP connection.
pub open spec fn est_lent<V>(e: EstModel<V>) -> bool {
    match e {
        EstModel::Plain(_) => false,
        EstModel::Https1(s) => s.lent,
        EstModel::H2(s) => s.lent,
    }
}

proof fn lemma_est_fed<S: TlsSession, const BUF: usize>(e: EstModel<S::V>, data: Seq<u8>, now: u64)
    ensures
        est_lent(EstablishedConn::<S, BUF>::fed_timed(e, data, now).0) == est_lent(e),
{
}

proof fn lemma_est_polled<S: TlsSession, const BUF: usize>(e: EstModel<S::V>, room: int)
    ensures
        est_lent(EstablishedConn::<S, BUF>::output_polled(e, room).0) == est_lent(e),
{
}

proof fn lemma_est_event<S: TlsSession, const BUF: usize>(e: EstModel<S::V>)
    ensures
        est_lent(EstablishedConn::<S, BUF>::event_polled(e).0) == est_lent(e),
{
}

proof fn lemma_est_timed<S: TlsSession, const BUF: usize>(e: EstModel<S::V>, now: u64)
    ensures
        est_lent(EstablishedConn::<S, BUF>::timed_out(e, now)) == est_lent(e),
{
}

proof fn lemma_est_read<S: TlsSession, const BUF: usize>(e: EstModel<S::V>, id: u64, room: int)
    ensures
        est_lent(EstablishedConn::<S, BUF>::headers_read(e, id).0) == est_lent(e),
        est_lent(EstablishedConn::<S, BUF>::body_read(e, id, room).0) == est_lent(e),
{
}

proof fn lemma_est_sent<S: TlsSession, const BUF: usize>(
    e: EstModel<S::V>,
    id: u64,
    status: u16,
    fs: Seq<Field>,
    data: Seq<u8>,
    end: bool,
)
    ensures
        est_lent(EstablishedConn::<S, BUF>::response_sent(e, id, status, fs, end).0) == est_lent(e),
        est_lent(EstablishedConn::<S, BUF>::body_sent(e, id, data, end).0) == est_lent(e),
{
}

proof fn lemma_drained<S: TlsSession, const BUF: usize>(
    e: EstModel<S::V>,
    id: ConnId,
    acc: Seq<ServerEvent>,
)
    ensures
        est_lent(conn::all_events::<S, BUF>(e, id, acc).0) == est_lent(e),
    decreases e.waiting(),
{
    conn::polling_takes_one::<S, BUF>(e);
    lemma_est_event::<S, BUF>(e);
    match EstablishedConn::<S, BUF>::event_polled(e) {
        (f, Some(x)) => {
            lemma_drained::<S, BUF>(f, id, acc.push(ServerEvent::Http { conn: id, event: x }));
        },
        (f, None) => {},
    }
}

/// An HTTP connection changes, and keeps the buffers behind it.
proof fn lemma_with_est<TV, QV, A>(m: Mgr<TV, QV, A>, i: int, f: EstModel<TV>)
    requires
        sound(m),
        0 <= i < m.tcp.len(),
        m.tcp[i].state matches StateModel::Established(e) && est_lent(f) == est_lent(e),
    ensures
        keeps(m, m.with_state(i, StateModel::Established(f))),
{
    lemma_with_tcp(m, i, m.tcp[i].with_state(StateModel::Established(f)));
}

proof fn lemma_tcp_fed<S: TlsSession, Q: HttpServerConn, A: Address, const BUF: usize>(m: Mgr<S::V, Q::V, A>, id: ConnId, data: Seq<u8>, now: u64)
    requires
        sound(m),
    ensures
        keeps(m, ServerManager::<S, Q, A, BUF>::tcp_fed(m, id, data, now).0),
{
    lifecycle::tcp_found(m.tcp, id, 0);
    match m.find_tcp(id) {
        Some(i) => match m.tcp[i].state {
            StateModel::Established(e) => {
                lemma_est_fed::<S, BUF>(e, data, now);
                lemma_with_est(m, i, EstablishedConn::<S, BUF>::fed_timed(e, data, now).0);
            },
            StateModel::Handshaking(p) => {
                lemma_handshake_fed::<S, Q, A, BUF>(m, i, data, now);
            },
            StateModel::Closed => {},
        },
        None => {},
    }
}

proof fn lemma_handshake_fed<S: TlsSession, Q: HttpServerConn, A: Address, const BUF: usize>(m: Mgr<S::V, Q::V, A>, i: int, data: Seq<u8>, now: u64)
    requires
        sound(m),
        0 <= i < m.tcp.len(),
        m.tcp[i].state is Handshaking,
    ensures
        keeps(m, ServerManager::<S, Q, A, BUF>::handshake_fed(m, i, data, now).0),
{
    let (p, r) = TlsParts::<S, BUF>::fed(m.tcp[i].state->Handshaking_0, data);
    let t = m.with_state(i, StateModel::Handshaking(p));
    lemma_with_tcp(m, i, m.tcp[i].with_state(StateModel::Handshaking(p)));
    lemma_shut(t, i);
    match conn::upgraded::<S, BUF>(p) {
        Some((protocol, e)) => {
            lemma_est_fed::<S, BUF>(e, Seq::empty(), now);
            let f = EstablishedConn::<S, BUF>::fed_timed(e, Seq::empty(), now).0;
            let c = TcpModel { state: StateModel::Established(f), protocol, ..t.tcp[i] };
            lemma_with_tcp(t, i, c);
            lemma_pushed(t.with_tcp(i, c), ServerEvent::Connected(t.tcp[i].id));
        },
        None => {},
    }
}

proof fn lemma_tcp_polled<S: TlsSession, Q: HttpServerConn, A: Address, const BUF: usize>(m: Mgr<S::V, Q::V, A>, id: ConnId, room: int)
    requires
        sound(m),
    ensures
        keeps(m, ServerManager::<S, Q, A, BUF>::tcp_polled(m, id, room).0),
{
    lifecycle::tcp_found(m.tcp, id, 0);
    match m.find_tcp(id) {
        Some(i) => {
            match m.tcp[i].state {
                StateModel::Established(e) => {
                    lemma_est_polled::<S, BUF>(e, room);
                },
                _ => {},
            }
            lemma_with_tcp(m, i, TcpConn::<S, BUF>::polled(m.tcp[i], room).0);
        },
        None => {},
    }
}

proof fn lemma_accepted<S: TlsSession, Q: HttpServerConn, A: Address, const BUF: usize>(m: Mgr<S::V, Q::V, A>, secret: Seq<u8>, random: Seq<u8>, now: u64)
    requires
        sound(m),
    ensures
        keeps(m, ServerManager::<S, Q, A, BUF>::accepted(m, secret, random, now).0),
        keeps(m, ServerManager::<S, Q, A, BUF>::accepted_cleartext(m, now).0),
{
    if ServerManager::<S, Q, A, BUF>::acceptable(m) {
        let (t, _) = ServerManager::<S, Q, A, BUF>::accepted(m, secret, random, now);
        lemma_tcp_added(m.tcp, m.quic, m.next_id, t.tcp.last());
        assert(t.tcp == m.tcp.push(t.tcp.last()));
        let (u, _) = ServerManager::<S, Q, A, BUF>::accepted_cleartext(m, now);
        lemma_tcp_added(m.tcp, m.quic, m.next_id, u.tcp.last());
        let v = Mgr { tcp: u.tcp, next_id: (m.next_id + 1) as u32, ..m };
        assert(u.tcp == m.tcp.push(u.tcp.last()));
        lemma_pushed(v, ServerEvent::Connected(ConnId(m.next_id)));
    }
}

pub(crate) proof fn lemma_conn_polled<S: TlsSession, Q: HttpServerConn, A: Address, const BUF: usize>(m: Mgr<S::V, Q::V, A>, i: int)
    requires
        sound(m),
        0 <= i < m.tcp.len(),
    ensures
        keeps(m, ServerManager::<S, Q, A, BUF>::tcp_conn_polled(m, i).0),
{
    match m.tcp[i].state {
        StateModel::Established(e) => {
            lemma_est_event::<S, BUF>(e);
            let f = EstablishedConn::<S, BUF>::event_polled(e).0;
            lemma_with_est(m, i, f);
            lemma_shut(m.with_state(i, StateModel::Established(f)), i);
        },
        _ => {},
    }
}

pub(crate) proof fn lemma_tcp_scanned<S: TlsSession, Q: HttpServerConn, A: Address, const BUF: usize>(m: Mgr<S::V, Q::V, A>, i: int)
    requires
        sound(m),
        0 <= i,
    ensures
        keeps(m, ServerManager::<S, Q, A, BUF>::tcp_scanned(m, i).0),
    decreases m.tcp.len() - i,
{
    if i < m.tcp.len() {
        lemma_conn_polled::<S, Q, A, BUF>(m, i);
        match ServerManager::<S, Q, A, BUF>::tcp_conn_polled(m, i) {
            (t, None) => {
                lemma_tcp_scanned::<S, Q, A, BUF>(t, i + 1);
            },
            _ => {},
        }
    }
}

pub(crate) proof fn lemma_quic_scanned<S: TlsSession, Q: HttpServerConn, A: Address, const BUF: usize>(m: Mgr<S::V, Q::V, A>, i: int)
    requires
        sound(m),
        0 <= i,
    ensures
        keeps(m, ServerManager::<S, Q, A, BUF>::quic_scanned(m, i).0),
    decreases m.quic.len() - i,
{
    if i < m.quic.len() {
        let (s, ev) = Q::event_polled(m.quic[i].server);
        lemma_with_quic(m, i, s);
        if ev is None {
            lemma_quic_scanned::<S, Q, A, BUF>(m.with_quic(i, s), i + 1);
        }
    }
}

proof fn lemma_event_polled<S: TlsSession, Q: HttpServerConn, A: Address, const BUF: usize>(m: Mgr<S::V, Q::V, A>)
    requires
        sound(m),
    ensures
        keeps(m, ServerManager::<S, Q, A, BUF>::event_polled(m).0),
{
    if m.events.len() == 0 {
        lemma_tcp_scanned::<S, Q, A, BUF>(m, 0);
        let (t, e) = ServerManager::<S, Q, A, BUF>::tcp_scanned(m, 0);
        lemma_quic_scanned::<S, Q, A, BUF>(t, 0);
        let (u, f) = ServerManager::<S, Q, A, BUF>::quic_scanned(t, 0);
        lemma_swept(u.tcp, u.quic, u.next_id);
    }
}

proof fn lemma_http_read<S: TlsSession, Q: HttpServerConn, A: Address, const BUF: usize>(m: Mgr<S::V, Q::V, A>, id: ConnId, stream: u64, room: int)
    requires
        sound(m),
    ensures
        keeps(m, ServerManager::<S, Q, A, BUF>::headers_read(m, id, stream).0),
        keeps(m, ServerManager::<S, Q, A, BUF>::body_read(m, id, stream, room).0),
{
    lifecycle::tcp_found(m.tcp, id, 0);
    quic_found(m.quic, id, 0);
    match ServerManager::<S, Q, A, BUF>::target(m, id) {
        Target::Tcp(i) => {
            let e = ServerManager::<S, Q, A, BUF>::http_at(m, i);
            lemma_est_read::<S, BUF>(e, stream, room);
            lemma_with_est(m, i, EstablishedConn::<S, BUF>::headers_read(e, stream).0);
            lemma_with_est(m, i, EstablishedConn::<S, BUF>::body_read(e, stream, room).0);
        },
        Target::Quic(i) => {
            lemma_with_quic(m, i, Q::headers_read(m.quic[i].server, stream).0);
            lemma_with_quic(m, i, Q::body_read(m.quic[i].server, stream, room).0);
        },
        Target::Nowhere => {},
    }
}

proof fn lemma_http_sent<S: TlsSession, Q: HttpServerConn, A: Address, const BUF: usize>(
    m: Mgr<S::V, Q::V, A>,
    id: ConnId,
    stream: u64,
    status: u16,
    fs: Seq<Field>,
    data: Seq<u8>,
    end: bool,
)
    requires
        sound(m),
    ensures
        keeps(m, ServerManager::<S, Q, A, BUF>::response_sent(m, id, stream, status, fs, end).0),
        keeps(m, ServerManager::<S, Q, A, BUF>::body_sent(m, id, stream, data, end).0),
{
    lifecycle::tcp_found(m.tcp, id, 0);
    quic_found(m.quic, id, 0);
    match ServerManager::<S, Q, A, BUF>::target(m, id) {
        Target::Tcp(i) => {
            let e = ServerManager::<S, Q, A, BUF>::http_at(m, i);
            lemma_est_sent::<S, BUF>(e, stream, status, fs, data, end);
            lemma_with_est(
                m,
                i,
                EstablishedConn::<S, BUF>::response_sent(e, stream, status, fs, end).0,
            );
            lemma_with_est(m, i, EstablishedConn::<S, BUF>::body_sent(e, stream, data, end).0);
        },
        Target::Quic(i) => {
            lemma_with_quic(
                m,
                i,
                Q::response_sent(m.quic[i].server, stream, status, fs, end).0,
            );
            lemma_with_quic(m, i, Q::body_sent(m.quic[i].server, stream, data, end).0);
        },
        Target::Nowhere => {},
    }
}

/// What is found has the handle.
pub proof fn quic_found<QV, A>(ss: Seq<QuicModel<QV, A>>, id: ConnId, i: int)
    ensures
        match manager::quic_from(ss, id, i) {
            Some(k) => 0 <= i <= k < ss.len() && ss[k].id == id,
            None => i >= 0 ==> forall|j: int| i <= j < ss.len() ==> (#[trigger] ss[j]).id != id,
        },
    decreases ss.len() - i,
{
    if 0 <= i < ss.len() && ss[i].id != id {
        quic_found(ss, id, i + 1);
    }
}

pub(crate) proof fn lemma_conn_timed<S: TlsSession, Q: HttpServerConn, A: Address, const BUF: usize>(m: Mgr<S::V, Q::V, A>, i: int, now: u64)
    requires
        sound(m),
        0 <= i < m.tcp.len(),
    ensures
        keeps(m, ServerManager::<S, Q, A, BUF>::tcp_conn_timed(m, i, now)),
{
    match m.tcp[i].state {
        StateModel::Established(e) => {
            lemma_est_timed::<S, BUF>(e, now);
            lemma_with_est(m, i, EstablishedConn::<S, BUF>::timed_out(e, now));
        },
        StateModel::Handshaking(_) => {
            lemma_shut(m, i);
        },
        StateModel::Closed => {},
    }
}

pub(crate) proof fn lemma_tcp_timed<S: TlsSession, Q: HttpServerConn, A: Address, const BUF: usize>(m: Mgr<S::V, Q::V, A>, i: int, now: u64)
    requires
        sound(m),
        0 <= i,
    ensures
        keeps(m, ServerManager::<S, Q, A, BUF>::tcp_timed_from(m, i, now)),
    decreases m.tcp.len() - i,
{
    if i < m.tcp.len() {
        lemma_conn_timed::<S, Q, A, BUF>(m, i, now);
        lemma_tcp_timed::<S, Q, A, BUF>(
            ServerManager::<S, Q, A, BUF>::tcp_conn_timed(m, i, now),
            i + 1,
            now,
        );
    }
}

pub(crate) proof fn lemma_reaped<S: TlsSession, Q: QuicServer<P>, A: Address, P: HandshakePoolAccess, const BUF: usize>(
    m: Mgr<S::V, Q::V, A>,
    i: int,
    now: u64,
    pool: P::V,
)
    requires
        sound(m),
        0 <= i,
    ensures
        keeps(m, ServerManager::<S, Q, A, BUF>::reaped_from::<P>(m, i, now, pool).0),
    decreases m.quic.len() - i,
{
    if i < m.quic.len() {
        let s = Q::timed_out(m.quic[i].server, now);
        lemma_with_quic(m, i, s);
        lemma_with_quic(m, i, <Q as QuicServer<P>>::slot_released(s, pool).0);
        let (t, p, dead) = ServerManager::<S, Q, A, BUF>::quic_timed::<P>(m, i, now, pool);
        assert(keeps(m, t));
        if dead {
            lemma_quic_removed(t.tcp, t.quic, t.next_id, i);
            let u = Mgr { quic: t.quic.remove(i), ..t };
            assert(keeps(m, u));
            lemma_pushed(u, ServerEvent::Closed(m.quic[i].id));
            lemma_reaped::<S, Q, A, P, BUF>(
                u.pushed(ServerEvent::Closed(m.quic[i].id)),
                i,
                now,
                p,
            );
        } else {
            lemma_reaped::<S, Q, A, P, BUF>(t, i + 1, now, p);
        }
    }
}

proof fn lemma_udp_fed<S: TlsSession, Q: QuicServer<P>, A: Address, P: HandshakePoolAccess, const BUF: usize>(
    m: Mgr<S::V, Q::V, A>,
    data: Seq<u8>,
    from: A,
    now: u64,
    seed: Seq<u8>,
    pool: P::V,
)
    requires
        sound(m),
    ensures
        keeps(m, ServerManager::<S, Q, A, BUF>::udp_fed::<P>(m, data, from, now, seed, pool).0),
{
    match ServerManager::<S, Q, A, BUF>::route(m, data) {
        Some(i) => {
            let dcid = crate::quic::dcid_of(data, crate::quic::LOCAL_CID_LEN as int)->0;
            lemma_routed(m.quic, dcid, 0);
            lemma_with_quic(
                m,
                i,
                <Q as QuicServer<P>>::datagram(m.quic[i].server, data, now, pool).0,
            );
        },
        None => {
            lemma_reaped::<S, Q, A, P, BUF>(m, 0, now, pool);
            let (t, p) = ServerManager::<S, Q, A, BUF>::room_made::<P>(m, now, pool);
            assert(keeps(m, t));
            if ServerManager::<S, Q, A, BUF>::has_room(t) {
                lemma_quic_started::<S, Q, A, P, BUF>(t, data, from, now, seed, p);
            }
        },
    }
}

proof fn lemma_quic_started<S: TlsSession, Q: QuicServer<P>, A: Address, P: HandshakePoolAccess, const BUF: usize>(
    m: Mgr<S::V, Q::V, A>,
    data: Seq<u8>,
    from: A,
    now: u64,
    seed: Seq<u8>,
    pool: P::V,
)
    requires
        sound(m),
        m.quic.len() < m.config.max_quic_conns,
        m.next_id < u32::MAX,
    ensures
        keeps(m, ServerManager::<S, Q, A, BUF>::quic_started::<P>(m, data, from, now, seed, pool).0),
{
    lemma_later(m.tcp, m.quic, m.next_id, (m.next_id + 1) as u32);
    let (t, p, r) = ServerManager::<S, Q, A, BUF>::quic_started::<P>(
        m,
        data,
        from,
        now,
        seed,
        pool,
    );
    if r is Ok {
        lemma_quic_added(m.tcp, m.quic, m.next_id, t.quic.last());
        assert(t.quic == m.quic.push(t.quic.last()));
    }
}

pub(crate) proof fn lemma_routed<QV, A>(ss: Seq<QuicModel<QV, A>>, dcid: Seq<u8>, i: int)
    ensures
        manager::route_from(ss, dcid, i) matches Some(k) ==> 0 <= i <= k < ss.len(),
    decreases ss.len() - i,
{
    if 0 <= i < ss.len() && !manager::addressed(ss[i], dcid) {
        lemma_routed(ss, dcid, i + 1);
    }
}

proof fn lemma_transmitted<S: TlsSession, Q: QuicServer<P>, A: Address, P: HandshakePoolAccess, const BUF: usize>(
    m: Mgr<S::V, Q::V, A>,
    i: int,
    room: int,
    now: u64,
    pool: P::V,
)
    requires
        sound(m),
        0 <= i,
    ensures
        keeps(m, ServerManager::<S, Q, A, BUF>::transmitted_from::<P>(m, i, room, now, pool).0),
    decreases m.quic.len() - i,
{
    if i < m.quic.len() {
        let (s, p, out) = <Q as QuicServer<P>>::transmitted(m.quic[i].server, room, now, pool);
        lemma_with_quic(m, i, s);
        if out is None {
            lemma_transmitted::<S, Q, A, P, BUF>(m.with_quic(i, s), i + 1, room, now, p);
        }
    }
}

pub(crate) proof fn lemma_ended<S: TlsSession, Q: HttpServerConn, A: Address, const BUF: usize>(m: Mgr<S::V, Q::V, A>, id: ConnId)
    requires
        sound(m),
    ensures
        keeps(m, ServerManager::<S, Q, A, BUF>::ended(m, id)),
{
    lifecycle::tcp_found(m.tcp, id, 0);
    match m.find_tcp(id) {
        Some(i) => match m.tcp[i].state {
            StateModel::Established(e) => {
                lemma_drained::<S, BUF>(e, id, Seq::empty());
                let (f, es) = conn::all_events::<S, BUF>(e, id, Seq::empty());
                lemma_with_est(m, i, f);
                let t = m.with_state(i, StateModel::Established(f));
                lemma_shut(t, i);
                lemma_pushed_all(t.shut(i), es);
                lemma_pushed(t.shut(i).pushed_all(es), ServerEvent::Closed(id));
            },
            StateModel::Handshaking(_) => {
                lemma_shut(m, i);
            },
            StateModel::Closed => {},
        },
        None => {},
    }
}

// ---------------------------------------------------------------------------
// Laws
// ---------------------------------------------------------------------------

/// A call of the manager.
pub enum Call<A> {
    AddTlsBufferKit,
    TakeTlsBufferKit,
    AcceptTcp(Seq<u8>, Seq<u8>, u64),
    AcceptTcpCleartext(u64),
    TcpFeed(ConnId, Seq<u8>, u64),
    TcpPollOutput(ConnId, nat),
    TcpEof(ConnId),
    UdpFeed(Seq<u8>, A, u64, Seq<u8>),
    UdpPollTransmit(nat, u64),
    PollEvent,
    RecvHeaders(ConnId, u64),
    RecvBody(ConnId, u64, nat),
    SendResponse(ConnId, u64, u16, Seq<Field>, bool),
    SendBody(ConnId, u64, Seq<u8>, bool),
    HandleTimeouts(u64),
    Close(ConnId),
}

/// A connection is closed by the application.
pub open spec fn closed_by_application<Q: QuicServer<P>, TV, A, P: HandshakePoolAccess>(
    m: Mgr<TV, Q::V, A>,
    id: ConnId,
) -> Mgr<TV, Q::V, A> {
    match (m.find_tcp(id), m.find_quic(id)) {
        (Some(i), _) => if m.tcp[i].state is Closed {
            m
        } else {
            m.dropped(i)
        },
        (None, Some(i)) => m.with_quic(i, <Q as QuicServer<P>>::closing(m.quic[i].server)),
        (None, None) => m,
    }
}

/// The manager and the handshake pool after a call.
pub open spec fn after<S: TlsSession, Q: QuicServer<P>, A: Address, P: HandshakePoolAccess, const BUF: usize>(
    m: Mgr<S::V, Q::V, A>,
    pool: P::V,
    call: Call<A>,
) -> (Mgr<S::V, Q::V, A>, P::V) {
    match call {
        Call::AddTlsBufferKit => (Mgr { kits: m.kits + 1, ..m }, pool),
        Call::TakeTlsBufferKit => (
            Mgr {
                kits: if m.kits > 0 {
                    m.kits - 1
                } else {
                    m.kits
                },
                ..m
            },
            pool,
        ),
        Call::AcceptTcp(secret, random, now) => (
            ServerManager::<S, Q, A, BUF>::accepted(m, secret, random, now).0,
            pool,
        ),
        Call::AcceptTcpCleartext(now) => (
            ServerManager::<S, Q, A, BUF>::accepted_cleartext(m, now).0,
            pool,
        ),
        Call::TcpFeed(id, data, now) => (
            ServerManager::<S, Q, A, BUF>::tcp_fed(m, id, data, now).0,
            pool,
        ),
        Call::TcpPollOutput(id, room) => (
            ServerManager::<S, Q, A, BUF>::tcp_polled(m, id, room as int).0,
            pool,
        ),
        Call::TcpEof(id) => (ServerManager::<S, Q, A, BUF>::ended(m, id), pool),
        Call::UdpFeed(data, from, now, seed) => {
            let (t, p, r) = ServerManager::<S, Q, A, BUF>::udp_fed::<P>(
                m,
                data,
                from,
                now,
                seed,
                pool,
            );
            (t, p)
        },
        Call::UdpPollTransmit(room, now) => {
            let (t, p, out) = ServerManager::<S, Q, A, BUF>::transmitted_from::<P>(
                m,
                0,
                room as int,
                now,
                pool,
            );
            (t, p)
        },
        Call::PollEvent => (ServerManager::<S, Q, A, BUF>::event_polled(m).0, pool),
        Call::RecvHeaders(id, stream) => (
            ServerManager::<S, Q, A, BUF>::headers_read(m, id, stream).0,
            pool,
        ),
        Call::RecvBody(id, stream, room) => (
            ServerManager::<S, Q, A, BUF>::body_read(m, id, stream, room as int).0,
            pool,
        ),
        Call::SendResponse(id, stream, status, fs, end) => (
            ServerManager::<S, Q, A, BUF>::response_sent(m, id, stream, status, fs, end).0,
            pool,
        ),
        Call::SendBody(id, stream, data, end) => (
            ServerManager::<S, Q, A, BUF>::body_sent(m, id, stream, data, end).0,
            pool,
        ),
        Call::HandleTimeouts(now) => ServerManager::<S, Q, A, BUF>::reaped_from::<P>(
            ServerManager::<S, Q, A, BUF>::tcp_timed_from(m, 0, now),
            0,
            now,
            pool,
        ),
        Call::Close(id) => (closed_by_application::<Q, S::V, A, P>(m, id), pool),
    }
}

/// The manager and the handshake pool after calls in order.
pub open spec fn run<S: TlsSession, Q: QuicServer<P>, A: Address, P: HandshakePoolAccess, const BUF: usize>(
    m: Mgr<S::V, Q::V, A>,
    pool: P::V,
    calls: Seq<Call<A>>,
) -> (Mgr<S::V, Q::V, A>, P::V)
    decreases calls.len(),
{
    if calls.len() == 0 {
        (m, pool)
    } else {
        let (t, p) = run::<S, Q, A, P, BUF>(m, pool, calls.drop_last());
        after::<S, Q, A, P, BUF>(t, p, calls.last())
    }
}

/// Buffer kits that a call brings or takes away.
pub open spec fn kits_brought<TV, QV, A>(m: Mgr<TV, QV, A>, call: Call<A>) -> int {
    match call {
        Call::AddTlsBufferKit => 1,
        Call::TakeTlsBufferKit => if m.kits > 0 {
            -1
        } else {
            0
        },
        _ => 0,
    }
}

proof fn lemma_close<Q: QuicServer<P>, TV, A, P: HandshakePoolAccess>(m: Mgr<TV, Q::V, A>, id: ConnId)
    requires
        sound(m),
    ensures
        keeps(m, closed_by_application::<Q, TV, A, P>(m, id)),
{
    lifecycle::tcp_found(m.tcp, id, 0);
    quic_found(m.quic, id, 0);
    match (m.find_tcp(id), m.find_quic(id)) {
        (Some(i), _) => {
            lemma_shut(m, i);
        },
        (None, Some(i)) => {
            lemma_with_quic(m, i, <Q as QuicServer<P>>::closing(m.quic[i].server));
        },
        (None, None) => {},
    }
}

/// No call leaks a buffer kit: the kits that are free and those that are lent to
/// live connections are together those that were added and not taken back. Every
/// call keeps the manager within its limits, with a handle of its own for every
/// connection, and gives out no handle twice.
pub proof fn call_keeps_the_manager_sound<
    S: TlsSession,
    Q: QuicServer<P>,
    A: Address,
    P: HandshakePoolAccess,
    const BUF: usize,
>(m: Mgr<S::V, Q::V, A>, pool: P::V, call: Call<A>)
    requires
        sound(m),
    ensures
        ({
            let t = after::<S, Q, A, P, BUF>(m, pool, call).0;
            &&& sound(t)
            &&& all_kits(t) == all_kits(m) + kits_brought(m, call)
            &&& t.config == m.config
            &&& t.next_id >= m.next_id
        }),
{
    match call {
        Call::AddTlsBufferKit => {},
        Call::TakeTlsBufferKit => {},
        Call::AcceptTcp(secret, random, now) => {
            lemma_accepted::<S, Q, A, BUF>(m, secret, random, now);
        },
        Call::AcceptTcpCleartext(now) => {
            lemma_accepted::<S, Q, A, BUF>(m, Seq::empty(), Seq::empty(), now);
        },
        Call::TcpFeed(id, data, now) => {
            lemma_tcp_fed::<S, Q, A, BUF>(m, id, data, now);
        },
        Call::TcpPollOutput(id, room) => {
            lemma_tcp_polled::<S, Q, A, BUF>(m, id, room as int);
        },
        Call::TcpEof(id) => {
            lemma_ended::<S, Q, A, BUF>(m, id);
        },
        Call::UdpFeed(data, from, now, seed) => {
            lemma_udp_fed::<S, Q, A, P, BUF>(m, data, from, now, seed, pool);
        },
        Call::UdpPollTransmit(room, now) => {
            lemma_transmitted::<S, Q, A, P, BUF>(m, 0, room as int, now, pool);
        },
        Call::PollEvent => {
            lemma_event_polled::<S, Q, A, BUF>(m);
        },
        Call::RecvHeaders(id, stream) => {
            lemma_http_read::<S, Q, A, BUF>(m, id, stream, 0);
        },
        Call::RecvBody(id, stream, room) => {
            lemma_http_read::<S, Q, A, BUF>(m, id, stream, room as int);
        },
        Call::SendResponse(id, stream, status, fs, end) => {
            lemma_http_sent::<S, Q, A, BUF>(m, id, stream, status, fs, Seq::empty(), end);
        },
        Call::SendBody(id, stream, data, end) => {
            lemma_http_sent::<S, Q, A, BUF>(m, id, stream, 0, Seq::empty(), data, end);
        },
        Call::HandleTimeouts(now) => {
            lemma_tcp_timed::<S, Q, A, BUF>(m, 0, now);
            lemma_reaped::<S, Q, A, P, BUF>(
                ServerManager::<S, Q, A, BUF>::tcp_timed_from(m, 0, now),
                0,
                now,
                pool,
            );
        },
        Call::Close(id) => {
            lemma_close::<Q, S::V, A, P>(m, id);
        },
    }
}

/// In every state that a manager can come to it keeps within its limits, and
/// every connection has a handle of its own.
pub proof fn manager_is_always_sound<
    S: TlsSession,
    Q: QuicServer<P>,
    A: Address,
    P: HandshakePoolAccess,
    const BUF: usize,
>(tls_config: ServerTlsConfig, config: ServerConfig, pool: P::V, calls: Seq<Call<A>>)
    ensures
        sound(
            run::<S, Q, A, P, BUF>(
                Mgr::<S::V, Q::V, A>::initial(tls_config, config),
                pool,
                calls,
            ).0,
        ),
    decreases calls.len(),
{
    let m = Mgr::<S::V, Q::V, A>::initial(tls_config, config);
    if calls.len() == 0 {
        reveal(tcp_distinct);
        reveal(quic_distinct);
        reveal(kinds_distinct);
        reveal(handles_below);
    } else {
        manager_is_always_sound::<S, Q, A, P, BUF>(tls_config, config, pool, calls.drop_last());
        let (t, p) = run::<S, Q, A, P, BUF>(m, pool, calls.drop_last());
        call_keeps_the_manager_sound::<S, Q, A, P, BUF>(t, p, calls.last());
    }
}

/// A peer that ends its stream loses nothing that it sent: where the queue has
/// room, the events of its connection stand in it in order, and then that it is
/// closed.
pub proof fn end_of_stream_loses_no_event<
    S: TlsSession,
    Q: HttpServerConn,
    A: Address,
    const BUF: usize,
>(m: Mgr<S::V, Q::V, A>, id: ConnId, i: int, e: EstModel<S::V>)
    requires
        m.find_tcp(id) == Some(i),
        m.tcp[i].state == StateModel::Established(e),
        m.events.len() + conn::all_events::<S, BUF>(e, id, Seq::empty()).1.len()
            < m.config.max_events,
    ensures
        ServerManager::<S, Q, A, BUF>::ended(m, id).events == m.events + conn::all_events::<
            S,
            BUF,
        >(e, id, Seq::empty()).1 + seq![ServerEvent::Closed(id)],
        ServerManager::<S, Q, A, BUF>::ended(m, id).tcp[i].state is Closed,
{
    lifecycle::tcp_found(m.tcp, id, 0);
    let (f, es) = conn::all_events::<S, BUF>(e, id, Seq::empty());
    let t = m.with_state(i, StateModel::Established(f)).shut(i);
    lemma_pushed_all_room(t, es);
    let u = t.pushed_all(es);
    assert(u.pushed(ServerEvent::Closed(id)).events =~= m.events + es
        + seq![ServerEvent::Closed(id)]);
}

proof fn lemma_pushed_all_room<TV, QV, A>(m: Mgr<TV, QV, A>, es: Seq<ServerEvent>)
    requires
        m.events.len() + es.len() <= m.config.max_events,
    ensures
        m.pushed_all(es) == (Mgr { events: m.events + es, ..m }),
    decreases es.len(),
{
    if es.len() == 0 {
        assert(m.events + es =~= m.events);
    } else {
        lemma_pushed_all_room(m, es.drop_last());
        assert((m.events + es.drop_last()).push(es.last()) =~= m.events + es);
    }
}

/// A connection whose stream has ended is closed, and still there under its
/// handle until it is removed.
pub proof fn ended_connections_are_closed<
    S: TlsSession,
    Q: HttpServerConn,
    A: Address,
    const BUF: usize,
>(m: Mgr<S::V, Q::V, A>, id: ConnId)
    requires
        sound(m),
        m.find_tcp(id) is Some,
    ensures
        ({
            let t = ServerManager::<S, Q, A, BUF>::ended(m, id);
            &&& t.find_tcp(id) == m.find_tcp(id)
            &&& t.tcp[m.find_tcp(id)->0].state is Closed
        }),
{
    lifecycle::tcp_found(m.tcp, id, 0);
    let i = m.find_tcp(id)->0;
    let t = ServerManager::<S, Q, A, BUF>::ended(m, id);
    match m.tcp[i].state {
        StateModel::Established(e) => {
            let (f, es) = conn::all_events::<S, BUF>(e, id, Seq::empty());
            let u = m.with_state(i, StateModel::Established(f));
            lemma_drained::<S, BUF>(e, id, Seq::empty());
            lemma_with_est(m, i, f);
            lemma_shut(u, i);
            lemma_pushed_all(u.shut(i), es);
            lemma_find_same(u.shut(i).tcp, m.tcp, id, 0);
        },
        StateModel::Handshaking(_) => {
            lemma_find_same(m.shut(i).tcp, m.tcp, id, 0);
        },
        StateModel::Closed => {},
    }
}

proof fn lemma_find_same<TV>(ss: Seq<TcpModel<TV>>, tt: Seq<TcpModel<TV>>, id: ConnId, i: int)
    requires
        0 <= i,
        ss.len() == tt.len(),
        forall|j: int| 0 <= j < ss.len() ==> (#[trigger] ss[j]).id == tt[j].id,
    ensures
        manager::tcp_from(ss, id, i) == manager::tcp_from(tt, id, i),
    decreases ss.len() - i,
{
    if i < ss.len() && ss[i].id != id {
        lemma_find_same(ss, tt, id, i + 1);
    }
}

/// The newest events are kept: a new one is always in the queue, and only the
/// oldest is lost, from a full queue.
pub proof fn newest_events_are_kept<TV, QV, A>(m: Mgr<TV, QV, A>, e: ServerEvent)
    ensures
        ({
            let q = m.pushed(e).events;
            &&& q.len() > 0 && q.last() == e
            &&& m.events.len() < m.config.max_events ==> q.drop_last() == m.events
            &&& m.events.len() >= m.config.max_events && m.events.len() > 0 ==> q.drop_last()
                == m.events.skip(1)
        }),
{
    let q = m.pushed(e).events;
    if m.events.len() >= m.config.max_events && m.events.len() > 0 {
        assert(q.drop_last() =~= m.events.skip(1));
    } else {
        assert(q.drop_last() =~= m.events);
    }
}

} // verus!
