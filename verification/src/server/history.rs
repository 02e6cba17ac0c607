//! The lives of the manager's connections: in which order their events come, what
//! stays closed, and when connections come and go.

use vstd::prelude::*;

use super::conn;
use super::conn::{EstModel, EstablishedConn, StateModel, TcpConn, TcpModel};
use super::laws;
use super::laws::{after, run, sound, Call};
use super::lifecycle;
use super::lifecycle::{reported_closed, Target};
use super::manager;
use super::manager::{Mgr, QuicModel, ServerManager};
use super::{ConnId, ServerConfig, ServerEvent};
use crate::http::server_conn::HttpServerConn;
use crate::quic::{HandshakePoolAccess, QuicServer};
use crate::tls::{ServerTlsConfig, TlsParts, TlsSession};
use crate::transport::Address;

verus! {

// ---------------------------------------------------------------------------
// How a state follows from another
// ---------------------------------------------------------------------------

/// The connection that an event is about.
pub open spec fn conn_of(e: ServerEvent) -> ConnId {
    match e {
        ServerEvent::Http { conn, .. } => conn,
        ServerEvent::Connected(id) => id,
        ServerEvent::Closed(id) => id,
    }
}

/// How far a TCP connection has come.
pub open spec fn stage<TV>(s: StateModel<TV>) -> int {
    match s {
        StateModel::Handshaking(_) => 0,
        StateModel::Established(_) => 1,
        StateModel::Closed => 2,
    }
}

/// A connection was there before, at the same stage or an earlier one. One that
/// has become established has said so.
pub open spec fn was_there<TV>(a: Seq<TcpModel<TV>>, c: TcpModel<TV>, es: Seq<ServerEvent>, i: int) -> bool {
    &&& 0 <= i < a.len()
    &&& a[i].id == c.id
    &&& stage(a[i].state) <= stage(c.state)
    &&& c.state is Established ==> a[i].state is Established || es.contains(
        ServerEvent::Connected(c.id),
    )
}

/// A connection was there before, or it is new. One that is established at once
/// has said so.
pub open spec fn grown<TV>(a: Seq<TcpModel<TV>>, c: TcpModel<TV>, next: u32, es: Seq<ServerEvent>) -> bool {
    ||| exists|i: int| #[trigger] was_there(a, c, es, i)
    ||| c.id.0 >= next && (c.state is Established ==> es.contains(ServerEvent::Connected(c.id)))
}

#[verifier::opaque]
pub open spec fn tcp_moved<TV>(
    a: Seq<TcpModel<TV>>,
    b: Seq<TcpModel<TV>>,
    next: u32,
    es: Seq<ServerEvent>,
) -> bool {
    forall|j: int| 0 <= j < b.len() ==> grown(a, #[trigger] b[j], next, es)
}

/// There is a QUIC connection with this handle.
pub open spec fn has_quic<QV, A>(a: Seq<QuicModel<QV, A>>, id: ConnId) -> bool {
    exists|i: int| 0 <= i < a.len() && (#[trigger] a[i]).id == id
}

#[verifier::opaque]
pub open spec fn quic_moved<QV, A>(
    a: Seq<QuicModel<QV, A>>,
    b: Seq<QuicModel<QV, A>>,
    next: u32,
) -> bool {
    forall|j: int|
        0 <= j < b.len() ==> (#[trigger] b[j]).id.0 >= next || has_quic(a, b[j].id)
}

/// There is a connection with this handle that is not closed.
pub open spec fn alive<TV, QV, A>(m: Mgr<TV, QV, A>, id: ConnId) -> bool {
    ||| exists|i: int|
        0 <= i < m.tcp.len() && (#[trigger] m.tcp[i]).id == id && !(m.tcp[i].state is Closed)
    ||| has_quic(m.quic, id)
}

/// The connection with this handle is closed or removed.
pub open spec fn gone<TV, QV, A>(m: Mgr<TV, QV, A>, id: ConnId) -> bool {
    &&& forall|i: int|
        0 <= i < m.tcp.len() && (#[trigger] m.tcp[i]).id == id ==> m.tcp[i].state is Closed
    &&& !has_quic(m.quic, id)
    &&& id.0 < m.next_id
}

/// Events are about connections that were alive, or are new. That a connection is
/// closed comes last of it, and it is closed then.
#[verifier::opaque]
pub open spec fn proper<TV, QV, A>(
    m: Mgr<TV, QV, A>,
    t: Mgr<TV, QV, A>,
    es: Seq<ServerEvent>,
) -> bool {
    &&& forall|k: int|
        0 <= k < es.len() ==> alive(m, conn_of(#[trigger] es[k])) || m.next_id <= conn_of(
            es[k],
        ).0 < t.next_id
    &&& forall|k: int, l: int|
        0 <= k < l < es.len() && (#[trigger] es[k]) is Closed ==> conn_of(#[trigger] es[l])
            != conn_of(es[k])
    &&& forall|k: int|
        0 <= k < es.len() && (#[trigger] es[k]) is Closed ==> gone(t, conn_of(es[k]))
}

/// One state follows from another, with these events.
pub open spec fn moved<TV, QV, A>(
    m: Mgr<TV, QV, A>,
    t: Mgr<TV, QV, A>,
    es: Seq<ServerEvent>,
) -> bool {
    &&& m.next_id <= t.next_id
    &&& tcp_moved(m.tcp, t.tcp, m.next_id, es)
    &&& quic_moved(m.quic, t.quic, m.next_id)
    &&& proper(m, t, es)
}

/// What is gone stays gone.
pub(crate) proof fn lemma_stays_gone<TV, QV, A>(
    m: Mgr<TV, QV, A>,
    t: Mgr<TV, QV, A>,
    es: Seq<ServerEvent>,
    id: ConnId,
)
    requires
        moved(m, t, es),
        gone(m, id),
    ensures
        gone(t, id),
{
    reveal(tcp_moved);
    reveal(quic_moved);
    assert forall|j: int|
        0 <= j < t.tcp.len() && (#[trigger] t.tcp[j]).id == id implies t.tcp[j].state is Closed by {
        assert(grown(m.tcp, t.tcp[j], m.next_id, es));
        let i = choose|i: int| #[trigger] was_there(m.tcp, t.tcp[j], es, i);
        assert(was_there(m.tcp, t.tcp[j], es, i));
        assert(m.tcp[i].state is Closed);
    }
    if has_quic(t.quic, id) {
        let j = choose|j: int| 0 <= j < t.quic.len() && (#[trigger] t.quic[j]).id == id;
        assert(has_quic(m.quic, t.quic[j].id));
    }
}

/// What is alive was alive before, or is new.
proof fn lemma_was_alive<TV, QV, A>(
    m: Mgr<TV, QV, A>,
    t: Mgr<TV, QV, A>,
    es: Seq<ServerEvent>,
    id: ConnId,
)
    requires
        moved(m, t, es),
        sound(t),
        alive(t, id),
    ensures
        alive(m, id) || m.next_id <= id.0 < t.next_id,
{
    reveal(tcp_moved);
    reveal(quic_moved);
    reveal(laws::handles_below);
    if has_quic(t.quic, id) {
        let j = choose|j: int| 0 <= j < t.quic.len() && (#[trigger] t.quic[j]).id == id;
        assert(t.quic[j].id.0 < t.next_id);
    } else {
        let j = choose|j: int|
            0 <= j < t.tcp.len() && (#[trigger] t.tcp[j]).id == id && !(t.tcp[j].state is Closed);
        assert(grown(m.tcp, t.tcp[j], m.next_id, es));
        assert(t.tcp[j].id.0 < t.next_id);
        if exists|i: int| #[trigger] was_there(m.tcp, t.tcp[j], es, i) {
            let i = choose|i: int| #[trigger] was_there(m.tcp, t.tcp[j], es, i);
            assert(m.tcp[i].id == id && !(m.tcp[i].state is Closed));
        }
    }
}

/// A state that follows from one that follows.
proof fn lemma_moved_on<TV, QV, A>(
    m: Mgr<TV, QV, A>,
    t: Mgr<TV, QV, A>,
    u: Mgr<TV, QV, A>,
    es: Seq<ServerEvent>,
    fs: Seq<ServerEvent>,
)
    requires
        moved(m, t, es),
        moved(t, u, fs),
        sound(t),
    ensures
        moved(m, u, es + fs),
{
    let all = es + fs;
    assert(tcp_moved(m.tcp, u.tcp, m.next_id, all)) by {
        reveal(tcp_moved);
        assert forall|e: ServerEvent| es.contains(e) || fs.contains(e) implies #[trigger] all.contains(
            e,
        ) by {
            if es.contains(e) {
                let k = choose|k: int| 0 <= k < es.len() && es[k] == e;
                assert(all[k] == e);
            } else {
                let k = choose|k: int| 0 <= k < fs.len() && fs[k] == e;
                assert(all[es.len() + k] == e);
            }
        }
        assert forall|j: int| 0 <= j < u.tcp.len() implies grown(
            m.tcp,
            #[trigger] u.tcp[j],
            m.next_id,
            all,
        ) by {
            let c = u.tcp[j];
            assert(grown(t.tcp, c, t.next_id, fs));
            if exists|i: int| #[trigger] was_there(t.tcp, c, fs, i) {
                let i = choose|i: int| #[trigger] was_there(t.tcp, c, fs, i);
                let b = t.tcp[i];
                assert(grown(m.tcp, b, m.next_id, es));
                if exists|k: int| #[trigger] was_there(m.tcp, b, es, k) {
                    let k = choose|k: int| #[trigger] was_there(m.tcp, b, es, k);
                    assert(was_there(m.tcp, c, all, k));
                }
            }
        }
    }
    assert(quic_moved(m.quic, u.quic, m.next_id)) by {
        reveal(quic_moved);
        assert forall|j: int| 0 <= j < u.quic.len() implies (#[trigger] u.quic[j]).id.0 >= m.next_id
            || has_quic(m.quic, u.quic[j].id) by {
            if u.quic[j].id.0 < t.next_id {
                assert(has_quic(t.quic, u.quic[j].id));
                let i = choose|i: int|
                    0 <= i < t.quic.len() && (#[trigger] t.quic[i]).id == u.quic[j].id;
                assert(t.quic[i].id.0 >= m.next_id || has_quic(m.quic, t.quic[i].id));
            }
        }
    }
    lemma_proper_on(m, t, u, es, fs);
}

proof fn lemma_proper_on<TV, QV, A>(
    m: Mgr<TV, QV, A>,
    t: Mgr<TV, QV, A>,
    u: Mgr<TV, QV, A>,
    es: Seq<ServerEvent>,
    fs: Seq<ServerEvent>,
)
    requires
        moved(m, t, es),
        moved(t, u, fs),
        sound(t),
    ensures
        proper(m, u, es + fs),
{
    let all = es + fs;
    reveal(proper);
    assert forall|k: int| 0 <= k < all.len() implies alive(m, conn_of(#[trigger] all[k]))
        || m.next_id <= conn_of(all[k]).0 < u.next_id by {
        if k < es.len() {
            assert(all[k] == es[k]);
        } else {
            let e = fs[k - es.len()];
            assert(all[k] == e);
            if alive(t, conn_of(e)) {
                lemma_was_alive(m, t, es, conn_of(e));
            }
        }
    }
    assert forall|k: int| 0 <= k < all.len() && (#[trigger] all[k]) is Closed implies gone(
        u,
        conn_of(all[k]),
    ) by {
        if k < es.len() {
            assert(all[k] == es[k]);
            lemma_stays_gone(t, u, fs, conn_of(all[k]));
        } else {
            assert(all[k] == fs[k - es.len()]);
        }
    }
    assert forall|k: int, l: int|
        0 <= k < l < all.len() && (#[trigger] all[k]) is Closed implies conn_of(#[trigger] all[l])
        != conn_of(all[k]) by {
        if l < es.len() {
            assert(all[k] == es[k] && all[l] == es[l]);
        } else {
            let e = fs[l - es.len()];
            assert(all[l] == e);
            if k >= es.len() {
                assert(all[k] == fs[k - es.len()]);
            } else {
                assert(all[k] == es[k]);
                assert(gone(t, conn_of(es[k])));
                assert(alive(t, conn_of(e)) || t.next_id <= conn_of(e).0);
            }
        }
    }
}

/// Nothing happens to the connections.
proof fn lemma_unmoved<TV, QV, A>(m: Mgr<TV, QV, A>, t: Mgr<TV, QV, A>)
    requires
        t.tcp == m.tcp,
        t.quic == m.quic,
        t.next_id >= m.next_id,
    ensures
        moved(m, t, Seq::empty()),
{
    reveal(tcp_moved);
    reveal(quic_moved);
    reveal(proper);
    let es = Seq::<ServerEvent>::empty();
    assert forall|j: int| 0 <= j < t.tcp.len() implies grown(
        m.tcp,
        #[trigger] t.tcp[j],
        m.next_id,
        es,
    ) by {
        assert(was_there(m.tcp, t.tcp[j], es, j));
    }
    assert forall|j: int| 0 <= j < t.quic.len() implies (#[trigger] t.quic[j]).id.0 >= m.next_id
        || has_quic(m.quic, t.quic[j].id) by {
        assert(m.quic[j].id == t.quic[j].id);
    }
}

/// Events of one connection, of which only the last says that it is closed.
pub open spec fn of_one(es: Seq<ServerEvent>, id: ConnId) -> bool {
    &&& forall|k: int| 0 <= k < es.len() ==> conn_of(#[trigger] es[k]) == id
    &&& forall|k: int| 0 <= k < es.len() - 1 ==> !((#[trigger] es[k]) is Closed)
}

/// One TCP connection changes.
proof fn lemma_tcp_moves<TV, QV, A>(
    m: Mgr<TV, QV, A>,
    t: Mgr<TV, QV, A>,
    i: int,
    c: TcpModel<TV>,
    es: Seq<ServerEvent>,
)
    requires
        sound(m),
        0 <= i < m.tcp.len(),
        c.id == m.tcp[i].id,
        stage(m.tcp[i].state) <= stage(c.state),
        c.state is Established ==> m.tcp[i].state is Established || es.contains(
            ServerEvent::Connected(c.id),
        ),
        t.tcp == m.tcp.update(i, c),
        t.quic == m.quic,
        t.next_id == m.next_id,
        of_one(es, c.id),
        es.len() > 0 ==> !(m.tcp[i].state is Closed),
        es.len() > 0 && es.last() is Closed ==> c.state is Closed,
    ensures
        moved(m, t, es),
{
    reveal(tcp_moved);
    reveal(quic_moved);
    reveal(proper);
    reveal(laws::tcp_distinct);
    reveal(laws::kinds_distinct);
    reveal(laws::handles_below);
    assert forall|j: int| 0 <= j < t.tcp.len() implies grown(
        m.tcp,
        #[trigger] t.tcp[j],
        m.next_id,
        es,
    ) by {
        assert(was_there(m.tcp, t.tcp[j], es, j));
    }
    assert forall|j: int| 0 <= j < t.quic.len() implies (#[trigger] t.quic[j]).id.0 >= m.next_id
        || has_quic(m.quic, t.quic[j].id) by {
        assert(m.quic[j].id == t.quic[j].id);
    }
    if es.len() > 0 {
        assert(m.tcp[i].id == c.id);
        assert(alive(m, c.id));
        if es.last() is Closed {
            assert forall|j: int|
                0 <= j < t.tcp.len() && (#[trigger] t.tcp[j]).id == c.id implies t.tcp[j].state is Closed by {
                if j != i {
                    assert(t.tcp[j] == m.tcp[j]);
                    assert(m.tcp[j].id != m.tcp[i].id);
                }
            }
            assert(gone(t, c.id));
        }
    }
}

/// One QUIC connection changes.
proof fn lemma_quic_moves<TV, QV, A>(
    m: Mgr<TV, QV, A>,
    i: int,
    s: QV,
    es: Seq<ServerEvent>,
)
    requires
        0 <= i < m.quic.len(),
        of_one(es, m.quic[i].id),
        es.len() > 0 ==> !(es.last() is Closed),
    ensures
        moved(m, m.with_quic(i, s), es),
{
    reveal(tcp_moved);
    reveal(quic_moved);
    reveal(proper);
    let t = m.with_quic(i, s);
    assert forall|j: int| 0 <= j < t.tcp.len() implies grown(
        m.tcp,
        #[trigger] t.tcp[j],
        m.next_id,
        es,
    ) by {
        assert(was_there(m.tcp, t.tcp[j], es, j));
    }
    assert forall|j: int| 0 <= j < t.quic.len() implies (#[trigger] t.quic[j]).id.0 >= m.next_id
        || has_quic(m.quic, t.quic[j].id) by {
        assert(m.quic[j].id == t.quic[j].id);
    }
    assert(m.quic[i].id == m.quic[i].id);
    assert(alive(m, m.quic[i].id));
}

/// A QUIC connection is removed.
proof fn lemma_quic_goes<TV, QV, A>(m: Mgr<TV, QV, A>, t: Mgr<TV, QV, A>, i: int)
    requires
        sound(m),
        0 <= i < m.quic.len(),
        t.tcp == m.tcp,
        t.quic == m.quic.remove(i),
        t.next_id == m.next_id,
    ensures
        moved(m, t, seq![ServerEvent::Closed(m.quic[i].id)]),
{
    reveal(tcp_moved);
    reveal(quic_moved);
    reveal(proper);
    reveal(laws::quic_distinct);
    reveal(laws::kinds_distinct);
    reveal(laws::handles_below);
    let id = m.quic[i].id;
    let es = seq![ServerEvent::Closed(id)];
    assert forall|j: int| 0 <= j < t.tcp.len() implies grown(
        m.tcp,
        #[trigger] t.tcp[j],
        m.next_id,
        es,
    ) by {
        assert(was_there(m.tcp, t.tcp[j], es, j));
    }
    assert forall|j: int| 0 <= j < t.quic.len() implies has_quic(
        m.quic,
        (#[trigger] t.quic[j]).id,
    ) && t.quic[j].id != id by {
        let k = if j < i {
            j
        } else {
            j + 1
        };
        assert(t.quic[j] == m.quic[k]);
        if k < i {
            assert(m.quic[k].id != m.quic[i].id);
        } else {
            assert(m.quic[i].id != m.quic[k].id);
        }
    }
    assert(alive(m, id)) by {
        assert(m.quic[i].id == id);
    }
    assert(gone(t, id)) by {
        assert forall|j: int|
            0 <= j < t.tcp.len() && (#[trigger] t.tcp[j]).id == id implies t.tcp[j].state is Closed by {
            assert(m.tcp[j].id != m.quic[i].id);
        }
        assert(m.quic[i].id.0 < m.next_id);
    }
}

/// A TCP connection is new.
proof fn lemma_tcp_comes<TV, QV, A>(
    m: Mgr<TV, QV, A>,
    t: Mgr<TV, QV, A>,
    c: TcpModel<TV>,
    es: Seq<ServerEvent>,
)
    requires
        c.id.0 == m.next_id,
        m.next_id < t.next_id,
        t.tcp == m.tcp.push(c),
        t.quic == m.quic,
        es == if c.state is Established {
            seq![ServerEvent::Connected(c.id)]
        } else {
            Seq::empty()
        },
    ensures
        moved(m, t, es),
{
    reveal(tcp_moved);
    reveal(quic_moved);
    reveal(proper);
    assert(c.state is Established ==> es[0] == ServerEvent::Connected(c.id));
    assert forall|j: int| 0 <= j < t.tcp.len() implies grown(
        m.tcp,
        #[trigger] t.tcp[j],
        m.next_id,
        es,
    ) by {
        if j < m.tcp.len() {
            assert(was_there(m.tcp, t.tcp[j], es, j));
        }
    }
    assert forall|j: int| 0 <= j < t.quic.len() implies (#[trigger] t.quic[j]).id.0 >= m.next_id
        || has_quic(m.quic, t.quic[j].id) by {
        assert(m.quic[j].id == t.quic[j].id);
    }
}

/// A QUIC connection is new.
proof fn lemma_quic_comes<TV, QV, A>(m: Mgr<TV, QV, A>, t: Mgr<TV, QV, A>, c: QuicModel<QV, A>)
    requires
        c.id.0 == m.next_id,
        m.next_id < t.next_id,
        t.tcp == m.tcp,
        t.quic == m.quic.push(c),
    ensures
        moved(m, t, Seq::empty()),
{
    reveal(tcp_moved);
    reveal(quic_moved);
    reveal(proper);
    let es = Seq::<ServerEvent>::empty();
    assert forall|j: int| 0 <= j < t.tcp.len() implies grown(
        m.tcp,
        #[trigger] t.tcp[j],
        m.next_id,
        es,
    ) by {
        assert(was_there(m.tcp, t.tcp[j], es, j));
    }
    assert forall|j: int| 0 <= j < t.quic.len() implies (#[trigger] t.quic[j]).id.0 >= m.next_id
        || has_quic(m.quic, t.quic[j].id) by {
        if j < m.quic.len() {
            assert(m.quic[j].id == t.quic[j].id);
        }
    }
}

/// Closed TCP connections are removed.
proof fn lemma_swept_moves<TV, QV, A>(m: Mgr<TV, QV, A>)
    requires
        sound(m),
    ensures
        moved(m, Mgr { tcp: manager::not_closed(m.tcp), ..m }, Seq::empty()),
{
    reveal(tcp_moved);
    reveal(quic_moved);
    reveal(proper);
    laws::lemma_swept(m.tcp, m.quic, m.next_id);
    let es = Seq::<ServerEvent>::empty();
    let tt = manager::not_closed(m.tcp);
    assert forall|j: int| 0 <= j < tt.len() implies grown(
        m.tcp,
        #[trigger] tt[j],
        m.next_id,
        es,
    ) by {
        let i = choose|i: int| 0 <= i < m.tcp.len() && #[trigger] m.tcp[i] == tt[j];
        assert(was_there(m.tcp, tt[j], es, i));
    }
    assert forall|j: int| 0 <= j < m.quic.len() implies (#[trigger] m.quic[j]).id.0 >= m.next_id
        || has_quic(m.quic, m.quic[j].id) by {}
}

// ---------------------------------------------------------------------------
// The queue
// ---------------------------------------------------------------------------

/// Events were queued in order behind those that waited. Where there is no room
/// for all, the oldest are lost.
pub open spec fn queued<TV, QV, A>(
    m: Mgr<TV, QV, A>,
    t: Mgr<TV, QV, A>,
    es: Seq<ServerEvent>,
) -> bool {
    let all = m.events + es;
    &&& t.config == m.config
    &&& t.events.len() <= all.len()
    &&& t.events == all.skip(all.len() - t.events.len())
    &&& all.len() <= m.config.max_events ==> t.events == all
}

proof fn lemma_queued_none<TV, QV, A>(m: Mgr<TV, QV, A>, t: Mgr<TV, QV, A>)
    requires
        t.config == m.config,
        t.events == m.events,
    ensures
        queued(m, t, Seq::empty()),
{
    let all = m.events + Seq::<ServerEvent>::empty();
    assert(all =~= m.events);
    assert(all.skip(0) =~= all);
}

proof fn lemma_queued_on<TV, QV, A>(
    m: Mgr<TV, QV, A>,
    t: Mgr<TV, QV, A>,
    u: Mgr<TV, QV, A>,
    es: Seq<ServerEvent>,
    fs: Seq<ServerEvent>,
)
    requires
        queued(m, t, es),
        queued(t, u, fs),
    ensures
        queued(m, u, es + fs),
{
    let all = m.events + (es + fs);
    let one = m.events + es;
    let two = t.events + fs;
    assert(u.events =~= all.skip(all.len() - u.events.len())) by {
        let k = one.len() - t.events.len();
        let l = two.len() - u.events.len();
        assert(all.len() - u.events.len() == k + l);
        assert forall|x: int| 0 <= x < u.events.len() implies u.events[x] == all.skip(
            all.len() - u.events.len(),
        )[x] by {
            assert(u.events[x] == two.skip(l)[x]);
            if x + l < t.events.len() {
                assert(t.events[x + l] == one.skip(k)[x + l]);
            }
        }
    }
    if all.len() <= m.config.max_events {
        assert(two =~= all);
    }
}

proof fn lemma_queued_one<TV, QV, A>(m: Mgr<TV, QV, A>, e: ServerEvent)
    ensures
        queued(m, m.pushed(e), seq![e]),
{
    let all = m.events + seq![e];
    let q = m.pushed(e).events;
    assert(q =~= all.skip(all.len() - q.len()));
    if all.len() <= m.config.max_events {
        assert(q =~= all);
    }
}

proof fn lemma_queued_all<TV, QV, A>(m: Mgr<TV, QV, A>, es: Seq<ServerEvent>)
    ensures
        queued(m, m.pushed_all(es), es),
        m.pushed_all(es).tcp == m.tcp,
        m.pushed_all(es).quic == m.quic,
        m.pushed_all(es).next_id == m.next_id,
    decreases es.len(),
{
    if es.len() == 0 {
        lemma_queued_none(m, m);
        assert(es =~= Seq::empty());
    } else {
        let t = m.pushed_all(es.drop_last());
        lemma_queued_all(m, es.drop_last());
        lemma_queued_one(t, es.last());
        lemma_queued_on(m, t, t.pushed(es.last()), es.drop_last(), seq![es.last()]);
        assert(es.drop_last() + seq![es.last()] =~= es);
    }
}

// ---------------------------------------------------------------------------
// The events of a call
// ---------------------------------------------------------------------------

/// At most one event.
pub open spec fn listed(e: Option<ServerEvent>) -> Seq<ServerEvent> {
    match e {
        Some(x) => seq![x],
        None => Seq::empty(),
    }
}

/// The events that data for a TCP connection raises at once.
pub open spec fn feed_events<S: TlsSession, Q: HttpServerConn, A: Address, const BUF: usize>(
    m: Mgr<S::V, Q::V, A>,
    id: ConnId,
    data: Seq<u8>,
) -> Seq<ServerEvent> {
    match m.find_tcp(id) {
        Some(i) => match m.tcp[i].state {
            StateModel::Handshaking(p) => {
                let (q, r) = TlsParts::<S, BUF>::fed(p, data);
                if r is Err {
                    seq![ServerEvent::Closed(id)]
                } else if !S::active(q.tls) {
                    Seq::empty()
                } else if conn::upgraded::<S, BUF>(q) is None {
                    seq![ServerEvent::Closed(id)]
                } else {
                    seq![ServerEvent::Connected(id)]
                }
            },
            _ => Seq::empty(),
        },
        None => Seq::empty(),
    }
}

/// The events that the end of a stream raises.
pub open spec fn end_events<S: TlsSession, Q: HttpServerConn, A: Address, const BUF: usize>(
    m: Mgr<S::V, Q::V, A>,
    id: ConnId,
) -> Seq<ServerEvent> {
    match m.find_tcp(id) {
        Some(i) => match m.tcp[i].state {
            StateModel::Handshaking(_) => seq![ServerEvent::Closed(id)],
            StateModel::Established(e) => conn::all_events::<S, BUF>(e, id, Seq::empty()).1.push(
                ServerEvent::Closed(id),
            ),
            StateModel::Closed => Seq::empty(),
        },
        None => Seq::empty(),
    }
}

/// The events that time raises for the TCP connections from `i` on.
pub open spec fn time_events<S: TlsSession, Q: HttpServerConn, A: Address, const BUF: usize>(
    m: Mgr<S::V, Q::V, A>,
    i: int,
    now: u64,
) -> Seq<ServerEvent>
    decreases m.tcp.len() - i,
{
    if i < 0 || i >= m.tcp.len() {
        Seq::empty()
    } else {
        (if m.tcp[i].state is Handshaking && now >= m.handshake_deadline(m.tcp[i].accepted_at) {
            seq![ServerEvent::Closed(m.tcp[i].id)]
        } else {
            Seq::empty()
        }) + time_events::<S, Q, A, BUF>(
            ServerManager::<S, Q, A, BUF>::tcp_conn_timed(m, i, now),
            i + 1,
            now,
        )
    }
}

/// The events that removing dead QUIC connections raises, from `i` on.
pub open spec fn reap_events<
    S: TlsSession,
    Q: QuicServer<P>,
    A: Address,
    P: HandshakePoolAccess,
    const BUF: usize,
>(m: Mgr<S::V, Q::V, A>, i: int, now: u64, pool: P::V) -> Seq<ServerEvent>
    decreases m.quic.len() - i,
{
    if i < 0 || i >= m.quic.len() {
        Seq::empty()
    } else {
        let (t, p, dead) = ServerManager::<S, Q, A, BUF>::quic_timed::<P>(m, i, now, pool);
        if dead {
            seq![ServerEvent::Closed(m.quic[i].id)] + reap_events::<S, Q, A, P, BUF>(
                Mgr { quic: t.quic.remove(i), ..t }.pushed(ServerEvent::Closed(m.quic[i].id)),
                i,
                now,
                p,
            )
        } else {
            reap_events::<S, Q, A, P, BUF>(t, i + 1, now, p)
        }
    }
}

/// The event that a call hands to the application.
pub open spec fn delivery<S: TlsSession, Q: HttpServerConn, A: Address, const BUF: usize>(
    m: Mgr<S::V, Q::V, A>,
    call: Call<A>,
) -> Option<ServerEvent> {
    match call {
        Call::PollEvent => ServerManager::<S, Q, A, BUF>::event_polled(m).1,
        _ => None,
    }
}

/// The events that a call raises, in order: those that it queues, and one that it
/// hands to the application without queueing it.
pub open spec fn raised<
    S: TlsSession,
    Q: QuicServer<P>,
    A: Address,
    P: HandshakePoolAccess,
    const BUF: usize,
>(m: Mgr<S::V, Q::V, A>, pool: P::V, call: Call<A>) -> Seq<ServerEvent> {
    match call {
        Call::AcceptTcpCleartext(_) => if ServerManager::<S, Q, A, BUF>::acceptable(m) {
            seq![ServerEvent::Connected(ConnId(m.next_id))]
        } else {
            Seq::empty()
        },
        Call::TcpFeed(id, data, _) => feed_events::<S, Q, A, BUF>(m, id, data),
        Call::TcpEof(id) => end_events::<S, Q, A, BUF>(m, id),
        Call::UdpFeed(data, _, now, _) => if ServerManager::<S, Q, A, BUF>::route(m, data) is None
            && m.quic.len() >= m.config.max_quic_conns {
            reap_events::<S, Q, A, P, BUF>(m, 0, now, pool)
        } else {
            Seq::empty()
        },
        Call::PollEvent => if m.events.len() > 0 {
            Seq::empty()
        } else {
            listed(ServerManager::<S, Q, A, BUF>::event_polled(m).1)
        },
        Call::HandleTimeouts(now) => time_events::<S, Q, A, BUF>(m, 0, now) + reap_events::<
            S,
            Q,
            A,
            P,
            BUF,
        >(ServerManager::<S, Q, A, BUF>::tcp_timed_from(m, 0, now), 0, now, pool),
        Call::Close(id) => match m.find_tcp(id) {
            Some(i) if !(m.tcp[i].state is Closed) => seq![ServerEvent::Closed(id)],
            _ => Seq::empty(),
        },
        _ => Seq::empty(),
    }
}

pub(crate) proof fn lemma_drained_of_one<S: TlsSession, const BUF: usize>(
    e: EstModel<S::V>,
    id: ConnId,
    acc: Seq<ServerEvent>,
)
    requires
        forall|k: int|
            0 <= k < acc.len() ==> conn_of(#[trigger] acc[k]) == id && acc[k] is Http,
    ensures
        ({
            let es = conn::all_events::<S, BUF>(e, id, acc).1;
            forall|k: int| 0 <= k < es.len() ==> conn_of(#[trigger] es[k]) == id && es[k] is Http
        }),
    decreases e.waiting(),
{
    conn::polling_takes_one::<S, BUF>(e);
    match EstablishedConn::<S, BUF>::event_polled(e) {
        (f, Some(x)) => {
            lemma_drained_of_one::<S, BUF>(
                f,
                id,
                acc.push(ServerEvent::Http { conn: id, event: x }),
            );
        },
        (f, None) => {},
    }
}

/// A TCP connection is closed, and the application is told.
proof fn lemma_dropped<TV, QV, A>(m: Mgr<TV, QV, A>, i: int)
    requires
        sound(m),
        0 <= i < m.tcp.len(),
        !(m.tcp[i].state is Closed),
    ensures
        moved(m, m.dropped(i), seq![ServerEvent::Closed(m.tcp[i].id)]),
        queued(m, m.dropped(i), seq![ServerEvent::Closed(m.tcp[i].id)]),
        m.dropped(i).tcp.len() == m.tcp.len(),
        m.dropped(i).quic == m.quic,
{
    let id = m.tcp[i].id;
    lemma_tcp_moves(m, m.dropped(i), i, m.tcp[i].shut(), seq![ServerEvent::Closed(id)]);
    lemma_queued_one(m.shut(i), ServerEvent::Closed(id));
}

/// A TCP connection changes, and nothing is said of it.
proof fn lemma_quiet<TV, QV, A>(m: Mgr<TV, QV, A>, i: int, c: TcpModel<TV>)
    requires
        sound(m),
        0 <= i < m.tcp.len(),
        c.id == m.tcp[i].id,
        stage(m.tcp[i].state) == stage(c.state),
    ensures
        moved(m, m.with_tcp(i, c), Seq::empty()),
        queued(m, m.with_tcp(i, c), Seq::empty()),
{
    lemma_tcp_moves(m, m.with_tcp(i, c), i, c, Seq::empty());
    lemma_queued_none(m, m.with_tcp(i, c));
}

proof fn lemma_quiet_quic<TV, QV, A>(m: Mgr<TV, QV, A>, i: int, s: QV)
    requires
        0 <= i < m.quic.len(),
    ensures
        moved(m, m.with_quic(i, s), Seq::empty()),
        queued(m, m.with_quic(i, s), Seq::empty()),
{
    lemma_quic_moves(m, i, s, Seq::empty());
    lemma_queued_none(m, m.with_quic(i, s));
}

pub(crate) proof fn lemma_fed_moves<S: TlsSession, Q: HttpServerConn, A: Address, const BUF: usize>(
    m: Mgr<S::V, Q::V, A>,
    id: ConnId,
    data: Seq<u8>,
    now: u64,
)
    requires
        sound(m),
    ensures
        ({
            let t = ServerManager::<S, Q, A, BUF>::tcp_fed(m, id, data, now).0;
            let es = feed_events::<S, Q, A, BUF>(m, id, data);
            &&& moved(m, t, es)
            &&& queued(m, t, es)
            &&& t.tcp.len() == m.tcp.len()
            &&& t.quic == m.quic
        }),
{
    lifecycle::tcp_found(m.tcp, id, 0);
    match m.find_tcp(id) {
        Some(i) => match m.tcp[i].state {
            StateModel::Established(e) => {
                let f = EstablishedConn::<S, BUF>::fed_timed(e, data, now).0;
                lemma_quiet(m, i, m.tcp[i].with_state(StateModel::Established(f)));
            },
            StateModel::Handshaking(p0) => {
                let (p, r) = TlsParts::<S, BUF>::fed(p0, data);
                let t = m.with_state(i, StateModel::Handshaking(p));
                lemma_quiet(m, i, m.tcp[i].with_state(StateModel::Handshaking(p)));
                laws::lemma_with_tcp(m, i, m.tcp[i].with_state(StateModel::Handshaking(p)));
                lemma_dropped(t, i);
                let none = Seq::<ServerEvent>::empty();
                let closed = seq![ServerEvent::Closed(id)];
                lemma_moved_on(m, t, t.dropped(i), none, closed);
                lemma_queued_on(m, t, t.dropped(i), none, closed);
                assert(none + closed =~= closed);
                match conn::upgraded::<S, BUF>(p) {
                    Some((protocol, e)) => {
                        let f = EstablishedConn::<S, BUF>::fed_timed(e, Seq::empty(), now).0;
                        let c = TcpModel {
                            state: StateModel::Established(f),
                            protocol,
                            ..t.tcp[i]
                        };
                        let said = seq![ServerEvent::Connected(id)];
                        let u = t.with_tcp(i, c);
                        assert(said[0] == ServerEvent::Connected(id));
                        lemma_tcp_moves(t, u.pushed(said[0]), i, c, said);
                        lemma_queued_one(u, said[0]);
                        lemma_moved_on(m, t, u.pushed(said[0]), none, said);
                        lemma_queued_on(m, t, u.pushed(said[0]), none, said);
                        assert(none + said =~= said);
                    },
                    None => {},
                }
            },
            StateModel::Closed => {
                lemma_unmoved(m, m);
                lemma_queued_none(m, m);
            },
        },
        None => {
            lemma_unmoved(m, m);
            lemma_queued_none(m, m);
        },
    }
}

pub(crate) proof fn lemma_ended_moves<S: TlsSession, Q: HttpServerConn, A: Address, const BUF: usize>(
    m: Mgr<S::V, Q::V, A>,
    id: ConnId,
)
    requires
        sound(m),
    ensures
        ({
            let t = ServerManager::<S, Q, A, BUF>::ended(m, id);
            let es = end_events::<S, Q, A, BUF>(m, id);
            &&& moved(m, t, es)
            &&& queued(m, t, es)
            &&& t.tcp.len() == m.tcp.len()
            &&& t.quic == m.quic
        }),
{
    lifecycle::tcp_found(m.tcp, id, 0);
    match m.find_tcp(id) {
        Some(i) => match m.tcp[i].state {
            StateModel::Established(e) => {
                let (f, fs) = conn::all_events::<S, BUF>(e, id, Seq::empty());
                lemma_drained_of_one::<S, BUF>(e, id, Seq::empty());
                let es = fs.push(ServerEvent::Closed(id));
                let u = m.with_state(i, StateModel::Established(f)).shut(i);
                let v = u.pushed_all(fs);
                let t = v.pushed(ServerEvent::Closed(id));
                lemma_queued_all(u, fs);
                lemma_queued_one(v, ServerEvent::Closed(id));
                lemma_queued_on(u, v, t, fs, seq![ServerEvent::Closed(id)]);
                assert(fs + seq![ServerEvent::Closed(id)] =~= es);
                let c = m.tcp[i].with_state(StateModel::Established(f)).shut();
                assert(u.tcp =~= m.tcp.update(i, c));
                assert(of_one(es, id)) by {
                    assert forall|k: int| 0 <= k < es.len() implies conn_of(#[trigger] es[k])
                        == id by {
                        if k < fs.len() {
                            assert(es[k] == fs[k]);
                        }
                    }
                    assert forall|k: int| 0 <= k < es.len() - 1 implies !((
                    #[trigger] es[k]) is Closed) by {
                        assert(es[k] == fs[k]);
                    }
                }
                lemma_tcp_moves(m, t, i, c, es);
            },
            StateModel::Handshaking(_) => {
                lemma_dropped(m, i);
            },
            StateModel::Closed => {
                lemma_unmoved(m, m);
                lemma_queued_none(m, m);
            },
        },
        None => {
            lemma_unmoved(m, m);
            lemma_queued_none(m, m);
        },
    }
}

pub(crate) proof fn lemma_timed_moves<S: TlsSession, Q: HttpServerConn, A: Address, const BUF: usize>(
    m: Mgr<S::V, Q::V, A>,
    i: int,
    now: u64,
)
    requires
        sound(m),
        0 <= i,
    ensures
        ({
            let t = ServerManager::<S, Q, A, BUF>::tcp_timed_from(m, i, now);
            let es = time_events::<S, Q, A, BUF>(m, i, now);
            &&& moved(m, t, es)
            &&& queued(m, t, es)
            &&& sound(t)
            &&& t.tcp.len() == m.tcp.len()
            &&& t.quic == m.quic
        }),
    decreases m.tcp.len() - i,
{
    laws::lemma_tcp_timed::<S, Q, A, BUF>(m, i, now);
    if i < m.tcp.len() {
        let t = ServerManager::<S, Q, A, BUF>::tcp_conn_timed(m, i, now);
        laws::lemma_conn_timed::<S, Q, A, BUF>(m, i, now);
        let first = if m.tcp[i].state is Handshaking && now >= m.handshake_deadline(
            m.tcp[i].accepted_at,
        ) {
            seq![ServerEvent::Closed(m.tcp[i].id)]
        } else {
            Seq::empty()
        };
        match m.tcp[i].state {
            StateModel::Established(e) => {
                lemma_quiet(
                    m,
                    i,
                    m.tcp[i].with_state(
                        StateModel::Established(EstablishedConn::<S, BUF>::timed_out(e, now)),
                    ),
                );
            },
            StateModel::Handshaking(_) => {
                lemma_dropped(m, i);
                lemma_unmoved(m, m);
                lemma_queued_none(m, m);
            },
            StateModel::Closed => {
                lemma_unmoved(m, m);
                lemma_queued_none(m, m);
            },
        }
        lemma_timed_moves::<S, Q, A, BUF>(t, i + 1, now);
        let u = ServerManager::<S, Q, A, BUF>::tcp_timed_from(t, i + 1, now);
        let rest = time_events::<S, Q, A, BUF>(t, i + 1, now);
        lemma_moved_on(m, t, u, first, rest);
        lemma_queued_on(m, t, u, first, rest);
    } else {
        lemma_unmoved(m, m);
        lemma_queued_none(m, m);
    }
}

pub(crate) proof fn lemma_reaped_moves<
    S: TlsSession,
    Q: QuicServer<P>,
    A: Address,
    P: HandshakePoolAccess,
    const BUF: usize,
>(m: Mgr<S::V, Q::V, A>, i: int, now: u64, pool: P::V)
    requires
        sound(m),
        0 <= i,
    ensures
        ({
            let t = ServerManager::<S, Q, A, BUF>::reaped_from::<P>(m, i, now, pool).0;
            let es = reap_events::<S, Q, A, P, BUF>(m, i, now, pool);
            &&& moved(m, t, es)
            &&& queued(m, t, es)
            &&& sound(t)
            &&& t.tcp == m.tcp
            &&& t.quic.len() + es.len() == m.quic.len()
        }),
    decreases m.quic.len() - i,
{
    laws::lemma_reaped::<S, Q, A, P, BUF>(m, i, now, pool);
    if i < m.quic.len() {
        let (t, p, dead) = ServerManager::<S, Q, A, BUF>::quic_timed::<P>(m, i, now, pool);
        let s = Q::timed_out(m.quic[i].server, now);
        lemma_quiet_quic(m, i, s);
        lemma_quiet_quic(m, i, <Q as QuicServer<P>>::slot_released(s, pool).0);
        laws::lemma_with_quic(m, i, s);
        laws::lemma_with_quic(m, i, <Q as QuicServer<P>>::slot_released(s, pool).0);
        let none = Seq::<ServerEvent>::empty();
        if dead {
            let id = m.quic[i].id;
            let said = seq![ServerEvent::Closed(id)];
            let u = Mgr { quic: t.quic.remove(i), ..t };
            let v = u.pushed(ServerEvent::Closed(id));
            laws::lemma_quic_removed(t.tcp, t.quic, t.next_id, i);
            assert(sound(v));
            lemma_quic_goes(t, v, i);
            lemma_queued_one(u, ServerEvent::Closed(id));
            lemma_moved_on(m, t, v, none, said);
            lemma_queued_on(m, t, v, none, said);
            assert(none + said =~= said);
            lemma_reaped_moves::<S, Q, A, P, BUF>(v, i, now, p);
            let w = ServerManager::<S, Q, A, BUF>::reaped_from::<P>(v, i, now, p).0;
            let rest = reap_events::<S, Q, A, P, BUF>(v, i, now, p);
            lemma_moved_on(m, v, w, said, rest);
            lemma_queued_on(m, v, w, said, rest);
        } else {
            lemma_reaped_moves::<S, Q, A, P, BUF>(t, i + 1, now, p);
            let w = ServerManager::<S, Q, A, BUF>::reaped_from::<P>(t, i + 1, now, p).0;
            let rest = reap_events::<S, Q, A, P, BUF>(t, i + 1, now, p);
            lemma_moved_on(m, t, w, none, rest);
            lemma_queued_on(m, t, w, none, rest);
            assert(none + rest =~= rest);
        }
    } else {
        lemma_unmoved(m, m);
        lemma_queued_none(m, m);
    }
}

proof fn lemma_transmitted_moves<
    S: TlsSession,
    Q: QuicServer<P>,
    A: Address,
    P: HandshakePoolAccess,
    const BUF: usize,
>(m: Mgr<S::V, Q::V, A>, i: int, room: int, now: u64, pool: P::V)
    requires
        sound(m),
        0 <= i,
    ensures
        ({
            let t = ServerManager::<S, Q, A, BUF>::transmitted_from::<P>(m, i, room, now, pool).0;
            &&& moved(m, t, Seq::empty())
            &&& queued(m, t, Seq::empty())
            &&& t.tcp == m.tcp
            &&& t.quic.len() == m.quic.len()
        }),
    decreases m.quic.len() - i,
{
    if i < m.quic.len() {
        let (s, p, out) = <Q as QuicServer<P>>::transmitted(m.quic[i].server, room, now, pool);
        let t = m.with_quic(i, s);
        laws::lemma_with_quic(m, i, s);
        lemma_quiet_quic(m, i, s);
        if out is None {
            lemma_transmitted_moves::<S, Q, A, P, BUF>(t, i + 1, room, now, p);
            let u = ServerManager::<S, Q, A, BUF>::transmitted_from::<P>(
                t,
                i + 1,
                room,
                now,
                p,
            ).0;
            let none = Seq::<ServerEvent>::empty();
            lemma_moved_on(m, t, u, none, none);
            lemma_queued_on(m, t, u, none, none);
            assert(none + none =~= none);
        }
    } else {
        lemma_unmoved(m, m);
        lemma_queued_none(m, m);
    }
}

pub(crate) proof fn lemma_scanned_moves<S: TlsSession, Q: HttpServerConn, A: Address, const BUF: usize>(
    m: Mgr<S::V, Q::V, A>,
    i: int,
)
    requires
        sound(m),
        0 <= i,
    ensures
        ({
            let (t, e) = ServerManager::<S, Q, A, BUF>::tcp_scanned(m, i);
            &&& moved(m, t, listed(e))
            &&& sound(t)
            &&& t.events == m.events
            &&& t.config == m.config
            &&& t.tcp.len() == m.tcp.len()
            &&& t.quic == m.quic
        }),
    decreases m.tcp.len() - i,
{
    laws::lemma_tcp_scanned::<S, Q, A, BUF>(m, i);
    if i < m.tcp.len() {
        let (t, e) = ServerManager::<S, Q, A, BUF>::tcp_conn_polled(m, i);
        laws::lemma_conn_polled::<S, Q, A, BUF>(m, i);
        match m.tcp[i].state {
            StateModel::Established(x) => {
                let f = EstablishedConn::<S, BUF>::event_polled(x).0;
                let c = m.tcp[i].with_state(StateModel::Established(f));
                if e matches Some(ServerEvent::Closed(_)) {
                    assert(t.tcp =~= m.tcp.update(i, c.shut()));
                    lemma_tcp_moves(m, t, i, c.shut(), listed(e));
                } else {
                    lemma_tcp_moves(m, t, i, c, listed(e));
                }
            },
            _ => {
                lemma_unmoved(m, m);
            },
        }
        if e is None {
            lemma_scanned_moves::<S, Q, A, BUF>(t, i + 1);
            let (u, g) = ServerManager::<S, Q, A, BUF>::tcp_scanned(t, i + 1);
            lemma_moved_on(m, t, u, Seq::empty(), listed(g));
            assert(Seq::<ServerEvent>::empty() + listed(g) =~= listed(g));
        }
    } else {
        lemma_unmoved(m, m);
    }
}

proof fn lemma_quic_scanned_moves<S: TlsSession, Q: HttpServerConn, A: Address, const BUF: usize>(
    m: Mgr<S::V, Q::V, A>,
    i: int,
)
    requires
        sound(m),
        0 <= i,
    ensures
        ({
            let (t, e) = ServerManager::<S, Q, A, BUF>::quic_scanned(m, i);
            &&& moved(m, t, listed(e))
            &&& sound(t)
            &&& t.events == m.events
            &&& t.config == m.config
            &&& t.tcp == m.tcp
            &&& t.quic.len() == m.quic.len()
        }),
    decreases m.quic.len() - i,
{
    laws::lemma_quic_scanned::<S, Q, A, BUF>(m, i);
    if i < m.quic.len() {
        let (s, ev) = Q::event_polled(m.quic[i].server);
        let t = m.with_quic(i, s);
        laws::lemma_with_quic(m, i, s);
        match ev {
            Some(x) => {
                lemma_quic_moves(
                    m,
                    i,
                    s,
                    seq![ServerEvent::Http { conn: m.quic[i].id, event: x }],
                );
            },
            None => {
                lemma_quic_moves(m, i, s, Seq::empty());
                lemma_quic_scanned_moves::<S, Q, A, BUF>(t, i + 1);
                let (u, g) = ServerManager::<S, Q, A, BUF>::quic_scanned(t, i + 1);
                lemma_moved_on(m, t, u, Seq::empty(), listed(g));
                assert(Seq::<ServerEvent>::empty() + listed(g) =~= listed(g));
            },
        }
    } else {
        lemma_unmoved(m, m);
    }
}

proof fn lemma_polled_moves<S: TlsSession, Q: HttpServerConn, A: Address, const BUF: usize>(
    m: Mgr<S::V, Q::V, A>,
)
    requires
        sound(m),
    ensures
        ({
            let (t, e) = ServerManager::<S, Q, A, BUF>::event_polled(m);
            &&& moved(
                m,
                t,
                if m.events.len() > 0 {
                    Seq::empty()
                } else {
                    listed(e)
                },
            )
            &&& t.config == m.config
            &&& m.events.len() == 0 ==> t.events == m.events
            &&& e is Some ==> t.tcp.len() == m.tcp.len()
            &&& t.quic.len() == m.quic.len()
        }),
{
    if m.events.len() > 0 {
        lemma_unmoved(m, ServerManager::<S, Q, A, BUF>::event_polled(m).0);
    } else {
        lemma_scanned_moves::<S, Q, A, BUF>(m, 0);
        let (t, e) = ServerManager::<S, Q, A, BUF>::tcp_scanned(m, 0);
        if e is None {
            lemma_quic_scanned_moves::<S, Q, A, BUF>(t, 0);
            let (u, f) = ServerManager::<S, Q, A, BUF>::quic_scanned(t, 0);
            let none = Seq::<ServerEvent>::empty();
            lemma_moved_on(m, t, u, none, listed(f));
            assert(none + listed(f) =~= listed(f));
            if f is None {
                lemma_swept_moves(u);
                lemma_moved_on(m, u, Mgr { tcp: manager::not_closed(u.tcp), ..u }, none, none);
                assert(none + none =~= none);
            }
        }
    }
}

/// A change of the connection that a handle leads to, and of nothing else.
proof fn lemma_http_moves<S: TlsSession, Q: HttpServerConn, A: Address, const BUF: usize>(
    m: Mgr<S::V, Q::V, A>,
    id: ConnId,
)
    requires
        sound(m),
    ensures
        match ServerManager::<S, Q, A, BUF>::target(m, id) {
            Target::Tcp(i) => forall|f: EstModel<S::V>|
                quietly(m, #[trigger] m.with_state(i, StateModel::Established(f))),
            Target::Quic(i) => forall|s: Q::V| quietly(m, #[trigger] m.with_quic(i, s)),
            Target::Nowhere => quietly(m, m),
        },
{
    lifecycle::tcp_found(m.tcp, id, 0);
    laws::quic_found(m.quic, id, 0);
    lemma_unmoved(m, m);
    lemma_queued_none(m, m);
    match ServerManager::<S, Q, A, BUF>::target(m, id) {
        Target::Tcp(i) => {
            assert forall|f: EstModel<S::V>|
                quietly(m, #[trigger] m.with_state(i, StateModel::Established(f))) by {
                lemma_quiet(m, i, m.tcp[i].with_state(StateModel::Established(f)));
            }
        },
        Target::Quic(i) => {
            assert forall|s: Q::V| quietly(m, #[trigger] m.with_quic(i, s)) by {
                lemma_quiet_quic(m, i, s);
            }
        },
        Target::Nowhere => {},
    }
}

/// A state follows from another, and nothing is said.
pub open spec fn quietly<TV, QV, A>(m: Mgr<TV, QV, A>, t: Mgr<TV, QV, A>) -> bool {
    &&& moved(m, t, Seq::empty())
    &&& queued(m, t, Seq::empty())
    &&& t.tcp.len() == m.tcp.len()
    &&& t.quic.len() == m.quic.len()
}

proof fn lemma_udp_moves<
    S: TlsSession,
    Q: QuicServer<P>,
    A: Address,
    P: HandshakePoolAccess,
    const BUF: usize,
>(m: Mgr<S::V, Q::V, A>, pool: P::V, data: Seq<u8>, from: A, now: u64, seed: Seq<u8>)
    requires
        sound(m),
    ensures
        ({
            let call = Call::UdpFeed(data, from, now, seed);
            let t = after::<S, Q, A, P, BUF>(m, pool, call).0;
            let es = raised::<S, Q, A, P, BUF>(m, pool, call);
            &&& moved(m, t, es)
            &&& queued(m, t, es)
            &&& t.tcp == m.tcp
        }),
{
    match ServerManager::<S, Q, A, BUF>::route(m, data) {
        Some(i) => {
            let dcid = crate::quic::dcid_of(data, crate::quic::LOCAL_CID_LEN as int)->0;
            laws::lemma_routed(m.quic, dcid, 0);
            lemma_quiet_quic(
                m,
                i,
                <Q as QuicServer<P>>::datagram(m.quic[i].server, data, now, pool).0,
            );
        },
        None => {
            let es = raised::<S, Q, A, P, BUF>(m, pool, Call::UdpFeed(data, from, now, seed));
            let (t, p) = ServerManager::<S, Q, A, BUF>::room_made::<P>(m, now, pool);
            lemma_reaped_moves::<S, Q, A, P, BUF>(m, 0, now, pool);
            lemma_unmoved(m, m);
            lemma_queued_none(m, m);
            assert(moved(m, t, es) && queued(m, t, es) && sound(t));
            if ServerManager::<S, Q, A, BUF>::has_room(t) {
                let (u, q, r) = ServerManager::<S, Q, A, BUF>::quic_started::<P>(
                    t,
                    data,
                    from,
                    now,
                    seed,
                    p,
                );
                let none = Seq::<ServerEvent>::empty();
                if r is Ok {
                    assert(u.quic == t.quic.push(u.quic.last()));
                    lemma_quic_comes(t, u, u.quic.last());
                } else {
                    lemma_unmoved(t, u);
                }
                lemma_queued_none(t, u);
                lemma_moved_on(m, t, u, es, none);
                lemma_queued_on(m, t, u, es, none);
                assert(es + none =~= es);
            }
        },
    }
}

/// Every call moves the manager on, with the events that it raises. Those stand in
/// the queue in order, behind those that waited.
pub(crate) proof fn lemma_call_moves<
    S: TlsSession,
    Q: QuicServer<P>,
    A: Address,
    P: HandshakePoolAccess,
    const BUF: usize,
>(m: Mgr<S::V, Q::V, A>, pool: P::V, call: Call<A>)
    requires
        sound(m),
    ensures
        ({
            let t = after::<S, Q, A, P, BUF>(m, pool, call).0;
            let es = raised::<S, Q, A, P, BUF>(m, pool, call);
            &&& moved(m, t, es)
            &&& !(call is PollEvent) ==> queued(m, t, es)
        }),
{
    match call {
        Call::AddTlsBufferKit | Call::TakeTlsBufferKit => {
            let t = after::<S, Q, A, P, BUF>(m, pool, call).0;
            lemma_unmoved(m, t);
            lemma_queued_none(m, t);
        },
        Call::AcceptTcp(secret, random, now) => {
            let t = ServerManager::<S, Q, A, BUF>::accepted(m, secret, random, now).0;
            if ServerManager::<S, Q, A, BUF>::acceptable(m) {
                lemma_tcp_comes(m, t, t.tcp.last(), Seq::empty());
            } else {
                lemma_unmoved(m, t);
            }
            lemma_queued_none(m, t);
        },
        Call::AcceptTcpCleartext(now) => {
            let t = ServerManager::<S, Q, A, BUF>::accepted_cleartext(m, now).0;
            if ServerManager::<S, Q, A, BUF>::acceptable(m) {
                let e = ServerEvent::Connected(ConnId(m.next_id));
                lemma_tcp_comes(m, t, t.tcp.last(), seq![e]);
                let v = Mgr { tcp: t.tcp, next_id: t.next_id, ..m };
                lemma_queued_one(v, e);
            } else {
                lemma_unmoved(m, t);
                lemma_queued_none(m, t);
            }
        },
        Call::TcpFeed(id, data, now) => {
            lemma_fed_moves::<S, Q, A, BUF>(m, id, data, now);
        },
        Call::TcpPollOutput(id, room) => {
            lifecycle::tcp_found(m.tcp, id, 0);
            match m.find_tcp(id) {
                Some(i) => {
                    lemma_quiet(m, i, TcpConn::<S, BUF>::polled(m.tcp[i], room as int).0);
                },
                None => {
                    lemma_unmoved(m, m);
                    lemma_queued_none(m, m);
                },
            }
        },
        Call::TcpEof(id) => {
            lemma_ended_moves::<S, Q, A, BUF>(m, id);
        },
        Call::UdpFeed(data, from, now, seed) => {
            lemma_udp_moves::<S, Q, A, P, BUF>(m, pool, data, from, now, seed);
        },
        Call::UdpPollTransmit(room, now) => {
            lemma_transmitted_moves::<S, Q, A, P, BUF>(m, 0, room as int, now, pool);
        },
        Call::PollEvent => {
            lemma_polled_moves::<S, Q, A, BUF>(m);
        },
        Call::RecvHeaders(id, stream) => {
            lemma_http_call::<S, Q, A, P, BUF>(m, pool, call, id);
        },
        Call::RecvBody(id, stream, room) => {
            lemma_http_call::<S, Q, A, P, BUF>(m, pool, call, id);
        },
        Call::SendResponse(id, stream, status, fs, end) => {
            lemma_http_call::<S, Q, A, P, BUF>(m, pool, call, id);
        },
        Call::SendBody(id, stream, data, end) => {
            lemma_http_call::<S, Q, A, P, BUF>(m, pool, call, id);
        },
        Call::HandleTimeouts(now) => {
            lemma_timed_moves::<S, Q, A, BUF>(m, 0, now);
            let t = ServerManager::<S, Q, A, BUF>::tcp_timed_from(m, 0, now);
            lemma_reaped_moves::<S, Q, A, P, BUF>(t, 0, now, pool);
            let u = ServerManager::<S, Q, A, BUF>::reaped_from::<P>(t, 0, now, pool).0;
            let es = time_events::<S, Q, A, BUF>(m, 0, now);
            let fs = reap_events::<S, Q, A, P, BUF>(t, 0, now, pool);
            lemma_moved_on(m, t, u, es, fs);
            lemma_queued_on(m, t, u, es, fs);
        },
        Call::Close(id) => {
            lifecycle::tcp_found(m.tcp, id, 0);
            laws::quic_found(m.quic, id, 0);
            lemma_unmoved(m, m);
            lemma_queued_none(m, m);
            match (m.find_tcp(id), m.find_quic(id)) {
                (Some(i), _) => {
                    if !(m.tcp[i].state is Closed) {
                        lemma_dropped(m, i);
                    }
                },
                (None, Some(i)) => {
                    lemma_quiet_quic(m, i, <Q as QuicServer<P>>::closing(m.quic[i].server));
                },
                (None, None) => {},
            }
        },
    }
}

/// What an application does with a request moves nothing but its connection.
proof fn lemma_http_call<
    S: TlsSession,
    Q: QuicServer<P>,
    A: Address,
    P: HandshakePoolAccess,
    const BUF: usize,
>(m: Mgr<S::V, Q::V, A>, pool: P::V, call: Call<A>, id: ConnId)
    requires
        sound(m),
        match call {
            Call::RecvHeaders(x, _) => x == id,
            Call::RecvBody(x, _, _) => x == id,
            Call::SendResponse(x, _, _, _, _) => x == id,
            Call::SendBody(x, _, _, _) => x == id,
            _ => false,
        },
    ensures
        quietly(m, after::<S, Q, A, P, BUF>(m, pool, call).0),
{
    lemma_http_moves::<S, Q, A, BUF>(m, id);
}

// ---------------------------------------------------------------------------
// Laws
// ---------------------------------------------------------------------------

/// All events that calls raise, in order.
pub open spec fn log<
    S: TlsSession,
    Q: QuicServer<P>,
    A: Address,
    P: HandshakePoolAccess,
    const BUF: usize,
>(m: Mgr<S::V, Q::V, A>, pool: P::V, calls: Seq<Call<A>>) -> Seq<ServerEvent>
    decreases calls.len(),
{
    if calls.len() == 0 {
        Seq::empty()
    } else {
        let (t, p) = run::<S, Q, A, P, BUF>(m, pool, calls.drop_last());
        log::<S, Q, A, P, BUF>(m, pool, calls.drop_last()) + raised::<S, Q, A, P, BUF>(
            t,
            p,
            calls.last(),
        )
    }
}

/// All events that calls hand to the application, in order.
pub open spec fn delivered<
    S: TlsSession,
    Q: QuicServer<P>,
    A: Address,
    P: HandshakePoolAccess,
    const BUF: usize,
>(m: Mgr<S::V, Q::V, A>, pool: P::V, calls: Seq<Call<A>>) -> Seq<ServerEvent>
    decreases calls.len(),
{
    if calls.len() == 0 {
        Seq::empty()
    } else {
        let (t, p) = run::<S, Q, A, P, BUF>(m, pool, calls.drop_last());
        delivered::<S, Q, A, P, BUF>(m, pool, calls.drop_last()) + listed(
            delivery::<S, Q, A, BUF>(t, calls.last()),
        )
    }
}

/// The queue has room for all that calls queue.
pub open spec fn nothing_lost<
    S: TlsSession,
    Q: QuicServer<P>,
    A: Address,
    P: HandshakePoolAccess,
    const BUF: usize,
>(m: Mgr<S::V, Q::V, A>, pool: P::V, calls: Seq<Call<A>>) -> bool
    decreases calls.len(),
{
    calls.len() > 0 ==> {
        let (t, p) = run::<S, Q, A, P, BUF>(m, pool, calls.drop_last());
        &&& nothing_lost::<S, Q, A, P, BUF>(m, pool, calls.drop_last())
        &&& calls.last() is PollEvent || t.events.len() + raised::<S, Q, A, P, BUF>(
            t,
            p,
            calls.last(),
        ).len() <= t.config.max_events
    }
}

/// What the events so far say of a state: a connection that was said to be closed
/// is, and nothing was said of it since. One that is established was said to be
/// connected.
#[verifier::opaque]
pub open spec fn told<TV, QV, A>(m: Mgr<TV, QV, A>, es: Seq<ServerEvent>) -> bool {
    &&& forall|k: int| 0 <= k < es.len() ==> conn_of(#[trigger] es[k]).0 < m.next_id
    &&& forall|k: int|
        0 <= k < es.len() && (#[trigger] es[k]) is Closed ==> gone(m, conn_of(es[k]))
    &&& forall|k: int, l: int|
        0 <= k < l < es.len() && (#[trigger] es[k]) is Closed ==> conn_of(#[trigger] es[l])
            != conn_of(es[k])
    &&& forall|i: int|
        0 <= i < m.tcp.len() && (#[trigger] m.tcp[i]).state is Established ==> es.contains(
            ServerEvent::Connected(m.tcp[i].id),
        )
}

proof fn lemma_told_on<TV, QV, A>(
    m: Mgr<TV, QV, A>,
    t: Mgr<TV, QV, A>,
    es: Seq<ServerEvent>,
    fs: Seq<ServerEvent>,
)
    requires
        sound(m),
        told(m, es),
        moved(m, t, fs),
    ensures
        told(t, es + fs),
{
    reveal(told);
    reveal(proper);
    reveal(laws::handles_below);
    let all = es + fs;
    assert forall|k: int| 0 <= k < fs.len() implies conn_of(#[trigger] fs[k]).0 < t.next_id by {
        let id = conn_of(fs[k]);
        if alive(m, id) {
            if has_quic(m.quic, id) {
                let i = choose|i: int| 0 <= i < m.quic.len() && (#[trigger] m.quic[i]).id == id;
                assert(m.quic[i].id.0 < m.next_id);
            }
        }
    }
    assert forall|k: int| 0 <= k < all.len() implies conn_of(#[trigger] all[k]).0 < t.next_id by {
        if k < es.len() {
            assert(all[k] == es[k]);
        } else {
            assert(all[k] == fs[k - es.len()]);
        }
    }
    assert forall|k: int| 0 <= k < all.len() && (#[trigger] all[k]) is Closed implies gone(
        t,
        conn_of(all[k]),
    ) by {
        if k < es.len() {
            assert(all[k] == es[k]);
            lemma_stays_gone(m, t, fs, conn_of(all[k]));
        } else {
            assert(all[k] == fs[k - es.len()]);
        }
    }
    assert forall|k: int, l: int|
        0 <= k < l < all.len() && (#[trigger] all[k]) is Closed implies conn_of(#[trigger] all[l])
        != conn_of(all[k]) by {
        if l < es.len() {
            assert(all[k] == es[k] && all[l] == es[l]);
        } else {
            assert(all[l] == fs[l - es.len()]);
            if k >= es.len() {
                assert(all[k] == fs[k - es.len()]);
            } else {
                assert(all[k] == es[k]);
                assert(gone(m, conn_of(es[k])));
                assert(alive(m, conn_of(all[l])) || m.next_id <= conn_of(all[l]).0);
            }
        }
    }
    assert forall|j: int|
        0 <= j < t.tcp.len() && (#[trigger] t.tcp[j]).state is Established implies all.contains(
        ServerEvent::Connected(t.tcp[j].id),
    ) by {
        reveal(tcp_moved);
        let e = ServerEvent::Connected(t.tcp[j].id);
        assert(grown(m.tcp, t.tcp[j], m.next_id, fs));
        if fs.contains(e) {
            let k = choose|k: int| 0 <= k < fs.len() && fs[k] == e;
            assert(all[es.len() + k] == e);
        } else {
            let i = choose|i: int| #[trigger] was_there(m.tcp, t.tcp[j], fs, i);
            assert(was_there(m.tcp, t.tcp[j], fs, i));
            assert(m.tcp[i].state is Established);
            let k = choose|k: int| 0 <= k < es.len() && es[k] == e;
            assert(all[k] == e);
        }
    }
}

pub(crate) proof fn lemma_told<
    S: TlsSession,
    Q: QuicServer<P>,
    A: Address,
    P: HandshakePoolAccess,
    const BUF: usize,
>(tls_config: ServerTlsConfig, config: ServerConfig, pool: P::V, calls: Seq<Call<A>>)
    ensures
        ({
            let m = Mgr::<S::V, Q::V, A>::initial(tls_config, config);
            let t = run::<S, Q, A, P, BUF>(m, pool, calls).0;
            sound(t) && told(t, log::<S, Q, A, P, BUF>(m, pool, calls))
        }),
    decreases calls.len(),
{
    let m = Mgr::<S::V, Q::V, A>::initial(tls_config, config);
    laws::manager_is_always_sound::<S, Q, A, P, BUF>(tls_config, config, pool, calls);
    if calls.len() == 0 {
        reveal(told);
    } else {
        lemma_told::<S, Q, A, P, BUF>(tls_config, config, pool, calls.drop_last());
        let (t, p) = run::<S, Q, A, P, BUF>(m, pool, calls.drop_last());
        lemma_call_moves::<S, Q, A, P, BUF>(t, p, calls.last());
        lemma_told_on(
            t,
            after::<S, Q, A, P, BUF>(t, p, calls.last()).0,
            log::<S, Q, A, P, BUF>(m, pool, calls.drop_last()),
            raised::<S, Q, A, P, BUF>(t, p, calls.last()),
        );
    }
}

/// That a connection is closed is said once, and last of it: in whatever order a
/// manager is called, no event of a connection comes after that one.
pub proof fn closed_comes_last<
    S: TlsSession,
    Q: QuicServer<P>,
    A: Address,
    P: HandshakePoolAccess,
    const BUF: usize,
>(
    tls_config: ServerTlsConfig,
    config: ServerConfig,
    pool: P::V,
    calls: Seq<Call<A>>,
    k: int,
    l: int,
)
    requires
        ({
            let es = log::<S, Q, A, P, BUF>(
                Mgr::<S::V, Q::V, A>::initial(tls_config, config),
                pool,
                calls,
            );
            0 <= k < l < es.len() && es[k] is Closed
        }),
    ensures
        ({
            let es = log::<S, Q, A, P, BUF>(
                Mgr::<S::V, Q::V, A>::initial(tls_config, config),
                pool,
                calls,
            );
            conn_of(es[l]) != conn_of(es[k])
        }),
{
    lemma_told::<S, Q, A, P, BUF>(tls_config, config, pool, calls);
    reveal(told);
}

/// A connection over TCP that has a handle is established.
pub open spec fn serves<TV, QV, A>(m: Mgr<TV, QV, A>, id: ConnId) -> bool {
    exists|i: int|
        0 <= i < m.tcp.len() && (#[trigger] m.tcp[i]).id == id && m.tcp[i].state is Established
}

pub(crate) proof fn lemma_scan_source<S: TlsSession, Q: HttpServerConn, A: Address, const BUF: usize>(
    m: Mgr<S::V, Q::V, A>,
    i: int,
)
    requires
        0 <= i,
    ensures
        ServerManager::<S, Q, A, BUF>::tcp_scanned(m, i).1 matches Some(
            ServerEvent::Http { conn, .. },
        ) ==> serves(m, conn),
        ServerManager::<S, Q, A, BUF>::tcp_scanned(m, i).0.quic == m.quic,
    decreases m.tcp.len() - i,
{
    if i < m.tcp.len() {
        let (t, e) = ServerManager::<S, Q, A, BUF>::tcp_conn_polled(m, i);
        if e is Some {
            assert(m.tcp[i].id == m.tcp[i].id);
        } else {
            lemma_scan_source::<S, Q, A, BUF>(t, i + 1);
            match ServerManager::<S, Q, A, BUF>::tcp_scanned(t, i + 1).1 {
                Some(ServerEvent::Http { conn, .. }) => {
                    let j = choose|j: int|
                        0 <= j < t.tcp.len() && (#[trigger] t.tcp[j]).id == conn
                            && t.tcp[j].state is Established;
                    assert(m.tcp[j].id == conn && m.tcp[j].state is Established);
                },
                _ => {},
            }
        }
    }
}

pub(crate) proof fn lemma_quic_scan_source<S: TlsSession, Q: HttpServerConn, A: Address, const BUF: usize>(
    m: Mgr<S::V, Q::V, A>,
    i: int,
)
    requires
        0 <= i,
    ensures
        ServerManager::<S, Q, A, BUF>::quic_scanned(m, i).1 matches Some(
            ServerEvent::Http { conn, .. },
        ) ==> has_quic(m.quic, conn),
    decreases m.quic.len() - i,
{
    if i < m.quic.len() {
        let (s, ev) = Q::event_polled(m.quic[i].server);
        let t = m.with_quic(i, s);
        if ev is Some {
            assert(m.quic[i].id == m.quic[i].id);
        } else {
            lemma_quic_scan_source::<S, Q, A, BUF>(t, i + 1);
            match ServerManager::<S, Q, A, BUF>::quic_scanned(t, i + 1).1 {
                Some(ServerEvent::Http { conn, .. }) => {
                    let j = choose|j: int|
                        0 <= j < t.quic.len() && (#[trigger] t.quic[j]).id == conn;
                    assert(m.quic[j].id == conn);
                },
                _ => {},
            }
        }
    }
}

pub(crate) proof fn lemma_only_closings<S: TlsSession, Q: HttpServerConn, A: Address, const BUF: usize>(
    m: Mgr<S::V, Q::V, A>,
    i: int,
    now: u64,
)
    ensures
        ({
            let es = time_events::<S, Q, A, BUF>(m, i, now);
            forall|k: int| 0 <= k < es.len() ==> (#[trigger] es[k]) is Closed
        }),
    decreases m.tcp.len() - i,
{
    if 0 <= i < m.tcp.len() {
        lemma_only_closings::<S, Q, A, BUF>(
            ServerManager::<S, Q, A, BUF>::tcp_conn_timed(m, i, now),
            i + 1,
            now,
        );
    }
}

pub(crate) proof fn lemma_only_closings_quic<
    S: TlsSession,
    Q: QuicServer<P>,
    A: Address,
    P: HandshakePoolAccess,
    const BUF: usize,
>(m: Mgr<S::V, Q::V, A>, i: int, now: u64, pool: P::V)
    ensures
        ({
            let es = reap_events::<S, Q, A, P, BUF>(m, i, now, pool);
            forall|k: int| 0 <= k < es.len() ==> (#[trigger] es[k]) is Closed
        }),
    decreases m.quic.len() - i,
{
    if 0 <= i < m.quic.len() {
        let (t, p, dead) = ServerManager::<S, Q, A, BUF>::quic_timed::<P>(m, i, now, pool);
        if dead {
            lemma_only_closings_quic::<S, Q, A, P, BUF>(
                Mgr { quic: t.quic.remove(i), ..t }.pushed(ServerEvent::Closed(m.quic[i].id)),
                i,
                now,
                p,
            );
        } else {
            lemma_only_closings_quic::<S, Q, A, P, BUF>(t, i + 1, now, p);
        }
    }
}

/// HTTP events are those of connections over TCP that are established, and of QUIC
/// connections.
pub(crate) proof fn lemma_http_source<
    S: TlsSession,
    Q: QuicServer<P>,
    A: Address,
    P: HandshakePoolAccess,
    const BUF: usize,
>(m: Mgr<S::V, Q::V, A>, pool: P::V, call: Call<A>, k: int)
    requires
        0 <= k < raised::<S, Q, A, P, BUF>(m, pool, call).len(),
        raised::<S, Q, A, P, BUF>(m, pool, call)[k] is Http,
    ensures
        ({
            let id = conn_of(raised::<S, Q, A, P, BUF>(m, pool, call)[k]);
            serves(m, id) || has_quic(m.quic, id)
        }),
{
    let es = raised::<S, Q, A, P, BUF>(m, pool, call);
    let id = conn_of(es[k]);
    match call {
        Call::PollEvent => {
            lemma_scan_source::<S, Q, A, BUF>(m, 0);
            lemma_quic_scan_source::<S, Q, A, BUF>(
                ServerManager::<S, Q, A, BUF>::tcp_scanned(m, 0).0,
                0,
            );
        },
        Call::TcpEof(x) => {
            lifecycle::tcp_found(m.tcp, x, 0);
            match m.find_tcp(x) {
                Some(i) => match m.tcp[i].state {
                    StateModel::Established(e) => {
                        lemma_drained_of_one::<S, BUF>(e, x, Seq::empty());
                        let fs = conn::all_events::<S, BUF>(e, x, Seq::empty()).1;
                        assert(es[k] == fs[k]);
                        assert(m.tcp[i].id == id);
                    },
                    _ => {},
                },
                None => {},
            }
        },
        Call::HandleTimeouts(now) => {
            lemma_only_closings::<S, Q, A, BUF>(m, 0, now);
            lemma_only_closings_quic::<S, Q, A, P, BUF>(
                ServerManager::<S, Q, A, BUF>::tcp_timed_from(m, 0, now),
                0,
                now,
                pool,
            );
        },
        Call::UdpFeed(_, _, now, _) => {
            lemma_only_closings_quic::<S, Q, A, P, BUF>(m, 0, now, pool);
        },
        _ => {},
    }
}

/// A connection over TCP that is established was said to be connected.
pub(crate) proof fn lemma_serving_was_told<
    S: TlsSession,
    Q: QuicServer<P>,
    A: Address,
    P: HandshakePoolAccess,
    const BUF: usize,
>(
    tls_config: ServerTlsConfig,
    config: ServerConfig,
    pool: P::V,
    calls: Seq<Call<A>>,
    id: ConnId,
)
    requires
        serves(
            run::<S, Q, A, P, BUF>(
                Mgr::<S::V, Q::V, A>::initial(tls_config, config),
                pool,
                calls,
            ).0,
            id,
        ),
    ensures
        log::<S, Q, A, P, BUF>(
            Mgr::<S::V, Q::V, A>::initial(tls_config, config),
            pool,
            calls,
        ).contains(ServerEvent::Connected(id)),
{
    lemma_told::<S, Q, A, P, BUF>(tls_config, config, pool, calls);
    reveal(told);
    let m = run::<S, Q, A, P, BUF>(
        Mgr::<S::V, Q::V, A>::initial(tls_config, config),
        pool,
        calls,
    ).0;
    let i = choose|i: int|
        0 <= i < m.tcp.len() && (#[trigger] m.tcp[i]).id == id && m.tcp[i].state is Established;
    assert(m.tcp[i].state is Established);
}

/// One call hands out and queues in order.
proof fn lemma_call_in_order<
    S: TlsSession,
    Q: QuicServer<P>,
    A: Address,
    P: HandshakePoolAccess,
    const BUF: usize,
>(
    m: Mgr<S::V, Q::V, A>,
    pool: P::V,
    call: Call<A>,
    d: Seq<ServerEvent>,
    l: Seq<ServerEvent>,
)
    requires
        sound(m),
        d + m.events == l,
        call is PollEvent || m.events.len() + raised::<S, Q, A, P, BUF>(m, pool, call).len()
            <= m.config.max_events,
    ensures
        d + listed(delivery::<S, Q, A, BUF>(m, call)) + after::<S, Q, A, P, BUF>(
            m,
            pool,
            call,
        ).0.events == l + raised::<S, Q, A, P, BUF>(m, pool, call),
{
    let u = after::<S, Q, A, P, BUF>(m, pool, call).0;
    let es = raised::<S, Q, A, P, BUF>(m, pool, call);
    if call is PollEvent {
        let e = ServerManager::<S, Q, A, BUF>::event_polled(m).1;
        lemma_polled_moves::<S, Q, A, BUF>(m);
        if m.events.len() > 0 {
            assert(d + seq![m.events[0]] + m.events.skip(1) =~= d + m.events);
            assert(l + es =~= l);
        } else {
            assert(d =~= l);
            assert(d + listed(e) + u.events =~= l + listed(e));
        }
    } else {
        lemma_call_moves::<S, Q, A, P, BUF>(m, pool, call);
        assert(u.events == m.events + es);
        assert(d + Seq::<ServerEvent>::empty() + (m.events + es) =~= d + m.events + es);
    }
}

/// First in, first out: where the queue has room for all that is queued, the
/// application is handed the events in the order in which they were raised, and
/// those that it was not handed yet wait in that order.
pub proof fn events_are_handed_out_in_order<
    S: TlsSession,
    Q: QuicServer<P>,
    A: Address,
    P: HandshakePoolAccess,
    const BUF: usize,
>(tls_config: ServerTlsConfig, config: ServerConfig, pool: P::V, calls: Seq<Call<A>>)
    requires
        nothing_lost::<S, Q, A, P, BUF>(
            Mgr::<S::V, Q::V, A>::initial(tls_config, config),
            pool,
            calls,
        ),
    ensures
        ({
            let m = Mgr::<S::V, Q::V, A>::initial(tls_config, config);
            delivered::<S, Q, A, P, BUF>(m, pool, calls) + run::<S, Q, A, P, BUF>(
                m,
                pool,
                calls,
            ).0.events == log::<S, Q, A, P, BUF>(m, pool, calls)
        }),
    decreases calls.len(),
{
    let m = Mgr::<S::V, Q::V, A>::initial(tls_config, config);
    if calls.len() == 0 {
        assert(Seq::<ServerEvent>::empty() + m.events =~= Seq::<ServerEvent>::empty());
    } else {
        let init = calls.drop_last();
        events_are_handed_out_in_order::<S, Q, A, P, BUF>(tls_config, config, pool, init);
        laws::manager_is_always_sound::<S, Q, A, P, BUF>(tls_config, config, pool, init);
        let (t, p) = run::<S, Q, A, P, BUF>(m, pool, init);
        lemma_call_in_order::<S, Q, A, P, BUF>(
            t,
            p,
            calls.last(),
            delivered::<S, Q, A, P, BUF>(m, pool, init),
            log::<S, Q, A, P, BUF>(m, pool, init),
        );
    }
}

pub(crate) proof fn lemma_gone_is_closed<Q: HttpServerConn, TV, A>(m: Mgr<TV, Q::V, A>, id: ConnId)
    requires
        gone(m, id),
    ensures
        reported_closed::<Q, TV, A>(m, id),
{
    lifecycle::tcp_found(m.tcp, id, 0);
    laws::quic_found(m.quic, id, 0);
    match m.find_quic(id) {
        Some(i) => {
            assert(m.quic[i].id == id);
        },
        None => {},
    }
}

/// A handle whose connection is closed, or removed, stays so: no call reopens it,
/// and none gives it out again.
pub proof fn closed_connections_stay_closed<
    S: TlsSession,
    Q: QuicServer<P>,
    A: Address,
    P: HandshakePoolAccess,
    const BUF: usize,
>(m: Mgr<S::V, Q::V, A>, pool: P::V, calls: Seq<Call<A>>, id: ConnId)
    requires
        sound(m),
        id.0 < m.next_id,
        m.find_quic(id) is None,
        reported_closed::<Q, S::V, A>(m, id),
    ensures
        ({
            let t = run::<S, Q, A, P, BUF>(m, pool, calls).0;
            sound(t) && gone(t, id) && reported_closed::<Q, S::V, A>(t, id)
        }),
    decreases calls.len(),
{
    if calls.len() == 0 {
        lifecycle::tcp_found(m.tcp, id, 0);
        laws::quic_found(m.quic, id, 0);
        reveal(laws::tcp_distinct);
        assert(gone(m, id)) by {
            assert forall|j: int|
                0 <= j < m.tcp.len() && (#[trigger] m.tcp[j]).id == id implies m.tcp[j].state is Closed by {
                let i = m.find_tcp(id)->0;
                if i < j {
                    assert(m.tcp[i].id != m.tcp[j].id);
                } else if j < i {
                    assert(m.tcp[j].id != m.tcp[i].id);
                }
            }
        }
    } else {
        closed_connections_stay_closed::<S, Q, A, P, BUF>(m, pool, calls.drop_last(), id);
        let (t, p) = run::<S, Q, A, P, BUF>(m, pool, calls.drop_last());
        let u = after::<S, Q, A, P, BUF>(t, p, calls.last()).0;
        lemma_call_moves::<S, Q, A, P, BUF>(t, p, calls.last());
        laws::call_keeps_the_manager_sound::<S, Q, A, P, BUF>(t, p, calls.last());
        lemma_stays_gone(t, u, raised::<S, Q, A, P, BUF>(t, p, calls.last()), id);
    }
    lemma_gone_is_closed::<Q, S::V, A>(run::<S, Q, A, P, BUF>(m, pool, calls).0, id);
}

proof fn lemma_polled_count<S: TlsSession, Q: HttpServerConn, A: Address, const BUF: usize>(
    m: Mgr<S::V, Q::V, A>,
)
    requires
        sound(m),
    ensures
        ({
            let (t, e) = ServerManager::<S, Q, A, BUF>::event_polled(m);
            let u = ServerManager::<S, Q, A, BUF>::tcp_scanned(m, 0).0;
            match e {
                Some(_) => t.tcp.len() == m.tcp.len(),
                None => u.tcp.len() == m.tcp.len() && t.tcp == manager::not_closed(u.tcp),
            }
        }),
{
    lemma_polled_moves::<S, Q, A, BUF>(m);
    lemma_scanned_moves::<S, Q, A, BUF>(m, 0);
    lemma_quic_scanned_moves::<S, Q, A, BUF>(
        ServerManager::<S, Q, A, BUF>::tcp_scanned(m, 0).0,
        0,
    );
}

/// How a call changes the number of TCP connections.
pub(crate) proof fn lemma_tcp_count<
    S: TlsSession,
    Q: QuicServer<P>,
    A: Address,
    P: HandshakePoolAccess,
    const BUF: usize,
>(m: Mgr<S::V, Q::V, A>, pool: P::V, call: Call<A>)
    requires
        sound(m),
    ensures
        ({
            let t = after::<S, Q, A, P, BUF>(m, pool, call).0;
            match call {
                Call::AcceptTcp(_, _, _) | Call::AcceptTcpCleartext(_) => t.tcp.len()
                    == m.tcp.len() + if ServerManager::<S, Q, A, BUF>::acceptable(m) {
                    1int
                } else {
                    0int
                },
                Call::PollEvent => match delivery::<S, Q, A, BUF>(m, call) {
                    Some(_) => t.tcp.len() == m.tcp.len(),
                    None => {
                        let u = ServerManager::<S, Q, A, BUF>::tcp_scanned(m, 0).0;
                        u.tcp.len() == m.tcp.len() && t.tcp == manager::not_closed(u.tcp)
                    },
                },
                _ => t.tcp.len() == m.tcp.len(),
            }
        }),
{
    match call {
        Call::TcpFeed(id, data, now) => {
            lemma_fed_moves::<S, Q, A, BUF>(m, id, data, now);
        },
        Call::TcpPollOutput(id, room) => {
            lifecycle::tcp_found(m.tcp, id, 0);
        },
        Call::TcpEof(id) => {
            lemma_ended_moves::<S, Q, A, BUF>(m, id);
        },
        Call::UdpFeed(data, from, now, seed) => {
            lemma_udp_moves::<S, Q, A, P, BUF>(m, pool, data, from, now, seed);
        },
        Call::UdpPollTransmit(room, now) => {
            lemma_transmitted_moves::<S, Q, A, P, BUF>(m, 0, room as int, now, pool);
        },
        Call::PollEvent => {
            lemma_polled_count::<S, Q, A, BUF>(m);
        },
        Call::RecvHeaders(id, _) => {
            lemma_http_call::<S, Q, A, P, BUF>(m, pool, call, id);
        },
        Call::RecvBody(id, _, _) => {
            lemma_http_call::<S, Q, A, P, BUF>(m, pool, call, id);
        },
        Call::SendResponse(id, _, _, _, _) => {
            lemma_http_call::<S, Q, A, P, BUF>(m, pool, call, id);
        },
        Call::SendBody(id, _, _, _) => {
            lemma_http_call::<S, Q, A, P, BUF>(m, pool, call, id);
        },
        Call::HandleTimeouts(now) => {
            lemma_timed_moves::<S, Q, A, BUF>(m, 0, now);
            let t = ServerManager::<S, Q, A, BUF>::tcp_timed_from(m, 0, now);
            lemma_reaped_moves::<S, Q, A, P, BUF>(t, 0, now, pool);
        },
        Call::Close(id) => {
            lifecycle::tcp_found(m.tcp, id, 0);
        },
        _ => {},
    }
}

/// How a call changes the number of QUIC connections.
pub(crate) proof fn lemma_quic_count<
    S: TlsSession,
    Q: QuicServer<P>,
    A: Address,
    P: HandshakePoolAccess,
    const BUF: usize,
>(m: Mgr<S::V, Q::V, A>, pool: P::V, call: Call<A>)
    requires
        sound(m),
    ensures
        ({
            let t = after::<S, Q, A, P, BUF>(m, pool, call).0;
            match call {
                Call::UdpFeed(data, from, now, seed) => {
                    let r = ServerManager::<S, Q, A, BUF>::udp_fed::<P>(
                        m,
                        data,
                        from,
                        now,
                        seed,
                        pool,
                    ).2;
                    let started = ServerManager::<S, Q, A, BUF>::route(m, data) is None && r is Ok;
                    t.quic.len() == m.quic.len() - raised::<S, Q, A, P, BUF>(m, pool, call).len()
                        + if started {
                        1int
                    } else {
                        0int
                    }
                },
                Call::HandleTimeouts(now) => t.quic.len() == m.quic.len() - reap_events::<
                    S,
                    Q,
                    A,
                    P,
                    BUF,
                >(
                    ServerManager::<S, Q, A, BUF>::tcp_timed_from(m, 0, now),
                    0,
                    now,
                    pool,
                ).len(),
                _ => t.quic.len() == m.quic.len(),
            }
        }),
{
    match call {
        Call::TcpFeed(id, data, now) => {
            lemma_fed_moves::<S, Q, A, BUF>(m, id, data, now);
        },
        Call::TcpEof(id) => {
            lemma_ended_moves::<S, Q, A, BUF>(m, id);
        },
        Call::UdpFeed(data, from, now, seed) => {
            match ServerManager::<S, Q, A, BUF>::route(m, data) {
                Some(i) => {
                    let dcid = crate::quic::dcid_of(data, crate::quic::LOCAL_CID_LEN as int)->0;
                    laws::lemma_routed(m.quic, dcid, 0);
                },
                None => {
                    lemma_reaped_moves::<S, Q, A, P, BUF>(m, 0, now, pool);
                },
            }
        },
        Call::UdpPollTransmit(room, now) => {
            lemma_transmitted_moves::<S, Q, A, P, BUF>(m, 0, room as int, now, pool);
        },
        Call::PollEvent => {
            lemma_polled_moves::<S, Q, A, BUF>(m);
        },
        Call::RecvHeaders(id, _) => {
            lemma_http_call::<S, Q, A, P, BUF>(m, pool, call, id);
        },
        Call::RecvBody(id, _, _) => {
            lemma_http_call::<S, Q, A, P, BUF>(m, pool, call, id);
        },
        Call::SendResponse(id, _, _, _, _) => {
            lemma_http_call::<S, Q, A, P, BUF>(m, pool, call, id);
        },
        Call::SendBody(id, _, _, _) => {
            lemma_http_call::<S, Q, A, P, BUF>(m, pool, call, id);
        },
        Call::HandleTimeouts(now) => {
            lemma_timed_moves::<S, Q, A, BUF>(m, 0, now);
            let t = ServerManager::<S, Q, A, BUF>::tcp_timed_from(m, 0, now);
            lemma_reaped_moves::<S, Q, A, P, BUF>(t, 0, now, pool);
        },
        Call::Close(id) => {
            lifecycle::tcp_found(m.tcp, id, 0);
            laws::quic_found(m.quic, id, 0);
        },
        _ => {},
    }
}

} // verus!
