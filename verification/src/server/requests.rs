//! What the application reads and sends through the manager is what the HTTP
//! connection behind a handle reads and sends.

use vstd::prelude::*;

use super::conn::{EstModel, StateModel};
use super::lifecycle;
use super::manager::{Mgr, ServerManager};
use super::ConnId;
use crate::bytes::Field;
use crate::error::Error;
use crate::h2::frame;
use crate::h2::model;
use crate::h2::model::{Conn, Limits, Sys};
use crate::h2::wire;
use crate::http::headers;
use crate::http::server_conn::HttpServerConn;
use crate::http1::model::{H1, H1Sys};
use crate::https1::Secured;
use crate::io::Wire;
use crate::tls::{TlsSession, TlsWire};
use crate::transport::Address;

verus! {

/// An HTTP/2 connection of the manager, with the buffers that it uses.
pub open spec fn h2_of<V>(c: Secured<V, Conn>, buf: usize) -> Sys {
    Sys {
        c: c.http,
        io: c.wire.io,
        lim: Limits { streams: 8, headers: 2048, data: 4096, io: buf as int },
    }
}

/// An HTTP/1.1 connection of the manager, with the buffers that it uses.
pub open spec fn h1_of<V>(c: Secured<V, H1>, buf: usize) -> H1Sys {
    H1Sys { c: c.http, io: c.wire.io, headers_cap: 2048, data_cap: 4096, io_cap: buf as int }
}

/// A connection under TLS as its HTTP/2 connection leaves it.
pub open spec fn left_h2<V>(c: Secured<V, Conn>, h: Sys) -> Secured<V, Conn> {
    Secured { tls: c.tls, http: h.c, wire: TlsWire { io: h.io, out: c.wire.out }, lent: c.lent }
}

/// A connection under TLS as its HTTP/1.1 connection leaves it.
pub open spec fn left_h1<V>(c: Secured<V, H1>, h: H1Sys) -> Secured<V, H1> {
    Secured { tls: c.tls, http: h.c, wire: TlsWire { io: h.io, out: c.wire.out }, lent: c.lent }
}

/// The manager, with the HTTP connection at `i` as it was left. Nothing else changes.
pub open spec fn left<TV, QV, A>(m: Mgr<TV, QV, A>, i: int, e: EstModel<TV>) -> Mgr<TV, QV, A> {
    Mgr {
        tcp: m.tcp.update(
            i,
            super::conn::TcpModel { state: StateModel::Established(e), ..m.tcp[i] },
        ),
        ..m
    }
}

/// The fields of a response: `:status` with three digits, then the headers.
pub open spec fn response_of(status: u16, fs: Seq<Field>) -> Seq<Field> {
    seq![
        (
            seq![0x3au8, 0x73, 0x74, 0x61, 0x74, 0x75, 0x73],
            seq![
                (48 + status / 100 % 10) as u8,
                (48 + status / 10 % 10) as u8,
                (48 + status % 10) as u8,
            ],
        ),
    ] + fs
}

proof fn lemma_response(status: u16, fs: Seq<Field>)
    ensures
        headers::response_list(crate::http::status_digits(status), fs) == response_of(status, fs),
{
    assert(headers::STATUS@ =~= seq![0x3au8, 0x73, 0x74, 0x61, 0x74, 0x75, 0x73]);
}

// ---------------------------------------------------------------------------
// Over HTTP/2
// ---------------------------------------------------------------------------

/// The handle is that of an established HTTP/2 connection.
pub open spec fn is_h2<TV, QV, A>(m: Mgr<TV, QV, A>, id: ConnId, i: int, c: Secured<TV, Conn>) -> bool {
    m.find_tcp(id) == Some(i) && m.tcp[i].state == StateModel::Established(EstModel::H2(c))
}

/// Headers and body of a request over HTTP/2 are read through the manager as from the
/// connection itself: the same fields and bytes, and the same result.
pub proof fn h2_requests_are_read<S: TlsSession, Q: HttpServerConn, A: Address, const BUF: usize>(
    m: Mgr<S::V, Q::V, A>,
    id: ConnId,
    i: int,
    c: Secured<S::V, Conn>,
    stream: u64,
    room: int,
)
    requires
        is_h2(m, id, i, c),
    ensures
        ({
            let (t, fs, r) = ServerManager::<S, Q, A, BUF>::headers_read(m, id, stream);
            let (k, gs, q) = c.http.headers_received(stream);
            fs == gs && r == q && t == left(m, i, EstModel::H2(Secured { http: k, ..c }))
        }),
        ({
            let (t, body, r) = ServerManager::<S, Q, A, BUF>::body_read(m, id, stream, room);
            let (h, bytes, q) = h2_of(c, BUF).body_received(stream, room);
            body == bytes && r == q && t == left(m, i, EstModel::H2(left_h2(c, h)))
        }),
{
}

/// A response over HTTP/2 is sent through the manager as on the connection itself:
/// its status and its headers as header fields, its body as data, each with the end
/// of the stream where the application says so and nowhere else.
pub proof fn h2_responses_are_sent<S: TlsSession, Q: HttpServerConn, A: Address, const BUF: usize>(
    m: Mgr<S::V, Q::V, A>,
    id: ConnId,
    i: int,
    c: Secured<S::V, Conn>,
    stream: u64,
    status: u16,
    fs: Seq<Field>,
    data: Seq<u8>,
    end: bool,
)
    requires
        is_h2(m, id, i, c),
    ensures
        ({
            let (t, r) = ServerManager::<S, Q, A, BUF>::response_sent(
                m,
                id,
                stream,
                status,
                fs,
                end,
            );
            let (h, q) = h2_of(c, BUF).headers_sent(stream, response_of(status, fs), end);
            if fs.len() < 20 {
                r == q && t == left(m, i, EstModel::H2(left_h2(c, h)))
            } else {
                r == Err::<(), Error>(Error::TooManyHeaders) && t == left(m, i, EstModel::H2(c))
            }
        }),
        ({
            let (t, r) = ServerManager::<S, Q, A, BUF>::body_sent(m, id, stream, data, end);
            let (h, q) = h2_of(c, BUF).data_sent(stream, data, end);
            r == q && t == left(m, i, EstModel::H2(left_h2(c, h)))
        }),
{
    lemma_response(status, fs);
}

/// Body bytes that the application sends over HTTP/2 go out in one DATA frame behind
/// what waits: from the first on, as many as the result says. The frame ends the stream
/// exactly where the application ends it and all bytes are in it; else the stream goes
/// on.
pub proof fn h2_bodies_go_out_in_frames<
    S: TlsSession,
    Q: HttpServerConn,
    A: Address,
    const BUF: usize,
>(
    m: Mgr<S::V, Q::V, A>,
    id: ConnId,
    i: int,
    c: Secured<S::V, Conn>,
    stream: u64,
    data: Seq<u8>,
    end: bool,
)
    requires
        is_h2(m, id, i, c),
        stream < 0x8000_0000,
        c.http.peer.max_frame_size < 0x100_0000,
        c.wire.io.send.len() <= BUF,
        data.len() <= usize::MAX,
    ensures
        ({
            let (t, r) = ServerManager::<S, Q, A, BUF>::body_sent(m, id, stream, data, end);
            match r {
                Ok(n) => {
                    let last = end && n == data.len();
                    &&& n <= data.len()
                    &&& n > 0 || data.len() == 0
                    &&& t.tcp[i].state matches StateModel::Established(EstModel::H2(d))
                        && d.wire.io.send == c.wire.io.send + wire::raw(
                        0,
                        if last {
                            1
                        } else {
                            0
                        },
                        stream,
                        data.take(n as int),
                    ) && d.tls == c.tls && d.wire.io.recv == c.wire.io.recv && (!last
                        ==> forall|k: int|
                        0 <= k < c.http.streams.len() ==> (#[trigger] d.http.streams[k]).state
                            == c.http.streams[k].state)
                },
                Err(_) => t == left(m, i, EstModel::H2(c)),
            }
        }),
{
    let h = h2_of(c, BUF);
    h2_responses_are_sent::<S, Q, A, BUF>(m, id, i, c, stream, 0, Seq::empty(), data, end);
    wire::data_is_sent_in_one_frame(h, stream, data, end);
    let (g, r) = h.data_sent(stream, data, end);
    assert(m.tcp.len() > i >= 0) by {
        lifecycle::tcp_found(m.tcp, id, 0);
    }
    if r is Err {
        assert(left_h2(c, h) == c);
    }
}

/// What TLS decrypts for an HTTP/2 connection reaches it as if it had been fed the
/// plaintext, all of it and at that time.
pub proof fn h2_connections_are_fed_plaintext<
    S: TlsSession,
    Q: HttpServerConn,
    A: Address,
    const BUF: usize,
>(
    m: Mgr<S::V, Q::V, A>,
    id: ConnId,
    i: int,
    c: Secured<S::V, Conn>,
    data: Seq<u8>,
    now: u64,
    plain: Seq<u8>,
)
    requires
        is_h2(m, id, i, c),
        plain.len() > 0,
        c.wire.io.recv.len() + plain.len() <= BUF,
        ({
            let (tls, w, r) = S::fed(c.tls, c.wire, data, BUF as int);
            r is Ok && w.io == (Wire { recv: c.wire.io.recv + plain, ..c.wire.io })
        }),
    ensures
        ({
            let (tls, w, _) = S::fed(c.tls, c.wire, data, BUF as int);
            let (t, r) = ServerManager::<S, Q, A, BUF>::tcp_fed(m, id, data, now);
            let (h, q) = h2_of(c, BUF).fed_at(plain, now);
            r == q && t == left(
                m,
                i,
                EstModel::H2(
                    Secured {
                        tls,
                        http: h.c,
                        wire: TlsWire { io: h.io, out: w.out },
                        lent: c.lent,
                    },
                ),
            )
        }),
{
    let (tls, w, _) = S::fed(c.tls, c.wire, data, BUF as int);
    let d = Secured { tls, wire: w, ..c };
    wire::received_is_fed(
        Sys { c: Conn { last_activity: now, ..c.http }, ..h2_of(c, BUF) },
        plain,
    );
    let x = Sys { c: Conn { last_activity: now, ..c.http }, ..h2_of(d, BUF) };
    assert(x == (Sys {
        io: Wire { recv: c.wire.io.recv + plain, ..c.wire.io },
        c: Conn { last_activity: now, ..c.http },
        ..h2_of(c, BUF)
    }));
}

// ---------------------------------------------------------------------------
// Over HTTP/1.1
// ---------------------------------------------------------------------------

/// The handle is that of an HTTP/1.1 connection in the clear.
pub open spec fn is_plain<TV, QV, A>(m: Mgr<TV, QV, A>, id: ConnId, i: int, c: H1Sys) -> bool {
    m.find_tcp(id) == Some(i) && m.tcp[i].state == StateModel::Established(EstModel::<TV>::Plain(c))
}

/// The handle is that of an HTTP/1.1 connection under TLS.
pub open spec fn is_https<TV, QV, A>(
    m: Mgr<TV, QV, A>,
    id: ConnId,
    i: int,
    c: Secured<TV, H1>,
) -> bool {
    m.find_tcp(id) == Some(i) && m.tcp[i].state == StateModel::Established(EstModel::Https1(c))
}

/// In the clear, all that the application and the network do goes to the HTTP/1.1
/// connection, and all that it gives comes back.
pub proof fn plain_connections_are_used<
    S: TlsSession,
    Q: HttpServerConn,
    A: Address,
    const BUF: usize,
>(
    m: Mgr<S::V, Q::V, A>,
    id: ConnId,
    i: int,
    c: H1Sys,
    stream: u64,
    room: int,
    status: u16,
    fs: Seq<Field>,
    data: Seq<u8>,
    end: bool,
    now: u64,
)
    requires
        is_plain(m, id, i, c),
    ensures
        ({
            let (t, got, r) = ServerManager::<S, Q, A, BUF>::headers_read(m, id, stream);
            let (k, gs, q) = c.c.headers_read(stream);
            got == gs && r == q && t == left(m, i, EstModel::Plain(H1Sys { c: k, ..c }))
        }),
        ({
            let (t, body, r) = ServerManager::<S, Q, A, BUF>::body_read(m, id, stream, room);
            let (k, bytes, q) = c.c.body_read(stream, room);
            body == bytes && r == q && t == left(m, i, EstModel::Plain(H1Sys { c: k, ..c }))
        }),
        ({
            let (t, r) = ServerManager::<S, Q, A, BUF>::response_sent(
                m,
                id,
                stream,
                status,
                fs,
                end,
            );
            let (h, q) = c.response_sent(stream, response_of(status, fs));
            if fs.len() < 20 {
                r == q && t == left(m, i, EstModel::Plain(h))
            } else {
                r == Err::<(), Error>(Error::TooManyHeaders) && t == left(m, i, EstModel::Plain(c))
            }
        }),
        ({
            let (t, r) = ServerManager::<S, Q, A, BUF>::body_sent(m, id, stream, data, end);
            let (h, q) = c.data_sent(stream, data);
            r == q && t == left(m, i, EstModel::Plain(h))
        }),
        ({
            let (t, r) = ServerManager::<S, Q, A, BUF>::tcp_fed(m, id, data, now);
            let (h, q) = c.fed_at(data, now);
            r == q && t == left(m, i, EstModel::Plain(h))
        }),
        ({
            let (t, out) = ServerManager::<S, Q, A, BUF>::tcp_polled(m, id, room);
            let (h, q) = c.polled(room);
            out == q && t == left(m, i, EstModel::Plain(h))
        }),
{
    lemma_response(status, fs);
}

/// Under TLS, what the application reads and sends goes to the HTTP/1.1 connection,
/// once the handshake is complete.
pub proof fn https_connections_are_used<
    S: TlsSession,
    Q: HttpServerConn,
    A: Address,
    const BUF: usize,
>(
    m: Mgr<S::V, Q::V, A>,
    id: ConnId,
    i: int,
    c: Secured<S::V, H1>,
    stream: u64,
    room: int,
    status: u16,
    fs: Seq<Field>,
    data: Seq<u8>,
    end: bool,
)
    requires
        is_https(m, id, i, c),
    ensures
        ({
            let (t, got, r) = ServerManager::<S, Q, A, BUF>::headers_read(m, id, stream);
            let (k, gs, q) = c.http.headers_read(stream);
            got == gs && r == q && t == left(m, i, EstModel::Https1(Secured { http: k, ..c }))
        }),
        ({
            let (t, body, r) = ServerManager::<S, Q, A, BUF>::body_read(m, id, stream, room);
            let (k, bytes, q) = c.http.body_read(stream, room);
            body == bytes && r == q && t == left(m, i, EstModel::Https1(Secured { http: k, ..c }))
        }),
        ({
            let (t, r) = ServerManager::<S, Q, A, BUF>::response_sent(
                m,
                id,
                stream,
                status,
                fs,
                end,
            );
            let (h, q) = h1_of(c, BUF).response_sent(stream, response_of(status, fs));
            S::active(c.tls) ==> if fs.len() < 20 {
                r == q && t == left(m, i, EstModel::Https1(left_h1(c, h)))
            } else {
                r == Err::<(), Error>(Error::TooManyHeaders) && t == left(
                    m,
                    i,
                    EstModel::Https1(c),
                )
            }
        }),
        ({
            let (t, r) = ServerManager::<S, Q, A, BUF>::body_sent(m, id, stream, data, end);
            let (h, q) = h1_of(c, BUF).data_sent(stream, data);
            S::active(c.tls) ==> r == q && t == left(m, i, EstModel::Https1(left_h1(c, h)))
        }),
{
    lemma_response(status, fs);
}

/// What TLS decrypts for an HTTP/1.1 connection reaches it as if it had been fed the
/// plaintext, all of it and at that time.
pub proof fn https_connections_are_fed_plaintext<
    S: TlsSession,
    Q: HttpServerConn,
    A: Address,
    const BUF: usize,
>(
    m: Mgr<S::V, Q::V, A>,
    id: ConnId,
    i: int,
    c: Secured<S::V, H1>,
    data: Seq<u8>,
    now: u64,
    plain: Seq<u8>,
)
    requires
        is_https(m, id, i, c),
        plain.len() > 0,
        c.wire.io.recv.len() + plain.len() <= BUF,
        !c.http.closed,
        ({
            let (tls, w, r) = S::fed(c.tls, c.wire, data, BUF as int);
            r is Ok && w.io == (Wire { recv: c.wire.io.recv + plain, ..c.wire.io })
        }),
    ensures
        ({
            let (tls, w, _) = S::fed(c.tls, c.wire, data, BUF as int);
            let (t, r) = ServerManager::<S, Q, A, BUF>::tcp_fed(m, id, data, now);
            let (h, q) = h1_of(c, BUF).fed_at(plain, now);
            r == q && t == left(
                m,
                i,
                EstModel::Https1(
                    Secured {
                        tls,
                        http: h.c,
                        wire: TlsWire { io: h.io, out: w.out },
                        lent: c.lent,
                    },
                ),
            )
        }),
{
    let x = c.wire.io.recv + plain;
    assert(x + Seq::<u8>::empty() =~= x);
}

// ---------------------------------------------------------------------------
// Over QUIC
// ---------------------------------------------------------------------------

/// The handle is that of a QUIC connection.
pub open spec fn is_quic<TV, QV, A>(m: Mgr<TV, QV, A>, id: ConnId, i: int) -> bool {
    m.find_tcp(id) is None && m.find_quic(id) == Some(i)
}

/// What the application reads and sends on a QUIC connection goes to that connection as
/// it was said, and what it gives comes back. No other connection is touched.
pub proof fn quic_connections_are_used<
    S: TlsSession,
    Q: HttpServerConn,
    A: Address,
    const BUF: usize,
>(
    m: Mgr<S::V, Q::V, A>,
    id: ConnId,
    i: int,
    stream: u64,
    room: int,
    status: u16,
    fs: Seq<Field>,
    data: Seq<u8>,
    end: bool,
)
    requires
        is_quic(m, id, i),
    ensures
        ({
            let q = m.quic[i].server;
            let (t, got, r) = ServerManager::<S, Q, A, BUF>::headers_read(m, id, stream);
            let (u, body, b) = ServerManager::<S, Q, A, BUF>::body_read(m, id, stream, room);
            let (v, p) = ServerManager::<S, Q, A, BUF>::response_sent(
                m,
                id,
                stream,
                status,
                fs,
                end,
            );
            let (w, n) = ServerManager::<S, Q, A, BUF>::body_sent(m, id, stream, data, end);
            &&& (t.quic[i].server, got, r) == Q::headers_read(q, stream)
            &&& (u.quic[i].server, body, b) == Q::body_read(q, stream, room)
            &&& (v.quic[i].server, p) == Q::response_sent(q, stream, status, fs, end)
            &&& (w.quic[i].server, n) == Q::body_sent(q, stream, data, end)
            &&& forall|j: int|
                0 <= j < m.quic.len() && j != i ==> (#[trigger] t.quic[j]) == m.quic[j]
                    && u.quic[j] == m.quic[j] && v.quic[j] == m.quic[j] && w.quic[j] == m.quic[j]
            &&& t.tcp == m.tcp && u.tcp == m.tcp && v.tcp == m.tcp && w.tcp == m.tcp
        }),
{
    super::laws::quic_found(m.quic, id, 0);
}

/// A handle of no connection that is in use is refused, and nothing changes.
pub proof fn unknown_handles_are_refused<
    S: TlsSession,
    Q: HttpServerConn,
    A: Address,
    const BUF: usize,
>(
    m: Mgr<S::V, Q::V, A>,
    id: ConnId,
    stream: u64,
    room: int,
    status: u16,
    fs: Seq<Field>,
    data: Seq<u8>,
    end: bool,
    now: u64,
)
    requires
        m.find_quic(id) is None,
        m.find_tcp(id) matches Some(i) ==> m.tcp[i].state is Closed,
    ensures
        ServerManager::<S, Q, A, BUF>::headers_read(m, id, stream) == (
            m,
            Seq::<Field>::empty(),
            Err::<(), Error>(Error::InvalidState),
        ),
        ServerManager::<S, Q, A, BUF>::body_read(m, id, stream, room) == (
            m,
            Seq::<u8>::empty(),
            Err::<(usize, bool), Error>(Error::InvalidState),
        ),
        ServerManager::<S, Q, A, BUF>::response_sent(m, id, stream, status, fs, end) == (
            m,
            Err::<(), Error>(Error::InvalidState),
        ),
        ServerManager::<S, Q, A, BUF>::body_sent(m, id, stream, data, end) == (
            m,
            Err::<usize, Error>(Error::InvalidState),
        ),
        ServerManager::<S, Q, A, BUF>::tcp_fed(m, id, data, now) == (
            m,
            Err::<(), Error>(Error::InvalidState),
        ),
{
}

} // verus!
