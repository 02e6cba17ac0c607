//! What holds of HTTP over TLS, whatever the session.

use vstd::prelude::*;

use crate::bytes::Field;
use crate::error::Error;
use crate::h2::connection::H2Event;
use crate::h2::delivery;
use crate::h2::model::{Conn, Limits, Sys};
use crate::h2_tls::H2TlsLink;
use crate::http::headers;
use crate::http::TimeoutConfig;
use crate::http1::connection::Http1Event;
use crate::http1::model;
use crate::http1::model::{H1Round, H1Sys, H1};
use crate::https1::{Https1Link, Secured};
use crate::io::Wire;
use crate::tls::{TlsSession, TlsWire};

verus! {

/// What passes between a connection and the network.
pub enum Passing {
    /// Bytes arrive.
    Feed(Seq<u8>),
    /// Bytes arrive at a known time.
    FeedAt(Seq<u8>, u64),
    /// Output is pulled, into so much room.
    Poll(int),
}

/// HTTP/1.1 over TLS, after bytes have passed.
pub open spec fn h1_after<
    S: TlsSession,
    const BUF: usize,
    const HDRBUF: usize,
    const DATABUF: usize,
>(s: Secured<S::V, H1>, ps: Seq<Passing>) -> Secured<S::V, H1>
    decreases ps.len(),
{
    if ps.len() == 0 {
        s
    } else {
        let t = h1_after::<S, BUF, HDRBUF, DATABUF>(s, ps.drop_last());
        match ps.last() {
            Passing::Feed(d) => Https1Link::<S, BUF, HDRBUF, DATABUF>::fed(t, d).0,
            Passing::FeedAt(d, now) => Https1Link::<S, BUF, HDRBUF, DATABUF>::fed_at(t, d, now).0,
            Passing::Poll(room) => Https1Link::<S, BUF, HDRBUF, DATABUF>::polled(t, room).0,
        }
    }
}

/// No event of HTTP/1.1 comes before the TLS handshake is complete, whatever bytes
/// have passed.
pub proof fn h1_events_wait_for_the_handshake<
    S: TlsSession,
    const BUF: usize,
    const HDRBUF: usize,
    const DATABUF: usize,
>(s: Secured<S::V, H1>, ps: Seq<Passing>)
    requires
        s.http.events.len() == 0,
    ensures
        ({
            let t = h1_after::<S, BUF, HDRBUF, DATABUF>(s, ps);
            !Https1Link::<S, BUF, HDRBUF, DATABUF>::established(t) ==> Https1Link::<
                S,
                BUF,
                HDRBUF,
                DATABUF,
            >::event_polled(t) == (t, None::<Http1Event>)
        }),
    decreases ps.len(),
{
    if ps.len() > 0 {
        h1_events_wait_for_the_handshake::<S, BUF, HDRBUF, DATABUF>(s, ps.drop_last());
        let t = h1_after::<S, BUF, HDRBUF, DATABUF>(s, ps.drop_last());
        match ps.last() {
            Passing::Feed(d) => {
                S::plaintext_waits(t.tls, t.wire, d, BUF as int);
                S::stays_active(t.tls, t.wire, d, 0, BUF as int);
            },
            Passing::FeedAt(d, now) => {
                S::plaintext_waits(t.tls, t.wire, d, BUF as int);
                S::stays_active(t.tls, t.wire, d, 0, BUF as int);
            },
            Passing::Poll(room) => {
                S::stays_active(t.tls, t.wire, Seq::empty(), room, BUF as int);
            },
        }
    }
}

/// HTTP/2 over TLS, after bytes have passed.
pub open spec fn h2_after<
    S: TlsSession,
    const BUF: usize,
    const MAX_STREAMS: usize,
    const HDRBUF: usize,
    const DATABUF: usize,
>(s: Secured<S::V, Conn>, ps: Seq<Passing>) -> Secured<S::V, Conn>
    decreases ps.len(),
{
    if ps.len() == 0 {
        s
    } else {
        let t = h2_after::<S, BUF, MAX_STREAMS, HDRBUF, DATABUF>(s, ps.drop_last());
        match ps.last() {
            Passing::Feed(d) => H2TlsLink::<S, BUF, MAX_STREAMS, HDRBUF, DATABUF>::fed(t, d).0,
            Passing::FeedAt(d, now) => H2TlsLink::<S, BUF, MAX_STREAMS, HDRBUF, DATABUF>::fed_at(
                t,
                d,
                now,
            ).0,
            Passing::Poll(room) => H2TlsLink::<S, BUF, MAX_STREAMS, HDRBUF, DATABUF>::polled(
                t,
                room,
            ).0,
        }
    }
}

/// No event of HTTP/2 comes before the TLS handshake is complete, whatever bytes
/// have passed.
pub proof fn h2_events_wait_for_the_handshake<
    S: TlsSession,
    const BUF: usize,
    const MAX_STREAMS: usize,
    const HDRBUF: usize,
    const DATABUF: usize,
>(s: Secured<S::V, Conn>, ps: Seq<Passing>)
    requires
        s.http.events.len() == 0,
    ensures
        ({
            let t = h2_after::<S, BUF, MAX_STREAMS, HDRBUF, DATABUF>(s, ps);
            !S::active(t.tls) ==> t.http.events.len() == 0
        }),
    decreases ps.len(),
{
    if ps.len() > 0 {
        h2_events_wait_for_the_handshake::<S, BUF, MAX_STREAMS, HDRBUF, DATABUF>(
            s,
            ps.drop_last(),
        );
        let t = h2_after::<S, BUF, MAX_STREAMS, HDRBUF, DATABUF>(s, ps.drop_last());
        match ps.last() {
            Passing::Feed(d) => {
                S::plaintext_waits(t.tls, t.wire, d, BUF as int);
                S::stays_active(t.tls, t.wire, d, 0, BUF as int);
            },
            Passing::FeedAt(d, now) => {
                S::plaintext_waits(t.tls, t.wire, d, BUF as int);
                S::stays_active(t.tls, t.wire, d, 0, BUF as int);
            },
            Passing::Poll(room) => {
                let g = H2TlsLink::<S, BUF, MAX_STREAMS, HDRBUF, DATABUF>::sys(t);
                delivery::generating_keeps_the_rest(g);
                let u = H2TlsLink::<S, BUF, MAX_STREAMS, HDRBUF, DATABUF>::with_sys(
                    t,
                    g.generated(),
                );
                S::stays_active(u.tls, u.wire, Seq::empty(), room, BUF as int);
            },
        }
    }
}

// The clock.

/// Two connections that differ at most in when they were last active.
pub open spec fn same_but_clock(a: H1, b: H1) -> bool {
    b == (H1 { last_activity: b.last_activity, ..a })
}

/// Two connections over TLS that differ at most in when they were last active.
pub open spec fn agree<V>(a: Secured<V, H1>, b: Secured<V, H1>) -> bool {
    &&& same_but_clock(a.http, b.http)
    &&& b.tls == a.tls
    &&& b.wire == a.wire
    &&& b.lent == a.lent
}

/// Another time of last activity.
pub open spec fn clock_set(s: H1Sys, now: u64) -> H1Sys {
    H1Sys { c: H1 { last_activity: now, ..s.c }, ..s }
}

proof fn lemma_rounds(s: H1Sys, now: u64)
    ensures
        clock_set(s, now).rounds() == (clock_set(s.rounds().0, now), s.rounds().1),
    decreases s.io.recv.len(),
{
    let t = clock_set(s, now);
    assert(t.round() == s.round()) by {
        reveal(H1Sys::round);
    }
    model::round_bounds(s);
    match s.round() {
        H1Round::Body(n) => {
            assert(t.body_delivered(n) == clock_set(s.body_delivered(n), now));
            lemma_rounds(s.body_delivered(n), now);
        },
        H1Round::Head(p, n) => {
            assert(t.head_taken(p, n) == clock_set(s.head_taken(p, n), now));
            lemma_rounds(s.head_taken(p, n), now);
        },
        _ => {},
    }
}

proof fn lemma_fed(s: H1Sys, data: Seq<u8>, now: u64)
    ensures
        clock_set(s, now).fed(data) == (clock_set(s.fed(data).0, now), s.fed(data).1),
{
    let b = s.begun();
    assert(clock_set(s, now).begun() == clock_set(b, now));
    lemma_rounds(H1Sys { io: Wire { recv: b.io.recv + data, ..b.io }, ..b }, now);
}

/// Feeding with and without the time gives the same result, and the same connection
/// but for its clock. An error of the TLS layer is passed on, and HTTP is not fed.
pub proof fn timed_and_untimed_feeds_agree<
    S: TlsSession,
    const BUF: usize,
    const HDRBUF: usize,
    const DATABUF: usize,
>(a: Secured<S::V, H1>, b: Secured<S::V, H1>, data: Seq<u8>, now: u64)
    requires
        agree(a, b),
    ensures
        ({
            let (t, r) = Https1Link::<S, BUF, HDRBUF, DATABUF>::fed(a, data);
            let (u, q) = Https1Link::<S, BUF, HDRBUF, DATABUF>::fed_at(b, data, now);
            let (tls, wire, e) = S::fed(a.tls, a.wire, data, BUF as int);
            &&& r == q
            &&& agree(t, u)
            &&& e is Err ==> r == e && t.http == a.http && u.http == b.http
        }),
{
    let (tls, wire, e) = S::fed(a.tls, a.wire, data, BUF as int);
    let x = Https1Link::<S, BUF, HDRBUF, DATABUF>::sys(Secured { tls, wire, ..a });
    let y = Https1Link::<S, BUF, HDRBUF, DATABUF>::sys(Secured { tls, wire, ..b });
    lemma_fed(x, Seq::empty(), now);
    assert(H1Sys { c: H1 { last_activity: now, ..y.c }, ..y } == clock_set(x, now));
}

/// What a connection does with its application and the network does not depend on
/// its clock.
pub proof fn only_timeouts_look_at_the_clock<
    S: TlsSession,
    const BUF: usize,
    const HDRBUF: usize,
    const DATABUF: usize,
>(
    a: Secured<S::V, H1>,
    b: Secured<S::V, H1>,
    id: u64,
    room: int,
    data: Seq<u8>,
    status: u16,
    fs: Seq<Field>,
    end: bool,
)
    requires
        agree(a, b),
    ensures
        ({
            let (t, x) = Https1Link::<S, BUF, HDRBUF, DATABUF>::event_polled(a);
            let (u, y) = Https1Link::<S, BUF, HDRBUF, DATABUF>::event_polled(b);
            agree(t, u) && x == y
        }),
        ({
            let (t, f, x) = Https1Link::<S, BUF, HDRBUF, DATABUF>::headers_read(a, id);
            let (u, g, y) = Https1Link::<S, BUF, HDRBUF, DATABUF>::headers_read(b, id);
            agree(t, u) && f == g && x == y
        }),
        ({
            let (t, f, x) = Https1Link::<S, BUF, HDRBUF, DATABUF>::body_read(a, id, room);
            let (u, g, y) = Https1Link::<S, BUF, HDRBUF, DATABUF>::body_read(b, id, room);
            agree(t, u) && f == g && x == y
        }),
        ({
            let (t, x) = Https1Link::<S, BUF, HDRBUF, DATABUF>::polled(a, room);
            let (u, y) = Https1Link::<S, BUF, HDRBUF, DATABUF>::polled(b, room);
            agree(t, u) && x == y
        }),
        ({
            let (t, x) = Https1Link::<S, BUF, HDRBUF, DATABUF>::response_sent(a, id, status, fs, end);
            let (u, y) = Https1Link::<S, BUF, HDRBUF, DATABUF>::response_sent(b, id, status, fs, end);
            agree(t, u) && x == y
        }),
        ({
            let (t, x) = Https1Link::<S, BUF, HDRBUF, DATABUF>::body_sent(a, id, data, end);
            let (u, y) = Https1Link::<S, BUF, HDRBUF, DATABUF>::body_sent(b, id, data, end);
            agree(t, u) && x == y
        }),
        ({
            let (t, x) = Https1Link::<S, BUF, HDRBUF, DATABUF>::fed(a, data);
            let (u, y) = Https1Link::<S, BUF, HDRBUF, DATABUF>::fed(b, data);
            agree(t, u) && x == y
        }),
        Https1Link::<S, BUF, HDRBUF, DATABUF>::established(a) == Https1Link::<
            S,
            BUF,
            HDRBUF,
            DATABUF,
        >::established(b),
        Https1Link::<S, BUF, HDRBUF, DATABUF>::closed(a) == Https1Link::<
            S,
            BUF,
            HDRBUF,
            DATABUF,
        >::closed(b),
        S::protocol(a.tls) == S::protocol(b.tls),
{
    let (tls, wire, e) = S::fed(a.tls, a.wire, data, BUF as int);
    let x = Https1Link::<S, BUF, HDRBUF, DATABUF>::sys(Secured { tls, wire, ..a });
    let y = Https1Link::<S, BUF, HDRBUF, DATABUF>::sys(Secured { tls, wire, ..b });
    lemma_fed(x, Seq::empty(), b.http.last_activity);
    assert(y == clock_set(x, b.http.last_activity));
}

// ---------------------------------------------------------------------------
// Requests
// ---------------------------------------------------------------------------

/// A request under HTTP/2 goes out, once the handshake is complete, as the headers of a
/// new stream: `:method`, `:path`, `:scheme`, which is `https`, `:authority`, and then the
/// headers that were given, in order. The stream ends with them where the application
/// says so.
pub proof fn h2_requests_are_sent<
    S: TlsSession,
    const BUF: usize,
    const MAX_STREAMS: usize,
    const HDRBUF: usize,
    const DATABUF: usize,
>(
    s: Secured<S::V, Conn>,
    method: Seq<u8>,
    path: Seq<u8>,
    authority: Seq<u8>,
    fs: Seq<Field>,
    end: bool,
)
    ensures
        ({
            let (t, r) = H2TlsLink::<S, BUF, MAX_STREAMS, HDRBUF, DATABUF>::request_sent(
                s,
                method,
                path,
                authority,
                fs,
                end,
            );
            let all = seq![
                (seq![0x3au8, 0x6d, 0x65, 0x74, 0x68, 0x6f, 0x64], method),
                (seq![0x3au8, 0x70, 0x61, 0x74, 0x68], path),
                (
                    seq![0x3au8, 0x73, 0x63, 0x68, 0x65, 0x6d, 0x65],
                    seq![0x68u8, 0x74, 0x74, 0x70, 0x73],
                ),
                (
                    seq![0x3au8, 0x61, 0x75, 0x74, 0x68, 0x6f, 0x72, 0x69, 0x74, 0x79],
                    authority,
                ),
            ] + fs;
            let (h, q) = Sys {
                c: s.http,
                io: s.wire.io,
                lim: Limits {
                    streams: MAX_STREAMS as int,
                    headers: HDRBUF as int,
                    data: DATABUF as int,
                    io: BUF as int,
                },
            }.stream_opened(all, end);
            if !S::active(s.tls) {
                t == s && r == Err::<u64, Error>(Error::InvalidState)
            } else if fs.len() > 16 {
                t == s && r == Err::<u64, Error>(Error::TooManyHeaders)
            } else {
                r == q && t == (Secured {
                    http: h.c,
                    wire: TlsWire { io: h.io, out: s.wire.out },
                    ..s
                })
            }
        }),
{
    assert(headers::METHOD@ =~= seq![0x3au8, 0x6d, 0x65, 0x74, 0x68, 0x6f, 0x64]);
    assert(headers::PATH@ =~= seq![0x3au8, 0x70, 0x61, 0x74, 0x68]);
    assert(headers::SCHEME@ =~= seq![0x3au8, 0x73, 0x63, 0x68, 0x65, 0x6d, 0x65]);
    assert(headers::HTTPS@ =~= seq![0x68u8, 0x74, 0x74, 0x70, 0x73]);
    assert(headers::AUTHORITY@ =~= seq![
        0x3au8, 0x61, 0x75, 0x74, 0x68, 0x6f, 0x72, 0x69, 0x74, 0x79,
    ]);
}

/// A request under HTTP/1.1 goes out, once the handshake is complete, with its method,
/// its path, its authority, and then the headers that were given, in order.
pub proof fn h1_requests_are_sent<
    S: TlsSession,
    const BUF: usize,
    const HDRBUF: usize,
    const DATABUF: usize,
>(
    s: Secured<S::V, H1>,
    method: Seq<u8>,
    path: Seq<u8>,
    authority: Seq<u8>,
    fs: Seq<Field>,
    end: bool,
)
    ensures
        ({
            let (t, r) = Https1Link::<S, BUF, HDRBUF, DATABUF>::request_sent(
                s,
                method,
                path,
                authority,
                fs,
                end,
            );
            let all = seq![
                (seq![0x3au8, 0x6d, 0x65, 0x74, 0x68, 0x6f, 0x64], method),
                (seq![0x3au8, 0x70, 0x61, 0x74, 0x68], path),
                (
                    seq![0x3au8, 0x61, 0x75, 0x74, 0x68, 0x6f, 0x72, 0x69, 0x74, 0x79],
                    authority,
                ),
            ] + fs;
            let (h, q) = H1Sys {
                c: s.http,
                io: s.wire.io,
                headers_cap: HDRBUF as int,
                data_cap: DATABUF as int,
                io_cap: BUF as int,
            }.request_sent(all);
            if !S::active(s.tls) {
                t == s && r == Err::<u64, Error>(Error::InvalidState)
            } else if fs.len() > 17 {
                t == s && r == Err::<u64, Error>(Error::TooManyHeaders)
            } else {
                r == q && t == (Secured {
                    http: h.c,
                    wire: TlsWire { io: h.io, out: s.wire.out },
                    ..s
                })
            }
        }),
{
    assert(headers::METHOD@ =~= seq![0x3au8, 0x6d, 0x65, 0x74, 0x68, 0x6f, 0x64]);
    assert(headers::PATH@ =~= seq![0x3au8, 0x70, 0x61, 0x74, 0x68]);
    assert(headers::AUTHORITY@ =~= seq![
        0x3au8, 0x61, 0x75, 0x74, 0x68, 0x6f, 0x72, 0x69, 0x74, 0x79,
    ]);
}

// ---------------------------------------------------------------------------
// Timeouts
// ---------------------------------------------------------------------------

/// Nothing was received for as long as is allowed, or the first headers have taken longer
/// than they may.
pub open spec fn overdue(
    timeouts: TimeoutConfig,
    start: u64,
    active: u64,
    headers: bool,
    now: u64,
) -> bool {
    ||| timeouts.idle_timeout_us matches Some(us) && now - active >= us
    ||| timeouts.header_timeout_us matches Some(us) && !headers && now - start >= us
}

/// A connection that is overdue is closed when time passes, and the application is told;
/// one that is not is left as it is.
pub proof fn overdue_connections_time_out(c: H1, s: Sys, now: u64)
    requires
        now < u64::MAX,
        !c.closed,
        !(s.c.state is Closed),
    ensures
        ({
            let t = c.timed(now);
            if overdue(
                c.timeouts,
                c.connection_start,
                c.last_activity,
                c.headers_phase_complete,
                now,
            ) {
                t.closed && t.events.len() > 0 && t.events.last() == Http1Event::Timeout
            } else {
                t == c
            }
        }),
        ({
            let t = s.timed(now);
            if overdue(
                s.c.timeouts,
                s.c.connection_start,
                s.c.last_activity,
                s.c.headers_phase_complete,
                now,
            ) {
                t.c.state is Closed && t.c.events.len() > 0 && t.c.events.last()
                    == H2Event::Timeout
            } else {
                t == s
            }
        }),
{
}

} // verus!
