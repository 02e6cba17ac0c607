//! Messages that come, are read and are sent in pieces.

use vstd::prelude::*;

use super::connection::Http1Event;
use super::head;
use super::model;
use super::model::{H1, H1Round, H1Sys};
use crate::error::Error;
use crate::io::Wire;

verus! {

// ---------------------------------------------------------------------------
// Receiving
// ---------------------------------------------------------------------------

/// Two connections that differ at most in the events that wait.
pub open spec fn same_but_events(a: H1Sys, b: H1Sys) -> bool {
    a == (H1Sys { c: H1 { events: a.c.events, ..b.c }, ..b })
}

/// With more bytes received.
pub open spec fn with_more(s: H1Sys, y: Seq<u8>) -> H1Sys {
    H1Sys { io: Wire { recv: s.io.recv + y, ..s.io }, ..s }
}

proof fn lemma_events_ignored(a: H1Sys, b: H1Sys)
    requires
        same_but_events(a, b),
    ensures
        a.rounds().1 == b.rounds().1,
        same_but_events(a.rounds().0, b.rounds().0),
    decreases a.io.recv.len(),
{
    reveal(H1Sys::round);
    model::round_bounds(a);
    assert(a.round() == b.round());
    match a.round() {
        H1Round::Body(n) => {
            lemma_events_ignored(a.body_delivered(n), b.body_delivered(n));
        },
        H1Round::Head(p, n) => {
            lemma_events_ignored(a.head_taken(p, n), b.head_taken(p, n));
        },
        _ => {},
    }
}

proof fn lemma_head_end_more(x: Seq<u8>, y: Seq<u8>, i: int)
    requires
        head::head_end(x, i) is Some,
    ensures
        head::head_end(x + y, i) == head::head_end(x, i),
    decreases x.len() - i,
{
    if 0 <= i && i + 3 < x.len() {
        assert((x + y)[i] == x[i] && (x + y)[i + 1] == x[i + 1] && (x + y)[i + 2] == x[i + 2] && (x
            + y)[i + 3] == x[i + 3]);
        if !(x[i] == head::CR && x[i + 1] == head::LF && x[i + 2] == head::CR && x[i + 3]
            == head::LF) {
            lemma_head_end_more(x, y, i + 1);
        }
    }
}

proof fn lemma_rounds_bounds(s: H1Sys)
    ensures
        ({
            let t = s.rounds().0;
            &&& t.io.recv.len() <= s.io.recv.len()
            &&& t.io.send == s.io.send
            &&& t.c.closed == s.c.closed
            &&& t.c.connected == s.c.connected
            &&& t.io_cap == s.io_cap
        }),
    decreases s.io.recv.len(),
{
    model::round_bounds(s);
    match s.round() {
        H1Round::Body(n) => {
            lemma_rounds_bounds(s.body_delivered(n));
        },
        H1Round::Head(p, n) => {
            lemma_rounds_bounds(s.head_taken(p, n));
        },
        _ => {},
    }
}

proof fn lemma_rounds_more(s: H1Sys, y: Seq<u8>)
    requires
        s.rounds().1 is Ok,
    ensures
        ({
            let one = with_more(s, y).rounds();
            let two = with_more(s.rounds().0, y).rounds();
            one.1 == two.1 && same_but_events(one.0, two.0)
        }),
    decreases s.io.recv.len(),
{
    let x = s.io.recv;
    let m = with_more(s, y);
    model::round_bounds(s);
    model::round_bounds(m);
    match s.round() {
        H1Round::Stop => {},
        H1Round::Fail(e) => {},
        H1Round::Head(p, n) => {
            assert(m.round() == H1Round::Head(p, n)) by {
                reveal(H1Sys::round);
                lemma_head_end_more(x, y, 0);
                assert((x + y).take(p) =~= x.take(p));
            }
            let t = s.head_taken(p, n);
            lemma_rounds_more(t, y);
            assert((x + y).take(p) =~= x.take(p));
            assert((x + y).skip(p + 4) =~= x.skip(p + 4) + y);
            assert(m.head_taken(p, n) == with_more(t, y));
        },
        H1Round::Body(n) => {
            let t = s.body_delivered(n);
            lemma_rounds_more(t, y);
            assert((x + y).take(n) =~= x.take(n));
            assert((x + y).skip(n) =~= x.skip(n) + y);
            let k = model::least(
                s.c.remaining as int,
                (x + y).len() as int,
                s.data_cap - s.c.data.len(),
            );
            assert(m.round() == H1Round::Body(k)) by {
                reveal(H1Sys::round);
            }
            assert(n == model::least(
                s.c.remaining as int,
                x.len() as int,
                s.data_cap - s.c.data.len(),
            )) by {
                reveal(H1Sys::round);
            }
            if k == n {
                assert(m.body_delivered(n) == with_more(t, y));
            } else {
                // All that had come was taken, and more of the body is to come.
                assert(n == x.len());
                assert(t.io.recv =~= Seq::<u8>::empty());
                assert(t.round() == H1Round::Stop) by {
                    reveal(H1Sys::round);
                }
                assert(t.rounds().0 == t);
                let u = with_more(t, y);
                assert(u.io.recv =~= y);
                assert(u.round() == H1Round::Body(k - n)) by {
                    reveal(H1Sys::round);
                }
                model::round_bounds(u);
                let v = u.body_delivered(k - n);
                let w = m.body_delivered(k);
                assert(s.c.data + x.take(n) + y.take(k - n) =~= s.c.data + (x + y).take(k));
                assert(y.skip(k - n) =~= (x + y).skip(k));
                assert(same_but_events(w, v));
                lemma_events_ignored(w, v);
            }
        },
    }
}

/// Bytes may come in pieces: fed one after the other they leave what they leave when
/// fed at once, the same unread body, headers, and count of bytes to come, and the
/// same result. Only the number of events that tell of body bytes may differ.
pub proof fn bytes_may_come_in_pieces(s: H1Sys, a: Seq<u8>, b: Seq<u8>)
    requires
        s.fed(a).1 is Ok,
        s.io.recv.len() + a.len() + b.len() <= s.io_cap,
    ensures
        ({
            let two = s.fed(a).0.fed(b);
            let one = s.fed(a + b);
            one.1 == two.1 && same_but_events(one.0, two.0)
        }),
{
    let g = s.begun();
    let u = with_more(g, a);
    lemma_rounds_bounds(u);
    lemma_rounds_more(u, b);
    let t = u.rounds().0;
    assert(s.fed(a).0 == t);
    assert(t.begun() == t);
    assert(g.io.recv + a + b =~= g.io.recv + (a + b));
    assert(with_more(u, b) == with_more(g, a + b));
}

/// Body bytes that come are unread behind those that were unread, in the order in
/// which they came: as many as the message still has and there is room for.
pub proof fn body_bytes_are_added(s: H1Sys, d: Seq<u8>)
    requires
        !s.c.closed,
        s.c.connected,
        s.io.recv.len() == 0,
        d.len() < s.c.remaining,
        s.c.data.len() + d.len() <= s.data_cap,
        d.len() <= s.io_cap,
    ensures
        ({
            let (t, r) = s.fed(d);
            &&& r == Ok::<(), Error>(())
            &&& t.c.data == s.c.data + d
            &&& t.c.remaining == s.c.remaining - d.len()
            &&& t.c.headers == s.c.headers
            &&& t.c.id == s.c.id
            &&& t.io.recv.len() == 0
            &&& d.len() > 0 ==> t.c.events.contains(Http1Event::Data(s.c.id))
        }),
{
    let u = with_more(s, d);
    assert(u.io.recv =~= d);
    reveal(H1Sys::round);
    let n = d.len() as int;
    if n == 0 {
        assert(u.round() == H1Round::Stop);
        assert(s.c.data + d =~= s.c.data);
    } else {
        assert(u.round() == H1Round::Body(n));
        model::round_bounds(u);
        let t = u.body_delivered(n);
        assert(d.take(n) =~= d);
        assert(t.io.recv =~= Seq::<u8>::empty());
        assert(t.round() == H1Round::Stop);
        assert(t.rounds() == (t, Ok::<(), Error>(())));
        let q = model::pushed(u.c.events, Http1Event::Data(s.c.id));
        assert(q[q.len() - 1] == Http1Event::Data(s.c.id));
    }
}

// ---------------------------------------------------------------------------
// Reading and sending
// ---------------------------------------------------------------------------

/// A body is read in order, and none of it is lost: what a read gives and what is
/// left is what was there, and a read takes as much as it has room for. It is the end
/// when nothing is left and nothing is to come. Another message has no body here.
pub proof fn bodies_are_read_in_order(c: H1, id: u64, room: usize)
    ensures
        ({
            let (t, body, r) = c.body_read(id, room as int);
            &&& id == 0 || id != c.id ==> t == c && r == Err::<(usize, bool), Error>(
                Error::InvalidState,
            )
            &&& id > 0 && id == c.id ==> {
                &&& body + t.data == c.data
                &&& body.len() <= room
                &&& t.data.len() > 0 ==> body.len() == room
                &&& t == (H1 { data: t.data, ..c })
                &&& match r {
                    Ok((n, end)) => n == body.len() && end == (t.data.len() == 0 && c.remaining
                        == 0),
                    Err(e) => e == Error::WouldBlock && c.data.len() == 0 && c.remaining > 0,
                }
            }
        }),
{
    let (t, body, r) = c.body_read(id, room as int);
    if id > 0 && id == c.id {
        if c.data.len() == 0 {
            assert(body + t.data =~= c.data);
        } else {
            assert(body + t.data =~= c.data);
        }
    }
}

/// Output leaves in order, and none of it is lost: what a pull gives and what is left
/// is what waited, and a pull takes as much as it has room for.
pub proof fn output_is_pulled_in_order(s: H1Sys, room: usize)
    ensures
        ({
            let (t, out) = s.polled(room as int);
            let chunk = match out {
                Some(d) => d,
                None => Seq::empty(),
            };
            &&& chunk + t.io.send == s.io.send
            &&& chunk.len() <= room
            &&& t.io.send.len() > 0 ==> chunk.len() == room
            &&& out is None == (s.io.send.len() == 0)
            &&& t.c == s.c && t.io.recv == s.io.recv
        }),
{
    let (t, out) = s.polled(room as int);
    let chunk = match out {
        Some(d) => d,
        None => Seq::empty(),
    };
    assert(chunk + t.io.send =~= s.io.send);
}

/// Body bytes are sent behind what waits, from the first on, as many as fit, and
/// nothing else is sent with them.
pub proof fn bodies_are_sent_in_order(s: H1Sys, id: u64, data: Seq<u8>)
    requires
        s.io.send.len() <= s.io_cap,
        data.len() <= usize::MAX,
    ensures
        ({
            let (t, r) = s.data_sent(id, data);
            let mine = id != 0 && id == if s.c.server {
                s.c.id
            } else {
                s.c.requests
            };
            &&& t.c == s.c && t.io.recv == s.io.recv
            &&& match r {
                Ok(n) => mine && n <= data.len() && t.io.send == s.io.send + data.take(n as int)
                    && (n == data.len() || t.io.send.len() == s.io_cap) && (n > 0 || data.len()
                    == 0),
                Err(e) => t == s && (e == Error::InvalidState) == !mine && (mine ==> e
                    == Error::WouldBlock && s.io.send.len() == s.io_cap && data.len() > 0),
            }
        }),
{
    let (t, r) = s.data_sent(id, data);
}

} // verus!
