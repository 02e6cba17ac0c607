//! What one end of an HTTP/2 connection sends, the other end receives.

use vstd::prelude::*;

use super::connection::{H2Event, PartialData};
use super::frame;
use super::frame::{
    H2FrameHeader, FLAG_END_HEADERS, FLAG_END_STREAM, FLAG_PADDED, FLAG_PRIORITY, FRAME_DATA,
    FRAME_HEADERS,
};
use super::model;
use super::model::{Conn, Round, Sys};
use super::stream;
use super::stream::StreamModel;
use crate::bytes::Field;
use crate::error::Error;
use crate::hpack;
use crate::hpack::codec;
use crate::io::Wire;

verus! {

/// A HEADERS frame with a whole header block.
pub open spec fn headers_frame(id: u64, fs: Seq<Field>, end: bool) -> Seq<u8> {
    frame::frame_bytes(
        FRAME_HEADERS,
        if end {
            FLAG_END_STREAM | FLAG_END_HEADERS
        } else {
            0u8 | FLAG_END_HEADERS
        },
        id,
        codec::block(fs),
    )
}

/// Nothing is half received.
pub open spec fn between_frames(s: Sys) -> bool {
    &&& s.c.partial is None
    &&& s.c.continuation is None
    &&& s.io.recv.len() == 0
    &&& s.c.role is Client || s.c.preface_validated
}

/// The peer may send headers on a stream: it is there, and is still needed with
/// them, or it is a new stream of a client, for which there is room or a closed
/// stream makes room. Headers that end a stream which this end has ended already
/// leave nothing of it that is needed.
pub open spec fn accepts_headers(s: Sys, id: u64, end: bool) -> bool {
    match model::find(s.c.streams, id) {
        Some(i) => s.c.streams[i].headers_begun().recv_ended(end).live(),
        None => s.c.role is Server && id % 2 == 1 && model::not_closed(s.c.streams).len()
            < s.lim.streams,
    }
}

pub(crate) proof fn lemma_find_of(ss: Seq<StreamModel>, id: u64, k: int)
    requires
        0 <= k < ss.len(),
        ss[k].id == id,
        forall|j: int| 0 <= j < k ==> (#[trigger] ss[j]).id != id,
    ensures
        model::find(ss, id) == Some(k),
{
    model::find_bounds(ss, id);
}

/// Dropping streams that nothing needs does not lose one that something needs.
pub(crate) proof fn lemma_live_find(ss: Seq<StreamModel>, id: u64, i: int)
    requires
        0 <= i < ss.len(),
        ss[i].id == id,
        ss[i].live(),
        forall|j: int| 0 <= j < i ==> (#[trigger] ss[j]).id != id,
    ensures
        model::find(model::live(ss), id) matches Some(k) && 0 <= k < model::live(ss).len()
            && model::live(ss)[k] == ss[i],
    decreases ss.len(),
{
    let init = ss.drop_last();
    let tt = model::live(init);
    if i == ss.len() - 1 {
        lemma_live_absent(init, id);
        let all = model::live(ss);
        assert(all == tt.push(ss[i]));
        assert forall|j: int| 0 <= j < tt.len() implies (#[trigger] all[j]).id != id by {
            assert(all[j] == tt[j]);
        }
        lemma_find_of(all, id, tt.len() as int);
    } else {
        assert forall|j: int| 0 <= j < i implies (#[trigger] init[j]).id != id by {
            assert(init[j] == ss[j]);
        }
        assert(init[i] == ss[i]);
        lemma_live_find(init, id, i);
        if ss.last().live() {
            let k = model::find(tt, id)->0;
            let all = tt.push(ss.last());
            model::find_bounds(tt, id);
            assert forall|j: int| 0 <= j < k implies (#[trigger] all[j]).id != id by {
                assert(all[j] == tt[j]);
            }
            assert(all[k] == tt[k]);
            lemma_find_of(all, id, k);
        }
    }
}

proof fn lemma_live_absent(ss: Seq<StreamModel>, id: u64)
    requires
        forall|j: int| 0 <= j < ss.len() ==> (#[trigger] ss[j]).id != id,
    ensures
        forall|j: int| 0 <= j < model::live(ss).len() ==> (#[trigger] model::live(ss)[j]).id != id,
    decreases ss.len(),
{
    if ss.len() > 0 {
        let init = ss.drop_last();
        assert forall|j: int| 0 <= j < init.len() implies (#[trigger] init[j]).id != id by {
            assert(init[j] == ss[j]);
        }
        lemma_live_absent(init, id);
        let all = model::live(ss);
        assert forall|j: int| 0 <= j < all.len() implies (#[trigger] all[j]).id != id by {
            if j < model::live(init).len() {
                assert(all[j] == model::live(init)[j]);
            } else {
                assert(ss[ss.len() - 1].id != id);
            }
        }
    }
}

proof fn lemma_not_closed_absent(ss: Seq<StreamModel>, id: u64)
    requires
        forall|j: int| 0 <= j < ss.len() ==> (#[trigger] ss[j]).id != id,
    ensures
        forall|j: int|
            0 <= j < model::not_closed(ss).len() ==> (#[trigger] model::not_closed(ss)[j]).id != id,
    decreases ss.len(),
{
    if ss.len() > 0 {
        let init = ss.drop_last();
        assert forall|j: int| 0 <= j < init.len() implies (#[trigger] init[j]).id != id by {
            assert(init[j] == ss[j]);
        }
        lemma_not_closed_absent(init, id);
        let all = model::not_closed(ss);
        assert forall|j: int| 0 <= j < all.len() implies (#[trigger] all[j]).id != id by {
            if j < model::not_closed(init).len() {
                assert(all[j] == model::not_closed(init)[j]);
            } else {
                assert(ss[ss.len() - 1].id != id);
            }
        }
    }
}

/// Streams that differ in credit alone are closed or not alike.
pub(crate) proof fn lemma_not_closed_same(a: Seq<StreamModel>, b: Seq<StreamModel>)
    requires
        a.len() == b.len(),
        forall|i: int| 0 <= i < b.len() ==> model::same_but_credit(#[trigger] a[i], b[i]),
    ensures
        model::not_closed(a).len() == model::not_closed(b).len(),
    decreases a.len(),
{
    if a.len() > 0 {
        let x = a.drop_last();
        let y = b.drop_last();
        assert forall|i: int| 0 <= i < y.len() implies model::same_but_credit(
            #[trigger] x[i],
            y[i],
        ) by {
            assert(x[i] == a[i]);
        }
        lemma_not_closed_same(x, y);
        assert(model::same_but_credit(a[a.len() - 1], b[a.len() - 1]));
    }
}

/// A new stream, for which there is room or made room, comes last.
pub(crate) proof fn lemma_stream_made(p: Sys, id: u64)
    requires
        model::find(p.c.streams, id) is None,
        model::not_closed(p.c.streams).len() < p.lim.streams,
    ensures
        ({
            let (e, ok) = p.ensured(id);
            let i = e.c.streams.len() - 1;
            &&& ok
            &&& 0 <= i
            &&& model::find(e.c.streams, id) == Some(i)
            &&& e.c.streams[i].id == id
            &&& e.c.streams[i].state is Idle
            &&& e.c.partial == p.c.partial
            &&& e.c.continuation == p.c.continuation
            &&& e.c.table == p.c.table
            &&& e.c.events == p.c.events
            &&& e.io.recv == p.io.recv
            &&& e.lim == p.lim
        }),
{
    let r = p.reclaimed();
    let kept = p.with_streams(model::not_closed(p.c.streams));
    model::find_bounds(p.c.streams, id);
    lemma_not_closed_absent(p.c.streams, id);
    model::conn_credit_frame(kept, stream::saturated(model::closed_data(p.c.streams)));
    assert forall|j: int| 0 <= j < r.c.streams.len() implies (#[trigger] r.c.streams[j]).id
        != id by {
        if p.c.streams.len() >= p.lim.streams {
            assert(model::same_but_credit(r.c.streams[j], kept.c.streams[j]));
        }
    }
    let e = p.ensured(id).0;
    let i = e.c.streams.len() - 1;
    assert forall|j: int| 0 <= j < i implies (#[trigger] e.c.streams[j]).id != id by {
        assert(e.c.streams[j] == r.c.streams[j]);
    }
    lemma_find_of(e.c.streams, id, i);
}

/// Generating output leaves streams and received bytes as they are, but for the
/// accounting of credit.
pub proof fn generating_keeps_the_rest(s: Sys)
    ensures
        ({
            let g = s.generated();
            &&& g.io.recv == s.io.recv
            &&& g.lim == s.lim
            &&& g.c.streams.len() == s.c.streams.len()
            &&& forall|i: int|
                0 <= i < s.c.streams.len() ==> model::same_but_credit(
                    #[trigger] g.c.streams[i],
                    s.c.streams[i],
                )
            &&& g.c == (Conn {
                streams: g.c.streams,
                recv_window: g.c.recv_window,
                pending: g.c.pending,
                preface_sent: g.c.preface_sent,
                settings_sent: g.c.settings_sent,
                ..s.c
            })
        }),
{
    reveal(Sys::generated);
    if s.c.preface_sent {
        model::flush_frame(s);
    } else {
        let p = s.preface_queued().settings_queued();
        model::flush_frame(Sys { c: Conn { preface_sent: true, ..p.c }, ..p });
    }
}

proof fn lemma_flags(end: bool)
    ensures
        ({
            let flags = if end {
                FLAG_END_STREAM | FLAG_END_HEADERS
            } else {
                0u8 | FLAG_END_HEADERS
            };
            &&& frame::flag_set(flags, FLAG_END_HEADERS)
            &&& frame::flag_set(flags, FLAG_END_STREAM) == end
            &&& !frame::flag_set(flags, FLAG_PADDED)
            &&& !frame::flag_set(flags, FLAG_PRIORITY)
        }),
{
    assert((1u8 | 4u8) & 4u8 != 0 && (1u8 | 4u8) & 1u8 != 0 && (1u8 | 4u8) & 8u8 == 0 && (1u8 | 4u8)
        & 32u8 == 0) by (bit_vector);
    assert((0u8 | 4u8) & 4u8 != 0 && (0u8 | 4u8) & 1u8 == 0 && (0u8 | 4u8) & 8u8 == 0 && (0u8 | 4u8)
        & 32u8 == 0) by (bit_vector);
}

/// The header of the frame, as it is read.
pub open spec fn headers_header(id: u64, fs: Seq<Field>, end: bool) -> H2FrameHeader {
    H2FrameHeader {
        length: codec::block(fs).len() as u32,
        frame_type: FRAME_HEADERS,
        flags: if end {
            FLAG_END_STREAM | FLAG_END_HEADERS
        } else {
            0u8 | FLAG_END_HEADERS
        },
        stream_id: id,
    }
}

proof fn lemma_frame_read(id: u64, fs: Seq<Field>, end: bool)
    requires
        codec::block(fs).len() < 0x100_0000,
        id < 0x8000_0000,
    ensures
        ({
            let f = headers_frame(id, fs, end);
            &&& f.len() == 9 + codec::block(fs).len()
            &&& frame::header_at(f) == headers_header(id, fs, end)
            &&& f.subrange(9, f.len() as int) == codec::block(fs)
        }),
{
    let h = headers_header(id, fs, end);
    frame::frame_header_roundtrip(h, codec::block(fs));
    let f = headers_frame(id, fs, end);
    assert(f == frame::header_bytes(h) + codec::block(fs));
    assert(f.subrange(9, f.len() as int) =~= codec::block(fs));
}

/// Headers that are accepted stand with their stream, and the application is
/// told.
proof fn lemma_headers_taken(s: Sys, id: u64, fs: Seq<Field>, end: bool)
    requires
        s.io.recv == headers_frame(id, fs, end),
        accepts_headers(s, id, end),
        0 < id < 0x8000_0000,
        codec::block(fs).len() < 0x100_0000,
        codec::block(fs).len() <= s.lim.headers,
    ensures
        ({
            let (t, r) = s.on_headers(headers_header(id, fs, end));
            &&& r == Ok::<(), Error>(())
            &&& t.c.partial == s.c.partial
            &&& t.c.continuation == s.c.continuation
            &&& t.c.table == s.c.table
            &&& t.lim == s.lim
            &&& model::find(t.c.streams, id) matches Some(i) && 0 <= i < t.c.streams.len()
                && t.c.streams[i].headers == codec::block(fs) && t.c.streams[i].headers_received
                && t.c.streams[i].live()
            &&& t.c.events == if end {
                model::pushed(
                    model::pushed(s.c.events, H2Event::Headers(id)),
                    H2Event::Finished(id),
                )
            } else {
                model::pushed(s.c.events, H2Event::Headers(id))
            }
        }),
{
    let h = headers_header(id, fs, end);
    lemma_flags(end);
    lemma_frame_read(id, fs, end);
    reveal(Sys::headers_verdict);
    reveal(model::fragment);
    reveal(model::unpadded);
    reveal(Sys::on_headers);
    let n = s.io.recv.len() as int;
    assert(s.headers_verdict(h) == Ok::<(int, int), Error>((9int, n)));
    let p = s.peer_id_seen(id);
    let (e, ok) = p.ensured(id);
    model::find_bounds(s.c.streams, id);
    if model::find(s.c.streams, id) is None {
        lemma_stream_made(p, id);
    }
    let i = model::find(e.c.streams, id)->0;
    model::find_bounds(e.c.streams, id);
    let st = e.c.streams[i].headers_begun().headers_grown(codec::block(fs), true).recv_ended(end);
    assert(st.headers =~= codec::block(fs));
    let t = s.on_headers(h).0;
    assert(t.c.streams == e.c.streams.update(i, st));
    assert forall|j: int| 0 <= j < i implies (#[trigger] t.c.streams[j]).id != id by {
        assert(t.c.streams[j] == e.c.streams[j]);
    }
    lemma_find_of(t.c.streams, id, i);
}

/// Headers that one end sends reach the other: the application is told of them,
/// and reads the same fields in the same order.
pub proof fn headers_reach_the_peer(s: Sys, id: u64, fs: Seq<Field>, end: bool)
    requires
        between_frames(s),
        accepts_headers(s, id, end),
        0 < id < 0x8000_0000,
        hpack::laws::sendable(fs),
        codec::block(fs).len() <= s.c.local.max_frame_size,
        codec::block(fs).len() <= s.lim.headers,
        9 + codec::block(fs).len() <= s.lim.io,
        codec::block(fs).len() < 0x100_0000,
    ensures
        ({
            let (t, r) = s.fed(headers_frame(id, fs, end));
            &&& r == Ok::<(), Error>(())
            &&& t.c.events.contains(H2Event::Headers(id))
            &&& t.c.headers_received(id).1 == fs
            &&& t.c.headers_received(id).2 == Ok::<(), Error>(())
        }),
{
    let f = headers_frame(id, fs, end);
    let h = headers_header(id, fs, end);
    lemma_frame_read(id, fs, end);
    generating_keeps_the_rest(s);
    let g = s.generated();
    let u = Sys { io: Wire { recv: g.io.recv + f, ..g.io }, ..g };
    assert(u.io.recv =~= f);
    lemma_find_same(s, g, id);
    model::find_bounds(s.c.streams, id);
    match model::find(s.c.streams, id) {
        Some(i) => {
            assert(model::same_but_credit(g.c.streams[i], s.c.streams[i]));
        },
        None => {
            lemma_not_closed_same(g.c.streams, s.c.streams);
        },
    }
    lemma_headers_taken(u, id, fs, end);
    let (t, r) = u.on_headers(h);
    assert(u.on_frame(h) == (t, r)) by {
        reveal(Sys::on_frame);
    }
    model::on_frame_keeps_received(u, h);
    let w = Sys { io: Wire { recv: u.io.recv.skip(9 + h.length), ..t.io }, ..t };
    assert(u.round() == Round::Next(w));
    assert(w.io.recv.len() == 0);
    assert(w.round() == Round::Stop(w));
    model::round_makes_progress(u);
    assert(w.rounds() == (w, Ok::<(), Error>(())));
    assert(u.rounds() == (w, Ok::<(), Error>(())));
    let i = model::find(t.c.streams, id)->0;
    model::find_bounds(t.c.streams, id);
    lemma_live_find(w.c.streams, id, i);
    let done = w.with_streams(model::live(w.c.streams));
    assert(s.fed(f) == (done, Ok::<(), Error>(())));
    hpack::laws::encode_decode_roundtrip(done.c.table, fs);
    let q = model::pushed(u.c.events, H2Event::Headers(id));
    assert(q[q.len() - 1] == H2Event::Headers(id));
    if end {
        let e = model::pushed(q, H2Event::Finished(id));
        assert(e[e.len() - 2] == H2Event::Headers(id));
    }
}

/// What sending headers queues is the frame that carries them.
pub proof fn sent_headers_are_the_frame(s: Sys, id: u64, fs: Seq<Field>, end: bool)
    requires
        s.headers_sent(id, fs, end).1 is Ok,
        s.lim.io <= usize::MAX,
    ensures
        s.headers_sent(id, fs, end).0.io.send == s.ensured(id).0.io.send + headers_frame(
            id,
            fs,
            end,
        ),
{
    let e = s.ensured(id).0;
    let room = e.lim.io - e.io.send.len() - 9;
    if e.io.send.len() + 9 <= e.lim.io {
        hpack::laws::encoding_fits(fs, room as nat);
    }
}

/// The header of a DATA frame, as it is read.
pub open spec fn data_header(id: u64, d: Seq<u8>, end: bool) -> H2FrameHeader {
    H2FrameHeader {
        length: d.len() as u32,
        frame_type: FRAME_DATA,
        flags: if end {
            FLAG_END_STREAM
        } else {
            0
        },
        stream_id: id,
    }
}

/// The peer may send these body bytes: the stream is there with room for them,
/// and they are within the windows as announced. The stream's window counts from
/// when the peer has seen the settings.
pub open spec fn accepts_data(s: Sys, id: u64, d: Seq<u8>) -> bool {
    let g = s.generated();
    &&& d.len() <= g.c.recv_window
    &&& model::find(g.c.streams, id) matches Some(i) && (g.c.settings_ack_received ==> d.len()
        <= g.c.streams[i].recv_window) && g.c.streams[i].data.len() + d.len() <= s.lim.data
}

proof fn lemma_data_flags(end: bool)
    ensures
        ({
            let flags = if end {
                FLAG_END_STREAM
            } else {
                0
            };
            &&& frame::flag_set(flags, FLAG_END_STREAM) == end
            &&& !frame::flag_set(flags, FLAG_PADDED)
        }),
{
    assert(1u8 & 1u8 != 0 && 1u8 & 8u8 == 0 && 0u8 & 1u8 == 0 && 0u8 & 8u8 == 0) by (bit_vector);
}

/// A DATA frame that is there whole begins: its payload is what is left.
proof fn lemma_data_begins(u: Sys, id: u64, d: Seq<u8>, end: bool)
    requires
        u.io.recv == model::data_frame(id, d, end),
        u.c.partial is None,
        u.c.continuation is None,
        0 < id < 0x8000_0000,
        d.len() < 0x100_0000,
        d.len() <= u.c.local.max_frame_size,
        d.len() <= u.c.recv_window,
        model::find(u.c.streams, id) matches Some(i) && (u.c.settings_ack_received ==> d.len()
            <= u.c.streams[i].recv_window),
    ensures
        u.round() matches Round::Next(v) && v.io.recv == d && v.c.streams == u.c.streams
            && v.c.events == u.c.events && v.c.continuation is None && v.lim == u.lim
            && v.c.partial == Some(
            PartialData {
                stream_id: id,
                end_stream: end,
                data_remaining: d.len() as usize,
                pad_remaining: 0,
                deliver: true,
            },
        ),
{
    let h = data_header(id, d, end);
    frame::frame_header_roundtrip(h, d);
    let f = model::data_frame(id, d, end);
    assert(f == frame::header_bytes(h) + d);
    assert(f.skip(9) =~= d);
    lemma_data_flags(end);
    reveal(Sys::data_verdict);
    reveal(model::unpadded);
}

/// A payload that is there whole, and that its stream has room for, goes to the
/// stream.
proof fn lemma_data_delivered(v: Sys, id: u64, d: Seq<u8>, end: bool, i: int)
    requires
        v.io.recv == d,
        v.c.partial == Some(
            PartialData {
                stream_id: id,
                end_stream: end,
                data_remaining: d.len() as usize,
                pad_remaining: 0,
                deliver: true,
            },
        ),
        d.len() < 0x100_0000,
        model::find(v.c.streams, id) == Some(i),
        v.c.streams[i].data.len() + d.len() <= v.lim.data,
    ensures
        v.round() matches Round::Next(w) && w.io.recv.len() == 0 && w.c.partial is None
            && w.c.streams.len() == v.c.streams.len() && model::find(w.c.streams, id) == Some(i)
            && w.c.streams[i].data == v.c.streams[i].data + d && w.c.streams[i].data_available
            && w.c.streams[i].fin_received == (v.c.streams[i].fin_received || end)
            && w.c.events == {
            let e = if d.len() > 0 {
                model::pushed(v.c.events, H2Event::Data(id))
            } else {
                v.c.events
            };
            if end {
                model::pushed(e, H2Event::Finished(id))
            } else {
                e
            }
        },
{
    reveal(Sys::pump_step);
    reveal(Sys::stream_data_ended);
    model::find_bounds(v.c.streams, id);
    let pd = v.c.partial->0;
    let (s, pd1) = v.payload_pumped(pd);
    assert(d.take(d.len() as int) =~= d);
    assert(s.c.streams[i].data =~= v.c.streams[i].data + d);
    assert(s.c.streams[i].id == id);
    assert forall|j: int| 0 <= j < i implies (#[trigger] s.c.streams[j]).id != id by {
        assert(s.c.streams[j] == v.c.streams[j]);
    }
    lemma_find_of(s.c.streams, id, i);
    let w = v.pumped();
    assert(w.c.streams == s.c.streams.update(i, s.c.streams[i].data_ended(end)));
    assert forall|j: int| 0 <= j < i implies (#[trigger] w.c.streams[j]).id != id by {
        assert(w.c.streams[j] == s.c.streams[j]);
    }
    lemma_find_of(w.c.streams, id, i);
}

/// Body bytes that one end sends reach the other: the application is told of
/// them, and reads them behind what it had not read yet; the last of them come
/// with the end of the stream.
pub proof fn data_reaches_the_peer(s: Sys, id: u64, d: Seq<u8>, end: bool, room: int)
    requires
        between_frames(s),
        accepts_data(s, id, d),
        0 < id < 0x8000_0000,
        d.len() <= s.c.local.max_frame_size,
        d.len() < 0x100_0000,
        9 + d.len() <= s.lim.io,
        s.c.streams[model::find(s.c.streams, id)->0].data.len() + d.len() <= room <= usize::MAX,
    ensures
        ({
            let st = s.c.streams[model::find(s.c.streams, id)->0];
            let all = st.data + d;
            let (t, r) = s.fed(model::data_frame(id, d, end));
            &&& r == Ok::<(), Error>(())
            &&& d.len() > 0 ==> t.c.events.contains(H2Event::Data(id))
            &&& end ==> t.c.events.contains(H2Event::Finished(id))
            &&& all.len() > 0 ==> t.body_received(id, room).1 == all
            &&& all.len() > 0 ==> t.body_received(id, room).2 == Ok::<(usize, bool), Error>(
                (all.len() as usize, st.fin_received || end),
            )
            &&& all.len() == 0 && end ==> t.body_received(id, room).2 == Ok::<
                (usize, bool),
                Error,
            >((0usize, true))
        }),
{
    let f = model::data_frame(id, d, end);
    generating_keeps_the_rest(s);
    let g = s.generated();
    lemma_find_same(s, g, id);
    let i = model::find(g.c.streams, id)->0;
    model::find_bounds(g.c.streams, id);
    assert(model::same_but_credit(g.c.streams[i], s.c.streams[i]));
    let u = Sys { io: Wire { recv: g.io.recv + f, ..g.io }, ..g };
    assert(u.io.recv =~= f);
    lemma_data_begins(u, id, d, end);
    let v = u.round()->Next_0;
    lemma_data_delivered(v, id, d, end, i);
    let w = v.round()->Next_0;
    assert(w.round() == Round::Stop(w));
    model::round_makes_progress(u);
    model::round_makes_progress(v);
    assert(w.rounds() == (w, Ok::<(), Error>(())));
    assert(v.rounds() == (w, Ok::<(), Error>(())));
    assert(u.rounds() == (w, Ok::<(), Error>(())));
    model::find_bounds(w.c.streams, id);
    lemma_live_find(w.c.streams, id, i);
    let done = w.with_streams(model::live(w.c.streams));
    let header = data_header(id, d, end);
    frame::frame_header_roundtrip(header, d);
    assert(f.len() == 9 + d.len());
    assert(s.fed(f) == (done, Ok::<(), Error>(())));
    let k = model::find(done.c.streams, id)->0;
    let data = done.c.streams[k].data;
    assert(data.take(data.len() as int) =~= data);
    let e = model::pushed(u.c.events, H2Event::Data(id));
    assert(e[e.len() - 1] == H2Event::Data(id));
    let e2 = model::pushed(e, H2Event::Finished(id));
    assert(e2[e2.len() - 1] == H2Event::Finished(id));
    assert(e2[e2.len() - 2] == H2Event::Data(id));
    let e3 = model::pushed(u.c.events, H2Event::Finished(id));
    assert(e3[e3.len() - 1] == H2Event::Finished(id));
}

/// A stream stands where it stood.
pub(crate) proof fn lemma_find_same(s: Sys, g: Sys, id: u64)
    requires
        g.c.streams.len() == s.c.streams.len(),
        forall|i: int|
            0 <= i < s.c.streams.len() ==> model::same_but_credit(
                #[trigger] g.c.streams[i],
                s.c.streams[i],
            ),
    ensures
        model::find(g.c.streams, id) == model::find(s.c.streams, id),
{
    model::find_bounds(s.c.streams, id);
    model::find_bounds(g.c.streams, id);
    match model::find(s.c.streams, id) {
        Some(i) => {
            assert forall|j: int| 0 <= j < i implies (#[trigger] g.c.streams[j]).id != id by {
                assert(s.c.streams[j].id != id);
            }
            assert(g.c.streams[i].id == id);
            lemma_find_of(g.c.streams, id, i);
        },
        None => {
            match model::find(g.c.streams, id) {
                Some(i) => {
                    assert(s.c.streams[i].id == id);
                },
                None => {},
            }
        },
    }
}

} // verus!
