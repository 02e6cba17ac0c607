//! What frames on the wire mean, whoever sends them.

use vstd::prelude::*;

use super::connection::{H2ConnState, H2Event, PartialData};
use super::delivery;
use super::delivery::accepts_headers;
use super::frame;
use super::frame::H2FrameHeader;
use super::model;
use super::model::{Conn, Round, Sys};
use super::stream::StreamModel;
use crate::bytes;
use crate::error::Error;
use crate::hpack::codec;
use crate::io::Wire;

verus! {

// ---------------------------------------------------------------------------
// Frames
// ---------------------------------------------------------------------------

/// A frame, byte by byte: 24 bits of length, type, flags, 31 bits of stream
/// identifier, payload (RFC 9113 §4.1).
pub open spec fn raw(ty: u8, flags: u8, id: u64, payload: Seq<u8>) -> Seq<u8> {
    let n = payload.len() as int;
    seq![
        (n / 65536 % 256) as u8,
        (n / 256 % 256) as u8,
        (n % 256) as u8,
        ty,
        flags,
        (id / 16777216 % 256) as u8,
        (id / 65536 % 256) as u8,
        (id / 256 % 256) as u8,
        (id % 256) as u8,
    ] + payload
}

proof fn lemma_header_bytes(h: H2FrameHeader)
    requires
        h.length < 0x100_0000,
        h.stream_id < 0x8000_0000,
    ensures
        ({
            let n = h.length as int;
            let id = h.stream_id;
            frame::header_bytes(h) == seq![
                (n / 65536 % 256) as u8,
                (n / 256 % 256) as u8,
                (n % 256) as u8,
                h.frame_type,
                h.flags,
                (id / 16777216 % 256) as u8,
                (id / 65536 % 256) as u8,
                (id / 256 % 256) as u8,
                (id % 256) as u8,
            ]
        }),
{
    let n = h.length as int;
    let id = h.stream_id;
    let a = frame::header_bytes(h);
    assert(frame::wire_id(id) == id);
    assert(id / 16777216 < 128);
    assert(id / 16777216 % 256 == id / 16777216);
    let b = seq![
        (n / 65536 % 256) as u8,
        (n / 256 % 256) as u8,
        (n % 256) as u8,
        h.frame_type,
        h.flags,
        (id / 16777216 % 256) as u8,
        (id / 65536 % 256) as u8,
        (id / 256 % 256) as u8,
        (id % 256) as u8,
    ];
    assert(a.len() == 9 && b.len() == 9);
    assert(a[5] == b[5] && a[6] == b[6] && a[7] == b[7] && a[8] == b[8]);
    assert(a =~= b);
}

/// A frame is written and read by that layout.
pub proof fn frames_are_laid_out(ty: u8, flags: u8, id: u64, payload: Seq<u8>)
    requires
        payload.len() < 0x100_0000,
        id < 0x8000_0000,
    ensures
        frame::frame_bytes(ty, flags, id, payload) == raw(ty, flags, id, payload),
        frame::header_at(raw(ty, flags, id, payload)) == (H2FrameHeader {
            length: payload.len() as u32,
            frame_type: ty,
            flags,
            stream_id: id,
        }),
        raw(ty, flags, id, payload).len() == 9 + payload.len(),
        raw(ty, flags, id, payload).skip(9) == payload,
{
    let h = H2FrameHeader { length: payload.len() as u32, frame_type: ty, flags, stream_id: id };
    frame::frame_header_roundtrip(h, payload);
    let b = raw(ty, flags, id, payload);
    lemma_header_bytes(h);
    assert(frame::frame_bytes(ty, flags, id, payload) == frame::header_bytes(h) + payload);
    assert(b == frame::header_bytes(h) + payload);
    assert(b.skip(9) =~= payload);
}

/// Nothing is half received, but a header block of which this frame is the next part.
pub open spec fn expects(s: Sys, ty: u8, id: u64) -> bool {
    &&& s.c.partial is None
    &&& s.c.continuation is None || (ty == 9 && s.c.continuation == Some(id))
    &&& s.io.recv.len() == 0
    &&& s.c.role is Client || s.c.preface_validated
}

/// The frame is one that can be sent to this end.
pub open spec fn sized(s: Sys, id: u64, payload: Seq<u8>) -> bool {
    &&& id < 0x8000_0000
    &&& payload.len() < 0x100_0000
    &&& payload.len() <= s.c.local.max_frame_size
    &&& 9 + payload.len() <= s.lim.io
}

/// The connection when these bytes have just come.
pub open spec fn arrived(s: Sys, f: Seq<u8>) -> Sys {
    let g = s.generated();
    Sys { io: Wire { recv: f, ..g.io }, ..g }
}

/// The connection when a frame has been dealt with.
pub open spec fn settled(t: Sys) -> Sys {
    Sys { io: Wire { recv: Seq::empty(), ..t.io }, ..t }.with_streams(model::live(t.c.streams))
}

pub(crate) proof fn lemma_arrived(s: Sys, f: Seq<u8>, id: u64)
    ensures
        ({
            let u = arrived(s, f);
            &&& u.c.partial == s.c.partial
            &&& u.c.continuation == s.c.continuation
            &&& u.c.table == s.c.table
            &&& u.c.events == s.c.events
            &&& u.c.role == s.c.role
            &&& u.c.state == s.c.state
            &&& u.c.peer == s.c.peer
            &&& u.c.local == s.c.local
            &&& u.c.send_window == s.c.send_window
            &&& u.c.preface_validated == s.c.preface_validated
            &&& u.c.settings_ack_received == s.c.settings_ack_received
            &&& u.c.peer_settings_received == s.c.peer_settings_received
            &&& u.c.last_peer_stream_id == s.c.last_peer_stream_id
            &&& u.lim == s.lim
            &&& u.c.streams.len() == s.c.streams.len()
            &&& model::find(u.c.streams, id) == model::find(s.c.streams, id)
            &&& forall|i: int|
                0 <= i < s.c.streams.len() ==> model::same_but_credit(
                    #[trigger] u.c.streams[i],
                    s.c.streams[i],
                )
        }),
{
    delivery::generating_keeps_the_rest(s);
    delivery::lemma_find_same(s, s.generated(), id);
}

/// A frame that comes alone is dealt with, and then nothing is left to do.
proof fn lemma_one_frame(s: Sys, ty: u8, flags: u8, id: u64, payload: Seq<u8>)
    requires
        expects(s, ty, id),
        sized(s, id, payload),
        ty != 0,
    ensures
        ({
            let f = raw(ty, flags, id, payload);
            let h = H2FrameHeader {
                length: payload.len() as u32,
                frame_type: ty,
                flags,
                stream_id: id,
            };
            let (t, r) = arrived(s, f).on_frame(h);
            match r {
                Ok(()) => t.c.partial is None ==> s.fed(f) == (settled(t), Ok::<(), Error>(())),
                Err(e) => s.fed(f) == (t, Err::<(), Error>(e)),
            }
        }),
{
    let f = raw(ty, flags, id, payload);
    let h = H2FrameHeader { length: payload.len() as u32, frame_type: ty, flags, stream_id: id };
    frames_are_laid_out(ty, flags, id, payload);
    delivery::generating_keeps_the_rest(s);
    let g = s.generated();
    let u = arrived(s, f);
    assert(g.io.recv + f =~= f);
    assert(Sys { io: Wire { recv: g.io.recv + f, ..g.io }, ..g } == u);
    assert(frame::header_at(u.io.recv) == h);
    let (t, r) = u.on_frame(h);
    model::on_frame_keeps_received(u, h);
    model::round_makes_progress(u);
    match r {
        Ok(()) => {
            let w = Sys { io: Wire { recv: u.io.recv.skip(9 + h.length), ..t.io }, ..t };
            assert(u.io.recv.skip(9 + h.length) =~= Seq::<u8>::empty());
            assert(u.round() == Round::Next(w));
            if t.c.partial is None {
                assert(w.round() == Round::Stop(w));
                assert(w.rounds() == (w, Ok::<(), Error>(())));
                assert(u.rounds() == (w, Ok::<(), Error>(())));
                assert(s.fed(f) == u.processed());
            }
        },
        Err(e) => {
            assert(u.round() == Round::Fail(t, e));
            assert(u.rounds() == (t, Err::<(), Error>(e)));
            assert(s.fed(f) == u.processed());
        },
    }
}

// ---------------------------------------------------------------------------
// Header blocks
// ---------------------------------------------------------------------------

/// A payload with padding: its length in front, and so many bytes behind.
pub open spec fn padded(pad: Option<Seq<u8>>, body: Seq<u8>) -> Seq<u8> {
    match pad {
        Some(z) => seq![z.len() as u8] + body + z,
        None => body,
    }
}

/// A header block with what a HEADERS frame may hold around it: priority in front of
/// it, and padding.
pub open spec fn headers_payload(pad: Option<Seq<u8>>, prio: Option<Seq<u8>>, block: Seq<u8>) -> Seq<
    u8,
> {
    padded(
        pad,
        match prio {
            Some(p) => p + block,
            None => block,
        },
    )
}

/// The flags of a HEADERS frame: END_STREAM, END_HEADERS, PADDED, PRIORITY.
pub open spec fn headers_flags(end: bool, whole: bool, pad: bool, prio: bool) -> u8 {
    let e = if end {
        0x1u8
    } else {
        0x0u8
    };
    let w = if whole {
        0x4u8
    } else {
        0x0u8
    };
    let p = if pad {
        0x8u8
    } else {
        0x0u8
    };
    let q = if prio {
        0x20u8
    } else {
        0x0u8
    };
    e | w | p | q
}

pub(crate) proof fn lemma_headers_flags(end: bool, whole: bool, pad: bool, prio: bool)
    ensures
        ({
            let flags = headers_flags(end, whole, pad, prio);
            &&& (flags & 0x1u8 != 0) == end
            &&& (flags & 0x4u8 != 0) == whole
            &&& (flags & 0x8u8 != 0) == pad
            &&& (flags & 0x20u8 != 0) == prio
        }),
{
    let e = if end {
        0x1u8
    } else {
        0x0u8
    };
    let w = if whole {
        0x4u8
    } else {
        0x0u8
    };
    let p = if pad {
        0x8u8
    } else {
        0x0u8
    };
    let q = if prio {
        0x20u8
    } else {
        0x0u8
    };
    assert(((e | w | p | q) & 0x1u8 != 0) == (e == 1) && ((e | w | p | q) & 0x4u8 != 0) == (w == 4)
        && ((e | w | p | q) & 0x8u8 != 0) == (p == 8) && ((e | w | p | q) & 0x20u8 != 0) == (q
        == 0x20)) by (bit_vector)
        requires
            e == 0 || e == 1,
            w == 0 || w == 4,
            p == 0 || p == 8,
            q == 0 || q == 0x20,
    ;
}

/// What stands around a header block is taken off it.
proof fn lemma_block_found(
    recv: Seq<u8>,
    h: H2FrameHeader,
    pad: Option<Seq<u8>>,
    prio: Option<Seq<u8>>,
    block: Seq<u8>,
)
    requires
        recv.len() >= 9,
        recv.skip(9) == headers_payload(pad, prio, block),
        h.length == headers_payload(pad, prio, block).len(),
        (h.flags & 0x8u8 != 0) == pad is Some,
        (h.flags & 0x20u8 != 0) == prio is Some,
        pad matches Some(z) ==> z.len() <= 255,
        prio matches Some(p) ==> p.len() == 5,
    ensures
        model::fragment(recv, h) matches Ok((start, end)) && 9 <= start <= end <= recv.len()
            && recv.subrange(start, end) == block,
{
    reveal(model::fragment);
    reveal(model::unpadded);
    let body = recv.skip(9);
    assert(body.len() > 0 ==> recv[9] == body[0]);
    let (start, end) = model::fragment(recv, h)->Ok_0;
    assert(recv.subrange(start, end) =~= body.subrange(start - 9, end - 9));
    assert(body.subrange(start - 9, end - 9) =~= block);
}

/// The first part of a header block goes to its stream.
proof fn lemma_block_stored(s: Sys, h: H2FrameHeader, block: Seq<u8>, whole: bool, end: bool)
    requires
        model::fragment(s.io.recv, h) matches Ok((a, b)) && s.io.recv.subrange(a, b) == block,
        (h.flags & 0x1u8 != 0) == end,
        (h.flags & 0x4u8 != 0) == whole,
        0 < h.stream_id < 0x8000_0000,
        accepts_headers(s, h.stream_id, end),
        block.len() <= s.lim.headers,
    ensures
        ({
            let id = h.stream_id;
            let (t, r) = s.on_headers(h);
            &&& r == Ok::<(), Error>(())
            &&& t.c.partial == s.c.partial
            &&& t.c.continuation == if whole {
                s.c.continuation
            } else {
                Some(id)
            }
            &&& t.c.table == s.c.table
            &&& t.c.role == s.c.role
            &&& t.c.local == s.c.local
            &&& t.c.preface_validated == s.c.preface_validated
            &&& t.lim == s.lim
            &&& model::find(t.c.streams, id) matches Some(i) && 0 <= i < t.c.streams.len()
                && t.c.streams[i].id == id && t.c.streams[i].headers == block && (whole
                ==> t.c.streams[i].headers_received) && (end ==> t.c.streams[i].fin_received)
                && t.c.streams[i].live()
            &&& t.c.events == {
                let e = if whole {
                    model::pushed(s.c.events, H2Event::Headers(id))
                } else {
                    s.c.events
                };
                if end {
                    model::pushed(e, H2Event::Finished(id))
                } else {
                    e
                }
            }
        }),
{
    let id = h.stream_id;
    reveal(Sys::headers_verdict);
    reveal(Sys::on_headers);
    let p = s.peer_id_seen(id);
    let (e, ok) = p.ensured(id);
    model::find_bounds(s.c.streams, id);
    if model::find(s.c.streams, id) is None {
        delivery::lemma_stream_made(p, id);
        model::conn_credit_frame(
            p.with_streams(model::not_closed(p.c.streams)),
            super::stream::saturated(model::closed_data(p.c.streams)),
        );
    }
    let i = model::find(e.c.streams, id)->0;
    model::find_bounds(e.c.streams, id);
    let st = e.c.streams[i].headers_begun().headers_grown(block, whole).recv_ended(end);
    assert(st.headers =~= block);
    let t = s.on_headers(h).0;
    assert(t.c.streams == e.c.streams.update(i, st));
    assert forall|j: int| 0 <= j < i implies (#[trigger] t.c.streams[j]).id != id by {
        assert(t.c.streams[j] == e.c.streams[j]);
    }
    delivery::lemma_find_of(t.c.streams, id, i);
}

/// The application is told of headers, and reads of them what their block decodes to.
pub open spec fn headers_readable(s: Sys, t: Sys, id: u64, block: Seq<u8>) -> bool {
    let d = codec::decode_block(s.c.table, block);
    let (c, fs, r) = t.c.headers_received(id);
    &&& t.c.events.contains(H2Event::Headers(id))
    &&& fs == d.fields
    &&& c.table == d.table
    &&& match d.result {
        Ok(_) => r == Ok::<(), Error>(()),
        Err(e) => r == Err::<(), Error>(e),
    }
}

proof fn lemma_told(events: Seq<H2Event>, e: H2Event, f: H2Event)
    ensures
        model::pushed(events, e).contains(e),
        model::pushed(model::pushed(events, e), f).contains(e),
        model::pushed(model::pushed(events, e), f).contains(f),
{
    let q = model::pushed(events, e);
    assert(q[q.len() - 1] == e);
    let r = model::pushed(q, f);
    assert(r[r.len() - 1] == f);
    assert(r[r.len() - 2] == e);
}

proof fn lemma_accepts_arrived(s: Sys, f: Seq<u8>, id: u64, end: bool)
    requires
        accepts_headers(s, id, end),
    ensures
        accepts_headers(arrived(s, f), id, end),
{
    let u = arrived(s, f);
    lemma_arrived(s, f, id);
    model::find_bounds(s.c.streams, id);
    match model::find(s.c.streams, id) {
        Some(i) => {
            assert(model::same_but_credit(u.c.streams[i], s.c.streams[i]));
        },
        None => {
            delivery::lemma_not_closed_same(u.c.streams, s.c.streams);
        },
    }
}

/// A HEADERS frame is read, with padding or priority or without: the application is
/// told of the headers, and reads what the header block in it decodes to, and that
/// alone. END_STREAM is the end of the stream.
pub proof fn headers_frames_are_read(
    s: Sys,
    id: u64,
    pad: Option<Seq<u8>>,
    prio: Option<Seq<u8>>,
    block: Seq<u8>,
    end: bool,
)
    requires
        expects(s, 1, id),
        sized(s, id, headers_payload(pad, prio, block)),
        pad matches Some(z) ==> z.len() <= 255,
        prio matches Some(p) ==> p.len() == 5,
        0 < id,
        accepts_headers(s, id, end),
        block.len() <= s.lim.headers,
    ensures
        ({
            let flags = headers_flags(end, true, pad is Some, prio is Some);
            let (t, r) = s.fed(raw(1, flags, id, headers_payload(pad, prio, block)));
            &&& r == Ok::<(), Error>(())
            &&& headers_readable(s, t, id, block)
            &&& t.io.recv.len() == 0
            &&& end ==> t.c.events.contains(H2Event::Finished(id))
            &&& end ==> t.c.streams[model::find(t.c.streams, id)->0].fin_received
        }),
{
    let payload = headers_payload(pad, prio, block);
    let flags = headers_flags(end, true, pad is Some, prio is Some);
    let f = raw(1, flags, id, payload);
    let h = H2FrameHeader {
        length: payload.len() as u32,
        frame_type: 1,
        flags,
        stream_id: id,
    };
    let u = arrived(s, f);
    lemma_headers_flags(end, true, pad is Some, prio is Some);
    frames_are_laid_out(1, flags, id, payload);
    lemma_arrived(s, f, id);
    lemma_accepts_arrived(s, f, id, end);
    lemma_block_found(f, h, pad, prio, block);
    lemma_block_stored(u, h, block, true, end);
    assert(u.on_frame(h) == u.on_headers(h)) by {
        reveal(Sys::on_frame);
    }
    lemma_one_frame(s, 1, flags, id, payload);
    let t = u.on_headers(h).0;
    model::find_bounds(t.c.streams, id);
    delivery::lemma_live_find(t.c.streams, id, model::find(t.c.streams, id)->0);
    lemma_told(s.c.events, H2Event::Headers(id), H2Event::Finished(id));
}

/// The next part of a header block goes to its stream.
proof fn lemma_block_continued(s: Sys, h: H2FrameHeader, before: Seq<u8>, more: Seq<u8>, last: bool)
    requires
        s.io.recv.len() >= 9,
        s.io.recv.skip(9) == more,
        h.length == more.len(),
        (h.flags & 0x4u8 != 0) == last,
        0 < h.stream_id,
        model::find(s.c.streams, h.stream_id) matches Some(i) && s.c.streams[i].headers == before
            && s.c.streams[i].live(),
        before.len() + more.len() <= s.lim.headers,
    ensures
        ({
            let id = h.stream_id;
            let i = model::find(s.c.streams, id)->0;
            let (t, r) = s.on_continuation(h);
            &&& r == Ok::<(), Error>(())
            &&& t.c.partial == s.c.partial
            &&& t.c.continuation == if last {
                None
            } else {
                s.c.continuation
            }
            &&& t.c.table == s.c.table
            &&& t.c.role == s.c.role
            &&& t.c.local == s.c.local
            &&& t.c.preface_validated == s.c.preface_validated
            &&& t.lim == s.lim
            &&& model::find(t.c.streams, id) == Some(i)
            &&& 0 <= i < t.c.streams.len()
            &&& t.c.streams[i].id == id
            &&& t.c.streams[i].headers == before + more
            &&& last ==> t.c.streams[i].headers_received
            &&& t.c.streams[i].live()
            &&& t.c.events == if last {
                model::pushed(s.c.events, H2Event::Headers(id))
            } else {
                s.c.events
            }
        }),
{
    let id = h.stream_id;
    reveal(Sys::on_continuation);
    model::find_bounds(s.c.streams, id);
    let i = model::find(s.c.streams, id)->0;
    let t = s.on_continuation(h).0;
    assert(s.payload(h) =~= more);
    assert forall|j: int| 0 <= j < i implies (#[trigger] t.c.streams[j]).id != id by {
        assert(t.c.streams[j] == s.c.streams[j]);
    }
    delivery::lemma_find_of(t.c.streams, id, i);
}

/// A header block is on its way: so much of it has come.
pub open spec fn awaits(s: Sys, id: u64, before: Seq<u8>) -> bool {
    &&& s.c.continuation == Some(id)
    &&& expects(s, 9, id)
    &&& model::find(s.c.streams, id) matches Some(i) && s.c.streams[i].headers == before
        && s.c.streams[i].live()
}

/// The first part of a header block is kept until the rest comes, whatever stands
/// around it in its frame.
pub proof fn header_blocks_may_begin(
    s: Sys,
    id: u64,
    pad: Option<Seq<u8>>,
    prio: Option<Seq<u8>>,
    block: Seq<u8>,
    end: bool,
)
    requires
        expects(s, 1, id),
        sized(s, id, headers_payload(pad, prio, block)),
        pad matches Some(z) ==> z.len() <= 255,
        prio matches Some(p) ==> p.len() == 5,
        0 < id,
        accepts_headers(s, id, end),
        block.len() <= s.lim.headers,
    ensures
        ({
            let flags = headers_flags(end, false, pad is Some, prio is Some);
            let (t, r) = s.fed(raw(1, flags, id, headers_payload(pad, prio, block)));
            &&& r == Ok::<(), Error>(())
            &&& awaits(t, id, block)
            &&& t.c.table == s.c.table
            &&& t.lim == s.lim
            &&& t.c.local == s.c.local
        }),
{
    let payload = headers_payload(pad, prio, block);
    let flags = headers_flags(end, false, pad is Some, prio is Some);
    let f = raw(1, flags, id, payload);
    let h = H2FrameHeader {
        length: payload.len() as u32,
        frame_type: 1,
        flags,
        stream_id: id,
    };
    let u = arrived(s, f);
    lemma_headers_flags(end, false, pad is Some, prio is Some);
    frames_are_laid_out(1, flags, id, payload);
    lemma_arrived(s, f, id);
    lemma_accepts_arrived(s, f, id, end);
    lemma_block_found(f, h, pad, prio, block);
    lemma_block_stored(u, h, block, false, end);
    assert(u.on_frame(h) == u.on_headers(h)) by {
        reveal(Sys::on_frame);
    }
    lemma_one_frame(s, 1, flags, id, payload);
    let t = u.on_headers(h).0;
    model::find_bounds(t.c.streams, id);
    delivery::lemma_live_find(t.c.streams, id, model::find(t.c.streams, id)->0);
}

/// Each CONTINUATION frame adds its payload to the header block. With the last, which
/// says so, the application is told of the headers, and reads what the whole block
/// decodes to.
pub proof fn header_blocks_go_on(s: Sys, id: u64, before: Seq<u8>, more: Seq<u8>, last: bool)
    requires
        awaits(s, id, before),
        sized(s, id, more),
        0 < id,
        before.len() + more.len() <= s.lim.headers,
    ensures
        ({
            let flags = headers_flags(false, last, false, false);
            let (t, r) = s.fed(raw(9, flags, id, more));
            &&& r == Ok::<(), Error>(())
            &&& last ==> headers_readable(s, t, id, before + more) && t.c.continuation is None
            &&& !last ==> awaits(t, id, before + more)
            &&& t.c.table == s.c.table
            &&& t.lim == s.lim
            &&& t.c.local == s.c.local
        }),
{
    let flags = headers_flags(false, last, false, false);
    let f = raw(9, flags, id, more);
    let h = H2FrameHeader { length: more.len() as u32, frame_type: 9, flags, stream_id: id };
    let u = arrived(s, f);
    lemma_headers_flags(false, last, false, false);
    frames_are_laid_out(9, flags, id, more);
    lemma_arrived(s, f, id);
    model::find_bounds(s.c.streams, id);
    let i = model::find(s.c.streams, id)->0;
    assert(model::same_but_credit(u.c.streams[i], s.c.streams[i]));
    lemma_block_continued(u, h, before, more, last);
    assert(u.on_frame(h) == u.on_continuation(h)) by {
        reveal(Sys::on_frame);
    }
    lemma_one_frame(s, 9, flags, id, more);
    let t = u.on_continuation(h).0;
    model::find_bounds(t.c.streams, id);
    delivery::lemma_live_find(t.c.streams, id, i);
    lemma_told(s.c.events, H2Event::Headers(id), H2Event::Headers(id));
}

// ---------------------------------------------------------------------------
// Sending
// ---------------------------------------------------------------------------

/// Body bytes are sent in one DATA frame behind what waits, from the first on. As many
/// are in it as the windows of stream and connection, and the size of a frame, allow,
/// and the windows shrink by that. The frame has END_STREAM exactly where the stream is
/// to end and all bytes are in it; where it has not, the stream goes on as it was.
pub proof fn data_is_sent_in_one_frame(s: Sys, id: u64, data: Seq<u8>, end: bool)
    requires
        id < 0x8000_0000,
        s.c.peer.max_frame_size < 0x100_0000,
        s.io.send.len() <= s.lim.io <= usize::MAX,
        data.len() <= usize::MAX,
    ensures
        ({
            let (t, r) = s.data_sent(id, data, end);
            match r {
                Ok(n) => {
                    let last = end && n == data.len();
                    let flags: u8 = if last {
                        0x1
                    } else {
                        0x0
                    };
                    &&& n <= data.len()
                    &&& n > 0 || data.len() == 0
                    &&& t.io.send == s.io.send + raw(0, flags, id, data.take(n as int))
                    &&& t.io.recv == s.io.recv
                    &&& t.c.streams.len() == s.c.streams.len()
                    &&& n > 0 ==> t.c.send_window == s.c.send_window - n && n <= s.c.send_window
                    &&& forall|k: int|
                        0 <= k < s.c.streams.len() && (!last || s.c.streams[k].id != id)
                            ==> (#[trigger] t.c.streams[k]).state == s.c.streams[k].state
                    &&& model::find(s.c.streams, id) matches Some(k) ==> {
                        &&& s.c.streams[k].state is Open || s.c.streams[k].state is HalfClosedRemote
                        &&& n > 0 ==> t.c.streams[k].send_window == s.c.streams[k].send_window - n
                        &&& last && s.c.streams[k].state is Open ==> t.c.streams[k].state
                            is HalfClosedLocal
                        &&& last && s.c.streams[k].state is HalfClosedRemote
                            ==> t.c.streams[k].state is Closed
                    }
                },
                Err(_) => t == s,
            }
        }),
{
    model::find_bounds(s.c.streams, id);
    let n = s.sendable(id, data.len() as int);
    let (t, r) = s.data_sent(id, data, end);
    if r is Ok {
        assert(n <= s.c.peer.max_frame_size);
        frames_are_laid_out(
            0,
            if end && n == data.len() {
                0x1
            } else {
                0x0
            },
            id,
            data.take(n),
        );
    }
}

/// With other bytes in the receive buffer.
pub open spec fn holding(s: Sys, recv: Seq<u8>) -> Sys {
    Sys { io: Wire { recv, ..s.io }, ..s }
}

proof fn lemma_flush_beside(s: Sys, recv: Seq<u8>, i: int)
    ensures
        holding(s, recv).flush_from(i) == holding(s.flush_from(i), recv),
    decreases s.c.streams.len() - i,
{
    if 0 <= i < s.c.streams.len() {
        assert(holding(s, recv).flush_stream(i) == holding(s.flush_stream(i), recv));
        lemma_flush_beside(s.flush_stream(i), recv, i + 1);
    }
}

/// What was received plays no part in what is generated.
proof fn lemma_generated_beside(s: Sys, recv: Seq<u8>)
    ensures
        holding(s, recv).generated() == holding(s.generated(), recv),
{
    reveal(Sys::generated);
    reveal(Sys::flushed);
    let p = s.preface_queued().settings_queued();
    assert(holding(s, recv).preface_queued().settings_queued() == holding(p, recv));
    let x = if s.c.preface_sent {
        s
    } else {
        Sys { c: Conn { preface_sent: true, ..p.c }, ..p }
    };
    assert(holding(x, recv).flush_conn() == holding(x.flush_conn(), recv));
    lemma_flush_beside(x.flush_conn(), recv, 0);
}

/// Bytes that stand in the receive buffer already are dealt with as if they had just
/// been fed.
pub proof fn received_is_fed(s: Sys, d: Seq<u8>)
    requires
        s.io.recv.len() + d.len() <= s.lim.io,
    ensures
        holding(s, s.io.recv + d).fed(Seq::empty()) == s.fed(d),
{
    let g = s.generated();
    delivery::generating_keeps_the_rest(s);
    lemma_generated_beside(s, s.io.recv + d);
    assert(s.io.recv + d + Seq::<u8>::empty() =~= s.io.recv + d);
}

// ---------------------------------------------------------------------------
// Other frames
// ---------------------------------------------------------------------------

/// A number in four bytes, the most significant first.
pub open spec fn four_bytes(n: int) -> Seq<u8> {
    seq![
        (n / 16777216 % 256) as u8,
        (n / 65536 % 256) as u8,
        (n / 256 % 256) as u8,
        (n % 256) as u8,
    ]
}

proof fn lemma_four_bytes(s: Seq<u8>, at: int, n: int)
    requires
        0 <= at,
        at + 4 <= s.len(),
        0 <= n <= u32::MAX,
        s.subrange(at, at + 4) == four_bytes(n),
    ensures
        bytes::read32(s, at) == n,
        n < 0x8000_0000 ==> bytes::read31(s, at) == n,
{
    let b = s.subrange(at, at + 4);
    lemma_digits(n);
    let x = four_bytes(n);
    assert(s[at] == x[0]) by {
        assert(b[0] == x[0]);
    }
    assert(s[at + 1] == x[1]) by {
        assert(b[1] == x[1]);
    }
    assert(s[at + 2] == x[2]) by {
        assert(b[2] == x[2]);
    }
    assert(s[at + 3] == x[3]) by {
        assert(b[3] == x[3]);
    }
}

proof fn lemma_digits(n: int)
    requires
        0 <= n <= u32::MAX,
    ensures
        0 <= n / 16777216 < 256,
        n / 16777216 % 256 == n / 16777216,
        n < 0x8000_0000 ==> n / 16777216 < 128,
        n / 16777216 * 16777216 + n / 65536 % 256 * 65536 + n / 256 % 256 * 256 + n % 256 == n,
{
    let a = n / 256;
    let b = a / 256;
    assert(n == a * 256 + n % 256);
    assert(a == b * 256 + a % 256);
    assert(n / 65536 == b);
    assert(b == b / 256 * 256 + b % 256);
    assert(n / 16777216 == b / 256);
}

/// Nothing of a connection changes but what it does on every input: credit that it owes
/// is sent where it can be, and streams that nothing needs are dropped.
pub open spec fn idle(s: Sys) -> Sys {
    let g = s.generated();
    g.with_streams(model::live(g.c.streams))
}

/// A PING is answered with the same eight bytes and the ACK flag. One that is an answer
/// is taken in, and changes nothing.
pub proof fn pings_are_answered(s: Sys, data: Seq<u8>)
    requires
        expects(s, 6, 0),
        sized(s, 0, data),
        data.len() == 8,
        s.generated().io.send.len() + 17 <= s.lim.io,
    ensures
        ({
            let (t, r) = s.fed(raw(6, 0x0, 0, data));
            let (u, q) = s.fed(raw(6, 0x1, 0, data));
            &&& r == Ok::<(), Error>(())
            &&& t.io.send == s.generated().io.send + raw(6, 0x1, 0, data)
            &&& t.c == idle(s).c
            &&& q == Ok::<(), Error>(())
            &&& u.io.send == s.generated().io.send
            &&& u.c == idle(s).c
        }),
{
    reveal(Sys::on_frame);
    reveal(Sys::on_ping);
    assert(0u8 & 1u8 == 0 && 1u8 & 1u8 != 0) by (bit_vector);
    frames_are_laid_out(6, 0x0, 0, data);
    frames_are_laid_out(6, 0x1, 0, data);
    let f = raw(6, 0x0, 0, data);
    lemma_arrived(s, f, 0);
    lemma_arrived(s, raw(6, 0x1, 0, data), 0);
    lemma_one_frame(s, 6, 0x0, 0, data);
    lemma_one_frame(s, 6, 0x1, 0, data);
    let h = H2FrameHeader { length: 8, frame_type: 6, flags: 0, stream_id: 0 };
    assert(arrived(s, f).payload(h) =~= data);
}

/// A WINDOW_UPDATE gives the peer's credit for sending: to the connection, or to the
/// stream that it names. An increment of zero is a protocol error, and one that would
/// make a window too large is a flow control error.
pub proof fn credit_is_taken(s: Sys, id: u64, n: u32)
    requires
        expects(s, 8, id),
        sized(s, id, four_bytes(n as int)),
        n < 0x8000_0000,
    ensures
        ({
            let (t, r) = s.fed(raw(8, 0x0, id, four_bytes(n as int)));
            &&& n == 0 ==> r == Err::<(), Error>(model::protocol_error())
            &&& n > 0 && id == 0 ==> if s.c.send_window + n <= 0x7fff_ffff {
                &&& r == Ok::<(), Error>(())
                &&& t.c == (Conn { send_window: (s.c.send_window + n) as i32, ..idle(s).c })
            } else {
                r == Err::<(), Error>(model::flow_control_error())
            }
            &&& n > 0 && id > 0 ==> match model::find(s.c.streams, id) {
                Some(i) => if s.c.streams[i].send_window + n <= 0x7fff_ffff {
                    &&& r == Ok::<(), Error>(())
                    &&& t.c.send_window == s.c.send_window
                    &&& s.c.streams[i].live() ==> (model::find(t.c.streams, id) matches Some(k)
                        && t.c.streams[k].send_window == s.c.streams[i].send_window + n)
                } else {
                    r == Err::<(), Error>(model::flow_control_error())
                },
                None => r == Ok::<(), Error>(()) && t.c == idle(s).c,
            }
        }),
{
    let payload = four_bytes(n as int);
    let f = raw(8, 0x0, id, payload);
    let h = H2FrameHeader { length: 4, frame_type: 8, flags: 0, stream_id: id };
    frames_are_laid_out(8, 0x0, id, payload);
    lemma_arrived(s, f, id);
    lemma_one_frame(s, 8, 0x0, id, payload);
    let u = arrived(s, f);
    assert(f.subrange(9, 13) =~= f.skip(9));
    lemma_four_bytes(f, 9, n as int);
    reveal(Sys::on_frame);
    reveal(Sys::on_window_update);
    reveal(Sys::increment);
    model::find_bounds(s.c.streams, id);
    match model::find(s.c.streams, id) {
        Some(i) => {
            assert(model::same_but_credit(u.c.streams[i], s.c.streams[i]));
            let t = u.on_frame(h).0;
            if n > 0 && id > 0 && s.c.streams[i].send_window + n <= 0x7fff_ffff
                && s.c.streams[i].live() {
                model::find_bounds(u.c.streams, id);
                assert forall|j: int| 0 <= j < i implies (#[trigger] t.c.streams[j]).id != id by {
                    assert(t.c.streams[j] == u.c.streams[j]);
                }
                delivery::lemma_live_find(t.c.streams, id, i);
            }
        },
        None => {},
    }
}

/// A RST_STREAM closes its stream: the application is told with the code, and the body
/// that it had not read is gone.
pub proof fn resets_close_streams(s: Sys, id: u64, code: u32)
    requires
        expects(s, 3, id),
        sized(s, id, four_bytes(code as int)),
        id > 0,
    ensures
        ({
            let (t, r) = s.fed(raw(3, 0x0, id, four_bytes(code as int)));
            &&& r == Ok::<(), Error>(())
            &&& t.c.events == model::pushed(s.c.events, H2Event::StreamReset(id, code))
        }),
{
    let payload = four_bytes(code as int);
    let f = raw(3, 0x0, id, payload);
    frames_are_laid_out(3, 0x0, id, payload);
    lemma_arrived(s, f, id);
    lemma_one_frame(s, 3, 0x0, id, payload);
    let u = arrived(s, f);
    assert(f.subrange(9, 13) =~= f.skip(9));
    lemma_four_bytes(f, 9, code as int);
    reveal(Sys::on_frame);
    reveal(Sys::on_rst_stream);
    match model::find(u.c.streams, id) {
        Some(i) => {
            let st = u.c.streams[i];
            model::conn_credit_frame(
                u.with_stream(i, st.dropped()),
                super::stream::saturated(st.data.len() as int),
            );
        },
        None => {},
    }
}

/// A GOAWAY tells the application the last stream that the peer deals with and the
/// code, and the connection begins to close.
pub proof fn goaways_are_told(s: Sys, last: u64, code: u32, debug: Seq<u8>)
    requires
        expects(s, 7, 0),
        sized(s, 0, four_bytes(last as int) + four_bytes(code as int) + debug),
        last < 0x8000_0000,
    ensures
        ({
            let (t, r) = s.fed(
                raw(7, 0x0, 0, four_bytes(last as int) + four_bytes(code as int) + debug),
            );
            &&& r == Ok::<(), Error>(())
            &&& t.c.events == model::pushed(s.c.events, H2Event::GoAway(last, code))
            &&& t.c.state is Closing
        }),
{
    let payload = four_bytes(last as int) + four_bytes(code as int) + debug;
    let f = raw(7, 0x0, 0, payload);
    frames_are_laid_out(7, 0x0, 0, payload);
    lemma_arrived(s, f, 0);
    lemma_one_frame(s, 7, 0x0, 0, payload);
    assert(f.skip(9) == payload);
    assert(f.subrange(9, 13) =~= payload.subrange(0, 4));
    assert(f.subrange(13, 17) =~= payload.subrange(4, 8));
    assert(payload.subrange(0, 4) =~= four_bytes(last as int));
    assert(payload.subrange(4, 8) =~= four_bytes(code as int));
    lemma_four_bytes(f, 9, last as int);
    lemma_four_bytes(f, 13, code as int);
    reveal(Sys::on_frame);
    reveal(Sys::on_goaway);
}

/// Frames of other types, PRIORITY and PUSH_PROMISE among them, are passed over.
pub proof fn other_frames_are_passed_over(s: Sys, ty: u8, flags: u8, id: u64, payload: Seq<u8>)
    requires
        expects(s, ty, id),
        sized(s, id, payload),
        ty == 2 || ty == 5 || ty > 9,
    ensures
        ({
            let (t, r) = s.fed(raw(ty, flags, id, payload));
            &&& r == Ok::<(), Error>(())
            &&& t.c == idle(s).c
            &&& t.io.send == s.generated().io.send
            &&& t.io.recv.len() == 0
        }),
{
    frames_are_laid_out(ty, flags, id, payload);
    lemma_arrived(s, raw(ty, flags, id, payload), id);
    lemma_one_frame(s, ty, flags, id, payload);
    reveal(Sys::on_frame);
}

/// Frames that belong to a stream are refused without one, and frames that belong to
/// the connection are refused on a stream.
pub proof fn misplaced_frames_are_refused(s: Sys, ty: u8, flags: u8, id: u64, payload: Seq<u8>)
    requires
        expects(s, ty, id),
        sized(s, id, payload),
        ((ty == 1 || ty == 3 || ty == 9) && id == 0) || ((ty == 4 || ty == 6 || ty == 7) && id > 0),
    ensures
        s.fed(raw(ty, flags, id, payload)).1 is Err,
        ty == 1 || ty == 9 || ty == 4 || ty == 6 ==> s.fed(raw(ty, flags, id, payload)).1 == Err::<
            (),
            Error,
        >(model::protocol_error()),
{
    frames_are_laid_out(ty, flags, id, payload);
    lemma_arrived(s, raw(ty, flags, id, payload), id);
    lemma_one_frame(s, ty, flags, id, payload);
    reveal(Sys::on_frame);
    reveal(Sys::on_headers);
    reveal(Sys::headers_verdict);
    reveal(Sys::on_continuation);
    reveal(Sys::on_rst_stream);
    reveal(Sys::on_settings);
    reveal(Sys::on_ping);
    reveal(Sys::on_goaway);
}

// ---------------------------------------------------------------------------
// Settings
// ---------------------------------------------------------------------------

/// The peer's settings are acknowledged with an empty SETTINGS frame with the ACK flag,
/// and take effect: the send window of every stream moves by as much as the initial
/// window does. The first of them make the connection active, and the application is
/// told.
pub proof fn settings_are_acknowledged(s: Sys, payload: Seq<u8>)
    requires
        expects(s, 4, 0),
        sized(s, 0, payload),
        s.generated().io.send.len() + 9 <= s.lim.io,
        s.c.peer.with_payload(payload).1 is Ok,
        forall|i: int|
            0 <= i < s.c.streams.len() ==> i32::MIN <= (#[trigger] s.c.streams[i]).send_window
                + s.c.peer.with_payload(payload).0.initial_window_size
                - s.c.peer.initial_window_size <= 0x7fff_ffff,
    ensures
        ({
            let (t, r) = s.fed(raw(4, 0x0, 0, payload));
            let peer = s.c.peer.with_payload(payload).0;
            let waited = s.c.state is WaitingPreface || s.c.state is WaitingSettings;
            &&& r == Ok::<(), Error>(())
            &&& t.io.send == s.generated().io.send + raw(4, 0x1, 0, Seq::empty())
            &&& t.c.peer == peer
            &&& t.c.peer_settings_received
            &&& t.c.state == if waited {
                H2ConnState::Active
            } else {
                s.c.state
            }
            &&& t.c.events == if waited {
                model::pushed(s.c.events, H2Event::Connected)
            } else {
                s.c.events
            }
            &&& t.c.send_window == s.c.send_window
        }),
        forall|id: u64, i: int| #[trigger]
            model::find(s.c.streams, id) == Some(i) && (#[trigger] s.c.streams[i]).live() ==> ({
                let t = s.fed(raw(4, 0x0, 0, payload)).0;
                model::find(t.c.streams, id) matches Some(k) && t.c.streams[k].send_window
                    == s.c.streams[i].send_window + s.c.peer.with_payload(
                    payload,
                ).0.initial_window_size - s.c.peer.initial_window_size
            }),
{
    let f = raw(4, 0x0, 0, payload);
    let h = H2FrameHeader {
        length: payload.len() as u32,
        frame_type: 4,
        flags: 0,
        stream_id: 0,
    };
    assert(0u8 & 1u8 == 0) by (bit_vector);
    frames_are_laid_out(4, 0x0, 0, payload);
    frames_are_laid_out(4, 0x1, 0, Seq::empty());
    lemma_arrived(s, f, 0);
    lemma_one_frame(s, 4, 0x0, 0, payload);
    let u = arrived(s, f);
    assert(u.payload(h) =~= payload);
    reveal(Sys::on_frame);
    reveal(Sys::on_settings);
    let delta = s.c.peer.with_payload(payload).0.initial_window_size
        - s.c.peer.initial_window_size;
    let t = u.on_frame(h).0;
    assert forall|i: int| 0 <= i < u.c.streams.len() implies i32::MIN <= (
    #[trigger] u.c.streams[i]).send_window + delta <= i32::MAX by {
        assert(model::same_but_credit(u.c.streams[i], s.c.streams[i]));
        assert(s.c.streams[i].send_window == u.c.streams[i].send_window);
    }
    lemma_windows_moved(u.c.streams, delta, 0);
    assert forall|id: u64, i: int| #[trigger]
        model::find(s.c.streams, id) == Some(i) && (
        #[trigger] s.c.streams[i]).live() implies model::find(
        settled(t).c.streams,
        id,
    ) matches Some(k) && settled(t).c.streams[k].send_window == s.c.streams[i].send_window + delta by {
        lemma_arrived(s, f, id);
        model::find_bounds(s.c.streams, id);
        model::find_bounds(u.c.streams, id);
        assert(model::same_but_credit(u.c.streams[i], s.c.streams[i]));
        assert forall|j: int| 0 <= j < i implies (#[trigger] t.c.streams[j]).id != id by {
            assert(t.c.streams[j].id == u.c.streams[j].id);
        }
        delivery::lemma_live_find(t.c.streams, id, i);
    }
}

proof fn lemma_windows_moved(ss: Seq<StreamModel>, delta: int, i: int)
    requires
        0 <= i,
        forall|j: int|
            i <= j < ss.len() ==> i32::MIN <= (#[trigger] ss[j]).send_window + delta <= i32::MAX,
    ensures
        ({
            let (tt, r) = model::windows_moved(ss, delta, i);
            &&& r == Ok::<(), Error>(())
            &&& tt.len() == ss.len()
            &&& forall|j: int| 0 <= j < i && j < ss.len() ==> #[trigger] tt[j] == ss[j]
            &&& forall|j: int|
                i <= j < ss.len() ==> #[trigger] tt[j] == (StreamModel {
                    send_window: (ss[j].send_window + delta) as i32,
                    ..ss[j]
                })
        }),
    decreases ss.len() - i,
{
    if i < ss.len() {
        let w = (ss[i].send_window + delta) as i32;
        let rest = ss.update(i, StreamModel { send_window: w, ..ss[i] });
        assert forall|j: int| i + 1 <= j < rest.len() implies i32::MIN <= (
        #[trigger] rest[j]).send_window + delta <= i32::MAX by {
            assert(rest[j] == ss[j]);
        }
        lemma_windows_moved(rest, delta, i + 1);
        let tt = model::windows_moved(ss, delta, i).0;
        assert forall|j: int| i <= j < ss.len() implies #[trigger] tt[j] == (StreamModel {
            send_window: (ss[j].send_window + delta) as i32,
            ..ss[j]
        }) by {
            if j > i {
                assert(rest[j] == ss[j]);
            } else {
                assert(tt[j] == rest[j]);
            }
        }
    }
}

// ---------------------------------------------------------------------------
// Bodies
// ---------------------------------------------------------------------------

/// The padding of a payload.
pub open spec fn padding(pad: Option<Seq<u8>>) -> Seq<u8> {
    match pad {
        Some(z) => z,
        None => Seq::empty(),
    }
}

/// The header of a DATA frame that is there whole is read: its data and its padding are
/// what is left.
proof fn lemma_data_read(
    u: Sys,
    id: u64,
    pad: Option<Seq<u8>>,
    d: Seq<u8>,
    end: bool,
)
    requires
        u.io.recv == raw(0, headers_flags(end, false, pad is Some, false), id, padded(pad, d)),
        u.c.partial is None,
        u.c.continuation is None,
        0 < id < 0x8000_0000,
        pad matches Some(z) ==> z.len() <= 255,
        padded(pad, d).len() < 0x100_0000,
        padded(pad, d).len() <= u.c.local.max_frame_size,
        d.len() <= u.c.recv_window,
        model::find(u.c.streams, id) matches Some(i) && (u.c.settings_ack_received ==> d.len()
            <= u.c.streams[i].recv_window),
    ensures
        u.round() matches Round::Next(v) && v.io.recv == d + padding(pad) && v.c.streams
            == u.c.streams && v.c.events == u.c.events && v.c.continuation is None && v.lim == u.lim
            && v.c.table == u.c.table && v.c.recv_window == u.c.recv_window - d.len()
            && v.c.partial == Some(
            PartialData {
                stream_id: id,
                end_stream: end,
                data_remaining: d.len() as usize,
                pad_remaining: padding(pad).len() as usize,
                deliver: true,
            },
        ),
{
    let payload = padded(pad, d);
    let flags = headers_flags(end, false, pad is Some, false);
    let f = raw(0, flags, id, payload);
    frames_are_laid_out(0, flags, id, payload);
    lemma_headers_flags(end, false, pad is Some, false);
    reveal(Sys::data_verdict);
    reveal(model::unpadded);
    assert(pad is Some ==> f[9] == f.skip(9)[0]);
    match pad {
        Some(z) => {
            assert(f.skip(9) == seq![z.len() as u8] + d + z);
            assert(f.skip(10) =~= f.skip(9).skip(1));
            assert(f.skip(10) =~= d + z);
        },
        None => {
            assert(f.skip(9) =~= d + padding(pad));
        },
    }
}

/// Data that is there whole, and that its stream has room for, goes to the stream, and
/// its padding nowhere.
pub(crate) proof fn lemma_data_taken(v: Sys, id: u64, z: Seq<u8>, d: Seq<u8>, end: bool, i: int)
    requires
        v.io.recv == d + z,
        v.c.partial == Some(
            PartialData {
                stream_id: id,
                end_stream: end,
                data_remaining: d.len() as usize,
                pad_remaining: z.len() as usize,
                deliver: true,
            },
        ),
        d.len() < 0x100_0000,
        z.len() <= 255,
        model::find(v.c.streams, id) == Some(i),
        v.c.streams[i].data.len() + d.len() <= v.lim.data,
    ensures
        v.round() matches Round::Next(w) && w.io.recv.len() == 0 && w.c.partial is None
            && w.c.streams.len() == v.c.streams.len() && model::find(w.c.streams, id) == Some(i)
            && w.c.continuation == v.c.continuation && w.c.streams[i].data == v.c.streams[i].data + d
            && w.c.streams[i].data_available && w.c.streams[i].fin_received == (
        v.c.streams[i].fin_received || end) && w.c.events == {
            let e = if d.len() > 0 {
                model::pushed(v.c.events, H2Event::Data(id))
            } else {
                v.c.events
            };
            if end {
                model::pushed(e, H2Event::Finished(id))
            } else {
                e
            }
        },
{
    reveal(Sys::pump_step);
    reveal(Sys::stream_data_ended);
    model::find_bounds(v.c.streams, id);
    let n = d.len() as int;
    let pd = v.c.partial->0;
    let (s, pd1) = v.payload_pumped(pd);
    assert((d + z).take(n) =~= d);
    assert((d + z).skip(n) =~= z);
    assert(s.c.streams[i].data =~= v.c.streams[i].data + d);
    assert(n == 0 ==> s == v);
    assert(s.io.recv =~= z);
    assert(pd1.data_remaining == 0);
    let (t, pd2) = s.padding_pumped(pd1);
    assert(t.io.recv =~= Seq::<u8>::empty());
    assert(pd2.pad_remaining == 0);
    assert(t.c == s.c);
    assert(s.c.streams[i].id == id);
    assert forall|j: int| 0 <= j < i implies (#[trigger] s.c.streams[j]).id != id by {
        assert(s.c.streams[j] == v.c.streams[j]);
    }
    delivery::lemma_find_of(s.c.streams, id, i);
    let w = v.pumped();
    assert(w.c.streams == s.c.streams.update(i, s.c.streams[i].data_ended(end)));
    assert forall|j: int| 0 <= j < i implies (#[trigger] w.c.streams[j]).id != id by {
        assert(w.c.streams[j] == s.c.streams[j]);
    }
    delivery::lemma_find_of(w.c.streams, id, i);
}

/// A DATA frame is read, with padding or without: the application is told of it, and
/// reads its data, and that alone, behind what it had not read yet. END_STREAM is the
/// end of the stream.
pub proof fn data_frames_are_read(
    s: Sys,
    id: u64,
    pad: Option<Seq<u8>>,
    d: Seq<u8>,
    end: bool,
    room: int,
)
    requires
        expects(s, 0, id),
        sized(s, id, padded(pad, d)),
        pad matches Some(z) ==> z.len() <= 255,
        0 < id,
        delivery::accepts_data(s, id, d),
        s.c.streams[model::find(s.c.streams, id)->0].data.len() + d.len() <= room <= usize::MAX,
    ensures
        ({
            let st = s.c.streams[model::find(s.c.streams, id)->0];
            let all = st.data + d;
            let flags = headers_flags(end, false, pad is Some, false);
            let (t, r) = s.fed(raw(0, flags, id, padded(pad, d)));
            &&& r == Ok::<(), Error>(())
            &&& d.len() > 0 ==> t.c.events.contains(H2Event::Data(id))
            &&& end ==> t.c.events.contains(H2Event::Finished(id))
            &&& all.len() > 0 ==> t.body_received(id, room).1 == all
            &&& all.len() > 0 ==> t.body_received(id, room).2 == Ok::<(usize, bool), Error>(
                (all.len() as usize, st.fin_received || end),
            )
            &&& all.len() == 0 && end ==> t.body_received(id, room).2 == Ok::<
                (usize, bool),
                Error,
            >((0usize, true))
        }),
{
    let flags = headers_flags(end, false, pad is Some, false);
    let payload = padded(pad, d);
    let f = raw(0, flags, id, payload);
    delivery::generating_keeps_the_rest(s);
    let g = s.generated();
    let u = arrived(s, f);
    lemma_arrived(s, f, id);
    assert(g.io.recv + f =~= f);
    assert(Sys { io: Wire { recv: g.io.recv + f, ..g.io }, ..g } == u);
    frames_are_laid_out(0, flags, id, payload);
    let i = model::find(s.c.streams, id)->0;
    model::find_bounds(s.c.streams, id);
    assert(model::same_but_credit(u.c.streams[i], s.c.streams[i]));
    lemma_data_read(u, id, pad, d, end);
    let v = u.round()->Next_0;
    lemma_data_taken(v, id, padding(pad), d, end, i);
    let w = v.round()->Next_0;
    assert(w.round() == Round::Stop(w));
    model::round_makes_progress(u);
    model::round_makes_progress(v);
    assert(w.rounds() == (w, Ok::<(), Error>(())));
    assert(v.rounds() == (w, Ok::<(), Error>(())));
    assert(u.rounds() == (w, Ok::<(), Error>(())));
    model::find_bounds(w.c.streams, id);
    delivery::lemma_live_find(w.c.streams, id, i);
    let done = w.with_streams(model::live(w.c.streams));
    assert(s.fed(f) == (done, Ok::<(), Error>(())));
    let k = model::find(done.c.streams, id)->0;
    let data = done.c.streams[k].data;
    assert(data.take(data.len() as int) =~= data);
    lemma_told(u.c.events, H2Event::Data(id), H2Event::Finished(id));
    lemma_told(u.c.events, H2Event::Finished(id), H2Event::Finished(id));
}

} // verus!
