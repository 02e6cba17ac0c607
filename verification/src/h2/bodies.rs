//! Bodies that arrive in pieces, and the frames that are sent.

use vstd::prelude::*;

use super::connection::{H2ConnState, H2Event, PartialData};
use super::delivery;
use super::frame;
use super::frame::H2FrameHeader;
use super::model;
use super::model::{Round, Sys};
use super::wire;
use super::wire::{arrived, four_bytes, headers_flags, raw};
use crate::bytes;
use crate::bytes::Field;
use crate::error::Error;
use crate::hpack::codec;
use crate::io::Wire;

verus! {

// ---------------------------------------------------------------------------
// Bodies
// ---------------------------------------------------------------------------

/// The stream has all of these bytes to be read, and no others.
pub open spec fn holds(s: Sys, id: u64, data: Seq<u8>) -> bool {
    model::find(s.c.streams, id) matches Some(k) && s.c.streams[k].data == data
}

/// More of a DATA frame is to come for a stream that is there.
pub open spec fn awaits_data(s: Sys, pd: PartialData, i: int) -> bool {
    &&& s.c.partial == Some(pd)
    &&& pd.deliver
    &&& model::find(s.c.streams, pd.stream_id) == Some(i)
    &&& s.c.role is Client || s.c.preface_validated
}

proof fn lemma_piece_taken(u: Sys, pd: PartialData, i: int, n: int)
    requires
        u.c.partial == Some(pd),
        pd.deliver,
        model::find(u.c.streams, pd.stream_id) == Some(i),
        u.io.recv.len() < pd.data_remaining,
        n == model::smaller(u.io.recv.len() as int, u.lim.data - u.c.streams[i].data.len()),
        n > 0,
    ensures
        u.round() matches Round::Stop(v) && v.io.recv == u.io.recv.skip(n) && v.c.partial == Some(
            PartialData { data_remaining: (pd.data_remaining - n) as usize, ..pd },
        ) && v.c.streams == u.c.streams.update(
            i,
            u.c.streams[i].delivered(u.io.recv.take(n)),
        ) && v.c.events == model::pushed(u.c.events, H2Event::Data(pd.stream_id)),
{
    reveal(Sys::pump_step);
    model::find_bounds(u.c.streams, pd.stream_id);
}

/// What has come of a DATA frame goes to its stream at once, behind what is there, as far
/// as there is room for it; the rest stays with what was received. The application is
/// told, and more of the frame is waited for.
pub proof fn data_comes_in_pieces(s: Sys, pd: PartialData, i: int, d: Seq<u8>, n: int)
    requires
        awaits_data(s, pd, i),
        s.io.recv.len() == 0,
        d.len() <= s.lim.io,
        d.len() < pd.data_remaining,
        n == model::smaller(d.len() as int, s.lim.data - s.c.streams[i].data.len()),
        n > 0,
    ensures
        ({
            let (t, r) = s.fed(d);
            &&& r == Ok::<(), Error>(())
            &&& holds(t, pd.stream_id, s.c.streams[i].data + d.take(n))
            &&& t.io.recv == d.skip(n)
            &&& t.c.partial == Some(
                PartialData { data_remaining: (pd.data_remaining - n) as usize, ..pd },
            )
            &&& t.c.events == model::pushed(s.c.events, H2Event::Data(pd.stream_id))
        }),
{
    let id = pd.stream_id;
    delivery::generating_keeps_the_rest(s);
    let g = s.generated();
    let u = arrived(s, d);
    wire::lemma_arrived(s, d, id);
    assert(g.io.recv + d =~= d);
    assert(Sys { io: Wire { recv: g.io.recv + d, ..g.io }, ..g } == u);
    model::find_bounds(s.c.streams, id);
    assert(model::same_but_credit(u.c.streams[i], s.c.streams[i]));
    lemma_piece_taken(u, pd, i, n);
    model::round_makes_progress(u);
    let v = u.round()->Stop_0;
    assert(u.rounds() == (v, Ok::<(), Error>(())));
    model::find_bounds(u.c.streams, id);
    assert forall|j: int| 0 <= j < i implies (#[trigger] v.c.streams[j]).id != id by {
        assert(v.c.streams[j] == u.c.streams[j]);
    }
    delivery::lemma_live_find(v.c.streams, id, i);
    assert(s.fed(d) == (v.with_streams(model::live(v.c.streams)), Ok::<(), Error>(())));
}

/// With the last of its payload a DATA frame is over: the payload is behind what was
/// there, and the stream has ended where the frame said so.
pub proof fn data_comes_to_its_end(s: Sys, pd: PartialData, i: int, d: Seq<u8>)
    requires
        awaits_data(s, pd, i),
        s.io.recv.len() == 0,
        0 < d.len() <= s.lim.io,
        d.len() == pd.data_remaining,
        d.len() < 0x100_0000,
        pd.pad_remaining == 0,
        s.c.continuation is None,
        s.c.streams[i].data.len() + d.len() <= s.lim.data,
    ensures
        ({
            let (t, r) = s.fed(d);
            let told = model::pushed(s.c.events, H2Event::Data(pd.stream_id));
            &&& r == Ok::<(), Error>(())
            &&& holds(t, pd.stream_id, s.c.streams[i].data + d)
            &&& t.io.recv.len() == 0
            &&& t.c.partial is None
            &&& t.c.events == if pd.end_stream {
                model::pushed(told, H2Event::Finished(pd.stream_id))
            } else {
                told
            }
        }),
{
    let id = pd.stream_id;
    delivery::generating_keeps_the_rest(s);
    let g = s.generated();
    let u = arrived(s, d);
    wire::lemma_arrived(s, d, id);
    assert(g.io.recv + d =~= d);
    assert(Sys { io: Wire { recv: g.io.recv + d, ..g.io }, ..g } == u);
    model::find_bounds(s.c.streams, id);
    assert(model::same_but_credit(u.c.streams[i], s.c.streams[i]));
    assert(d + Seq::<u8>::empty() =~= d);
    wire::lemma_data_taken(u, id, Seq::empty(), d, pd.end_stream, i);
    let w = u.round()->Next_0;
    assert(w.round() == Round::Stop(w));
    model::round_makes_progress(u);
    assert(w.rounds() == (w, Ok::<(), Error>(())));
    assert(u.rounds() == (w, Ok::<(), Error>(())));
    model::find_bounds(w.c.streams, id);
    delivery::lemma_live_find(w.c.streams, id, i);
    assert(s.fed(d) == (w.with_streams(model::live(w.c.streams)), Ok::<(), Error>(())));
}

/// A DATA frame may begin with a part of its payload: that part goes to its stream, and
/// the rest is waited for.
pub proof fn data_frames_may_begin(s: Sys, id: u64, payload: Seq<u8>, end: bool, k: int)
    requires
        wire::expects(s, 0, id),
        wire::sized(s, id, payload),
        0 < id,
        0 < k < payload.len(),
        delivery::accepts_data(s, id, payload),
    ensures
        ({
            let f = raw(0, if end {
                1u8
            } else {
                0u8
            }, id, payload);
            let (t, r) = s.fed(f.take(9 + k));
            let i = model::find(s.c.streams, id)->0;
            &&& r == Ok::<(), Error>(())
            &&& holds(t, id, s.c.streams[i].data + payload.take(k))
            &&& t.io.recv.len() == 0
            &&& t.c.partial == Some(
                PartialData {
                    stream_id: id,
                    end_stream: end,
                    data_remaining: (payload.len() - k) as usize,
                    pad_remaining: 0,
                    deliver: true,
                },
            )
            &&& t.c.events == model::pushed(s.c.events, H2Event::Data(id))
        }),
{
    let flags = if end {
        1u8
    } else {
        0u8
    };
    let f = raw(0, flags, id, payload);
    let d = f.take(9 + k);
    let h = H2FrameHeader {
        length: payload.len() as u32,
        frame_type: 0,
        flags,
        stream_id: id,
    };
    wire::frames_are_laid_out(0, flags, id, payload);
    delivery::generating_keeps_the_rest(s);
    let g = s.generated();
    let u = arrived(s, d);
    wire::lemma_arrived(s, d, id);
    assert(g.io.recv + d =~= d);
    assert(Sys { io: Wire { recv: g.io.recv + d, ..g.io }, ..g } == u);
    let i = model::find(s.c.streams, id)->0;
    model::find_bounds(s.c.streams, id);
    assert(model::same_but_credit(u.c.streams[i], s.c.streams[i]));
    assert(frame::header_at(d) == frame::header_at(f));
    assert(1u8 & 8u8 == 0 && 0u8 & 8u8 == 0 && 1u8 & 1u8 == 1 && 0u8 & 1u8 == 0) by (bit_vector);
    let pd = PartialData {
        stream_id: id,
        end_stream: end,
        data_remaining: payload.len() as usize,
        pad_remaining: 0,
        deliver: true,
    };
    assert(u.round() matches Round::Next(v) && v.c.partial == Some(pd) && v.io.recv == d.skip(9)
        && v.c.streams == u.c.streams && v.c.events == u.c.events && v.lim == u.lim) by {
        reveal(Sys::data_verdict);
        reveal(model::unpadded);
    }
    let v = u.round()->Next_0;
    assert(d.skip(9) =~= payload.take(k)) by {
        assert(f.skip(9) == payload);
        assert forall|j: int| 0 <= j < k implies d.skip(9)[j] == payload.take(k)[j] by {
            assert(d.skip(9)[j] == f.skip(9)[j]);
        }
    }
    lemma_piece_taken(v, pd, i, k);
    let w = v.round()->Stop_0;
    assert(v.io.recv.take(k) =~= payload.take(k));
    assert(v.io.recv.skip(k) =~= Seq::<u8>::empty());
    model::round_makes_progress(u);
    model::round_makes_progress(v);
    assert(v.rounds() == (w, Ok::<(), Error>(())));
    assert(u.rounds() == (w, Ok::<(), Error>(())));
    model::find_bounds(u.c.streams, id);
    assert forall|j: int| 0 <= j < i implies (#[trigger] w.c.streams[j]).id != id by {
        assert(w.c.streams[j] == u.c.streams[j]);
    }
    delivery::lemma_live_find(w.c.streams, id, i);
    assert(s.fed(d) == (w.with_streams(model::live(w.c.streams)), Ok::<(), Error>(())));
}

// ---------------------------------------------------------------------------
// Frames that are sent
// ---------------------------------------------------------------------------

proof fn lemma_number(n: u32)
    ensures
        bytes::be32(n) == four_bytes(n as int),
        four_bytes(n as int).len() == 4,
{
    let a = four_bytes(n as int);
    let b = bytes::be32(n);
    assert(n as int / 16777216 % 256 == n as int / 16777216);
    assert(a.len() == 4 && b.len() == 4 && a[0] == b[0] && a[1] == b[1] && a[2] == b[2] && a[3]
        == b[3]);
    assert(a =~= b);
}

/// Headers go out in one HEADERS frame on their stream, with END_HEADERS, and with
/// END_STREAM where this is the end of the stream and nowhere else.
pub proof fn headers_are_sent_in_one_frame(s: Sys, id: u64, fs: Seq<Field>, end: bool)
    requires
        s.headers_sent(id, fs, end).1 is Ok,
        s.lim.io <= usize::MAX,
        id < 0x8000_0000,
        codec::block(fs).len() < 0x100_0000,
    ensures
        s.headers_sent(id, fs, end).0.io.send == s.ensured(id).0.io.send + raw(
            1,
            headers_flags(end, true, false, false),
            id,
            codec::block(fs),
        ),
{
    delivery::sent_headers_are_the_frame(s, id, fs, end);
    let flags = headers_flags(end, true, false, false);
    assert(1u8 | 4u8 == 5u8 && 0u8 | 4u8 == 4u8) by (bit_vector);
    assert(1u8 | 4u8 | 0u8 | 0u8 == 5u8 && 0u8 | 4u8 | 0u8 | 0u8 == 4u8) by (bit_vector);
    wire::frames_are_laid_out(1, flags, id, codec::block(fs));
}

/// A stream is opened with the next identifier of this end, and its headers go out on it;
/// the one after that is two more. There are none above 2^31 - 1.
pub proof fn streams_are_opened(s: Sys, fs: Seq<Field>, end: bool)
    ensures
        ({
            let id = s.c.next_stream_id;
            let (t, r) = s.stream_opened(fs, end);
            if id > 2147483647 {
                t == s && r == Err::<u64, Error>(Error::StreamLimitExhausted)
            } else {
                let (u, q) = Sys {
                    c: model::Conn { next_stream_id: (id + 2) as u64, ..s.c },
                    ..s
                }.headers_sent(id, fs, end);
                &&& t == u
                &&& r is Ok <==> q is Ok
                &&& r is Ok ==> r->Ok_0 == id
            }
        }),
{
}

/// A GOAWAY frame says which stream of the peer was the last that was seen, and the error
/// code that was given.
pub proof fn goaways_are_sent(s: Sys, code: u32)
    requires
        s.io.send.len() + 17 <= s.lim.io,
        s.c.last_peer_stream_id < 0x8000_0000,
    ensures
        ({
            let (t, r) = s.goaway_sent(code);
            &&& r == Ok::<(), Error>(())
            &&& t.io.send == s.io.send + raw(
                7,
                0,
                0,
                four_bytes(s.c.last_peer_stream_id as int) + four_bytes(code as int),
            )
            &&& t.c.goaway_sent
            &&& t.c.state == H2ConnState::Closing
        }),
{
    let p = four_bytes(s.c.last_peer_stream_id as int) + four_bytes(code as int);
    lemma_number(s.c.last_peer_stream_id as u32);
    lemma_number(code);
    wire::frames_are_laid_out(7, 0, 0, p);
    assert(p + Seq::<u8>::empty() =~= p);
}

proof fn lemma_credit_frame(id: u64, n: u32)
    requires
        n < 0x8000_0000,
        id < 0x8000_0000,
    ensures
        frame::window_update_frame(id, n) == raw(8, 0, id, four_bytes(n as int)),
        raw(8, 0, id, four_bytes(n as int)).len() == 13,
{
    lemma_number(n);
    wire::frames_are_laid_out(8, 0, id, four_bytes(n as int));
    assert(n % 0x8000_0000u32 == n);
}

/// Credit of a stream goes out in a WINDOW_UPDATE frame on that stream that says how much
/// it is, and the window of the stream grows by as much.
pub proof fn stream_credit_is_sent(s: Sys, i: int)
    requires
        0 <= i < s.c.streams.len(),
        0 < s.c.streams[i].pending < 0x8000_0000,
        s.c.streams[i].id < 0x8000_0000,
        s.io.send.len() + 13 <= s.lim.io,
        s.c.streams[i].recv_window + s.c.streams[i].pending <= 0x7fff_ffff,
    ensures
        ({
            let a = s.c.streams[i];
            let t = s.flush_stream(i);
            let b = t.c.streams[i];
            &&& t.io.send == s.io.send + raw(8, 0, a.id, four_bytes(a.pending as int))
            &&& b.recv_window == a.recv_window + a.pending
            &&& b.pending == 0
            &&& b.data == a.data
        }),
{
    let a = s.c.streams[i];
    lemma_credit_frame(a.id, a.pending);
    let f = raw(8, 0, a.id, four_bytes(a.pending as int));
    assert(f.len() == 13);
    assert(s.flush_stream(i) == s.queued(f).with_stream(i, a.credit_sent()));
    assert(s.queued(f).io.send == s.io.send + f);
}

} // verus!
