//! How a connection begins, and how frames are found in the bytes that arrive.

use vstd::prelude::*;

use super::connection::CONNECTION_PREFACE;
use super::delivery;
use super::frame;
use super::model;
use super::model::{Conn, Round, Sys};
use super::parameters;
use super::wire;
use super::wire::{four_bytes, holding, raw};
use crate::error::{Error, H2Error};

verus! {

/// `PRI * HTTP/2.0`, an empty line, `SM`, an empty line.
pub open spec fn preface() -> Seq<u8> {
    seq![
        0x50u8, 0x52, 0x49, 0x20, 0x2a, 0x20, 0x48, 0x54, 0x54, 0x50, 0x2f, 0x32, 0x2e, 0x30,
        0x0d, 0x0a, 0x0d, 0x0a, 0x53, 0x4d, 0x0d, 0x0a, 0x0d, 0x0a,
    ]
}

proof fn lemma_preface()
    ensures
        CONNECTION_PREFACE@ == preface(),
        preface().len() == 24,
{
    assert(CONNECTION_PREFACE@ =~= preface());
}

/// There is no credit to send.
pub open spec fn owes_nothing(s: Sys) -> bool {
    s.c.pending == 0 && s.c.streams.len() == 0
}

/// A client begins with its preface, and then, as a server does, announces its settings
/// in a SETTINGS frame. It does so once.
pub proof fn connections_begin(s: Sys)
    requires
        !s.c.preface_sent,
        owes_nothing(s),
        s.io.send.len() + 24 + 9 + 36 <= s.lim.io,
    ensures
        ({
            let t = s.generated();
            &&& t.io.send == s.io.send + (if s.c.role is Client {
                preface()
            } else {
                Seq::empty()
            }) + raw(4, 0, 0, s.c.local.payload())
            &&& t.io.recv == s.io.recv
            &&& t.c.settings_sent
            &&& t.c.preface_sent
            &&& t.generated() == t
        }),
{
    reveal(Sys::generated);
    reveal(Sys::flushed);
    lemma_preface();
    parameters::settings_are_laid_out(s.c.local);
    wire::frames_are_laid_out(4, 0, 0, s.c.local.payload());
    assert(s.io.send + Seq::<u8>::empty() =~= s.io.send);
}

// ---------------------------------------------------------------------------
// Prefaces
// ---------------------------------------------------------------------------

/// A server that waits for the preface, of which so much was read.
pub open spec fn awaits_preface(s: Sys, seen: int) -> bool {
    &&& s.c.role is Server
    &&& !s.c.preface_validated
    &&& s.c.preface_bytes_seen == seen
    &&& s.io.recv.len() == 0
    &&& 0 <= seen < 24
}

/// The server when the preface has been read.
pub open spec fn past_preface(s: Sys) -> Sys {
    Sys { c: Conn { preface_validated: true, preface_bytes_seen: 24, ..s.c }, ..s }
}

proof fn lemma_generated_past(s: Sys)
    ensures
        past_preface(s).generated() == past_preface(s.generated()),
{
    reveal(Sys::generated);
    if s.c.preface_sent {
        lemma_flushed_past(s);
    } else {
        let p = s.preface_queued().settings_queued();
        lemma_settings_past(s);
        let x = Sys { c: Conn { preface_sent: true, ..p.c }, ..p };
        let q = past_preface(p);
        assert(past_preface(x) == (Sys { c: Conn { preface_sent: true, ..q.c }, ..q }));
        lemma_flushed_past(x);
    }
}

proof fn lemma_settings_past(s: Sys)
    ensures
        past_preface(s).preface_queued().settings_queued() == past_preface(
            s.preface_queued().settings_queued(),
        ),
{
    assert(past_preface(s).preface_queued() == past_preface(s.preface_queued()));
    let p = s.preface_queued();
    assert(past_preface(p).settings_queued() == past_preface(p.settings_queued()));
}

proof fn lemma_flushed_past(s: Sys)
    ensures
        past_preface(s).flushed() == past_preface(s.flushed()),
{
    reveal(Sys::flushed);
    assert(past_preface(s).flush_conn() == past_preface(s.flush_conn()));
    lemma_flush_past(s.flush_conn(), 0);
}

proof fn lemma_flush_past(s: Sys, i: int)
    ensures
        past_preface(s).flush_from(i) == past_preface(s.flush_from(i)),
    decreases s.c.streams.len() - i,
{
    if 0 <= i < s.c.streams.len() {
        assert(past_preface(s).flush_stream(i) == past_preface(s.flush_stream(i)));
        lemma_flush_past(s.flush_stream(i), i + 1);
    }
}

/// The rest of the preface is read and then the frames behind it, as if they had come
/// alone.
pub proof fn prefaces_are_read(s: Sys, seen: int, rest: Seq<u8>)
    requires
        awaits_preface(s, seen),
        24 - seen + rest.len() <= s.lim.io,
    ensures
        s.fed(preface().skip(seen) + rest) == past_preface(s).fed(rest),
{
    lemma_preface();
    delivery::generating_keeps_the_rest(s);
    let g = s.generated();
    let d = preface().skip(seen) + rest;
    let x = Sys { io: crate::io::Wire { recv: g.io.recv + d, ..g.io }, ..g };
    assert(g.io.recv + d =~= d);
    let n = 24 - seen;
    assert(d.take(n) =~= CONNECTION_PREFACE@.subrange(seen, 24));
    assert(d.skip(n) =~= rest);
    lemma_generated_past(s);
    let y = past_preface(g);
    assert(y.io.recv + rest =~= rest);
    assert(x.preface_checked() == (holding(y, rest), Ok::<(), Error>(())));
}

/// The preface may come in pieces: a piece is read, and the rest is waited for.
pub proof fn prefaces_may_come_in_pieces(s: Sys, seen: int, n: int)
    requires
        awaits_preface(s, seen),
        0 <= n < 24 - seen,
        n <= s.lim.io,
    ensures
        ({
            let (t, r) = s.fed(preface().subrange(seen, seen + n));
            &&& r == Ok::<(), Error>(())
            &&& awaits_preface(t, seen + n)
            &&& t.c.events == s.c.events
            &&& t.c.state == s.c.state
        }),
{
    lemma_preface();
    delivery::generating_keeps_the_rest(s);
    let g = s.generated();
    let d = preface().subrange(seen, seen + n);
    assert(g.io.recv + d =~= d);
    assert(d.take(n) =~= CONNECTION_PREFACE@.subrange(seen, seen + n));
    assert(d.skip(n) =~= Seq::<u8>::empty());
}

/// Bytes that are not the preface are refused.
pub proof fn other_prefaces_are_refused(s: Sys, seen: int, d: Seq<u8>, k: int)
    requires
        awaits_preface(s, seen),
        d.len() <= s.lim.io,
        0 <= k < d.len(),
        k < 24 - seen,
        d[k] != preface()[seen + k],
    ensures
        s.fed(d).1 == Err::<(), Error>(Error::InvalidState),
{
    lemma_preface();
    delivery::generating_keeps_the_rest(s);
    let g = s.generated();
    assert(g.io.recv + d =~= d);
    let n = model::smaller(24 - seen, d.len() as int);
    assert(d.take(n)[k] != CONNECTION_PREFACE@.subrange(seen, seen + n)[k]);
}

// ---------------------------------------------------------------------------
// Frames
// ---------------------------------------------------------------------------

/// Frames are read: no DATA frame is half received, and the preface has been read.
pub open spec fn reads_frames(s: Sys) -> bool {
    s.c.partial is None && (s.c.role is Client || s.c.preface_validated)
}

/// A frame, but for DATA, is dealt with when the last of it has come: what has come of
/// it waits, nothing else changes for the application, and when the rest comes it is as
/// if the frame had come at once.
pub proof fn frames_may_come_in_pieces(
    s: Sys,
    ty: u8,
    flags: u8,
    id: u64,
    payload: Seq<u8>,
    n: int,
)
    requires
        reads_frames(s),
        wire::expects(s, ty, id),
        wire::sized(s, id, payload),
        ty != 0,
        0 <= n < 9 + payload.len(),
    ensures
        ({
            let f = raw(ty, flags, id, payload);
            let (t, r) = s.fed(f.take(n));
            &&& r == Ok::<(), Error>(())
            &&& t.io.recv == f.take(n)
            &&& t.c.events == s.c.events
            &&& t.c.state == s.c.state
            &&& t.c.table == s.c.table
            &&& holding(t, Seq::empty()).fed(f) == t.fed(f.skip(n))
        }),
{
    let f = raw(ty, flags, id, payload);
    wire::frames_are_laid_out(ty, flags, id, payload);
    delivery::generating_keeps_the_rest(s);
    let g = s.generated();
    let d = f.take(n);
    let x = Sys { io: crate::io::Wire { recv: g.io.recv + d, ..g.io }, ..g };
    assert(g.io.recv + d =~= d);
    if n >= 9 {
        assert(frame::header_at(d) == frame::header_at(f));
    }
    assert(x.round() == Round::Stop(x));
    model::round_makes_progress(x);
    assert(x.rounds() == (x, Ok::<(), Error>(())));
    let t = s.fed(d).0;
    assert(d + f.skip(n) =~= f);
    wire::received_is_fed(t, f.skip(n));
    let e = holding(t, Seq::empty());
    assert(Seq::<u8>::empty() + f =~= f);
    wire::received_is_fed(e, f);
    assert(holding(e, f) == holding(t, f));
}

/// The length that a frame header gives: its first three bytes.
pub open spec fn frame_length(b: Seq<u8>) -> int {
    b[0] * 65536 + b[1] * 256 + b[2]
}

/// No whole frame stands at the front. A DATA frame whose padding length has not come
/// is not whole.
pub open spec fn less_than_a_frame(b: Seq<u8>) -> bool {
    b.len() < 9 || b.len() < 9 + frame_length(b) || (b.len() == 9 && b[3] == 0)
}

proof fn lemma_whole_frames(s: Sys)
    requires
        s.rounds().1 is Ok,
    ensures
        ({
            let t = s.rounds().0;
            t.c.partial is None ==> less_than_a_frame(t.io.recv)
        }),
    decreases s.work(),
{
    model::round_makes_progress(s);
    match s.round() {
        Round::Stop(t) => {
            if s.c.partial is None && s.io.recv.len() >= 9 {
                let h = frame::header_at(s.io.recv);
                assert(h.length == frame_length(s.io.recv));
                reveal(Sys::data_verdict);
            }
        },
        Round::Fail(_, _) => {},
        Round::Next(t) => lemma_whole_frames(t),
    }
}

/// All frames that have come are dealt with, however many they are: where no DATA frame
/// waits for room or for more of it, what is left is less than a frame.
pub proof fn whole_frames_are_not_left(s: Sys, d: Seq<u8>)
    requires
        s.c.role is Client || s.c.preface_validated,
        s.fed(d).1 is Ok,
    ensures
        ({
            let t = s.fed(d).0;
            t.c.partial is None ==> less_than_a_frame(t.io.recv)
        }),
{
    delivery::generating_keeps_the_rest(s);
    let g = s.generated();
    lemma_whole_frames(Sys { io: crate::io::Wire { recv: g.io.recv + d, ..g.io }, ..g });
}

/// A frame that is larger than this end allows is refused, as soon as its header has
/// come.
pub proof fn large_frames_are_refused(s: Sys, b: Seq<u8>)
    requires
        reads_frames(s),
        s.io.recv.len() == 0,
        9 <= b.len() <= s.lim.io,
        frame_length(b) > s.c.local.max_frame_size,
    ensures
        s.fed(b).1 == Err::<(), Error>(Error::Http2(H2Error::FrameSizeError)),
{
    delivery::generating_keeps_the_rest(s);
    let g = s.generated();
    let x = Sys { io: crate::io::Wire { recv: g.io.recv + b, ..g.io }, ..g };
    assert(g.io.recv + b =~= b);
    let h = frame::header_at(b);
    assert(h.length == frame_length(b));
    assert(x.round() == Round::Fail(x, model::frame_size_error()));
}

/// A header block goes on with CONTINUATION frames on its stream: any other frame in
/// between is refused.
pub proof fn header_blocks_are_not_interrupted(
    s: Sys,
    ty: u8,
    flags: u8,
    id: u64,
    payload: Seq<u8>,
    open: u64,
)
    requires
        reads_frames(s),
        s.io.recv.len() == 0,
        s.c.continuation == Some(open),
        ty != 9 || id != open,
        wire::sized(s, id, payload),
    ensures
        s.fed(raw(ty, flags, id, payload)).1 == Err::<(), Error>(
            Error::Http2(H2Error::ProtocolError),
        ),
{
    let b = raw(ty, flags, id, payload);
    wire::frames_are_laid_out(ty, flags, id, payload);
    delivery::generating_keeps_the_rest(s);
    let g = s.generated();
    let x = Sys { io: crate::io::Wire { recv: g.io.recv + b, ..g.io }, ..g };
    assert(g.io.recv + b =~= b);
    assert(x.round() == Round::Fail(x, model::protocol_error()));
}

// ---------------------------------------------------------------------------
// Credit
// ---------------------------------------------------------------------------

/// Credit of the connection goes out in a WINDOW_UPDATE frame on stream 0 that says how
/// much it is, and the window grows by as much.
pub proof fn credit_is_sent(s: Sys)
    requires
        0 < s.c.pending < 0x8000_0000,
        s.io.send.len() + 13 <= s.lim.io,
        s.c.recv_window + s.c.pending <= 0x7fff_ffff,
    ensures
        ({
            let t = s.flush_conn();
            &&& t.io.send == s.io.send + raw(8, 0, 0, four_bytes(s.c.pending as int))
            &&& t.c.recv_window == s.c.recv_window + s.c.pending
            &&& t.c.pending == 0
        }),
{
    let n = s.c.pending;
    wire::frames_are_laid_out(8, 0, 0, four_bytes(n as int));
    let a = four_bytes(n as int);
    let b = crate::bytes::be32(n);
    assert(n as int / 16777216 % 256 == n as int / 16777216);
    assert(a.len() == 4 && b.len() == 4 && a[0] == b[0] && a[1] == b[1] && a[2] == b[2] && a[3]
        == b[3]);
    assert(a =~= b);
}

} // verus!
