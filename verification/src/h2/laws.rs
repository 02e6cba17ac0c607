//! What holds of a connection in every state, and of several calls together.

use vstd::prelude::*;

use super::connection::{H2Event, PartialData, Role};
use super::flow_control;
use super::frame;
use super::frame::H2FrameHeader;
use super::model;
use super::model::{Conn, DataHead, Limits, PumpStep, Round, Sys};
use super::stream;
use super::stream::StreamModel;
use crate::bytes::Field;
use crate::error::Error;
use crate::http;
use crate::http::TimeoutConfig;
use crate::io::Wire;

verus! {

// ---------------------------------------------------------------------------
// Receive credit
// ---------------------------------------------------------------------------

/// Body bytes that were received and not yet read.
pub open spec fn unread(ss: Seq<StreamModel>) -> int
    decreases ss.len(),
{
    if ss.len() == 0 {
        0
    } else {
        unread(ss.drop_last()) + ss.last().data.len()
    }
}

/// Streams with unread bytes are marked as readable.
#[verifier::opaque]
pub open spec fn marked(ss: Seq<StreamModel>) -> bool {
    forall|i: int| 0 <= i < ss.len() && (#[trigger] ss[i]).data.len() > 0 ==> ss[i].data_available
}

/// Payload of the DATA frame at hand that was counted and has not arrived.
pub open spec fn in_flight(c: Conn) -> int {
    match c.partial {
        Some(pd) => pd.data_remaining as int,
        None => 0,
    }
}

/// The window that the peer has, the credit that it was not sent yet, the bytes
/// that wait to be read, and `owed`, make up the window of a new connection.
pub open spec fn balanced(c: Conn, owed: int) -> bool {
    &&& 0 <= c.recv_window
    &&& marked(c.streams)
    &&& c.recv_window + c.pending + unread(c.streams) + owed == 65535
}

/// Every byte of receive credit is accounted for: the peer has it, or it waits to
/// be sent, or it is taken up by data.
pub open spec fn accounted(c: Conn) -> bool {
    balanced(c, in_flight(c))
}

/// What no operation but its own changes.
pub open spec fn steady(a: Conn, b: Conn) -> bool {
    &&& a.role == b.role
    &&& a.local == b.local
    &&& a.last_activity == b.last_activity
    &&& a.connection_start == b.connection_start
    &&& a.timeouts == b.timeouts
    &&& a.next_stream_id == b.next_stream_id
}

proof fn lemma_unread_positive(ss: Seq<StreamModel>)
    ensures
        unread(ss) >= 0,
    decreases ss.len(),
{
    if ss.len() > 0 {
        lemma_unread_positive(ss.drop_last());
    }
}

proof fn lemma_unread_update(ss: Seq<StreamModel>, i: int, s: StreamModel)
    requires
        0 <= i < ss.len(),
    ensures
        unread(ss.update(i, s)) == unread(ss) - ss[i].data.len() + s.data.len(),
        unread(ss) >= ss[i].data.len(),
    decreases ss.len(),
{
    let tt = ss.update(i, s);
    lemma_unread_positive(ss.drop_last());
    if i < ss.len() - 1 {
        assert(tt.drop_last() =~= ss.drop_last().update(i, s));
        lemma_unread_update(ss.drop_last(), i, s);
    } else {
        assert(tt.drop_last() =~= ss.drop_last());
    }
}

proof fn lemma_marked_update(ss: Seq<StreamModel>, i: int, s: StreamModel)
    requires
        marked(ss),
        0 <= i < ss.len(),
        s.data.len() > 0 ==> s.data_available,
    ensures
        marked(ss.update(i, s)),
{
    reveal(marked);
    let tt = ss.update(i, s);
    assert forall|j: int| 0 <= j < tt.len() && (#[trigger] tt[j]).data.len()
        > 0 implies tt[j].data_available by {
        if j != i {
            assert(tt[j] == ss[j]);
        }
    }
}

/// A stream changes in other things than its data.
proof fn lemma_same_data(ss: Seq<StreamModel>, i: int, s: StreamModel)
    requires
        marked(ss),
        0 <= i < ss.len(),
        s.data == ss[i].data,
        s.data_available == ss[i].data_available,
    ensures
        marked(ss.update(i, s)),
        unread(ss.update(i, s)) == unread(ss),
{
    assert(s.data.len() > 0 ==> s.data_available) by {
        reveal(marked);
        assert(ss[i].data.len() > 0 ==> ss[i].data_available);
    }
    lemma_marked_update(ss, i, s);
    lemma_unread_update(ss, i, s);
}

proof fn lemma_push(ss: Seq<StreamModel>, s: StreamModel)
    requires
        marked(ss),
        s.data.len() == 0,
    ensures
        marked(ss.push(s)),
        unread(ss.push(s)) == unread(ss),
{
    reveal(marked);
    let tt = ss.push(s);
    assert(tt.drop_last() =~= ss);
    assert forall|j: int| 0 <= j < tt.len() && (#[trigger] tt[j]).data.len()
        > 0 implies tt[j].data_available by {
        if j < ss.len() {
            assert(tt[j] == ss[j]);
        }
    }
}

/// All streams change in other things than their data.
proof fn lemma_all_same_data(ss: Seq<StreamModel>, tt: Seq<StreamModel>)
    requires
        ss.len() == tt.len(),
        forall|i: int|
            0 <= i < ss.len() ==> (#[trigger] tt[i]).data == ss[i].data && tt[i].data_available
                == ss[i].data_available,
    ensures
        unread(tt) == unread(ss),
        marked(ss) ==> marked(tt),
    decreases ss.len(),
{
    if marked(ss) {
        reveal(marked);
        assert forall|j: int| 0 <= j < tt.len() && (#[trigger] tt[j]).data.len()
            > 0 implies tt[j].data_available by {
            assert(ss[j].data == tt[j].data);
        }
    }
    if ss.len() > 0 {
        let a = ss.drop_last();
        let b = tt.drop_last();
        assert forall|i: int| 0 <= i < a.len() implies (#[trigger] b[i]).data == a[i].data
            && b[i].data_available == a[i].data_available by {
            assert(b[i] == tt[i]);
            assert(a[i] == ss[i]);
        }
        lemma_all_same_data(a, b);
    }
}

proof fn lemma_marked_prefix(ss: Seq<StreamModel>)
    requires
        marked(ss),
        ss.len() > 0,
    ensures
        marked(ss.drop_last()),
        ss.last().data.len() > 0 ==> ss.last().data_available,
{
    reveal(marked);
    let tt = ss.drop_last();
    assert forall|j: int| 0 <= j < tt.len() && (#[trigger] tt[j]).data.len()
        > 0 implies tt[j].data_available by {
        assert(tt[j] == ss[j]);
    }
}

proof fn lemma_marked_push(ss: Seq<StreamModel>, s: StreamModel)
    requires
        marked(ss),
        s.data.len() > 0 ==> s.data_available,
    ensures
        marked(ss.push(s)),
        unread(ss.push(s)) == unread(ss) + s.data.len(),
{
    reveal(marked);
    let tt = ss.push(s);
    assert(tt.drop_last() =~= ss);
    assert forall|j: int| 0 <= j < tt.len() && (#[trigger] tt[j]).data.len()
        > 0 implies tt[j].data_available by {
        if j < ss.len() {
            assert(tt[j] == ss[j]);
        }
    }
}

/// Closed streams are dropped: their unread bytes are what is lost.
proof fn lemma_not_closed(ss: Seq<StreamModel>)
    requires
        marked(ss),
    ensures
        marked(model::not_closed(ss)),
        unread(model::not_closed(ss)) + model::closed_data(ss) == unread(ss),
        model::closed_data(ss) >= 0,
    decreases ss.len(),
{
    if ss.len() > 0 {
        lemma_marked_prefix(ss);
        lemma_not_closed(ss.drop_last());
        if !(ss.last().state is Closed) {
            lemma_marked_push(model::not_closed(ss.drop_last()), ss.last());
        }
    } else {
        reveal(marked);
    }
}

/// Streams that nothing needs are dropped: no unread byte is lost.
proof fn lemma_live(ss: Seq<StreamModel>)
    requires
        marked(ss),
    ensures
        marked(model::live(ss)),
        unread(model::live(ss)) == unread(ss),
    decreases ss.len(),
{
    if ss.len() > 0 {
        lemma_marked_prefix(ss);
        lemma_live(ss.drop_last());
        if ss.last().live() {
            lemma_marked_push(model::live(ss.drop_last()), ss.last());
        }
    } else {
        reveal(marked);
    }
}

proof fn lemma_windows_moved(ss: Seq<StreamModel>, delta: int, i: int)
    requires
        marked(ss),
        0 <= i,
    ensures
        marked(model::windows_moved(ss, delta, i).0),
        unread(model::windows_moved(ss, delta, i).0) == unread(ss),
    decreases ss.len() - i,
{
    if i < ss.len() {
        let w = ss[i].send_window + delta;
        if i32::MIN <= w <= i32::MAX {
            let s = StreamModel { send_window: w as i32, ..ss[i] };
            lemma_same_data(ss, i, s);
            lemma_windows_moved(ss.update(i, s), delta, i + 1);
        }
    }
}

proof fn lemma_flush(s: Sys, owed: int)
    requires
        balanced(s.c, owed),
        owed >= 0,
    ensures
        balanced(s.flushed().c, owed),
        steady(s.flushed().c, s.c),
        s.flushed().c.partial == s.c.partial,
{
    lemma_unread_positive(s.c.streams);
    let t = s.flush_conn();
    assert(balanced(t.c, owed));
    model::flush_from_frame(t, 0);
    let u = t.flush_from(0);
    assert(u == s.flushed()) by {
        reveal(Sys::flushed);
    }
    assert forall|i: int| 0 <= i < t.c.streams.len() implies (#[trigger] u.c.streams[i]).data
        == t.c.streams[i].data && u.c.streams[i].data_available
        == t.c.streams[i].data_available by {
        assert(model::same_but_credit(u.c.streams[i], t.c.streams[i]));
    }
    lemma_all_same_data(t.c.streams, u.c.streams);
}

proof fn lemma_conn_credit(s: Sys, n: u32, owed: int)
    requires
        balanced(s.c, owed + n),
        owed >= 0,
    ensures
        balanced(s.conn_credited(n).c, owed),
        steady(s.conn_credited(n).c, s.c),
        s.conn_credited(n).c.partial == s.c.partial,
{
    if n > 0 {
        lemma_unread_positive(s.c.streams);
        let t = Sys { c: Conn { pending: stream::saturated(s.c.pending + n), ..s.c }, ..s };
        lemma_flush(t, owed);
    }
}

proof fn lemma_stream_credit(s: Sys, id: u64, n: u32, owed: int)
    requires
        balanced(s.c, owed),
        owed >= 0,
    ensures
        balanced(s.stream_credited(id, n).c, owed),
        steady(s.stream_credited(id, n).c, s.c),
        s.stream_credited(id, n).c.partial == s.c.partial,
{
    if n > 0 {
        model::find_bounds(s.c.streams, id);
        match model::find(s.c.streams, id) {
            Some(i) => {
                lemma_same_data(s.c.streams, i, s.c.streams[i].credited(n));
                lemma_flush(s.with_stream(i, s.c.streams[i].credited(n)), owed);
            },
            None => {
                lemma_flush(s, owed);
            },
        }
    }
}

proof fn lemma_generate(s: Sys)
    requires
        accounted(s.c),
    ensures
        accounted(s.generated().c),
        steady(s.generated().c, s.c),
{
    reveal(Sys::generated);
    if s.c.preface_sent {
        lemma_flush(s, in_flight(s.c));
    } else {
        let t = s.preface_queued().settings_queued();
        lemma_flush(Sys { c: Conn { preface_sent: true, ..t.c }, ..t }, in_flight(s.c));
    }
}

proof fn lemma_ensure(s: Sys, id: u64)
    requires
        accounted(s.c),
    ensures
        accounted(s.ensured(id).0.c),
        steady(s.ensured(id).0.c, s.c),
        s.ensured(id).0.c.partial == s.c.partial,
{
    if model::find(s.c.streams, id) is None {
        let owed = in_flight(s.c);
        let r = s.reclaimed();
        if s.c.streams.len() >= s.lim.streams {
            lemma_not_closed(s.c.streams);
            lemma_unread_positive(model::not_closed(s.c.streams));
            let t = s.with_streams(model::not_closed(s.c.streams));
            lemma_conn_credit(t, stream::saturated(model::closed_data(s.c.streams)), owed);
        }
        assert(balanced(r.c, owed));
        if r.c.streams.len() < r.lim.streams {
            lemma_push(
                r.c.streams,
                StreamModel::new(
                    id,
                    r.c.peer.initial_window_size as i32,
                    r.c.local.initial_window_size as i32,
                ),
            );
        }
    }
}

proof fn lemma_send_headers(s: Sys, id: u64, fs: Seq<Field>, end: bool)
    requires
        accounted(s.c),
    ensures
        accounted(s.headers_sent(id, fs, end).0.c),
        steady(s.headers_sent(id, fs, end).0.c, s.c),
{
    lemma_ensure(s, id);
    let (t, ok) = s.ensured(id);
    model::find_bounds(t.c.streams, id);
    match model::find(t.c.streams, id) {
        Some(i) => {
            lemma_same_data(t.c.streams, i, t.c.streams[i].opened().send_ended(end));
        },
        None => {},
    }
}

proof fn lemma_send_data(s: Sys, id: u64, data: Seq<u8>, end: bool)
    requires
        accounted(s.c),
    ensures
        accounted(s.data_sent(id, data, end).0.c),
        steady(s.data_sent(id, data, end).0.c, s.c),
{
    let n = s.sendable(id, data.len() as int);
    model::find_bounds(s.c.streams, id);
    match model::find(s.c.streams, id) {
        Some(i) => {
            lemma_same_data(
                s.c.streams,
                i,
                s.c.streams[i].data_sent(n, end && n == data.len()),
            );
        },
        None => {},
    }
}

proof fn lemma_recv_body(s: Sys, id: u64, room: int)
    requires
        accounted(s.c),
        0 <= room,
    ensures
        accounted(s.body_received(id, room).0.c),
        steady(s.body_received(id, room).0.c, s.c),
{
    model::find_bounds(s.c.streams, id);
    match model::find(s.c.streams, id) {
        Some(i) => {
            let st = s.c.streams[i];
            if st.data.len() > 0 {
                let n = model::smaller(st.data.len() as int, room);
                let owed = in_flight(s.c);
                lemma_unread_update(s.c.streams, i, st.read(n));
                lemma_marked_update(s.c.streams, i, st.read(n));
                lemma_unread_positive(s.c.streams);
                let t = s.with_stream(i, st.read(n));
                let credit = stream::saturated(n);
                assert(st.read(n).data.len() == st.data.len() - n);
                assert(balanced(t.c, owed + n));
                lemma_conn_credit(t, credit, owed);
                lemma_stream_credit(t.conn_credited(credit), id, credit, owed);
            }
        },
        None => {},
    }
}

proof fn lemma_pump(s: Sys)
    requires
        accounted(s.c),
    ensures
        accounted(s.pumped().c),
        steady(s.pumped().c, s.c),
{
    match s.c.partial {
        None => {},
        Some(pd) => {
            let (t, pd1) = s.payload_pumped(pd);
            lemma_payload_pump(s, pd);
            let (u, pd2) = t.padding_pumped(pd1);
            assert(balanced(u.c, pd2.data_remaining as int));
            let v = u.with_partial(None);
            if pd2.data_remaining == 0 && pd2.pad_remaining == 0 && pd2.deliver {
                lemma_stream_data_end(v, pd2.stream_id, pd2.end_stream);
            }
        },
    }
}

proof fn lemma_payload_pump(s: Sys, pd: PartialData)
    requires
        balanced(s.c, pd.data_remaining as int),
    ensures
        balanced(s.payload_pumped(pd).0.c, s.payload_pumped(pd).1.data_remaining as int),
        steady(s.payload_pumped(pd).0.c, s.c),
{
    model::payload_pump_bounds(s, pd);
    match s.pump_step(pd) {
        PumpStep::Wait => {},
        PumpStep::Deliver(i, n) => {
            let st = s.c.streams[i].delivered(s.io.recv.take(n));
            lemma_unread_update(s.c.streams, i, st);
            lemma_marked_update(s.c.streams, i, st);
            assert(st.data.len() == s.c.streams[i].data.len() + n);
        },
        PumpStep::Discard(n) => {
            lemma_unread_positive(s.c.streams);
            lemma_conn_credit(s.drained(n), n as u32, pd.data_remaining - n);
        },
    }
}

proof fn lemma_stream_data_end(s: Sys, id: u64, end: bool)
    requires
        accounted(s.c),
    ensures
        accounted(s.stream_data_ended(id, end).c),
        steady(s.stream_data_ended(id, end).c, s.c),
{
    reveal(Sys::stream_data_ended);
    model::find_bounds(s.c.streams, id);
    match model::find(s.c.streams, id) {
        Some(i) => {
            let st = s.c.streams[i].data_ended(end);
            lemma_unread_update(s.c.streams, i, st);
            lemma_marked_update(s.c.streams, i, st);
        },
        None => {},
    }
}

proof fn lemma_data_begin(s: Sys, h: H2FrameHeader, d: DataHead)
    requires
        accounted(s.c),
        s.c.partial is None,
        s.data_verdict(h) == Ok::<Option<DataHead>, Error>(Some(d)),
    ensures
        accounted(s.data_begun(d).c),
        steady(s.data_begun(d).c, s.c),
{
    reveal(Sys::data_verdict);
    reveal(model::unpadded);
}

proof fn lemma_on_headers(s: Sys, h: H2FrameHeader)
    requires
        accounted(s.c),
    ensures
        accounted(s.on_headers(h).0.c),
        steady(s.on_headers(h).0.c, s.c),
{
    reveal(Sys::on_headers);
    match s.headers_verdict(h) {
        Ok((start, end)) => {
            let p = s.peer_id_seen(h.stream_id);
            lemma_ensure(p, h.stream_id);
            model::ensured_finds(p, h.stream_id);
            let (t, ok) = p.ensured(h.stream_id);
            if ok {
                lemma_store_headers(
                    t,
                    h.stream_id,
                    s.io.recv.subrange(start, end),
                    frame::flag_set(h.flags, frame::FLAG_END_HEADERS),
                    frame::flag_set(h.flags, frame::FLAG_END_STREAM),
                );
            }
        },
        Err(_) => {},
    }
}

proof fn lemma_store_headers(s: Sys, id: u64, frag: Seq<u8>, end_headers: bool, end_stream: bool)
    requires
        accounted(s.c),
        model::find(s.c.streams, id) is Some,
    ensures
        accounted(s.headers_stored(id, frag, end_headers, end_stream).0.c),
        steady(s.headers_stored(id, frag, end_headers, end_stream).0.c, s.c),
{
    model::find_bounds(s.c.streams, id);
    let i = model::find(s.c.streams, id)->0;
    let st = s.c.streams[i].headers_begun();
    lemma_same_data(s.c.streams, i, st);
    lemma_same_data(
        s.c.streams,
        i,
        st.headers_grown(frag, end_headers).recv_ended(end_stream),
    );
}

proof fn lemma_on_continuation(s: Sys, h: H2FrameHeader)
    requires
        accounted(s.c),
    ensures
        accounted(s.on_continuation(h).0.c),
        steady(s.on_continuation(h).0.c, s.c),
{
    reveal(Sys::on_continuation);
    model::find_bounds(s.c.streams, h.stream_id);
    match model::find(s.c.streams, h.stream_id) {
        Some(i) => {
            lemma_same_data(
                s.c.streams,
                i,
                s.c.streams[i].headers_grown(
                    s.payload(h),
                    frame::flag_set(h.flags, frame::FLAG_END_HEADERS),
                ),
            );
        },
        None => {},
    }
}

proof fn lemma_on_settings(s: Sys, h: H2FrameHeader)
    requires
        accounted(s.c),
    ensures
        accounted(s.on_settings(h).0.c),
        steady(s.on_settings(h).0.c, s.c),
{
    reveal(Sys::on_settings);
    let peer = s.c.peer.with_payload(s.payload(h)).0;
    lemma_windows_moved(
        s.c.streams,
        peer.initial_window_size - s.c.peer.initial_window_size,
        0,
    );
}

proof fn lemma_on_window_update(s: Sys, h: H2FrameHeader)
    requires
        accounted(s.c),
    ensures
        accounted(s.on_window_update(h).0.c),
        steady(s.on_window_update(h).0.c, s.c),
{
    reveal(Sys::on_window_update);
    model::find_bounds(s.c.streams, h.stream_id);
    match (s.increment(h), model::find(s.c.streams, h.stream_id)) {
        (Ok(inc), Some(i)) => match flow_control::replenished(s.c.streams[i].send_window, inc) {
            Ok(w) => {
                lemma_same_data(
                    s.c.streams,
                    i,
                    StreamModel { send_window: w, ..s.c.streams[i] },
                );
            },
            Err(_) => {},
        },
        _ => {},
    }
}

proof fn lemma_on_reset(s: Sys, h: H2FrameHeader)
    requires
        accounted(s.c),
    ensures
        accounted(s.on_rst_stream(h).0.c),
        steady(s.on_rst_stream(h).0.c, s.c),
{
    reveal(Sys::on_rst_stream);
    model::find_bounds(s.c.streams, h.stream_id);
    match model::find(s.c.streams, h.stream_id) {
        Some(i) => {
            let st = s.c.streams[i];
            lemma_unread_positive(s.c.streams);
            lemma_unread_update(s.c.streams, i, st.dropped());
            lemma_marked_update(s.c.streams, i, st.dropped());
            lemma_conn_credit(
                s.with_stream(i, st.dropped()),
                stream::saturated(st.data.len() as int),
                in_flight(s.c),
            );
        },
        None => {},
    }
}

proof fn lemma_on_others(s: Sys, h: H2FrameHeader)
    requires
        accounted(s.c),
    ensures
        accounted(s.on_ping(h).0.c),
        steady(s.on_ping(h).0.c, s.c),
        accounted(s.on_goaway(h).0.c),
        steady(s.on_goaway(h).0.c, s.c),
{
    reveal(Sys::on_ping);
    reveal(Sys::on_goaway);
}

proof fn lemma_on_frame(s: Sys, h: H2FrameHeader)
    requires
        accounted(s.c),
    ensures
        accounted(s.on_frame(h).0.c),
        steady(s.on_frame(h).0.c, s.c),
{
    reveal(Sys::on_frame);
    lemma_on_headers(s, h);
    lemma_on_settings(s, h);
    lemma_on_window_update(s, h);
    lemma_on_others(s, h);
    lemma_on_reset(s, h);
    lemma_on_continuation(s, h);
}

proof fn lemma_round(s: Sys)
    requires
        accounted(s.c),
    ensures
        match s.round() {
            Round::Stop(t) => accounted(t.c) && steady(t.c, s.c),
            Round::Fail(t, _) => accounted(t.c) && steady(t.c, s.c),
            Round::Next(t) => accounted(t.c) && steady(t.c, s.c),
        },
{
    if s.c.partial is Some {
        lemma_pump(s);
    } else if s.io.recv.len() >= 9 {
        let h = frame::header_at(s.io.recv);
        lemma_on_frame(s, h);
        match s.data_verdict(h) {
            Ok(Some(d)) => {
                lemma_data_begin(s, h, d);
            },
            _ => {},
        }
    }
}

proof fn lemma_rounds(s: Sys)
    requires
        accounted(s.c),
    ensures
        accounted(s.rounds().0.c),
        steady(s.rounds().0.c, s.c),
    decreases s.work(),
{
    lemma_round(s);
    model::round_makes_progress(s);
    match s.round() {
        Round::Next(t) => {
            lemma_rounds(t);
        },
        _ => {},
    }
}

proof fn lemma_feed(s: Sys, data: Seq<u8>)
    requires
        accounted(s.c),
    ensures
        accounted(s.fed(data).0.c),
        steady(s.fed(data).0.c, s.c),
{
    lemma_generate(s);
    let t = s.generated();
    let u = Sys { io: Wire { recv: t.io.recv + data, ..t.io }, ..t };
    let v = if u.c.role is Server && !u.c.preface_validated {
        u.preface_checked().0
    } else {
        u
    };
    assert(accounted(v.c) && steady(v.c, s.c));
    lemma_rounds(v);
    lemma_live(v.rounds().0.c.streams);
}

// ---------------------------------------------------------------------------
// Laws
// ---------------------------------------------------------------------------

/// A call of the connection.
pub enum Call {
    FeedData(Seq<u8>),
    FeedDataTimed(Seq<u8>, u64),
    PollEvent,
    GenerateOutput,
    PollOutput(nat),
    SendHeaders(u64, Seq<Field>, bool),
    OpenStream(Seq<Field>, bool),
    SendData(u64, Seq<u8>, bool),
    RecvHeaders(u64),
    RecvBody(u64, nat),
    SendGoaway(u32),
    SetTimeouts(TimeoutConfig, u64),
    HandleTimeout(u64),
}

/// The connection after a call.
pub open spec fn after(s: Sys, call: Call) -> Sys {
    match call {
        Call::FeedData(data) => s.fed(data).0,
        Call::FeedDataTimed(data, now) => s.fed_at(data, now).0,
        Call::PollEvent => Sys {
            c: Conn {
                events: if s.c.events.len() == 0 {
                    s.c.events
                } else {
                    s.c.events.skip(1)
                },
                ..s.c
            },
            ..s
        },
        Call::GenerateOutput => s.generated(),
        Call::PollOutput(room) => s.polled(room as int).0,
        Call::SendHeaders(id, fs, end) => s.headers_sent(id, fs, end).0,
        Call::OpenStream(fs, end) => s.stream_opened(fs, end).0,
        Call::SendData(id, data, end) => s.data_sent(id, data, end).0,
        Call::RecvHeaders(id) => Sys { c: s.c.headers_received(id).0, ..s },
        Call::RecvBody(id, room) => s.body_received(id, room as int).0,
        Call::SendGoaway(code) => s.goaway_sent(code).0,
        Call::SetTimeouts(config, now) => Sys {
            c: Conn { timeouts: config, last_activity: now, connection_start: now, ..s.c },
            ..s
        },
        Call::HandleTimeout(now) => s.timed(now),
    }
}

/// The connection after calls in order.
pub open spec fn run(s: Sys, calls: Seq<Call>) -> Sys
    decreases calls.len(),
{
    if calls.len() == 0 {
        s
    } else {
        after(run(s, calls.drop_last()), calls.last())
    }
}

proof fn lemma_open_stream(s: Sys, fs: Seq<Field>, end: bool)
    requires
        accounted(s.c),
    ensures
        accounted(s.stream_opened(fs, end).0.c),
        s.c.next_stream_id > 0x7fff_ffff ==> s.stream_opened(fs, end) == (
            s,
            Err::<u64, Error>(Error::StreamLimitExhausted),
        ),
        s.c.next_stream_id <= 0x7fff_ffff ==> s.stream_opened(fs, end).0.c.next_stream_id
            == s.c.next_stream_id + 2,
        s.stream_opened(fs, end).1 matches Ok(id) ==> id == s.c.next_stream_id,
{
    let id = s.c.next_stream_id;
    if id <= 0x7fff_ffff {
        lemma_send_headers(
            Sys { c: Conn { next_stream_id: (id + 2) as u64, ..s.c }, ..s },
            id,
            fs,
            end,
        );
    }
}

proof fn lemma_recv_headers(s: Sys, id: u64)
    requires
        accounted(s.c),
    ensures
        accounted(s.c.headers_received(id).0),
        steady(s.c.headers_received(id).0, s.c),
{
    model::find_bounds(s.c.streams, id);
    match model::find(s.c.streams, id) {
        Some(i) => {
            lemma_same_data(s.c.streams, i, s.c.streams[i].headers_read());
        },
        None => {},
    }
}

proof fn lemma_poll(s: Sys, room: int)
    requires
        accounted(s.c),
    ensures
        accounted(s.polled(room).0.c),
        steady(s.polled(room).0.c, s.c),
{
    lemma_generate(s);
}

proof fn lemma_end(s: Sys, code: u32, now: u64)
    requires
        accounted(s.c),
    ensures
        accounted(s.goaway_sent(code).0.c),
        steady(s.goaway_sent(code).0.c, s.c),
        accounted(s.timed(now).c),
        steady(s.timed(now).c, s.c),
{
}

/// The identifier of the next stream after a call.
pub open spec fn next_id_after(c: Conn, call: Call) -> int {
    match call {
        Call::OpenStream(_, _) if c.next_stream_id <= 0x7fff_ffff => c.next_stream_id + 2,
        _ => c.next_stream_id as int,
    }
}

proof fn lemma_call(s: Sys, call: Call)
    requires
        accounted(s.c),
    ensures
        accounted(after(s, call).c),
        after(s, call).c.next_stream_id == next_id_after(s.c, call),
{
    match call {
        Call::FeedData(data) => {
            lemma_feed(s, data);
        },
        Call::FeedDataTimed(data, now) => {
            lemma_feed(Sys { c: Conn { last_activity: now, ..s.c }, ..s }, data);
        },
        Call::PollEvent => {},
        Call::GenerateOutput => {
            lemma_generate(s);
        },
        Call::PollOutput(room) => {
            lemma_poll(s, room as int);
        },
        Call::SendHeaders(id, fs, end) => {
            lemma_send_headers(s, id, fs, end);
        },
        Call::OpenStream(fs, end) => {
            lemma_open_stream(s, fs, end);
        },
        Call::SendData(id, data, end) => {
            lemma_send_data(s, id, data, end);
        },
        Call::RecvHeaders(id) => {
            lemma_recv_headers(s, id);
        },
        Call::RecvBody(id, room) => {
            lemma_recv_body(s, id, room as int);
        },
        Call::SendGoaway(code) => {
            lemma_end(s, code, 0);
        },
        Call::SetTimeouts(_, _) => {},
        Call::HandleTimeout(now) => {
            lemma_end(s, 0, now);
        },
    }
}

/// No call loses receive credit: what the connection took from its window for
/// data is given back when the data is read or dropped, and a WINDOW_UPDATE that
/// finds the send buffer full is sent later.
pub proof fn call_conserves_credit(s: Sys, call: Call)
    requires
        accounted(s.c),
    ensures
        accounted(after(s, call).c),
{
    lemma_call(s, call);
}

/// In every state that a connection can come to, its receive credit is accounted
/// for: what the peer may still send, the credit that waits to be sent, the bytes
/// that wait to be read and the payload that is still to come make up the window
/// of a new connection.
pub proof fn receive_credit_is_conserved(
    role: Role,
    max_streams: usize,
    data_cap: usize,
    io: Wire,
    lim: Limits,
    calls: Seq<Call>,
)
    ensures
        accounted(run(Sys { c: Conn::initial(role, max_streams, data_cap), io, lim }, calls).c),
    decreases calls.len(),
{
    let s = Sys { c: Conn::initial(role, max_streams, data_cap), io, lim };
    if calls.len() > 0 {
        receive_credit_is_conserved(role, max_streams, data_cap, io, lim, calls.drop_last());
        call_conserves_credit(run(s, calls.drop_last()), calls.last());
    } else {
        reveal(marked);
    }
}

/// Credit of the connection is sent in one WINDOW_UPDATE frame and then counts,
/// or the send buffer has no room for the frame and nothing changes. Credit never
/// counts without its frame.
pub proof fn credit_counts_when_sent(s: Sys)
    requires
        accounted(s.c),
        s.c.pending > 0,
    ensures
        ({
            let t = s.flush_conn();
            let f = frame::window_update_frame(0, s.c.pending);
            if s.io.send.len() + f.len() <= s.lim.io {
                &&& t.io.send == s.io.send + f
                &&& t.c.pending == 0
                &&& t.c.recv_window == s.c.recv_window + s.c.pending
            } else {
                t == s
            }
        }),
{
    lemma_unread_positive(s.c.streams);
}

/// The application reads a body in order, and loses none of it: what a read
/// gives, and what is left, is what was there.
pub proof fn reading_keeps_the_body(s: Sys, id: u64, room: usize)
    requires
        model::find(s.c.streams, id) is Some,
    ensures
        ({
            let i = model::find(s.c.streams, id)->0;
            let (t, body, r) = s.body_received(id, room as int);
            &&& model::find(t.c.streams, id) == Some(i)
            &&& s.c.streams[i].data == body + t.c.streams[i].data
            &&& (r matches Ok((n, fin)) ==> n == body.len() && n <= room && (fin
                == (t.c.streams[i].data.len() == 0 && s.c.streams[i].fin_received)))
        }),
{
    model::find_bounds(s.c.streams, id);
    let i = model::find(s.c.streams, id)->0;
    let st = s.c.streams[i];
    if st.data.len() == 0 {
        assert(st.data =~= Seq::<u8>::empty() + st.data);
    } else {
        let n = model::smaller(st.data.len() as int, room as int);
        let credit = stream::saturated(n);
        let t = s.with_stream(i, st.read(n));
        model::conn_credit_frame(t, credit);
        let u = t.conn_credited(credit);
        lemma_find_same(t.c.streams, s.c.streams, id, 0);
        lemma_find_same(u.c.streams, t.c.streams, id, 0);
        assert(model::same_but_credit(u.c.streams[i], t.c.streams[i]));
        if credit > 0 {
            let v = u.with_stream(i, u.c.streams[i].credited(credit));
            model::flush_frame(v);
            lemma_find_same(v.c.streams, u.c.streams, id, 0);
            lemma_find_same(v.flushed().c.streams, v.c.streams, id, 0);
            assert(model::same_but_credit(v.flushed().c.streams[i], v.c.streams[i]));
        }
        assert(st.data =~= st.data.take(n) + st.data.skip(n));
    }
}

proof fn lemma_find_same(ss: Seq<StreamModel>, tt: Seq<StreamModel>, id: u64, i: int)
    requires
        0 <= i,
        ss.len() == tt.len(),
        forall|j: int| 0 <= j < ss.len() ==> (#[trigger] ss[j]).id == tt[j].id,
    ensures
        model::find_from(ss, id, i) == model::find_from(tt, id, i),
    decreases ss.len() - i,
{
    if i < ss.len() && ss[i].id != id {
        lemma_find_same(ss, tt, id, i + 1);
    }
}

proof fn lemma_flush_from_grows(s: Sys, i: int)
    requires
        0 <= i,
    ensures
        s.flush_from(i).io.send.len() >= s.io.send.len(),
    decreases s.c.streams.len() - i,
{
    if i < s.c.streams.len() {
        lemma_flush_from_grows(s.flush_stream(i), i + 1);
    }
}

proof fn lemma_flush_grows(s: Sys)
    ensures
        s.flushed().io.send.len() >= s.io.send.len(),
        s.flushed().c.send_offset == s.c.send_offset,
{
    model::flush_frame(s);
    reveal(Sys::flushed);
    lemma_flush_from_grows(s.flush_conn(), 0);
}

/// Output is pulled in order and none of it is lost: a chunk, and what waits
/// after it, is what waited to be sent with what is generated. There is a chunk
/// whenever something waits.
pub proof fn output_is_pulled_in_order(s: Sys, room: nat)
    requires
        0 <= s.c.send_offset <= s.io.send.len(),
    ensures
        ({
            let g = s.generated();
            let (t, out) = s.polled(room as int);
            let waiting = g.io.send.skip(s.c.send_offset);
            &&& 0 <= t.c.send_offset <= t.io.send.len()
            &&& match out {
                Some(chunk) => waiting == chunk + t.io.send.skip(t.c.send_offset) && chunk.len()
                    == model::smaller(waiting.len() as int, room as int),
                None => waiting.len() == 0 && t == g,
            }
        }),
{
    reveal(Sys::generated);
    if s.c.preface_sent {
        lemma_flush_grows(s);
    } else {
        let p = s.preface_queued().settings_queued();
        lemma_flush_grows(Sys { c: Conn { preface_sent: true, ..p.c }, ..p });
    }
    let g = s.generated();
    let (t, out) = s.polled(room as int);
    let waiting = g.io.send.skip(s.c.send_offset);
    match out {
        Some(chunk) => {
            assert(waiting =~= chunk + t.io.send.skip(t.c.send_offset));
        },
        None => {},
    }
}

/// Data is sent within what the peer allows: no more than its windows and frame
/// size, which shrink by what was sent. The end of the stream is sent with the
/// last of the data only.
pub proof fn sending_respects_windows(s: Sys, id: u64, data: Seq<u8>, end: bool)
    requires
        model::find(s.c.streams, id) is Some,
        data.len() <= usize::MAX,
    ensures
        ({
            let i = model::find(s.c.streams, id)->0;
            let st = s.c.streams[i];
            let (t, r) = s.data_sent(id, data, end);
            match r {
                Ok(n) => {
                    &&& n <= data.len()
                    &&& n <= s.c.peer.max_frame_size
                    &&& n > 0 ==> n <= s.c.send_window && n <= st.send_window
                    &&& t.c.send_window == s.c.send_window - n
                    &&& t.c.streams[i].send_window == st.send_window - n
                    &&& t.io.send == s.io.send + model::data_frame(
                        id,
                        data.take(n as int),
                        end && n == data.len(),
                    )
                },
                Err(_) => t == s,
            }
        }),
{
    model::find_bounds(s.c.streams, id);
}

/// A connection times out when its deadline has come, and not before. It is then
/// closed, says so, and has no deadline any more.
pub proof fn timeout_comes_at_the_deadline(s: Sys, now: u64)
    ensures
        ({
            let t = s.timed(now);
            match s.c.next_deadline() {
                Some(d) if now >= d => t.c.state is Closed && t.c.events == model::pushed(
                    s.c.events,
                    H2Event::Timeout,
                ) && t.c.next_deadline() is None,
                _ => t == s,
            }
        }),
{
}

/// Received bytes push the idle deadline: it is then a whole idle period after
/// the time of their arrival.
pub proof fn activity_rearms_the_idle_timer(s: Sys, data: Seq<u8>, now: u64, idle: u64)
    requires
        accounted(s.c),
        s.c.timeouts.idle_timeout_us == Some(idle),
    ensures
        s.fed_at(data, now).0.c.idle_deadline() == Some(http::deadline(now, idle)),
{
    lemma_feed(Sys { c: Conn { last_activity: now, ..s.c }, ..s }, data);
}

/// The application is told of headers only where their stream is there to be
/// read from: a HEADERS frame that is accepted has a stream.
pub proof fn accepted_headers_have_a_stream(s: Sys, h: H2FrameHeader)
    ensures
        s.on_headers(h).1 is Ok ==> model::find(s.on_headers(h).0.c.streams, h.stream_id) is Some,
{
    reveal(Sys::on_headers);
    match s.headers_verdict(h) {
        Ok((start, end)) => {
            let p = s.peer_id_seen(h.stream_id);
            model::ensured_finds(p, h.stream_id);
            let (t, ok) = p.ensured(h.stream_id);
            if ok {
                model::find_bounds(t.c.streams, h.stream_id);
                let i = model::find(t.c.streams, h.stream_id)->0;
                let u = t.headers_stored(
                    h.stream_id,
                    s.io.recv.subrange(start, end),
                    frame::flag_set(h.flags, frame::FLAG_END_HEADERS),
                    frame::flag_set(h.flags, frame::FLAG_END_STREAM),
                ).0;
                assert(u.c.streams[i].id == h.stream_id);
                model::find_bounds(u.c.streams, h.stream_id);
            }
        },
        Err(_) => {},
    }
}

/// A closed stream does not hold a place in the table against a new one.
pub proof fn closed_streams_make_room(s: Sys, id: u64, i: int)
    requires
        s.c.streams.len() <= s.lim.streams,
        0 <= i < s.c.streams.len(),
        s.c.streams[i].state is Closed,
    ensures
        s.ensured(id).1,
{
    lemma_not_closed_shorter(s.c.streams, i);
    model::conn_credit_frame(
        s.with_streams(model::not_closed(s.c.streams)),
        stream::saturated(model::closed_data(s.c.streams)),
    );
}

proof fn lemma_not_closed_len(ss: Seq<StreamModel>)
    ensures
        model::not_closed(ss).len() <= ss.len(),
    decreases ss.len(),
{
    if ss.len() > 0 {
        lemma_not_closed_len(ss.drop_last());
    }
}

proof fn lemma_not_closed_shorter(ss: Seq<StreamModel>, i: int)
    requires
        0 <= i < ss.len(),
        ss[i].state is Closed,
    ensures
        model::not_closed(ss).len() < ss.len(),
    decreases ss.len(),
{
    lemma_not_closed_len(ss.drop_last());
    if i < ss.len() - 1 {
        assert(ss.drop_last()[i] == ss[i]);
        lemma_not_closed_shorter(ss.drop_last(), i);
    }
}

/// A peer that opens more streams than it was told it may, all of them live, is
/// refused: the connection fails with a protocol error.
pub proof fn too_many_live_streams_are_refused(s: Sys, h: H2FrameHeader)
    requires
        s.headers_verdict(h) is Ok,
        model::find(s.c.streams, h.stream_id) is None,
        s.c.streams.len() >= s.lim.streams,
        forall|i: int| 0 <= i < s.c.streams.len() ==> !((#[trigger] s.c.streams[i]).state is Closed),
    ensures
        s.on_headers(h).1 == Err::<(), Error>(model::protocol_error()),
{
    reveal(Sys::on_headers);
    let p = s.peer_id_seen(h.stream_id);
    lemma_all_live(s.c.streams);
    model::conn_credit_frame(
        p.with_streams(model::not_closed(p.c.streams)),
        stream::saturated(model::closed_data(p.c.streams)),
    );
}

proof fn lemma_all_live(ss: Seq<StreamModel>)
    requires
        forall|i: int| 0 <= i < ss.len() ==> !((#[trigger] ss[i]).state is Closed),
    ensures
        model::not_closed(ss).len() == ss.len(),
    decreases ss.len(),
{
    if ss.len() > 0 {
        let tt = ss.drop_last();
        assert forall|i: int| 0 <= i < tt.len() implies !((#[trigger] tt[i]).state is Closed) by {
            assert(tt[i] == ss[i]);
        }
        lemma_all_live(tt);
    }
}

/// Opening a stream gives out the identifier that is next and moves past it, and
/// no other call changes which is next: no identifier is given out twice.
pub proof fn stream_ids_are_given_out_once(s: Sys, call: Call)
    requires
        accounted(s.c),
    ensures
        after(s, call).c.next_stream_id == next_id_after(s.c, call),
        call matches Call::OpenStream(fs, end) ==> (s.stream_opened(fs, end).1 matches Ok(id) ==> id
            == s.c.next_stream_id && id < after(s, call).c.next_stream_id),
{
    lemma_call(s, call);
    match call {
        Call::OpenStream(fs, end) => {
            lemma_open_stream(s, fs, end);
        },
        _ => {},
    }
}

/// The event queue holds the newest events: a new one is always in it, and only
/// the oldest is lost, from a full queue.
pub proof fn newest_events_are_kept(events: Seq<H2Event>, e: H2Event)
    ensures
        ({
            let q = model::pushed(events, e);
            &&& q.len() > 0 && q.last() == e
            &&& events.len() < super::connection::MAX_EVENTS ==> q.drop_last() == events
            &&& events.len() >= super::connection::MAX_EVENTS ==> q.drop_last() == events.skip(1)
        }),
{
    let q = model::pushed(events, e);
    if events.len() < super::connection::MAX_EVENTS {
        assert(q.drop_last() =~= events);
    } else {
        assert(q.drop_last() =~= events.skip(1));
    }
}

// Window updates.

/// The frame that returns the credit of a stream, where it was sent.
pub open spec fn credit_frame(before: StreamModel, after: StreamModel) -> Seq<u8> {
    if before.pending > 0 && after.pending == 0 {
        frame::window_update_frame(before.id, before.pending)
    } else {
        Seq::empty()
    }
}

/// The frames that return the credit of the streams from `i` on.
pub open spec fn credit_frames(before: Seq<StreamModel>, after: Seq<StreamModel>, i: int) -> Seq<u8>
    decreases before.len() - i,
{
    if i < 0 || i >= before.len() {
        Seq::empty()
    } else {
        credit_frame(before[i], after[i]) + credit_frames(before, after, i + 1)
    }
}

/// The frame that returns the credit of the connection, where it was sent.
pub open spec fn conn_credit_frame(before: Conn, after: Conn) -> Seq<u8> {
    if before.pending > 0 && after.pending == 0 {
        frame::window_update_frame(0, before.pending)
    } else {
        Seq::empty()
    }
}

proof fn lemma_frames_from(a: Seq<StreamModel>, b: Seq<StreamModel>, after: Seq<StreamModel>, i: int)
    requires
        a.len() == b.len(),
        0 <= i,
        forall|j: int| i <= j < a.len() ==> #[trigger] a[j] == b[j],
    ensures
        credit_frames(a, after, i) == credit_frames(b, after, i),
    decreases a.len() - i,
{
    if i < a.len() {
        lemma_frames_from(a, b, after, i + 1);
    }
}

proof fn lemma_flush_from(s: Sys, i: int)
    requires
        0 <= i <= s.c.streams.len(),
    ensures
        ({
            let t = s.flush_from(i);
            &&& t.c == (Conn { streams: t.c.streams, ..s.c })
            &&& t.c.streams.len() == s.c.streams.len()
            &&& forall|j: int| 0 <= j < i ==> #[trigger] t.c.streams[j] == s.c.streams[j]
            &&& forall|j: int|
                i <= j < s.c.streams.len() ==> credit_returned(
                    s.c.streams[j],
                    #[trigger] t.c.streams[j],
                )
            &&& t.io.send == s.io.send + credit_frames(s.c.streams, t.c.streams, i)
            &&& t.io.recv == s.io.recv
        }),
    decreases s.c.streams.len() - i,
{
    if i < s.c.streams.len() {
        let v = s.flush_stream(i);
        let t = s.flush_from(i);
        lemma_flush_from(v, i + 1);
        assert(t == v.flush_from(i + 1));
        assert(t.c.streams[i] == v.c.streams[i]);
        assert forall|j: int| 0 <= j < i implies #[trigger] t.c.streams[j] == s.c.streams[j] by {
            assert(t.c.streams[j] == v.c.streams[j]);
        }
        assert forall|j: int| i <= j < s.c.streams.len() implies credit_returned(
            s.c.streams[j],
            #[trigger] t.c.streams[j],
        ) by {
            if j > i {
                assert(v.c.streams[j] == s.c.streams[j]);
            }
        }
        lemma_frames_from(v.c.streams, s.c.streams, t.c.streams, i + 1);
        assert(v.io.send =~= s.io.send + credit_frame(s.c.streams[i], t.c.streams[i]));
        assert(t.io.send =~= s.io.send + credit_frames(s.c.streams, t.c.streams, i));
    } else {
        assert(s.io.send =~= s.io.send + credit_frames(s.c.streams, s.c.streams, i));
    }
}

/// The credit of a stream was returned, all of it, or it is still owed and nothing
/// has changed. Where none is owed nothing changes.
pub open spec fn credit_returned(before: StreamModel, after: StreamModel) -> bool {
    if before.pending > 0 && after.pending == 0 {
        after == before.credit_sent()
    } else {
        after == before
    }
}

/// The credit that was owed has been returned, as far as there was room: for the
/// connection, and for each stream, either the frame that returns all of it went
/// out and the receive window grew by it, or nothing changed. The window of a
/// stream grows no further than the largest there can be. Nothing else was queued,
/// and what waited to be sent stays in front.
pub open spec fn owed_returned(s: Sys, t: Sys) -> bool {
    &&& t.io.send == s.io.send + conn_credit_frame(s.c, t.c) + credit_frames(
        s.c.streams,
        t.c.streams,
        0,
    )
    &&& t.io.recv == s.io.recv
    &&& if s.c.pending > 0 && t.c.pending == 0 {
        t.c.recv_window == s.c.recv_window + s.c.pending
    } else {
        t.c.pending == s.c.pending && t.c.recv_window == s.c.recv_window
    }
    &&& t.c.streams.len() == s.c.streams.len()
    &&& forall|i: int|
        0 <= i < s.c.streams.len() ==> credit_returned(s.c.streams[i], #[trigger] t.c.streams[i])
    &&& t.c == (Conn {
        streams: t.c.streams,
        recv_window: t.c.recv_window,
        pending: t.c.pending,
        ..s.c
    })
}

/// Flushing returns exactly the credit that is owed, where the window of the
/// connection can grow by what it owes.
pub proof fn flushing_returns_what_is_owed(s: Sys)
    requires
        s.c.recv_window + s.c.pending <= flow_control::MAX_WINDOW_SIZE,
    ensures
        owed_returned(s, s.flushed()),
{
    reveal(Sys::flushed);
    let u = s.flush_conn();
    let t = s.flushed();
    lemma_flush_from(u, 0);
    assert(u.io.send =~= s.io.send + conn_credit_frame(s.c, t.c));
}

/// In every state that a connection can come to, its window can grow by what it
/// owes, and flushing returns exactly the credit that is owed.
pub proof fn flushing_always_returns_what_is_owed(
    role: Role,
    max_streams: usize,
    data_cap: usize,
    io: Wire,
    lim: Limits,
    calls: Seq<Call>,
)
    ensures
        ({
            let s = run(Sys { c: Conn::initial(role, max_streams, data_cap), io, lim }, calls);
            s.c.recv_window + s.c.pending <= flow_control::MAX_WINDOW_SIZE && owed_returned(
                s,
                s.flushed(),
            )
        }),
{
    let s = run(Sys { c: Conn::initial(role, max_streams, data_cap), io, lim }, calls);
    receive_credit_is_conserved(role, max_streams, data_cap, io, lim, calls);
    lemma_unread_positive(s.c.streams);
    flushing_returns_what_is_owed(s);
}

} // verus!
