//! What an HTTP/2 connection does with received data.

use vstd::prelude::*;

use super::connection;
use super::connection::{
    H2ConnState, H2Connection, H2Event, PartialData, Role, CONNECTION_PREFACE,
};
use super::flow_control::FlowController;
use super::frame;
use super::frame::{
    H2Frame, H2FrameHeader, FLAG_ACK, FLAG_END_HEADERS, FLAG_END_STREAM, FLAG_PADDED,
    FLAG_PRIORITY, FRAME_CONTINUATION, FRAME_DATA, FRAME_GOAWAY, FRAME_HEADERS, FRAME_HEADER_LEN,
    FRAME_PING, FRAME_RST_STREAM, FRAME_SETTINGS, FRAME_WINDOW_UPDATE,
};
use super::model;
use super::model::{Conn, DataHead, PumpStep, Round, Sys};
use super::settings;
use crate::bytes;
use crate::error::{Error, H2Error};
use crate::io::{IoBufs, Wire};

verus! {

impl<const MAX_STREAMS: usize, const HDRBUF: usize, const DATABUF: usize> H2Connection<
    MAX_STREAMS,
    HDRBUF,
    DATABUF,
> {
    // ------------------------------------------------------------------
    // DATA frames
    // ------------------------------------------------------------------

    /// Delivers received bytes to the stream at `i`.
    fn deliver_to(&mut self, i: usize, data: &[u8])
        requires
            old(self).wf(),
            i < old(self)@.streams.len(),
            old(self)@.streams[i as int].data.len() + data@.len() <= DATABUF,
            data@.len() <= 0x7fff_ffff,
        ensures
            final(self).wf(),
            final(self)@ == old(self)@.with_stream(
                i as int,
                old(self)@.streams[i as int].delivered(data@),
            ),
    {
        let ghost streams = self.streams@;
        proof {
            connection::lemma_views_at(streams, i as int);
        }
        self.streams[i].deliver(data);
        proof {
            connection::lemma_views_update(streams, i as int, self.streams@[i as int]);
            assert(self.streams@ =~= streams.update(i as int, self.streams@[i as int]));
        }
    }

    /// How many bytes of a DATA frame's payload can be taken in, and by which
    /// stream; by none if they are to be dropped.
    fn plan_payload<const BUF: usize>(&self, io: &IoBufs<BUF>, pd: &PartialData) -> (r: (
        Option<usize>,
        usize,
    ))
        requires
            self.wf(),
        ensures
            match self.sys(*io).pump_step(*pd) {
                PumpStep::Wait => r.1 == 0,
                PumpStep::Deliver(i, n) => r.1 == n && n > 0 && r.0 == Some(i as usize) && i
                    <= usize::MAX,
                PumpStep::Discard(n) => r.1 == n && n > 0 && r.0 is None,
            },
    {
        reveal(Sys::pump_step);
        let avail: usize = io.recv_buf.len();
        let n: usize = if pd.data_remaining <= avail {
            pd.data_remaining
        } else {
            avail
        };
        if n == 0 {
            return (None, 0);
        }
        match self.find_stream(pd.stream_id) {
            Some(i) if pd.deliver => {
                proof {
                    connection::lemma_views_at(self.streams@, i as int);
                }
                let free: usize = DATABUF - self.streams[i].data_buf.len();
                (
                    Some(i),
                    if free < n {
                        free
                    } else {
                        n
                    },
                )
            },
            _ => (None, n),
        }
    }

    /// Takes in payload of a DATA frame. Payload for a stream that is gone is
    /// dropped and credited to the connection (RFC 9113 §6.9.1).
    fn pump_payload<const BUF: usize>(&mut self, io: &mut IoBufs<BUF>, pd: PartialData) -> (r:
        PartialData)
        requires
            old(self).wf(),
            old(io).wf(),
            pd.data_remaining < 0x100_0000,
        ensures
            final(self).wf(),
            final(io).wf(),
            final(self).sys(*final(io)) == old(self).sys(*old(io)).payload_pumped(pd).0,
            r == old(self).sys(*old(io)).payload_pumped(pd).1,
            r.data_remaining <= pd.data_remaining,
            r.pad_remaining == pd.pad_remaining,
    {
        proof {
            model::payload_pump_bounds(self.sys(*io), pd);
        }
        let (at, n) = self.plan_payload(io, &pd);
        if n == 0 {
            return pd;
        }
        match at {
            Some(i) => {
                assert(io@.recv.subrange(0, n as int) =~= io@.recv.take(n as int));
                self.deliver_to(i, &io.recv_buf.as_slice()[0..n]);
                io.drain_recv(n);
                self.push_event(H2Event::Data(pd.stream_id));
                PartialData { data_remaining: pd.data_remaining - n, ..pd }
            },
            None => {
                io.drain_recv(n);
                self.credit_connection(io, n as u32);
                PartialData { data_remaining: pd.data_remaining - n, deliver: false, ..pd }
            },
        }
    }

    /// Takes note of a DATA frame that a stream has received whole.
    fn end_stream_data<const BUF: usize>(&mut self, io: &IoBufs<BUF>, id: u64, end: bool)
        requires
            old(self).wf(),
        ensures
            final(self).wf(),
            final(self).sys(*io) == old(self).sys(*io).stream_data_ended(id, end),
    {
        reveal(Sys::stream_data_ended);
        if let Some(i) = self.find_stream(id) {
            let ghost streams = self.streams@;
            proof {
                connection::lemma_views_at(streams, i as int);
            }
            self.streams[i].end_data(end);
            proof {
                connection::lemma_views_update(streams, i as int, self.streams@[i as int]);
                assert(self.streams@ =~= streams.update(i as int, self.streams@[i as int]));
            }
        }
        if end {
            self.push_event(H2Event::Finished(id));
        }
    }

    /// Ends a DATA frame that was taken in whole, or keeps what is left of it.
    fn end_frame<const BUF: usize>(&mut self, io: &IoBufs<BUF>, pd: PartialData)
        requires
            old(self).wf(),
            pd.data_remaining < 0x100_0000,
            pd.pad_remaining <= 255,
        ensures
            final(self).wf(),
            final(self).sys(*io) == old(self).sys(*io).frame_ended(pd),
    {
        if pd.data_remaining > 0 || pd.pad_remaining > 0 {
            self.partial_data = Some(pd);
            return;
        }
        self.partial_data = None;
        if pd.deliver {
            self.end_stream_data(io, pd.stream_id, pd.end_stream);
        }
    }

    /// Drops padding behind a payload that was taken in whole.
    fn pump_padding<const BUF: usize>(&self, io: &mut IoBufs<BUF>, pd: PartialData) -> (r:
        PartialData)
        requires
            old(io).wf(),
        ensures
            final(io).wf(),
            (self.sys(*final(io)), r) == self.sys(*old(io)).padding_pumped(pd),
            r.pad_remaining <= pd.pad_remaining,
            r.data_remaining == pd.data_remaining,
    {
        if pd.data_remaining == 0 && pd.pad_remaining > 0 {
            let avail: usize = io.recv_buf.len();
            let n: usize = if pd.pad_remaining <= avail {
                pd.pad_remaining
            } else {
                avail
            };
            io.drain_recv(n);
            return PartialData { pad_remaining: pd.pad_remaining - n, ..pd };
        }
        pd
    }

    /// Takes in as much of the DATA frame in progress as was received and as its
    /// stream has room for. Either all of it is taken in, or received bytes ran
    /// out, or the stream is full until the application reads from it.
    fn pump_partial_data<const BUF: usize>(&mut self, io: &mut IoBufs<BUF>)
        requires
            old(self).wf(),
            old(io).wf(),
        ensures
            final(self).wf(),
            final(io).wf(),
            final(self).sys(*final(io)) == old(self).sys(*old(io)).pumped(),
    {
        if let Some(pd) = self.partial_data {
            let pd1: PartialData = self.pump_payload(io, pd);
            let pd2: PartialData = self.pump_padding(io, pd1);
            self.end_frame(io, pd2);
        }
    }

    /// Judges the header of a DATA frame. Only the header (and the pad length)
    /// has to be there; `None` where it is not.
    fn judge_data<const BUF: usize>(&self, io: &IoBufs<BUF>, h: &H2FrameHeader) -> (r: Result<
        Option<DataHead>,
        Error,
    >)
        requires
            self.wf(),
            io@.recv.len() >= FRAME_HEADER_LEN,
            h.length < 0x100_0000,
        ensures
            r == self.sys(*io).data_verdict(*h),
            r matches Ok(Some(d)) ==> d.header_len <= io@.recv.len() && d.partial.data_remaining
                < 0x100_0000 && d.partial.pad_remaining <= 255,
    {
        reveal(Sys::data_verdict);
        if h.stream_id == 0 {
            return Err(Error::Http2(H2Error::ProtocolError));
        }
        let padded: bool = frame::has_flag(h.flags, FLAG_PADDED);
        let header_len: usize = if padded {
            10
        } else {
            9
        };
        if io.recv_buf.len() < header_len {
            return Ok(None);
        }
        let (start, end) = content_range(io.recv_buf.as_slice(), h)?;
        let n: usize = end - start;
        let at: Option<usize> = self.find_stream(h.stream_id);
        // RFC 9113 §6.9.1: once the peer has acknowledged our settings it must
        // keep to the window that they announce. Before that it may send more
        // (§6.9.2), which the room in the stream's buffer bounds.
        if let Some(i) = at {
            proof {
                connection::lemma_views_at(self.streams@, i as int);
            }
            if self.settings_ack_received && n as i64 > self.streams[i].recv_window as i64 {
                return Err(Error::Http2(H2Error::FlowControlError));
            }
        }
        let mut fc = self.conn_recv_fc;
        fc.consume(n as u32)?;
        Ok(
            Some(
                DataHead {
                    header_len,
                    window: fc.window,
                    partial: PartialData {
                        stream_id: h.stream_id,
                        end_stream: frame::has_flag(h.flags, FLAG_END_STREAM),
                        data_remaining: n,
                        pad_remaining: FRAME_HEADER_LEN + h.length as usize - end,
                        deliver: at.is_some(),
                    },
                },
            ),
        )
    }

    /// Takes in the header of a DATA frame. The payload follows as it arrives.
    fn on_data<const BUF: usize>(&mut self, io: &mut IoBufs<BUF>, h: &H2FrameHeader) -> (r: Result<
        bool,
        Error,
    >)
        requires
            old(self).wf(),
            old(io).wf(),
            old(io)@.recv.len() >= FRAME_HEADER_LEN,
            h.length < 0x100_0000,
        ensures
            final(self).wf(),
            final(io).wf(),
            round_end(old(self).sys(*old(io)).on_data(*h), final(self).sys(*final(io)), r),
    {
        match self.judge_data(io, h)? {
            None => Ok(false),
            Some(d) => {
                self.conn_recv_fc.window = d.window;
                self.partial_data = Some(d.partial);
                io.drain_recv(d.header_len);
                Ok(true)
            },
        }
    }

    // ------------------------------------------------------------------
    // Other frames
    // ------------------------------------------------------------------

    /// Judges a HEADERS frame. Returns where its header block fragment starts
    /// and ends.
    fn judge_headers<const BUF: usize>(&self, io: &IoBufs<BUF>, h: &H2FrameHeader) -> (r: Result<
        (usize, usize),
        Error,
    >)
        requires
            self.wf(),
            whole_frame(io@, *h),
        ensures
            match r {
                Ok((start, end)) => self.sys(*io).headers_verdict(*h) == Ok::<(int, int), Error>(
                    (start as int, end as int),
                ) && start <= end <= io@.recv.len(),
                Err(e) => self.sys(*io).headers_verdict(*h) == Err::<(int, int), Error>(e),
            },
    {
        reveal(Sys::headers_verdict);
        reveal(model::fragment);
        if h.stream_id == 0 {
            return Err(Error::Http2(H2Error::ProtocolError));
        }
        let (start, end) = content_range(io.recv_buf.as_slice(), h)?;
        let frag: usize = if frame::has_flag(h.flags, FLAG_PRIORITY) {
            if end - start < 5 {
                return Err(Error::BufferTooSmall { needed: 5 });
            }
            start + 5
        } else {
            start
        };
        let is_new: bool = self.find_stream(h.stream_id).is_none();
        if is_new && !(self.role == Role::Server && h.stream_id % 2 == 1) {
            return Err(Error::Http2(H2Error::ProtocolError));
        }
        Ok((frag, end))
    }

    /// Stores the first fragment of a header block. A block that does not fit
    /// the stream's buffer ends the connection rather than being cut short.
    fn begin_block(&mut self, i: usize, frag: &[u8], end_headers: bool, end_stream: bool) -> (r:
        Result<(), ()>)
        requires
            old(self).wf(),
            i < old(self)@.streams.len(),
        ensures
            final(self).wf(),
            r is Ok <==> frag@.len() <= HDRBUF,
            final(self)@ == old(self)@.with_stream(
                i as int,
                if frag@.len() <= HDRBUF {
                    old(self)@.streams[i as int].headers_begun().headers_grown(
                        frag@,
                        end_headers,
                    ).recv_ended(end_stream)
                } else {
                    old(self)@.streams[i as int].headers_begun()
                },
            ),
    {
        let ghost streams = self.streams@;
        proof {
            connection::lemma_views_at(streams, i as int);
        }
        self.streams[i].begin_headers();
        let r: Result<(), ()> = self.streams[i].grow_headers(frag, end_headers);
        if r.is_ok() && end_stream {
            self.streams[i].recv_end_stream();
        }
        proof {
            connection::lemma_views_update(streams, i as int, self.streams@[i as int]);
            assert(self.streams@ =~= streams.update(i as int, self.streams@[i as int]));
        }
        r
    }

    /// Tells the application of headers, or expects more of them.
    fn signal_headers<const BUF: usize>(
        &mut self,
        io: &IoBufs<BUF>,
        id: u64,
        end_headers: bool,
        end_stream: bool,
    )
        requires
            old(self).wf(),
        ensures
            final(self).wf(),
            final(self).sys(*io) == old(self).sys(*io).headers_signalled(
                id,
                end_headers,
                end_stream,
            ),
    {
        if end_headers {
            self.push_event(H2Event::Headers(id));
        } else {
            self.continuation_stream_id = Some(id);
        }
        if end_stream {
            self.push_event(H2Event::Finished(id));
        }
    }

    /// Stores the first fragment of a header block with its stream.
    fn store_headers<const BUF: usize>(
        &mut self,
        io: &IoBufs<BUF>,
        range: (usize, usize),
        h: &H2FrameHeader,
    ) -> (r: Result<(), Error>)
        requires
            old(self).wf(),
            range.0 <= range.1 <= io@.recv.len(),
            model::find(old(self)@.streams, h.stream_id) is Some,
        ensures
            final(self).wf(),
            (final(self).sys(*io), r) == old(self).sys(*io).headers_stored(
                h.stream_id,
                io@.recv.subrange(range.0 as int, range.1 as int),
                frame::flag_set(h.flags, FLAG_END_HEADERS),
                frame::flag_set(h.flags, FLAG_END_STREAM),
            ),
    {
        let end_headers: bool = frame::has_flag(h.flags, FLAG_END_HEADERS);
        let end_stream: bool = frame::has_flag(h.flags, FLAG_END_STREAM);
        if let Some(i) = self.find_stream(h.stream_id) {
            let frag: &[u8] = &io.recv_buf.as_slice()[range.0..range.1];
            if self.begin_block(i, frag, end_headers, end_stream).is_err() {
                return Err(Error::Http2(H2Error::EnhanceYourCalm));
            }
        }
        self.signal_headers(io, h.stream_id, end_headers, end_stream);
        Ok(())
    }

    /// Takes note of a stream identifier that the peer used.
    fn see_peer_id(&mut self, id: u64)
        requires
            old(self).wf(),
        ensures
            final(self).wf(),
            final(self)@ == (Conn {
                last_peer_stream_id: if old(self)@.last_peer_stream_id >= id {
                    old(self)@.last_peer_stream_id
                } else {
                    id
                },
                ..old(self)@
            }),
    {
        if self.last_peer_stream_id < id {
            self.last_peer_stream_id = id;
        }
    }

    /// A peer that opens more streams than were announced violates the protocol
    /// (RFC 9113 §5.1.2). No event is pushed for a stream that was not created.
    fn on_headers<const BUF: usize>(&mut self, io: &mut IoBufs<BUF>, h: &H2FrameHeader) -> (r:
        Result<(), Error>)
        requires
            old(self).wf(),
            old(io).wf(),
            whole_frame(old(io)@, *h),
        ensures
            final(self).wf(),
            final(io).wf(),
            (final(self).sys(*final(io)), r) == old(self).sys(*old(io)).on_headers(*h),
    {
        reveal(Sys::on_headers);
        let range: (usize, usize) = self.judge_headers(io, h)?;
        self.see_peer_id(h.stream_id);
        proof {
            model::ensured_finds(self.sys(*io), h.stream_id);
        }
        if !self.ensure_stream(io, h.stream_id) {
            return Err(Error::Http2(H2Error::ProtocolError));
        }
        self.store_headers(io, range, h)
    }

    /// Stores more of a header block with the stream at `i`.
    fn continue_headers<const BUF: usize>(&mut self, io: &IoBufs<BUF>, i: usize, h: &H2FrameHeader)
        -> (r: Result<(), Error>)
        requires
            old(self).wf(),
            i < old(self)@.streams.len(),
            whole_frame(io@, *h),
        ensures
            final(self).wf(),
            if old(self)@.streams[i as int].headers.len() + h.length > HDRBUF {
                &&& final(self)@ == old(self)@
                &&& r == Err::<(), Error>(Error::Http2(H2Error::EnhanceYourCalm))
            } else {
                &&& final(self).sys(*io) == old(self).sys(*io).headers_continued(
                    i as int,
                    h.stream_id,
                    old(self).sys(*io).payload(*h),
                    frame::flag_set(h.flags, FLAG_END_HEADERS),
                )
                &&& r == Ok::<(), Error>(())
            },
    {
        let end: bool = frame::has_flag(h.flags, FLAG_END_HEADERS);
        let total: usize = FRAME_HEADER_LEN + h.length as usize;
        let ghost streams = self.streams@;
        proof {
            connection::lemma_views_at(streams, i as int);
        }
        let more: &[u8] = &io.recv_buf.as_slice()[FRAME_HEADER_LEN..total];
        let grown: Result<(), ()> = self.streams[i].grow_headers(more, end);
        proof {
            connection::lemma_views_update(streams, i as int, self.streams@[i as int]);
            assert(self.streams@ =~= streams.update(i as int, self.streams@[i as int]));
        }
        if grown.is_err() {
            assert(self@.streams =~= old(self)@.streams);
            return Err(Error::Http2(H2Error::EnhanceYourCalm));
        }
        if end {
            self.continuation_stream_id = None;
            self.push_event(H2Event::Headers(h.stream_id));
        }
        Ok(())
    }

    fn on_continuation<const BUF: usize>(&mut self, io: &IoBufs<BUF>, h: &H2FrameHeader) -> (r:
        Result<(), Error>)
        requires
            old(self).wf(),
            whole_frame(io@, *h),
        ensures
            final(self).wf(),
            (final(self).sys(*io), r) == old(self).sys(*io).on_continuation(*h),
    {
        reveal(Sys::on_continuation);
        if h.stream_id == 0 {
            return Err(Error::Http2(H2Error::ProtocolError));
        }
        match self.find_stream(h.stream_id) {
            Some(i) => self.continue_headers(io, i, h),
            None => Ok(()),
        }
    }

    /// The settings exchange is complete.
    fn activate<const BUF: usize>(&mut self, io: &IoBufs<BUF>)
        requires
            old(self).wf(),
        ensures
            final(self).wf(),
            final(self).sys(*io) == old(self).sys(*io).activated(),
    {
        self.state = H2ConnState::Active;
        self.headers_phase_complete = true;
        self.push_event(H2Event::Connected);
    }

    /// Moves the send windows with the peer's initial window (RFC 9113 §6.9.2).
    /// A window that would leave its range is an error.
    fn move_windows(&mut self, delta: i64) -> (r: Result<(), Error>)
        requires
            old(self).wf(),
            -0x7fff_ffff <= delta <= 0x7fff_ffff,
        ensures
            final(self).wf(),
            final(self)@ == (Conn { streams: final(self)@.streams, ..old(self)@ }),
            (final(self)@.streams, r) == model::windows_moved(old(self)@.streams, delta as int, 0),
    {
        let mut i: usize = 0;
        while i < self.streams.len()
            invariant
                i <= self.streams@.len(),
                self.wf(),
                -0x7fff_ffff <= delta <= 0x7fff_ffff,
                self@ == (Conn { streams: self@.streams, ..old(self)@ }),
                model::windows_moved(self@.streams, delta as int, i as int)
                    == model::windows_moved(old(self)@.streams, delta as int, 0),
            decreases self.streams@.len() - i,
        {
            let ghost streams = self.streams@;
            proof {
                connection::lemma_views_at(streams, i as int);
            }
            let w: i64 = self.streams[i].send_window as i64 + delta;
            if w < i32::MIN as i64 || w > i32::MAX as i64 {
                return Err(Error::Http2(H2Error::FlowControlError));
            }
            self.streams[i].send_window = w as i32;
            proof {
                connection::lemma_views_update(streams, i as int, self.streams@[i as int]);
                assert(self.streams@ =~= streams.update(i as int, self.streams@[i as int]));
            }
            i = i + 1;
        }
        Ok(())
    }

    fn send_settings_ack<const BUF: usize>(&self, io: &mut IoBufs<BUF>) -> (r: Result<(), Error>)
        requires
            old(io).wf(),
        ensures
            final(io).wf(),
            final(io)@ == old(io)@.queued(
                frame::settings_frame(true, Seq::empty()),
                BUF as int,
            ),
            r == old(io)@.queue_result(frame::settings_frame(true, Seq::empty()), BUF as int),
    {
        let params: [u8; 0] = [];
        assert(params@ =~= Seq::<u8>::empty());
        let f: Vec<u8> = frame::frame_to_vec(&H2Frame::Settings { ack: true, params: &params });
        io.queue_send(f.as_slice())
    }

    /// Acknowledges the peer's settings and lets them take effect.
    fn accept_settings<const BUF: usize>(&mut self, io: &mut IoBufs<BUF>, delta: i64) -> (r: Result<
        (),
        Error,
    >)
        requires
            old(self).wf(),
            old(io).wf(),
            -0x7fff_ffff <= delta <= 0x7fff_ffff,
        ensures
            final(self).wf(),
            final(io).wf(),
            (final(self).sys(*final(io)), r) == old(self).sys(*old(io)).settings_accepted(
                delta as int,
            ),
    {
        self.send_settings_ack(io)?;
        if self.state == H2ConnState::WaitingPreface || self.state
            == H2ConnState::WaitingSettings {
            self.activate(io);
        }
        if delta == 0 {
            return Ok(());
        }
        self.move_windows(delta)
    }

    /// Applies the peer's settings.
    fn receive_settings<const BUF: usize>(&mut self, io: &mut IoBufs<BUF>, h: &H2FrameHeader) -> (r:
        Result<(), Error>)
        requires
            old(self).wf(),
            old(io).wf(),
            whole_frame(old(io)@, *h),
        ensures
            final(self).wf(),
            final(io).wf(),
            (final(self).sys(*final(io)), r) == old(self).sys(*old(io)).settings_received(
                old(self).sys(*old(io)).payload(*h),
            ),
    {
        let total: usize = FRAME_HEADER_LEN + h.length as usize;
        let before: i64 = self.peer_settings.initial_window_size as i64;
        proof {
            settings::payload_keeps_settings_valid(
                self@.peer,
                self.sys(*io).payload(*h),
            );
        }
        self.peer_settings.apply_payload(&io.recv_buf.as_slice()[FRAME_HEADER_LEN..total])?;
        self.peer_settings_received = true;
        let after: i64 = self.peer_settings.initial_window_size as i64;
        self.accept_settings(io, after - before)
    }

    /// Takes note that our settings were acknowledged.
    fn settings_acked<const BUF: usize>(&mut self, io: &IoBufs<BUF>)
        requires
            old(self).wf(),
        ensures
            final(self).wf(),
            final(self).sys(*io) == old(self).sys(*io).settings_acked(),
    {
        self.settings_ack_received = true;
        if self.peer_settings_received && self.state == H2ConnState::WaitingSettings {
            self.activate(io);
        }
    }

    fn on_settings<const BUF: usize>(&mut self, io: &mut IoBufs<BUF>, h: &H2FrameHeader) -> (r:
        Result<(), Error>)
        requires
            old(self).wf(),
            old(io).wf(),
            whole_frame(old(io)@, *h),
        ensures
            final(self).wf(),
            final(io).wf(),
            (final(self).sys(*final(io)), r) == old(self).sys(*old(io)).on_settings(*h),
    {
        reveal(Sys::on_settings);
        if h.stream_id != 0 {
            return Err(Error::Http2(H2Error::ProtocolError));
        }
        if !frame::has_flag(h.flags, FLAG_ACK) {
            return self.receive_settings(io, h);
        }
        if h.length != 0 {
            return Err(Error::Http2(H2Error::FrameSizeError));
        }
        self.settings_acked(io);
        Ok(())
    }

    /// Judges a WINDOW_UPDATE frame. Returns the increment.
    fn judge_increment<const BUF: usize>(&self, io: &IoBufs<BUF>, h: &H2FrameHeader) -> (r: Result<
        u32,
        Error,
    >)
        requires
            whole_frame(io@, *h),
        ensures
            r == self.sys(*io).increment(*h),
    {
        reveal(Sys::increment);
        if h.length != 4 {
            return Err(Error::InvalidState);
        }
        let inc: u32 = bytes::get31(io.recv_buf.as_slice(), FRAME_HEADER_LEN);
        if inc == 0 {
            return Err(Error::Http2(H2Error::ProtocolError));
        }
        Ok(inc)
    }

    /// Gives a stream send credit.
    fn grow_stream_window<const BUF: usize>(&mut self, io: &IoBufs<BUF>, id: u64, inc: u32) -> (r:
        Result<(), Error>)
        requires
            old(self).wf(),
        ensures
            final(self).wf(),
            (final(self).sys(*io), r) == old(self).sys(*io).stream_window_grown(id, inc),
    {
        match self.find_stream(id) {
            None => Ok(()),
            Some(i) => {
                let ghost streams = self.streams@;
                proof {
                    connection::lemma_views_at(streams, i as int);
                }
                let mut fc = FlowController::new(self.streams[i].send_window);
                fc.replenish(inc)?;
                self.streams[i].send_window = fc.window();
                proof {
                    connection::lemma_views_update(streams, i as int, self.streams@[i as int]);
                    assert(self.streams@ =~= streams.update(i as int, self.streams@[i as int]));
                }
                Ok(())
            },
        }
    }

    fn on_window_update<const BUF: usize>(&mut self, io: &IoBufs<BUF>, h: &H2FrameHeader) -> (r:
        Result<(), Error>)
        requires
            old(self).wf(),
            whole_frame(io@, *h),
        ensures
            final(self).wf(),
            (final(self).sys(*io), r) == old(self).sys(*io).on_window_update(*h),
    {
        reveal(Sys::on_window_update);
        let inc: u32 = self.judge_increment(io, h)?;
        if h.stream_id == 0 {
            self.conn_send_fc.replenish(inc)
        } else {
            self.grow_stream_window(io, h.stream_id, inc)
        }
    }

    fn send_ping_ack<const BUF: usize>(&self, io: &mut IoBufs<BUF>, data: [u8; 8]) -> (r: Result<
        (),
        Error,
    >)
        requires
            old(io).wf(),
        ensures
            final(io).wf(),
            final(io)@ == old(io)@.queued(frame::ping_frame(data@, true), BUF as int),
            r == old(io)@.queue_result(frame::ping_frame(data@, true), BUF as int),
    {
        let f: Vec<u8> = frame::frame_to_vec(&H2Frame::Ping { data, ack: true });
        io.queue_send(f.as_slice())
    }

    fn on_ping<const BUF: usize>(&self, io: &mut IoBufs<BUF>, h: &H2FrameHeader) -> (r: Result<
        (),
        Error,
    >)
        requires
            old(io).wf(),
            whole_frame(old(io)@, *h),
        ensures
            final(io).wf(),
            (self.sys(*final(io)), r) == self.sys(*old(io)).on_ping(*h),
    {
        reveal(Sys::on_ping);
        if h.stream_id != 0 {
            return Err(Error::Http2(H2Error::ProtocolError));
        }
        if h.length != 8 {
            return Err(Error::Http2(H2Error::FrameSizeError));
        }
        if frame::has_flag(h.flags, FLAG_ACK) {
            return Ok(());
        }
        let recv: &[u8] = io.recv_buf.as_slice();
        let data: [u8; 8] = [
            recv[9],
            recv[10],
            recv[11],
            recv[12],
            recv[13],
            recv[14],
            recv[15],
            recv[16],
        ];
        assert(data@ =~= self.sys(*io).payload(*h));
        self.send_ping_ack(io, data)
    }

    fn on_goaway<const BUF: usize>(&mut self, io: &IoBufs<BUF>, h: &H2FrameHeader) -> (r: Result<
        (),
        Error,
    >)
        requires
            old(self).wf(),
            whole_frame(io@, *h),
        ensures
            final(self).wf(),
            (final(self).sys(*io), r) == old(self).sys(*io).on_goaway(*h),
    {
        reveal(Sys::on_goaway);
        if h.stream_id != 0 {
            return Err(Error::InvalidState);
        }
        if h.length < 8 {
            return Err(Error::BufferTooSmall { needed: 8 });
        }
        let last: u32 = bytes::get31(io.recv_buf.as_slice(), 9);
        let code: u32 = bytes::get32(io.recv_buf.as_slice(), 13);
        self.state = H2ConnState::Closing;
        self.push_event(H2Event::GoAway(last as u64, code));
        Ok(())
    }

    /// Resets a stream. Its unread body is dropped and credited to the connection.
    fn drop_stream<const BUF: usize>(&mut self, io: &mut IoBufs<BUF>, id: u64)
        requires
            old(self).wf(),
            old(io).wf(),
        ensures
            final(self).wf(),
            final(io).wf(),
            final(self).sys(*final(io)) == old(self).sys(*old(io)).stream_dropped(id),
    {
        if let Some(i) = self.find_stream(id) {
            let ghost streams = self.streams@;
            proof {
                connection::lemma_views_at(streams, i as int);
            }
            let n: usize = self.streams[i].data_buf.len();
            let buffered: u32 = if n > u32::MAX as usize {
                u32::MAX
            } else {
                n as u32
            };
            self.streams[i].reset();
            proof {
                connection::lemma_views_update(streams, i as int, self.streams@[i as int]);
                assert(self.streams@ =~= streams.update(i as int, self.streams@[i as int]));
            }
            self.credit_connection(io, buffered);
        }
    }

    fn on_rst_stream<const BUF: usize>(&mut self, io: &mut IoBufs<BUF>, h: &H2FrameHeader) -> (r:
        Result<(), Error>)
        requires
            old(self).wf(),
            old(io).wf(),
            whole_frame(old(io)@, *h),
        ensures
            final(self).wf(),
            final(io).wf(),
            (final(self).sys(*final(io)), r) == old(self).sys(*old(io)).on_rst_stream(*h),
    {
        reveal(Sys::on_rst_stream);
        if h.stream_id == 0 || h.length != 4 {
            return Err(Error::InvalidState);
        }
        let code: u32 = bytes::get32(io.recv_buf.as_slice(), 9);
        self.drop_stream(io, h.stream_id);
        self.push_event(H2Event::StreamReset(h.stream_id, code));
        Ok(())
    }

    /// Handles a frame other than DATA. Unknown types, PRIORITY and PUSH_PROMISE
    /// are ignored.
    fn on_frame<const BUF: usize>(&mut self, io: &mut IoBufs<BUF>, h: &H2FrameHeader) -> (r: Result<
        (),
        Error,
    >)
        requires
            old(self).wf(),
            old(io).wf(),
            whole_frame(old(io)@, *h),
        ensures
            final(self).wf(),
            final(io).wf(),
            (final(self).sys(*final(io)), r) == old(self).sys(*old(io)).on_frame(*h),
    {
        reveal(Sys::on_frame);
        if h.frame_type == FRAME_HEADERS {
            self.on_headers(io, h)
        } else if h.frame_type == FRAME_SETTINGS {
            self.on_settings(io, h)
        } else if h.frame_type == FRAME_WINDOW_UPDATE {
            self.on_window_update(io, h)
        } else if h.frame_type == FRAME_PING {
            self.on_ping(io, h)
        } else if h.frame_type == FRAME_GOAWAY {
            self.on_goaway(io, h)
        } else if h.frame_type == FRAME_RST_STREAM {
            self.on_rst_stream(io, h)
        } else if h.frame_type == FRAME_CONTINUATION {
            self.on_continuation(io, h)
        } else {
            Ok(())
        }
    }

    // ------------------------------------------------------------------
    // Rounds
    // ------------------------------------------------------------------

    /// Reads the next frame, if its header was received.
    fn read_frame<const BUF: usize>(&mut self, io: &mut IoBufs<BUF>) -> (r: Result<bool, Error>)
        requires
            old(self).wf(),
            old(io).wf(),
            old(self)@.partial is None,
        ensures
            final(self).wf(),
            final(io).wf(),
            round_end(old(self).sys(*old(io)).round(), final(self).sys(*final(io)), r),
    {
        if io.recv_buf.len() < FRAME_HEADER_LEN {
            return Ok(false);
        }
        let h: H2FrameHeader = frame::decode_frame_header(io.recv_buf.as_slice());
        if h.length > self.local_settings.max_frame_size {
            return Err(Error::Http2(H2Error::FrameSizeError));
        }
        if let Some(expected) = self.continuation_stream_id {
            if h.frame_type != FRAME_CONTINUATION || h.stream_id != expected {
                return Err(Error::Http2(H2Error::ProtocolError));
            }
        }
        if h.frame_type == FRAME_DATA {
            return self.on_data(io, &h);
        }
        // A frame that cannot fit the receive buffer can never be assembled.
        let total: usize = FRAME_HEADER_LEN + h.length as usize;
        if total > BUF {
            return Err(Error::Http2(H2Error::FrameSizeError));
        }
        if io.recv_buf.len() < total {
            return Ok(false);
        }
        proof {
            model::on_frame_keeps_received(self.sys(*io), h);
        }
        self.on_frame(io, &h)?;
        io.drain_recv(total);
        Ok(true)
    }

    /// One round: the DATA frame in progress goes on, or the next frame is read.
    /// Returns whether there may be more to do.
    fn process_round<const BUF: usize>(&mut self, io: &mut IoBufs<BUF>) -> (r: Result<bool, Error>)
        requires
            old(self).wf(),
            old(io).wf(),
        ensures
            final(self).wf(),
            final(io).wf(),
            round_end(old(self).sys(*old(io)).round(), final(self).sys(*final(io)), r),
    {
        if self.partial_data.is_some() {
            self.pump_partial_data(io);
            return Ok(self.partial_data.is_none());
        }
        self.read_frame(io)
    }

    /// Checks the client's preface as far as it was received.
    fn validate_client_preface<const BUF: usize>(&mut self, io: &mut IoBufs<BUF>) -> (r: Result<
        (),
        Error,
    >)
        requires
            old(self).wf(),
            old(io).wf(),
        ensures
            final(self).wf(),
            final(io).wf(),
            (final(self).sys(*final(io)), r) == old(self).sys(*old(io)).preface_checked(),
    {
        let seen: usize = self.preface_bytes_seen;
        let left: usize = CONNECTION_PREFACE.len() - seen;
        let n: usize = if left <= io.recv_buf.len() {
            left
        } else {
            io.recv_buf.len()
        };
        let end: usize = seen + n;
        proof {
            assert(io@.recv.subrange(0, n as int) =~= io@.recv.take(n as int));
        }
        if !bytes::bytes_equal(
            &io.recv_buf.as_slice()[0..n],
            &CONNECTION_PREFACE.as_slice()[seen..end],
        ) {
            return Err(Error::InvalidState);
        }
        self.preface_bytes_seen = end;
        io.drain_recv(n);
        if end >= CONNECTION_PREFACE.len() {
            self.preface_validated = true;
        }
        Ok(())
    }

    /// Rounds until nothing more can be done; then streams that nothing needs
    /// are dropped.
    fn process_frames<const BUF: usize>(&mut self, io: &mut IoBufs<BUF>) -> (r: Result<(), Error>)
        requires
            old(self).wf(),
            old(io).wf(),
        ensures
            final(self).wf(),
            final(io).wf(),
            (final(self).sys(*final(io)), r) == old(self).sys(*old(io)).frames_processed(),
    {
        let ghost start = self.sys(*io);
        let mut more: bool = true;
        while more
            invariant
                self.wf(),
                io.wf(),
                start == old(self).sys(*old(io)),
                more ==> self.sys(*io).rounds() == start.rounds(),
                !more ==> start.rounds() == (self.sys(*io), Ok::<(), Error>(())),
            decreases
                if more {
                    1int
                } else {
                    0int
                },
                self.sys(*io).work(),
        {
            let ghost before = self.sys(*io);
            proof {
                model::round_makes_progress(before);
            }
            more = self.process_round(io)?;
            proof {
                if !more {
                    assert(before.rounds() == (self.sys(*io), Ok::<(), Error>(())));
                }
            }
        }
        self.sweep_streams();
        Ok(())
    }

    /// Processes what was received.
    pub(crate) fn process_recv<const BUF: usize>(&mut self, io: &mut IoBufs<BUF>) -> (r: Result<
        (),
        Error,
    >)
        requires
            old(self).wf(),
            old(io).wf(),
        ensures
            final(self).wf(),
            final(io).wf(),
            (final(self).sys(*final(io)), r) == old(self).sys(*old(io)).processed(),
    {
        if self.role == Role::Server && !self.preface_validated {
            self.validate_client_preface(io)?;
            if !self.preface_validated {
                return Ok(());
            }
        }
        self.process_frames(io)
    }

    /// Feeds received data into the connection.
    pub fn feed_data<const BUF: usize>(&mut self, io: &mut IoBufs<BUF>, data: &[u8]) -> (r: Result<
        (),
        Error,
    >)
        requires
            old(self).wf(),
            old(io).wf(),
        ensures
            final(self).wf(),
            final(io).wf(),
            (final(self).sys(*final(io)), r) == old(self).sys(*old(io)).fed(data@),
    {
        self.generate_output(io);
        let needed: usize = io.recv_buf.len().saturating_add(data.len());
        if io.recv_buf.extend_from_slice(data).is_err() {
            return Err(Error::BufferTooSmall { needed });
        }
        self.process_recv(io)
    }

    /// Feeds received data with a timestamp, which counts as activity.
    pub fn feed_data_timed<const BUF: usize>(
        &mut self,
        io: &mut IoBufs<BUF>,
        data: &[u8],
        now: u64,
    ) -> (r: Result<(), Error>)
        requires
            old(self).wf(),
            old(io).wf(),
        ensures
            final(self).wf(),
            final(io).wf(),
            (final(self).sys(*final(io)), r) == old(self).sys(*old(io)).fed_at(data@, now),
    {
        self.last_activity = now;
        self.feed_data(io, data)
    }
}

/// The frame with this header is at the start of the received bytes, and whole.
pub open spec fn whole_frame(io: Wire, h: H2FrameHeader) -> bool {
    h.length < 0x100_0000 && io.recv.len() >= 9 + h.length
}

/// What a round that was carried out came to.
pub open spec fn round_end(round: Round, s: Sys, r: Result<bool, Error>) -> bool {
    match r {
        Ok(true) => round == Round::Next(s),
        Ok(false) => round == Round::Stop(s),
        Err(e) => round == Round::Fail(s, e),
    }
}

/// Where the content of a frame's payload starts and ends, padding left out.
fn content_range(recv: &[u8], h: &H2FrameHeader) -> (r: Result<(usize, usize), Error>)
    requires
        recv@.len() >= 9,
        frame::flag_set(h.flags, FLAG_PADDED) ==> recv@.len() >= 10 || h.length == 0,
        h.length < 0x100_0000,
    ensures
        match r {
            Ok((start, end)) => model::unpadded(recv@, *h) == Ok::<(int, int), Error>(
                (start as int, end as int),
            ) && 9 <= start <= end <= 9 + h.length && 9 + h.length - end <= 255,
            Err(e) => model::unpadded(recv@, *h) == Err::<(int, int), Error>(e),
        },
{
    reveal(model::unpadded);
    let len: usize = h.length as usize;
    if !frame::has_flag(h.flags, FLAG_PADDED) {
        return Ok((9, 9 + len));
    }
    if len == 0 {
        return Err(Error::BufferTooSmall { needed: 1 });
    }
    let pad: usize = recv[9] as usize;
    if pad >= len {
        return Err(Error::InvalidState);
    }
    Ok((10, 9 + len - pad))
}

} // verus!
